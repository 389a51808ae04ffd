//! Replay protection: a sliding window over the last 1024 packet numbers.

use vstd::prelude::*;
use crate::error::SeamError;

verus! {

/// How many packet numbers the window covers.
pub const WINDOW: u64 = 1024;

/// What a window remembers: the lowest number it covers, and the numbers it has seen.
pub struct WindowModel {
    pub base: int,
    pub seen: Set<int>,
}

impl WindowModel {
    /// The window moved up so that it covers `seq`.
    pub open spec fn reaching(self, seq: int) -> WindowModel {
        if seq < self.base + WINDOW {
            self
        } else {
            let base = seq - (WINDOW - 1);
            WindowModel { base, seen: self.seen.filter(|s: int| s >= base) }
        }
    }

    /// The number is below the window, or has been seen.
    pub open spec fn refuses(self, seq: int) -> bool {
        seq < self.base || self.seen.contains(seq)
    }

    /// The window after a number was offered.
    pub open spec fn offered(self, seq: int) -> WindowModel {
        if self.refuses(seq) {
            self
        } else {
            let w = self.reaching(seq);
            WindowModel { base: w.base, seen: w.seen.insert(seq) }
        }
    }

    /// The window after the first `n` numbers of a list were offered in turn.
    pub open spec fn after(self, list: Seq<u64>, n: nat) -> WindowModel
        decreases n,
    {
        if n == 0 {
            self
        } else {
            self.after(list, (n - 1) as nat).offered(list[n - 1] as int)
        }
    }
}

/// A number that a window refuses stays refused whatever is offered.
pub proof fn law_refusal_is_final(w: WindowModel, seq: int, other: int)
    requires
        w.refuses(seq),
    ensures
        w.offered(other).refuses(seq),
{
}

/// A number is refused as soon as it has been offered.
pub proof fn law_offered_is_refused(w: WindowModel, seq: int)
    ensures
        w.offered(seq).refuses(seq),
{
}

/// Among any numbers offered in turn, none is accepted twice.
pub proof fn law_never_accepted_twice(w: WindowModel, list: Seq<u64>, i: nat, j: nat)
    requires
        i < j < list.len(),
        list[i as int] == list[j as int],
    ensures
        w.after(list, j).refuses(list[j as int] as int),
    decreases j,
{
    if j == i + 1 {
        law_offered_is_refused(w.after(list, i), list[i as int] as int);
    } else {
        let n = list[i as int] as int;
        lemma_stays_refused(w, list, i, j, n);
    }
}

proof fn lemma_stays_refused(w: WindowModel, list: Seq<u64>, i: nat, j: nat, n: int)
    requires
        i < j <= list.len(),
        n == list[i as int],
    ensures
        w.after(list, j).refuses(n),
    decreases j,
{
    if j == i + 1 {
        law_offered_is_refused(w.after(list, i), n);
    } else {
        lemma_stays_refused(w, list, i, (j - 1) as nat, n);
        law_refusal_is_final(w.after(list, (j - 1) as nat), n, list[j - 1] as int);
    }
}

/// A window that has seen nothing.
pub open spec fn unused() -> WindowModel {
    WindowModel { base: 0, seen: Set::empty() }
}

/// Of any numbers offered in turn to a new window, exactly those are refused that were offered
/// before, and those more than 1023 below the highest number so far: every other number, however
/// late it comes, is accepted.
pub proof fn law_fresh_numbers_accepted(list: Seq<u64>, n: nat, highest: u64, x: u64)
    requires
        0 < n <= list.len(),
        exists|i: int| 0 <= i < n && list[i] == highest,
        forall|i: int| 0 <= i < n ==> list[i] <= highest,
    ensures
        unused().after(list, n).refuses(x as int) <==> (x + 1024 <= highest || exists|i: int|
            0 <= i < n && list[i] == x),
{
    lemma_window_after(list, n, highest);
    let w = unused().after(list, n);
    if exists|i: int| 0 <= i < n && list[i] == x {
        let i = choose|i: int| 0 <= i < n && list[i] == x;
        assert(w.refuses(list[i] as int));
    }
    if w.refuses(x as int) && x + 1024 > highest {
        assert(w.seen.contains(x as int));
    }
}

proof fn lemma_window_after(list: Seq<u64>, n: nat, highest: u64)
    requires
        0 < n <= list.len(),
        exists|i: int| 0 <= i < n && list[i] == highest,
        forall|i: int| 0 <= i < n ==> list[i] <= highest,
    ensures
        unused().after(list, n).base == if highest < 1024 {
            0
        } else {
            highest - 1023
        },
        forall|x: int| #[trigger]
            unused().after(list, n).seen.contains(x) ==> exists|i: int| 0 <= i < n && list[i] == x,
        forall|i: int| 0 <= i < n ==> unused().after(list, n).refuses(#[trigger] list[i] as int),
    decreases n,
{
    let last = list[n - 1];
    let w = unused().after(list, n);
    if n == 1 {
        let v = unused().after(list, 0);
        assert(v == unused());
        assert(highest == last);
        assert(w == v.offered(last as int));
        assert forall|x: int| #[trigger] w.seen.contains(x) implies exists|i: int|
            0 <= i < n && list[i] == x by {
            assert(list[0] == x);
        }
    } else {
        let m = (n - 1) as nat;
        let v = unused().after(list, m);
        let top = highest_of(list, m);
        lemma_highest(list, m);
        lemma_window_after(list, m, top);
        assert forall|x: int| #[trigger] w.seen.contains(x) implies exists|i: int|
            0 <= i < n && list[i] == x by {
            if x == last {
                assert(list[n - 1] == x);
            } else {
                assert(v.seen.contains(x));
                let i = choose|i: int| 0 <= i < m && list[i] == x;
                assert(list[i] == x);
            }
        }
        assert forall|i: int| 0 <= i < n implies w.refuses(#[trigger] list[i] as int) by {
            if i < m {
                law_refusal_is_final(v, list[i] as int, last as int);
            } else {
                law_offered_is_refused(v, last as int);
            }
        }
        let h = choose|i: int| 0 <= i < n && list[i] == highest;
        if h < m {
            assert(list[h] <= top);
            assert(highest == top);
        } else {
            assert(highest == last);
            if last < top {
                let t = choose|i: int| 0 <= i < m && list[i] == top;
                assert(list[t] <= highest);
            }
        }
    }
}

/// The highest of the first numbers of a list.
spec fn highest_of(list: Seq<u64>, n: nat) -> u64
    decreases n,
{
    if n <= 1 {
        list[0]
    } else {
        let rest = highest_of(list, (n - 1) as nat);
        if list[n - 1] > rest {
            list[n - 1]
        } else {
            rest
        }
    }
}

proof fn lemma_highest(list: Seq<u64>, n: nat)
    requires
        0 < n <= list.len(),
    ensures
        exists|i: int| 0 <= i < n && list[i] == highest_of(list, n),
        forall|i: int| 0 <= i < n ==> list[i] <= highest_of(list, n),
    decreases n,
{
    if n == 1 {
        assert(list[0] == highest_of(list, n));
    } else {
        lemma_highest(list, (n - 1) as nat);
        let rest = highest_of(list, (n - 1) as nat);
        if list[n - 1] > rest {
            assert(list[n - 1] == highest_of(list, n));
        } else {
            let i = choose|i: int| 0 <= i < n - 1 && list[i] == rest;
            assert(list[i] == highest_of(list, n));
        }
    }
}

/// Bit `pos` of the bitmap.
spec fn bit(map: Seq<u64>, pos: int) -> bool {
    map[pos / 64] & (1u64 << ((pos % 64) as u64)) != 0
}

proof fn lemma_bit_shifted(lo: u64, hi: u64, s: u64, b: u64)
    by (bit_vector)
    requires
        0 < s < 64,
        b < 64,
    ensures
        ((lo >> s) | (hi << ((64 - s) as u64))) & (1u64 << b) != 0 <==> (if b + s < 64 {
            lo & (1u64 << ((b + s) as u64)) != 0
        } else {
            hi & (1u64 << ((b + s - 64) as u64)) != 0
        }),
        (lo >> s) & (1u64 << b) != 0 <==> (b + s < 64 && lo & (1u64 << ((b + s) as u64)) != 0),
        lo >> 0u64 == lo,
{
}

proof fn lemma_bit_set(w: u64, b: u64, c: u64)
    by (bit_vector)
    requires
        b < 64,
        c < 64,
    ensures
        (w | (1u64 << b)) & (1u64 << c) != 0 <==> (b == c || w & (1u64 << c) != 0),
        0u64 & (1u64 << c) == 0,
{
}

/// The window: bit `i` of the map stands for the number `base_seq + i`.
pub struct ReplayWindow {
    base_seq: u64,
    bitmap: [u64; 16],
}

impl View for ReplayWindow {
    type V = WindowModel;

    closed spec fn view(&self) -> WindowModel {
        WindowModel {
            base: self.base_seq as int,
            seen: Set::new(
                |s: int|
                    self.base_seq <= s < self.base_seq + WINDOW && bit(
                        self.bitmap@,
                        s - self.base_seq,
                    ),
            ),
        }
    }
}

/// The bitmap moved down by `slide` positions.
fn slid(map: &[u64; 16], slide: u64) -> (out: [u64; 16])
    requires
        0 < slide < 1024,
    ensures
        forall|p: int|
            0 <= p < 1024 ==> (#[trigger] bit(out@, p) <==> p + slide < 1024 && bit(
                map@,
                p + slide,
            )),
{
    let word_shift: usize = (slide / 64) as usize;
    let bit_shift: u64 = slide % 64;
    let mut out: [u64; 16] = [0u64; 16];
    let mut i: usize = 0;
    while i < 16
        invariant
            i <= 16,
            0 < slide < 1024,
            word_shift == slide / 64,
            bit_shift == slide % 64,
            forall|p: int|
                0 <= p < 64 * i ==> (#[trigger] bit(out@, p) <==> p + slide < 1024 && bit(
                    map@,
                    p + slide,
                )),
            forall|j: int| i <= j < 16 ==> out@[j] == 0,
        decreases 16 - i,
    {
        let ghost before = out@;
        let src: usize = i + word_shift;
        let mut word: u64 = 0;
        if src < 16 {
            word = map[src] >> bit_shift;
            if bit_shift > 0 && src + 1 < 16 {
                word = word | (map[src + 1] << (64 - bit_shift));
            }
        }
        out[i] = word;
        proof {
            assert forall|p: int| 0 <= p < 64 * (i + 1) implies (#[trigger] bit(out@, p) <==> p
                + slide < 1024 && bit(map@, p + slide)) by {
                if p < 64 * i {
                    assert(out@[p / 64] == before[p / 64]);
                    assert(bit(before, p) == bit(out@, p));
                } else {
                    let b = (p % 64) as u64;
                    let q = p + slide;
                    assert(p / 64 == i);
                    lemma_bit_set(0, 0, b);
                    if bit_shift == 0 {
                        lemma_bit_shifted(if src < 16 { map@[src as int] } else { 0 }, 0, 1, b);
                        assert(q / 64 == src && q % 64 == b);
                    } else {
                        let lo = if src < 16 { map@[src as int] } else { 0 };
                        let hi = if src + 1 < 16 { map@[src + 1] } else { 0 };
                        lemma_bit_shifted(lo, hi, bit_shift, b);
                        if b + bit_shift < 64 {
                            assert(q / 64 == src && q % 64 == b + bit_shift);
                        } else {
                            assert(q / 64 == src + 1 && q % 64 == b + bit_shift - 64);
                        }
                    }
                }
            }
        }
        i = i + 1;
    }
    out
}

impl ReplayWindow {
    /// A window at zero that has seen nothing.
    pub fn new() -> (w: Self)
        ensures
            w@ == (WindowModel { base: 0, seen: Set::empty() }),
    {
        let w = ReplayWindow { base_seq: 0, bitmap: [0u64; 16] };
        proof {
            assert forall|p: int| 0 <= p < 1024 implies !bit(w.bitmap@, p) by {
                lemma_bit_set(0, 0, (p % 64) as u64);
            }
            assert(w@.seen =~= Set::empty());
        }
        w
    }

    /// Accepts a number that the window has not seen, moving the window up if need be.
    pub fn check_and_insert(&mut self, seq: u64) -> (r: Result<(), SeamError>)
        ensures
            final(self)@ == old(self)@.offered(seq as int),
            match r {
                Ok(()) => !old(self)@.refuses(seq as int),
                Err(SeamError::TooOld(n)) => n == seq && seq < old(self)@.base,
                Err(SeamError::Replay(n)) => n == seq && seq >= old(self)@.base
                    && old(self)@.seen.contains(seq as int),
                Err(_) => false,
            },
    {
        let ghost w0 = self@;
        if seq < self.base_seq {
            return Err(SeamError::TooOld(seq));
        }
        let offset: u64 = seq - self.base_seq;
        if offset >= 1024 {
            let slide: u64 = offset - 1023;
            let ghost map0 = self.bitmap@;
            let ghost base0 = self.base_seq;
            if slide >= 1024 {
                self.bitmap = [0u64; 16];
                proof {
                    assert forall|p: int| 0 <= p < 1024 implies !bit(self.bitmap@, p) by {
                        lemma_bit_set(0, 0, (p % 64) as u64);
                    }
                }
            } else {
                self.bitmap = slid(&self.bitmap, slide);
            }
            self.base_seq = self.base_seq + slide;
            proof {
                assert(self@.seen =~= w0.reaching(seq as int).seen) by {
                    assert forall|s: int| #[trigger] self@.seen.contains(s) <==> w0.reaching(
                        seq as int,
                    ).seen.contains(s) by {
                        let p = s - self.base_seq;
                        if slide < 1024 && 0 <= p < 1024 {
                            assert(bit(self.bitmap@, p) <==> p + slide < 1024 && bit(
                                map0,
                                p + slide,
                            ));
                            assert(p + slide == s - base0);
                        }
                    }
                }
            }
        }
        let ghost w1 = self@;
        assert(w1 == w0.reaching(seq as int));
        let bit_pos: usize = (seq - self.base_seq) as usize;
        let word: usize = bit_pos / 64;
        let shift: u64 = (bit_pos % 64) as u64;
        if self.bitmap[word] & (1u64 << shift) != 0 {
            assert(bit(self.bitmap@, bit_pos as int));
            assert(w1.seen.contains(seq as int));
            return Err(SeamError::Replay(seq));
        }
        assert(!w1.seen.contains(seq as int));
        let ghost map1 = self.bitmap@;
        let updated: u64 = self.bitmap[word] | (1u64 << shift);
        self.bitmap[word] = updated;
        proof {
            assert forall|p: int| 0 <= p < 1024 implies (#[trigger] bit(self.bitmap@, p) <==> p
                == bit_pos || bit(map1, p)) by {
                lemma_bit_set(map1[word as int], shift, (p % 64) as u64);
            }
            assert(self@.seen =~= w1.seen.insert(seq as int)) by {
                assert forall|s: int| #[trigger] self@.seen.contains(s) <==> w1.seen.insert(
                    seq as int,
                ).contains(s) by {
                    let p = s - self.base_seq;
                    if 0 <= p < 1024 {
                        assert(bit(self.bitmap@, p) <==> p == bit_pos || bit(map1, p));
                    }
                }
            }
        }
        Ok(())
    }
}

impl Default for ReplayWindow {
    fn default() -> (w: Self)
        ensures
            w@ == (WindowModel { base: 0, seen: Set::empty() }),
    {
        ReplayWindow::new()
    }
}

/// How many numbers the window covers.
pub proof fn law_window_size()
    ensures
        WINDOW == 1024,
{
}

} // verus!
