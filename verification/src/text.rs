//! Strings as sequences of characters: comparing, cutting, trimming, and decimal numbers.

use vstd::prelude::*;
use vstd::string::*;
use vstd::utf8;

verus! {

/// `String::push` appends one character.
pub assume_specification[ String::push ](s: &mut String, c: char)
    ensures
        final(s)@ == old(s)@.push(c),
;

/// What is said of bytes that are not valid UTF-8.
pub uninterp spec fn utf8_fault(data: Seq<u8>) -> Seq<char>;

/// `String::from_utf8`: the text that bytes encode, where they are valid UTF-8, and else the
/// `Display` text of the error, which depends on the bytes alone.
#[verifier::external_body]
pub(crate) fn from_utf8(data: &[u8]) -> (out: Result<String, String>)
    ensures
        out is Ok <==> utf8::valid_utf8(data@),
        out matches Ok(s) ==> s@ == utf8::decode_utf8(data@),
        out matches Err(e) ==> e@ == utf8_fault(data@),
{
    String::from_utf8(data.to_vec()).map_err(|e| e.to_string())
}

/// The text that bytes encode, with a replacement character wherever they encode none.
pub uninterp spec fn lossy(data: Seq<u8>) -> Seq<char>;

/// `String::from_utf8_lossy`. The text depends on the bytes alone, and valid UTF-8 is decoded as
/// it stands.
#[verifier::external_body]
pub(crate) fn from_utf8_lossy(data: &[u8]) -> (out: String)
    ensures
        out@ == lossy(data@),
        utf8::valid_utf8(data@) ==> out@ == utf8::decode_utf8(data@),
{
    String::from_utf8_lossy(data).to_string()
}

/// The characters of a string.
pub fn chars_of(s: &str) -> (out: Vec<char>)
    ensures
        out@ == s@,
{
    let mut out: Vec<char> = Vec::new();
    for c in it: s.chars()
        invariant
            it.seq() == s@,
            out@ == s@.take(it.index()),
    {
        out.push(c);
        assert(out@ =~= s@.take(it.index() + 1));
    }
    assert(s@.take(s@.len() as int) =~= s@);
    out
}

/// The string with the given characters.
pub fn string_of(chars: &Vec<char>) -> (out: String)
    ensures
        out@ == chars@,
{
    let mut out: String = String::new();
    let n: usize = chars.len();
    for i in 0..n
        invariant
            n == chars.len(),
            out@ == chars@.take(i as int),
    {
        out.push(chars[i]);
        assert(out@ =~= chars@.take(i + 1));
    }
    assert(chars@.take(n as int) =~= chars@);
    out
}

/// A string of its own with the given text.
pub fn owned(s: &str) -> (out: String)
    ensures
        out@ == s@,
{
    let mut out: String = String::new();
    out.append(s);
    assert(out@ =~= s@);
    out
}

/// Whether two strings hold the same characters.
pub fn same(a: &str, b: &str) -> (r: bool)
    ensures
        r == (a@ == b@),
{
    let x: Vec<char> = chars_of(a);
    let y: Vec<char> = chars_of(b);
    if x.len() != y.len() {
        return false;
    }
    let n: usize = x.len();
    let mut i: usize = 0;
    while i < n
        invariant
            i <= n,
            n == x.len(),
            n == y.len(),
            x@ == a@,
            y@ == b@,
            forall|j: int| 0 <= j < i ==> x@[j] == y@[j],
        decreases n - i,
    {
        if x[i] != y[i] {
            return false;
        }
        i = i + 1;
    }
    assert(x@ =~= y@);
    true
}

/// A character, or the lower-case letter of an ASCII letter.
pub open spec fn lower(c: char) -> char {
    if 'A' <= c <= 'Z' {
        (c as u32 + 32) as char
    } else {
        c
    }
}

/// Whether two texts differ at most in the case of ASCII letters.
pub open spec fn same_case_blind(a: Seq<char>, b: Seq<char>) -> bool {
    a.len() == b.len() && forall|i: int| 0 <= i < a.len() ==> lower(#[trigger] a[i]) == lower(b[i])
}

/// A character, or the lower-case letter of an ASCII letter.
pub fn to_lower(c: char) -> (l: char)
    ensures
        l == lower(c),
{
    if 'A' <= c && c <= 'Z' {
        ((c as u32 + 32) as u8) as char
    } else {
        c
    }
}

/// Whether two texts differ at most in the case of ASCII letters.
pub fn same_ignoring_case(a: &str, b: &str) -> (r: bool)
    ensures
        r == same_case_blind(a@, b@),
{
    let x: Vec<char> = chars_of(a);
    let y: Vec<char> = chars_of(b);
    if x.len() != y.len() {
        return false;
    }
    let n: usize = x.len();
    for i in 0..n
        invariant
            n == x@.len(),
            n == y@.len(),
            x@ == a@,
            y@ == b@,
            forall|j: int| 0 <= j < i ==> lower(#[trigger] x@[j]) == lower(y@[j]),
    {
        if to_lower(x[i]) != to_lower(y[i]) {
            assert(lower(x@[i as int]) != lower(y@[i as int]));
            return false;
        }
    }
    true
}

/// The character of a decimal digit.
pub open spec fn digit(d: int) -> char {
    (48 + d) as char
}

/// A number in decimal, without leading zeros.
pub open spec fn decimal(n: nat) -> Seq<char>
    decreases n,
{
    if n < 10 {
        seq![digit(n as int)]
    } else {
        decimal(n / 10).push(digit((n % 10) as int))
    }
}

/// The character of a decimal digit.
pub fn digit_char(d: u8) -> (c: char)
    requires
        d < 10,
    ensures
        c == digit(d as int),
{
    (48 + d) as char
}

/// Appends a number in decimal.
pub fn push_decimal(out: &mut String, n: u64)
    ensures
        final(out)@ == old(out)@ + decimal(n as nat),
    decreases n,
{
    let ghost start = out@;
    if n < 10 {
        out.push(digit_char(n as u8));
    } else {
        push_decimal(out, n / 10);
        out.push(digit_char((n % 10) as u8));
    }
    assert(out@ =~= start + decimal(n as nat));
}

/// The hex digit of a number below 16.
pub open spec fn hex_digit(d: int) -> char {
    if d < 10 {
        (48 + d) as char
    } else {
        (87 + d) as char
    }
}

/// A byte string in lower-case hex.
pub open spec fn hex(data: Seq<u8>) -> Seq<char> {
    Seq::new(
        2 * data.len(),
        |i: int|
            if i % 2 == 0 {
                hex_digit(data[i / 2] as int / 16)
            } else {
                hex_digit(data[i / 2] as int % 16)
            },
    )
}

/// The hex digit of a number below 16.
pub fn hex_char(d: u8) -> (c: char)
    requires
        d < 16,
    ensures
        c == hex_digit(d as int),
{
    if d < 10 {
        (48 + d) as char
    } else {
        (87 + d) as char
    }
}

/// A byte string in lower-case hex.
pub fn to_hex(data: &[u8]) -> (out: String)
    ensures
        out@ == hex(data@),
{
    let n: usize = data.len();
    let mut out: String = String::new();
    for i in 0..n
        invariant
            n == data@.len(),
            out@ =~= hex(data@.take(i as int)),
    {
        out.push(hex_char(data[i] / 16));
        out.push(hex_char(data[i] % 16));
        proof {
            let t = data@.take(i + 1);
            assert forall|j: int| 0 <= j < 2 * i implies hex(t)[j] == hex(data@.take(i as int))[j] by {
                assert(t[j / 2] == data@.take(i as int)[j / 2]);
            }
            assert(out@ =~= hex(t));
        }
    }
    assert(data@.take(n as int) =~= data@);
    out
}

/// The value of a hex digit, of either case.
pub open spec fn hex_value(c: char) -> Option<u8> {
    if '0' <= c <= '9' {
        Some((c as u32 - 48) as u8)
    } else if 'a' <= c <= 'f' {
        Some((c as u32 - 87) as u8)
    } else if 'A' <= c <= 'F' {
        Some((c as u32 - 55) as u8)
    } else {
        None
    }
}

/// Whether a text is a byte string in hex.
pub open spec fn is_hex(s: Seq<char>) -> bool {
    &&& s.len() % 2 == 0
    &&& forall|i: int| 0 <= i < s.len() ==> hex_value(#[trigger] s[i]) is Some
}

/// The byte string that a text gives in hex.
pub open spec fn unhex(s: Seq<char>) -> Seq<u8> {
    Seq::new(
        s.len() / 2,
        |i: int| (16 * hex_value(s[2 * i])->0 + hex_value(s[2 * i + 1])->0) as u8,
    )
}

/// The value of a hex digit, of either case.
pub fn hex_digit_value(c: char) -> (v: Option<u8>)
    ensures
        v == hex_value(c),
        v matches Some(d) ==> d < 16,
{
    if '0' <= c && c <= '9' {
        Some((c as u32 - 48) as u8)
    } else if 'a' <= c && c <= 'f' {
        Some((c as u32 - 87) as u8)
    } else if 'A' <= c && c <= 'F' {
        Some((c as u32 - 55) as u8)
    } else {
        None
    }
}

/// Reads a byte string in hex.
pub fn from_hex(s: &str) -> (out: Option<Vec<u8>>)
    ensures
        out is Some <==> is_hex(s@),
        out matches Some(v) ==> v@ == unhex(s@),
{
    let chars: Vec<char> = chars_of(s);
    let n: usize = chars.len();
    if n % 2 != 0 {
        return None;
    }
    let mut out: Vec<u8> = Vec::new();
    let mut i: usize = 0;
    while i < n
        invariant
            i <= n,
            i % 2 == 0,
            n % 2 == 0,
            n == chars@.len(),
            chars@ == s@,
            out@.len() == i / 2,
            forall|j: int| 0 <= j < i ==> hex_value(#[trigger] s@[j]) is Some,
            forall|j: int| 0 <= j < i / 2 ==> #[trigger] out@[j] == unhex(s@)[j],
        decreases n - i,
    {
        let high = match hex_digit_value(chars[i]) {
            Some(v) => v,
            None => {
                return None;
            },
        };
        let low = match hex_digit_value(chars[i + 1]) {
            Some(v) => v,
            None => {
                return None;
            },
        };
        let ghost k = (i / 2) as int;
        assert(2 * k == i);
        out.push(16 * high + low);
        i = i + 2;
    }
    assert(out@ =~= unhex(s@));
    Some(out)
}

/// Reading the hex form of a byte string gives it back.
pub proof fn law_hex_round_trip(data: Seq<u8>)
    ensures
        is_hex(hex(data)),
        unhex(hex(data)) == data,
{
    let h = hex(data);
    assert forall|i: int| 0 <= i < h.len() implies hex_value(#[trigger] h[i]) is Some by {
        let d: int = if i % 2 == 0 {
            data[i / 2] as int / 16
        } else {
            data[i / 2] as int % 16
        };
        lemma_hex_digit(d);
    }
    assert forall|i: int| 0 <= i < data.len() implies #[trigger] unhex(h)[i] == data[i] by {
        assert((2 * i) / 2 == i && (2 * i + 1) / 2 == i);
        assert((2 * i) % 2 == 0 && (2 * i + 1) % 2 == 1);
        lemma_hex_digit(data[i] as int / 16);
        lemma_hex_digit(data[i] as int % 16);
    }
    assert(unhex(h) =~= data);
}

proof fn lemma_hex_digit(d: int)
    requires
        0 <= d < 16,
    ensures
        hex_value(hex_digit(d)) == Some(d as u8),
{
}

/// The texts of a list of strings.
pub open spec fn texts(list: Seq<String>) -> Seq<Seq<char>> {
    Seq::new(list.len(), |i: int| list[i]@)
}

/// Whether a character is white space.
pub open spec fn is_space(c: char) -> bool {
    let u = c as u32;
    ||| 9 <= u <= 13
    ||| u == 32
    ||| u == 0x85
    ||| u == 0xA0
    ||| u == 0x1680
    ||| 0x2000 <= u <= 0x200A
    ||| u == 0x2028
    ||| u == 0x2029
    ||| u == 0x202F
    ||| u == 0x205F
    ||| u == 0x3000
}

/// Whether a character is white space.
pub fn space(c: char) -> (r: bool)
    ensures
        r == is_space(c),
{
    let u: u32 = c as u32;
    (9 <= u && u <= 13) || u == 32 || u == 0x85 || u == 0xA0 || u == 0x1680 || (0x2000 <= u && u
        <= 0x200A) || u == 0x2028 || u == 0x2029 || u == 0x202F || u == 0x205F || u == 0x3000
}

/// A text without the white space at its start.
pub open spec fn trim_start(s: Seq<char>) -> Seq<char>
    decreases s.len(),
{
    if s.len() > 0 && is_space(s[0]) {
        trim_start(s.skip(1))
    } else {
        s
    }
}

/// A text without the white space at its end.
pub open spec fn trim_end(s: Seq<char>) -> Seq<char>
    decreases s.len(),
{
    if s.len() > 0 && is_space(s.last()) {
        trim_end(s.drop_last())
    } else {
        s
    }
}

/// A text without the white space around it.
pub open spec fn trimmed(s: Seq<char>) -> Seq<char> {
    trim_end(trim_start(s))
}

/// The characters from `from` up to `to`.
pub fn cut(chars: &Vec<char>, from: usize, to: usize) -> (out: String)
    requires
        from <= to <= chars@.len(),
    ensures
        out@ == chars@.subrange(from as int, to as int),
{
    let mut out: String = String::new();
    let mut i: usize = from;
    while i < to
        invariant
            from <= i <= to <= chars@.len(),
            out@ == chars@.subrange(from as int, i as int),
        decreases to - i,
    {
        out.push(chars[i]);
        i = i + 1;
        assert(out@ =~= chars@.subrange(from as int, i as int));
    }
    out
}

/// Removes the white space around a text.
pub fn trim(s: &str) -> (out: String)
    ensures
        out@ == trimmed(s@),
{
    let chars: Vec<char> = chars_of(s);
    let n: usize = chars.len();
    let mut from: usize = 0;
    assert(s@.skip(0) =~= s@);
    while from < n && space(chars[from])
        invariant
            from <= n,
            n == chars@.len(),
            chars@ == s@,
            trim_start(s@) == trim_start(s@.skip(from as int)),
        decreases n - from,
    {
        assert(s@.skip(from as int).skip(1) =~= s@.skip(from + 1));
        from = from + 1;
    }
    let ghost head = s@.skip(from as int);
    assert(trim_start(s@) == head);
    let mut to: usize = n;
    assert(head =~= s@.subrange(from as int, n as int));
    while to > from && space(chars[to - 1])
        invariant
            from <= to <= n,
            n == chars@.len(),
            chars@ == s@,
            trim_end(head) == trim_end(s@.subrange(from as int, to as int)),
        decreases to - from,
    {
        let ghost t = s@.subrange(from as int, to as int);
        assert(t.drop_last() =~= s@.subrange(from as int, to - 1));
        assert(t.last() == s@[to - 1]);
        to = to - 1;
    }
    assert(trim_end(head) == s@.subrange(from as int, to as int)) by {
        let t = s@.subrange(from as int, to as int);
        if to > from {
            assert(t.last() == s@[to - 1]);
        }
    }
    cut(&chars, from, to)
}

/// The pieces of a text between the separators.
pub open spec fn split(s: Seq<char>, sep: char) -> Seq<Seq<char>>
    decreases s.len(),
{
    if s.len() == 0 {
        seq![Seq::empty()]
    } else {
        let before = split(s.drop_last(), sep);
        if s.last() == sep {
            before.push(Seq::empty())
        } else {
            before.drop_last().push(before.last().push(s.last()))
        }
    }
}

/// There is at least one piece.
pub proof fn lemma_split_some(s: Seq<char>, sep: char)
    ensures
        split(s, sep).len() >= 1,
    decreases s.len(),
{
    if s.len() > 0 {
        lemma_split_some(s.drop_last(), sep);
    }
}

/// The pieces of a text between the separators.
pub fn pieces(s: &str, sep: char) -> (out: Vec<String>)
    ensures
        texts(out@) == split(s@, sep),
        out@.len() >= 1,
{
    let chars: Vec<char> = chars_of(s);
    let n: usize = chars.len();
    let mut out: Vec<String> = Vec::new();
    let mut cur: String = String::new();
    proof {
        assert(s@.take(0) =~= Seq::empty());
        assert(texts(out@).push(cur@) =~= split(s@.take(0), sep));
    }
    for i in 0..n
        invariant
            n == chars@.len(),
            chars@ == s@,
            texts(out@).push(cur@) == split(s@.take(i as int), sep),
    {
        let ghost before = texts(out@).push(cur@);
        proof {
            assert(s@.take(i + 1).drop_last() =~= s@.take(i as int));
            assert(s@.take(i + 1).last() == s@[i as int]);
            assert(before.drop_last() =~= texts(out@));
            assert(before.last() == cur@);
        }
        if chars[i] == sep {
            let ghost piece = cur@;
            let ghost list = out@;
            out.push(cur);
            cur = String::new();
            assert(texts(out@) =~= texts(list).push(piece));
            assert(texts(out@).push(cur@) =~= before.push(Seq::empty()));
        } else {
            cur.push(chars[i]);
        }
    }
    let ghost piece = cur@;
    let ghost list = out@;
    out.push(cur);
    proof {
        assert(texts(out@) =~= texts(list).push(piece));
        assert(s@.take(n as int) =~= s@);
    }
    out
}

/// The words of a text that end in white space, and the word after the last of them.
pub open spec fn words_and_rest(s: Seq<char>) -> (Seq<Seq<char>>, Seq<char>)
    decreases s.len(),
{
    if s.len() == 0 {
        (Seq::empty(), Seq::empty())
    } else {
        let (done, rest) = words_and_rest(s.drop_last());
        if !is_space(s.last()) {
            (done, rest.push(s.last()))
        } else if rest.len() == 0 {
            (done, rest)
        } else {
            (done.push(rest), Seq::empty())
        }
    }
}

/// The words of a text.
pub open spec fn words(s: Seq<char>) -> Seq<Seq<char>> {
    let (done, rest) = words_and_rest(s);
    if rest.len() == 0 {
        done
    } else {
        done.push(rest)
    }
}

/// The words of a text.
pub fn split_words(s: &str) -> (out: Vec<String>)
    ensures
        texts(out@) == words(s@),
{
    let chars: Vec<char> = chars_of(s);
    let n: usize = chars.len();
    let mut out: Vec<String> = Vec::new();
    let mut cur: String = String::new();
    let mut empty: bool = true;
    proof {
        assert(s@.take(0) =~= Seq::empty());
        assert(texts(out@) =~= Seq::empty());
        assert(cur@ =~= Seq::empty());
    }
    for i in 0..n
        invariant
            n == chars@.len(),
            chars@ == s@,
            empty == (cur@.len() == 0),
            (texts(out@), cur@) == words_and_rest(s@.take(i as int)),
    {
        proof {
            assert(s@.take(i + 1).drop_last() =~= s@.take(i as int));
            assert(s@.take(i + 1).last() == s@[i as int]);
        }
        if !space(chars[i]) {
            cur.push(chars[i]);
            empty = false;
        } else if !empty {
            let ghost piece = cur@;
            let ghost list = out@;
            out.push(cur);
            cur = String::new();
            empty = true;
            assert(texts(out@) =~= texts(list).push(piece));
            assert(cur@ =~= Seq::empty());
        }
    }
    assert(s@.take(n as int) =~= s@);
    if !empty {
        let ghost piece = cur@;
        let ghost list = out@;
        out.push(cur);
        assert(texts(out@) =~= texts(list).push(piece));
    }
    out
}

/// Whether a text has no white space.
pub open spec fn no_space(s: Seq<char>) -> bool {
    forall|i: int| 0 <= i < s.len() ==> !is_space(#[trigger] s[i])
}

proof fn lemma_words_extend(s: Seq<char>, t: Seq<char>)
    requires
        no_space(t),
    ensures
        words_and_rest(s + t) == (words_and_rest(s).0, words_and_rest(s).1 + t),
    decreases t.len(),
{
    if t.len() == 0 {
        assert(s + t =~= s);
        assert(words_and_rest(s).1 + t =~= words_and_rest(s).1);
    } else {
        assert((s + t).drop_last() =~= s + t.drop_last());
        assert forall|i: int| 0 <= i < t.drop_last().len() implies !is_space(
            #[trigger] t.drop_last()[i],
        ) by {
            assert(!is_space(t[i]));
        }
        lemma_words_extend(s, t.drop_last());
        assert(!is_space(t[t.len() - 1]));
        assert((words_and_rest(s).1 + t.drop_last()).push(t.last()) =~= words_and_rest(s).1 + t);
    }
}

/// A text without white space is one word.
pub proof fn lemma_words_first(t: Seq<char>)
    requires
        no_space(t),
        t.len() > 0,
    ensures
        words_and_rest(t) == (Seq::<Seq<char>>::empty(), t),
        words(t) == seq![t],
{
    lemma_words_extend(Seq::empty(), t);
    assert(Seq::<char>::empty() + t =~= t);
    assert(words(t) =~= seq![t]);
}

/// A blank and a text without white space add one word.
pub proof fn lemma_words_more(s: Seq<char>, t: Seq<char>)
    requires
        no_space(t),
        t.len() > 0,
        words_and_rest(s).1.len() > 0,
    ensures
        words(s + seq![' '] + t) == words(s).push(t),
        words_and_rest(s + seq![' '] + t).1 == t,
{
    let u = s + seq![' '];
    assert(u.drop_last() =~= s);
    assert(u.last() == ' ');
    assert(words_and_rest(u) == (words(s), Seq::<char>::empty()));
    lemma_words_extend(u, t);
    assert(Seq::<char>::empty() + t =~= t);
}

/// A line without the carriage return that its line feed left.
pub open spec fn strip_cr(s: Seq<char>) -> Seq<char> {
    if s.len() > 0 && s.last() == '\r' {
        s.drop_last()
    } else {
        s
    }
}

/// The lines of a text. What follows the last line feed is a line unless it is empty.
pub open spec fn lines(s: Seq<char>) -> Seq<Seq<char>> {
    let p = split(s, '\n');
    let full = Seq::new((p.len() - 1) as nat, |i: int| strip_cr(p[i]));
    if p.last().len() == 0 {
        full
    } else {
        full.push(p.last())
    }
}

/// The lines of a text.
pub fn split_lines(s: &str) -> (out: Vec<String>)
    ensures
        texts(out@) == lines(s@),
{
    let parts: Vec<String> = pieces(s, '\n');
    let n: usize = parts.len();
    let ghost p = split(s@, '\n');
    let mut out: Vec<String> = Vec::new();
    for i in 0..n - 1
        invariant
            n >= 1,
            n == parts@.len(),
            texts(parts@) == p,
            out@.len() == i,
            forall|j: int| 0 <= j < i ==> (#[trigger] out@[j])@ == strip_cr(p[j]),
    {
        assert(p[i as int] == parts@[i as int]@);
        let chars: Vec<char> = chars_of(parts[i].as_str());
        let len: usize = chars.len();
        let line: String = if len > 0 && chars[len - 1] == '\r' {
            cut(&chars, 0, len - 1)
        } else {
            cut(&chars, 0, len)
        };
        proof {
            if len > 0 {
                assert(p[i as int].subrange(0, len - 1) =~= p[i as int].drop_last());
            }
            assert(p[i as int].subrange(0, len as int) =~= p[i as int]);
        }
        out.push(line);
    }
    assert(p[n - 1] == parts@[n - 1]@);
    let last: Vec<char> = chars_of(parts[n - 1].as_str());
    let len: usize = last.len();
    if len > 0 {
        let line: String = cut(&last, 0, len);
        assert(p[n - 1].subrange(0, len as int) =~= p[n - 1]);
        out.push(line);
    }
    assert(texts(out@) =~= lines(s@));
    out
}

/// Where a character first stands in a text, or the length of the text.
pub open spec fn position(s: Seq<char>, c: char) -> int
    decreases s.len(),
{
    if s.len() == 0 || s[0] == c {
        0
    } else {
        1 + position(s.skip(1), c)
    }
}

/// Where a character last stands in a text, or -1.
pub open spec fn last_position(s: Seq<char>, c: char) -> int
    decreases s.len(),
{
    if s.len() == 0 {
        -1
    } else if s.last() == c {
        s.len() - 1
    } else {
        last_position(s.drop_last(), c)
    }
}

/// What the two positions of a character are.
pub proof fn lemma_positions(s: Seq<char>, c: char)
    ensures
        0 <= position(s, c) <= s.len(),
        position(s, c) < s.len() ==> s[position(s, c)] == c,
        forall|j: int| 0 <= j < position(s, c) ==> s[j] != c,
        -1 <= last_position(s, c) < s.len(),
        last_position(s, c) >= 0 ==> s[last_position(s, c)] == c,
        forall|j: int| last_position(s, c) < j < s.len() ==> s[j] != c,
    decreases s.len(),
{
    if s.len() > 0 {
        lemma_positions(s.skip(1), c);
        lemma_positions(s.drop_last(), c);
        if s[0] != c {
            assert forall|j: int| 0 <= j < position(s, c) implies s[j] != c by {
                if j > 0 {
                    assert(s[j] == s.skip(1)[j - 1]);
                }
            }
        }
        if s.last() != c {
            assert forall|j: int| last_position(s, c) < j < s.len() implies s[j] != c by {
                if j < s.len() - 1 {
                    assert(s[j] == s.drop_last()[j]);
                }
            }
        }
    }
}

/// Where a character first stands.
pub fn find(chars: &Vec<char>, c: char) -> (at: Option<usize>)
    ensures
        match at {
            Some(i) => i == position(chars@, c) && i < chars@.len(),
            None => position(chars@, c) == chars@.len(),
        },
{
    proof {
        lemma_positions(chars@, c);
    }
    let n: usize = chars.len();
    let mut i: usize = 0;
    while i < n
        invariant
            i <= n,
            n == chars@.len(),
            i <= position(chars@, c),
            forall|j: int| 0 <= j < position(chars@, c) ==> chars@[j] != c,
            position(chars@, c) < chars@.len() ==> chars@[position(chars@, c)] == c,
        decreases n - i,
    {
        if chars[i] == c {
            return Some(i);
        }
        i = i + 1;
    }
    None
}

/// Where a character last stands.
pub fn find_last(chars: &Vec<char>, c: char) -> (at: Option<usize>)
    ensures
        match at {
            Some(i) => i == last_position(chars@, c),
            None => last_position(chars@, c) == -1,
        },
{
    proof {
        lemma_positions(chars@, c);
    }
    let n: usize = chars.len();
    let mut i: usize = n;
    while i > 0
        invariant
            i <= n,
            n == chars@.len(),
            last_position(chars@, c) < i,
            forall|j: int| last_position(chars@, c) < j < chars@.len() ==> chars@[j] != c,
            last_position(chars@, c) >= 0 ==> chars@[last_position(chars@, c)] == c,
        decreases i,
    {
        if chars[i - 1] == c {
            return Some(i - 1);
        }
        i = i - 1;
    }
    None
}

/// Whether a text starts with another.
pub open spec fn has_prefix(s: Seq<char>, prefix: Seq<char>) -> bool {
    prefix.len() <= s.len() && s.take(prefix.len() as int) == prefix
}

/// Whether a text stands in another at a place.
pub open spec fn stands_at(s: Seq<char>, part: Seq<char>, at: int) -> bool {
    0 <= at && at + part.len() <= s.len() && s.subrange(at, at + part.len() as int) == part
}

/// Whether a text stands somewhere in another.
pub open spec fn contains(s: Seq<char>, part: Seq<char>) -> bool {
    exists|at: int| stands_at(s, part, at)
}

fn matches_at(s: &Vec<char>, part: &Vec<char>, at: usize) -> (r: bool)
    requires
        at + part@.len() <= s@.len(),
    ensures
        r == stands_at(s@, part@, at as int),
{
    let n: usize = part.len();
    let len: usize = s.len();
    let mut i: usize = 0;
    while i < n
        invariant
            i <= n,
            n == part@.len(),
            len == s@.len(),
            at + n <= len,
            forall|j: int| 0 <= j < i ==> s@[at + j] == part@[j],
        decreases n - i,
    {
        if s[at + i] != part[i] {
            assert(s@.subrange(at as int, at + n)[i as int] != part@[i as int]);
            return false;
        }
        i = i + 1;
    }
    assert(s@.subrange(at as int, at + n) =~= part@);
    true
}

/// Whether a text starts with another.
pub fn starts_with(s: &str, prefix: &str) -> (r: bool)
    ensures
        r == has_prefix(s@, prefix@),
{
    let a: Vec<char> = chars_of(s);
    let b: Vec<char> = chars_of(prefix);
    if b.len() > a.len() {
        return false;
    }
    assert(s@.take(prefix@.len() as int) =~= s@.subrange(0, prefix@.len() as int));
    matches_at(&a, &b, 0)
}

/// Whether a text stands somewhere in another.
pub fn has_part(s: &str, part: &str) -> (r: bool)
    ensures
        r == contains(s@, part@),
{
    let a: Vec<char> = chars_of(s);
    let b: Vec<char> = chars_of(part);
    let n: usize = a.len();
    let m: usize = b.len();
    if m > n {
        assert forall|at: int| !stands_at(s@, part@, at) by {}
        return false;
    }
    let last: usize = n - m;
    let mut at: usize = 0;
    while at < last
        invariant
            m <= n,
            last == n - m,
            at <= last,
            n == a@.len(),
            m == b@.len(),
            a@ == s@,
            b@ == part@,
            forall|j: int| 0 <= j < at ==> !stands_at(s@, part@, j),
        decreases last - at,
    {
        if matches_at(&a, &b, at) {
            return true;
        }
        at = at + 1;
    }
    if matches_at(&a, &b, at) {
        return true;
    }
    assert forall|j: int| !stands_at(s@, part@, j) by {
        if 0 <= j <= n - m {
            assert(j <= at);
        }
    }
    false
}

/// Whether a text comes before another, character by character.
pub open spec fn before(a: Seq<char>, b: Seq<char>) -> bool
    decreases a.len(),
{
    if b.len() == 0 {
        false
    } else if a.len() == 0 {
        true
    } else if a[0] != b[0] {
        a[0] < b[0]
    } else {
        before(a.skip(1), b.skip(1))
    }
}

/// Whether a text comes before another, character by character.
pub fn comes_before(a: &str, b: &str) -> (r: bool)
    ensures
        r == before(a@, b@),
{
    let x: Vec<char> = chars_of(a);
    let y: Vec<char> = chars_of(b);
    let n: usize = x.len();
    let m: usize = y.len();
    let mut i: usize = 0;
    proof {
        assert(a@.skip(0) =~= a@);
        assert(b@.skip(0) =~= b@);
    }
    while i < n && i < m && x[i] == y[i]
        invariant
            i <= n,
            i <= m,
            n == x@.len(),
            m == y@.len(),
            x@ == a@,
            y@ == b@,
            before(a@, b@) == before(a@.skip(i as int), b@.skip(i as int)),
        decreases n - i,
    {
        assert(a@.skip(i as int).skip(1) =~= a@.skip(i + 1));
        assert(b@.skip(i as int).skip(1) =~= b@.skip(i + 1));
        i = i + 1;
    }
    if i >= m {
        false
    } else if i >= n {
        true
    } else {
        x[i] < y[i]
    }
}

/// The order of texts is total and strict.
pub proof fn lemma_before_order(a: Seq<char>, b: Seq<char>)
    ensures
        !before(a, a),
        before(a, b) ==> !before(b, a),
        a == b || before(a, b) || before(b, a),
    decreases a.len(),
{
    if a.len() > 0 && b.len() > 0 {
        lemma_before_order(a.skip(1), b.skip(1));
        if a[0] == b[0] && a.skip(1) == b.skip(1) {
            assert(a =~= seq![a[0]] + a.skip(1));
            assert(b =~= seq![b[0]] + b.skip(1));
        }
    } else if a.len() > 0 {
        lemma_before_order(a.skip(1), a.skip(1));
    } else if b.len() == 0 {
        assert(a =~= b);
    }
}

/// The order of texts is transitive.
pub proof fn lemma_before_transitive(a: Seq<char>, b: Seq<char>, c: Seq<char>)
    requires
        before(a, b),
        before(b, c),
    ensures
        before(a, c),
    decreases a.len(),
{
    if a.len() > 0 && a[0] == b[0] && b[0] == c[0] {
        lemma_before_transitive(a.skip(1), b.skip(1), c.skip(1));
    }
}

/// Texts of equal length decide the order of what they begin, and what comes behind equal texts
/// decides where those are equal.
pub proof fn lemma_before_concat(a: Seq<char>, b: Seq<char>, x: Seq<char>, y: Seq<char>)
    requires
        a.len() == b.len(),
    ensures
        before(a, b) ==> before(a + x, b + y),
        a == b && before(x, y) ==> before(a + x, b + y),
    decreases a.len(),
{
    if a.len() == 0 {
        assert(a + x =~= x);
        assert(b + y =~= y);
    } else {
        lemma_before_concat(a.skip(1), b.skip(1), x, y);
        assert((a + x).skip(1) =~= a.skip(1) + x);
        assert((b + y).skip(1) =~= b.skip(1) + y);
    }
}

proof fn lemma_split_extend(s: Seq<char>, t: Seq<char>, sep: char)
    requires
        forall|i: int| 0 <= i < t.len() ==> #[trigger] t[i] != sep,
    ensures
        split(s + t, sep) == split(s, sep).drop_last().push(split(s, sep).last() + t),
    decreases t.len(),
{
    lemma_split_some(s, sep);
    if t.len() == 0 {
        assert(s + t =~= s);
        assert(split(s, sep).last() + t =~= split(s, sep).last());
        assert(split(s, sep) =~= split(s, sep).drop_last().push(split(s, sep).last()));
    } else {
        let u = t.drop_last();
        assert((s + t).drop_last() =~= s + u);
        assert forall|i: int| 0 <= i < u.len() implies #[trigger] u[i] != sep by {
            assert(t[i] != sep);
        }
        lemma_split_extend(s, u, sep);
        assert(t[t.len() - 1] != sep);
        let p = split(s, sep).drop_last().push(split(s, sep).last() + u);
        assert(p.drop_last() =~= split(s, sep).drop_last());
        assert((split(s, sep).last() + u).push(t.last()) =~= split(s, sep).last() + t);
    }
}

/// A line appended to a text of whole lines is one more line of it.
pub proof fn lemma_lines_more(s: Seq<char>, t: Seq<char>)
    requires
        split(s, '\n').last().len() == 0,
        forall|i: int| 0 <= i < t.len() ==> #[trigger] t[i] != '\n',
    ensures
        split(s + t + seq!['\n'], '\n').last().len() == 0,
        lines(s + t + seq!['\n']) == lines(s).push(strip_cr(t)),
{
    lemma_split_some(s, '\n');
    lemma_split_extend(s, t, '\n');
    let p = split(s, '\n');
    let u = s + t + seq!['\n'];
    assert(u.drop_last() =~= s + t);
    assert(p.last() + t =~= t);
    let q = p.drop_last().push(t);
    assert(split(s + t, '\n') == q);
    assert(split(u, '\n') == q.push(Seq::<char>::empty()));
    assert(lines(u) =~= lines(s).push(strip_cr(t)));
}

/// The pieces of a text, joined by a separator.
pub open spec fn join(list: Seq<Seq<char>>, sep: Seq<char>) -> Seq<char>
    decreases list.len(),
{
    if list.len() == 0 {
        Seq::empty()
    } else if list.len() == 1 {
        list[0]
    } else {
        join(list.drop_last(), sep) + sep + list.last()
    }
}

/// Joins texts by a separator.
pub fn join_texts(list: &Vec<String>, sep: &str) -> (out: String)
    ensures
        out@ == join(texts(list@), sep@),
{
    let n: usize = list.len();
    let mut out: String = String::new();
    let ghost all = texts(list@);
    assert(all.take(0) =~= Seq::empty());
    for i in 0..n
        invariant
            n == list@.len(),
            all == texts(list@),
            out@ =~= join(all.take(i as int), sep@),
    {
        if i > 0 {
            out.append(sep);
        }
        out.append(list[i].as_str());
        proof {
            assert(all.take(i + 1).drop_last() =~= all.take(i as int));
            assert(all.take(i + 1).last() == list@[i as int]@);
            assert(out@ =~= join(all.take(i + 1), sep@));
        }
    }
    assert(all.take(n as int) =~= all);
    out
}

/// Whether every character of a text is a decimal digit.
pub open spec fn all_digits(s: Seq<char>) -> bool {
    forall|i: int| 0 <= i < s.len() ==> '0' <= #[trigger] s[i] <= '9'
}

/// The number that digits stand for.
pub open spec fn digits_value(s: Seq<char>) -> nat
    decreases s.len(),
{
    if s.len() == 0 {
        0
    } else {
        10 * digits_value(s.drop_last()) + (s.last() as u32 - 48) as nat
    }
}

/// A text after a plus sign.
pub open spec fn unsigned_part(s: Seq<char>) -> Seq<char> {
    if s.len() > 0 && s[0] == '+' {
        s.skip(1)
    } else {
        s
    }
}

/// The number that a text stands for, where it is no greater than `max`: digits, and possibly a
/// plus sign before them.
pub open spec fn number(s: Seq<char>, max: nat) -> Option<nat> {
    let d = unsigned_part(s);
    if d.len() > 0 && all_digits(d) && digits_value(d) <= max {
        Some(digits_value(d))
    } else {
        None
    }
}

proof fn lemma_value_grows(s: Seq<char>, n: int)
    requires
        0 <= n <= s.len(),
        all_digits(s),
    ensures
        digits_value(s.take(n)) <= digits_value(s),
    decreases s.len() - n,
{
    if n < s.len() {
        lemma_value_grows(s, n + 1);
        assert(s.take(n + 1).drop_last() =~= s.take(n));
        assert('0' <= s[n] <= '9');
        assert(s.take(n + 1).last() == s[n]);
    } else {
        assert(s.take(n) =~= s);
    }
}

/// Reads a number no greater than `max`.
pub fn parse_number(s: &str, max: u64) -> (out: Option<u64>)
    ensures
        match out {
            Some(v) => number(s@, max as nat) == Some(v as nat),
            None => number(s@, max as nat) is None,
        },
{
    let chars: Vec<char> = chars_of(s);
    let n: usize = chars.len();
    let from: usize = if n > 0 && chars[0] == '+' {
        1
    } else {
        0
    };
    let ghost d = unsigned_part(s@);
    assert(d =~= s@.skip(from as int));
    if from == n {
        return None;
    }
    let mut value: u64 = 0;
    let mut i: usize = from;
    assert(d.take(0) =~= Seq::empty());
    while i < n
        invariant
            from <= i <= n,
            from < n,
            n == chars@.len(),
            chars@ == s@,
            d == s@.skip(from as int),
            d == unsigned_part(s@),
            d.len() == n - from,
            forall|j: int| 0 <= j < i - from ==> '0' <= #[trigger] d[j] <= '9',
            value == digits_value(d.take(i - from)),
            value <= max,
        decreases n - i,
    {
        let c: char = chars[i];
        assert(c == d[i - from]);
        if c < '0' || '9' < c {
            assert(!all_digits(d));
            return None;
        }
        let digit: u64 = (c as u32 - 48) as u64;
        proof {
            assert(d.take(i - from + 1).drop_last() =~= d.take(i - from));
            assert(d.take(i - from + 1).last() == c);
            assert(digits_value(d.take(i - from + 1)) == 10 * value + digit);
            if all_digits(d) {
                lemma_value_grows(d, i - from + 1);
            }
        }
        if value > max / 10 || digit > max || 10 * value > max - digit {
            return None;
        }
        value = 10 * value + digit;
        i = i + 1;
    }
    assert(d.take(n - from) =~= d);
    assert(all_digits(d));
    Some(value)
}

/// Reading a number in decimal gives it back.
pub proof fn law_decimal_round_trip(n: nat, max: nat)
    requires
        n <= max,
    ensures
        number(decimal(n), max) == Some(n),
{
    lemma_decimal(n);
}

/// The decimal form of a number is digits alone, and they stand for it.
pub proof fn lemma_decimal(n: nat)
    ensures
        decimal(n).len() > 0,
        all_digits(decimal(n)),
        digits_value(decimal(n)) == n,
    decreases n,
{
    if n >= 10 {
        lemma_decimal(n / 10);
        let d = decimal(n / 10);
        assert(decimal(n).drop_last() =~= d);
        assert forall|i: int| 0 <= i < decimal(n).len() implies '0' <= #[trigger] decimal(n)[i]
            <= '9' by {
            if i < d.len() {
                assert(decimal(n)[i] == d[i]);
            }
        }
    } else {
        assert(decimal(n).drop_last() =~= Seq::empty());
        assert(digits_value(Seq::<char>::empty()) == 0);
    }
}

/// A character, several times.
pub open spec fn repeated(c: char, n: nat) -> Seq<char> {
    Seq::new(n, |i: int| c)
}

/// A number in decimal, with zeros in front up to a width.
pub open spec fn zero_padded(n: nat, width: nat) -> Seq<char> {
    let d = decimal(n);
    if d.len() >= width {
        d
    } else {
        repeated('0', (width - d.len()) as nat) + d
    }
}

proof fn lemma_leading_zeros(d: Seq<char>, n: nat)
    requires
        all_digits(d),
    ensures
        all_digits(repeated('0', n) + d),
        digits_value(repeated('0', n) + d) == digits_value(d),
    decreases d.len(), n,
{
    let s = repeated('0', n) + d;
    if d.len() > 0 {
        let front = d.drop_last();
        assert forall|i: int| 0 <= i < front.len() implies '0' <= #[trigger] front[i] <= '9' by {
            assert(front[i] == d[i]);
        }
        lemma_leading_zeros(front, n);
        assert(s.drop_last() =~= repeated('0', n) + front);
        assert(s.last() == d.last());
        assert forall|i: int| 0 <= i < s.len() implies '0' <= #[trigger] s[i] <= '9' by {
            if i >= n {
                assert(s[i] == d[i - n]);
            }
        }
    } else if n > 0 {
        lemma_leading_zeros(d, (n - 1) as nat);
        assert(s.drop_last() =~= repeated('0', (n - 1) as nat) + d);
        assert(digits_value(d) == 0);
    } else {
        assert(s =~= d);
    }
}

/// A number of at most four digits takes four places with zeros in front, and two where it has
/// at most two digits. The places are digits that stand for the number.
pub proof fn lemma_zero_padded(n: nat, width: nat)
    requires
        width == 2 && n < 100 || width == 4 && n < 10000,
    ensures
        zero_padded(n, width).len() == width,
        all_digits(zero_padded(n, width)),
        digits_value(zero_padded(n, width)) == n,
{
    reveal_with_fuel(decimal, 5);
    lemma_decimal(n);
    let d = decimal(n);
    if d.len() < width {
        lemma_leading_zeros(d, (width - d.len()) as nat);
    }
}

proof fn lemma_digits_unique(a: Seq<char>, b: Seq<char>)
    requires
        a.len() == b.len(),
        all_digits(a),
        all_digits(b),
        digits_value(a) == digits_value(b),
    ensures
        a == b,
    decreases a.len(),
{
    if a.len() > 0 {
        lemma_digits_front(a);
        lemma_digits_front(b);
        lemma_digits_unique(a.drop_last(), b.drop_last());
        assert(a.last() as u32 == b.last() as u32);
        assert(a =~= a.drop_last().push(a.last()));
        assert(b =~= b.drop_last().push(b.last()));
    } else {
        assert(a =~= b);
    }
}

proof fn lemma_digits_front(a: Seq<char>)
    requires
        a.len() > 0,
        all_digits(a),
    ensures
        all_digits(a.drop_last()),
        48 <= a.last() as u32 <= 57,
        digits_value(a) == 10 * digits_value(a.drop_last()) + (a.last() as u32 - 48),
{
    assert('0' <= a[a.len() - 1] <= '9');
    let front = a.drop_last();
    assert forall|i: int| 0 <= i < front.len() implies '0' <= #[trigger] front[i] <= '9' by {
        assert(front[i] == a[i]);
    }
}

/// Of digits in equally many places, those that stand for the smaller number come first.
pub proof fn lemma_digits_order(a: Seq<char>, b: Seq<char>)
    requires
        a.len() == b.len(),
        all_digits(a),
        all_digits(b),
        digits_value(a) < digits_value(b),
    ensures
        before(a, b),
    decreases a.len(),
{
    if a.len() > 0 {
        let x = a.drop_last();
        let y = b.drop_last();
        lemma_digits_front(a);
        lemma_digits_front(b);
        let p = seq![a.last()];
        let q = seq![b.last()];
        assert(a =~= x + p);
        assert(b =~= y + q);
        if digits_value(x) < digits_value(y) {
            lemma_digits_order(x, y);
        } else {
            lemma_digits_unique(x, y);
            assert(before(p, q));
        }
        lemma_before_concat(x, y, p, q);
    }
}

/// A text with blanks behind it up to a width.
pub open spec fn padded(s: Seq<char>, width: nat) -> Seq<char> {
    if s.len() >= width {
        s
    } else {
        s + repeated(' ', (width - s.len()) as nat)
    }
}

/// Appends a character several times.
pub fn push_repeated(out: &mut String, c: char, n: usize)
    ensures
        final(out)@ == old(out)@ + repeated(c, n as nat),
{
    let ghost start = out@;
    assert(start + repeated(c, 0) =~= start);
    for i in 0..n
        invariant
            out@ == start + repeated(c, i as nat),
    {
        out.push(c);
        assert(out@ =~= start + repeated(c, (i + 1) as nat));
    }
}

/// Appends a text, and blanks up to a width.
pub fn push_padded(out: &mut String, s: &str, width: usize)
    ensures
        final(out)@ == old(out)@ + padded(s@, width as nat),
{
    let ghost start = out@;
    let n: usize = chars_of(s).len();
    out.append(s);
    if n < width {
        push_repeated(out, ' ', width - n);
    }
    assert(out@ =~= start + padded(s@, width as nat));
}

/// A text with blanks in front of it up to a width.
pub open spec fn set_right(s: Seq<char>, width: nat) -> Seq<char> {
    if s.len() >= width {
        s
    } else {
        repeated(' ', (width - s.len()) as nat) + s
    }
}

/// Appends a text, with blanks in front of it up to a width.
pub fn push_right(out: &mut String, s: &str, width: usize)
    ensures
        final(out)@ == old(out)@ + set_right(s@, width as nat),
{
    let ghost start = out@;
    let n: usize = chars_of(s).len();
    if n < width {
        push_repeated(out, ' ', width - n);
    }
    out.append(s);
    assert(out@ =~= start + set_right(s@, width as nat));
}

/// A character, several times.
pub fn rule(c: char, n: usize) -> (out: String)
    ensures
        out@ == repeated(c, n as nat),
{
    let mut out: String = String::new();
    push_repeated(&mut out, c, n);
    assert(out@ =~= repeated(c, n as nat));
    out
}

/// Appends a number in decimal, with zeros in front up to a width.
pub fn push_zero_padded(out: &mut String, n: u64, width: usize)
    ensures
        final(out)@ == old(out)@ + zero_padded(n as nat, width as nat),
{
    let ghost start = out@;
    let mut d: String = String::new();
    push_decimal(&mut d, n);
    assert(d@ =~= decimal(n as nat));
    let len: usize = chars_of(d.as_str()).len();
    if len < width {
        push_repeated(out, '0', width - len);
    }
    out.append(d.as_str());
    assert(out@ =~= start + zero_padded(n as nat, width as nat));
}

/// A number in decimal.
pub fn decimal_text(n: u64) -> (out: String)
    ensures
        out@ == decimal(n as nat),
{
    let mut out: String = String::new();
    push_decimal(&mut out, n);
    assert(out@ =~= decimal(n as nat));
    out
}

/// A number that may be negative, in decimal.
pub open spec fn signed_decimal(n: int) -> Seq<char> {
    if n < 0 {
        seq!['-'] + decimal((-n) as nat)
    } else {
        decimal(n as nat)
    }
}

/// Appends a number that may be negative, in decimal.
pub fn push_signed(out: &mut String, n: i64)
    ensures
        final(out)@ == old(out)@ + signed_decimal(n as int),
{
    let ghost start = out@;
    if n < 0 {
        out.push('-');
        push_decimal(out, (-(n as i128)) as u64);
    } else {
        push_decimal(out, n as u64);
    }
    assert(out@ =~= start + signed_decimal(n as int));
}

/// Two texts, one after the other.
pub fn joined(a: &str, b: &str) -> (out: String)
    ensures
        out@ == a@ + b@,
{
    let mut out: String = String::new();
    out.append(a);
    out.append(b);
    assert(out@ =~= a@ + b@);
    out
}

/// Three texts, one after the other.
pub fn glue3(a: &str, b: &str, c: &str) -> (out: String)
    ensures
        out@ == a@ + b@ + c@,
{
    let mut out: String = String::new();
    out.append(a);
    out.append(b);
    out.append(c);
    assert(out@ =~= a@ + b@ + c@);
    out
}

/// Four texts, one after the other.
pub fn glue4(a: &str, b: &str, c: &str, d: &str) -> (out: String)
    ensures
        out@ == a@ + b@ + c@ + d@,
{
    let mut out: String = glue3(a, b, c);
    out.append(d);
    assert(out@ =~= a@ + b@ + c@ + d@);
    out
}

/// Five texts, one after the other.
pub fn glue5(a: &str, b: &str, c: &str, d: &str, e: &str) -> (out: String)
    ensures
        out@ == a@ + b@ + c@ + d@ + e@,
{
    let mut out: String = glue4(a, b, c, d);
    out.append(e);
    assert(out@ =~= a@ + b@ + c@ + d@ + e@);
    out
}

/// Seven texts, one after the other.
pub fn glue7(a: &str, b: &str, c: &str, d: &str, e: &str, f: &str, g: &str) -> (out: String)
    ensures
        out@ == a@ + b@ + c@ + d@ + e@ + f@ + g@,
{
    let mut out: String = glue5(a, b, c, d, e);
    out.append(f);
    out.append(g);
    assert(out@ =~= a@ + b@ + c@ + d@ + e@ + f@ + g@);
    out
}

/// A text in quotes, as the `Debug` form of a string gives it.
pub uninterp spec fn debug_form(s: Seq<char>) -> Seq<char>;

/// The `Debug` form of a string, by `format!`: the text in quotes, with escapes. It depends on
/// the text alone.
#[verifier::external_body]
pub(crate) fn debug_text(s: &str) -> (out: String)
    ensures
        out@ == debug_form(s@),
{
    format!("{s:?}")
}

/// A number in octal, without leading zeros.
pub open spec fn octal(n: nat) -> Seq<char>
    decreases n,
{
    if n < 8 {
        seq![digit(n as int)]
    } else {
        octal(n / 8).push(digit((n % 8) as int))
    }
}

/// Appends a number in octal.
pub fn push_octal(out: &mut String, n: u64)
    ensures
        final(out)@ == old(out)@ + octal(n as nat),
    decreases n,
{
    let ghost start = out@;
    if n < 8 {
        out.push(digit_char(n as u8));
    } else {
        push_octal(out, n / 8);
        out.push(digit_char((n % 8) as u8));
    }
    assert(out@ =~= start + octal(n as nat));
}

/// A number in octal.
pub fn octal_text(n: u64) -> (out: String)
    ensures
        out@ == octal(n as nat),
{
    let mut out: String = String::new();
    push_octal(&mut out, n);
    assert(out@ =~= octal(n as nat));
    out
}

/// The pieces of a text hold no separator, and joined by it they are the text again.
pub proof fn law_split_joins(s: Seq<char>, sep: char)
    ensures
        split(s, sep).len() >= 1,
        join(split(s, sep), seq![sep]) == s,
        forall|i: int, j: int|
            0 <= i < split(s, sep).len() && 0 <= j < split(s, sep)[i].len() ==> #[trigger] split(
                s,
                sep,
            )[i][j] != sep,
    decreases s.len(),
{
    let one = seq![sep];
    if s.len() == 0 {
        assert(join(split(s, sep), one) =~= s);
    } else {
        let rest = s.drop_last();
        let c = s.last();
        let before = split(rest, sep);
        law_split_joins(rest, sep);
        let all = split(s, sep);
        if c == sep {
            assert(all.drop_last() =~= before);
            assert(join(all, one) =~= rest + one + Seq::empty());
        } else {
            let front = before.drop_last();
            let last = before.last();
            assert(all.drop_last() =~= front);
            assert(all.last() == last.push(c));
            assert(before =~= front.push(last));
            if front.len() == 0 {
                assert(join(before, one) == last);
                assert(join(all, one) == last.push(c));
            } else {
                assert(join(all, one) =~= join(front, one) + one + last.push(c));
                assert(join(before, one) == join(front, one) + one + last);
            }
            assert(join(all, one) =~= rest.push(c));
        }
        assert(s =~= rest.push(c));
        assert forall|i: int, j: int| 0 <= i < all.len() && 0 <= j < all[i].len() implies #[trigger] all[i][j]
            != sep by {
            if i < all.len() - 1 {
                assert(all[i] == before[i]);
                assert(before[i][j] != sep);
            } else if c != sep {
                let last = before[before.len() - 1];
                if j < last.len() {
                    assert(before[before.len() - 1][j] != sep);
                }
            }
        }
    }
}

/// Trimming takes white space off both ends and nothing else: what is left neither begins nor
/// ends with white space.
pub proof fn law_trimmed(s: Seq<char>)
    ensures
        exists|a: int, b: int|
            0 <= a <= b <= s.len() && trimmed(s) == #[trigger] s.subrange(a, b) && (forall|i: int|
                0 <= i < a || b <= i < s.len() ==> is_space(#[trigger] s[i])),
        trimmed(s).len() > 0 ==> !is_space(trimmed(s)[0]) && !is_space(trimmed(s).last()),
{
    let t = trim_start(s);
    lemma_trim_start(s);
    lemma_trim_end(t);
    let a = choose|a: int|
        0 <= a <= s.len() && t == #[trigger] s.skip(a) && (forall|i: int|
            0 <= i < a ==> is_space(#[trigger] s[i]));
    let n = choose|n: int|
        0 <= n <= t.len() && trim_end(t) == #[trigger] t.take(n) && (forall|i: int|
            n <= i < t.len() ==> is_space(#[trigger] t[i]));
    assert(trimmed(s) =~= s.subrange(a, a + n));
    assert forall|i: int| 0 <= i < a || a + n <= i < s.len() implies is_space(#[trigger] s[i]) by {
        if i >= a + n {
            assert(t[i - a] == s[i]);
        }
    }
}

proof fn lemma_trim_start(s: Seq<char>)
    ensures
        exists|a: int|
            0 <= a <= s.len() && trim_start(s) == #[trigger] s.skip(a) && (forall|i: int|
                0 <= i < a ==> is_space(#[trigger] s[i])),
        trim_start(s).len() > 0 ==> !is_space(trim_start(s)[0]),
    decreases s.len(),
{
    if s.len() > 0 && is_space(s[0]) {
        let r = s.skip(1);
        lemma_trim_start(r);
        let a = choose|a: int|
            0 <= a <= r.len() && trim_start(r) == #[trigger] r.skip(a) && (forall|i: int|
                0 <= i < a ==> is_space(#[trigger] r[i]));
        assert(s.skip(a + 1) =~= r.skip(a));
        assert forall|i: int| 0 <= i < a + 1 implies is_space(#[trigger] s[i]) by {
            if i > 0 {
                assert(r[i - 1] == s[i]);
            }
        }
    } else {
        assert(s.skip(0) =~= s);
    }
}

proof fn lemma_trim_end(s: Seq<char>)
    ensures
        exists|n: int|
            0 <= n <= s.len() && trim_end(s) == #[trigger] s.take(n) && (forall|i: int|
                n <= i < s.len() ==> is_space(#[trigger] s[i])),
        trim_end(s).len() > 0 ==> !is_space(trim_end(s).last()) && trim_end(s)[0] == s[0],
    decreases s.len(),
{
    if s.len() > 0 && is_space(s.last()) {
        let r = s.drop_last();
        lemma_trim_end(r);
        let n = choose|n: int|
            0 <= n <= r.len() && trim_end(r) == #[trigger] r.take(n) && (forall|i: int|
                n <= i < r.len() ==> is_space(#[trigger] r[i]));
        assert(s.take(n) =~= r.take(n));
        assert forall|i: int| n <= i < s.len() implies is_space(#[trigger] s[i]) by {
            if i < r.len() {
                assert(r[i] == s[i]);
            }
        }
    } else {
        assert(s.take(s.len() as int) =~= s);
    }
}

/// A text stands in another exactly if that one is the text with something before and behind.
pub proof fn law_contains(s: Seq<char>, part: Seq<char>)
    ensures
        contains(s, part) <==> exists|a: Seq<char>, b: Seq<char>| s == #[trigger] (a + part + b),
        has_prefix(s, part) <==> exists|b: Seq<char>| s == #[trigger] (part + b),
{
    if contains(s, part) {
        let at = choose|at: int| stands_at(s, part, at);
        let a = s.take(at);
        let b = s.skip(at + part.len());
        assert(s =~= a + part + b);
    }
    if exists|a: Seq<char>, b: Seq<char>| s == #[trigger] (a + part + b) {
        let (a, b) = choose|a: Seq<char>, b: Seq<char>| s == #[trigger] (a + part + b);
        assert(s.subrange(a.len() as int, a.len() + part.len() as int) =~= part);
        assert(stands_at(s, part, a.len() as int));
    }
    if has_prefix(s, part) {
        assert(s =~= part + s.skip(part.len() as int));
    }
    if exists|b: Seq<char>| s == #[trigger] (part + b) {
        let b = choose|b: Seq<char>| s == #[trigger] (part + b);
        assert(s.take(part.len() as int) =~= part);
    }
}

/// The words of a text that is made of words with a blank between them are those words.
pub proof fn law_words_of_joined(list: Seq<Seq<char>>)
    requires
        list.len() > 0,
        forall|i: int| 0 <= i < list.len() ==> no_space(#[trigger] list[i]) && list[i].len() > 0,
    ensures
        words(join(list, seq![' '])) == list,
        words_and_rest(join(list, seq![' '])).1 == list.last(),
    decreases list.len(),
{
    let last = list[list.len() - 1];
    assert(no_space(last) && last.len() > 0);
    if list.len() == 1 {
        lemma_words_first(last);
        assert(list =~= seq![last]);
    } else {
        let front = list.drop_last();
        assert forall|i: int| 0 <= i < front.len() implies no_space(#[trigger] front[i])
            && front[i].len() > 0 by {
            assert(front[i] == list[i]);
        }
        law_words_of_joined(front);
        assert(front.last() == list[list.len() - 2]);
        lemma_words_more(join(front, seq![' ']), last);
        assert(front.push(last) =~= list);
    }
}

/// The lines of a text whose lines all end in a line feed, and hold none, are those lines.
pub proof fn law_lines_of_joined(list: Seq<Seq<char>>, s: Seq<char>)
    requires
        split(s, '\n').last().len() == 0,
        forall|i: int, j: int|
            0 <= i < list.len() && 0 <= j < list[i].len() ==> #[trigger] list[i][j] != '\n'
                && list[i][j] != '\r',
    ensures
        lines(s + with_feeds(list)) == lines(s) + list,
        split(s + with_feeds(list), '\n').last().len() == 0,
    decreases list.len(),
{
    if list.len() == 0 {
        assert(s + with_feeds(list) =~= s);
        assert(lines(s) + list =~= lines(s));
    } else {
        let front = list.drop_last();
        let last = list.last();
        assert forall|i: int, j: int| 0 <= i < front.len() && 0 <= j < front[i].len() implies #[trigger] front[i][j]
            != '\n' && front[i][j] != '\r' by {
            assert(list[i][j] == front[i][j]);
        }
        law_lines_of_joined(front, s);
        assert forall|i: int| 0 <= i < last.len() implies #[trigger] last[i] != '\n' by {
            assert(list[list.len() - 1][i] != '\n');
        }
        lemma_lines_more(s + with_feeds(front), last);
        if last.len() > 0 {
            assert(list[list.len() - 1][last.len() - 1] != '\r');
        }
        assert(strip_cr(last) == last);
        assert(s + with_feeds(front) + last + seq!['\n'] =~= s + with_feeds(list));
        assert((lines(s) + front).push(last) =~= lines(s) + list);
    }
}

/// Texts, each with a line feed behind it.
pub open spec fn with_feeds(list: Seq<Seq<char>>) -> Seq<char>
    decreases list.len(),
{
    if list.len() == 0 {
        Seq::empty()
    } else {
        with_feeds(list.drop_last()) + list.last() + seq!['\n']
    }
}

/// The letters of the alphabet are told apart from their capitals by nothing but case.
pub proof fn law_case_blind(a: Seq<char>, b: Seq<char>)
    ensures
        same_case_blind(a, a),
        same_case_blind(a, b) == same_case_blind(b, a),
        lower('A') == 'a',
        lower('Z') == 'z',
        lower('a') == 'a',
        lower('@') == '@',
        lower('[') == '[',
        a.len() != b.len() ==> !same_case_blind(a, b),
{
}

/// A number is read from digits, with or without a plus sign, up to the greatest one allowed, and
/// from nothing else.
pub proof fn law_number(s: Seq<char>, max: nat)
    requires
        all_digits(s),
        s.len() > 0,
    ensures
        number(s, max) == if digits_value(s) <= max {
            Some(digits_value(s))
        } else {
            None
        },
        number(seq!['+'] + s, max) == number(s, max),
        number(Seq::empty(), max) is None,
        number(seq!['+'], max) is None,
        number(seq!['-'] + s, max) is None,
{
    assert('0' <= s[0] <= '9');
    assert((seq!['+'] + s).skip(1) =~= s);
    assert((seq!['-'] + s)[0] == '-');
    assert(seq!['+'].skip(1).len() == 0);
}

/// A character that is no digit makes a text no number, unless it is a plus sign in front.
pub proof fn law_number_needs_digits(s: Seq<char>, max: nat, i: int)
    requires
        0 <= i < s.len(),
        !('0' <= s[i] <= '9'),
        i > 0 || s[i] != '+',
    ensures
        number(s, max) is None,
{
    let d = unsigned_part(s);
    if s[0] == '+' {
        assert(d[i - 1] == s[i]);
    } else {
        assert(d[i] == s[i]);
    }
}

/// A text set to a width has at least that width, and the blanks stand behind it or before it.
pub proof fn law_widths(s: Seq<char>, width: nat)
    ensures
        padded(s, width).len() == if s.len() >= width {
            s.len()
        } else {
            width
        },
        padded(s, width).take(s.len() as int) == s,
        set_right(s, width).len() == padded(s, width).len(),
        set_right(s, width).skip(set_right(s, width).len() - s.len()) == s,
        forall|i: int| s.len() <= i < padded(s, width).len() ==> padded(s, width)[i] == ' ',
        forall|i: int|
            0 <= i < set_right(s, width).len() - s.len() ==> set_right(s, width)[i] == ' ',
{
    assert(padded(s, width).take(s.len() as int) =~= s);
    assert(set_right(s, width).skip(set_right(s, width).len() - s.len()) =~= s);
}

/// Texts without the separator, joined by it, are the pieces of what comes out.
pub proof fn law_split_of_joined(list: Seq<Seq<char>>, sep: char)
    requires
        list.len() > 0,
        forall|i: int, j: int|
            0 <= i < list.len() && 0 <= j < list[i].len() ==> #[trigger] list[i][j] != sep,
    ensures
        split(join(list, seq![sep]), sep) == list,
    decreases list.len(),
{
    let last = list[list.len() - 1];
    assert forall|j: int| 0 <= j < last.len() implies #[trigger] last[j] != sep by {
        assert(list[list.len() - 1][j] != sep);
    }
    if list.len() == 1 {
        let empty = Seq::<char>::empty();
        lemma_split_extend(empty, last, sep);
        assert(empty + last =~= last);
        assert(split(empty, sep) =~= seq![empty]);
        assert(split(last, sep) =~= list);
    } else {
        let front = list.drop_last();
        assert forall|i: int, j: int| 0 <= i < front.len() && 0 <= j < front[i].len() implies #[trigger] front[i][j]
            != sep by {
            assert(list[i][j] == front[i][j]);
        }
        law_split_of_joined(front, sep);
        let s = join(front, seq![sep]);
        let t = s + seq![sep];
        assert(t.drop_last() =~= s);
        assert(split(t, sep) == front.push(Seq::empty()));
        lemma_split_extend(t, last, sep);
        assert(split(t, sep).drop_last() =~= front);
        assert(Seq::<char>::empty() + last =~= last);
        assert(front.push(last) =~= list);
    }
}

/// White space around a text does not change what is left when it is trimmed.
pub proof fn law_space_around(a: Seq<char>, s: Seq<char>, b: Seq<char>)
    requires
        forall|i: int| 0 <= i < a.len() ==> is_space(#[trigger] a[i]),
        forall|i: int| 0 <= i < b.len() ==> is_space(#[trigger] b[i]),
        s.len() > 0,
        !is_space(s[0]),
        !is_space(s.last()),
    ensures
        trimmed(a + s + b) == s,
        trimmed(a) == Seq::<char>::empty(),
    decreases a.len() + b.len(),
{
    let t = a + s + b;
    if a.len() > 0 {
        let c = a.skip(1);
        assert forall|i: int| 0 <= i < c.len() implies is_space(#[trigger] c[i]) by {
            assert(c[i] == a[i + 1]);
        }
        assert(is_space(a[0]));
        law_space_around(c, s, b);
        assert(t.skip(1) =~= c + s + b);
        assert(t[0] == a[0]);
    } else {
        assert(t =~= s + b);
        assert(t[0] == s[0]);
        lemma_space_behind(s, b);
        assert(trimmed(a) =~= Seq::empty());
    }
}

proof fn lemma_space_behind(s: Seq<char>, b: Seq<char>)
    requires
        forall|i: int| 0 <= i < b.len() ==> is_space(#[trigger] b[i]),
        s.len() > 0,
        !is_space(s.last()),
    ensures
        trim_end(s + b) == s,
    decreases b.len(),
{
    let t = s + b;
    if b.len() > 0 {
        let c = b.drop_last();
        assert forall|i: int| 0 <= i < c.len() implies is_space(#[trigger] c[i]) by {
            assert(c[i] == b[i]);
        }
        assert(is_space(b[b.len() - 1]));
        lemma_space_behind(s, c);
        assert(t.drop_last() =~= s + c);
    } else {
        assert(t =~= s);
    }
}

/// Blanks, tabs and ends of lines are white space, and the printable signs are not.
pub proof fn law_spaces(c: char)
    ensures
        is_space(' '),
        is_space('\t'),
        is_space('\n'),
        is_space('\r'),
        '!' <= c <= '~' ==> !is_space(c),
{
}

/// A line may end in a carriage return and a line feed, and the last line in neither.
pub proof fn law_line_ends(s: Seq<char>, t: Seq<char>)
    requires
        split(s, '\n').last().len() == 0,
        t.len() > 0,
        forall|i: int| 0 <= i < t.len() ==> #[trigger] t[i] != '\n' && t[i] != '\r',
    ensures
        lines(s + (t + seq!['\r']) + seq!['\n']) == lines(s).push(t),
        lines(s + t + seq!['\n']) == lines(s).push(t),
        lines(s + t) == lines(s).push(t),
{
    let r = t + seq!['\r'];
    assert forall|i: int| 0 <= i < r.len() implies #[trigger] r[i] != '\n' by {
        if i < t.len() {
            assert(r[i] == t[i]);
        }
    }
    lemma_lines_more(s, r);
    assert(r.drop_last() =~= t);
    lemma_lines_more(s, t);
    assert(t[t.len() - 1] != '\r');
    lemma_split_extend(s, t, '\n');
    lemma_split_some(s, '\n');
    let p = split(s, '\n');
    let q = split(s + t, '\n');
    assert(p.last() + t =~= t);
    assert(q =~= p.drop_last().push(t));
    assert(lines(s + t) =~= lines(s).push(t));
}

/// Texts are ordered by their first signs that differ, and a text comes before any longer text
/// that it begins.
pub proof fn law_text_order(a: Seq<char>, x: char, y: char, b: Seq<char>, c: Seq<char>)
    ensures
        x < y ==> before(a + seq![x] + b, a + seq![y] + c),
        before(a, a + seq![x] + b),
        !before(a, a),
{
    let p = seq![x] + b;
    let q = seq![y] + c;
    lemma_before_concat(a, a, p, q);
    lemma_before_concat(a, a, Seq::empty(), p);
    assert(a + seq![x] + b =~= a + p);
    assert(a + seq![y] + c =~= a + q);
    assert(a + Seq::<char>::empty() =~= a);
    lemma_before_order(a, a);
}

/// Hex is written in lower case, two digits for a byte, and read in either case.
pub proof fn law_hex_digits(b: u8, c: char)
    ensures
        hex(seq![b]).len() == 2,
        hex(seq![b])[0] == hex_digit(b as int / 16),
        hex(seq![b])[1] == hex_digit(b as int % 16),
        hex_digit(0) == '0',
        hex_digit(9) == '9',
        hex_digit(10) == 'a',
        hex_digit(15) == 'f',
        hex_value('A') == hex_value('a'),
        hex_value('F') == hex_value('f'),
        hex_value(c) is Some <==> '0' <= c <= '9' || 'a' <= c <= 'f' || 'A' <= c <= 'F',
{
}

} // verus!
