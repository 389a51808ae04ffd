//! Choosing between retransmission and repair symbols.
//!
//! A clean link needs no repair symbols, unless its round trips are long: there a retransmission
//! is dear, and a light repair layer saves it. At moderate loss, small groups with a growing
//! number of repair symbols recover fast. At high loss retransmission is hopeless.

use vstd::prelude::*;

verus! {

/// The round trip above which even a clean link gets repair symbols, in microseconds.
pub const HIGH_LATENCY_US: u64 = 100_000;

/// The most steps that a moderate loss rate stands above the lowest one.
pub const MAX_STEPS: u8 = 2;

/// How packets are protected against loss.
#[derive(Debug, Clone, Copy, PartialEq, Eq, Structural)]
pub enum ArbiterMode {
    /// Retransmit on loss.
    PureArq,
    /// Send `r` repair symbols with every `k` source symbols, and retransmit on loss.
    HybridFecArq { k: u8, r: u8 },
    /// Send `r` repair symbols with every `k` source symbols, and do not retransmit.
    PureFec { k: u8, r: u8 },
}

/// The loss rate of a link, classified.
#[derive(Debug, Clone, Copy, PartialEq, Eq, Structural)]
pub enum LossBand {
    /// Almost nothing is lost.
    Clean,
    /// Some packets are lost: `steps` says in how high a third of the band the rate stands.
    Moderate { steps: u8 },
    /// Too much is lost to retransmit it.
    High,
}

impl LossBand {
    /// A moderate rate stands at most `MAX_STEPS` steps high.
    pub open spec fn wf(self) -> bool {
        self matches LossBand::Moderate { steps } ==> steps <= MAX_STEPS
    }
}

/// The mode that suits a link.
pub open spec fn suited(band: LossBand, rtt_us: u64) -> ArbiterMode {
    match band {
        LossBand::Clean => if rtt_us > HIGH_LATENCY_US {
            ArbiterMode::HybridFecArq { k: 10, r: 1 }
        } else {
            ArbiterMode::PureArq
        },
        LossBand::Moderate { steps } => ArbiterMode::HybridFecArq { k: 8, r: (1 + steps) as u8 },
        LossBand::High => ArbiterMode::PureFec { k: 8, r: 4 },
    }
}

/// Whether two modes differ at most in their numbers.
pub open spec fn same_class(a: ArbiterMode, b: ArbiterMode) -> bool {
    ||| a is PureArq && b is PureArq
    ||| a is HybridFecArq && b is HybridFecArq
    ||| a is PureFec && b is PureFec
}

impl ArbiterMode {
    /// Whether some link has this mode.
    pub open spec fn reachable(self) -> bool {
        match self {
            ArbiterMode::PureArq => true,
            ArbiterMode::HybridFecArq { k, r } => (k == 8 && 1 <= r <= 1 + MAX_STEPS) || (k == 10
                && r == 1),
            ArbiterMode::PureFec { k, r } => k == 8 && r == 4,
        }
    }

    /// The size of a full group, or nothing where there are no groups.
    pub open spec fn group(self) -> Option<(u8, u8)> {
        match self {
            ArbiterMode::PureArq => None,
            ArbiterMode::HybridFecArq { k, r } => Some((k, r)),
            ArbiterMode::PureFec { k, r } => Some((k, r)),
        }
    }

    /// Whether repair symbols are sent at all.
    pub fn uses_fec(&self) -> (yes: bool)
        ensures
            yes == (*self !is PureArq),
    {
        match self {
            ArbiterMode::PureArq => false,
            _ => true,
        }
    }
}

/// Decides, epoch by epoch, how packets are protected.
pub struct FecArbiter {
    /// The present mode.
    pub mode: ArbiterMode,
    /// The smoothed round trip of the last epoch, in microseconds.
    pub rtt_us: u64,
}

impl FecArbiter {
    /// An arbiter whose mode is one that some link has.
    pub open spec fn wf(self) -> bool {
        self.mode.reachable()
    }

    /// The arbiter after an epoch. The mode is kept unless its class changes, so that it does
    /// not swing with every small change of the loss rate.
    pub open spec fn after(self, band: LossBand, rtt_us: u64) -> FecArbiter {
        FecArbiter {
            mode: if same_class(self.mode, suited(band, rtt_us)) {
                self.mode
            } else {
                suited(band, rtt_us)
            },
            rtt_us,
        }
    }

    /// An arbiter for a link of which nothing is known yet.
    pub fn new() -> (a: FecArbiter)
        ensures
            a.mode is PureArq,
            a.rtt_us == 0,
            a.wf(),
    {
        FecArbiter { mode: ArbiterMode::PureArq, rtt_us: 0 }
    }

    /// Takes in the loss and the round trip of an epoch, and gives the mode for the next one.
    pub fn on_ack_epoch(&mut self, band: LossBand, rtt_us: u64) -> (mode: &ArbiterMode)
        requires
            band.wf(),
        ensures
            *final(self) == old(self).after(band, rtt_us),
            *mode == final(self).mode,
            old(self).wf() ==> final(self).wf(),
    {
        self.rtt_us = rtt_us;
        let target = match band {
            LossBand::Clean => if rtt_us > HIGH_LATENCY_US {
                ArbiterMode::HybridFecArq { k: 10, r: 1 }
            } else {
                ArbiterMode::PureArq
            },
            LossBand::Moderate { steps } => ArbiterMode::HybridFecArq { k: 8, r: 1 + steps },
            LossBand::High => ArbiterMode::PureFec { k: 8, r: 4 },
        };
        let unchanged = match (self.mode, target) {
            (ArbiterMode::PureArq, ArbiterMode::PureArq) => true,
            (ArbiterMode::HybridFecArq { .. }, ArbiterMode::HybridFecArq { .. }) => true,
            (ArbiterMode::PureFec { .. }, ArbiterMode::PureFec { .. }) => true,
            _ => false,
        };
        if !unchanged {
            self.mode = target;
        }
        &self.mode
    }

    /// How many repair symbols go with a group of `source_count` packets: all of them with a
    /// full group, and the same share, rounded down, with a smaller one.
    pub fn repair_count(&self, source_count: u8) -> (count: u8)
        requires
            self.mode.group() matches Some((k, r)) ==> source_count >= k || self.wf(),
        ensures
            count == match self.mode.group() {
                None => 0,
                Some((k, r)) => if source_count >= k {
                    r as int
                } else {
                    source_count * r / (k as int)
                },
            },
    {
        match self.mode {
            ArbiterMode::PureArq => 0,
            ArbiterMode::HybridFecArq { k, r } => share(source_count, k, r),
            ArbiterMode::PureFec { k, r } => share(source_count, k, r),
        }
    }
}

fn share(source_count: u8, k: u8, r: u8) -> (count: u8)
    requires
        source_count >= k || ((k == 8 || k == 10) && r <= 4),
    ensures
        count == if source_count >= k {
            r as int
        } else {
            source_count * r / (k as int)
        },
{
    if source_count >= k {
        r
    } else {
        assert(source_count * r <= 40) by (nonlinear_arith)
            requires
                source_count < 10,
                r <= 4,
        ;
        source_count * r / k
    }
}

impl Default for FecArbiter {
    fn default() -> (a: Self)
        ensures
            a.mode is PureArq,
            a.rtt_us == 0,
    {
        FecArbiter::new()
    }
}

/// After every epoch the mode is of the class that suits the link, and a mode that is already
/// of that class stays as it was.
pub proof fn law_class_follows_link(a: FecArbiter, band: LossBand, rtt_us: u64)
    requires
        band.wf(),
    ensures
        same_class(a.after(band, rtt_us).mode, suited(band, rtt_us)),
        same_class(a.mode, suited(band, rtt_us)) ==> a.after(band, rtt_us).mode == a.mode,
{
}

/// A second epoch like the first changes nothing.
pub proof fn law_steady_link_keeps_mode(a: FecArbiter, band: LossBand, rtt_us: u64)
    requires
        band.wf(),
    ensures
        a.after(band, rtt_us).after(band, rtt_us) == a.after(band, rtt_us),
{
}

/// The link decides the mode, whatever the mode was: a clean link is left to retransmission up to
/// a round trip of 100 ms and gets a light repair layer above; at moderate loss a link that had
/// no such layer gets groups of eight with one repair symbol and one more for each step; at high
/// loss nothing is retransmitted, and groups of eight have four repair symbols.
pub proof fn law_link_decides(a: FecArbiter, band: LossBand, rtt_us: u64)
    requires
        a.wf(),
        band.wf(),
    ensures
        ({
            let m = a.after(band, rtt_us).mode;
            &&& band is Clean && rtt_us <= 100_000 ==> m == ArbiterMode::PureArq
            &&& band is Clean && rtt_us > 100_000 ==> m is HybridFecArq
            &&& band is Clean && rtt_us > 100_000 && a.mode !is HybridFecArq ==> m
                == (ArbiterMode::HybridFecArq { k: 10, r: 1 })
            &&& band is Moderate ==> m is HybridFecArq
            &&& band is Moderate && a.mode !is HybridFecArq ==> m == (ArbiterMode::HybridFecArq {
                k: 8,
                r: (1 + band->steps) as u8,
            })
            &&& band is High ==> m == (ArbiterMode::PureFec { k: 8, r: 4 })
            &&& a.mode is HybridFecArq && m is HybridFecArq ==> m == a.mode
            &&& a.after(band, rtt_us).rtt_us == rtt_us
            &&& a.after(band, rtt_us).wf()
        }),
{
}

/// More loss never brings fewer repair symbols.
pub proof fn law_loss_brings_repairs(rtt_us: u64, steps: u8, more: u8)
    requires
        steps <= more <= 2,
    ensures
        suited(LossBand::Moderate { steps }, rtt_us).group().unwrap().1 <= suited(
            LossBand::Moderate { steps: more },
            rtt_us,
        ).group().unwrap().1 < suited(LossBand::High, rtt_us).group().unwrap().1,
        suited(LossBand::Moderate { steps }, rtt_us).group().unwrap().1 >= 1,
{
}

/// The group of a mode has the sizes of the mode, and a mode without repair symbols has none.
pub proof fn law_groups_of_modes(k: u8, r: u8)
    ensures
        ArbiterMode::PureArq.group() is None,
        (ArbiterMode::HybridFecArq { k, r }).group() == Some((k, r)),
        (ArbiterMode::PureFec { k, r }).group() == Some((k, r)),
{
}

} // verus!
