//! Fan control: the order in which the fans' keys are read and written, and what
//! is done when a write fails on the way.
use vstd::prelude::*;

use crate::smc::big_endian;
use crate::smc::code_of;
use crate::smc::codes_are_spelled;
use crate::smc::four_bytes;
use crate::smc::name_code;
use crate::smc::Smc;
use crate::smc::SmcWriteError;

verus! {

/// What is to be done next. Fans are numbered from 0.
#[derive(Debug, Clone, Copy, PartialEq, Eq)]
pub enum FanControl {
    /// Count the fans, to force them (`hold`) or to release them.
    Count { hold: bool },
    /// Read the greatest speed of the fan, and put the fan into forced mode.
    Force { fan: u8, count: u8 },
    /// Make the greatest speed the fan's target.
    Aim { fan: u8, count: u8 },
    /// Count the fans again, to release them after this failure.
    Recount { error: SmcWriteError },
    /// Put the fan back into automatic mode.
    Release { fan: u8, count: u8, error: Option<SmcWriteError> },
    /// Nothing is left to do; this is how it went.
    Finished { error: Option<SmcWriteError> },
}

/// How it went.
#[derive(Debug, Clone, Copy, PartialEq, Eq)]
pub enum FanReply {
    /// There are this many fans.
    Fans(u8),
    /// The write succeeded.
    Written,
    /// The write failed.
    Failed(SmcWriteError),
}

/// What is written to a fan's key.
#[derive(Debug, Clone, Copy, PartialEq, Eq)]
pub enum FanWrite {
    /// One: forced mode.
    On,
    /// Zero: automatic mode.
    Off,
    /// The greatest speed of the fan.
    Greatest,
}

/// The code of the key for a fan's mode.
pub open spec fn mode_code(fan: u8) -> u32 {
    if fan == 0 {
        name_code("F0md"@)
    } else {
        name_code("F1md"@)
    }
}

/// The code of the key for a fan's target speed.
pub open spec fn target_code(fan: u8) -> u32 {
    if fan == 0 {
        name_code("F0Tg"@)
    } else {
        name_code("F1Tg"@)
    }
}

fn mode_key(fan: u8) -> (r: [u8; 4])
    ensures
        big_endian(r@) == mode_code(fan),
{
    if fan == 0 {
        four_bytes(code_of("F0md"))
    } else {
        four_bytes(code_of("F1md"))
    }
}

/// The number of fans that a reply tells of.
pub open spec fn told(reply: FanReply) -> u8 {
    match reply {
        FanReply::Fans(n) => n,
        _ => 0,
    }
}

impl FanControl {
    /// What releases fan number `fan` and those after it.
    pub open spec fn releasing(fan: int, count: u8, error: Option<SmcWriteError>) -> FanControl {
        if fan < count {
            FanControl::Release { fan: fan as u8, count, error }
        } else {
            FanControl::Finished { error }
        }
    }

    /// What forces fan number `fan` and those after it.
    pub open spec fn forcing(fan: int, count: u8) -> FanControl {
        if fan < count {
            FanControl::Force { fan: fan as u8, count }
        } else {
            FanControl::Finished { error: None }
        }
    }

    /// What follows a reply.
    pub open spec fn after(self, reply: FanReply) -> FanControl {
        match self {
            FanControl::Count { hold } => if hold {
                FanControl::forcing(0, told(reply))
            } else {
                FanControl::releasing(0, told(reply), None)
            },
            FanControl::Force { fan, count } => match reply {
                FanReply::Failed(error) => FanControl::Recount { error },
                _ => FanControl::Aim { fan, count },
            },
            FanControl::Aim { fan, count } => match reply {
                FanReply::Failed(error) => FanControl::Recount { error },
                _ => FanControl::forcing(fan + 1, count),
            },
            FanControl::Recount { error } => FanControl::releasing(0, told(reply), Some(error)),
            FanControl::Release { fan, count, error } => match (reply, error) {
                (FanReply::Failed(e), None) => FanControl::Finished { error: Some(e) },
                (FanReply::Failed(_), Some(_)) => FanControl::Finished { error },
                _ => FanControl::releasing(fan + 1, count, error),
            },
            FanControl::Finished { error } => FanControl::Finished { error },
        }
    }

    fn release_from(fan: u8, count: u8, error: Option<SmcWriteError>) -> (r: FanControl)
        ensures
            r == FanControl::releasing(fan as int, count, error),
    {
        if fan < count {
            FanControl::Release { fan, count, error }
        } else {
            FanControl::Finished { error }
        }
    }

    fn force_from(fan: u8, count: u8) -> (r: FanControl)
        ensures
            r == FanControl::forcing(fan as int, count),
    {
        if fan < count {
            FanControl::Force { fan, count }
        } else {
            FanControl::Finished { error: None }
        }
    }

    /// What follows a reply. A failure while the fans are forced has them released,
    /// as far as that goes, and is what comes out; a failure while they are released
    /// ends the work.
    pub fn next(self, reply: FanReply) -> (r: FanControl)
        requires
            self.in_range(),
        ensures
            r == self.after(reply),
            r.in_range(),
    {
        let n: u8 = match reply {
            FanReply::Fans(n) => n,
            _ => 0,
        };
        match self {
            FanControl::Count { hold } => if hold {
                FanControl::force_from(0, n)
            } else {
                FanControl::release_from(0, n, None)
            },
            FanControl::Force { fan, count } => match reply {
                FanReply::Failed(error) => FanControl::Recount { error },
                _ => FanControl::Aim { fan, count },
            },
            FanControl::Aim { fan, count } => match reply {
                FanReply::Failed(error) => FanControl::Recount { error },
                _ => FanControl::force_from(fan + 1, count),
            },
            FanControl::Recount { error } => FanControl::release_from(0, n, Some(error)),
            FanControl::Release { fan, count, error } => match (reply, error) {
                (FanReply::Failed(e), None) => FanControl::Finished { error: Some(e) },
                (FanReply::Failed(_), Some(_)) => FanControl::Finished { error },
                _ => FanControl::release_from(fan + 1, count, error),
            },
            FanControl::Finished { error } => FanControl::Finished { error },
        }
    }

    /// The code of the key that is written next, and what is written to it.
    pub open spec fn key_written(self) -> Option<(u32, FanWrite)> {
        match self {
            FanControl::Force { fan, .. } => Some((mode_code(fan), FanWrite::On)),
            FanControl::Aim { fan, .. } => Some((target_code(fan), FanWrite::Greatest)),
            FanControl::Release { fan, .. } => Some((mode_code(fan), FanWrite::Off)),
            _ => None,
        }
    }

    /// The key that is written next, and what is written to it.
    pub fn write(&self) -> (r: Option<([u8; 4], FanWrite)>)
        ensures
            r is Some == self.key_written() is Some,
            r is Some ==> big_endian((r->0).0@) == (self.key_written()->0).0 && (r->0).1 == (
            self.key_written()->0).1,
    {
        match self {
            FanControl::Force { fan, .. } => Some((mode_key(*fan), FanWrite::On)),
            FanControl::Aim { fan, .. } => {
                let code: u32 = if *fan == 0 {
                    code_of("F0Tg")
                } else {
                    code_of("F1Tg")
                };
                Some((four_bytes(code), FanWrite::Greatest))
            },
            FanControl::Release { fan, .. } => Some((mode_key(*fan), FanWrite::Off)),
            _ => None,
        }
    }

    /// Only fans that were counted are named.
    pub open spec fn in_range(self) -> bool {
        match self {
            FanControl::Force { fan, count } => fan < count,
            FanControl::Aim { fan, count } => fan < count,
            FanControl::Release { fan, count, .. } => fan < count,
            _ => true,
        }
    }

    /// Where the work stands after `n` replies.
    pub open spec fn trace(hold: bool, replies: Seq<FanReply>, n: int) -> FanControl
        decreases n,
    {
        if n <= 0 {
            FanControl::Count { hold }
        } else {
            FanControl::trace(hold, replies, n - 1).after(replies[n - 1])
        }
    }
}

impl Smc {
    /// Begins to force all fans to their greatest speed.
    pub fn set_fans_max() -> (r: FanControl)
        ensures
            r == FanControl::trace(true, Seq::empty(), 0),
            r == (FanControl::Count { hold: true }),
    {
        FanControl::Count { hold: true }
    }

    /// Begins to hand all fans back to automatic control.
    pub fn set_fans_auto() -> (r: FanControl)
        ensures
            r == FanControl::trace(false, Seq::empty(), 0),
            r == (FanControl::Count { hold: false }),
    {
        FanControl::Count { hold: false }
    }
}

// ── Laws ─────────────────────────────────────────────────────────────────────

/// Where the work is done it stays done.
proof fn lemma_finished_stays(hold: bool, replies: Seq<FanReply>, m: int, n: int)
    requires
        0 <= m <= n,
        FanControl::trace(hold, replies, m) is Finished,
    ensures
        FanControl::trace(hold, replies, n) == FanControl::trace(hold, replies, m),
    decreases n,
{
    if m < n {
        lemma_finished_stays(hold, replies, m, n - 1);
    } else if m > 0 {
        reveal_with_fuel(FanControl::trace, 2);
    }
}

/// A run of releases without a failure takes the fans in their order.
proof fn lemma_released_in_order(
    hold: bool,
    replies: Seq<FanReply>,
    at: int,
    count: u8,
    error: Option<SmcWriteError>,
    fan: int,
)
    requires
        0 <= at,
        0 <= fan <= count,
        FanControl::trace(hold, replies, at) == FanControl::releasing(0, count, error),
        forall|j: int| at <= j < at + fan ==> !(#[trigger] replies[j] is Failed),
    ensures
        FanControl::trace(hold, replies, at + fan) == FanControl::releasing(fan, count, error),
    decreases fan,
{
    if fan > 0 {
        lemma_released_in_order(hold, replies, at, count, error, fan - 1);
        assert(FanControl::trace(hold, replies, at + fan - 1) == (FanControl::Release {
            fan: (fan - 1) as u8,
            count,
            error,
        }));
        assert(!(replies[at + fan - 1] is Failed));
    }
}

/// No fan is left behind in forced mode by a failure: once a write failed, the fans
/// are counted again and every one of them is released, as long as releasing goes
/// well.
pub proof fn failures_release_every_fan(replies: Seq<FanReply>, k: int, fan: int)
    requires
        0 <= k,
        FanControl::trace(true, replies, k) is Force || FanControl::trace(true, replies, k) is Aim,
        replies[k] is Failed,
        0 <= fan < told(replies[k + 1]),
        forall|j: int| k + 2 <= j < k + 2 + fan ==> !(#[trigger] replies[j] is Failed),
    ensures
        FanControl::trace(true, replies, k + 1) is Recount,
        FanControl::trace(true, replies, k + 2 + fan) == (FanControl::Release {
            fan: fan as u8,
            count: told(replies[k + 1]),
            error: Some(replies[k]->Failed_0),
        }),
{
    let e = replies[k]->Failed_0;
    assert(FanControl::trace(true, replies, k + 1) == FanControl::Recount { error: e });
    assert(FanControl::trace(true, replies, k + 2) == FanControl::releasing(
        0,
        told(replies[k + 1]),
        Some(e),
    ));
    lemma_released_in_order(true, replies, k + 2, told(replies[k + 1]), Some(e), fan);
}

/// The error that comes out of forcing the fans is that of the write that failed,
/// whatever becomes of releasing them.
pub proof fn the_first_failure_comes_out(replies: Seq<FanReply>, k: int, n: int)
    requires
        0 <= k < n,
        FanControl::trace(true, replies, k) is Force || FanControl::trace(true, replies, k) is Aim,
        replies[k] is Failed,
        FanControl::trace(true, replies, n) is Finished,
    ensures
        FanControl::trace(true, replies, n) == (FanControl::Finished {
            error: Some(replies[k]->Failed_0),
        }),
{
    let e = replies[k]->Failed_0;
    assert(FanControl::trace(true, replies, k + 1) == FanControl::Recount { error: e });
    lemma_keeps_error(replies, e, k + 1, n);
}

proof fn lemma_keeps_error(replies: Seq<FanReply>, e: SmcWriteError, m: int, n: int)
    requires
        0 < m <= n,
        FanControl::trace(true, replies, m) == (FanControl::Recount { error: e }),
    ensures
        match FanControl::trace(true, replies, n) {
            FanControl::Recount { error } => error == e,
            FanControl::Release { error, .. } => error == Some(e),
            FanControl::Finished { error } => error == Some(e),
            _ => false,
        },
    decreases n,
{
    if m < n {
        lemma_keeps_error(replies, e, m, n - 1);
    }
}

/// Forcing the fans succeeds only if every fan that was counted was put into forced
/// mode and then given its target, and no write failed.
pub proof fn success_forces_every_fan(replies: Seq<FanReply>, n: int, fan: int)
    requires
        0 <= n,
        FanControl::trace(true, replies, n) == (FanControl::Finished { error: None }),
        0 <= fan < told(replies[0]),
    ensures
        2 * fan + 2 < n,
        FanControl::trace(true, replies, 2 * fan + 1) == (FanControl::Force {
            fan: fan as u8,
            count: told(replies[0]),
        }),
        !(replies[2 * fan + 1] is Failed),
        FanControl::trace(true, replies, 2 * fan + 2) == (FanControl::Aim {
            fan: fan as u8,
            count: told(replies[0]),
        }),
        !(replies[2 * fan + 2] is Failed),
    decreases fan,
{
    let count = told(replies[0]);
    if fan > 0 {
        success_forces_every_fan(replies, n, fan - 1);
        assert(FanControl::trace(true, replies, 2 * (fan - 1) + 3) == FanControl::forcing(
            fan,
            count,
        ));
    } else {
        assert(FanControl::trace(true, replies, 0) == (FanControl::Count { hold: true }));
        assert(FanControl::trace(true, replies, 1) == FanControl::forcing(0, count));
    }
    let k = 2 * fan + 1;
    assert(FanControl::trace(true, replies, k) == (FanControl::Force { fan: fan as u8, count }));
    if n <= k {
        lemma_finished_stays(true, replies, n, k);
    }
    if replies[k] is Failed {
        the_first_failure_comes_out(replies, k, n);
    }
    assert(FanControl::trace(true, replies, k + 1) == (FanControl::Aim { fan: fan as u8, count }));
    if n <= k + 1 {
        lemma_finished_stays(true, replies, n, k + 1);
    }
    if replies[k + 1] is Failed {
        the_first_failure_comes_out(replies, k + 1, n);
    }
}

/// Releasing the fans takes them in their order and ends at the first failure, which
/// comes out; without one every fan is released.
pub proof fn releasing_ends_at_the_first_failure(replies: Seq<FanReply>, fan: int)
    requires
        0 <= fan < told(replies[0]),
        forall|j: int| 1 <= j < 1 + fan ==> !(#[trigger] replies[j] is Failed),
    ensures
        FanControl::trace(false, replies, 1 + fan) == (FanControl::Release {
            fan: fan as u8,
            count: told(replies[0]),
            error: None,
        }),
        FanControl::trace(false, replies, 2 + fan) == match replies[1 + fan] {
            FanReply::Failed(e) => FanControl::Finished { error: Some(e) },
            _ => FanControl::releasing(fan + 1, told(replies[0]), None),
        },
{
    assert(FanControl::trace(false, replies, 0) == (FanControl::Count { hold: false }));
    assert(FanControl::trace(false, replies, 1) == FanControl::releasing(
        0,
        told(replies[0]),
        None,
    ));
    lemma_released_in_order(false, replies, 1, told(replies[0]), None, fan);
}

/// With at most two fans the work is done after eight replies at the latest.
pub proof fn fan_control_ends(hold: bool, replies: Seq<FanReply>)
    requires
        forall|i: int| told(#[trigger] replies[i]) <= 2,
    ensures
        FanControl::trace(hold, replies, 8) is Finished,
{
    reveal_with_fuel(FanControl::trace, 9);
    assert(told(replies[0]) <= 2 && told(replies[1]) <= 2 && told(replies[2]) <= 2 && told(
        replies[3],
    ) <= 2 && told(replies[4]) <= 2 && told(replies[5]) <= 2);
}

/// A fan has two keys, `F`, its number and then `md` for its mode and `Tg` for its target
/// speed. To force it, one is written to its mode, and then its greatest speed to its
/// target; to release it, zero is written to its mode.
pub proof fn fans_are_written_by_their_own_keys(fan: u8, count: u8, error: Option<SmcWriteError>)
    requires
        fan < 2,
    ensures
        (FanControl::Force { fan, count }).key_written() matches Some((key, w)) && w == FanWrite::On
            && key == 0x4630_6d64 + fan * 0x1_0000,
        (FanControl::Aim { fan, count }).key_written() matches Some((key, w)) && w
            == FanWrite::Greatest && key == 0x4630_5467 + fan * 0x1_0000,
        (FanControl::Release { fan, count, error }).key_written() matches Some((key, w)) && w
            == FanWrite::Off && key == 0x4630_6d64 + fan * 0x1_0000,
{
    reveal_strlit("F0md");
    reveal_strlit("F1md");
    reveal_strlit("F0Tg");
    reveal_strlit("F1Tg");
    codes_are_spelled("F0md"@);
    codes_are_spelled("F1md"@);
    codes_are_spelled("F0Tg"@);
    codes_are_spelled("F1Tg"@);
}

/// While fans are handed back, none is forced and none is given a target.
pub proof fn automatic_control_forces_no_fan(replies: Seq<FanReply>, n: int)
    ensures
        !(FanControl::trace(false, replies, n) is Force),
        !(FanControl::trace(false, replies, n) is Aim),
        !(FanControl::trace(false, replies, n) is Recount),
        n > 0 ==> !(FanControl::trace(false, replies, n) is Count),
    decreases n,
{
    if n > 0 {
        automatic_control_forces_no_fan(replies, n - 1);
    }
}

} // verus!
