use crate::text::{dec_text, digit_char, digit_str, push_dec};
use vstd::arithmetic::div_mod::lemma_fundamental_div_mod;
use vstd::prelude::*;

verus! {

/// A signed span of time, counted in whole seconds.
#[derive(Clone, Copy, Debug, PartialEq, Eq, Structural)]
pub struct Duration {
    pub secs: i64,
}

impl Duration {
    /// A duration of exactly `secs` seconds.
    pub fn seconds(secs: i64) -> (d: Duration)
        ensures
            d.secs == secs,
    {
        Duration { secs }
    }

    /// A duration of `mins` minutes.
    pub fn minutes(mins: i64) -> (d: Duration)
        requires
            i64::MIN <= mins * 60 <= i64::MAX,
        ensures
            d.secs == mins * 60,
    {
        Duration { secs: mins * 60 }
    }

    /// A duration of `hours` hours.
    pub fn hours(hours: i64) -> (d: Duration)
        requires
            i64::MIN <= hours * 3600 <= i64::MAX,
        ensures
            d.secs == hours * 3600,
    {
        Duration { secs: hours * 3600 }
    }

    /// A duration of `days` days.
    pub fn days(days: i64) -> (d: Duration)
        requires
            i64::MIN <= days * 86400 <= i64::MAX,
        ensures
            d.secs == days * 86400,
    {
        Duration { secs: days * 86400 }
    }

    /// The duration's length in whole seconds.
    pub fn num_seconds(&self) -> (s: i64)
        ensures
            s == self.secs,
    {
        self.secs
    }
}

/// One clock-text component, at least two characters wide: a nonnegative
/// value is zero-padded to two digits; a negative component carries a minus
/// sign in front of its digits, the sign counting towards the width.
pub open spec fn pad2_text(neg: bool, mag: int) -> Seq<char> {
    if neg && mag > 0 {
        seq!['-'] + dec_text(mag)
    } else if mag <= 9 {
        seq!['0', digit_char(mag)]
    } else {
        dec_text(mag)
    }
}

/// The clock text `HH:MM:SS` of a signed second count: hours are unbounded
/// (not wrapped at 24), minutes and seconds run 0 through 59, and for a
/// negative total each nonzero component carries its own minus sign, as the
/// components are each reduced from the signed total.
pub open spec fn duration_text(total: int) -> Seq<char> {
    let neg = total < 0;
    let mag = if total < 0 {
        -total
    } else {
        total
    };
    pad2_text(neg, mag / 3600) + seq![':'] + pad2_text(neg, (mag % 3600) / 60) + seq![':']
        + pad2_text(neg, (mag % 3600) % 60)
}

/// Append one clock-text component to `out`.
fn push_pad2(out: &mut String, neg: bool, mag: u64)
    ensures
        final(out)@ == old(out)@ + pad2_text(neg, mag as int),
{
    if neg && mag > 0 {
        out.append("-");
        push_dec(out, mag);
        proof {
            reveal_strlit("-");
            assert(final(out)@ =~= old(out)@ + pad2_text(neg, mag as int));
        }
    } else if mag <= 9 {
        out.append("0");
        out.append(digit_str(mag as u8));
        proof {
            reveal_strlit("0");
            assert(final(out)@ =~= old(out)@ + pad2_text(neg, mag as int));
        }
    } else {
        push_dec(out, mag);
    }
}

/// Render a duration as `HH:MM:SS` clock text.
pub fn format_duration(duration: &Duration) -> (s: String)
    ensures
        s@ == duration_text(duration.secs as int),
{
    let neg: bool = duration.secs < 0;
    let mag: u64 = if duration.secs < 0 {
        ((-(duration.secs + 1)) as u64) + 1
    } else {
        duration.secs as u64
    };
    proof {
        lemma_fundamental_div_mod(mag as int, 3600);
        lemma_fundamental_div_mod((mag as int) % 3600, 60);
    }
    let mut out = String::new();
    push_pad2(&mut out, neg, mag / 3600);
    out.append(":");
    push_pad2(&mut out, neg, (mag % 3600) / 60);
    out.append(":");
    push_pad2(&mut out, neg, (mag % 3600) % 60);
    proof {
        reveal_strlit(":");
        assert(out@ =~= duration_text(duration.secs as int));
    }
    out
}

} // verus!
