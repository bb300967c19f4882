use crate::calendar::{
    day_of_ymd, days_to_ymd, lemma_day_of_ymd_max, lemma_ymd_of_day_roundtrip, month_length,
    valid_ymd, ymd_of_day, ymd_to_day,
};
use crate::text::{byte_at, digit_char, digit_val, is_digit_char, push_dec2, push_dec4};
use vstd::arithmetic::div_mod::lemma_fundamental_div_mod;
use vstd::prelude::*;
use vstd::string::StringSliceAdditionalSpecFns;

verus! {

/// Seconds from 0000-01-01 00:00:00 to 1970-01-01 00:00:00.
pub const EPOCH_OFFSET_SECS: i64 = 62167219200;

/// The earliest representable moment, 0000-01-01 00:00:00.
pub const TIMESTAMP_MIN_SECS: i64 = -62167219200;

/// The latest representable moment, 9999-12-31 23:59:59.
pub const TIMESTAMP_MAX_SECS: i64 = 253402300799;

/// A wall-clock moment with second precision, counted in seconds relative to
/// 1970-01-01 00:00:00 (negative values lie before 1970). No time zone is
/// attached: a timestamp stands for the local, naive reading of the clock.
#[derive(Clone, Copy, Debug, PartialEq, Eq, Structural)]
pub struct Timestamp {
    pub secs: i64,
}

/// The day number (days since 0000-01-01) of the moment `secs`.
pub open spec fn day0_of(secs: int) -> int {
    (secs + EPOCH_OFFSET_SECS) / 86400
}

/// The second within its day of the moment `secs`.
pub open spec fn time_of_day(secs: int) -> int {
    (secs + EPOCH_OFFSET_SECS) % 86400
}

/// Whether two moments fall on the same calendar day.
pub open spec fn same_calendar_day(a: int, b: int) -> bool {
    day0_of(a) == day0_of(b)
}

/// Clamp an arbitrary second count into the representable range.
pub open spec fn clamp_secs(s: int) -> int {
    if s < TIMESTAMP_MIN_SECS {
        TIMESTAMP_MIN_SECS as int
    } else if s > TIMESTAMP_MAX_SECS {
        TIMESTAMP_MAX_SECS as int
    } else {
        s
    }
}

/// The 19-character text of the moment `secs`: `YYYY-MM-DD HH:MM:SS`.
pub open spec fn ts_text(secs: int) -> Seq<char> {
    let d0 = day0_of(secs);
    let tod = time_of_day(secs);
    let (y, m, d) = ymd_of_day(d0);
    let hh = tod / 3600;
    let mm = (tod % 3600) / 60;
    let ss = (tod % 3600) % 60;
    seq![
        digit_char(y / 1000),
        digit_char((y / 100) % 10),
        digit_char((y / 10) % 10),
        digit_char(y % 10),
        '-',
        digit_char(m / 10),
        digit_char(m % 10),
        '-',
        digit_char(d / 10),
        digit_char(d % 10),
        ' ',
        digit_char(hh / 10),
        digit_char(hh % 10),
        ':',
        digit_char(mm / 10),
        digit_char(mm % 10),
        ':',
        digit_char(ss / 10),
        digit_char(ss % 10),
    ]
}

impl Timestamp {
    /// Whether the moment lies in the representable range (years 0000-9999).
    pub open spec fn wf(&self) -> bool {
        TIMESTAMP_MIN_SECS <= self.secs <= TIMESTAMP_MAX_SECS
    }

    /// Build a timestamp from a raw second count, clamping values outside
    /// the representable range to its nearest end.
    pub fn from_clock_secs(secs: i64) -> (t: Timestamp)
        ensures
            t.wf(),
            t.secs == clamp_secs(secs as int),
    {
        if secs < TIMESTAMP_MIN_SECS {
            Timestamp { secs: TIMESTAMP_MIN_SECS }
        } else if secs > TIMESTAMP_MAX_SECS {
            Timestamp { secs: TIMESTAMP_MAX_SECS }
        } else {
            Timestamp { secs }
        }
    }

    /// The day number of this moment.
    pub fn day_number(&self) -> (d: u32)
        requires
            self.wf(),
        ensures
            d == day0_of(self.secs as int),
    {
        proof {
            lemma_time_parts(self.secs as int);
        }
        let total: u64 = (self.secs + EPOCH_OFFSET_SECS) as u64;
        (total / 86400) as u32
    }
}

/// Division and remainder facts for taking a representable moment apart into
/// its day number and time of day.
pub proof fn lemma_time_parts(secs: int)
    requires
        TIMESTAMP_MIN_SECS <= secs <= TIMESTAMP_MAX_SECS,
    ensures
        0 <= day0_of(secs) <= 3652424,
        0 <= time_of_day(secs) < 86400,
        day0_of(secs) * 86400 + time_of_day(secs) == secs + EPOCH_OFFSET_SECS,
        time_of_day(secs) / 3600 <= 23,
        (time_of_day(secs) % 3600) / 60 <= 59,
        (time_of_day(secs) % 3600) % 60 <= 59,
        time_of_day(secs) / 3600 * 3600 + (time_of_day(secs) % 3600) / 60 * 60 + (time_of_day(
            secs,
        ) % 3600) % 60 == time_of_day(secs),
{
    let x = secs + EPOCH_OFFSET_SECS;
    lemma_fundamental_div_mod(x, 86400);
    let tod = time_of_day(secs);
    lemma_fundamental_div_mod(tod, 3600);
    lemma_fundamental_div_mod(tod % 3600, 60);
}

/// Render a timestamp as `YYYY-MM-DD HH:MM:SS`.
pub fn timestamp_text(t: &Timestamp) -> (s: String)
    requires
        t.wf(),
    ensures
        s@ == ts_text(t.secs as int),
{
    proof {
        lemma_time_parts(t.secs as int);
        lemma_ymd_of_day_roundtrip(day0_of(t.secs as int));
    }
    let total: u64 = (t.secs + EPOCH_OFFSET_SECS) as u64;
    let d0: u32 = (total / 86400) as u32;
    let tod: u32 = (total % 86400) as u32;
    let (y, m, d) = days_to_ymd(d0);
    let mut out = String::new();
    push_dec4(&mut out, y);
    out.append("-");
    push_dec2(&mut out, m);
    out.append("-");
    push_dec2(&mut out, d);
    out.append(" ");
    push_dec2(&mut out, tod / 3600);
    out.append(":");
    push_dec2(&mut out, (tod % 3600) / 60);
    out.append(":");
    push_dec2(&mut out, (tod % 3600) % 60);
    proof {
        reveal_strlit("-");
        reveal_strlit(" ");
        reveal_strlit(":");
        assert(out@ =~= ts_text(t.secs as int));
    }
    out
}

/// Whether the 19 characters at `i` have the digit/punctuation shape of a
/// timestamp (bounds included).
pub open spec fn ts_shape_ok(s: Seq<char>, i: int) -> bool {
    &&& 0 <= i && i + 19 <= s.len()
    &&& is_digit_char(s[i]) && is_digit_char(s[i + 1]) && is_digit_char(s[i + 2]) && is_digit_char(
        s[i + 3],
    )
    &&& s[i + 4] == '-'
    &&& is_digit_char(s[i + 5]) && is_digit_char(s[i + 6])
    &&& s[i + 7] == '-'
    &&& is_digit_char(s[i + 8]) && is_digit_char(s[i + 9])
    &&& s[i + 10] == ' '
    &&& is_digit_char(s[i + 11]) && is_digit_char(s[i + 12])
    &&& s[i + 13] == ':'
    &&& is_digit_char(s[i + 14]) && is_digit_char(s[i + 15])
    &&& s[i + 16] == ':'
    &&& is_digit_char(s[i + 17]) && is_digit_char(s[i + 18])
}

/// The value of the two-digit number at `i`.
pub open spec fn num2_at(s: Seq<char>, i: int) -> int {
    digit_val(s[i]) * 10 + digit_val(s[i + 1])
}

/// The value of the four-digit number at `i`.
pub open spec fn num4_at(s: Seq<char>, i: int) -> int {
    digit_val(s[i]) * 1000 + digit_val(s[i + 1]) * 100 + digit_val(s[i + 2]) * 10 + digit_val(
        s[i + 3],
    )
}

/// Parse the 19 characters at `i` as a timestamp: `None` unless they have
/// the exact `YYYY-MM-DD HH:MM:SS` shape and name a valid calendar date and
/// time of day.
pub open spec fn spec_parse_ts(s: Seq<char>, i: int) -> Option<Timestamp> {
    if ts_shape_ok(s, i) {
        let y = num4_at(s, i);
        let mo = num2_at(s, i + 5);
        let d = num2_at(s, i + 8);
        let hh = num2_at(s, i + 11);
        let mm = num2_at(s, i + 14);
        let ss = num2_at(s, i + 17);
        if valid_ymd(y, mo, d) && hh <= 23 && mm <= 59 && ss <= 59 {
            Some(
                Timestamp {
                    secs: (day_of_ymd(y, mo, d) * 86400 + hh * 3600 + mm * 60 + ss
                        - EPOCH_OFFSET_SECS) as i64,
                },
            )
        } else {
            None
        }
    } else {
        None
    }
}

/// Parse a timestamp at position `i` of an ASCII string.
pub fn parse_timestamp_at(s: &str, i: usize) -> (r: Option<Timestamp>)
    requires
        s.is_ascii(),
        i <= s@.len(),
    ensures
        r == spec_parse_ts(s@, i as int),
        r matches Some(t) ==> t.wf(),
{
    proof {
        broadcast use vstd::string::is_ascii_spec_bytes;

        assert(s.spec_bytes().len() == s@.len());
    }
    let n: usize = s.as_bytes().len();
    proof {
        assert(n == s@.len());
    }
    if n < 19 || i > n - 19 {
        return None;
    }
    let b0 = byte_at(s, i);
    let b1 = byte_at(s, i + 1);
    let b2 = byte_at(s, i + 2);
    let b3 = byte_at(s, i + 3);
    let b4 = byte_at(s, i + 4);
    let b5 = byte_at(s, i + 5);
    let b6 = byte_at(s, i + 6);
    let b7 = byte_at(s, i + 7);
    let b8 = byte_at(s, i + 8);
    let b9 = byte_at(s, i + 9);
    let b10 = byte_at(s, i + 10);
    let b11 = byte_at(s, i + 11);
    let b12 = byte_at(s, i + 12);
    let b13 = byte_at(s, i + 13);
    let b14 = byte_at(s, i + 14);
    let b15 = byte_at(s, i + 15);
    let b16 = byte_at(s, i + 16);
    let b17 = byte_at(s, i + 17);
    let b18 = byte_at(s, i + 18);
    let digits_ok = is_digit(b0) && is_digit(b1) && is_digit(b2) && is_digit(b3) && is_digit(b5)
        && is_digit(b6) && is_digit(b8) && is_digit(b9) && is_digit(b11) && is_digit(b12)
        && is_digit(b14) && is_digit(b15) && is_digit(b17) && is_digit(b18);
    if !(digits_ok && b4 == 45 && b7 == 45 && b10 == 32 && b13 == 58 && b16 == 58) {
        return None;
    }
    let y: u32 = (b0 - 48) as u32 * 1000 + (b1 - 48) as u32 * 100 + (b2 - 48) as u32 * 10 + (b3
        - 48) as u32;
    let mo: u32 = (b5 - 48) as u32 * 10 + (b6 - 48) as u32;
    let d: u32 = (b8 - 48) as u32 * 10 + (b9 - 48) as u32;
    let hh: u32 = (b11 - 48) as u32 * 10 + (b12 - 48) as u32;
    let mm: u32 = (b14 - 48) as u32 * 10 + (b15 - 48) as u32;
    let ss: u32 = (b17 - 48) as u32 * 10 + (b18 - 48) as u32;
    if !(1 <= mo && mo <= 12 && 1 <= d && hh <= 23 && mm <= 59 && ss <= 59) {
        return None;
    }
    if d > month_length(y, mo) {
        return None;
    }
    let day: u32 = ymd_to_day(y, mo, d);
    let secs: i64 = (day as i64) * 86400 + (hh * 3600 + mm * 60 + ss) as i64 - EPOCH_OFFSET_SECS;
    Some(Timestamp { secs })
}

/// Whether a byte is an ASCII decimal digit.
fn is_digit(b: u8) -> (r: bool)
    ensures
        r == (48 <= b <= 57),
{
    48 <= b && b <= 57
}

/// The timestamp text of a representable moment, placed anywhere inside a
/// larger text, parses back to the same moment.
#[verifier::rlimit(60)]
pub proof fn lemma_ts_text_parses(s: Seq<char>, i: int, t: Timestamp)
    requires
        t.wf(),
        0 <= i,
        i + 19 <= s.len(),
        s.subrange(i, i + 19) == ts_text(t.secs as int),
    ensures
        spec_parse_ts(s, i) == Some(t),
{
    let secs = t.secs as int;
    lemma_time_parts(secs);
    let d0 = day0_of(secs);
    let tod = time_of_day(secs);
    lemma_ymd_of_day_roundtrip(d0);
    let (y, m, d) = ymd_of_day(d0);
    let hh = tod / 3600;
    let mm = (tod % 3600) / 60;
    let ss = (tod % 3600) % 60;
    assert forall|k: int| 0 <= k < 19 implies s[i + k] == ts_text(secs)[k] by {
        assert(s.subrange(i, i + 19)[k] == s[i + k]);
    }
    lemma_digit_pair(y / 1000, (y / 100) % 10);
    lemma_digit_pair((y / 10) % 10, y % 10);
    lemma_digit_pair(m / 10, m % 10);
    lemma_digit_pair(d / 10, d % 10);
    lemma_digit_pair(hh / 10, hh % 10);
    lemma_digit_pair(mm / 10, mm % 10);
    lemma_digit_pair(ss / 10, ss % 10);
    assert(num4_at(s, i) == y) by {
        lemma_fundamental_div_mod(y, 10);
        lemma_fundamental_div_mod(y / 10, 10);
        lemma_fundamental_div_mod(y / 100, 10);
    };
    assert(num2_at(s, i + 5) == m) by {
        lemma_fundamental_div_mod(m, 10);
    };
    assert(num2_at(s, i + 8) == d) by {
        lemma_fundamental_div_mod(d, 10);
    };
    assert(num2_at(s, i + 11) == hh) by {
        lemma_fundamental_div_mod(hh, 10);
    };
    assert(num2_at(s, i + 14) == mm) by {
        lemma_fundamental_div_mod(mm, 10);
    };
    assert(num2_at(s, i + 17) == ss) by {
        lemma_fundamental_div_mod(ss, 10);
    };
    assert(ts_shape_ok(s, i));
    assert(day_of_ymd(y, m, d) == d0);
    assert(day_of_ymd(y, m, d) * 86400 + hh * 3600 + mm * 60 + ss - EPOCH_OFFSET_SECS == secs);
}

/// Digit characters built from in-range values read back as those values.
proof fn lemma_digit_pair(a: int, b: int)
    requires
        0 <= a <= 9,
        0 <= b <= 9,
    ensures
        digit_val(digit_char(a)) == a,
        digit_val(digit_char(b)) == b,
        is_digit_char(digit_char(a)),
        is_digit_char(digit_char(b)),
{
}

/// The timestamp text is 19 ASCII characters.
pub proof fn lemma_ts_text_props(secs: int)
    requires
        TIMESTAMP_MIN_SECS <= secs <= TIMESTAMP_MAX_SECS,
    ensures
        ts_text(secs).len() == 19,
        vstd::utf8::is_ascii_chars(ts_text(secs)),
{
    lemma_time_parts(secs);
    lemma_ymd_of_day_roundtrip(day0_of(secs));
    assert forall|k: int| 0 <= k < 19 implies '\0' <= #[trigger] ts_text(secs)[k] <= '\u{7f}' by {
    }
}

} // verus!
