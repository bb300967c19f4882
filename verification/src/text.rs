use vstd::prelude::*;
use vstd::string::StringSliceAdditionalSpecFns;

verus! {

// Decimal text: spec-level descriptions of zero-padded and unpadded decimal
// renderings, executable builders that append them to a `String`, and an
// ASCII byte accessor for parsing.

/// The decimal digit character for `d` (0 through 9).
pub open spec fn digit_char(d: int) -> char {
    (48 + d) as char
}

/// Whether `c` is a decimal digit character.
pub open spec fn is_digit_char(c: char) -> bool {
    48 <= c as u32 <= 57
}

/// The numeric value of the digit character `c`.
pub open spec fn digit_val(c: char) -> int {
    c as u32 - 48
}

/// Two-digit, zero-padded decimal text of `n` (0 through 99).
pub open spec fn dec2_text(n: int) -> Seq<char> {
    seq![digit_char(n / 10), digit_char(n % 10)]
}

/// Four-digit, zero-padded decimal text of `n` (0 through 9999).
pub open spec fn dec4_text(n: int) -> Seq<char> {
    seq![
        digit_char(n / 1000),
        digit_char((n / 100) % 10),
        digit_char((n / 10) % 10),
        digit_char(n % 10),
    ]
}

/// Unpadded decimal text of the nonnegative number `n`.
pub open spec fn dec_text(n: int) -> Seq<char>
    decreases n,
{
    if n <= 9 {
        seq![digit_char(n)]
    } else {
        dec_text(n / 10).push(digit_char(n % 10))
    }
}

/// The digit character for `d`, as a one-character string slice.
pub fn digit_str(d: u8) -> (s: &'static str)
    requires
        d < 10,
    ensures
        s@ =~= seq![digit_char(d as int)],
        s.is_ascii(),
{
    proof {
        reveal_strlit("0");
        reveal_strlit("1");
        reveal_strlit("2");
        reveal_strlit("3");
        reveal_strlit("4");
        reveal_strlit("5");
        reveal_strlit("6");
        reveal_strlit("7");
        reveal_strlit("8");
        reveal_strlit("9");
    }
    match d {
        0 => "0",
        1 => "1",
        2 => "2",
        3 => "3",
        4 => "4",
        5 => "5",
        6 => "6",
        7 => "7",
        8 => "8",
        _ => "9",
    }
}

/// Append the two-digit decimal text of `n` to `out`.
pub fn push_dec2(out: &mut String, n: u32)
    requires
        n < 100,
    ensures
        final(out)@ == old(out)@ + dec2_text(n as int),
{
    out.append(digit_str((n / 10) as u8));
    out.append(digit_str((n % 10) as u8));
    proof {
        assert(final(out)@ =~= old(out)@ + dec2_text(n as int));
    }
}

/// Append the four-digit decimal text of `n` to `out`.
pub fn push_dec4(out: &mut String, n: u32)
    requires
        n < 10000,
    ensures
        final(out)@ == old(out)@ + dec4_text(n as int),
{
    out.append(digit_str((n / 1000) as u8));
    out.append(digit_str(((n / 100) % 10) as u8));
    out.append(digit_str(((n / 10) % 10) as u8));
    out.append(digit_str((n % 10) as u8));
    proof {
        assert(final(out)@ =~= old(out)@ + dec4_text(n as int));
    }
}

/// Append the unpadded decimal text of `n` to `out`.
pub fn push_dec(out: &mut String, n: u64)
    ensures
        final(out)@ == old(out)@ + dec_text(n as int),
    decreases n,
{
    if n <= 9 {
        out.append(digit_str(n as u8));
        proof {
            assert(final(out)@ =~= old(out)@ + dec_text(n as int));
        }
    } else {
        push_dec(out, n / 10);
        out.append(digit_str((n % 10) as u8));
        proof {
            assert(final(out)@ =~= old(out)@ + dec_text(n as int));
        }
    }
}

/// The character length of an ASCII string, as a machine word.
pub fn ascii_len(s: &str) -> (n: usize)
    requires
        s.is_ascii(),
    ensures
        n == s@.len(),
{
    proof {
        broadcast use vstd::string::is_ascii_spec_bytes;

        assert(s.spec_bytes().len() == s@.len());
    }
    s.as_bytes().len()
}

/// Whether `c` is JSON whitespace.
pub open spec fn is_ws(c: char) -> bool {
    c == ' ' || c == '\n' || c == '\t' || c == '\r'
}

/// The first position at or after `i` that holds no whitespace.
pub open spec fn skip_ws(s: Seq<char>, i: int) -> int
    decreases s.len() - i,
{
    if 0 <= i < s.len() && is_ws(s[i]) {
        skip_ws(s, i + 1)
    } else {
        i
    }
}

/// Whether the character at `k` is JSON whitespace.
pub fn ws_at(s: &str, k: usize) -> (r: bool)
    requires
        s.is_ascii(),
        k < s@.len(),
    ensures
        r == is_ws(s@[k as int]),
{
    let b = byte_at(s, k);
    b == 32 || b == 10 || b == 9 || b == 13
}

/// Advance past whitespace.
pub fn skip_ws_at(s: &str, i: usize) -> (r: usize)
    requires
        s.is_ascii(),
        i <= s@.len(),
    ensures
        r == skip_ws(s@, i as int),
        i <= r <= s@.len(),
{
    let n = ascii_len(s);
    let mut k = i;
    while k < n && ws_at(s, k)
        invariant
            s.is_ascii(),
            n == s@.len(),
            i <= k <= n,
            skip_ws(s@, i as int) == skip_ws(s@, k as int),
        decreases n - k,
    {
        k = k + 1;
    }
    k
}

/// The byte at position `i` of an ASCII string, as both a byte and the
/// character it stands for.
pub fn byte_at(s: &str, i: usize) -> (b: u8)
    requires
        s.is_ascii(),
        i < s@.len(),
    ensures
        s@[i as int] == b as char,
        b <= 127,
{
    proof {
        broadcast use vstd::utf8::is_ascii_chars_nat_bound;

        assert(s@[i as int] as nat <= 127);
    }
    s.get_ascii(i)
}

} // verus!
