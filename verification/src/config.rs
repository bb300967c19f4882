use crate::text::{ascii_len, byte_at, digit_val, is_digit_char, is_ws, skip_ws, skip_ws_at, ws_at};
use vstd::prelude::*;
use vstd::utf8::is_ascii_chars;

verus! {

// The configuration file is a small JSON object,
//
//     {"absolute_persistence_path": "...", "lunch_break_in_mins": 50}
//
// read once per invocation. The parser below accepts the two fields in
// either order, with any whitespace between tokens; string values decode
// the JSON single-character escapes (a `\u` escape is refused).

/// What the tool is configured with: where the store is persisted, and the
/// lunch break (minutes) deducted from every displayed duration.
#[derive(Clone, Debug, PartialEq, Eq)]
pub struct Config {
    pub absolute_persistence_path: String,
    pub lunch_break_in_mins: i64,
}

/// The character named by the escape code `c` (the character after a
/// backslash), for the JSON single-character escapes.
pub open spec fn unescape(c: char) -> Option<char> {
    if c == '"' {
        Some('"')
    } else if c == '\\' {
        Some('\\')
    } else if c == '/' {
        Some('/')
    } else if c == 'b' {
        Some('\u{8}')
    } else if c == 'f' {
        Some('\u{c}')
    } else if c == 'n' {
        Some('\n')
    } else if c == 'r' {
        Some('\r')
    } else if c == 't' {
        Some('\t')
    } else {
        None
    }
}

/// Scan a string body from `i` to its closing quote: the decoded contents
/// and the position of the closing quote. The single-character escapes are
/// decoded; an unknown escape (including `\u`) or an unclosed string gives
/// `None`.
pub open spec fn scan_string(s: Seq<char>, i: int) -> Option<(Seq<char>, int)>
    decreases s.len() - i,
{
    if i < 0 || i >= s.len() {
        None
    } else if s[i] == '"' {
        Some((Seq::empty(), i))
    } else if s[i] == '\\' {
        if i + 1 < s.len() {
            match unescape(s[i + 1]) {
                Some(ch) => match scan_string(s, i + 2) {
                    Some((rest, j)) => Some((seq![ch] + rest, j)),
                    None => None,
                },
                None => None,
            }
        } else {
            None
        }
    } else {
        match scan_string(s, i + 1) {
            Some((rest, j)) => Some((seq![s[i]] + rest, j)),
            None => None,
        }
    }
}

/// The first position at or after `i` holding no decimal digit.
pub open spec fn scan_digits(s: Seq<char>, i: int) -> int
    decreases s.len() - i,
{
    if 0 <= i < s.len() && is_digit_char(s[i]) {
        scan_digits(s, i + 1)
    } else {
        i
    }
}

/// The value of the digit run from `i` (inclusive) to `j` (exclusive).
pub open spec fn digits_value(s: Seq<char>, i: int, j: int) -> int
    decreases j - i,
{
    if j <= i {
        0
    } else {
        digits_value(s, i, j - 1) * 10 + digit_val(s[j - 1])
    }
}

/// Parse a JSON integer at `i`: an optional minus sign, then digits without
/// a leading zero. A number of more than 19 digits, or one that does not
/// fit an `i64`, is refused.
pub open spec fn spec_parse_int(s: Seq<char>, i: int) -> Option<(int, int)> {
    if 0 <= i < s.len() {
        let neg = s[i] == '-';
        let id = if neg {
            i + 1
        } else {
            i
        };
        let j = scan_digits(s, id);
        if j - id < 1 || j - id > 19 {
            None
        } else if id < s.len() && s[id] == '0' && j - id > 1 {
            None
        } else {
            let v = digits_value(s, id, j);
            if neg && v <= 9223372036854775808 {
                Some((-v, j))
            } else if !neg && v <= 9223372036854775807 {
                Some((v, j))
            } else {
                None
            }
        }
    } else {
        None
    }
}

/// Parse a quoted string at `i`: its contents and the position after the
/// closing quote.
pub open spec fn spec_parse_string(s: Seq<char>, i: int) -> Option<(Seq<char>, int)> {
    if 0 <= i < s.len() && s[i] == '"' {
        match scan_string(s, i + 1) {
            Some((content, j)) => Some((content, j + 1)),
            None => None,
        }
    } else {
        None
    }
}

/// The quoted key of the persistence-path field.
pub open spec fn key_path() -> Seq<char> {
    seq![
        '"',
        'a',
        'b',
        's',
        'o',
        'l',
        'u',
        't',
        'e',
        '_',
        'p',
        'e',
        'r',
        's',
        'i',
        's',
        't',
        'e',
        'n',
        'c',
        'e',
        '_',
        'p',
        'a',
        't',
        'h',
        '"',
    ]
}

/// The quoted key of the lunch-break field.
pub open spec fn key_mins() -> Seq<char> {
    seq![
        '"',
        'l',
        'u',
        'n',
        'c',
        'h',
        '_',
        'b',
        'r',
        'e',
        'a',
        'k',
        '_',
        'i',
        'n',
        '_',
        'm',
        'i',
        'n',
        's',
        '"',
    ]
}

/// Whether the text at position `i` of `s` is exactly `pat`.
pub open spec fn key_at(s: Seq<char>, i: int, pat: Seq<char>) -> bool {
    &&& 0 <= i
    &&& i + pat.len() <= s.len()
    &&& s.subrange(i, i + pat.len() as int) == pat
}

/// Parse the persistence-path field at `i`: its key, a colon, and a string
/// value, with any whitespace between the tokens.
pub open spec fn spec_parse_path_field(s: Seq<char>, i: int) -> Option<(Seq<char>, int)> {
    if key_at(s, i, key_path()) {
        let ic = skip_ws(s, i + 27);
        if ic < s.len() && s[ic] == ':' {
            spec_parse_string(s, skip_ws(s, ic + 1))
        } else {
            None
        }
    } else {
        None
    }
}

/// Parse the lunch-break field at `i`: its key, a colon, and an integer
/// value, with any whitespace between the tokens.
pub open spec fn spec_parse_mins_field(s: Seq<char>, i: int) -> Option<(int, int)> {
    if key_at(s, i, key_mins()) {
        let ic = skip_ws(s, i + 21);
        if ic < s.len() && s[ic] == ':' {
            spec_parse_int(s, skip_ws(s, ic + 1))
        } else {
            None
        }
    } else {
        None
    }
}

/// Whether only the closing brace and whitespace stand from `j` to the end.
pub open spec fn spec_parse_tail(s: Seq<char>, j: int) -> bool {
    let i4 = skip_ws(s, j);
    &&& i4 < s.len()
    &&& s[i4] == '}'
    &&& skip_ws(s, i4 + 1) == s.len()
}

/// Parse a whole configuration text: a JSON object holding exactly the two
/// known fields, in either order, and nothing else.
pub open spec fn spec_parse_config(s: Seq<char>) -> Option<(Seq<char>, int)> {
    let i0 = skip_ws(s, 0);
    if i0 < s.len() && s[i0] == '{' {
        let i1 = skip_ws(s, i0 + 1);
        if key_at(s, i1, key_path()) {
            match spec_parse_path_field(s, i1) {
                Some((p, j1)) => {
                    let i2 = skip_ws(s, j1);
                    if i2 < s.len() && s[i2] == ',' {
                        match spec_parse_mins_field(s, skip_ws(s, i2 + 1)) {
                            Some((m, j2)) => {
                                if spec_parse_tail(s, j2) {
                                    Some((p, m))
                                } else {
                                    None
                                }
                            },
                            None => None,
                        }
                    } else {
                        None
                    }
                },
                None => None,
            }
        } else {
            match spec_parse_mins_field(s, i1) {
                Some((m, j1)) => {
                    let i2 = skip_ws(s, j1);
                    if i2 < s.len() && s[i2] == ',' {
                        match spec_parse_path_field(s, skip_ws(s, i2 + 1)) {
                            Some((p, j2)) => {
                                if spec_parse_tail(s, j2) {
                                    Some((p, m))
                                } else {
                                    None
                                }
                            },
                            None => None,
                        }
                    } else {
                        None
                    }
                },
                None => None,
            }
        }
    } else {
        None
    }
}

/// Ten to the power `k`.
spec fn pow10(k: int) -> int
    decreases k,
{
    if k <= 0 {
        1
    } else {
        10 * pow10(k - 1)
    }
}

proof fn lemma_pow10_pos(a: int)
    ensures
        pow10(a) >= 1,
    decreases (if a > 0 {
        a
    } else {
        0
    }),
{
    if a > 0 {
        lemma_pow10_pos(a - 1);
    }
}

proof fn lemma_pow10_mono(a: int, b: int)
    requires
        a <= b,
    ensures
        pow10(a) <= pow10(b),
        pow10(a) >= 1,
    decreases b - a,
{
    lemma_pow10_pos(a);
    if a < b {
        lemma_pow10_mono(a, b - 1);
        lemma_pow10_pos(b - 1);
    }
}

/// Whether the character at `k` is a decimal digit.
fn digit_at(s: &str, k: usize) -> (r: bool)
    requires
        s.is_ascii(),
        k < s@.len(),
    ensures
        r == is_digit_char(s@[k as int]),
{
    let b = byte_at(s, k);
    48 <= b && b <= 57
}

/// Scan a string body starting at `i`, decoding escapes: the contents and
/// the position of the closing quote.
fn scan_string_collect(s: &str, i: usize) -> (r: Option<(String, usize)>)
    requires
        s.is_ascii(),
        i <= s@.len(),
    ensures
        match r {
            Some((content, j)) => scan_string(s@, i as int) == Some((content@, j as int)) && i <= j
                < s@.len(),
            None => scan_string(s@, i as int) is None,
        },
{
    let n = ascii_len(s);
    let mut out = String::new();
    let mut k = i;
    loop
        invariant
            s.is_ascii(),
            n == s@.len(),
            i <= k <= n,
            scan_string(s@, k as int) matches Some(p) ==> scan_string(s@, i as int) == Some(
                (out@ + p.0, p.1),
            ),
            scan_string(s@, k as int) is None ==> scan_string(s@, i as int) is None,
        decreases n - k,
    {
        if k >= n {
            return None;
        }
        let b = byte_at(s, k);
        if b == 34 {
            proof {
                assert(out@ + Seq::<char>::empty() =~= out@);
            }
            return Some((out, k));
        }
        if b == 92 {
            if k + 1 >= n {
                return None;
            }
            let e = byte_at(s, k + 1);
            let piece: &'static str = match e {
                34 => "\"",
                92 => "\\",
                47 => "/",
                98 => "\u{8}",
                102 => "\u{c}",
                110 => "\n",
                114 => "\r",
                116 => "\t",
                _ => {
                    return None;
                },
            };
            proof {
                reveal_strlit("\"");
                reveal_strlit("\\");
                reveal_strlit("/");
                reveal_strlit("\u{8}");
                reveal_strlit("\u{c}");
                reveal_strlit("\n");
                reveal_strlit("\r");
                reveal_strlit("\t");
                assert(unescape(s@[k as int + 1]) matches Some(ch) && piece@ =~= seq![ch]);
            }
            let ghost prev = out@;
            out.append(piece);
            proof {
                let ch = unescape(s@[k as int + 1])->0;
                if scan_string(s@, k as int + 2) is Some {
                    let p = scan_string(s@, k as int + 2)->0;
                    assert(prev + (seq![ch] + p.0) =~= out@ + p.0);
                }
            }
            k = k + 2;
        } else {
            let ghost prev = out@;
            out.append(s.substring_ascii(k, k + 1));
            proof {
                assert(s@.subrange(k as int, k as int + 1) =~= seq![s@[k as int]]);
                if scan_string(s@, k as int + 1) is Some {
                    let p = scan_string(s@, k as int + 1)->0;
                    assert(prev + (seq![s@[k as int]] + p.0) =~= out@ + p.0);
                }
            }
            k = k + 1;
        }
    }
}

/// Advance past decimal digits.
fn scan_digits_end(s: &str, i: usize) -> (r: usize)
    requires
        s.is_ascii(),
        i <= s@.len(),
    ensures
        r == scan_digits(s@, i as int),
        i <= r <= s@.len(),
        forall|k: int| i <= k < r ==> is_digit_char(#[trigger] s@[k]),
{
    let n = ascii_len(s);
    let mut k = i;
    while k < n && digit_at(s, k)
        invariant
            s.is_ascii(),
            n == s@.len(),
            i <= k <= n,
            scan_digits(s@, i as int) == scan_digits(s@, k as int),
            forall|q: int| i <= q < k ==> is_digit_char(#[trigger] s@[q]),
        decreases n - k,
    {
        k = k + 1;
    }
    k
}

/// Whether the persistence-path key stands at position `i`.
fn match_key_path(s: &str, i: usize) -> (r: bool)
    requires
        s.is_ascii(),
        i <= s@.len(),
    ensures
        r == key_at(s@, i as int, key_path()),
{
    let n = ascii_len(s);
    if n - i < 27 {
        return false;
    }
    let ok = byte_at(s, i) == 34 && byte_at(s, i + 1) == 97 && byte_at(s, i + 2) == 98 && byte_at(
        s,
        i + 3,
    ) == 115 && byte_at(s, i + 4) == 111 && byte_at(s, i + 5) == 108 && byte_at(s, i + 6) == 117
        && byte_at(s, i + 7) == 116 && byte_at(s, i + 8) == 101 && byte_at(s, i + 9) == 95
        && byte_at(s, i + 10) == 112 && byte_at(s, i + 11) == 101 && byte_at(s, i + 12) == 114
        && byte_at(s, i + 13) == 115 && byte_at(s, i + 14) == 105 && byte_at(s, i + 15) == 115
        && byte_at(s, i + 16) == 116 && byte_at(s, i + 17) == 101 && byte_at(s, i + 18) == 110
        && byte_at(s, i + 19) == 99 && byte_at(s, i + 20) == 101 && byte_at(s, i + 21) == 95
        && byte_at(s, i + 22) == 112 && byte_at(s, i + 23) == 97 && byte_at(s, i + 24) == 116
        && byte_at(s, i + 25) == 104 && byte_at(s, i + 26) == 34;
    proof {
        if ok {
            assert(s@.subrange(i as int, i as int + 27) =~= key_path());
        } else {
            if key_at(s@, i as int, key_path()) {
                assert(forall|k: int|
                    0 <= k < 27 ==> s@.subrange(i as int, i as int + 27)[k] == key_path()[k]);
                assert(false);
            }
        }
    }
    ok
}

/// Whether the lunch-break key stands at position `i`.
fn match_key_mins(s: &str, i: usize) -> (r: bool)
    requires
        s.is_ascii(),
        i <= s@.len(),
    ensures
        r == key_at(s@, i as int, key_mins()),
{
    let n = ascii_len(s);
    if n - i < 21 {
        return false;
    }
    let ok = byte_at(s, i) == 34 && byte_at(s, i + 1) == 108 && byte_at(s, i + 2) == 117
        && byte_at(s, i + 3) == 110 && byte_at(s, i + 4) == 99 && byte_at(s, i + 5) == 104
        && byte_at(s, i + 6) == 95 && byte_at(s, i + 7) == 98 && byte_at(s, i + 8) == 114
        && byte_at(s, i + 9) == 101 && byte_at(s, i + 10) == 97 && byte_at(s, i + 11) == 107
        && byte_at(s, i + 12) == 95 && byte_at(s, i + 13) == 105 && byte_at(s, i + 14) == 110
        && byte_at(s, i + 15) == 95 && byte_at(s, i + 16) == 109 && byte_at(s, i + 17) == 105
        && byte_at(s, i + 18) == 110 && byte_at(s, i + 19) == 115 && byte_at(s, i + 20) == 34;
    proof {
        if ok {
            assert(s@.subrange(i as int, i as int + 21) =~= key_mins());
        } else {
            if key_at(s@, i as int, key_mins()) {
                assert(forall|k: int|
                    0 <= k < 21 ==> s@.subrange(i as int, i as int + 21)[k] == key_mins()[k]);
                assert(false);
            }
        }
    }
    ok
}

/// Parse a JSON integer at position `i`.
fn parse_int_at(s: &str, i: usize) -> (r: Option<(i64, usize)>)
    requires
        s.is_ascii(),
        i <= s@.len(),
    ensures
        match r {
            Some((v, j)) => spec_parse_int(s@, i as int) == Some((v as int, j as int)) && i < j
                <= s@.len(),
            None => spec_parse_int(s@, i as int) is None,
        },
{
    let n = ascii_len(s);
    if i >= n {
        return None;
    }
    let neg = byte_at(s, i) == 45;
    let id = if neg {
        i + 1
    } else {
        i
    };
    let j = scan_digits_end(s, id);
    if j - id < 1 || j - id > 19 {
        return None;
    }
    if byte_at(s, id) == 48 && j - id > 1 {
        return None;
    }
    let mut acc: u64 = 0;
    let mut k = id;
    proof {
        lemma_pow10_mono(0, 0);
    }
    while k < j
        invariant
            s.is_ascii(),
            n == s@.len(),
            id <= k <= j <= n,
            j - id <= 19,
            forall|q: int| id <= q < j ==> is_digit_char(#[trigger] s@[q]),
            acc == digits_value(s@, id as int, k as int),
            acc < pow10(k as int - id as int),
        decreases j - k,
    {
        proof {
            lemma_pow10_mono(k as int - id as int, 18);
            lemma_pow10_mono(0, 18);
            reveal_with_fuel(pow10, 20);
            assert(pow10(18) == 1000000000000000000);
        }
        let b = byte_at(s, k);
        let d: u64 = (b - 48) as u64;
        proof {
            assert(is_digit_char(s@[k as int]));
            assert(d == digit_val(s@[k as int]));
        }
        acc = acc * 10 + d;
        k = k + 1;
    }
    if neg {
        if acc > 9223372036854775808 {
            return None;
        }
        if acc == 9223372036854775808 {
            Some((i64::MIN, j))
        } else {
            Some((-(acc as i64), j))
        }
    } else {
        if acc > 9223372036854775807 {
            return None;
        }
        Some((acc as i64, j))
    }
}

/// Parse the persistence-path field at position `i`.
fn parse_path_field(s: &str, i: usize) -> (r: Option<(String, usize)>)
    requires
        s.is_ascii(),
        i <= s@.len(),
    ensures
        match r {
            Some((p, j)) => spec_parse_path_field(s@, i as int) == Some((p@, j as int)) && i < j
                <= s@.len(),
            None => spec_parse_path_field(s@, i as int) is None,
        },
{
    let n = ascii_len(s);
    if !match_key_path(s, i) {
        return None;
    }
    let ic = skip_ws_at(s, i + 27);
    if ic >= n || byte_at(s, ic) != 58 {
        return None;
    }
    let iv = skip_ws_at(s, ic + 1);
    if iv >= n || byte_at(s, iv) != 34 {
        return None;
    }
    let (content, j) = match scan_string_collect(s, iv + 1) {
        Some(p) => p,
        None => {
            return None;
        },
    };
    Some((content, j + 1))
}

/// Parse the lunch-break field at position `i`.
fn parse_mins_field(s: &str, i: usize) -> (r: Option<(i64, usize)>)
    requires
        s.is_ascii(),
        i <= s@.len(),
    ensures
        match r {
            Some((m, j)) => spec_parse_mins_field(s@, i as int) == Some((m as int, j as int)) && i
                < j <= s@.len(),
            None => spec_parse_mins_field(s@, i as int) is None,
        },
{
    let n = ascii_len(s);
    if !match_key_mins(s, i) {
        return None;
    }
    let ic = skip_ws_at(s, i + 21);
    if ic >= n || byte_at(s, ic) != 58 {
        return None;
    }
    let iv = skip_ws_at(s, ic + 1);
    parse_int_at(s, iv)
}

/// Check the closing brace and that nothing but whitespace follows it.
fn parse_tail_at(s: &str, j: usize) -> (r: bool)
    requires
        s.is_ascii(),
        j <= s@.len(),
    ensures
        r == spec_parse_tail(s@, j as int),
{
    let n = ascii_len(s);
    let i4 = skip_ws_at(s, j);
    if i4 >= n || byte_at(s, i4) != 125 {
        return false;
    }
    skip_ws_at(s, i4 + 1) == n
}

impl Config {
    /// Parse a configuration text. `None` when the text is not a JSON
    /// object of exactly the two known fields.
    pub fn parse_into_config(json_data: String) -> (r: Option<Config>)
        ensures
            match r {
                Some(c) => is_ascii_chars(json_data@) && spec_parse_config(json_data@) == Some(
                    (c.absolute_persistence_path@, c.lunch_break_in_mins as int),
                ),
                None => !is_ascii_chars(json_data@) || spec_parse_config(json_data@) is None,
            },
    {
        if !json_data.is_ascii() {
            return None;
        }
        let s: &str = json_data.as_str();
        let n = ascii_len(s);
        let i0 = skip_ws_at(s, 0);
        if i0 >= n || byte_at(s, i0) != 123 {
            return None;
        }
        let i1 = skip_ws_at(s, i0 + 1);
        if match_key_path(s, i1) {
            let (path, j1) = match parse_path_field(s, i1) {
                Some(p) => p,
                None => {
                    return None;
                },
            };
            let i2 = skip_ws_at(s, j1);
            if i2 >= n || byte_at(s, i2) != 44 {
                return None;
            }
            let (mins, j2) = match parse_mins_field(s, skip_ws_at(s, i2 + 1)) {
                Some(m) => m,
                None => {
                    return None;
                },
            };
            if !parse_tail_at(s, j2) {
                return None;
            }
            Some(Config { absolute_persistence_path: path, lunch_break_in_mins: mins })
        } else {
            let (mins, j1) = match parse_mins_field(s, i1) {
                Some(m) => m,
                None => {
                    return None;
                },
            };
            let i2 = skip_ws_at(s, j1);
            if i2 >= n || byte_at(s, i2) != 44 {
                return None;
            }
            let (path, j2) = match parse_path_field(s, skip_ws_at(s, i2 + 1)) {
                Some(p) => p,
                None => {
                    return None;
                },
            };
            if !parse_tail_at(s, j2) {
                return None;
            }
            Some(Config { absolute_persistence_path: path, lunch_break_in_mins: mins })
        }
    }

    /// Parse the contents of a configuration file.
    pub fn read_config(contents: &str) -> (r: Option<Config>)
        ensures
            match r {
                Some(c) => is_ascii_chars(contents@) && spec_parse_config(contents@) == Some(
                    (c.absolute_persistence_path@, c.lunch_break_in_mins as int),
                ),
                None => !is_ascii_chars(contents@) || spec_parse_config(contents@) is None,
            },
    {
        Config::parse_into_config(contents.to_owned())
    }
}

} // verus!
