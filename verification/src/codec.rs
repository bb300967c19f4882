use crate::domain::Interval;
use crate::text::{ascii_len, byte_at, skip_ws, skip_ws_at};
use crate::timestamp::{
    lemma_ts_text_parses, lemma_ts_text_props, parse_timestamp_at, spec_parse_ts, timestamp_text,
    ts_text, Timestamp,
};
use vstd::prelude::*;
use vstd::utf8::is_ascii_chars;

verus! {

// The persisted form of an interval store is a JSON array of records,
//
//     [{"start": "YYYY-MM-DD HH:MM:SS", "stop": null}, ...]
//
// in chronological append order: each record holds the two timestamps of
// one interval, a `null` stop marking an interval that is still open. The
// serializer writes the compact form below; the parser accepts any JSON
// whitespace between tokens and the two record fields in either order, so
// a pretty-printed or hand-edited store file loads as well as a saved one.

/// Whether the whole store is made of representable intervals.
pub open spec fn store_wf(s: Seq<Interval>) -> bool {
    forall|i: int| 0 <= i < s.len() ==> (#[trigger] s[i]).wf()
}

/// The opening of a compact record, up to the start timestamp: `{"start":"`.
pub open spec fn item_prefix() -> Seq<char> {
    seq!['{', '"', 's', 't', 'a', 'r', 't', '"', ':', '"']
}

/// The middle of a compact record, between the timestamps: `","stop":`.
pub open spec fn mid_text() -> Seq<char> {
    seq!['"', ',', '"', 's', 't', 'o', 'p', '"', ':']
}

/// The tail of a compact record whose interval is still open: `null}`.
pub open spec fn null_tail() -> Seq<char> {
    seq!['n', 'u', 'l', 'l', '}']
}

/// The tail of a compact record whose interval is closed: `"}`.
pub open spec fn close_tail() -> Seq<char> {
    seq!['"', '}']
}

/// The compact record text of one interval, as the serializer writes it.
pub open spec fn item_text(iv: Interval) -> Seq<char> {
    item_prefix() + ts_text(iv.start.secs as int) + mid_text() + (match iv.stop {
        Some(t) => seq!['"'] + ts_text(t.secs as int) + close_tail(),
        None => null_tail(),
    })
}

/// The length of one compact record text: 60 characters closed, 43 open.
pub open spec fn item_len(iv: Interval) -> int {
    if iv.stop is Some {
        60
    } else {
        43
    }
}

/// The compact record texts of a whole store, separated by commas.
pub open spec fn items_text(ivs: Seq<Interval>) -> Seq<char>
    decreases ivs.len(),
{
    if ivs.len() == 0 {
        Seq::empty()
    } else if ivs.len() == 1 {
        item_text(ivs[0])
    } else {
        item_text(ivs[0]) + seq![','] + items_text(ivs.drop_first())
    }
}

/// The full persisted text of a store, as the serializer writes it.
pub open spec fn store_text(ivs: Seq<Interval>) -> Seq<char> {
    seq!['['] + items_text(ivs) + seq![']']
}

/// Whether the text at position `i` of `s` is exactly `pat`.
pub open spec fn matches_at(s: Seq<char>, i: int, pat: Seq<char>) -> bool {
    &&& 0 <= i
    &&& i + pat.len() <= s.len()
    &&& s.subrange(i, i + pat.len() as int) == pat
}

/// The quoted key of a record's start field: `"start"`.
pub open spec fn key_start() -> Seq<char> {
    seq!['"', 's', 't', 'a', 'r', 't', '"']
}

/// The quoted key of a record's stop field: `"stop"`.
pub open spec fn key_stop() -> Seq<char> {
    seq!['"', 's', 't', 'o', 'p', '"']
}

/// The spelled-out null value.
pub open spec fn null_text() -> Seq<char> {
    seq!['n', 'u', 'l', 'l']
}

/// Parse a quoted timestamp at `i`: the moment and the position after the
/// closing quote.
pub open spec fn spec_parse_ts_quoted(s: Seq<char>, i: int) -> Option<(Timestamp, int)> {
    if 0 <= i && i < s.len() && s[i] == '"' {
        match spec_parse_ts(s, i + 1) {
            Some(t) => {
                if i + 20 < s.len() && s[i + 20] == '"' {
                    Some((t, i + 21))
                } else {
                    None
                }
            },
            None => None,
        }
    } else {
        None
    }
}

/// Parse a start field at `i`: its key, a colon and a quoted timestamp,
/// with any whitespace between the tokens.
pub open spec fn spec_parse_start_field(s: Seq<char>, i: int) -> Option<(Timestamp, int)> {
    if matches_at(s, i, key_start()) {
        let ic = skip_ws(s, i + 7);
        if ic < s.len() && s[ic] == ':' {
            spec_parse_ts_quoted(s, skip_ws(s, ic + 1))
        } else {
            None
        }
    } else {
        None
    }
}

/// Parse a stop value at `i`: `null` for an interval still open, else a
/// quoted timestamp.
pub open spec fn spec_parse_stop_value(s: Seq<char>, i: int) -> Option<(Option<Timestamp>, int)> {
    if matches_at(s, i, null_text()) {
        Some((None, i + 4))
    } else {
        match spec_parse_ts_quoted(s, i) {
            Some((t, j)) => Some((Some(t), j)),
            None => None,
        }
    }
}

/// Parse a stop field at `i`: its key, a colon and a stop value, with any
/// whitespace between the tokens.
pub open spec fn spec_parse_stop_field(s: Seq<char>, i: int) -> Option<(Option<Timestamp>, int)> {
    if matches_at(s, i, key_stop()) {
        let ic = skip_ws(s, i + 6);
        if ic < s.len() && s[ic] == ':' {
            spec_parse_stop_value(s, skip_ws(s, ic + 1))
        } else {
            None
        }
    } else {
        None
    }
}

/// Parse one record at `i`: a JSON object holding exactly a start and a
/// stop field, in either order, with any whitespace between tokens. The
/// result is the interval and the position after the closing brace.
pub open spec fn spec_parse_item(s: Seq<char>, i: int) -> Option<(Interval, int)> {
    if 0 <= i && i < s.len() && s[i] == '{' {
        let i1 = skip_ws(s, i + 1);
        if matches_at(s, i1, key_start()) {
            match spec_parse_start_field(s, i1) {
                Some((start, j1)) => {
                    let i2 = skip_ws(s, j1);
                    if i2 < s.len() && s[i2] == ',' {
                        match spec_parse_stop_field(s, skip_ws(s, i2 + 1)) {
                            Some((stop, j2)) => {
                                let i4 = skip_ws(s, j2);
                                if i4 < s.len() && s[i4] == '}' {
                                    Some((Interval { start, stop }, i4 + 1))
                                } else {
                                    None
                                }
                            },
                            None => None,
                        }
                    } else {
                        None
                    }
                },
                None => None,
            }
        } else {
            match spec_parse_stop_field(s, i1) {
                Some((stop, j1)) => {
                    let i2 = skip_ws(s, j1);
                    if i2 < s.len() && s[i2] == ',' {
                        match spec_parse_start_field(s, skip_ws(s, i2 + 1)) {
                            Some((start, j2)) => {
                                let i4 = skip_ws(s, j2);
                                if i4 < s.len() && s[i4] == '}' {
                                    Some((Interval { start, stop }, i4 + 1))
                                } else {
                                    None
                                }
                            },
                            None => None,
                        }
                    } else {
                        None
                    }
                },
                None => None,
            }
        }
    } else {
        None
    }
}

/// Parse records from `i`, separated by commas, up to the closing bracket,
/// after which only whitespace may stand.
pub open spec fn spec_parse_items(s: Seq<char>, i: int) -> Option<Seq<Interval>>
    decreases s.len() - i,
{
    match spec_parse_item(s, i) {
        Some((iv, j)) => {
            if i < j && j <= s.len() {
                let jw = skip_ws(s, j);
                if j <= jw && jw < s.len() && s[jw] == ',' {
                    let inext = skip_ws(s, jw + 1);
                    if jw < inext && inext <= s.len() {
                        match spec_parse_items(s, inext) {
                            Some(rest) => Some(seq![iv] + rest),
                            None => None,
                        }
                    } else {
                        None
                    }
                } else if jw < s.len() && s[jw] == ']' && skip_ws(s, jw + 1) == s.len() {
                    Some(seq![iv])
                } else {
                    None
                }
            } else {
                None
            }
        },
        None => None,
    }
}

/// Parse a whole store text: a JSON array of interval records, with any
/// whitespace between tokens; `None` if the text holds anything else.
pub open spec fn spec_parse_store(s: Seq<char>) -> Option<Seq<Interval>> {
    let i0 = skip_ws(s, 0);
    if i0 < s.len() && s[i0] == '[' {
        let i1 = skip_ws(s, i0 + 1);
        if i1 < s.len() && s[i1] == ']' {
            if skip_ws(s, i1 + 1) == s.len() {
                Some(Seq::empty())
            } else {
                None
            }
        } else {
            spec_parse_items(s, i1)
        }
    } else {
        None
    }
}

/// Whether `"start"` stands at position `i`.
fn match_key_start(s: &str, i: usize) -> (r: bool)
    requires
        s.is_ascii(),
        i <= s@.len(),
    ensures
        r == matches_at(s@, i as int, key_start()),
{
    let n = ascii_len(s);
    if n - i < 7 {
        return false;
    }
    let ok = byte_at(s, i) == 34 && byte_at(s, i + 1) == 115 && byte_at(s, i + 2) == 116 && byte_at(
        s,
        i + 3,
    ) == 97 && byte_at(s, i + 4) == 114 && byte_at(s, i + 5) == 116 && byte_at(s, i + 6) == 34;
    proof {
        if ok {
            assert(s@.subrange(i as int, i as int + 7) =~= key_start());
        } else {
            if matches_at(s@, i as int, key_start()) {
                assert(forall|k: int|
                    0 <= k < 7 ==> s@.subrange(i as int, i as int + 7)[k] == key_start()[k]);
                assert(false);
            }
        }
    }
    ok
}

/// Whether `"stop"` stands at position `i`.
fn match_key_stop(s: &str, i: usize) -> (r: bool)
    requires
        s.is_ascii(),
        i <= s@.len(),
    ensures
        r == matches_at(s@, i as int, key_stop()),
{
    let n = ascii_len(s);
    if n - i < 6 {
        return false;
    }
    let ok = byte_at(s, i) == 34 && byte_at(s, i + 1) == 115 && byte_at(s, i + 2) == 116 && byte_at(
        s,
        i + 3,
    ) == 111 && byte_at(s, i + 4) == 112 && byte_at(s, i + 5) == 34;
    proof {
        if ok {
            assert(s@.subrange(i as int, i as int + 6) =~= key_stop());
        } else {
            if matches_at(s@, i as int, key_stop()) {
                assert(forall|k: int|
                    0 <= k < 6 ==> s@.subrange(i as int, i as int + 6)[k] == key_stop()[k]);
                assert(false);
            }
        }
    }
    ok
}

/// Whether `null` stands at position `i`.
fn match_null(s: &str, i: usize) -> (r: bool)
    requires
        s.is_ascii(),
        i <= s@.len(),
    ensures
        r == matches_at(s@, i as int, null_text()),
{
    let n = ascii_len(s);
    if n - i < 4 {
        return false;
    }
    let ok = byte_at(s, i) == 110 && byte_at(s, i + 1) == 117 && byte_at(s, i + 2) == 108
        && byte_at(s, i + 3) == 108;
    proof {
        if ok {
            assert(s@.subrange(i as int, i as int + 4) =~= null_text());
        } else {
            if matches_at(s@, i as int, null_text()) {
                assert(forall|k: int|
                    0 <= k < 4 ==> s@.subrange(i as int, i as int + 4)[k] == null_text()[k]);
                assert(false);
            }
        }
    }
    ok
}

/// Parse a quoted timestamp at position `i`.
fn parse_ts_quoted(s: &str, i: usize) -> (r: Option<(Timestamp, usize)>)
    requires
        s.is_ascii(),
        i <= s@.len(),
    ensures
        match r {
            Some((t, j)) => {
                &&& spec_parse_ts_quoted(s@, i as int) == Some((t, j as int))
                &&& i < j <= s@.len()
                &&& t.wf()
            },
            None => spec_parse_ts_quoted(s@, i as int) is None,
        },
{
    let n = ascii_len(s);
    if i >= n || byte_at(s, i) != 34 {
        return None;
    }
    let t = match parse_timestamp_at(s, i + 1) {
        Some(t) => t,
        None => {
            return None;
        },
    };
    if i + 20 >= n {
        return None;
    }
    if byte_at(s, i + 20) != 34 {
        return None;
    }
    Some((t, i + 21))
}

/// Parse a start field at position `i`.
fn parse_start_field(s: &str, i: usize) -> (r: Option<(Timestamp, usize)>)
    requires
        s.is_ascii(),
        i <= s@.len(),
    ensures
        match r {
            Some((t, j)) => {
                &&& spec_parse_start_field(s@, i as int) == Some((t, j as int))
                &&& i < j <= s@.len()
                &&& t.wf()
            },
            None => spec_parse_start_field(s@, i as int) is None,
        },
{
    let n = ascii_len(s);
    if !match_key_start(s, i) {
        return None;
    }
    let ic = skip_ws_at(s, i + 7);
    if ic >= n || byte_at(s, ic) != 58 {
        return None;
    }
    parse_ts_quoted(s, skip_ws_at(s, ic + 1))
}

/// Parse a stop field at position `i`.
fn parse_stop_field(s: &str, i: usize) -> (r: Option<(Option<Timestamp>, usize)>)
    requires
        s.is_ascii(),
        i <= s@.len(),
    ensures
        match r {
            Some((st, j)) => {
                &&& spec_parse_stop_field(s@, i as int) == Some((st, j as int))
                &&& i < j <= s@.len()
                &&& (st matches Some(t) ==> t.wf())
            },
            None => spec_parse_stop_field(s@, i as int) is None,
        },
{
    let n = ascii_len(s);
    if !match_key_stop(s, i) {
        return None;
    }
    let ic = skip_ws_at(s, i + 6);
    if ic >= n || byte_at(s, ic) != 58 {
        return None;
    }
    let iv = skip_ws_at(s, ic + 1);
    if match_null(s, iv) {
        return Some((None, iv + 4));
    }
    match parse_ts_quoted(s, iv) {
        Some((t, j)) => Some((Some(t), j)),
        None => None,
    }
}

/// Parse one record at position `i` of an ASCII text.
fn parse_item_at(s: &str, i: usize) -> (r: Option<(Interval, usize)>)
    requires
        s.is_ascii(),
        i <= s@.len(),
    ensures
        match r {
            Some((iv, j)) => {
                &&& spec_parse_item(s@, i as int) == Some((iv, j as int))
                &&& i < j <= s@.len()
                &&& iv.wf()
            },
            None => spec_parse_item(s@, i as int) is None,
        },
{
    let n = ascii_len(s);
    if i >= n || byte_at(s, i) != 123 {
        return None;
    }
    let i1 = skip_ws_at(s, i + 1);
    if match_key_start(s, i1) {
        let (start, j1) = match parse_start_field(s, i1) {
            Some(p) => p,
            None => {
                return None;
            },
        };
        let i2 = skip_ws_at(s, j1);
        if i2 >= n || byte_at(s, i2) != 44 {
            return None;
        }
        let (stop, j2) = match parse_stop_field(s, skip_ws_at(s, i2 + 1)) {
            Some(p) => p,
            None => {
                return None;
            },
        };
        let i4 = skip_ws_at(s, j2);
        if i4 >= n || byte_at(s, i4) != 125 {
            return None;
        }
        Some((Interval { start, stop }, i4 + 1))
    } else {
        let (stop, j1) = match parse_stop_field(s, i1) {
            Some(p) => p,
            None => {
                return None;
            },
        };
        let i2 = skip_ws_at(s, j1);
        if i2 >= n || byte_at(s, i2) != 44 {
            return None;
        }
        let (start, j2) = match parse_start_field(s, skip_ws_at(s, i2 + 1)) {
            Some(p) => p,
            None => {
                return None;
            },
        };
        let i4 = skip_ws_at(s, j2);
        if i4 >= n || byte_at(s, i4) != 125 {
            return None;
        }
        Some((Interval { start, stop }, i4 + 1))
    }
}

/// Append the compact record text of one interval to `out`.
fn push_interval_json(out: &mut String, iv: &Interval)
    requires
        iv.wf(),
    ensures
        final(out)@ == old(out)@ + item_text(*iv),
{
    out.append("{\"start\":\"");
    let start_text = timestamp_text(&iv.start);
    out.append(start_text.as_str());
    out.append("\",\"stop\":");
    match iv.stop {
        None => {
            out.append("null}");
        },
        Some(t) => {
            out.append("\"");
            let stop_text = timestamp_text(&t);
            out.append(stop_text.as_str());
            out.append("\"}");
        },
    }
    proof {
        reveal_strlit("{\"start\":\"");
        reveal_strlit("\",\"stop\":");
        reveal_strlit("null}");
        reveal_strlit("\"");
        reveal_strlit("\"}");
        assert(final(out)@ =~= old(out)@ + item_text(*iv));
    }
}

/// Text of `ivs` taken one interval longer: the next record is appended,
/// after a comma unless it is the first.
pub proof fn lemma_items_text_snoc(ivs: Seq<Interval>, iv: Interval)
    ensures
        items_text(ivs.push(iv)) == if ivs.len() == 0 {
            item_text(iv)
        } else {
            items_text(ivs) + seq![','] + item_text(iv)
        },
    decreases ivs.len(),
{
    if ivs.len() == 0 {
        assert(ivs.push(iv) =~= seq![iv]);
        assert(items_text(ivs.push(iv)) == item_text(ivs.push(iv)[0]));
    } else {
        lemma_items_text_snoc(ivs.drop_first(), iv);
        assert(ivs.push(iv).drop_first() =~= ivs.drop_first().push(iv));
        if ivs.len() == 1 {
            assert(items_text(ivs.push(iv)) =~= items_text(ivs) + seq![','] + item_text(iv));
        } else {
            assert(items_text(ivs.push(iv)) =~= items_text(ivs) + seq![','] + item_text(iv));
        }
    }
}

/// Serialize a store to its persisted JSON text.
pub fn serialize_intervals(intervals: &Vec<Interval>) -> (s: String)
    requires
        store_wf(intervals@),
    ensures
        s@ == store_text(intervals@),
{
    let mut out = String::new();
    out.append("[");
    proof {
        reveal_strlit("[");
        assert(out@ =~= seq!['['] + items_text(intervals@.take(0)));
    }
    let mut k: usize = 0;
    while k < intervals.len()
        invariant
            store_wf(intervals@),
            k <= intervals@.len(),
            out@ == seq!['['] + items_text(intervals@.take(k as int)),
        decreases intervals@.len() - k,
    {
        if k > 0 {
            out.append(",");
        }
        push_interval_json(&mut out, &intervals[k]);
        proof {
            reveal_strlit(",");
            lemma_items_text_snoc(intervals@.take(k as int), intervals@[k as int]);
            assert(intervals@.take(k as int + 1) =~= intervals@.take(k as int).push(
                intervals@[k as int],
            ));
            assert(out@ =~= seq!['['] + items_text(intervals@.take(k as int + 1)));
        }
        k = k + 1;
    }
    out.append("]");
    proof {
        reveal_strlit("]");
        assert(intervals@.take(intervals@.len() as int) =~= intervals@);
        assert(out@ =~= store_text(intervals@));
    }
    out
}

impl Interval {
    /// Parse a persisted store text back into its intervals: `None` unless
    /// the text is a JSON array of interval records.
    pub fn parse_intervals(json_data: String) -> (r: Option<Vec<Interval>>)
        ensures
            match r {
                Some(v) => {
                    &&& spec_parse_store(json_data@) == Some(v@)
                    &&& store_wf(v@)
                },
                None => !is_ascii_chars(json_data@) || spec_parse_store(json_data@) is None,
            },
    {
        if !json_data.is_ascii() {
            return None;
        }
        let s: &str = json_data.as_str();
        let n = ascii_len(s);
        let i0 = skip_ws_at(s, 0);
        if i0 >= n || byte_at(s, i0) != 91 {
            return None;
        }
        let i1 = skip_ws_at(s, i0 + 1);
        if i1 >= n {
            proof {
                assert(spec_parse_item(s@, i1 as int) is None);
                assert(spec_parse_items(s@, i1 as int) is None);
            }
            return None;
        }
        if byte_at(s, i1) == 93 {
            if skip_ws_at(s, i1 + 1) == n {
                return Some(Vec::new());
            } else {
                return None;
            }
        }
        let mut res: Vec<Interval> = Vec::new();
        let mut i: usize = i1;
        proof {
            if spec_parse_items(s@, i1 as int) is Some {
                assert(res@ + spec_parse_items(s@, i1 as int)->0 =~= spec_parse_items(
                    s@,
                    i1 as int,
                )->0);
            }
        }
        loop
            invariant
                s.is_ascii(),
                s@ == json_data@,
                n == s@.len(),
                i <= n,
                store_wf(res@),
                spec_parse_items(s@, i as int) matches Some(rest) ==> spec_parse_store(json_data@)
                    == Some(res@ + rest),
                spec_parse_items(s@, i as int) is None ==> spec_parse_store(json_data@) is None,
            decreases n - i,
        {
            let (iv, j) = match parse_item_at(s, i) {
                Some(p) => p,
                None => {
                    return None;
                },
            };
            let ghost old_res = res@;
            res.push(iv);
            let jw = skip_ws_at(s, j);
            if jw >= n {
                return None;
            }
            let b = byte_at(s, jw);
            if b == 44 {
                let inext = skip_ws_at(s, jw + 1);
                proof {
                    if spec_parse_items(s@, inext as int) is Some {
                        let rest2 = spec_parse_items(s@, inext as int)->0;
                        assert(old_res + (seq![iv] + rest2) =~= res@ + rest2);
                    }
                }
                i = inext;
            } else if b == 93 {
                if skip_ws_at(s, jw + 1) == n {
                    proof {
                        assert(old_res + seq![iv] =~= res@);
                    }
                    return Some(res);
                } else {
                    return None;
                }
            } else {
                return None;
            }
        }
    }
}

/// The compact record text of a representable interval is 43 or 60 ASCII
/// characters.
pub proof fn lemma_item_text_props(iv: Interval)
    requires
        iv.wf(),
    ensures
        item_text(iv).len() == item_len(iv),
        is_ascii_chars(item_text(iv)),
{
    lemma_ts_text_props(iv.start.secs as int);
    if iv.stop is Some {
        lemma_ts_text_props(iv.stop->0.secs as int);
    }
    assert forall|k: int| 0 <= k < item_text(iv).len() implies '\0' <= #[trigger] item_text(iv)[k]
        <= '\u{7f}' by {
        let t = item_text(iv);
        let a = item_prefix().len() as int;
        let b = a + 19;
        let c = b + mid_text().len() as int;
        if k < a {
            assert(t[k] == item_prefix()[k]);
        } else if k < b {
            assert(t[k] == ts_text(iv.start.secs as int)[k - a]);
        } else if k < c {
            assert(t[k] == mid_text()[k - b]);
        } else {
            if iv.stop is Some {
                if k == c {
                } else if k < c + 20 {
                    assert(t[k] == ts_text(iv.stop->0.secs as int)[k - c - 1]);
                }
            }
        }
    }
}

/// The characters of a subrange, read back in the surrounding text.
proof fn lemma_char_at(s: Seq<char>, i: int, ln: int, t: Seq<char>, k: int)
    requires
        0 <= i,
        0 <= k < ln,
        i + ln <= s.len(),
        s.subrange(i, i + ln) == t,
    ensures
        s[i + k] == t[k],
{
    assert(s.subrange(i, i + ln)[k] == s[i + k]);
}

/// The compact record text of a representable interval, standing anywhere
/// inside a larger text, parses back to the same interval.
#[verifier::rlimit(80)]
pub proof fn lemma_item_text_parses(s: Seq<char>, i: int, iv: Interval)
    requires
        iv.wf(),
        0 <= i,
        i + item_len(iv) <= s.len(),
        s.subrange(i, i + item_len(iv)) == item_text(iv),
    ensures
        spec_parse_item(s, i) == Some((iv, i + item_len(iv))),
{
    lemma_item_text_props(iv);
    lemma_ts_text_props(iv.start.secs as int);
    let ln = item_len(iv);
    let t = item_text(iv);
    lemma_char_at(s, i, ln, t, 0);
    assert(s[i] == '{');
    lemma_char_at(s, i, ln, t, 1);
    assert(s[i + 1] == '"');
    assert(skip_ws(s, i + 1) == i + 1);
    assert(s.subrange(i + 1, i + 8) =~= key_start()) by {
        assert forall|k: int| 0 <= k < 7 implies s.subrange(i + 1, i + 8)[k] == key_start()[k] by {
            lemma_char_at(s, i, ln, t, 1 + k);
            assert(t[1 + k] == item_prefix()[1 + k]);
            assert(s.subrange(i + 1, i + 8)[k] == s[i + 1 + k]);
        }
    }
    lemma_char_at(s, i, ln, t, 8);
    assert(s[i + 8] == ':');
    assert(skip_ws(s, i + 8) == i + 8);
    lemma_char_at(s, i, ln, t, 9);
    assert(s[i + 9] == '"');
    assert(skip_ws(s, i + 9) == i + 9);
    assert(s.subrange(i + 10, i + 29) =~= ts_text(iv.start.secs as int)) by {
        assert forall|k: int| 0 <= k < 19 implies s.subrange(i + 10, i + 29)[k] == ts_text(
            iv.start.secs as int,
        )[k] by {
            lemma_char_at(s, i, ln, t, 10 + k);
            assert(s.subrange(i + 10, i + 29)[k] == s[i + 10 + k]);
        }
    }
    lemma_ts_text_parses(s, i + 10, iv.start);
    lemma_char_at(s, i, ln, t, 29);
    assert(s[i + 29] == '"');
    assert(spec_parse_ts_quoted(s, i + 9) == Some((iv.start, i + 30)));
    assert(spec_parse_start_field(s, i + 1) == Some((iv.start, i + 30)));
    lemma_char_at(s, i, ln, t, 30);
    assert(s[i + 30] == ',');
    assert(skip_ws(s, i + 30) == i + 30);
    lemma_char_at(s, i, ln, t, 31);
    assert(s[i + 31] == '"');
    assert(skip_ws(s, i + 31) == i + 31);
    assert(s.subrange(i + 31, i + 37) =~= key_stop()) by {
        assert forall|k: int| 0 <= k < 6 implies s.subrange(i + 31, i + 37)[k] == key_stop()[k] by {
            lemma_char_at(s, i, ln, t, 31 + k);
            assert(t[31 + k] == mid_text()[2 + k]);
            assert(s.subrange(i + 31, i + 37)[k] == s[i + 31 + k]);
        }
    }
    lemma_char_at(s, i, ln, t, 37);
    assert(s[i + 37] == ':');
    assert(skip_ws(s, i + 37) == i + 37);
    match iv.stop {
        None => {
            lemma_char_at(s, i, ln, t, 38);
            assert(s[i + 38] == 'n');
            assert(skip_ws(s, i + 38) == i + 38);
            assert(s.subrange(i + 38, i + 42) =~= null_text()) by {
                assert forall|k: int| 0 <= k < 4 implies s.subrange(i + 38, i + 42)[k]
                    == null_text()[k] by {
                    lemma_char_at(s, i, ln, t, 38 + k);
                    assert(t[38 + k] == null_tail()[k]);
                    assert(s.subrange(i + 38, i + 42)[k] == s[i + 38 + k]);
                }
            }
            assert(spec_parse_stop_value(s, i + 38) == Some((Option::<Timestamp>::None, i + 42)));
            assert(spec_parse_stop_field(s, i + 31) == Some((Option::<Timestamp>::None, i + 42)));
            lemma_char_at(s, i, ln, t, 42);
            assert(s[i + 42] == '}');
            assert(skip_ws(s, i + 42) == i + 42);
        },
        Some(stop) => {
            lemma_ts_text_props(stop.secs as int);
            lemma_char_at(s, i, ln, t, 38);
            assert(s[i + 38] == '"');
            assert(skip_ws(s, i + 38) == i + 38);
            if matches_at(s, i + 38, null_text()) {
                assert(s.subrange(i + 38, i + 42)[0] == null_text()[0]);
                assert(false);
            }
            assert(s.subrange(i + 39, i + 58) =~= ts_text(stop.secs as int)) by {
                assert forall|k: int| 0 <= k < 19 implies s.subrange(i + 39, i + 58)[k] == ts_text(
                    stop.secs as int,
                )[k] by {
                    lemma_char_at(s, i, ln, t, 39 + k);
                    assert(s.subrange(i + 39, i + 58)[k] == s[i + 39 + k]);
                }
            }
            lemma_ts_text_parses(s, i + 39, stop);
            lemma_char_at(s, i, ln, t, 58);
            assert(s[i + 58] == '"');
            assert(spec_parse_ts_quoted(s, i + 38) == Some((stop, i + 59)));
            assert(spec_parse_stop_value(s, i + 38) == Some((Some(stop), i + 59)));
            assert(spec_parse_stop_field(s, i + 31) == Some((Some(stop), i + 59)));
            lemma_char_at(s, i, ln, t, 59);
            assert(s[i + 59] == '}');
            assert(skip_ws(s, i + 59) == i + 59);
        },
    }
}

/// The record texts of a non-empty store, followed by the closing bracket
/// at the very end of the text, parse back to the same intervals.
#[verifier::rlimit(80)]
proof fn lemma_items_text_parses(s: Seq<char>, i: int, ivs: Seq<Interval>)
    requires
        ivs.len() >= 1,
        store_wf(ivs),
        0 <= i,
        s.len() == i + items_text(ivs).len() + 1,
        s.subrange(i, s.len() - 1) == items_text(ivs),
        s[s.len() - 1] == ']',
    ensures
        spec_parse_items(s, i) == Some(ivs),
    decreases ivs.len(),
{
    let iv0 = ivs[0];
    assert(iv0.wf());
    lemma_item_text_props(iv0);
    let l0 = item_len(iv0);
    let its = items_text(ivs);
    assert(s.subrange(i, i + its.len() as int) == its);
    if ivs.len() == 1 {
        assert(s.subrange(i, i + l0) =~= item_text(iv0)) by {
            assert forall|k: int| 0 <= k < l0 implies s.subrange(i, i + l0)[k] == item_text(
                iv0,
            )[k] by {
                lemma_char_at(s, i, its.len() as int, its, k);
                assert(s.subrange(i, i + l0)[k] == s[i + k]);
            }
        }
        lemma_item_text_parses(s, i, iv0);
        let j = i + l0;
        assert(s[j] == ']');
        assert(skip_ws(s, j) == j);
        assert(skip_ws(s, j + 1) == s.len());
        assert(seq![iv0] =~= ivs);
    } else {
        let rest = ivs.drop_first();
        assert(store_wf(rest)) by {
            assert(forall|q: int| 0 <= q < rest.len() ==> rest[q] == ivs[q + 1]);
        }
        assert(its == item_text(iv0) + seq![','] + items_text(rest));
        assert(s.subrange(i, i + l0) =~= item_text(iv0)) by {
            assert forall|k: int| 0 <= k < l0 implies s.subrange(i, i + l0)[k] == item_text(
                iv0,
            )[k] by {
                lemma_char_at(s, i, its.len() as int, its, k);
                assert(s.subrange(i, i + l0)[k] == s[i + k]);
            }
        }
        lemma_item_text_parses(s, i, iv0);
        let j = i + l0;
        assert(s[j] == ',') by {
            lemma_char_at(s, i, its.len() as int, its, l0);
            assert(its[l0] == ',');
        }
        assert(skip_ws(s, j) == j);
        assert(s[j + 1] == '{') by {
            lemma_char_at(s, i, its.len() as int, its, l0 + 1);
            assert(item_text(rest[0])[0] == item_prefix()[0]);
            assert(its[l0 + 1] == items_text(rest)[0]);
        }
        assert(skip_ws(s, j + 1) == j + 1);
        assert(s.subrange(j + 1, s.len() - 1) =~= items_text(rest)) by {
            assert forall|k: int| 0 <= k < items_text(rest).len() implies s.subrange(
                j + 1,
                s.len() - 1,
            )[k] == items_text(rest)[k] by {
                lemma_char_at(s, i, its.len() as int, its, l0 + 1 + k);
                assert(its[l0 + 1 + k] == items_text(rest)[k]);
                assert(s.subrange(j + 1, s.len() - 1)[k] == s[j + 1 + k]);
            }
        }
        lemma_items_text_parses(s, j + 1, rest);
        assert(seq![iv0] + rest =~= ivs);
    }
}

/// The persisted text of a store is ASCII.
proof fn lemma_store_text_ascii(ivs: Seq<Interval>)
    requires
        store_wf(ivs),
    ensures
        is_ascii_chars(store_text(ivs)),
    decreases ivs.len(),
{
    lemma_items_text_ascii(ivs);
    assert forall|k: int| 0 <= k < store_text(ivs).len() implies '\0' <= #[trigger] store_text(
        ivs,
    )[k] <= '\u{7f}' by {
        let t = store_text(ivs);
        if 0 < k < t.len() - 1 {
            assert(t[k] == items_text(ivs)[k - 1]);
        }
    }
}

/// The record texts of a store are ASCII.
proof fn lemma_items_text_ascii(ivs: Seq<Interval>)
    requires
        store_wf(ivs),
    ensures
        is_ascii_chars(items_text(ivs)),
    decreases ivs.len(),
{
    if ivs.len() == 0 {
    } else if ivs.len() == 1 {
        lemma_item_text_props(ivs[0]);
    } else {
        let rest = ivs.drop_first();
        assert(store_wf(rest)) by {
            assert(forall|q: int| 0 <= q < rest.len() ==> rest[q] == ivs[q + 1]);
        }
        lemma_item_text_props(ivs[0]);
        lemma_items_text_ascii(rest);
        let its = items_text(ivs);
        let l0 = item_len(ivs[0]);
        assert forall|k: int| 0 <= k < its.len() implies '\0' <= #[trigger] its[k] <= '\u{7f}' by {
            if k < l0 {
                assert(its[k] == item_text(ivs[0])[k]);
            } else if k > l0 {
                assert(its[k] == items_text(rest)[k - l0 - 1]);
            }
        }
    }
}

/// Round trip: the persisted text of any representable store parses back to
/// a structurally identical store — timestamps to the second, an absent
/// `stop` staying absent. The text is ASCII, so the executable parser
/// accepts it too.
#[verifier::rlimit(80)]
pub proof fn lemma_store_round_trip(ivs: Seq<Interval>)
    requires
        store_wf(ivs),
    ensures
        spec_parse_store(store_text(ivs)) == Some(ivs),
        is_ascii_chars(store_text(ivs)),
{
    lemma_store_text_ascii(ivs);
    let s = store_text(ivs);
    assert(s[0] == '[');
    assert(skip_ws(s, 0) == 0);
    if ivs.len() == 0 {
        assert(s =~= seq!['[', ']']);
        assert(s[1] == ']');
        assert(skip_ws(s, 1) == 1);
        assert(skip_ws(s, 2) == 2);
        assert(spec_parse_store(s) == Some(Seq::<Interval>::empty()));
        assert(Seq::<Interval>::empty() =~= ivs);
    } else {
        lemma_item_text_props(ivs[0]);
        assert(items_text(ivs).len() >= 43) by {
            if ivs.len() == 1 {
            } else {
                assert(items_text(ivs) == item_text(ivs[0]) + seq![','] + items_text(
                    ivs.drop_first(),
                ));
            }
        }
        assert(s[s.len() - 1] == ']');
        assert(s[1] == '{') by {
            assert(items_text(ivs)[0] == item_text(ivs[0])[0]);
            assert(item_text(ivs[0])[0] == item_prefix()[0]);
        }
        assert(skip_ws(s, 1) == 1);
        assert(s.subrange(1, s.len() - 1) =~= items_text(ivs));
        lemma_items_text_parses(s, 1, ivs);
    }
}

} // verus!
