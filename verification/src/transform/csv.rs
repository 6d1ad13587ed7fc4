use vstd::prelude::*;
use vstd::utf8::{decode_utf8, encode_utf8, valid_utf8};
use crate::cbrt::report::{le64_bytes, le64_vec};
use crate::error::TransformError;
use crate::message::{Message, Value, ValueType};
use crate::text::{ascii_chars, ascii_string, decimal, lemma_decimal_ascii, push_decimal, str_chars, string_from_utf8, utf8_of};

verus! {

/// Unicode White_Space characters (what `char::is_whitespace` accepts).
pub open spec fn spec_is_whitespace(c: char) -> bool {
    let u = c as u32;
    (0x09 <= u && u <= 0x0D) || u == 0x20 || u == 0x85 || u == 0xA0 || u == 0x1680 || (0x2000 <= u && u <= 0x200A)
        || u == 0x2028 || u == 0x2029 || u == 0x202F || u == 0x205F || u == 0x3000
}

fn is_whitespace(c: char) -> (r: bool)
    ensures
        r == spec_is_whitespace(c),
{
    ('\u{09}' <= c && c <= '\u{0D}') || c == ' ' || c == '\u{85}' || c == '\u{A0}' || c == '\u{1680}'
        || ('\u{2000}' <= c && c <= '\u{200A}') || c == '\u{2028}' || c == '\u{2029}' || c == '\u{202F}'
        || c == '\u{205F}' || c == '\u{3000}'
}

/// Characters without leading whitespace.
pub open spec fn trim_start(cs: Seq<char>) -> Seq<char>
    decreases cs.len(),
{
    if cs.len() > 0 && spec_is_whitespace(cs[0]) { trim_start(cs.skip(1)) } else { cs }
}

/// Characters without trailing whitespace.
pub open spec fn trim_end(cs: Seq<char>) -> Seq<char>
    decreases cs.len(),
{
    if cs.len() > 0 && spec_is_whitespace(cs.last()) { trim_end(cs.drop_last()) } else { cs }
}

/// Characters without whitespace at either end.
pub open spec fn trimmed(cs: Seq<char>) -> Seq<char> {
    trim_start(trim_end(cs))
}

/// Removes whitespace from both ends.
pub fn trim_chars(cs: &[char]) -> (r: Vec<char>)
    ensures
        r@ == trimmed(cs@),
{
    let mut end = cs.len();
    assert(cs@.take(end as int) =~= cs@);
    while end > 0 && is_whitespace(cs[end - 1])
        invariant
            end <= cs@.len(),
            trim_end(cs@.take(end as int)) == trim_end(cs@),
        decreases end,
    {
        assert(cs@.take(end as int).drop_last() =~= cs@.take(end - 1));
        end = end - 1;
    }
    let ghost te = cs@.take(end as int);
    assert(te == trim_end(cs@));
    let mut start: usize = 0;
    assert(te.skip(0) =~= te);
    while start < end && is_whitespace(cs[start])
        invariant
            start <= end <= cs@.len(),
            te == cs@.take(end as int),
            trim_start(te.skip(start as int)) == trim_start(te),
        decreases end - start,
    {
        assert(te.skip(start as int)[0] == cs@[start as int]);
        assert(te.skip(start as int).skip(1) =~= te.skip(start + 1));
        start = start + 1;
    }
    let mut out: Vec<char> = Vec::new();
    let mut i = start;
    while i < end
        invariant
            start <= i <= end <= cs@.len(),
            out@ == cs@.subrange(start as int, i as int),
        decreases end - i,
    {
        out.push(cs[i]);
        i = i + 1;
        assert(out@ =~= cs@.subrange(start as int, i as int));
    }
    assert(out@ =~= te.skip(start as int));
    out
}

/// The field separators: space, tab and comma.
pub open spec fn is_separator(c: char) -> bool {
    c == ' ' || c == '\t' || c == ','
}

/// The fields between separators, empty ones included.
pub open spec fn split_fields(cs: Seq<char>) -> Seq<Seq<char>>
    decreases cs.len(),
{
    if cs.len() == 0 {
        seq![seq![]]
    } else {
        let rest = split_fields(cs.drop_last());
        if is_separator(cs.last()) {
            rest.push(seq![])
        } else {
            rest.update(rest.len() - 1, rest.last().push(cs.last()))
        }
    }
}

proof fn lemma_split_nonempty(cs: Seq<char>)
    ensures
        split_fields(cs).len() >= 1,
    decreases cs.len(),
{
    if cs.len() > 0 {
        lemma_split_nonempty(cs.drop_last());
    }
}

/// The views of character vectors.
pub open spec fn views(s: Seq<Vec<char>>) -> Seq<Seq<char>> {
    s.map_values(|t: Vec<char>| t@)
}

/// Each field trimmed.
pub open spec fn trims(s: Seq<Seq<char>>) -> Seq<Seq<char>> {
    s.map_values(|x: Seq<char>| trimmed(x))
}

/// The non-empty fields.
pub open spec fn nonempty(s: Seq<Seq<char>>) -> Seq<Seq<char>> {
    s.filter(|x: Seq<char>| x.len() > 0)
}

/// The tokens of a line: the non-empty fields, each trimmed.
pub open spec fn csv_tokens(cs: Seq<char>) -> Seq<Seq<char>> {
    trims(nonempty(split_fields(cs)))
}

proof fn lemma_views_push(s: Seq<Vec<char>>, x: Vec<char>)
    ensures
        views(s.push(x)) == views(s).push(x@),
{
    assert(views(s.push(x)) =~= views(s).push(x@));
}

proof fn lemma_trims_push(s: Seq<Seq<char>>, x: Seq<char>)
    ensures
        trims(s.push(x)) == trims(s).push(trimmed(x)),
{
    assert(trims(s.push(x)) =~= trims(s).push(trimmed(x)));
}

proof fn lemma_nonempty_push(s: Seq<Seq<char>>, x: Seq<char>)
    ensures
        nonempty(s.push(x)) == if x.len() > 0 { nonempty(s).push(x) } else { nonempty(s) },
{
    reveal(Seq::filter);
    assert(s.push(x).drop_last() =~= s);
}

/// Splits a line into tokens.
pub fn tokens_of(line: &[char]) -> (r: Vec<Vec<char>>)
    ensures
        views(r@) == csv_tokens(line@),
{
    let n = line.len();
    let mut out: Vec<Vec<char>> = Vec::new();
    let mut cur: Vec<char> = Vec::new();
    let mut i: usize = 0;
    proof {
        reveal(Seq::filter);
        assert(line@.take(0) =~= Seq::<char>::empty());
        assert(split_fields(Seq::<char>::empty()).drop_last() =~= Seq::<Seq<char>>::empty());
        assert(views(out@) =~= Seq::<Seq<char>>::empty());
        assert(trims(nonempty(Seq::<Seq<char>>::empty())) =~= Seq::<Seq<char>>::empty());
    }
    while i < n
        invariant
            i <= n,
            n == line@.len(),
            split_fields(line@.take(i as int)).len() >= 1,
            cur@ == split_fields(line@.take(i as int)).last(),
            views(out@) == trims(nonempty(split_fields(line@.take(i as int)).drop_last())),
        decreases n - i,
    {
        let c = line[i];
        let ghost pre = line@.take(i as int);
        let ghost post = line@.take(i + 1);
        proof {
            assert(post.drop_last() =~= pre);
            assert(post.last() == c);
            lemma_split_nonempty(pre);
            lemma_split_nonempty(post);
        }
        if c == ' ' || c == '\t' || c == ',' {
            let ghost fields = split_fields(pre);
            let ghost before = out@;
            proof {
                assert(fields.drop_last().push(fields.last()) =~= fields);
                lemma_nonempty_push(fields.drop_last(), fields.last());
            }
            if cur.len() > 0 {
                let t = trim_chars(cur.as_slice());
                out.push(t);
                proof {
                    lemma_views_push(before, t);
                    lemma_trims_push(nonempty(fields.drop_last()), fields.last());
                }
            }
            proof {
                let nf = split_fields(post);
                assert(nf == fields.push(seq![]));
                assert(nf.drop_last() =~= fields);
            }
            cur = Vec::new();
            assert(cur@ =~= split_fields(post).last());
        } else {
            cur.push(c);
            proof {
                let fields = split_fields(pre);
                let nf = split_fields(post);
                assert(nf == fields.update(fields.len() - 1, fields.last().push(c)));
                assert(nf.drop_last() =~= fields.drop_last());
                assert(cur@ =~= nf.last());
            }
        }
        i = i + 1;
    }
    proof {
        assert(line@.take(n as int) =~= line@);
    }
    let ghost fields = split_fields(line@);
    let ghost before = out@;
    proof {
        lemma_split_nonempty(line@);
        assert(fields.drop_last().push(fields.last()) =~= fields);
        lemma_nonempty_push(fields.drop_last(), fields.last());
    }
    if cur.len() > 0 {
        let t = trim_chars(cur.as_slice());
        out.push(t);
        proof {
            lemma_views_push(before, t);
            lemma_trims_push(nonempty(fields.drop_last()), fields.last());
        }
    }
    out
}

/// The prefix of a CSV value id.
pub open spec fn csv_id_prefix() -> Seq<u8> {
    seq![0x63u8, 0x73u8, 0x76u8, 0x5Fu8]
}

pub fn csv_id_prefix_bytes() -> (v: Vec<u8>)
    ensures
        v@ == csv_id_prefix(),
{
    let v = vec![0x63u8, 0x73u8, 0x76u8, 0x5Fu8];
    assert(v@ =~= csv_id_prefix());
    v
}

/// Whether every character is an ASCII digit.
pub open spec fn all_digits(ds: Seq<char>) -> bool {
    forall|i: int| 0 <= i < ds.len() ==> '0' <= #[trigger] ds[i] && ds[i] <= '9'
}

/// The number ASCII digits denote.
pub open spec fn digits_value(ds: Seq<char>) -> int
    decreases ds.len(),
{
    if ds.len() == 0 { 0 } else { digits_value(ds.drop_last()) * 10 + (ds.last() as int - 48) }
}

/// What `i64::from_str` gives: an optional sign, then one or more ASCII digits, in range.
pub open spec fn spec_parse_i64(cs: Seq<char>) -> Option<i64> {
    if cs.len() == 0 {
        None
    } else {
        let body = if cs[0] == '-' || cs[0] == '+' { cs.skip(1) } else { cs };
        let v = if cs[0] == '-' { -digits_value(body) } else { digits_value(body) };
        if body.len() == 0 || !all_digits(body) || v < i64::MIN || v > i64::MAX { None } else { Some(v as i64) }
    }
}

proof fn lemma_digits_mono(ds: Seq<char>, k: int)
    requires
        0 <= k <= ds.len(),
        all_digits(ds),
    ensures
        0 <= digits_value(ds.take(k)) <= digits_value(ds),
    decreases ds.len() - k,
{
    if k < ds.len() {
        lemma_digits_mono(ds, k + 1);
        assert(ds.take(k + 1).drop_last() =~= ds.take(k));
        assert(ds.take(k + 1).last() == ds[k]);
        assert('0' <= ds[k] && ds[k] <= '9');
    } else {
        assert(ds.take(k) =~= ds);
        lemma_digits_nonneg(ds);
    }
}

proof fn lemma_digits_nonneg(ds: Seq<char>)
    requires
        all_digits(ds),
    ensures
        digits_value(ds) >= 0,
    decreases ds.len(),
{
    if ds.len() > 0 {
        assert(all_digits(ds.drop_last())) by {
            assert forall|i: int| 0 <= i < ds.drop_last().len() implies '0' <= #[trigger] ds.drop_last()[i] && ds.drop_last()[i] <= '9' by {
                assert(ds.drop_last()[i] == ds[i]);
            }
        }
        lemma_digits_nonneg(ds.drop_last());
        assert('0' <= ds[ds.len() - 1]);
    }
}

/// Parses a decimal `i64` the way `i64::from_str` does.
pub fn parse_i64(cs: &[char]) -> (r: Option<i64>)
    ensures
        r == spec_parse_i64(cs@),
{
    let n = cs.len();
    if n == 0 {
        return None;
    }
    let neg = cs[0] == '-';
    let start: usize = if cs[0] == '-' || cs[0] == '+' { 1 } else { 0 };
    let ghost body = if cs@[0] == '-' || cs@[0] == '+' { cs@.skip(1) } else { cs@ };
    assert(body =~= cs@.skip(start as int));
    if start == n {
        return None;
    }
    let limit: u64 = 0x8000_0000_0000_0000;
    let mut mag: u64 = 0;
    let mut i = start;
    assert(body.take(0) =~= Seq::<char>::empty());
    while i < n
        invariant
            start <= i <= n,
            n == cs@.len(),
            n > 0,
            start == (if cs@[0] == '-' || cs@[0] == '+' { 1usize } else { 0usize }),
            neg == (cs@[0] == '-'),
            body == (if cs@[0] == '-' || cs@[0] == '+' { cs@.skip(1) } else { cs@ }),
            body == cs@.skip(start as int),
            limit == 0x8000_0000_0000_0000u64,
            mag <= limit,
            mag == digits_value(body.take(i - start)),
            all_digits(body.take(i - start)),
        decreases n - i,
    {
        let c = cs[i];
        if c < '0' || c > '9' {
            proof {
                assert(body[i - start] == c);
                assert(!all_digits(body));
            }
            return None;
        }
        let d = (c as u32 - 48) as u64;
        let ghost k = i - start;
        proof {
            let t = body.take(k + 1);
            assert(t.drop_last() =~= body.take(k));
            assert(t.last() == c);
            assert(all_digits(t)) by {
                assert forall|j: int| 0 <= j < t.len() implies '0' <= #[trigger] t[j] && t[j] <= '9' by {
                    if j < k {
                        assert(t[j] == body.take(k)[j]);
                    }
                }
            }
        }
        if mag > (limit - d) / 10 {
            proof {
                let t = body.take(k + 1);
                assert(mag * 10 + d > limit) by (nonlinear_arith)
                    requires
                        mag > (limit - d) / 10,
                        d <= 9,
                        limit == 0x8000_0000_0000_0000u64,
                ;
                assert(digits_value(t) > limit);
                let rest_ok = all_digits(body);
                if rest_ok {
                    lemma_digits_mono(body, k + 1);
                }
            }
            return None;
        }
        mag = mag * 10 + d;
        i = i + 1;
    }
    assert(body.take(n - start) =~= body);
    if neg {
        if mag == limit {
            Some(i64::MIN)
        } else {
            Some(-(mag as i64))
        }
    } else {
        if mag > 0x7FFF_FFFF_FFFF_FFFF {
            None
        } else {
            Some(mag as i64)
        }
    }
}

/// ASCII upper-case letters in lower case.
pub open spec fn ascii_lower(c: char) -> char {
    if 'A' <= c && c <= 'Z' { ((c as u32) + 32) as char } else { c }
}

/// Whether `a` equals the lower-case ASCII word `w`, ignoring ASCII case.
pub open spec fn eq_ignore_case(a: Seq<char>, w: Seq<char>) -> bool {
    a.len() == w.len() && forall|i: int| 0 <= i < a.len() ==> ascii_lower(#[trigger] a[i]) == w[i]
}

fn ascii_lower_exec(c: char) -> (r: char)
    ensures
        r == ascii_lower(c),
{
    if 'A' <= c && c <= 'Z' {
        let u = (c as u32) + 32;
        assert(0x61 <= u <= 0x7A);
        let b = u as u8;
        b as char
    } else {
        c
    }
}

pub(crate) fn eq_word(a: &[char], w: &[char]) -> (r: bool)
    ensures
        r == eq_ignore_case(a@, w@),
{
    if a.len() != w.len() {
        return false;
    }
    let mut i: usize = 0;
    while i < a.len()
        invariant
            i <= a@.len(),
            a@.len() == w@.len(),
            forall|j: int| 0 <= j < i ==> ascii_lower(#[trigger] a@[j]) == w@[j],
        decreases a.len() - i,
    {
        if ascii_lower_exec(a[i]) != w[i] {
            return false;
        }
        i = i + 1;
    }
    true
}

/// The value type and bytes a token gives: an integer, else the float the caller parsed (as
/// IEEE bits), else `true`/`false` in any ASCII case, else the text itself.
pub open spec fn csv_typed(t: Seq<char>, float_bits: Option<u64>) -> (ValueType, Seq<u8>) {
    match spec_parse_i64(t) {
        Some(i) => (ValueType::Int64, le64_bytes(i as u64)),
        None => match float_bits {
            Some(b) => (ValueType::Float64, le64_bytes(b)),
            None => if eq_ignore_case(t, seq!['t', 'r', 'u', 'e']) {
                (ValueType::Boolean, seq![1u8])
            } else if eq_ignore_case(t, seq!['f', 'a', 'l', 's', 'e']) {
                (ValueType::Boolean, seq![0u8])
            } else {
                (ValueType::String, encode_utf8(t))
            },
        },
    }
}

/// Whether `v` is the value of token `index` of a line stamped `ts`.
pub open spec fn csv_value_ok(v: Value, index: nat, t: Seq<char>, float_bits: Option<u64>, ts: u64) -> bool {
    &&& v.id@ == ascii_chars(csv_id_prefix() + decimal(index))
    &&& v.timestamp == ts
    &&& v.value_type == csv_typed(t, float_bits).0
    &&& v.value_payload@ == csv_typed(t, float_bits).1
}

fn csv_id(index: usize) -> (s: String)
    ensures
        s@ == ascii_chars(csv_id_prefix() + decimal(index as nat)),
{
    let mut b = csv_id_prefix_bytes();
    push_decimal(&mut b, index as u64);
    proof {
        lemma_decimal_ascii(index as nat);
        assert forall|i: int| 0 <= i < b@.len() implies b@[i] < 0x80 by {
            if i >= 4 {
                assert(b@[i] == decimal(index as nat)[i - 4]);
            }
        }
    }
    ascii_string(b)
}

/// Decodes and splits a CSV payload: it must be UTF-8; it is trimmed and cut into tokens.
pub fn csv_line(payload: &[u8]) -> (r: Result<Vec<Vec<char>>, TransformError>)
    ensures
        !valid_utf8(payload@) ==> r == Err::<Vec<Vec<char>>, TransformError>(TransformError::InvalidUtf8),
        valid_utf8(payload@) ==> (r matches Ok(ts) && views(ts@) == csv_tokens(trimmed(decode_utf8(payload@)))),
{
    let bytes = crate::util::copy_range(payload, 0, payload.len());
    assert(bytes@ =~= payload@);
    match string_from_utf8(bytes) {
        None => Err(TransformError::InvalidUtf8),
        Some(text) => {
            let cs = str_chars(text.as_str());
            let t = trim_chars(cs.as_slice());
            Ok(tokens_of(t.as_slice()))
        },
    }
}

/// The values of a CSV line stamped `timestamp`, given its tokens and, for each, the `f64`
/// it parses to (as IEEE bits) if any.
pub fn csv_values(timestamp: u64, tokens: &Vec<Vec<char>>, float_bits: &Vec<Option<u64>>) -> (r: Vec<Value>)
    requires
        tokens@.len() == float_bits@.len(),
    ensures
        r@.len() == tokens@.len(),
        forall|i: int| 0 <= i < r@.len() ==> csv_value_ok(#[trigger] r@[i], i as nat, tokens@[i]@, float_bits@[i], timestamp),
{
    let mut out: Vec<Value> = Vec::new();
    let mut i: usize = 0;
    let tw = vec!['t', 'r', 'u', 'e'];
    let fw = vec!['f', 'a', 'l', 's', 'e'];
    assert(tw@ =~= seq!['t', 'r', 'u', 'e']);
    assert(fw@ =~= seq!['f', 'a', 'l', 's', 'e']);
    while i < tokens.len()
        invariant
            i <= tokens@.len(),
            tokens@.len() == float_bits@.len(),
            tw@ == seq!['t', 'r', 'u', 'e'],
            fw@ == seq!['f', 'a', 'l', 's', 'e'],
            out@.len() == i,
            forall|j: int| 0 <= j < i ==> csv_value_ok(#[trigger] out@[j], j as nat, tokens@[j]@, float_bits@[j], timestamp),
        decreases tokens.len() - i,
    {
        let t = &tokens[i];
        let (value_type, payload) = match parse_i64(t.as_slice()) {
            Some(v) => (ValueType::Int64, le64_vec(v as u64)),
            None => match float_bits[i] {
                Some(b) => (ValueType::Float64, le64_vec(b)),
                None => if eq_word(t.as_slice(), tw.as_slice()) {
                    (ValueType::Boolean, vec![1u8])
                } else if eq_word(t.as_slice(), fw.as_slice()) {
                    (ValueType::Boolean, vec![0u8])
                } else {
                    (ValueType::String, utf8_of(t.as_slice()))
                },
            },
        };
        let v = Value { id: csv_id(i), timestamp, value_type, value_payload: payload };
        proof {
            assert(v.value_payload@ == csv_typed(t@, float_bits@[i as int]).1) by {
                if spec_parse_i64(t@) is None && float_bits@[i as int] is None {
                    if eq_ignore_case(t@, seq!['t', 'r', 'u', 'e']) {
                        assert(v.value_payload@ =~= seq![1u8]);
                    } else if eq_ignore_case(t@, seq!['f', 'a', 'l', 's', 'e']) {
                        assert(v.value_payload@ =~= seq![0u8]);
                    }
                }
            }
        }
        out.push(v);
        i = i + 1;
    }
    out
}

/// Reads a CSV line into values, given the float parse of each token.
pub struct CsvTransformer;

impl CsvTransformer {
    pub fn new() -> CsvTransformer {
        CsvTransformer
    }

    /// Appends the values of the tokens to `message.values`.
    pub fn append_values(&self, message: &mut Message, tokens: &Vec<Vec<char>>, float_bits: &Vec<Option<u64>>)
        requires
            tokens@.len() == float_bits@.len(),
        ensures
            *final(message) == (Message { values: final(message).values, ..*old(message) }),
            final(message).values@.len() == old(message).values@.len() + tokens@.len(),
            final(message).values@.take(old(message).values@.len() as int) == old(message).values@,
            forall|i: int| 0 <= i < tokens@.len() ==> csv_value_ok(
                #[trigger] final(message).values@[old(message).values@.len() + i],
                i as nat,
                tokens@[i]@,
                float_bits@[i],
                old(message).timestamp,
            ),
    {
        let mut vals = csv_values(message.timestamp, tokens, float_bits);
        let ghost before = message.values@;
        let ghost added = vals@;
        message.values.append(&mut vals);
        proof {
            assert(message.values@ =~= before + added);
            assert(message.values@.take(before.len() as int) =~= before);
            assert forall|i: int| 0 <= i < tokens@.len() implies csv_value_ok(
                #[trigger] message.values@[before.len() + i], i as nat, tokens@[i]@, float_bits@[i], old(message).timestamp) by {
                assert(message.values@[before.len() + i] == added[i]);
            }
        }
    }
}

} // verus!
