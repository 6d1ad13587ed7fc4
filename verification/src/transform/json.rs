use vstd::prelude::*;
use vstd::utf8::{decode_utf8, encode_utf8, valid_utf8};
use crate::cbrt::report::{le64_bytes, le64_vec};
use crate::error::TransformError;
use crate::message::{find_id, first_with_id, Message, Value, ValueType};
use crate::text::{ascii_chars, ascii_string, string_from_utf8};
use crate::transform::csv::{trim_chars, trimmed};
use crate::transform::json_parse::{json_parse, parse_json_text};

verus! {

/// A JSON number as `serde_json` reads it: a signed integer when it fits `i64`, else an unsigned
/// one when it fits `u64`, else a finite double (IEEE bits).
#[derive(Debug, Clone, Copy, PartialEq, Eq, Structural)]
pub enum JsonNumber {
    I64(i64),
    U64(u64),
    F64(u64),
}

/// A parsed JSON document; object entries are in the parser's order (sorted by key, each key
/// once).
pub enum JsonValue {
    Null,
    Bool(bool),
    Number(JsonNumber),
    Str(String),
    Array(Vec<JsonValue>),
    Object(Vec<(String, JsonValue)>),
}

/// The key of a child: the bare key at the top, else `parent.key`.
pub open spec fn child_key(parent: Seq<char>, key: Seq<char>, top: bool) -> Seq<char> {
    if top { key } else { parent + seq!['.'] + key }
}

/// The leaves of `j` under `parent`, in document order, keyed by their dotted paths: the top
/// level must be an object; empty objects and arrays below it give nothing; array elements are
/// keyed by their index.
pub open spec fn flat_events(j: JsonValue, parent: Seq<char>, top: bool) -> Seq<(Seq<char>, JsonValue)>
    decreases j, 0nat,
{
    match j {
        JsonValue::Object(es) => object_events(es@, parent, top, es@.len() as int),
        JsonValue::Array(xs) => if top { seq![] } else { array_events(xs@, parent, xs@.len() as int) },
        _ => if top { seq![] } else { seq![(parent, j)] },
    }
}

/// The leaves of the first `n` entries of an object.
pub open spec fn object_events(es: Seq<(String, JsonValue)>, parent: Seq<char>, top: bool, n: int) -> Seq<(Seq<char>, JsonValue)>
    decreases es, n,
{
    if n <= 0 || n > es.len() {
        seq![]
    } else {
        object_events(es, parent, top, n - 1) + flat_events(es[n - 1].1, child_key(parent, es[n - 1].0@, top), false)
    }
}

/// The leaves of the first `n` elements of an array.
pub open spec fn array_events(xs: Seq<JsonValue>, parent: Seq<char>, n: int) -> Seq<(Seq<char>, JsonValue)>
    decreases xs, n,
{
    if n <= 0 || n > xs.len() {
        seq![]
    } else {
        array_events(xs, parent, n - 1) + flat_events(xs[n - 1], parent + seq!['.'] + crate::text::ascii_chars(crate::text::decimal((n - 1) as nat)), false)
    }
}


/// Byte-wise lexicographic order (the order of `String` keys).
pub open spec fn bytes_lt(a: Seq<u8>, b: Seq<u8>) -> bool
    decreases a.len(),
{
    if a.len() == 0 {
        b.len() > 0
    } else if b.len() == 0 {
        false
    } else if a[0] != b[0] {
        a[0] < b[0]
    } else {
        bytes_lt(a.skip(1), b.skip(1))
    }
}

pub proof fn lemma_bytes_lt_irreflexive(a: Seq<u8>)
    ensures
        !bytes_lt(a, a),
    decreases a.len(),
{
    if a.len() > 0 {
        lemma_bytes_lt_irreflexive(a.skip(1));
    }
}

pub proof fn lemma_bytes_lt_transitive(a: Seq<u8>, b: Seq<u8>, c: Seq<u8>)
    requires
        bytes_lt(a, b),
        bytes_lt(b, c),
    ensures
        bytes_lt(a, c),
    decreases a.len(),
{
    if a.len() > 0 && b.len() > 0 && c.len() > 0 && a[0] == b[0] && b[0] == c[0] {
        lemma_bytes_lt_transitive(a.skip(1), b.skip(1), c.skip(1));
    }
}

pub proof fn lemma_bytes_lt_total(a: Seq<u8>, b: Seq<u8>)
    ensures
        bytes_lt(a, b) || a == b || bytes_lt(b, a),
    decreases a.len(),
{
    if a.len() == 0 {
        if b.len() == 0 {
            assert(a =~= b);
        }
    } else if b.len() > 0 && a[0] == b[0] {
        lemma_bytes_lt_total(a.skip(1), b.skip(1));
        if a.skip(1) == b.skip(1) {
            assert(a =~= seq![a[0]] + a.skip(1));
            assert(b =~= seq![b[0]] + b.skip(1));
        }
    }
}

/// The order of keys: their UTF-8 bytes compared lexicographically.
pub open spec fn key_lt(a: Seq<char>, b: Seq<char>) -> bool {
    bytes_lt(encode_utf8(a), encode_utf8(b))
}

proof fn lemma_key_total(a: Seq<char>, b: Seq<char>)
    ensures
        key_lt(a, b) || a == b || key_lt(b, a),
{
    broadcast use vstd::utf8::encode_utf8_decode_utf8;
    lemma_bytes_lt_total(encode_utf8(a), encode_utf8(b));
    if encode_utf8(a) == encode_utf8(b) {
        assert(vstd::utf8::decode_utf8(encode_utf8(a)) == a);
        assert(vstd::utf8::decode_utf8(encode_utf8(b)) == b);
    }
}

/// How two keys compare.
#[derive(Debug, Clone, Copy, PartialEq, Eq, Structural)]
pub enum KeyOrder {
    Less,
    Equal,
    Greater,
}

/// Compares two keys by their UTF-8 bytes.
fn compare_keys(a: &String, b: &String) -> (r: KeyOrder)
    ensures
        r == KeyOrder::Less <==> key_lt(a@, b@),
        r == KeyOrder::Equal <==> a@ == b@,
        r == KeyOrder::Greater <==> key_lt(b@, a@),
{
    broadcast use vstd::utf8::encode_utf8_decode_utf8;
    let x = a.as_str().as_bytes();
    let y = b.as_str().as_bytes();
    let ghost xa = x@;
    let ghost yb = y@;
    let mut i: usize = 0;
    assert(x@.skip(0) =~= x@);
    assert(y@.skip(0) =~= y@);
    assert(x@.take(0) =~= y@.take(0));
    while i < x.len() && i < y.len() && x[i] == y[i]
        invariant
            i <= x@.len(),
            i <= y@.len(),
            xa == x@,
            yb == y@,
            x@.take(i as int) == y@.take(i as int),
            bytes_lt(x@, y@) == bytes_lt(x@.skip(i as int), y@.skip(i as int)),
            bytes_lt(y@, x@) == bytes_lt(y@.skip(i as int), x@.skip(i as int)),
        decreases x.len() - i,
    {
        proof {
            assert(x@.skip(i as int).skip(1) =~= x@.skip(i + 1));
            assert(y@.skip(i as int).skip(1) =~= y@.skip(i + 1));
            assert(x@.take(i + 1) =~= x@.take(i as int).push(x@[i as int]));
            assert(y@.take(i + 1) =~= y@.take(i as int).push(y@[i as int]));
        }
        i = i + 1;
    }
    proof {
        lemma_bytes_lt_irreflexive(x@);
        lemma_key_total(a@, b@);
        assert(vstd::utf8::decode_utf8(encode_utf8(a@)) == a@);
        assert(vstd::utf8::decode_utf8(encode_utf8(b@)) == b@);
    }
    if i < x.len() && i < y.len() {
        proof {
            assert(x@.skip(i as int)[0] == x@[i as int]);
            assert(y@.skip(i as int)[0] == y@[i as int]);
        }
        if x[i] < y[i] { KeyOrder::Less } else { KeyOrder::Greater }
    } else if x.len() == y.len() {
        assert(x@ =~= x@.take(i as int));
        assert(y@ =~= y@.take(i as int));
        KeyOrder::Equal
    } else if i == x.len() {
        assert(x@.skip(i as int).len() == 0);
        assert(x@ =~= x@.take(i as int));
        assert(x@ != y@);
        KeyOrder::Less
    } else {
        assert(y@.skip(i as int).len() == 0);
        assert(y@ =~= y@.take(i as int));
        assert(x@ != y@);
        KeyOrder::Greater
    }
}

/// Inserting the leaves in order: a later leaf under a key replaces the earlier one.
pub open spec fn fold_events(ev: Seq<(Seq<char>, JsonValue)>) -> Map<Seq<char>, JsonValue>
    decreases ev.len(),
{
    if ev.len() == 0 {
        Map::empty()
    } else {
        fold_events(ev.drop_last()).insert(ev.last().0, ev.last().1)
    }
}

/// Whether `entries` list `m` in strictly increasing key order.
pub open spec fn lists_map(entries: Seq<(String, JsonValue)>, m: Map<Seq<char>, JsonValue>) -> bool {
    &&& forall|i: int, j: int| 0 <= i < j < entries.len() ==> key_lt(#[trigger] entries[i].0@, #[trigger] entries[j].0@)
    &&& forall|i: int| 0 <= i < entries.len() ==> m.contains_key(#[trigger] entries[i].0@) && m[entries[i].0@] == entries[i].1
    &&& forall|k: Seq<char>| #[trigger] m.contains_key(k) ==> exists|i: int| 0 <= i < entries.len() && entries[i].0@ == k
}

/// The flattened leaves of a document, sorted by key.
pub struct FlatMap {
    pub entries: Vec<(String, JsonValue)>,
}

impl FlatMap {
    pub fn new() -> (f: FlatMap)
        ensures
            lists_map(f.entries@, Map::empty()),
    {
        FlatMap { entries: Vec::new() }
    }

    /// Sets `key` to `value`, keeping the keys sorted.
    pub fn insert(&mut self, key: String, value: JsonValue, Ghost(m): Ghost<Map<Seq<char>, JsonValue>>)
        requires
            lists_map(old(self).entries@, m),
        ensures
            lists_map(final(self).entries@, m.insert(key@, value)),
    {
        let n = self.entries.len();
        let mut p: usize = 0;
        while p < n && compare_keys(&self.entries[p].0, &key) == KeyOrder::Less
            invariant
                p <= n,
                n == self.entries@.len(),
                forall|i: int| 0 <= i < p ==> key_lt(#[trigger] self.entries@[i].0@, key@),
            decreases n - p,
        {
            p = p + 1;
        }
        let ghost old_e = self.entries@;
        if p < n && compare_keys(&self.entries[p].0, &key) == KeyOrder::Equal {
            let ghost k2 = self.entries@[p as int].0;
            self.entries.set(p, (key, value));
            proof {
                let e = self.entries@;
                let m2 = m.insert(key@, value);
                assert forall|i: int, j: int| 0 <= i < j < e.len() implies key_lt(#[trigger] e[i].0@, #[trigger] e[j].0@) by {
                    assert(key_lt(old_e[i].0@, old_e[j].0@));
                }
                assert forall|i: int| 0 <= i < e.len() implies m2.contains_key(#[trigger] e[i].0@) && m2[e[i].0@] == e[i].1 by {
                    if i != p {
                        if e[i].0@ == key@ {
                            if i < p {
                                assert(key_lt(old_e[i].0@, old_e[p as int].0@));
                            } else {
                                assert(key_lt(old_e[p as int].0@, old_e[i].0@));
                            }
                            lemma_bytes_lt_irreflexive(encode_utf8(key@));
                        }
                    }
                }
                assert forall|k: Seq<char>| #[trigger] m2.contains_key(k) implies exists|i: int| 0 <= i < e.len() && e[i].0@ == k by {
                    if k == key@ {
                        assert(e[p as int].0@ == k);
                    } else {
                        let i = choose|i: int| 0 <= i < old_e.len() && old_e[i].0@ == k;
                        assert(e[i].0@ == k);
                    }
                }
            }
        } else {
            proof {
                if p < n {
                    lemma_key_total(self.entries@[p as int].0@, key@);
                }
            }
            self.entries.insert(p, (key, value));
            proof {
                let e = self.entries@;
                let m2 = m.insert(key@, value);
                assert forall|i: int| 0 <= i < e.len() implies (i < p ==> e[i] == old_e[i]) && (i > p ==> e[i] == old_e[i - 1]) by {}
                assert forall|i: int, j: int| 0 <= i < j < e.len() implies key_lt(#[trigger] e[i].0@, #[trigger] e[j].0@) by {
                    if i < p && j < p {
                        assert(key_lt(old_e[i].0@, old_e[j].0@));
                    } else if i < p && j == p {
                    } else if i < p && j > p {
                        assert(key_lt(old_e[i].0@, key@));
                        assert(key_lt(key@, old_e[p as int].0@));
                        if j - 1 > p {
                            assert(key_lt(old_e[p as int].0@, old_e[j - 1].0@));
                            lemma_bytes_lt_transitive(encode_utf8(key@), encode_utf8(old_e[p as int].0@), encode_utf8(old_e[j - 1].0@));
                        }
                        lemma_bytes_lt_transitive(encode_utf8(old_e[i].0@), encode_utf8(key@), encode_utf8(old_e[j - 1].0@));
                    } else if i == p {
                        assert(key_lt(key@, old_e[p as int].0@));
                        if j - 1 > p {
                            assert(key_lt(old_e[p as int].0@, old_e[j - 1].0@));
                            lemma_bytes_lt_transitive(encode_utf8(key@), encode_utf8(old_e[p as int].0@), encode_utf8(old_e[j - 1].0@));
                        }
                    } else {
                        assert(key_lt(old_e[i - 1].0@, old_e[j - 1].0@));
                    }
                }
                assert forall|i: int| 0 <= i < e.len() implies m2.contains_key(#[trigger] e[i].0@) && m2[e[i].0@] == e[i].1 by {
                    if i != p {
                        let oi = if i < p { i } else { i - 1 };
                        if e[i].0@ == key@ {
                            if oi < p {
                                assert(key_lt(old_e[oi].0@, key@));
                            } else {
                                assert(key_lt(key@, old_e[p as int].0@));
                                if oi > p {
                                    assert(key_lt(old_e[p as int].0@, old_e[oi].0@));
                                    lemma_bytes_lt_transitive(encode_utf8(key@), encode_utf8(old_e[p as int].0@), encode_utf8(old_e[oi].0@));
                                }
                            }
                            lemma_bytes_lt_irreflexive(encode_utf8(key@));
                        }
                    }
                }
                assert forall|k: Seq<char>| #[trigger] m2.contains_key(k) implies exists|i: int| 0 <= i < e.len() && e[i].0@ == k by {
                    if k == key@ {
                        assert(e[p as int].0@ == k);
                    } else {
                        let i = choose|i: int| 0 <= i < old_e.len() && old_e[i].0@ == k;
                        if i < p {
                            assert(e[i].0@ == k);
                        } else {
                            assert(e[i + 1].0@ == k);
                        }
                    }
                }
            }
        }
    }
}


/// A copy of a leaf.
fn leaf_copy(j: &JsonValue) -> (r: JsonValue)
    requires
        !(j is Array),
        !(j is Object),
    ensures
        r == *j,
{
    match j {
        JsonValue::Null => JsonValue::Null,
        JsonValue::Bool(b) => JsonValue::Bool(*b),
        JsonValue::Number(n) => JsonValue::Number(*n),
        JsonValue::Str(s) => JsonValue::Str(s.clone()),
        _ => JsonValue::Null,
    }
}

/// `parent.key`, or the key alone at the top.
fn make_child_key(parent: &String, key: &String, top: bool) -> (r: String)
    ensures
        r@ == child_key(parent@, key@, top),
{
    if top {
        key.clone()
    } else {
        let mut k = parent.clone();
        k.append(".");
        proof {
            reveal_strlit(".");
        }
        k.append(key.as_str());
        k
    }
}

fn index_key(parent: &String, i: usize) -> (r: String)
    ensures
        r@ == parent@ + seq!['.'] + crate::text::ascii_chars(crate::text::decimal(i as nat)),
{
    let mut digits: Vec<u8> = Vec::new();
    crate::text::push_decimal(&mut digits, i as u64);
    proof {
        crate::text::lemma_decimal_ascii(i as nat);
        assert(digits@ =~= crate::text::decimal(i as nat));
    }
    let d = crate::text::ascii_string(digits);
    let mut k = parent.clone();
    k.append(".");
    proof {
        reveal_strlit(".");
    }
    k.append(d.as_str());
    k
}

proof fn lemma_fold_push(ev: Seq<(Seq<char>, JsonValue)>, k: Seq<char>, v: JsonValue)
    ensures
        fold_events(ev.push((k, v))) == fold_events(ev).insert(k, v),
{
    assert(ev.push((k, v)).drop_last() =~= ev);
}

/// Adds the leaves of `current` under `parent` to `flat`.
fn flatten_into(current: &JsonValue, parent: &String, top: bool, flat: &mut FlatMap, Ghost(ev): Ghost<Seq<(Seq<char>, JsonValue)>>)
    requires
        lists_map(old(flat).entries@, fold_events(ev)),
    ensures
        lists_map(final(flat).entries@, fold_events(ev + flat_events(*current, parent@, top))),
    decreases current,
{
    match current {
        JsonValue::Object(es) => {
            let mut i: usize = 0;
            assert(ev + object_events(es@, parent@, top, 0) =~= ev);
            while i < es.len()
                invariant
                    i <= es@.len(),
                    *current == JsonValue::Object(*es),
                    lists_map(flat.entries@, fold_events(ev + object_events(es@, parent@, top, i as int))),
                decreases es.len() - i,
            {
                let key = make_child_key(parent, &es[i].0, top);
                let ghost before = ev + object_events(es@, parent@, top, i as int);
                proof {
                    assert(current->Object_0 == *es);
                    assert(decreases_to!(*current => current->Object_0));
                    assert(decreases_to!(*es => es@));
                    assert(decreases_to!(es@ => es@[i as int]));
                    assert(decreases_to!(es@[i as int] => es@[i as int].1));
                }
                flatten_into(&es[i].1, &key, false, flat, Ghost(before));
                proof {
                    assert(object_events(es@, parent@, top, i + 1) == object_events(es@, parent@, top, i as int)
                        + flat_events(es@[i as int].1, child_key(parent@, es@[i as int].0@, top), false));
                    assert(before + flat_events(es@[i as int].1, key@, false) =~= ev + object_events(es@, parent@, top, i + 1));
                }
                i = i + 1;
            }
            assert(flat_events(*current, parent@, top) == object_events(es@, parent@, top, es@.len() as int));
        },
        JsonValue::Array(xs) => {
            if top {
                assert(ev + flat_events(*current, parent@, top) =~= ev);
                return;
            }
            let mut i: usize = 0;
            assert(ev + array_events(xs@, parent@, 0) =~= ev);
            while i < xs.len()
                invariant
                    i <= xs@.len(),
                    !top,
                    *current == JsonValue::Array(*xs),
                    lists_map(flat.entries@, fold_events(ev + array_events(xs@, parent@, i as int))),
                decreases xs.len() - i,
            {
                let key = index_key(parent, i);
                let ghost before = ev + array_events(xs@, parent@, i as int);
                proof {
                    assert(current->Array_0 == *xs);
                    assert(decreases_to!(*current => current->Array_0));
                    assert(decreases_to!(*xs => xs@));
                    assert(decreases_to!(xs@ => xs@[i as int]));
                }
                flatten_into(&xs[i], &key, false, flat, Ghost(before));
                proof {
                    assert(array_events(xs@, parent@, i + 1) == array_events(xs@, parent@, i as int)
                        + flat_events(xs@[i as int], parent@ + seq!['.'] + crate::text::ascii_chars(crate::text::decimal(i as nat)), false));
                    assert(before + flat_events(xs@[i as int], key@, false) =~= ev + array_events(xs@, parent@, i + 1));
                }
                i = i + 1;
            }
            assert(flat_events(*current, parent@, top) == array_events(xs@, parent@, xs@.len() as int));
        },
        _ => {
            if top {
                assert(ev + flat_events(*current, parent@, top) =~= ev);
                return;
            }
            let leaf = leaf_copy(current);
            proof {
                lemma_fold_push(ev, parent@, *current);
                assert(ev + flat_events(*current, parent@, top) =~= ev.push((parent@, *current)));
            }
            flat.insert(parent.clone(), leaf, Ghost(fold_events(ev)));
        },
    }
}

/// The leaves of a document, sorted by key; a later leaf under a key replaces an earlier one.
pub fn flatten(root: &JsonValue) -> (f: FlatMap)
    ensures
        lists_map(f.entries@, fold_events(flat_events(*root, Seq::empty(), true))),
{
    let mut flat = FlatMap::new();
    let empty = String::new();
    assert(fold_events(Seq::<(Seq<char>, JsonValue)>::empty()) =~= Map::<Seq<char>, JsonValue>::empty());
    flatten_into(root, &empty, true, &mut flat, Ghost(Seq::empty()));
    assert(Seq::<(Seq<char>, JsonValue)>::empty() + flat_events(*root, Seq::empty(), true) =~= flat_events(*root, Seq::empty(), true));
    flat
}

/// The metadata key naming the MQTT topic of a message.
pub open spec fn key_mqtt_topic() -> Seq<u8> {
    seq![0x6Du8, 0x71u8, 0x74u8, 0x74u8, 0x5Fu8, 0x74u8, 0x6Fu8, 0x70u8, 0x69u8, 0x63u8]
}

pub fn key_mqtt_topic_bytes() -> (v: Vec<u8>)
    ensures
        v@ == key_mqtt_topic(),
{
    let v = vec![0x6Du8, 0x71u8, 0x74u8, 0x74u8, 0x5Fu8, 0x74u8, 0x6Fu8, 0x70u8, 0x69u8, 0x63u8];
    assert(v@ =~= key_mqtt_topic());
    v
}

/// The type and bytes of a leaf's value: integers as `i64` when they fit, else `u64`, else
/// double; booleans; strings; other leaves have no value.
pub open spec fn leaf_value(leaf: JsonValue) -> Option<(ValueType, Seq<u8>)> {
    match leaf {
        JsonValue::Number(JsonNumber::I64(i)) => Some((ValueType::Int64, le64_bytes(i as u64))),
        JsonValue::Number(JsonNumber::U64(u)) => Some((ValueType::UInt64, le64_bytes(u))),
        JsonValue::Number(JsonNumber::F64(b)) => Some((ValueType::Float64, le64_bytes(b))),
        JsonValue::Bool(b) => Some((ValueType::Boolean, seq![if b { 1u8 } else { 0u8 }])),
        JsonValue::Str(s) => Some((ValueType::String, encode_utf8(s@))),
        _ => None,
    }
}

/// The id of a value: its key, under the topic prefix when there is one.
pub open spec fn prefixed(prefix: Option<Seq<char>>, key: Seq<char>) -> Seq<char> {
    match prefix {
        Some(p) => p + seq!['.'] + key,
        None => key,
    }
}

/// The values of the listed leaves, in order, leaves without a value skipped.
pub open spec fn listed_values(entries: Seq<(String, JsonValue)>, prefix: Option<Seq<char>>) -> Seq<(Seq<char>, ValueType, Seq<u8>)>
    decreases entries.len(),
{
    if entries.len() == 0 {
        seq![]
    } else {
        let rest = listed_values(entries.drop_last(), prefix);
        match leaf_value(entries.last().1) {
            Some((t, b)) => rest.push((prefixed(prefix, entries.last().0@), t, b)),
            None => rest,
        }
    }
}

/// Each leaf of a flattened document adds its value after those of the leaves before it: a
/// boolean gives one `Boolean` byte that is 1 exactly when the leaf is true (0 when false); an
/// integer that fits `i64` gives an `Int64` whose eight little-endian bytes read back as it; a
/// string gives a `String` holding its UTF-8 bytes; null and containers give nothing.
pub proof fn lemma_json_leaf_values(entries: Seq<(String, JsonValue)>, key: String, leaf: JsonValue,
    prefix: Option<Seq<char>>)
    ensures
        ({
            let before = listed_values(entries, prefix);
            let after = listed_values(entries.push((key, leaf)), prefix);
            let id = prefixed(prefix, key@);
            &&& leaf matches JsonValue::Bool(b) ==> after.len() == before.len() + 1 && after.last().0 == id
                && after.last().1 == ValueType::Boolean && after.last().2.len() == 1
                && (after.last().2[0] == 1 <==> b) && (after.last().2[0] == 0 <==> !b)
            &&& leaf matches JsonValue::Number(JsonNumber::I64(i)) ==> after.len() == before.len() + 1
                && after.last().0 == id && after.last().1 == ValueType::Int64 && after.last().2.len() == 8
                && crate::message::le_word(after.last().2, 8) as u64 as i64 == i
            &&& leaf matches JsonValue::Str(t) ==> after.len() == before.len() + 1 && after.last().0 == id
                && after.last().1 == ValueType::String && after.last().2 == encode_utf8(t@)
            &&& (leaf is Null || leaf is Array || leaf is Object) ==> after == before
            &&& after.take(before.len() as int) == before
        }),
{
    let e2 = entries.push((key, leaf));
    assert(e2.drop_last() =~= entries);
    assert(e2.last() == (key, leaf));
    let before = listed_values(entries, prefix);
    let after = listed_values(e2, prefix);
    match leaf {
        JsonValue::Number(JsonNumber::I64(i)) => {
            crate::cbrt::report::lemma_le64_word(i as u64);
            assert((i as u64) as i64 == i) by (bit_vector);
        },
        _ => {},
    }
    assert(after.take(before.len() as int) =~= before);
}

/// Whether `values` are the described values, all stamped `ts`.
pub open spec fn values_match(values: Seq<Value>, described: Seq<(Seq<char>, ValueType, Seq<u8>)>, ts: u64) -> bool {
    &&& values.len() == described.len()
    &&& forall|i: int| 0 <= i < values.len() ==> {
        let v = #[trigger] values[i];
        &&& v.id@ == described[i].0
        &&& v.timestamp == ts
        &&& v.value_type == described[i].1
        &&& v.value_payload@ == described[i].2
    }
}

/// The values of a flattened document stamped `timestamp`, their ids under `prefix` if any.
pub fn json_values(timestamp: u64, flat: &FlatMap, prefix: &Option<String>) -> (r: Vec<Value>)
    ensures
        values_match(r@, listed_values(flat.entries@, match prefix { Some(p) => Some(p@), None => None }), timestamp),
{
    let ghost pv = match prefix { Some(p) => Some(p@), None => None };
    let mut out: Vec<Value> = Vec::new();
    let mut i: usize = 0;
    assert(flat.entries@.take(0) =~= Seq::<(String, JsonValue)>::empty());
    while i < flat.entries.len()
        invariant
            i <= flat.entries@.len(),
            pv == match prefix { Some(p) => Some(p@), None => None },
            values_match(out@, listed_values(flat.entries@.take(i as int), pv), timestamp),
        decreases flat.entries.len() - i,
    {
        let ghost t = flat.entries@.take(i + 1);
        proof {
            assert(t.drop_last() =~= flat.entries@.take(i as int));
            assert(t.last() == flat.entries@[i as int]);
        }
        let key = &flat.entries[i].0;
        let typed: Option<(ValueType, Vec<u8>)> = match &flat.entries[i].1 {
            JsonValue::Number(JsonNumber::I64(v)) => Some((ValueType::Int64, le64_vec(*v as u64))),
            JsonValue::Number(JsonNumber::U64(v)) => Some((ValueType::UInt64, le64_vec(*v))),
            JsonValue::Number(JsonNumber::F64(b)) => Some((ValueType::Float64, le64_vec(*b))),
            JsonValue::Bool(b) => {
                let mut v: Vec<u8> = Vec::new();
                v.push(if *b { 1u8 } else { 0u8 });
                Some((ValueType::Boolean, v))
            },
            JsonValue::Str(s) => {
                let b = s.as_str().as_bytes();
                let v = crate::util::copy_range(b, 0, b.len());
                assert(v@ =~= encode_utf8(s@));
                Some((ValueType::String, v))
            },
            _ => None,
        };
        match typed {
            Some((value_type, payload)) => {
                let id = match prefix {
                    Some(p) => {
                        let mut k = p.clone();
                        k.append(".");
                        proof {
                            reveal_strlit(".");
                        }
                        k.append(key.as_str());
                        k
                    },
                    None => key.clone(),
                };
                let ghost before = out@;
                let v = Value { id, timestamp, value_type, value_payload: payload };
                out.push(v);
                proof {
                    let d = listed_values(t, pv);
                    assert(v.value_payload@ == leaf_value(t.last().1).unwrap().1) by {
                        match flat.entries@[i as int].1 {
                            JsonValue::Bool(b) => {
                                assert(v.value_payload@ =~= seq![if b { 1u8 } else { 0u8 }]);
                            },
                            _ => {},
                        }
                    }
                    assert forall|j: int| 0 <= j < out@.len() implies {
                        let w = #[trigger] out@[j];
                        &&& w.id@ == d[j].0
                        &&& w.timestamp == timestamp
                        &&& w.value_type == d[j].1
                        &&& w.value_payload@ == d[j].2
                    } by {
                        if j < before.len() {
                            assert(out@[j] == before[j]);
                        }
                    }
                }
            },
            None => {},
        }
        i = i + 1;
    }
    assert(flat.entries@.take(flat.entries@.len() as int) =~= flat.entries@);
    out
}

/// The topic used as id prefix: slashes become dots.
pub open spec fn topic_prefix(topic: Seq<char>) -> Seq<char> {
    topic.map_values(|c: char| if c == '/' { '.' } else { c })
}

fn slashes_to_dots(s: &String) -> (r: String)
    ensures
        r@ == topic_prefix(s@),
{
    let cs = crate::text::str_chars(s.as_str());
    let mut out: Vec<char> = Vec::new();
    let mut i: usize = 0;
    while i < cs.len()
        invariant
            i <= cs@.len(),
            cs@ == s@,
            out@ == topic_prefix(cs@.take(i as int)),
        decreases cs.len() - i,
    {
        let c = cs[i];
        out.push(if c == '/' { '.' } else { c });
        i = i + 1;
        assert(out@ =~= topic_prefix(cs@.take(i as int)));
    }
    assert(cs@.take(cs@.len() as int) =~= cs@);
    crate::text::string_from_chars(out.as_slice())
}

/// The decoded text of a string-valued entry.
pub open spec fn string_value(v: Value) -> Option<Seq<char>> {
    if v.value_type == ValueType::String && valid_utf8(v.value_payload@) {
        Some(decode_utf8(v.value_payload@))
    } else {
        None
    }
}

/// The id prefix of a message: the MQTT topic it came with, slashes as dots.
pub open spec fn message_prefix(m: Message) -> Option<Seq<char>> {
    match first_with_id(m.metadata@, ascii_chars(key_mqtt_topic())) {
        Some(i) => match string_value(m.metadata@[i]) {
            Some(t) => Some(topic_prefix(t)),
            None => None,
        },
        None => None,
    }
}

fn prefix_of(message: &Message) -> (r: Option<String>)
    ensures
        match r { Some(p) => Some(p@), None => None } == message_prefix(*message),
{
    let key = ascii_string(key_mqtt_topic_bytes());
    match find_id(&message.metadata, &key) {
        None => None,
        Some(i) => {
            let v = &message.metadata[i];
            if v.value_type != ValueType::String {
                return None;
            }
            let bytes = crate::codec::passthrough::clone_bytes(&v.value_payload);
            match string_from_utf8(bytes) {
                Some(t) => Some(slashes_to_dots(&t)),
                None => None,
            }
        },
    }
}

/// The characters of a JSON payload to parse: it must be UTF-8 and, trimmed, start with `{`.
pub open spec fn json_text_check(payload: Seq<u8>) -> Result<Seq<char>, TransformError> {
    if !valid_utf8(payload) {
        Err(TransformError::InvalidUtf8)
    } else {
        let t = trimmed(decode_utf8(payload));
        if t.len() == 0 || t[0] != '{' { Err(TransformError::NotJsonObject) } else { Ok(t) }
    }
}

/// What appending a parsed document (`None` when it did not parse) does: a syntax error
/// leaves the message alone; otherwise its flattened leaves, in key order and prefixed by the
/// message's MQTT topic, are appended to the values, stamped with the message's timestamp.
pub open spec fn parsed_appended(old: Message, new: Message, parsed: Option<JsonValue>, r: Result<(), TransformError>) -> bool {
    match parsed {
        None => r == Err::<(), TransformError>(TransformError::JsonSyntax) && new == old,
        Some(root) => {
            let flat = fold_events(flat_events(root, Seq::empty(), true));
            let n = old.values@.len() as int;
            &&& r is Ok
            &&& new == (Message { values: new.values, ..old })
            &&& new.values@.take(n) == old.values@
            &&& exists|entries: Seq<(String, JsonValue)>| #[trigger] lists_map(entries, flat)
                && values_match(new.values@.skip(n), listed_values(entries, message_prefix(old)), old.timestamp)
        },
    }
}

/// What the JSON transformer does to a received message: the payload must be UTF-8 and,
/// trimmed, start with `{`; the trimmed text is parsed and its leaves appended to the values.
pub open spec fn json_received(old: Message, new: Message, r: Result<(), TransformError>) -> bool {
    match json_text_check(old.payload@) {
        Err(e) => r == Err::<(), TransformError>(e) && new == old,
        Ok(t) => parsed_appended(old, new, json_parse(t), r),
    }
}

/// Reads parsed JSON objects into values.
pub struct JsonTransformer;

impl JsonTransformer {
    pub fn new() -> JsonTransformer {
        JsonTransformer
    }

    /// The text of a payload, ready to parse.
    pub fn json_text(&self, payload: &[u8]) -> (r: Result<String, TransformError>)
        ensures
            match json_text_check(payload@) {
                Ok(t) => r matches Ok(s) && s@ == t,
                Err(e) => r matches Err(e2) && e2 == e,
            },
    {
        let bytes = crate::util::copy_range(payload, 0, payload.len());
        assert(bytes@ =~= payload@);
        match string_from_utf8(bytes) {
            None => Err(TransformError::InvalidUtf8),
            Some(text) => {
                let cs = crate::text::str_chars(text.as_str());
                let t = trim_chars(cs.as_slice());
                if t.len() == 0 || t[0] != '{' {
                    Err(TransformError::NotJsonObject)
                } else {
                    Ok(crate::text::string_from_chars(t.as_slice()))
                }
            },
        }
    }

    /// Reads the JSON object in a received message's payload into its values.
    pub fn on_receive(&self, message: &mut Message) -> (r: Result<(), TransformError>)
        ensures
            json_received(*old(message), *final(message), r),
    {
        let text = match self.json_text(&message.payload) {
            Ok(t) => t,
            Err(e) => {
                return Err(e);
            },
        };
        let parsed = parse_json_text(text.as_str());
        self.append_parsed(message, parsed.as_ref())
    }

    /// Appends the values of a parsed document (`None` when it did not parse) to the message,
    /// stamped with its timestamp and prefixed by its MQTT topic.
    pub fn append_parsed(&self, message: &mut Message, parsed: Option<&JsonValue>) -> (r: Result<(), TransformError>)
        ensures
            parsed_appended(*old(message), *final(message), match parsed { Some(j) => Some(*j), None => None }, r),
    {
        match parsed {
            None => Err(TransformError::JsonSyntax),
            Some(root) => {
                let flat = flatten(root);
                let prefix = prefix_of(message);
                let mut vals = json_values(message.timestamp, &flat, &prefix);
                let ghost before = message.values@;
                let ghost added = vals@;
                message.values.append(&mut vals);
                proof {
                    assert(message.values@.take(before.len() as int) =~= before);
                    assert(message.values@.skip(before.len() as int) =~= added);
                }
                Ok(())
            },
        }
    }
}

} // verus!
