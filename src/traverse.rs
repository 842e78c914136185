//! Walking a raw bson document and driving a JSON writer with what it holds.
use crate::escape::{is_plan, StringPiece};
use crate::raw::{
    array_bytes, array_items_of, array_values, classify, doc_bytes, document_elements,
    document_fields, element_key, element_value, fields_left, next_element, next_value, rfc3339,
    rfc3339_in_range, rfc3339_of, value_model, values_left, FieldModel, Value, ValueModel,
};
use crate::writer::{wrote_string_part, is_prefix, lemma_prefix_trans, string_tokens, wrote_string, JsonWriter, Token};
use vstd::prelude::*;
use vstd::string::StringSliceAdditionalSpecFns;
use vstd::utf8::encode_utf8;

verus! {

broadcast use vstd::seq::group_seq_axioms;

/// Why a traversal stopped.
#[derive(Debug)]
pub enum TraverseError {
    /// A value of a type that has no JSON form.
    UnexpectedBsonType(bson::spec::ElementType),
    /// bson could not read the next element.
    BsonRawError(bson::raw::Error),
    /// A UTC time that has no RFC 3339 text, one outside years 0 to 9999.
    BsonDatetimeError(bson::datetime::Error),
    /// The writer refused a write.
    IoError(std::io::Error),
}

/// The tokens appended from `before` to `after`.
pub open spec fn added(before: Seq<Token>, after: Seq<Token>) -> Seq<Token> {
    after.subrange(before.len() as int, after.len() as int)
}

/// The concatenation of a sequence of token runs.
pub open spec fn flatten(ss: Seq<Seq<Token>>) -> Seq<Token>
    decreases ss.len(),
{
    if ss.len() == 0 {
        Seq::empty()
    } else {
        flatten(ss.drop_last()) + ss.last()
    }
}

/// The tokens of the array element at position `i` whose value has the tokens `v`.
pub open spec fn array_item(i: int, v: Seq<Token>) -> Seq<Token> {
    seq![Token::BeginArrayValue(i == 0)] + v + seq![Token::EndArrayValue]
}

/// The tokens of each element of an array whose values have the tokens `vs`.
pub open spec fn array_items(vs: Seq<Seq<Token>>) -> Seq<Seq<Token>> {
    vs.map(|i: int, v: Seq<Token>| array_item(i, v))
}

/// The tokens of the object member at position `i`, with the key and value tokens of `kv`.
pub open spec fn object_member(i: int, kv: (Seq<Token>, Seq<Token>)) -> Seq<Token> {
    seq![Token::BeginObjectKey(i == 0)] + kv.0 + seq![Token::EndObjectKey, Token::BeginObjectValue]
        + kv.1 + seq![Token::EndObjectValue]
}

/// The tokens of each member of an object whose keys and values have the tokens `kvs`.
pub open spec fn object_members(kvs: Seq<(Seq<Token>, Seq<Token>)>) -> Seq<Seq<Token>> {
    kvs.map(|i: int, kv: (Seq<Token>, Seq<Token>)| object_member(i, kv))
}

/// `ts` is the string literal of `s`.
pub open spec fn string_json(ts: Seq<Token>, s: Seq<u8>) -> bool {
    exists|ps: Seq<StringPiece>| is_plan(ps, s) && ts == #[trigger] string_tokens(ps, s)
}

/// `ts` is the JSON form of a value that holds `vm`, whose nested containers
/// are shorter than `bound` bytes: a scalar as its token, a string or a time
/// as a string literal, an array or a document as the JSON array or object
/// of what bson reads from it.
pub open spec fn value_json(ts: Seq<Token>, vm: ValueModel, bound: nat) -> bool
    decreases bound, 0nat,
{
    match vm {
        ValueModel::Double => ts == seq![Token::Double],
        ValueModel::String(s) => string_json(ts, encode_utf8(s)),
        ValueModel::Array(b) => b.len() < bound && array_json(ts, array_items_of(b), b.len()),
        ValueModel::Document(b) => b.len() < bound && object_json(ts, document_fields(b), b.len()),
        ValueModel::Boolean(x) => ts == seq![Token::Bool(x)],
        ValueModel::Null => ts == seq![Token::Null],
        ValueModel::Int32(n) => ts == seq![Token::Int32(n)],
        ValueModel::Int64(n) => ts == seq![Token::Int64(n)],
        ValueModel::DateTime(ms) => rfc3339_in_range(ms) && string_json(ts, encode_utf8(rfc3339_of(ms))),
        ValueModel::Other(_) => false,
        ValueModel::Malformed => false,
    }
}

/// `ts` is the JSON array of the values `items`, in order.
pub open spec fn array_json(ts: Seq<Token>, items: Seq<ValueModel>, bound: nat) -> bool
    decreases bound, 1nat,
{
    ts.len() >= 2 && ts[0] == Token::BeginArray && ts.last() == Token::EndArray && exists|
        vs: Seq<Seq<Token>>,
    |
        #![trigger flatten(array_items(vs))]
        vs.len() == items.len() && flatten(array_items(vs)) == ts.subrange(1, ts.len() - 1)
            && forall|i: int| 0 <= i < vs.len() ==> value_json(#[trigger] vs[i], items[i], bound)
}

/// `ts` is the JSON object of the fields `fields`, in order, each key a
/// string literal and duplicate keys kept.
pub open spec fn object_json(ts: Seq<Token>, fields: Seq<FieldModel>, bound: nat) -> bool
    decreases bound, 1nat,
{
    ts.len() >= 2 && ts[0] == Token::BeginObject && ts.last() == Token::EndObject && exists|
        kvs: Seq<(Seq<Token>, Seq<Token>)>,
    |
        #![trigger flatten(object_members(kvs))]
        kvs.len() == fields.len() && flatten(object_members(kvs)) == ts.subrange(1, ts.len() - 1)
            && forall|i: int|
            0 <= i < kvs.len() ==> (#[trigger] fields[i]) is Entry && string_json(
                kvs[i].0,
                encode_utf8(fields[i]->Entry_0),
            ) && value_json(kvs[i].1, fields[i]->Entry_1, bound)
}

/// `ts` is a proper start of the string literal of `s`: what a failed write
/// of `s` leaves.
pub open spec fn partial_string(ts: Seq<Token>, s: Seq<u8>) -> bool {
    exists|ps: Seq<StringPiece>, k: int|
        is_plan(ps, s) && 0 <= k < string_tokens(ps, s).len() && ts == #[trigger] string_tokens(ps, s).take(k)
}

/// `ts` is what a write of a value that holds `vm` leaves when it fails:
/// nothing for a scalar or a refused value, a proper start of the literal
/// for a string or a time in range, and for an array or a document the
/// members written before the failure, the failing member's start, and no
/// closing token.
pub open spec fn partial_value(ts: Seq<Token>, vm: ValueModel, bound: nat) -> bool
    decreases bound, 0nat,
{
    match vm {
        ValueModel::String(s) => partial_string(ts, encode_utf8(s)),
        ValueModel::DateTime(ms) => if rfc3339_in_range(ms) {
            partial_string(ts, encode_utf8(rfc3339_of(ms)))
        } else {
            ts.len() == 0
        },
        ValueModel::Array(b) => b.len() < bound && partial_array(ts, array_items_of(b), b.len()),
        ValueModel::Document(b) => b.len() < bound && partial_object(ts, document_fields(b), b.len()),
        _ => ts.len() == 0,
    }
}

/// `p` is what a failed write of the array element at position `i` leaves:
/// nothing, or its opening mark followed by a failed or a complete value.
pub open spec fn partial_item(p: Seq<Token>, i: int, items: Seq<ValueModel>, bound: nat) -> bool
    decreases bound, 1nat,
{
    p.len() == 0 || (0 <= i < items.len() && p[0] == Token::BeginArrayValue(i == 0) && (
    partial_value(p.drop_first(), items[i], bound) || value_json(p.drop_first(), items[i], bound)))
}

/// `ts` is what a failed write of the array of `items` leaves: nothing, or
/// the opening token, the elements written before the failure, and what the
/// failing element left, with no closing token.
pub open spec fn partial_array(ts: Seq<Token>, items: Seq<ValueModel>, bound: nat) -> bool
    decreases bound, 2nat,
{
    ts.len() == 0 || exists|vs: Seq<Seq<Token>>|
        #![trigger flatten(array_items(vs))]
        vs.len() <= items.len() && (forall|i: int|
            0 <= i < vs.len() ==> value_json(#[trigger] vs[i], items[i], bound))
            && ts.len() >= 1int + flatten(array_items(vs)).len() && ts.take(
            1int + flatten(array_items(vs)).len(),
        ) == seq![Token::BeginArray] + flatten(array_items(vs)) && partial_item(
            ts.skip(1int + flatten(array_items(vs)).len()),
            vs.len() as int,
            items,
            bound,
        )
}

/// `p` is what a failed write of the object member at position `i`, with the
/// key `key` and a value that holds `vm`, leaves: nothing, or its opening
/// mark followed by a failed key, a complete key with the marks written so
/// far, or a complete key and a failed or complete value.
pub open spec fn partial_member_of(p: Seq<Token>, i: int, key: Seq<u8>, vm: ValueModel, bound: nat) -> bool
    decreases bound, 1nat,
{
    p.len() == 0 || (p[0] == Token::BeginObjectKey(i == 0) && (partial_string(p.drop_first(), key)
        || exists|k: Seq<Token>|
        #[trigger] string_json(k, key) && (p.drop_first() == k || p.drop_first() == k.push(
            Token::EndObjectKey,
        ) || (p.drop_first().len() >= k.len() + 2int && p.drop_first().take(k.len() + 2int) == k + seq![
            Token::EndObjectKey,
            Token::BeginObjectValue,
        ] && (partial_value(p.drop_first().skip(k.len() + 2int), vm, bound) || value_json(
            p.drop_first().skip(k.len() + 2int),
            vm,
            bound,
        ))))))
}

/// `p` is what a failed write of the member at position `i` of `fields` leaves.
pub open spec fn partial_member(p: Seq<Token>, i: int, fields: Seq<FieldModel>, bound: nat) -> bool
    decreases bound, 2nat,
{
    p.len() == 0 || (0 <= i < fields.len() && fields[i] is Entry && partial_member_of(
        p,
        i,
        encode_utf8(fields[i]->Entry_0),
        fields[i]->Entry_1,
        bound,
    ))
}

/// `ts` is what a failed write of the object of `fields` leaves: nothing, or
/// the opening token, the members written before the failure, and what the
/// failing member left, with no closing token.
pub open spec fn partial_object(ts: Seq<Token>, fields: Seq<FieldModel>, bound: nat) -> bool
    decreases bound, 3nat,
{
    ts.len() == 0 || exists|kvs: Seq<(Seq<Token>, Seq<Token>)>|
        #![trigger flatten(object_members(kvs))]
        kvs.len() <= fields.len() && (forall|i: int|
            0 <= i < kvs.len() ==> (#[trigger] fields[i]) is Entry && string_json(
                kvs[i].0,
                encode_utf8(fields[i]->Entry_0),
            ) && value_json(kvs[i].1, fields[i]->Entry_1, bound)) && ts.len() >= 1int + flatten(object_members(kvs)).len() && ts.take(1int + flatten(object_members(kvs)).len()) == seq![Token::BeginObject]
            + flatten(object_members(kvs)) && partial_member(
            ts.skip(1int + flatten(object_members(kvs)).len()),
            kvs.len() as int,
            fields,
            bound,
        )
}

/// A fault in the input that stops a traversal.
pub enum Fault {
    Unsupported(bson::spec::ElementType),
    Malformed,
    TimeOutOfRange,
}

/// The fault that an error reports, if the error comes from the input.
pub open spec fn fault_of(e: TraverseError) -> Option<Fault> {
    match e {
        TraverseError::UnexpectedBsonType(t) => Some(Fault::Unsupported(t)),
        TraverseError::BsonRawError(_) => Some(Fault::Malformed),
        TraverseError::BsonDatetimeError(_) => Some(Fault::TimeOutOfRange),
        TraverseError::IoError(_) => None,
    }
}

/// A value that holds `vm` has the fault `k`, itself or at any depth below.
pub open spec fn value_has(vm: ValueModel, bound: nat, k: Fault) -> bool
    decreases bound, 0nat,
{
    match vm {
        ValueModel::Other(t) => k == Fault::Unsupported(t),
        ValueModel::Malformed => k is Malformed,
        ValueModel::DateTime(ms) => k is TimeOutOfRange && !rfc3339_in_range(ms),
        ValueModel::Array(b) => b.len() < bound && items_have(array_items_of(b), b.len(), k),
        ValueModel::Document(b) => b.len() < bound && fields_have(document_fields(b), b.len(), k),
        _ => false,
    }
}

/// One of the values `items` has the fault `k`.
pub open spec fn items_have(items: Seq<ValueModel>, bound: nat, k: Fault) -> bool
    decreases bound, 2nat,
{
    exists|i: int| 0 <= i < items.len() && value_has(#[trigger] items[i], bound, k)
}

/// One of the fields `fields` is unreadable, where `k` is that fault, or
/// has a value with the fault `k`.
pub open spec fn fields_have(fields: Seq<FieldModel>, bound: nat, k: Fault) -> bool
    decreases bound, 2nat,
{
    exists|i: int|
        0 <= i < fields.len() && field_has(#[trigger] fields[i], bound, k)
}

/// The field `f` is unreadable, where `k` is that fault, or has a value
/// with the fault `k`.
pub open spec fn field_has(f: FieldModel, bound: nat, k: Fault) -> bool
    decreases bound, 1nat,
{
    match f {
        FieldModel::Malformed => k is Malformed,
        FieldModel::Entry(_, vm) => value_has(vm, bound, k),
    }
}

/// The byte length of a value's nested container, or zero.
pub open spec fn value_size(v: Value) -> nat {
    match v {
        Value::Array(a) => array_bytes(a).len(),
        Value::Document(d) => doc_bytes(d).len(),
        _ => 0,
    }
}

/// The errors that writing `v` can end in.
pub open spec fn error_allowed(v: Value, e: TraverseError) -> bool {
    match v {
        Value::Other(t) => e == TraverseError::UnexpectedBsonType(t),
        Value::DateTime(ms) => if rfc3339_in_range(ms) {
            e is IoError
        } else {
            e is BsonDatetimeError
        },
        Value::Array(_) => true,
        Value::Document(_) => true,
        _ => e is IoError,
    }
}

proof fn lemma_prefix_add(a: Seq<Token>, x: Seq<Token>)
    ensures
        is_prefix(a, a + x),
        added(a, a + x) == x,
{
    assert((a + x).subrange(0, a.len() as int) =~= a);
    assert(added(a, a + x) =~= x);
}

proof fn lemma_wrote_string_json(a: Seq<Token>, b: Seq<Token>, s: Seq<u8>)
    requires
        wrote_string(a, b, s),
    ensures
        string_json(added(a, b), s),
{
    let ps = choose|ps: Seq<StringPiece>| is_plan(ps, s) && b == a + #[trigger] string_tokens(ps, s);
    lemma_prefix_add(a, string_tokens(ps, s));
}

proof fn lemma_wrote_string_part(a: Seq<Token>, b: Seq<Token>, s: Seq<u8>)
    requires
        wrote_string_part(a, b, s),
    ensures
        is_prefix(a, b),
        partial_string(added(a, b), s),
{
    let (ps, k) = choose|ps: Seq<StringPiece>, k: int|
        is_plan(ps, s) && 0 <= k < string_tokens(ps, s).len() && b == a + #[trigger] string_tokens(ps, s).take(k);
    lemma_prefix_add(a, string_tokens(ps, s).take(k));
}

proof fn lemma_items_have(items: Seq<ValueModel>, i: int, bound: nat, k: Fault)
    requires
        0 <= i < items.len(),
        value_has(items[i], bound, k),
    ensures
        items_have(items, bound, k),
{
}

proof fn lemma_fields_have(fields: Seq<FieldModel>, i: int, bound: nat, k: Fault)
    requires
        0 <= i < fields.len(),
        field_has(fields[i], bound, k),
    ensures
        fields_have(fields, bound, k),
{
}

proof fn lemma_partial_array(
    t0: Seq<Token>,
    before: Seq<Token>,
    now: Seq<Token>,
    vs: Seq<Seq<Token>>,
    items: Seq<ValueModel>,
    bound: nat,
)
    requires
        before == t0.push(Token::BeginArray) + flatten(array_items(vs)),
        is_prefix(before, now),
        vs.len() <= items.len(),
        forall|i: int| 0 <= i < vs.len() ==> value_json(#[trigger] vs[i], items[i], bound),
        partial_item(added(before, now), vs.len() as int, items, bound),
    ensures
        partial_array(added(t0, now), items, bound),
{
    let f = flatten(array_items(vs));
    let ts = added(t0, now);
    assert(now.subrange(0, before.len() as int) == before);
    assert(now =~= before + added(before, now));
    assert(ts =~= seq![Token::BeginArray] + f + added(before, now));
    assert(ts.take(1int + f.len()) =~= seq![Token::BeginArray] + f);
    assert(ts.skip(1int + f.len()) =~= added(before, now));
}

proof fn lemma_item_started(
    before: Seq<Token>,
    t1: Seq<Token>,
    now: Seq<Token>,
    i: int,
    items: Seq<ValueModel>,
    bound: nat,
)
    requires
        t1 == before.push(Token::BeginArrayValue(i == 0)),
        is_prefix(t1, now),
        0 <= i < items.len(),
        partial_value(added(t1, now), items[i], bound) || value_json(added(t1, now), items[i], bound),
    ensures
        is_prefix(before, now),
        partial_item(added(before, now), i, items, bound),
{
    assert(now.subrange(0, t1.len() as int) == t1);
    assert(now =~= t1 + added(t1, now));
    assert(now.subrange(0, before.len() as int) =~= before);
    assert(added(before, now) =~= seq![Token::BeginArrayValue(i == 0)] + added(t1, now));
    assert(added(before, now).drop_first() =~= added(t1, now));
}

proof fn lemma_partial_object(
    t0: Seq<Token>,
    before: Seq<Token>,
    now: Seq<Token>,
    kvs: Seq<(Seq<Token>, Seq<Token>)>,
    fields: Seq<FieldModel>,
    bound: nat,
)
    requires
        before == t0.push(Token::BeginObject) + flatten(object_members(kvs)),
        is_prefix(before, now),
        kvs.len() <= fields.len(),
        forall|i: int|
            0 <= i < kvs.len() ==> (#[trigger] fields[i]) is Entry && string_json(
                kvs[i].0,
                encode_utf8(fields[i]->Entry_0),
            ) && value_json(kvs[i].1, fields[i]->Entry_1, bound),
        partial_member(added(before, now), kvs.len() as int, fields, bound),
    ensures
        partial_object(added(t0, now), fields, bound),
{
    let f = flatten(object_members(kvs));
    let ts = added(t0, now);
    assert(now.subrange(0, before.len() as int) == before);
    assert(now =~= before + added(before, now));
    assert(ts =~= seq![Token::BeginObject] + f + added(before, now));
    assert(ts.take(1int + f.len()) =~= seq![Token::BeginObject] + f);
    assert(ts.skip(1int + f.len()) =~= added(before, now));
}

proof fn lemma_member_key(
    t0: Seq<Token>,
    t1: Seq<Token>,
    t2: Seq<Token>,
    now: Seq<Token>,
    index: int,
    key: Seq<u8>,
    vm: ValueModel,
    bound: nat,
)
    requires
        t1 == t0.push(Token::BeginObjectKey(index == 0)),
        wrote_string(t1, t2, key),
        now == t2 || now == t2.push(Token::EndObjectKey),
    ensures
        is_prefix(t0, now),
        partial_member_of(added(t0, now), index, key, vm, bound),
{
    lemma_wrote_string_json(t1, t2, key);
    let k = added(t1, t2);
    assert(t2.subrange(0, t1.len() as int) == t1);
    assert(t2 =~= t1 + k);
    let p = added(t0, now);
    if now == t2 {
        assert(p =~= seq![Token::BeginObjectKey(index == 0)] + k);
        assert(p.drop_first() =~= k);
    } else {
        assert(p =~= seq![Token::BeginObjectKey(index == 0)] + k.push(Token::EndObjectKey));
        assert(p.drop_first() =~= k.push(Token::EndObjectKey));
    }
    assert(string_json(k, key));
    assert(now.subrange(0, t0.len() as int) =~= t0);
}

proof fn lemma_member_value(
    t0: Seq<Token>,
    t1: Seq<Token>,
    t2: Seq<Token>,
    t4: Seq<Token>,
    now: Seq<Token>,
    index: int,
    key: Seq<u8>,
    vm: ValueModel,
    bound: nat,
)
    requires
        t1 == t0.push(Token::BeginObjectKey(index == 0)),
        wrote_string(t1, t2, key),
        t4 == t2.push(Token::EndObjectKey).push(Token::BeginObjectValue),
        is_prefix(t4, now),
        partial_value(added(t4, now), vm, bound) || value_json(added(t4, now), vm, bound),
    ensures
        is_prefix(t0, now),
        partial_member_of(added(t0, now), index, key, vm, bound),
{
    lemma_wrote_string_json(t1, t2, key);
    let k = added(t1, t2);
    let q = added(t4, now);
    assert(t2.subrange(0, t1.len() as int) == t1);
    assert(t2 =~= t1 + k);
    assert(now.subrange(0, t4.len() as int) == t4);
    assert(now =~= t4 + q);
    let p = added(t0, now);
    assert(p =~= seq![Token::BeginObjectKey(index == 0)] + (k + seq![
        Token::EndObjectKey,
        Token::BeginObjectValue,
    ] + q));
    assert(p.drop_first() =~= k + seq![Token::EndObjectKey, Token::BeginObjectValue] + q);
    assert(p.drop_first().take(k.len() + 2int) =~= k + seq![Token::EndObjectKey, Token::BeginObjectValue]);
    assert(p.drop_first().skip(k.len() + 2int) =~= q);
    assert(string_json(k, key));
    assert(now.subrange(0, t0.len() as int) =~= t0);
}

proof fn lemma_value_size(v: Value, n: nat)
    requires
        crate::raw::nested_shorter(value_model(v), n),
    ensures
        value_size(v) < n,
{
    match v {
        Value::Array(_) => {},
        Value::Document(_) => {},
        _ => {},
    }
}

proof fn lemma_flatten_push(ss: Seq<Seq<Token>>, x: Seq<Token>)
    ensures
        flatten(ss.push(x)) == flatten(ss) + x,
{
    assert(ss.push(x).drop_last() =~= ss);
}

fn io(r: Result<(), std::io::Error>) -> (out: Result<(), TraverseError>)
    ensures
        out is Ok <==> r is Ok,
        r is Err ==> out == Err::<(), TraverseError>(TraverseError::IoError(r->Err_0)),
{
    match r {
        Ok(()) => Ok(()),
        Err(e) => Err(TraverseError::IoError(e)),
    }
}

/// Writes the JSON form of one value: a double, an integer, a boolean or
/// null as that token; a string as an escaped string literal; a UTC time as
/// its RFC 3339 text; an array or a document as the JSON array or object of
/// what bson reads from it. A value of any other type is refused, and
/// nothing is written for it.
pub fn traverse_value<'a, F: serde_json::ser::Formatter, W: std::io::Write>(
    value: Value<'a>,
    w: &mut JsonWriter<F, W>,
) -> (r: Result<(), TraverseError>)
    requires
        !old(w).refused(),
    ensures
        final(w).refused() == (r is Err && r->Err_0 is IoError),
        is_prefix(old(w).tokens(), final(w).tokens()),
        r is Ok ==> value_json(added(old(w).tokens(), final(w).tokens()), value_model(value), value_size(value) + 1),
        r is Err && fault_of(r->Err_0) is Some ==> value_has(value_model(value), value_size(value) + 1, fault_of(r->Err_0)->0),
        value is Other ==> r is Err && final(w).tokens() == old(w).tokens(),
        r is Err ==> error_allowed(value, r->Err_0),
        r is Err ==> partial_value(added(old(w).tokens(), final(w).tokens()), value_model(value), value_size(value) + 1),
{
    traverse_value_within(value, w, Ghost(value_size(value) + 1))
}

/// Writes the JSON form of one value whose nested container is shorter than `bound`.
fn traverse_value_within<'a, F: serde_json::ser::Formatter, W: std::io::Write>(
    value: Value<'a>,
    w: &mut JsonWriter<F, W>,
    bound: Ghost<nat>,
) -> (r: Result<(), TraverseError>)
    requires
        !old(w).refused(),
        value_size(value) < bound@,
    ensures
        final(w).refused() == (r is Err && r->Err_0 is IoError),
        is_prefix(old(w).tokens(), final(w).tokens()),
        r is Ok ==> value_json(added(old(w).tokens(), final(w).tokens()), value_model(value), bound@),
        r is Err && fault_of(r->Err_0) is Some ==> value_has(value_model(value), bound@, fault_of(r->Err_0)->0),
        value is Other ==> r is Err && final(w).tokens() == old(w).tokens(),
        r is Err ==> error_allowed(value, r->Err_0),
        r is Err ==> partial_value(added(old(w).tokens(), final(w).tokens()), value_model(value), bound@),
    decreases value_size(value), 2nat,
{
    let ghost t0 = w.tokens();
    let r = match value {
        Value::Double(ref raw) => io(w.write_double(raw)),
        Value::String(s) => io(w.write_string(s)),
        Value::Array(a) => traverse_array(a, w),
        Value::Document(d) => traverse_document_within(d, w),
        Value::Boolean(b) => io(w.write_bool(b)),
        Value::Null => io(w.write_null()),
        Value::Int32(n) => io(w.write_i32(n)),
        Value::Int64(n) => io(w.write_i64(n)),
        Value::DateTime(ms) => write_date_time(w, ms),
        Value::Other(t) => Err(TraverseError::UnexpectedBsonType(t)),
    };
    proof {
        assert(w.tokens().subrange(0, t0.len() as int) =~= t0);
        if r is Err {
            match value {
                Value::String(s) => lemma_wrote_string_part(t0, w.tokens(), s.spec_bytes()),
                Value::DateTime(ms) => {
                    if rfc3339_in_range(ms) {
                        lemma_wrote_string_part(t0, w.tokens(), encode_utf8(rfc3339_of(ms)));
                    } else {
                        assert(added(t0, w.tokens()) =~= Seq::<Token>::empty());
                    }
                },
                Value::Array(_) => {},
                Value::Document(_) => {},
                _ => {
                    assert(added(t0, w.tokens()) =~= Seq::<Token>::empty());
                },
            }
        }
        if r is Ok {
            match value {
                Value::String(s) => lemma_wrote_string_json(t0, w.tokens(), s.spec_bytes()),
                Value::DateTime(ms) => lemma_wrote_string_json(t0, w.tokens(), encode_utf8(rfc3339_of(ms))),
                Value::Array(_) => {},
                Value::Document(_) => {},
                _ => {
                    assert(added(t0, w.tokens()) =~= seq![w.tokens().last()]);
                },
            }
        }
    }
    r
}

/// Writes a UTC time as its RFC 3339 text, as a JSON string. A time outside
/// years 0 to 9999 fails before anything is written.
fn write_date_time<F: serde_json::ser::Formatter, W: std::io::Write>(
    w: &mut JsonWriter<F, W>,
    millis: i64,
) -> (r: Result<(), TraverseError>)
    requires
        !old(w).refused(),
    ensures
        final(w).refused() == (r is Err && r->Err_0 is IoError),
        is_prefix(old(w).tokens(), final(w).tokens()),
        r is Ok ==> wrote_string(old(w).tokens(), final(w).tokens(), encode_utf8(rfc3339_of(millis))),
        !rfc3339_in_range(millis) ==> r is Err && r->Err_0 is BsonDatetimeError
            && final(w).tokens() == old(w).tokens(),
        rfc3339_in_range(millis) && r is Err ==> r->Err_0 is IoError
            && wrote_string_part(old(w).tokens(), final(w).tokens(), encode_utf8(rfc3339_of(millis))),
{
    match rfc3339(millis) {
        Ok(text) => io(w.write_string(text.as_str())),
        Err(e) => {
            proof {
                assert(w.tokens().subrange(0, w.tokens().len() as int) =~= w.tokens());
            }
            Err(TraverseError::BsonDatetimeError(e))
        },
    }
}

/// Writes a raw array as the JSON array of its values, in order. It stops
/// at the first value that cannot be read or written.
fn traverse_array<'a, F: serde_json::ser::Formatter, W: std::io::Write>(
    array: &'a bson::RawArray,
    w: &mut JsonWriter<F, W>,
) -> (r: Result<(), TraverseError>)
    requires
        !old(w).refused(),
    ensures
        final(w).refused() == (r is Err && r->Err_0 is IoError),
        is_prefix(old(w).tokens(), final(w).tokens()),
        r is Ok ==> array_json(
            added(old(w).tokens(), final(w).tokens()),
            array_items_of(array_bytes(array)),
            array_bytes(array).len(),
        ),
        r is Err && fault_of(r->Err_0) is Some ==> items_have(
            array_items_of(array_bytes(array)),
            array_bytes(array).len(),
            fault_of(r->Err_0)->0,
        ),
        r is Err ==> partial_array(
            added(old(w).tokens(), final(w).tokens()),
            array_items_of(array_bytes(array)),
            array_bytes(array).len(),
        ),
    decreases array_bytes(array).len(), 1nat,
{
    let ghost t0 = w.tokens();
    let ghost n = array_bytes(array).len();
    let ghost items = array_items_of(array_bytes(array));
    let mut values = array_values(array);
    let step = io(w.begin_array());
    if step.is_err() {
        proof {
            assert(added(t0, w.tokens()) =~= Seq::<Token>::empty());
        }
        return step;
    }
    let ghost mut vs: Seq<Seq<Token>> = Seq::empty();
    proof {
        assert(flatten(array_items(vs)) =~= Seq::<Token>::empty());
        assert(w.tokens().subrange(0, t0.len() as int) =~= t0);
        assert(items.skip(0) =~= items);
    }
    let mut first = true;
    loop
        invariant_except_break
            values_left(&values) == items.skip(vs.len() as int),
        invariant
            !w.refused(),
            t0 == old(w).tokens(),
            n == array_bytes(array).len(),
            items == array_items_of(array_bytes(array)),
            w.tokens() == t0.push(Token::BeginArray) + flatten(array_items(vs)),
            is_prefix(t0, w.tokens()),
            first == (vs.len() == 0),
            vs.len() <= items.len(),
            forall|i: int| 0 <= i < items.len() ==> crate::raw::nested_shorter(#[trigger] items[i], n),
            forall|i: int| 0 <= i < vs.len() ==> value_json(#[trigger] vs[i], items[i], n),
        ensures
            vs.len() == items.len(),
        decreases values_left(&values).len(),
    {
        let ghost before = w.tokens();
        let ghost left = values_left(&values);
        match next_value(&mut values) {
            None => {
                proof {
                    assert(left.len() == 0);
                    assert(items.skip(vs.len() as int).len() == items.len() - vs.len());
                }
                break;
            },
            Some(Err(e)) => {
                proof {
                    assert(left.len() == items.len() - vs.len());
                    lemma_items_have(items, vs.len() as int, n, Fault::Malformed);
                    assert(added(before, w.tokens()) =~= Seq::<Token>::empty());
                    assert(w.tokens().subrange(0, before.len() as int) =~= before);
                    lemma_partial_array(t0, before, w.tokens(), vs, items, n);
                }
                return Err(TraverseError::BsonRawError(e));
            },
            Some(Ok(raw)) => {
                let step = io(w.begin_array_value(first));
                if step.is_err() {
                    proof {
                        assert(added(before, w.tokens()) =~= Seq::<Token>::empty());
                    assert(w.tokens().subrange(0, before.len() as int) =~= before);
                        lemma_partial_array(t0, before, w.tokens(), vs, items, n);
                    }
                    return step;
                }
                first = false;
                let ghost t1 = w.tokens();
                proof { lemma_prefix_trans(t0, before, t1); }
                let v = classify(raw);
                proof {
                    assert(left[0] == items[vs.len() as int]);
                    lemma_value_size(v, n);
                }
                let step = traverse_value_within(v, w, Ghost(n));
                if step.is_err() {
                    proof {
                        lemma_prefix_trans(t0, t1, w.tokens());
                        assert(left.len() == items.len() - vs.len());
                        if fault_of(step->Err_0) is Some {
                            lemma_items_have(items, vs.len() as int, n, fault_of(step->Err_0)->0);
                        }
                        lemma_item_started(before, t1, w.tokens(), vs.len() as int, items, n);
                        lemma_partial_array(t0, before, w.tokens(), vs, items, n);
                    }
                    return step;
                }
                let ghost t2 = w.tokens();
                proof { lemma_prefix_trans(t0, t1, t2); }
                let step = io(w.end_array_value());
                if step.is_err() {
                    proof {
                        lemma_prefix_trans(t0, t2, w.tokens());
                        lemma_prefix_trans(t1, t2, w.tokens());
                        assert(added(t1, w.tokens()) =~= added(t1, t2));
                        lemma_item_started(before, t1, w.tokens(), vs.len() as int, items, n);
                        lemma_partial_array(t0, before, w.tokens(), vs, items, n);
                    }
                    return step;
                }
                proof {
                    lemma_prefix_trans(t0, t2, w.tokens());
                    let item = added(t1, t2);
                    assert(t2 =~= t1 + item);
                    assert(array_items(vs.push(item)) =~= array_items(vs).push(
                        array_item(vs.len() as int, item),
                    ));
                    lemma_flatten_push(array_items(vs), array_item(vs.len() as int, item));
                    assert(w.tokens() =~= before + array_item(vs.len() as int, item));
                    assert(items.skip(vs.len() + 1int) =~= items.skip(vs.len() as int).drop_first());
                    vs = vs.push(item);
                }
            },
        }
    }
    let ghost before = w.tokens();
    let step = io(w.end_array());
    if step.is_err() {
        proof {
            assert(added(before, w.tokens()) =~= Seq::<Token>::empty());
                    assert(w.tokens().subrange(0, before.len() as int) =~= before);
            lemma_partial_array(t0, before, w.tokens(), vs, items, n);
            lemma_prefix_trans(t0, before, w.tokens());
        }
        return step;
    }
    proof {
        lemma_prefix_trans(t0, before, w.tokens());
        let ts = added(t0, w.tokens());
        let body = flatten(array_items(vs));
        assert(ts =~= seq![Token::BeginArray] + body + seq![Token::EndArray]);
        assert(ts.subrange(1, ts.len() - 1) =~= body);
        assert(array_json(ts, items, n));
    }
    Ok(())
}

/// Writes a raw document as the JSON object of its keys and values, in
/// order, duplicate keys included. It stops at the first element that
/// cannot be read or written.
fn traverse_document_within<'a, F: serde_json::ser::Formatter, W: std::io::Write>(
    document: &'a bson::RawDocument,
    w: &mut JsonWriter<F, W>,
) -> (r: Result<(), TraverseError>)
    requires
        !old(w).refused(),
    ensures
        final(w).refused() == (r is Err && r->Err_0 is IoError),
        is_prefix(old(w).tokens(), final(w).tokens()),
        r is Ok ==> object_json(
            added(old(w).tokens(), final(w).tokens()),
            document_fields(doc_bytes(document)),
            doc_bytes(document).len(),
        ),
        r is Err && fault_of(r->Err_0) is Some ==> fields_have(
            document_fields(doc_bytes(document)),
            doc_bytes(document).len(),
            fault_of(r->Err_0)->0,
        ),
        r is Err ==> partial_object(
            added(old(w).tokens(), final(w).tokens()),
            document_fields(doc_bytes(document)),
            doc_bytes(document).len(),
        ),
    decreases doc_bytes(document).len(), 1nat,
{
    let ghost t0 = w.tokens();
    let ghost n = doc_bytes(document).len();
    let ghost fields = document_fields(doc_bytes(document));
    let mut elements = document_elements(document);
    let step = io(w.begin_object());
    if step.is_err() {
        proof {
            assert(added(t0, w.tokens()) =~= Seq::<Token>::empty());
        }
        return step;
    }
    let ghost mut kvs: Seq<(Seq<Token>, Seq<Token>)> = Seq::empty();
    proof {
        assert(flatten(object_members(kvs)) =~= Seq::<Token>::empty());
        assert(w.tokens().subrange(0, t0.len() as int) =~= t0);
        assert(fields.skip(0) =~= fields);
    }
    let mut first = true;
    loop
        invariant_except_break
            fields_left(&elements) == fields.skip(kvs.len() as int),
        invariant
            !w.refused(),
            t0 == old(w).tokens(),
            n == doc_bytes(document).len(),
            fields == document_fields(doc_bytes(document)),
            w.tokens() == t0.push(Token::BeginObject) + flatten(object_members(kvs)),
            is_prefix(t0, w.tokens()),
            first == (kvs.len() == 0),
            kvs.len() <= fields.len(),
            forall|i: int| 0 <= i < fields.len() && (#[trigger] fields[i]) is Entry
                ==> crate::raw::nested_shorter(fields[i]->Entry_1, n),
            forall|i: int|
                0 <= i < kvs.len() ==> (#[trigger] fields[i]) is Entry && string_json(
                    kvs[i].0,
                    encode_utf8(fields[i]->Entry_0),
                ) && value_json(kvs[i].1, fields[i]->Entry_1, n),
        ensures
            kvs.len() == fields.len(),
        decreases fields_left(&elements).len(),
    {
        let ghost before = w.tokens();
        let ghost left = fields_left(&elements);
        match next_element(&mut elements) {
            None => {
                proof {
                    assert(left.len() == 0);
                    assert(fields.skip(kvs.len() as int).len() == fields.len() - kvs.len());
                }
                break;
            },
            Some(Err(e)) => {
                proof {
                    assert(left.len() == fields.len() - kvs.len());
                    lemma_fields_have(fields, kvs.len() as int, n, Fault::Malformed);
                    assert(added(before, w.tokens()) =~= Seq::<Token>::empty());
                    assert(w.tokens().subrange(0, before.len() as int) =~= before);
                    lemma_partial_object(t0, before, w.tokens(), kvs, fields, n);
                }
                return Err(TraverseError::BsonRawError(e));
            },
            Some(Ok(element)) => {
                let key = element_key(&element);
                let raw = match element_value(&element) {
                    Ok(raw) => raw,
                    Err(e) => {
                        proof {
                            assert(left[0] == fields[kvs.len() as int]);
                            assert(left.len() == fields.len() - kvs.len());
                            lemma_fields_have(fields, kvs.len() as int, n, Fault::Malformed);
                            assert(added(before, w.tokens()) =~= Seq::<Token>::empty());
                            assert(w.tokens().subrange(0, before.len() as int) =~= before);
                            lemma_partial_object(t0, before, w.tokens(), kvs, fields, n);
                        }
                        return Err(TraverseError::BsonRawError(e));
                    },
                };
                let v = classify(raw);
                proof {
                    let f = fields[kvs.len() as int];
                    assert(left[0] == f);
                    assert(f is Entry);
                    assert(value_model(v) == f->Entry_1);
                }
                let step = traverse_member(key, v, w, first, Ghost(kvs.len() as int), Ghost(n));
                if step.is_err() {
                    proof {
                        lemma_prefix_trans(t0, before, w.tokens());
                        assert(left.len() == fields.len() - kvs.len());
                        if fault_of(step->Err_0) is Some {
                            lemma_fields_have(fields, kvs.len() as int, n, fault_of(step->Err_0)->0);
                        }
                        assert(partial_member(added(before, w.tokens()), kvs.len() as int, fields, n));
                        lemma_partial_object(t0, before, w.tokens(), kvs, fields, n);
                    }
                    return step;
                }
                first = false;
                proof {
                    let kv = choose|kv: (Seq<Token>, Seq<Token>)|
                        w.tokens() == before + #[trigger] object_member(kvs.len() as int, kv)
                            && string_json(kv.0, key.spec_bytes()) && value_json(kv.1, value_model(v), n);
                    assert(object_members(kvs.push(kv)) =~= object_members(kvs).push(
                        object_member(kvs.len() as int, kv),
                    ));
                    lemma_flatten_push(object_members(kvs), object_member(kvs.len() as int, kv));
                    lemma_prefix_trans(t0, before, w.tokens());
                    assert(fields.skip(kvs.len() + 1int) =~= fields.skip(kvs.len() as int).drop_first());
                    kvs = kvs.push(kv);
                }
            },
        }
    }
    let ghost before = w.tokens();
    let step = io(w.end_object());
    if step.is_err() {
        proof {
            assert(added(before, w.tokens()) =~= Seq::<Token>::empty());
            assert(w.tokens().subrange(0, before.len() as int) =~= before);
            lemma_partial_object(t0, before, w.tokens(), kvs, fields, n);
            lemma_prefix_trans(t0, before, w.tokens());
        }
        return step;
    }
    proof {
        lemma_prefix_trans(t0, before, w.tokens());
        let ts = added(t0, w.tokens());
        let body = flatten(object_members(kvs));
        assert(ts =~= seq![Token::BeginObject] + body + seq![Token::EndObject]);
        assert(ts.subrange(1, ts.len() - 1) =~= body);
        assert(object_json(ts, fields, n));
    }
    Ok(())
}

/// Writes one member of an object: the key as a string literal, then the
/// value, each between the formatter's key and value marks.
fn traverse_member<'a, F: serde_json::ser::Formatter, W: std::io::Write>(
    key: &str,
    v: Value<'a>,
    w: &mut JsonWriter<F, W>,
    first: bool,
    index: Ghost<int>,
    bound: Ghost<nat>,
) -> (r: Result<(), TraverseError>)
    requires
        !old(w).refused(),
        first == (index@ == 0),
        crate::raw::nested_shorter(value_model(v), bound@),
    ensures
        final(w).refused() == (r is Err && r->Err_0 is IoError),
        is_prefix(old(w).tokens(), final(w).tokens()),
        r is Ok ==> exists|kv: (Seq<Token>, Seq<Token>)|
            final(w).tokens() == old(w).tokens() + #[trigger] object_member(index@, kv)
                && string_json(kv.0, key.spec_bytes()) && value_json(kv.1, value_model(v), bound@),
        r is Err && fault_of(r->Err_0) is Some ==> value_has(value_model(v), bound@, fault_of(r->Err_0)->0),
        r is Err ==> partial_member_of(
            added(old(w).tokens(), final(w).tokens()),
            index@,
            key.spec_bytes(),
            value_model(v),
            bound@,
        ),
    decreases value_size(v), 3nat,
{
    let ghost t0 = w.tokens();
    let step = io(w.begin_object_key(first));
    if step.is_err() {
        proof {
            assert(added(t0, w.tokens()) =~= Seq::<Token>::empty());
        }
        return step;
    }
    let ghost t1 = w.tokens();
    let step = io(w.write_string(key));
    if step.is_err() {
        proof {
            lemma_prefix_trans(t0, t1, w.tokens());
            lemma_wrote_string_part(t1, w.tokens(), key.spec_bytes());
            let p = added(t0, w.tokens());
            assert(w.tokens().subrange(0, t1.len() as int) == t1);
            assert(w.tokens() =~= t1 + added(t1, w.tokens()));
            assert(p =~= seq![Token::BeginObjectKey(index@ == 0)] + added(t1, w.tokens()));
            assert(p.drop_first() =~= added(t1, w.tokens()));
        }
        return step;
    }
    let ghost t2 = w.tokens();
    proof { lemma_prefix_trans(t0, t1, t2); }
    let step = io(w.end_object_key());
    if step.is_err() {
        proof {
            lemma_member_key(t0, t1, t2, w.tokens(), index@, key.spec_bytes(), value_model(v), bound@);
        }
        return step;
    }
    let ghost t3 = w.tokens();
    proof { lemma_prefix_trans(t0, t2, t3); }
    let step = io(w.begin_object_value());
    if step.is_err() {
        proof {
            lemma_member_key(t0, t1, t2, w.tokens(), index@, key.spec_bytes(), value_model(v), bound@);
        }
        return step;
    }
    let ghost t4 = w.tokens();
    proof {
        lemma_prefix_trans(t0, t3, t4);
        lemma_value_size(v, bound@);
    }
    let step = traverse_value_within(v, w, bound);
    if step.is_err() {
        proof {
            lemma_member_value(t0, t1, t2, t4, w.tokens(), index@, key.spec_bytes(), value_model(v), bound@);
        }
        return step;
    }
    let ghost t5 = w.tokens();
    proof { lemma_prefix_trans(t0, t4, t5); }
    let step = io(w.end_object_value());
    proof { lemma_prefix_trans(t0, t5, w.tokens()); }
    if step.is_err() {
        proof {
            assert(added(t4, w.tokens()) =~= added(t4, t5));
            lemma_member_value(t0, t1, t2, t4, w.tokens(), index@, key.spec_bytes(), value_model(v), bound@);
        }
        return step;
    }
    proof {
        lemma_wrote_string_json(t1, t2, key.spec_bytes());
        let k = added(t1, t2);
        let val = added(t4, t5);
        assert(t2 =~= t1 + k);
        assert(t5 =~= t4 + val);
        let kv = (k, val);
        assert(w.tokens() =~= t0 + object_member(index@, kv));
    }
    Ok(())
}

/// Writes a raw document as the JSON object of its keys and values, in
/// order, streaming each element to the writer as it is read. The walk
/// stops at the first error: a value with no JSON form, an element that
/// cannot be read, a time out of range, or a failed write.
pub fn traverse_document<F: serde_json::ser::Formatter, W: std::io::Write>(
    document: &bson::RawDocument,
    w: &mut JsonWriter<F, W>,
) -> (r: Result<(), TraverseError>)
    requires
        !old(w).refused(),
    ensures
        final(w).refused() == (r is Err && r->Err_0 is IoError),
        is_prefix(old(w).tokens(), final(w).tokens()),
        r is Ok ==> object_json(
            added(old(w).tokens(), final(w).tokens()),
            document_fields(doc_bytes(document)),
            doc_bytes(document).len(),
        ),
        r is Err && fault_of(r->Err_0) is Some ==> fields_have(
            document_fields(doc_bytes(document)),
            doc_bytes(document).len(),
            fault_of(r->Err_0)->0,
        ),
        r is Err ==> partial_object(
            added(old(w).tokens(), final(w).tokens()),
            document_fields(doc_bytes(document)),
            doc_bytes(document).len(),
        ),
{
    traverse_document_within(document, w)
}

} // verus!
