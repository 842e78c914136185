//! The parts of bson's borrowed raw views that the traversal reads, and the
//! library's own view of one value.
use vstd::prelude::*;

verus! {

#[verifier::external_type_specification]
#[verifier::external_body]
pub struct ExRawDocument(bson::RawDocument);

#[verifier::external_type_specification]
#[verifier::external_body]
pub struct ExRawArray(bson::RawArray);

#[verifier::external_type_specification]
#[verifier::external_body]
pub struct ExRawBsonRef<'a>(bson::RawBsonRef<'a>);

#[verifier::external_type_specification]
#[verifier::external_body]
pub struct ExRawIter<'a>(bson::raw::RawIter<'a>);

#[verifier::external_type_specification]
#[verifier::external_body]
pub struct ExRawArrayIter<'a>(bson::raw::RawArrayIter<'a>);

#[verifier::external_type_specification]
#[verifier::external_body]
pub struct ExRawElement<'a>(bson::raw::RawElement<'a>);

#[verifier::external_type_specification]
#[verifier::external_body]
pub struct ExRawError(bson::raw::Error);

#[verifier::external_type_specification]
#[verifier::external_body]
pub struct ExDatetimeError(bson::datetime::Error);

#[verifier::external_type_specification]
#[verifier::external_body]
pub struct ExElementType(bson::spec::ElementType);

/// A raw double value, kept as bson gave it so that the formatter writes
/// the number itself. Only `classify` makes one, from a double.
pub struct DoubleRef<'a> {
    raw: bson::RawBsonRef<'a>,
}

/// What the traversal reads from one raw value.
pub enum Value<'a> {
    Double(DoubleRef<'a>),
    String(&'a str),
    Array(&'a bson::RawArray),
    Document(&'a bson::RawDocument),
    Boolean(bool),
    Null,
    Int32(i32),
    Int64(i64),
    /// Milliseconds since the Unix epoch.
    DateTime(i64),
    /// A value of a type that has no JSON form.
    Other(bson::spec::ElementType),
}

/// The RFC 3339 text of a UTC time given in milliseconds since the epoch.
pub uninterp spec fn rfc3339_of(millis: i64) -> Seq<char>;

/// The first millisecond of year 0 and the last one of year 9999: the times
/// that have RFC 3339 text.
pub open spec fn rfc3339_in_range(millis: i64) -> bool {
    -62167219200000 <= millis <= 253402300799999
}

/// What one value of a raw view holds, as plain values. A nested array or
/// document is given by its bytes.
pub enum ValueModel {
    Double,
    String(Seq<char>),
    Array(Seq<u8>),
    Document(Seq<u8>),
    Boolean(bool),
    Null,
    Int32(i32),
    Int64(i64),
    DateTime(i64),
    /// A value of a type that has no JSON form, with its type tag.
    Other(bson::spec::ElementType),
    Malformed,
}

/// What one step over a document's elements yields: a key and its value,
/// or an element that could not be read.
pub enum FieldModel {
    Entry(Seq<char>, ValueModel),
    Malformed,
}

/// The bytes of a raw document.
pub uninterp spec fn doc_bytes(d: &bson::RawDocument) -> Seq<u8>;

/// The bytes of a raw array.
pub uninterp spec fn array_bytes(a: &bson::RawArray) -> Seq<u8>;

/// The fields that bson's iterator yields, in order, for the document with
/// these bytes.
pub uninterp spec fn document_fields(bytes: Seq<u8>) -> Seq<FieldModel>;

/// The values that bson's iterator yields, in order, for the array with
/// these bytes; one that cannot be read is `Malformed`.
pub uninterp spec fn array_items_of(bytes: Seq<u8>) -> Seq<ValueModel>;

/// The fields that an iterator over a document has still to yield.
pub uninterp spec fn fields_left(it: &bson::raw::RawIter) -> Seq<FieldModel>;

/// The values that an iterator over an array has still to yield.
pub uninterp spec fn values_left(it: &bson::raw::RawArrayIter) -> Seq<ValueModel>;

/// The field that one element of a document stands for.
pub uninterp spec fn element_model(e: &bson::raw::RawElement) -> FieldModel;

/// What one raw value holds.
pub uninterp spec fn raw_value_model(v: bson::RawBsonRef) -> ValueModel;

/// `vm` stands in a container of `n` bytes, which holds at least its own
/// length prefix: a nested array or document of `vm` is shorter.
pub open spec fn nested_shorter(vm: ValueModel, n: nat) -> bool {
    0 < n && match vm {
        ValueModel::Array(b) => b.len() < n,
        ValueModel::Document(b) => b.len() < n,
        _ => true,
    }
}

/// What a classified value holds.
pub open spec fn value_model(v: Value) -> ValueModel {
    match v {
        Value::Double(_) => ValueModel::Double,
        Value::String(s) => ValueModel::String(s@),
        Value::Array(a) => ValueModel::Array(array_bytes(a)),
        Value::Document(d) => ValueModel::Document(doc_bytes(d)),
        Value::Boolean(b) => ValueModel::Boolean(b),
        Value::Null => ValueModel::Null,
        Value::Int32(n) => ValueModel::Int32(n),
        Value::Int64(n) => ValueModel::Int64(n),
        Value::DateTime(ms) => ValueModel::DateTime(ms),
        Value::Other(t) => ValueModel::Other(t),
    }
}

/// Relies on bson's `RawBsonRef` variants and `RawBsonRef::element_type`:
/// each variant is moved into the one of the same name, the rest keep only
/// their type tag.
#[verifier::external_body]
pub(crate) fn classify<'a>(v: bson::RawBsonRef<'a>) -> (r: Value<'a>)
    ensures
        value_model(r) == raw_value_model(v),
{
    match v {
        bson::RawBsonRef::Double(_) => Value::Double(DoubleRef { raw: v }),
        bson::RawBsonRef::String(s) => Value::String(s),
        bson::RawBsonRef::Array(a) => Value::Array(a),
        bson::RawBsonRef::Document(d) => Value::Document(d),
        bson::RawBsonRef::Boolean(b) => Value::Boolean(b),
        bson::RawBsonRef::Null => Value::Null,
        bson::RawBsonRef::Int32(n) => Value::Int32(n),
        bson::RawBsonRef::Int64(n) => Value::Int64(n),
        bson::RawBsonRef::DateTime(dt) => Value::DateTime(dt.timestamp_millis()),
        other => Value::Other(other.element_type()),
    }
}

/// Relies on bson's `RawBsonRef::as_f64` and serde_json's
/// `Formatter::write_f64`: writes the number that the double holds.
#[verifier::external_body]
pub(crate) fn fmt_write_double<F: serde_json::ser::Formatter, W: std::io::Write>(
    f: &mut F,
    w: &mut W,
    d: &DoubleRef,
) -> Result<(), std::io::Error> {
    match d.raw.as_f64() {
        Some(x) => f.write_f64(w, x),
        None => Ok(()),
    }
}

/// Relies on bson's `DateTime::from_millis` and
/// `DateTime::try_to_rfc3339_string`: the RFC 3339 text of the time, which
/// depends on the milliseconds alone, or the error of a failed formatting.
#[verifier::external_body]
pub(crate) fn rfc3339(millis: i64) -> (r: Result<String, bson::datetime::Error>)
    ensures
        r is Ok <==> rfc3339_in_range(millis),
        r is Ok ==> r->Ok_0@ == rfc3339_of(millis),
{
    bson::DateTime::from_millis(millis).try_to_rfc3339_string()
}

/// Relies on bson's `RawDocument::iter_elements`: an iterator over the
/// document's elements in the order they are stored. A nested array or
/// document is a part of this one's bytes after its length prefix, so it is
/// shorter.
#[verifier::external_body]
pub(crate) fn document_elements<'a>(d: &'a bson::RawDocument) -> (r: bson::raw::RawIter<'a>)
    ensures
        fields_left(&r) == document_fields(doc_bytes(d)),
        forall|i: int|
            0 <= i < fields_left(&r).len() && (#[trigger] fields_left(&r)[i]) is Entry
                ==> nested_shorter(fields_left(&r)[i]->Entry_1, doc_bytes(d).len()),
{
    d.iter_elements()
}

/// Relies on `Iterator::next` of bson's `RawIter`: the next element, or an
/// error where the encoding is malformed.
#[verifier::external_body]
pub(crate) fn next_element<'a>(it: &mut bson::raw::RawIter<'a>) -> (r: Option<Result<bson::raw::RawElement<'a>, bson::raw::Error>>)
    ensures
        fields_left(old(it)).len() == 0 ==> r is None,
        fields_left(old(it)).len() > 0 && fields_left(old(it))[0] is Malformed ==> r matches Some(Err(_)),
        fields_left(old(it)).len() > 0 && fields_left(old(it))[0] is Entry ==> (r matches Some(Ok(e))
            && element_model(&e) == fields_left(old(it))[0]
            && fields_left(final(it)) == fields_left(old(it)).drop_first()),
{
    it.next()
}

/// Relies on bson's `RawElement::key`.
#[verifier::external_body]
pub(crate) fn element_key<'a>(e: &bson::raw::RawElement<'a>) -> (r: &'a str)
    ensures
        element_model(e) is Entry ==> r@ == element_model(e)->Entry_0,
{
    e.key()
}

/// Relies on bson's `RawElement::value`: the element's value, or an error
/// where it is malformed.
#[verifier::external_body]
pub(crate) fn element_value<'a>(e: &bson::raw::RawElement<'a>) -> (r: Result<bson::RawBsonRef<'a>, bson::raw::Error>)
    ensures
        element_model(e) is Entry ==> (r is Err <==> element_model(e)->Entry_1 is Malformed),
        element_model(e) is Entry && r is Ok ==> raw_value_model(r->Ok_0) == element_model(e)->Entry_1,
{
    e.value()
}

/// Relies on `IntoIterator` for bson's `&RawArray`: an iterator over the
/// array's values in order. A nested array or document is a part of this
/// one's bytes after its length prefix, so it is shorter.
#[verifier::external_body]
pub(crate) fn array_values<'a>(a: &'a bson::RawArray) -> (r: bson::raw::RawArrayIter<'a>)
    ensures
        values_left(&r) == array_items_of(array_bytes(a)),
        forall|i: int|
            0 <= i < values_left(&r).len() ==> nested_shorter(
                #[trigger] values_left(&r)[i],
                array_bytes(a).len(),
            ),
{
    a.into_iter()
}

/// Relies on `Iterator::next` of bson's `RawArrayIter`: the next value, or
/// an error where the encoding is malformed.
#[verifier::external_body]
pub(crate) fn next_value<'a>(it: &mut bson::raw::RawArrayIter<'a>) -> (r: Option<Result<bson::RawBsonRef<'a>, bson::raw::Error>>)
    ensures
        values_left(old(it)).len() == 0 ==> r is None,
        values_left(old(it)).len() > 0 && values_left(old(it))[0] is Malformed ==> r matches Some(Err(_)),
        values_left(old(it)).len() > 0 && !(values_left(old(it))[0] is Malformed) ==> (r matches Some(Ok(v))
            && raw_value_model(v) == values_left(old(it))[0]
            && values_left(final(it)) == values_left(old(it)).drop_first()),
{
    it.next()
}

} // verus!
