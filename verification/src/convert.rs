//! Values to CBOR data and back.

use vstd::prelude::*;
use crate::cbor::{
    Data, data_view, data_views, DataView, is_geometry_tag, lemma_array_view, lemma_dict_view,
    pair_views, TAG_DATETIME, TAG_DECIMAL, TAG_DURATION, TAG_GEOMETRY_COLLECTION, TAG_GEOMETRY_LINE,
    TAG_GEOMETRY_MULTILINE, TAG_GEOMETRY_MULTIPOINT, TAG_GEOMETRY_MULTIPOLYGON, TAG_GEOMETRY_POINT,
    TAG_GEOMETRY_POLYGON, TAG_NONE, TAG_RECORDID, TAG_TABLE, TAG_UUID,
};
use crate::geometry::{coordinate_data, geometry_data, members_data, ShapeView};
use crate::grammar::{
    all_digits, datetime_text, decimal_text, duration_text, is_datetime, is_decimal, is_digits,
    is_duration,
};
use crate::ident::{Uuid, uuid_parsed, uuid_text};
use crate::seqs::{find_first, lemma_find_first_is, lemma_find_first_none};
use crate::text::{
    before, decimal, is_plain_name, plain_name, push_signed, signed_decimal, text_before,
};
use crate::value::{
    field_views, Id, IdView, lemma_fields_views, lemma_list_views, Number, NumberView, Thing,
    ThingView, Value, value_view, value_views, ValueView,
};

verus! {

/// Why a conversion failed.
#[derive(Clone, Copy, Debug, PartialEq, Eq, Structural)]
pub enum CborError {
    /// A tag that marks a value that is written as text stands before
    /// something else.
    ExpectedText,
    /// The text behind the datetime tag is no datetime.
    ExpectedDatetime,
    /// The text behind the UUID tag is no UUID.
    ExpectedUuid,
    /// The text behind the decimal tag is no decimal number.
    ExpectedDecimal,
    /// The text behind the duration tag is no duration.
    ExpectedDuration,
    /// The text behind the record id tag is no record id.
    ExpectedRecordId,
    /// The array behind the record id tag does not hold a table name and an id.
    ExpectedRecordIdParts,
    /// Behind the record id tag stands neither a text nor an array of two items.
    ExpectedRecordIdShape,
    /// The key of a map is a value that has no text of its own: a
    /// floating-point number, bytes, a list, an object, a record id, a table
    /// name, a geometry or an expression.
    ExpectedKey,
    /// Behind the point tag stands something else than two numbers.
    ExpectedPointValues,
    /// Where points are expected stands something else.
    ExpectedPoints,
    /// Behind the polygon tag stand fewer than two lines.
    ExpectedTwoLines,
    /// Where lines are expected stands something else.
    ExpectedLines,
    /// Where polygons are expected stands something else.
    ExpectedPolygons,
    /// Where geometries are expected stands something else.
    ExpectedGeometries,
    /// The tag is not known.
    UnknownTag,
    /// A record id that is still to be generated cannot be written.
    Ungenerated,
    /// The value is an expression, which cannot be written.
    Unsupported,
}

/// The message of each error.
pub open spec fn message_of(e: CborError) -> Seq<char> {
    match e {
        CborError::ExpectedText => "Expected a CBOR text data type"@,
        CborError::ExpectedDatetime => "Expected a valid Datetime value"@,
        CborError::ExpectedUuid => "Expected a valid UUID value"@,
        CborError::ExpectedDecimal => "Expected a valid Decimal value"@,
        CborError::ExpectedDuration => "Expected a valid Duration value"@,
        CborError::ExpectedRecordId => "Expected a valid RecordID value"@,
        CborError::ExpectedRecordIdParts =>
            "Expected a CBOR array with 2 elements, a text data type, and a valid ID type"@,
        CborError::ExpectedRecordIdShape =>
            "Expected a CBOR text data type, or a CBOR array with 2 elements"@,
        CborError::ExpectedKey => "Expected a CBOR map key that can be written as text"@,
        CborError::ExpectedPointValues => "Expected a CBOR array with 2 decimal values"@,
        CborError::ExpectedPoints => "Expected a CBOR array with Geometry Point values"@,
        CborError::ExpectedTwoLines =>
            "Expected a CBOR array with at least two Geometry Line values"@,
        CborError::ExpectedLines => "Expected a CBOR array with Geometry Line values"@,
        CborError::ExpectedPolygons => "Expected a CBOR array with Geometry Polygon values"@,
        CborError::ExpectedGeometries => "Expected a CBOR array with Geometry values"@,
        CborError::UnknownTag => "Encountered an unknown CBOR tag"@,
        CborError::Ungenerated => "Cannot encode an ungenerated Record ID into CBOR"@,
        CborError::Unsupported =>
            "Found unsupported SurrealQL value being encoded into a CBOR value"@,
    }
}

impl CborError {
    /// The message of the error.
    pub fn message(&self) -> (text: &'static str)
        ensures
            text@ == message_of(*self),
    {
        match self {
            CborError::ExpectedText => "Expected a CBOR text data type",
            CborError::ExpectedDatetime => "Expected a valid Datetime value",
            CborError::ExpectedUuid => "Expected a valid UUID value",
            CborError::ExpectedDecimal => "Expected a valid Decimal value",
            CborError::ExpectedDuration => "Expected a valid Duration value",
            CborError::ExpectedRecordId => "Expected a valid RecordID value",
            CborError::ExpectedRecordIdParts =>
                "Expected a CBOR array with 2 elements, a text data type, and a valid ID type",
            CborError::ExpectedRecordIdShape =>
                "Expected a CBOR text data type, or a CBOR array with 2 elements",
            CborError::ExpectedKey => "Expected a CBOR map key that can be written as text",
            CborError::ExpectedPointValues => "Expected a CBOR array with 2 decimal values",
            CborError::ExpectedPoints => "Expected a CBOR array with Geometry Point values",
            CborError::ExpectedTwoLines =>
                "Expected a CBOR array with at least two Geometry Line values",
            CborError::ExpectedLines => "Expected a CBOR array with Geometry Line values",
            CborError::ExpectedPolygons => "Expected a CBOR array with Geometry Polygon values",
            CborError::ExpectedGeometries => "Expected a CBOR array with Geometry values",
            CborError::UnknownTag => "Encountered an unknown CBOR tag",
            CborError::Ungenerated => "Cannot encode an ungenerated Record ID into CBOR",
            CborError::Unsupported =>
                "Found unsupported SurrealQL value being encoded into a CBOR value",
        }
    }
}

/// The value of a CBOR integer: a whole number where it fits 64 bits, a
/// decimal number with the same digits where it does not.
pub open spec fn integer_value(i: i128) -> ValueView {
    if i64::MIN <= i <= i64::MAX {
        ValueView::Number(NumberView::Int(i as i64))
    } else {
        ValueView::Number(NumberView::Decimal(signed_decimal(i as int)))
    }
}

/// The name that a value gives to a field when it stands as the key of a
/// map: a string names the field by its text, a whole number by its digits,
/// a truth value by `true` or `false`, the null value by `NULL`, the value
/// that stands for no value by `NONE`, and a decimal, a duration, a
/// datetime and a UUID each by the text that it is written as.
pub open spec fn key_of(v: ValueView) -> Option<Seq<char>> {
    match v {
        ValueView::Strand(s) => Some(s),
        ValueView::Number(NumberView::Int(i)) => Some(signed_decimal(i as int)),
        ValueView::Bool(b) => Some(
            if b {
                "true"@
            } else {
                "false"@
            },
        ),
        ValueView::Null => Some("NULL"@),
        ValueView::Absent => Some("NONE"@),
        ValueView::Number(NumberView::Decimal(t)) => Some(t),
        ValueView::Duration(t) => Some(t),
        ValueView::Datetime(t) => Some(t),
        ValueView::Uuid(u) => Some(uuid_text(u.0)),
        _ => None,
    }
}

/// Selects the fields whose name does not stand before `name`.
pub open spec fn not_before(name: Seq<char>) -> spec_fn((Seq<char>, ValueView)) -> bool {
    |f: (Seq<char>, ValueView)| !text_before(f.0, name)
}

/// The fields with the value `v` under `name`: in the place of the field of
/// that name where there is one, else before the first field whose name
/// does not stand before `name`, which keeps fields in the order of their
/// names.
pub open spec fn put_field(fields: Seq<(Seq<char>, ValueView)>, name: Seq<char>, v: ValueView) -> Seq<
    (Seq<char>, ValueView),
> {
    match find_first(fields, not_before(name)) {
        Some(i) => if fields[i].0 == name {
            fields.update(i, (name, v))
        } else {
            fields.insert(i, (name, v))
        },
        None => fields.push((name, v)),
    }
}

/// Whether the fields stand in the order of their names, no name twice.
pub open spec fn sorted_fields(fields: Seq<(Seq<char>, ValueView)>) -> bool {
    forall|i: int, j: int|
        0 <= i < j < fields.len() ==> text_before(
            (#[trigger] fields[i]).0,
            (#[trigger] fields[j]).0,
        )
}

/// The value written behind a tag that marks a value that is written as text.
pub open spec fn tagged_text(inner: DataView) -> Result<Seq<char>, CborError> {
    match inner {
        DataView::Text(t) => Ok(t),
        _ => Err(CborError::ExpectedText),
    }
}

/// Selects the colon.
pub open spec fn is_colon() -> spec_fn(char) -> bool {
    |c: char| c == ':'
}

/// The number that decimal digits denote.
pub open spec fn digits_value(text: Seq<char>) -> nat
    decreases text.len(),
{
    if text.len() == 0 {
        0
    } else {
        (digits_value(text.drop_last()) * 10 + (text.last() as nat - 48)) as nat
    }
}

/// The record id that a text denotes: the name of the table, a colon, and
/// the id, which is a whole number that fits 64 bits or a name. Both names
/// are plain: letters, digits and underscores, not starting with a digit.
pub open spec fn record_id_of(text: Seq<char>) -> Option<ThingView> {
    match find_first(text, is_colon()) {
        None => None,
        Some(i) => {
            let tb = text.take(i);
            let id = text.skip(i + 1);
            if !is_plain_name(tb) {
                None
            } else if is_digits(id) {
                if digits_value(id) <= i64::MAX {
                    Some(ThingView { tb, id: IdView::Number(digits_value(id) as i64) })
                } else {
                    None
                }
            } else if is_plain_name(id) {
                Some(ThingView { tb, id: IdView::String(id) })
            } else {
                None
            }
        },
    }
}

/// The value that a piece of CBOR data denotes.
///
/// Null, truth values, floating-point numbers, bytes and texts denote
/// themselves, an integer a number, an array the list of what its items
/// denote, a map the object of what its pairs denote, a later pair of a name
/// taking the place of an earlier one. A tag marks what follows it as a
/// datetime, a UUID, a decimal, a duration, a record id or a table name, or
/// as the value that stands for no value. What a geometry tag marks is kept
/// as it is, if it describes a geometry. The first item that denotes
/// nothing makes the whole denote nothing, for the reason of that item.
pub open spec fn decoded(d: DataView) -> Result<ValueView, CborError>
    decreases d,
{
    match d {
        DataView::Null => Ok(ValueView::Null),
        DataView::Bool(b) => Ok(ValueView::Bool(b)),
        DataView::Integer(i) => Ok(integer_value(i)),
        DataView::Float(bits) => Ok(ValueView::Number(NumberView::Float(bits))),
        DataView::Bytes(bytes) => Ok(ValueView::Bytes(bytes)),
        DataView::Text(t) => Ok(ValueView::Strand(t)),
        DataView::Array(items) => match decoded_list(items) {
            Ok(values) => Ok(ValueView::Array(values)),
            Err(e) => Err(e),
        },
        DataView::Dict(pairs) => match decoded_fields(pairs) {
            Ok(fields) => Ok(ValueView::Object(fields)),
            Err(e) => Err(e),
        },
        DataView::Tag(tag, inner) => if tag == TAG_NONE {
            Ok(ValueView::Absent)
        } else if tag == TAG_DATETIME {
            match tagged_text(*inner) {
                Ok(t) => if is_datetime(t) {
                    Ok(ValueView::Datetime(t))
                } else {
                    Err(CborError::ExpectedDatetime)
                },
                Err(e) => Err(e),
            }
        } else if tag == TAG_UUID {
            match tagged_text(*inner) {
                Ok(t) => match uuid_parsed(t) {
                    Some(bits) => Ok(ValueView::Uuid(Uuid(bits))),
                    None => Err(CborError::ExpectedUuid),
                },
                Err(e) => Err(e),
            }
        } else if tag == TAG_DECIMAL {
            match tagged_text(*inner) {
                Ok(t) => if is_decimal(t) {
                    Ok(ValueView::Number(NumberView::Decimal(t)))
                } else {
                    Err(CborError::ExpectedDecimal)
                },
                Err(e) => Err(e),
            }
        } else if tag == TAG_DURATION {
            match tagged_text(*inner) {
                Ok(t) => if is_duration(t) {
                    Ok(ValueView::Duration(t))
                } else {
                    Err(CborError::ExpectedDuration)
                },
                Err(e) => Err(e),
            }
        } else if tag == TAG_TABLE {
            match tagged_text(*inner) {
                Ok(t) => Ok(ValueView::Table(t)),
                Err(e) => Err(e),
            }
        } else if tag == TAG_RECORDID {
            match *inner {
                DataView::Text(t) => match record_id_of(t) {
                    Some(thing) => Ok(ValueView::Thing(Box::new(thing))),
                    None => Err(CborError::ExpectedRecordId),
                },
                DataView::Array(parts) => if parts.len() != 2 {
                    Err(CborError::ExpectedRecordIdShape)
                } else {
                    match (parts[0], parts[1]) {
                        (DataView::Text(tb), DataView::Text(id)) => Ok(
                            ValueView::Thing(Box::new(ThingView { tb, id: IdView::String(id) })),
                        ),
                        (DataView::Text(tb), DataView::Integer(id)) => Ok(
                            ValueView::Thing(
                                Box::new(ThingView { tb, id: IdView::Number(id as i64) }),
                            ),
                        ),
                        (DataView::Text(tb), DataView::Array(ids)) => match decoded_list(ids) {
                            Ok(values) => Ok(
                                ValueView::Thing(
                                    Box::new(ThingView { tb, id: IdView::Array(values) }),
                                ),
                            ),
                            Err(e) => Err(e),
                        },
                        (DataView::Text(tb), DataView::Dict(ids)) => match decoded_fields(ids) {
                            Ok(fields) => Ok(
                                ValueView::Thing(
                                    Box::new(ThingView { tb, id: IdView::Object(fields) }),
                                ),
                            ),
                            Err(e) => Err(e),
                        },
                        _ => Err(CborError::ExpectedRecordIdParts),
                    }
                },
                _ => Err(CborError::ExpectedRecordIdShape),
            }
        } else if is_geometry_tag(tag) {
            match geometry_fault(tag, *inner) {
                None => Ok(ValueView::Geometry(d)),
                Some(e) => Err(e),
            }
        } else {
            Err(CborError::UnknownTag)
        },
    }
}

/// The error for what stands behind a geometry tag and is no array (for a
/// polygon: no array of two items or more).
pub open spec fn shape_error(tag: u64) -> CborError {
    if tag == TAG_GEOMETRY_POLYGON {
        CborError::ExpectedTwoLines
    } else if tag == TAG_GEOMETRY_MULTIPOLYGON {
        CborError::ExpectedPolygons
    } else if tag == TAG_GEOMETRY_COLLECTION {
        CborError::ExpectedGeometries
    } else {
        CborError::ExpectedPoints
    }
}

/// The tag of the geometries that a geometry of tag `tag` is made of:
/// a line and a set of points are made of points, a polygon and a set of
/// lines of lines, a set of polygons of polygons, a collection of
/// geometries of any kind.
pub open spec fn member_tag(tag: u64) -> Option<u64> {
    if tag == TAG_GEOMETRY_LINE || tag == TAG_GEOMETRY_MULTIPOINT {
        Some(TAG_GEOMETRY_POINT)
    } else if tag == TAG_GEOMETRY_POLYGON || tag == TAG_GEOMETRY_MULTILINE {
        Some(TAG_GEOMETRY_LINE)
    } else if tag == TAG_GEOMETRY_MULTIPOLYGON {
        Some(TAG_GEOMETRY_POLYGON)
    } else {
        None
    }
}

/// The error for a member that is no geometry of the kind that `member` asks for.
pub open spec fn member_error(member: Option<u64>) -> CborError {
    if member == Some(TAG_GEOMETRY_POINT) {
        CborError::ExpectedPoints
    } else if member == Some(TAG_GEOMETRY_LINE) {
        CborError::ExpectedLines
    } else if member == Some(TAG_GEOMETRY_POLYGON) {
        CborError::ExpectedPolygons
    } else {
        CborError::ExpectedGeometries
    }
}

/// Whether a value is a geometry of the kind that `member` asks for.
pub open spec fn is_member(v: ValueView, member: Option<u64>) -> bool {
    v matches ValueView::Geometry(DataView::Tag(tag, _)) && (member.is_none() || member == Some(
        tag,
    ))
}

/// What is wrong with the data behind a geometry tag; nothing where it
/// describes a geometry.
///
/// A point is an array of two items that denote numbers. A line and a set
/// of points are arrays of points, a polygon is an array of two lines or
/// more, a set of lines an array of lines, a set of polygons an array of
/// polygons, a collection an array of geometries. The first member that
/// denotes nothing, or something else than it should, decides.
pub open spec fn geometry_fault(tag: u64, inner: DataView) -> Option<CborError>
    decreases inner,
{
    match inner {
        DataView::Array(items) => if tag == TAG_GEOMETRY_POINT {
            if items.len() != 2 {
                Some(CborError::ExpectedPointValues)
            } else {
                match decoded(items[0]) {
                    Err(e) => Some(e),
                    Ok(x) => match decoded(items[1]) {
                        Err(e) => Some(e),
                        Ok(y) => if x is Number && y is Number {
                            None
                        } else {
                            Some(CborError::ExpectedPointValues)
                        },
                    },
                }
            }
        } else if tag == TAG_GEOMETRY_POLYGON && items.len() < 2 {
            Some(CborError::ExpectedTwoLines)
        } else {
            members_fault(items, member_tag(tag))
        },
        _ => if tag == TAG_GEOMETRY_POINT {
            Some(CborError::ExpectedPointValues)
        } else {
            Some(shape_error(tag))
        },
    }
}

/// What is wrong with the members of a geometry: the first of them that
/// denotes nothing, or no geometry of the kind that `member` asks for.
pub open spec fn members_fault(items: Seq<DataView>, member: Option<u64>) -> Option<CborError>
    decreases items,
{
    if items.len() == 0 {
        None
    } else {
        match members_fault(items.drop_last(), member) {
            Some(e) => Some(e),
            None => match decoded(items.last()) {
                Err(e) => Some(e),
                Ok(v) => if is_member(v, member) {
                    None
                } else {
                    Some(member_error(member))
                },
            },
        }
    }
}

/// The values that the items of an array denote, in order.
pub open spec fn decoded_list(items: Seq<DataView>) -> Result<Seq<ValueView>, CborError>
    decreases items,
{
    if items.len() == 0 {
        Ok(Seq::empty())
    } else {
        match decoded_list(items.drop_last()) {
            Err(e) => Err(e),
            Ok(front) => match decoded(items.last()) {
                Err(e) => Err(e),
                Ok(v) => Ok(front.push(v)),
            },
        }
    }
}

/// The fields that the pairs of a map denote, in the order of their names.
/// A pair whose name was used by an earlier pair puts its value in the
/// place of that pair's.
pub open spec fn decoded_fields(pairs: Seq<(DataView, DataView)>) -> Result<
    Seq<(Seq<char>, ValueView)>,
    CborError,
>
    decreases pairs,
{
    if pairs.len() == 0 {
        Ok(Seq::empty())
    } else {
        match decoded_fields(pairs.drop_last()) {
            Err(e) => Err(e),
            Ok(front) => match decoded(pairs.last().0) {
                Err(e) => Err(e),
                Ok(key) => match key_of(key) {
                    None => Err(CborError::ExpectedKey),
                    Some(name) => match decoded(pairs.last().1) {
                        Err(e) => Err(e),
                        Ok(v) => Ok(put_field(front, name, v)),
                    },
                },
            },
        }
    }
}

/// A failure on the first items of an array is a failure on the array.
pub proof fn lemma_list_fails(items: Seq<DataView>, i: int)
    requires
        0 <= i <= items.len(),
        decoded_list(items.take(i)).is_err(),
    ensures
        decoded_list(items) == decoded_list(items.take(i)),
    decreases items.len() - i,
{
    if i < items.len() {
        assert(items.take(i + 1).drop_last() =~= items.take(i));
        lemma_list_fails(items, i + 1);
    } else {
        assert(items.take(i) =~= items);
    }
}

/// A failure on the first pairs of a map is a failure on the map.
pub proof fn lemma_fields_fail(pairs: Seq<(DataView, DataView)>, i: int)
    requires
        0 <= i <= pairs.len(),
        decoded_fields(pairs.take(i)).is_err(),
    ensures
        decoded_fields(pairs) == decoded_fields(pairs.take(i)),
    decreases pairs.len() - i,
{
    if i < pairs.len() {
        assert(pairs.take(i + 1).drop_last() =~= pairs.take(i));
        lemma_fields_fail(pairs, i + 1);
    } else {
        assert(pairs.take(i) =~= pairs);
    }
}

/// Digits denote no less than their first digits do.
pub proof fn lemma_digits_grow(text: Seq<char>, i: int)
    requires
        0 <= i <= text.len(),
        is_digits(text),
    ensures
        digits_value(text.take(i)) <= digits_value(text),
    decreases text.len() - i,
{
    if i < text.len() {
        assert(text.take(i + 1).drop_last() =~= text.take(i));
        assert(text.take(i + 1).last() == text[i]);
        lemma_digits_grow(text, i + 1);
    } else {
        assert(text.take(i) =~= text);
    }
}

fn tagged_str(inner: &Data) -> (out: Result<&String, CborError>)
    ensures
        match out {
            Ok(t) => tagged_text(inner@) == Ok::<Seq<char>, CborError>(t@),
            Err(e) => tagged_text(inner@) == Err::<Seq<char>, CborError>(e),
        },
{
    match inner {
        Data::Text(t) => Ok(t),
        _ => Err(CborError::ExpectedText),
    }
}

/// The value of a CBOR integer.
pub fn integer(i: i128) -> (v: Value)
    ensures
        v@ == integer_value(i),
{
    if -9223372036854775808 <= i && i <= 9223372036854775807 {
        Value::Number(Number::Int(i as i64))
    } else {
        let mut digits = String::new();
        push_signed(&mut digits, i);
        assert(digits@ =~= signed_decimal(i as int));
        Value::Number(Number::Decimal(digits))
    }
}

/// The name that a value gives to a field when it stands as the key of a map.
pub fn key_name(v: &Value) -> (name: Option<String>)
    ensures
        match name {
            Some(text) => key_of(v@) == Some(text@),
            None => key_of(v@).is_none(),
        },
{
    match v {
        Value::Strand(s) => Some(s.clone()),
        Value::Number(Number::Int(i)) => {
            let mut digits = String::new();
            push_signed(&mut digits, *i as i128);
            assert(digits@ =~= signed_decimal(*i as int));
            Some(digits)
        },
        Value::Bool(b) => Some(
            if *b {
                "true".to_owned()
            } else {
                "false".to_owned()
            },
        ),
        Value::Null => Some("NULL".to_owned()),
        Value::Absent => Some("NONE".to_owned()),
        Value::Number(Number::Decimal(t)) => Some(t.clone()),
        Value::Duration(t) => Some(t.clone()),
        Value::Datetime(t) => Some(t.clone()),
        Value::Uuid(u) => Some(u.to_text()),
        _ => None,
    }
}

fn digits_number(text: &str) -> (out: Option<i64>)
    requires
        is_digits(text@),
    ensures
        match out {
            Some(n) => digits_value(text@) == n,
            None => digits_value(text@) > i64::MAX,
        },
{
    let n = text.unicode_len();
    let mut value: u64 = 0;
    let mut i: usize = 0;
    assert(text@.take(0) =~= Seq::<char>::empty());
    while i < n
        invariant
            i <= n,
            n == text@.len(),
            is_digits(text@),
            value == digits_value(text@.take(i as int)),
            value <= i64::MAX,
        decreases n - i,
    {
        let c = text.get_char(i);
        let d: u64 = (c as u32 - 48) as u64;
        proof {
            assert(text@.take(i as int + 1).drop_last() =~= text@.take(i as int));
            assert(text@.take(i as int + 1).last() == c);
            lemma_digits_grow(text@, i as int + 1);
        }
        if value > (9223372036854775807 - d) / 10 {
            return None;
        }
        value = value * 10 + d;
        i += 1;
    }
    assert(text@.take(i as int) =~= text@);
    Some(value as i64)
}

/// The record id that a text denotes.
pub fn parse_record_id(text: &str) -> (out: Option<Thing>)
    ensures
        match out {
            Some(thing) => record_id_of(text@) == Some(thing@),
            None => record_id_of(text@).is_none(),
        },
{
    let n = text.unicode_len();
    let mut i: usize = 0;
    let mut found = false;
    while i < n && !found
        invariant
            i <= n,
            n == text@.len(),
            forall|j: int| 0 <= j < i ==> !is_colon()(#[trigger] text@[j]),
            found ==> i < n && is_colon()(text@[i as int]),
        decreases n - i + if found { 0int } else { 1int },
    {
        if text.get_char(i) == ':' {
            found = true;
        } else {
            i += 1;
        }
    }
    if !found {
        proof {
            lemma_find_first_none(text@, is_colon());
        }
        return None;
    }
    proof {
        lemma_find_first_is(text@, is_colon(), i as int);
    }
    let tb = text.substring_char(0, i);
    let id = text.substring_char(i + 1, n);
    assert(tb@ =~= text@.take(i as int));
    assert(id@ =~= text@.skip(i as int + 1));
    if !plain_name(tb) {
        return None;
    }
    if all_digits(id) {
        match digits_number(id) {
            Some(number) => Some(Thing { tb: tb.to_owned(), id: Id::Number(number) }),
            None => None,
        }
    } else if plain_name(id) {
        Some(Thing { tb: tb.to_owned(), id: Id::String(id.to_owned()) })
    } else {
        None
    }
}

/// The value that a piece of CBOR data denotes.
pub fn decode(data: &Data) -> (out: Result<Value, CborError>)
    ensures
        match out {
            Ok(v) => decoded(data@) == Ok::<ValueView, CborError>(v@),
            Err(e) => decoded(data@) == Err::<ValueView, CborError>(e),
        },
    decreases data,
{
    match data {
        Data::Null => Ok(Value::Null),
        Data::Bool(b) => Ok(Value::Bool(*b)),
        Data::Integer(i) => Ok(integer(*i)),
        Data::Float(bits) => Ok(Value::Number(Number::Float(*bits))),
        Data::Bytes(bytes) => {
            let copy = bytes.clone();
            assert(copy@ =~= bytes@);
            Ok(Value::Bytes(copy))
        },
        Data::Text(t) => Ok(Value::Strand(t.clone())),
        Data::Array(items) => {
            proof {
                lemma_array_view(*items);
            }
            match decode_list(items) {
                Ok(values) => {
                    proof {
                        lemma_list_views(values);
                    }
                    Ok(Value::Array(values))
                },
                Err(e) => Err(e),
            }
        },
        Data::Dict(pairs) => {
            proof {
                lemma_dict_view(*pairs);
            }
            match decode_fields(pairs) {
                Ok(fields) => {
                    proof {
                        lemma_fields_views(fields);
                    }
                    Ok(Value::Object(fields))
                },
                Err(e) => Err(e),
            }
        },
        Data::Tag(tag, inner) => {
            let tag = *tag;
            if tag == TAG_NONE {
                Ok(Value::Absent)
            } else if tag == TAG_DATETIME {
                match tagged_str(inner) {
                    Ok(t) => if datetime_text(t.as_str()) {
                        Ok(Value::Datetime(t.clone()))
                    } else {
                        Err(CborError::ExpectedDatetime)
                    },
                    Err(e) => Err(e),
                }
            } else if tag == TAG_UUID {
                match tagged_str(inner) {
                    Ok(t) => match Uuid::parse_str(t.as_str()) {
                        Some(id) => Ok(Value::Uuid(id)),
                        None => Err(CborError::ExpectedUuid),
                    },
                    Err(e) => Err(e),
                }
            } else if tag == TAG_DECIMAL {
                match tagged_str(inner) {
                    Ok(t) => if decimal_text(t.as_str()) {
                        Ok(Value::Number(Number::Decimal(t.clone())))
                    } else {
                        Err(CborError::ExpectedDecimal)
                    },
                    Err(e) => Err(e),
                }
            } else if tag == TAG_DURATION {
                match tagged_str(inner) {
                    Ok(t) => if duration_text(t.as_str()) {
                        Ok(Value::Duration(t.clone()))
                    } else {
                        Err(CborError::ExpectedDuration)
                    },
                    Err(e) => Err(e),
                }
            } else if tag == TAG_TABLE {
                match tagged_str(inner) {
                    Ok(t) => Ok(Value::Table(t.clone())),
                    Err(e) => Err(e),
                }
            } else if tag == TAG_RECORDID {
                decode_record_id(inner)
            } else if tag >= TAG_GEOMETRY_POINT && tag <= TAG_GEOMETRY_COLLECTION {
                match check_geometry(tag, inner) {
                    None => Ok(Value::Geometry(data.duplicate())),
                    Some(e) => Err(e),
                }
            } else {
                Err(CborError::UnknownTag)
            }
        },
    }
}

/// A failure on the first members of a geometry is a failure on the geometry.
pub proof fn lemma_members_fail(items: Seq<DataView>, member: Option<u64>, i: int)
    requires
        0 <= i <= items.len(),
        members_fault(items.take(i), member).is_some(),
    ensures
        members_fault(items, member) == members_fault(items.take(i), member),
    decreases items.len() - i,
{
    if i < items.len() {
        assert(items.take(i + 1).drop_last() =~= items.take(i));
        lemma_members_fail(items, member, i + 1);
    } else {
        assert(items.take(i) =~= items);
    }
}

fn member_of(tag: u64) -> (member: Option<u64>)
    ensures
        member == member_tag(tag),
{
    if tag == TAG_GEOMETRY_LINE || tag == TAG_GEOMETRY_MULTIPOINT {
        Some(TAG_GEOMETRY_POINT)
    } else if tag == TAG_GEOMETRY_POLYGON || tag == TAG_GEOMETRY_MULTILINE {
        Some(TAG_GEOMETRY_LINE)
    } else if tag == TAG_GEOMETRY_MULTIPOLYGON {
        Some(TAG_GEOMETRY_POLYGON)
    } else {
        None
    }
}

fn error_of(member: Option<u64>) -> (e: CborError)
    ensures
        e == member_error(member),
{
    match member {
        Some(TAG_GEOMETRY_POINT) => CborError::ExpectedPoints,
        Some(TAG_GEOMETRY_LINE) => CborError::ExpectedLines,
        Some(TAG_GEOMETRY_POLYGON) => CborError::ExpectedPolygons,
        _ => CborError::ExpectedGeometries,
    }
}

fn fits(v: &Value, member: Option<u64>) -> (yes: bool)
    ensures
        yes == is_member(v@, member),
{
    proof {
        reveal_with_fuel(crate::cbor::data_view, 2);
    }
    match v {
        Value::Geometry(Data::Tag(tag, _)) => match member {
            Some(asked) => asked == *tag,
            None => true,
        },
        _ => false,
    }
}

/// What is wrong with the data behind a geometry tag; nothing where it
/// describes a geometry.
pub fn check_geometry(tag: u64, inner: &Data) -> (fault: Option<CborError>)
    ensures
        fault == geometry_fault(tag, inner@),
    decreases inner,
{
    let items = match inner {
        Data::Array(items) => items,
        _ => {
            return if tag == TAG_GEOMETRY_POINT {
                Some(CborError::ExpectedPointValues)
            } else if tag == TAG_GEOMETRY_POLYGON {
                Some(CborError::ExpectedTwoLines)
            } else if tag == TAG_GEOMETRY_MULTIPOLYGON {
                Some(CborError::ExpectedPolygons)
            } else if tag == TAG_GEOMETRY_COLLECTION {
                Some(CborError::ExpectedGeometries)
            } else {
                Some(CborError::ExpectedPoints)
            };
        },
    };
    proof {
        lemma_array_view(*items);
    }
    if tag == TAG_GEOMETRY_POINT {
        if items.len() != 2 {
            return Some(CborError::ExpectedPointValues);
        }
        proof {
            vstd::std_specs::vec::axiom_vec_index_decreases(*items, 0);
            vstd::std_specs::vec::axiom_vec_index_decreases(*items, 1);
        }
        let x = match decode(&items[0]) {
            Ok(x) => x,
            Err(e) => {
                return Some(e);
            },
        };
        let y = match decode(&items[1]) {
            Ok(y) => y,
            Err(e) => {
                return Some(e);
            },
        };
        match (x, y) {
            (Value::Number(_), Value::Number(_)) => None,
            _ => Some(CborError::ExpectedPointValues),
        }
    } else if tag == TAG_GEOMETRY_POLYGON && items.len() < 2 {
        Some(CborError::ExpectedTwoLines)
    } else {
        check_members(items, member_of(tag))
    }
}

fn check_members(items: &Vec<Data>, member: Option<u64>) -> (fault: Option<CborError>)
    ensures
        fault == members_fault(data_views(items@), member),
    decreases items,
{
    let ghost all = data_views(items@);
    let mut i: usize = 0;
    assert(all.take(0) =~= Seq::<DataView>::empty());
    while i < items.len()
        invariant
            i <= items.len(),
            all == data_views(items@),
            members_fault(all.take(i as int), member).is_none(),
        decreases items.len() - i,
    {
        proof {
            vstd::std_specs::vec::axiom_vec_index_decreases(*items, i as int);
            assert(all.take(i as int + 1).drop_last() =~= all.take(i as int));
            assert(all.take(i as int + 1).last() == data_view(items[i as int]));
        }
        match decode(&items[i]) {
            Ok(v) => {
                if !fits(&v, member) {
                    proof {
                        lemma_members_fail(all, member, i as int + 1);
                    }
                    return Some(error_of(member));
                }
            },
            Err(e) => {
                proof {
                    lemma_members_fail(all, member, i as int + 1);
                }
                return Some(e);
            },
        }
        i += 1;
    }
    assert(all.take(i as int) =~= all);
    None
}

fn decode_record_id(inner: &Data) -> (out: Result<Value, CborError>)
    ensures
        match out {
            Ok(v) => decoded(DataView::Tag(TAG_RECORDID, Box::new(inner@))) == Ok::<
                ValueView,
                CborError,
            >(v@),
            Err(e) => decoded(DataView::Tag(TAG_RECORDID, Box::new(inner@))) == Err::<
                ValueView,
                CborError,
            >(e),
        },
    decreases inner,
{
    proof {
        reveal_with_fuel(value_view, 2);
    }
    match inner {
        Data::Text(t) => match parse_record_id(t.as_str()) {
            Some(thing) => Ok(Value::Thing(thing)),
            None => Err(CborError::ExpectedRecordId),
        },
        Data::Array(parts) => {
            proof {
                lemma_array_view(*parts);
            }
            if parts.len() != 2 {
                return Err(CborError::ExpectedRecordIdShape);
            }
            proof {
                vstd::std_specs::vec::axiom_vec_index_decreases(*parts, 1);
            }
            let tb = match &parts[0] {
                Data::Text(tb) => tb.clone(),
                _ => {
                    return Err(CborError::ExpectedRecordIdParts);
                },
            };
            match &parts[1] {
                Data::Text(id) => Ok(Value::Thing(Thing { tb, id: Id::String(id.clone()) })),
                Data::Integer(id) => Ok(
                    Value::Thing(Thing { tb, id: Id::Number(#[verifier::truncate] (*id as i64)) }),
                ),
                Data::Array(ids) => {
                    proof {
                        lemma_array_view(*ids);
                    }
                    match decode_list(ids) {
                        Ok(values) => {
                            proof {
                                lemma_list_views(values);
                            }
                            Ok(Value::Thing(Thing { tb, id: Id::Array(values) }))
                        },
                        Err(e) => Err(e),
                    }
                },
                Data::Dict(ids) => {
                    proof {
                        lemma_dict_view(*ids);
                    }
                    match decode_fields(ids) {
                        Ok(fields) => {
                            proof {
                                lemma_fields_views(fields);
                            }
                            Ok(Value::Thing(Thing { tb, id: Id::Object(fields) }))
                        },
                        Err(e) => Err(e),
                    }
                },
                _ => Err(CborError::ExpectedRecordIdParts),
            }
        },
        _ => Err(CborError::ExpectedRecordIdShape),
    }
}

fn decode_list(items: &Vec<Data>) -> (out: Result<Vec<Value>, CborError>)
    ensures
        match out {
            Ok(values) => decoded_list(data_views(items@)) == Ok::<Seq<ValueView>, CborError>(
                value_views(values@),
            ),
            Err(e) => decoded_list(data_views(items@)) == Err::<Seq<ValueView>, CborError>(e),
        },
    decreases items,
{
    let ghost all = data_views(items@);
    let mut values: Vec<Value> = Vec::new();
    let mut i: usize = 0;
    assert(all.take(0) =~= Seq::<DataView>::empty());
    assert(value_views(values@) =~= Seq::<ValueView>::empty());
    while i < items.len()
        invariant
            i <= items.len(),
            all == data_views(items@),
            decoded_list(all.take(i as int)) == Ok::<Seq<ValueView>, CborError>(
                value_views(values@),
            ),
        decreases items.len() - i,
    {
        proof {
            vstd::std_specs::vec::axiom_vec_index_decreases(*items, i as int);
            assert(all.take(i as int + 1).drop_last() =~= all.take(i as int));
            assert(all.take(i as int + 1).last() == data_view(items[i as int]));
        }
        match decode(&items[i]) {
            Ok(v) => {
                let ghost before = values@;
                values.push(v);
                assert(value_views(values@) =~= value_views(before).push(v@));
            },
            Err(e) => {
                proof {
                    lemma_list_fails(all, i as int + 1);
                }
                return Err(e);
            },
        }
        i += 1;
    }
    assert(all.take(i as int) =~= all);
    Ok(values)
}

fn field_place(fields: &Vec<(String, Value)>, name: &String) -> (found: Option<usize>)
    ensures
        match found {
            Some(i) => i < fields.len() && find_first(field_views(fields@), not_before(name@))
                == Some(i as int),
            None => find_first(field_views(fields@), not_before(name@)).is_none(),
        },
{
    let mut i: usize = 0;
    while i < fields.len()
        invariant
            i <= fields.len(),
            forall|j: int| 0 <= j < i ==> !not_before(name@)(#[trigger] field_views(fields@)[j]),
        decreases fields.len() - i,
    {
        if !before(fields[i].0.as_str(), name.as_str()) {
            proof {
                lemma_find_first_is(field_views(fields@), not_before(name@), i as int);
            }
            return Some(i);
        }
        i += 1;
    }
    proof {
        lemma_find_first_none(field_views(fields@), not_before(name@));
    }
    None
}

fn decode_fields(pairs: &Vec<(Data, Data)>) -> (out: Result<Vec<(String, Value)>, CborError>)
    ensures
        match out {
            Ok(fields) => decoded_fields(pair_views(pairs@)) == Ok::<
                Seq<(Seq<char>, ValueView)>,
                CborError,
            >(field_views(fields@)),
            Err(e) => decoded_fields(pair_views(pairs@)) == Err::<
                Seq<(Seq<char>, ValueView)>,
                CborError,
            >(e),
        },
    decreases pairs,
{
    let ghost all = pair_views(pairs@);
    let mut fields: Vec<(String, Value)> = Vec::new();
    let mut i: usize = 0;
    assert(all.take(0) =~= Seq::<(DataView, DataView)>::empty());
    assert(field_views(fields@) =~= Seq::<(Seq<char>, ValueView)>::empty());
    while i < pairs.len()
        invariant
            i <= pairs.len(),
            all == pair_views(pairs@),
            decoded_fields(all.take(i as int)) == Ok::<Seq<(Seq<char>, ValueView)>, CborError>(
                field_views(fields@),
            ),
        decreases pairs.len() - i,
    {
        proof {
            vstd::std_specs::vec::axiom_vec_index_decreases(*pairs, i as int);
            assert(all.take(i as int + 1).drop_last() =~= all.take(i as int));
            assert(all.take(i as int + 1).last() == (
                data_view(pairs[i as int].0),
                data_view(pairs[i as int].1),
            ));
        }
        let key = match decode(&pairs[i].0) {
            Ok(key) => key,
            Err(e) => {
                proof {
                    lemma_fields_fail(all, i as int + 1);
                }
                return Err(e);
            },
        };
        let name = match key_name(&key) {
            Some(name) => name,
            None => {
                proof {
                    lemma_fields_fail(all, i as int + 1);
                }
                return Err(CborError::ExpectedKey);
            },
        };
        let v = match decode(&pairs[i].1) {
            Ok(v) => v,
            Err(e) => {
                proof {
                    lemma_fields_fail(all, i as int + 1);
                }
                return Err(e);
            },
        };
        let ghost earlier = fields@;
        match field_place(&fields, &name) {
            Some(k) => {
                if fields[k].0 == name {
                    fields.set(k, (name, v));
                    assert(field_views(fields@) =~= field_views(earlier).update(
                        k as int,
                        (name@, v@),
                    ));
                } else {
                    fields.insert(k, (name, v));
                    assert(field_views(fields@) =~= field_views(earlier).insert(
                        k as int,
                        (name@, v@),
                    ));
                }
            },
            None => {
                fields.push((name, v));
                assert(field_views(fields@) =~= field_views(earlier).push((name@, v@)));
            },
        }
        i += 1;
    }
    assert(all.take(i as int) =~= all);
    Ok(fields)
}

/// Whether a value is well formed: the fields of every object in it stand
/// in the order of their names, no name twice; every decimal, duration and
/// datetime in it is written as one; and every geometry in it is CBOR data
/// that describes a geometry.
pub open spec fn well_formed(v: ValueView) -> bool
    decreases v,
{
    match v {
        ValueView::Array(items) => forall|i: int|
            0 <= i < items.len() ==> well_formed(#[trigger] items[i]),
        ValueView::Object(fields) => sorted_fields(fields) && forall|
            i: int,
        | 0 <= i < fields.len() ==> well_formed((#[trigger] fields[i]).1),
        ValueView::Thing(thing) => match thing.id {
            IdView::Array(items) => forall|i: int|
                0 <= i < items.len() ==> well_formed(#[trigger] items[i]),
            IdView::Object(fields) => sorted_fields(fields)
                && forall|i: int| 0 <= i < fields.len() ==> well_formed((#[trigger] fields[i]).1),
            _ => true,
        },
        ValueView::Geometry(d) => d matches DataView::Tag(tag, inner) && is_geometry_tag(tag)
            && geometry_fault(tag, *inner).is_none(),
        ValueView::Number(NumberView::Decimal(t)) => is_decimal(t),
        ValueView::Duration(t) => is_duration(t),
        ValueView::Datetime(t) => is_datetime(t),
        _ => true,
    }
}

/// The CBOR data that a value is written as.
///
/// Null, truth values, whole and floating-point numbers, bytes and strings
/// are written as themselves, a list as the array of its items, an object
/// as the map of its fields, in order. Decimals, durations, datetimes,
/// UUIDs and table names are written as text behind their tag, a record id
/// as the array of its table name and its id behind its tag, the value
/// that stands for no value as null behind its tag, a geometry as the data
/// that it is kept as. A record id that is still to be generated and an
/// expression cannot be written; the first of these in a value makes the
/// whole fail.
pub open spec fn encoded(v: ValueView) -> Result<DataView, CborError>
    decreases v,
{
    match v {
        ValueView::Absent => Ok(DataView::Tag(TAG_NONE, Box::new(DataView::Null))),
        ValueView::Null => Ok(DataView::Null),
        ValueView::Bool(b) => Ok(DataView::Bool(b)),
        ValueView::Number(NumberView::Int(i)) => Ok(DataView::Integer(i as i128)),
        ValueView::Number(NumberView::Float(bits)) => Ok(DataView::Float(bits)),
        ValueView::Number(NumberView::Decimal(t)) => Ok(
            DataView::Tag(TAG_DECIMAL, Box::new(DataView::Text(t))),
        ),
        ValueView::Strand(s) => Ok(DataView::Text(s)),
        ValueView::Duration(t) => Ok(DataView::Tag(TAG_DURATION, Box::new(DataView::Text(t)))),
        ValueView::Datetime(t) => Ok(DataView::Tag(TAG_DATETIME, Box::new(DataView::Text(t)))),
        ValueView::Uuid(u) => Ok(
            DataView::Tag(TAG_UUID, Box::new(DataView::Text(uuid_text(u.0)))),
        ),
        ValueView::Array(items) => match encoded_list(items) {
            Ok(data) => Ok(DataView::Array(data)),
            Err(e) => Err(e),
        },
        ValueView::Object(fields) => match encoded_fields(fields) {
            Ok(pairs) => Ok(DataView::Dict(pairs)),
            Err(e) => Err(e),
        },
        ValueView::Bytes(bytes) => Ok(DataView::Bytes(bytes)),
        ValueView::Thing(thing) => {
            let id = match thing.id {
                IdView::Number(i) => Ok(DataView::Integer(i as i128)),
                IdView::String(s) => Ok(DataView::Text(s)),
                IdView::Array(items) => match encoded_list(items) {
                    Ok(data) => Ok(DataView::Array(data)),
                    Err(e) => Err(e),
                },
                IdView::Object(fields) => match encoded_fields(fields) {
                    Ok(pairs) => Ok(DataView::Dict(pairs)),
                    Err(e) => Err(e),
                },
                IdView::Generate => Err(CborError::Ungenerated),
            };
            match id {
                Ok(id) => Ok(
                    DataView::Tag(
                        TAG_RECORDID,
                        Box::new(DataView::Array(seq![DataView::Text(thing.tb), id])),
                    ),
                ),
                Err(e) => Err(e),
            }
        },
        ValueView::Table(t) => Ok(DataView::Tag(TAG_TABLE, Box::new(DataView::Text(t)))),
        ValueView::Geometry(d) => Ok(d),
        ValueView::Param(_) => Err(CborError::Unsupported),
    }
}

/// The data that the values of a list are written as, in order.
pub open spec fn encoded_list(items: Seq<ValueView>) -> Result<Seq<DataView>, CborError>
    decreases items,
{
    if items.len() == 0 {
        Ok(Seq::empty())
    } else {
        match encoded_list(items.drop_last()) {
            Err(e) => Err(e),
            Ok(front) => match encoded(items.last()) {
                Err(e) => Err(e),
                Ok(d) => Ok(front.push(d)),
            },
        }
    }
}

/// The pairs that the fields of an object are written as, in order.
pub open spec fn encoded_fields(fields: Seq<(Seq<char>, ValueView)>) -> Result<
    Seq<(DataView, DataView)>,
    CborError,
>
    decreases fields,
{
    if fields.len() == 0 {
        Ok(Seq::empty())
    } else {
        match encoded_fields(fields.drop_last()) {
            Err(e) => Err(e),
            Ok(front) => match encoded(fields.last().1) {
                Err(e) => Err(e),
                Ok(d) => Ok(front.push((DataView::Text(fields.last().0), d))),
            },
        }
    }
}

/// A failure on the first values of a list is a failure on the list.
pub proof fn lemma_list_unwritable(items: Seq<ValueView>, i: int)
    requires
        0 <= i <= items.len(),
        encoded_list(items.take(i)).is_err(),
    ensures
        encoded_list(items) == encoded_list(items.take(i)),
    decreases items.len() - i,
{
    if i < items.len() {
        assert(items.take(i + 1).drop_last() =~= items.take(i));
        lemma_list_unwritable(items, i + 1);
    } else {
        assert(items.take(i) =~= items);
    }
}

/// A failure on the first fields of an object is a failure on the object.
pub proof fn lemma_fields_unwritable(fields: Seq<(Seq<char>, ValueView)>, i: int)
    requires
        0 <= i <= fields.len(),
        encoded_fields(fields.take(i)).is_err(),
    ensures
        encoded_fields(fields) == encoded_fields(fields.take(i)),
    decreases fields.len() - i,
{
    if i < fields.len() {
        assert(fields.take(i + 1).drop_last() =~= fields.take(i));
        lemma_fields_unwritable(fields, i + 1);
    } else {
        assert(fields.take(i) =~= fields);
    }
}

/// The CBOR data that a value is written as. A value that is well formed
/// is read back from its data as itself.
pub fn encode(v: &Value) -> (out: Result<Data, CborError>)
    ensures
        match out {
            Ok(d) => encoded(v@) == Ok::<DataView, CborError>(d@) && (well_formed(v@) ==> decoded(
                d@,
            ) == Ok::<ValueView, CborError>(v@)),
            Err(e) => encoded(v@) == Err::<DataView, CborError>(e),
        },
    decreases v,
{
    proof {
        reveal_with_fuel(value_view, 2);
        reveal_with_fuel(data_view, 3);
    }
    match v {
        Value::Absent => Ok(Data::Tag(TAG_NONE, Box::new(Data::Null))),
        Value::Null => Ok(Data::Null),
        Value::Bool(b) => Ok(Data::Bool(*b)),
        Value::Number(Number::Int(i)) => Ok(Data::Integer(*i as i128)),
        Value::Number(Number::Float(bits)) => Ok(Data::Float(*bits)),
        Value::Number(Number::Decimal(t)) => Ok(
            Data::Tag(TAG_DECIMAL, Box::new(Data::Text(t.clone()))),
        ),
        Value::Strand(s) => Ok(Data::Text(s.clone())),
        Value::Duration(t) => Ok(Data::Tag(TAG_DURATION, Box::new(Data::Text(t.clone())))),
        Value::Datetime(t) => Ok(Data::Tag(TAG_DATETIME, Box::new(Data::Text(t.clone())))),
        Value::Uuid(u) => Ok(Data::Tag(TAG_UUID, Box::new(Data::Text(u.to_text())))),
        Value::Array(items) => {
            proof {
                lemma_list_views(*items);
            }
            match encode_list(items) {
                Ok(data) => {
                    proof {
                        lemma_array_view(data);
                    }
                    Ok(Data::Array(data))
                },
                Err(e) => Err(e),
            }
        },
        Value::Object(fields) => {
            proof {
                lemma_fields_views(*fields);
            }
            match encode_fields(fields) {
                Ok(pairs) => {
                    proof {
                        lemma_dict_view(pairs);
                    }
                    Ok(Data::Dict(pairs))
                },
                Err(e) => Err(e),
            }
        },
        Value::Bytes(bytes) => {
            let copy = bytes.clone();
            assert(copy@ =~= bytes@);
            Ok(Data::Bytes(copy))
        },
        Value::Thing(thing) => {
            let id = match &thing.id {
                Id::Number(i) => Data::Integer(*i as i128),
                Id::String(s) => Data::Text(s.clone()),
                Id::Array(items) => {
                    proof {
                        lemma_list_views(*items);
                    }
                    match encode_list(items) {
                        Ok(data) => {
                            proof {
                                lemma_array_view(data);
                            }
                            Data::Array(data)
                        },
                        Err(e) => {
                            return Err(e);
                        },
                    }
                },
                Id::Object(fields) => {
                    proof {
                        lemma_fields_views(*fields);
                    }
                    match encode_fields(fields) {
                        Ok(pairs) => {
                            proof {
                                lemma_dict_view(pairs);
                            }
                            Data::Dict(pairs)
                        },
                        Err(e) => {
                            return Err(e);
                        },
                    }
                },
                Id::Generate => {
                    return Err(CborError::Ungenerated);
                },
            };
            let mut parts: Vec<Data> = Vec::new();
            parts.push(Data::Text(thing.tb.clone()));
            parts.push(id);
            proof {
                lemma_array_view(parts);
                assert(data_views(parts@) =~= seq![DataView::Text(thing.tb@), id@]);
            }
            Ok(Data::Tag(TAG_RECORDID, Box::new(Data::Array(parts))))
        },
        Value::Table(t) => Ok(Data::Tag(TAG_TABLE, Box::new(Data::Text(t.clone())))),
        Value::Geometry(d) => Ok(d.duplicate()),
        Value::Param(_) => Err(CborError::Unsupported),
    }
}

fn encode_list(items: &Vec<Value>) -> (out: Result<Vec<Data>, CborError>)
    ensures
        match out {
            Ok(data) => encoded_list(value_views(items@)) == Ok::<Seq<DataView>, CborError>(
                data_views(data@),
            ) && ((forall|i: int|
                0 <= i < items.len() ==> well_formed(#[trigger] value_views(items@)[i]))
                ==> decoded_list(data_views(data@)) == Ok::<Seq<ValueView>, CborError>(
                value_views(items@),
            )),
            Err(e) => encoded_list(value_views(items@)) == Err::<Seq<DataView>, CborError>(e),
        },
    decreases items,
{
    let ghost all = value_views(items@);
    let ghost sound = forall|i: int| 0 <= i < all.len() ==> well_formed(#[trigger] all[i]);
    let mut data: Vec<Data> = Vec::new();
    let mut i: usize = 0;
    assert(all.take(0) =~= Seq::<ValueView>::empty());
    assert(data_views(data@) =~= Seq::<DataView>::empty());
    while i < items.len()
        invariant
            i <= items.len(),
            all == value_views(items@),
            sound == forall|i: int| 0 <= i < all.len() ==> well_formed(#[trigger] all[i]),
            encoded_list(all.take(i as int)) == Ok::<Seq<DataView>, CborError>(
                data_views(data@),
            ),
            sound ==> decoded_list(data_views(data@)) == Ok::<Seq<ValueView>, CborError>(
                all.take(i as int),
            ),
        decreases items.len() - i,
    {
        proof {
            vstd::std_specs::vec::axiom_vec_index_decreases(*items, i as int);
            assert(all.take(i as int + 1).drop_last() =~= all.take(i as int));
            assert(all.take(i as int + 1).last() == value_view(items[i as int]));
            assert(all[i as int] == value_view(items[i as int]));
        }
        match encode(&items[i]) {
            Ok(d) => {
                let ghost before = data@;
                data.push(d);
                proof {
                    assert(data_views(data@) =~= data_views(before).push(d@));
                    assert(data_views(data@).drop_last() =~= data_views(before));
                    assert(all.take(i as int + 1) =~= all.take(i as int).push(all[i as int]));
                }
            },
            Err(e) => {
                proof {
                    lemma_list_unwritable(all, i as int + 1);
                }
                return Err(e);
            },
        }
        i += 1;
    }
    assert(all.take(i as int) =~= all);
    Ok(data)
}

fn encode_fields(fields: &Vec<(String, Value)>) -> (out: Result<Vec<(Data, Data)>, CborError>)
    ensures
        match out {
            Ok(pairs) => encoded_fields(field_views(fields@)) == Ok::<
                Seq<(DataView, DataView)>,
                CborError,
            >(pair_views(pairs@)) && ((sorted_fields(field_views(fields@)) && forall|i: int|
                0 <= i < fields.len() ==> well_formed((#[trigger] field_views(fields@)[i]).1))
                ==> decoded_fields(pair_views(pairs@)) == Ok::<
                Seq<(Seq<char>, ValueView)>,
                CborError,
            >(field_views(fields@))),
            Err(e) => encoded_fields(field_views(fields@)) == Err::<
                Seq<(DataView, DataView)>,
                CborError,
            >(e),
        },
    decreases fields,
{
    let ghost all = field_views(fields@);
    let ghost sound = sorted_fields(all) && forall|i: int|
        0 <= i < all.len() ==> well_formed((#[trigger] all[i]).1);
    let mut pairs: Vec<(Data, Data)> = Vec::new();
    let mut i: usize = 0;
    assert(all.take(0) =~= Seq::<(Seq<char>, ValueView)>::empty());
    assert(pair_views(pairs@) =~= Seq::<(DataView, DataView)>::empty());
    while i < fields.len()
        invariant
            i <= fields.len(),
            all == field_views(fields@),
            sound == (sorted_fields(all) && forall|i: int|
                0 <= i < all.len() ==> well_formed((#[trigger] all[i]).1)),
            encoded_fields(all.take(i as int)) == Ok::<Seq<(DataView, DataView)>, CborError>(
                pair_views(pairs@),
            ),
            sound ==> decoded_fields(pair_views(pairs@)) == Ok::<
                Seq<(Seq<char>, ValueView)>,
                CborError,
            >(all.take(i as int)),
        decreases fields.len() - i,
    {
        proof {
            vstd::std_specs::vec::axiom_vec_index_decreases(*fields, i as int);
            assert(all.take(i as int + 1).drop_last() =~= all.take(i as int));
            assert(all.take(i as int + 1).last() == (
                fields[i as int].0@,
                value_view(fields[i as int].1),
            ));
            assert(all[i as int] == (fields[i as int].0@, value_view(fields[i as int].1)));
        }
        match encode(&fields[i].1) {
            Ok(d) => {
                let ghost before = pairs@;
                let key = Data::Text(fields[i].0.clone());
                pairs.push((key, d));
                proof {
                    let name = fields[i as int].0@;
                    assert(pair_views(pairs@) =~= pair_views(before).push(
                        (DataView::Text(name), d@),
                    ));
                    assert(pair_views(pairs@).drop_last() =~= pair_views(before));
                    assert(all.take(i as int + 1) =~= all.take(i as int).push(all[i as int]));
                    assert(decoded(DataView::Text(name)) == Ok::<ValueView, CborError>(
                        ValueView::Strand(name),
                    ));
                    if sound {
                        assert(well_formed(all[i as int].1));
                        assert forall|j: int| 0 <= j < i implies !not_before(name)(
                            #[trigger] all.take(i as int)[j],
                        ) by {
                            assert(text_before(all[j].0, all[i as int].0));
                        }
                        lemma_find_first_none(all.take(i as int), not_before(name));
                    }
                }
            },
            Err(e) => {
                proof {
                    lemma_fields_unwritable(all, i as int + 1);
                }
                return Err(e);
            },
        }
        i += 1;
    }
    assert(all.take(i as int) =~= all);
    Ok(pairs)
}

/// A piece of CBOR data that stands for a value.
#[derive(Debug, PartialEq, Eq)]
pub struct Cbor(pub Data);

impl Value {
    /// The value that a piece of CBOR data denotes.
    pub fn try_from(val: &Cbor) -> (out: Result<Value, CborError>)
        ensures
            match out {
                Ok(v) => decoded(val.0@) == Ok::<ValueView, CborError>(v@),
                Err(e) => decoded(val.0@) == Err::<ValueView, CborError>(e),
            },
    {
        decode(&val.0)
    }
}

impl Cbor {
    /// The CBOR data that a value is written as. A value that is well
    /// formed is read back from its data as itself.
    pub fn try_from(val: &Value) -> (out: Result<Cbor, CborError>)
        ensures
            match out {
                Ok(cbor) => encoded(val@) == Ok::<DataView, CborError>(cbor.0@) && (well_formed(
                    val@,
                ) ==> decoded(cbor.0@) == Ok::<ValueView, CborError>(val@)),
                Err(e) => encoded(val@) == Err::<DataView, CborError>(e),
            },
    {
        match encode(val) {
            Ok(data) => Ok(Cbor(data)),
            Err(e) => Err(e),
        }
    }
}

/// The tag that a geometry is written behind.
pub open spec fn shape_tag(v: ShapeView) -> u64 {
    match v {
        ShapeView::Point(_, _) => TAG_GEOMETRY_POINT,
        ShapeView::Line(_) => TAG_GEOMETRY_LINE,
        ShapeView::Polygon(_) => TAG_GEOMETRY_POLYGON,
        ShapeView::MultiPoint(_) => TAG_GEOMETRY_MULTIPOINT,
        ShapeView::MultiLine(_) => TAG_GEOMETRY_MULTILINE,
        ShapeView::MultiPolygon(_) => TAG_GEOMETRY_MULTIPOLYGON,
        ShapeView::Collection(_) => TAG_GEOMETRY_COLLECTION,
    }
}

/// The members of a geometry; none for a point.
pub open spec fn shape_members(v: ShapeView) -> Seq<ShapeView> {
    match v {
        ShapeView::Point(_, _) => Seq::empty(),
        ShapeView::Line(items) => items,
        ShapeView::Polygon(items) => items,
        ShapeView::MultiPoint(items) => items,
        ShapeView::MultiLine(items) => items,
        ShapeView::MultiPolygon(items) => items,
        ShapeView::Collection(items) => items,
    }
}

/// Whether a geometry is made as its kind asks: the coordinates of a point
/// are decimal numbers; a line and a set of points are made of points, a
/// polygon of two lines or more, a set of lines of lines, a set of polygons
/// of polygons; and every member is made as its own kind asks.
pub open spec fn well_made(v: ShapeView) -> bool
    decreases v,
{
    match v {
        ShapeView::Point(x, y) => is_decimal(x) && is_decimal(y),
        ShapeView::Line(items) => forall|i: int|
            0 <= i < items.len() ==> (#[trigger] items[i]) is Point && well_made(items[i]),
        ShapeView::Polygon(items) => items.len() >= 2 && forall|i: int|
            0 <= i < items.len() ==> (#[trigger] items[i]) is Line && well_made(items[i]),
        ShapeView::MultiPoint(items) => forall|i: int|
            0 <= i < items.len() ==> (#[trigger] items[i]) is Point && well_made(items[i]),
        ShapeView::MultiLine(items) => forall|i: int|
            0 <= i < items.len() ==> (#[trigger] items[i]) is Line && well_made(items[i]),
        ShapeView::MultiPolygon(items) => forall|i: int|
            0 <= i < items.len() ==> (#[trigger] items[i]) is Polygon && well_made(items[i]),
        ShapeView::Collection(items) => forall|i: int|
            0 <= i < items.len() ==> well_made(#[trigger] items[i]),
    }
}

/// Members that are read as geometries of the kind that is asked for are
/// all accepted.
pub proof fn lemma_members_read(items: Seq<ShapeView>, member: Option<u64>, n: int)
    requires
        0 <= n <= items.len(),
        forall|i: int|
            0 <= i < items.len() ==> decoded(geometry_data(#[trigger] items[i])) == Ok::<
                ValueView,
                CborError,
            >(ValueView::Geometry(geometry_data(items[i]))) && (member.is_none() || member
                == Some(shape_tag(items[i]))),
    ensures
        members_fault(members_data(items).take(n), member).is_none(),
    decreases n,
{
    if n > 0 {
        lemma_members_read(items, member, n - 1);
        assert(members_data(items).take(n).drop_last() =~= members_data(items).take(n - 1));
        assert(members_data(items).take(n).last() == geometry_data(items[n - 1]));
    }
}

/// What a geometry that is made as its kind asks is written as, is read as
/// that geometry.
pub proof fn lemma_written_geometry_is_read(v: ShapeView)
    requires
        well_made(v),
    ensures
        decoded(geometry_data(v)) == Ok::<ValueView, CborError>(
            ValueView::Geometry(geometry_data(v)),
        ),
        geometry_data(v) matches DataView::Tag(tag, _) && tag == shape_tag(v),
    decreases v,
{
    match v {
        ShapeView::Point(x, y) => {
            assert(decoded(coordinate_data(x)) == Ok::<ValueView, CborError>(
                ValueView::Number(NumberView::Decimal(x)),
            ));
            assert(decoded(coordinate_data(y)) == Ok::<ValueView, CborError>(
                ValueView::Number(NumberView::Decimal(y)),
            ));
            let items = seq![coordinate_data(x), coordinate_data(y)];
            assert(items[0] == coordinate_data(x));
            assert(items[1] == coordinate_data(y));
            assert(geometry_fault(TAG_GEOMETRY_POINT, DataView::Array(items)).is_none());
        },
        _ => {
            let items = shape_members(v);
            let member = member_tag(shape_tag(v));
            assert forall|i: int| 0 <= i < items.len() implies decoded(
                geometry_data(#[trigger] items[i]),
            ) == Ok::<ValueView, CborError>(ValueView::Geometry(geometry_data(items[i])))
                && (member.is_none() || member == Some(shape_tag(items[i]))) by {
                lemma_written_geometry_is_read(items[i]);
            }
            lemma_members_read(items, member, items.len() as int);
            assert(members_data(items).take(items.len() as int) =~= members_data(items));
            assert(geometry_fault(shape_tag(v), DataView::Array(members_data(items))).is_none());
        },
    }
}

/// A whole number in decimal is written as a decimal number.
pub proof fn lemma_signed_decimal(i: int)
    ensures
        is_decimal(signed_decimal(i)),
{
    let magnitude = if i < 0 {
        (-i) as nat
    } else {
        i as nat
    };
    let digits = decimal(magnitude);
    crate::text::lemma_decimal_digits(magnitude);
    assert forall|k: int| 0 <= k < digits.len() implies crate::grammar::is_digit(
        #[trigger] digits[k],
    ) by {}
    crate::grammar::lemma_digit_run_is(digits, digits.len() as int);
    if i < 0 {
        assert(signed_decimal(i).skip(1) =~= digits);
        assert(signed_decimal(i)[0] == '-');
    } else {
        assert(signed_decimal(i) == digits);
        assert(crate::grammar::is_digit(digits[0]));
    }
}

/// Putting a field into fields that stand in the order of their names
/// leaves them in that order, and puts in no other value.
pub proof fn lemma_put_field(fields: Seq<(Seq<char>, ValueView)>, name: Seq<char>, v: ValueView)
    requires
        sorted_fields(fields),
    ensures
        sorted_fields(put_field(fields, name, v)),
        forall|k: int|
            0 <= k < put_field(fields, name, v).len() ==> (#[trigger] put_field(
                fields,
                name,
                v,
            )[k]).1 == v || exists|m: int|
                0 <= m < fields.len() && fields[m] == put_field(fields, name, v)[k],
{
    let after = put_field(fields, name, v);
    crate::seqs::lemma_find_first(fields, not_before(name));
    match find_first(fields, not_before(name)) {
        Some(i) => {
            if fields[i].0 == name {
                assert forall|a: int, b: int| 0 <= a < b < after.len() implies text_before(
                    (#[trigger] after[a]).0,
                    (#[trigger] after[b]).0,
                ) by {
                    assert(text_before(fields[a].0, fields[b].0));
                }
                assert forall|k: int| 0 <= k < after.len() implies (#[trigger] after[k]).1 == v
                    || exists|m: int| 0 <= m < fields.len() && fields[m] == after[k] by {
                    if k != i {
                        assert(fields[k] == after[k]);
                    }
                }
            } else {
                if !text_before(name, fields[i].0) {
                    crate::text::lemma_text_order_total(fields[i].0, name);
                }
                assert forall|a: int, b: int| 0 <= a < b < after.len() implies text_before(
                    (#[trigger] after[a]).0,
                    (#[trigger] after[b]).0,
                ) by {
                    if b < i {
                        assert(text_before(fields[a].0, fields[b].0));
                    } else if b == i {
                        assert(!not_before(name)(fields[a]));
                    } else if a < i {
                        assert(!not_before(name)(fields[a]));
                        if b - 1 > i {
                            assert(text_before(fields[i].0, fields[b - 1].0));
                            crate::text::lemma_text_order_transitive(
                                name,
                                fields[i].0,
                                fields[b - 1].0,
                            );
                        }
                        crate::text::lemma_text_order_transitive(
                            fields[a].0,
                            name,
                            fields[b - 1].0,
                        );
                    } else if a == i {
                        if b - 1 > i {
                            assert(text_before(fields[i].0, fields[b - 1].0));
                            crate::text::lemma_text_order_transitive(
                                name,
                                fields[i].0,
                                fields[b - 1].0,
                            );
                        }
                    } else {
                        assert(text_before(fields[a - 1].0, fields[b - 1].0));
                    }
                }
                assert forall|k: int| 0 <= k < after.len() implies (#[trigger] after[k]).1 == v
                    || exists|m: int| 0 <= m < fields.len() && fields[m] == after[k] by {
                    if k < i {
                        assert(fields[k] == after[k]);
                    } else if k > i {
                        assert(fields[k - 1] == after[k]);
                    }
                }
            }
        },
        None => {
            assert forall|a: int, b: int| 0 <= a < b < after.len() implies text_before(
                (#[trigger] after[a]).0,
                (#[trigger] after[b]).0,
            ) by {
                if b < fields.len() {
                    assert(text_before(fields[a].0, fields[b].0));
                } else {
                    assert(!not_before(name)(fields[a]));
                }
            }
            assert forall|k: int| 0 <= k < after.len() implies (#[trigger] after[k]).1 == v
                || exists|m: int| 0 <= m < fields.len() && fields[m] == after[k] by {
                if k < fields.len() {
                    assert(fields[k] == after[k]);
                }
            }
        },
    }
}

/// What is read is well formed: the fields of every object stand in the
/// order of their names, and what is read as a decimal, a duration, a
/// datetime or a geometry is written as one.
pub proof fn lemma_read_is_well_formed(d: DataView)
    requires
        decoded(d).is_ok(),
    ensures
        well_formed(decoded(d).unwrap()),
    decreases d,
{
    match d {
        DataView::Integer(i) => {
            lemma_signed_decimal(i as int);
        },
        DataView::Array(items) => {
            lemma_list_is_well_formed(items);
        },
        DataView::Dict(pairs) => {
            lemma_fields_are_well_formed(pairs);
        },
        DataView::Tag(tag, inner) => {
            if tag == TAG_RECORDID {
                match *inner {
                    DataView::Array(parts) => {
                        if parts.len() == 2 {
                            match parts[1] {
                                DataView::Array(ids) => {
                                    lemma_list_is_well_formed(ids);
                                },
                                DataView::Dict(ids) => {
                                    lemma_fields_are_well_formed(ids);
                                },
                                _ => {},
                            }
                        }
                    },
                    _ => {},
                }
            }
        },
        _ => {},
    }
}

/// The items that are read from an array are well formed.
pub proof fn lemma_list_is_well_formed(items: Seq<DataView>)
    requires
        decoded_list(items).is_ok(),
    ensures
        forall|i: int|
            0 <= i < decoded_list(items).unwrap().len() ==> well_formed(
                #[trigger] decoded_list(items).unwrap()[i],
            ),
    decreases items,
{
    if items.len() > 0 {
        lemma_list_is_well_formed(items.drop_last());
        lemma_read_is_well_formed(items.last());
        let front = decoded_list(items.drop_last()).unwrap();
        let all = decoded_list(items).unwrap();
        assert forall|i: int| 0 <= i < all.len() implies well_formed(#[trigger] all[i]) by {
            if i < front.len() {
                assert(all[i] == front[i]);
            }
        }
    }
}

/// The fields that are read from a map stand in the order of their names
/// and are well formed.
pub proof fn lemma_fields_are_well_formed(pairs: Seq<(DataView, DataView)>)
    requires
        decoded_fields(pairs).is_ok(),
    ensures
        sorted_fields(decoded_fields(pairs).unwrap()),
        forall|i: int|
            0 <= i < decoded_fields(pairs).unwrap().len() ==> well_formed(
                (#[trigger] decoded_fields(pairs).unwrap()[i]).1,
            ),
    decreases pairs,
{
    if pairs.len() > 0 {
        lemma_fields_are_well_formed(pairs.drop_last());
        lemma_read_is_well_formed(pairs.last().1);
        let front = decoded_fields(pairs.drop_last()).unwrap();
        let name = key_of(decoded(pairs.last().0).unwrap()).unwrap();
        let v = decoded(pairs.last().1).unwrap();
        lemma_put_field(front, name, v);
        let all = decoded_fields(pairs).unwrap();
        assert(all == put_field(front, name, v));
        assert forall|i: int| 0 <= i < all.len() implies well_formed((#[trigger] all[i]).1) by {
            if all[i].1 != v {
                let m = choose|m: int| 0 <= m < front.len() && front[m] == all[i];
                assert(well_formed(front[m].1));
            }
        }
    }
}

} // verus!
