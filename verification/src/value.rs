//! The values of the database.

use vstd::prelude::*;
use crate::cbor::{Data, data_view, DataView};
use crate::ident::Uuid;

verus! {

/// The mathematical value of a [`Number`].
pub enum NumberView {
    Int(i64),
    Float(u64),
    Decimal(Seq<char>),
}

/// A number: whole, floating-point (held by its 64 bits) or decimal
/// (held by its digits, as they are written).
#[derive(Clone, Debug, PartialEq, Eq)]
pub enum Number {
    Int(i64),
    Float(u64),
    Decimal(String),
}

impl View for Number {
    type V = NumberView;

    open spec fn view(&self) -> NumberView {
        match self {
            Number::Int(i) => NumberView::Int(*i),
            Number::Float(bits) => NumberView::Float(*bits),
            Number::Decimal(digits) => NumberView::Decimal(digits@),
        }
    }
}

impl Number {
    /// A copy of the number.
    pub fn duplicate(&self) -> (copy: Self)
        ensures
            copy@ == self@,
    {
        match self {
            Number::Int(i) => Number::Int(*i),
            Number::Float(bits) => Number::Float(*bits),
            Number::Decimal(digits) => Number::Decimal(digits.clone()),
        }
    }
}

/// The mathematical value of an [`Id`].
pub enum IdView {
    Number(i64),
    String(Seq<char>),
    Array(Seq<ValueView>),
    Object(Seq<(Seq<char>, ValueView)>),
    Generate,
}

/// The mathematical value of a [`Thing`].
pub struct ThingView {
    pub tb: Seq<char>,
    pub id: IdView,
}

/// The mathematical value of a [`Value`].
pub enum ValueView {
    Absent,
    Null,
    Bool(bool),
    Number(NumberView),
    Strand(Seq<char>),
    Duration(Seq<char>),
    Datetime(Seq<char>),
    Uuid(Uuid),
    Array(Seq<ValueView>),
    Object(Seq<(Seq<char>, ValueView)>),
    Bytes(Seq<u8>),
    Thing(Box<ThingView>),
    Table(Seq<char>),
    Geometry(DataView),
    Param(Seq<char>),
}

/// The id of a record within its table.
#[derive(Debug, PartialEq, Eq)]
pub enum Id {
    Number(i64),
    String(String),
    Array(Vec<Value>),
    /// Fields by name, in the order of their names, no name twice.
    Object(Vec<(String, Value)>),
    /// An id that is still to be generated.
    Generate,
}

/// A record id: the table and the id within it.
#[derive(Debug, PartialEq, Eq)]
pub struct Thing {
    pub tb: String,
    pub id: Id,
}

/// A value.
#[derive(Debug, PartialEq, Eq)]
pub enum Value {
    /// No value at all: what a statement gives that only changes the store.
    Absent,
    /// The null value.
    Null,
    Bool(bool),
    Number(Number),
    /// A string.
    Strand(String),
    /// A duration, as it is written.
    Duration(String),
    /// A datetime, as it is written.
    Datetime(String),
    Uuid(Uuid),
    Array(Vec<Value>),
    /// Fields by name, in the order of their names, no name twice.
    Object(Vec<(String, Value)>),
    Bytes(Vec<u8>),
    Thing(Thing),
    /// The name of a table.
    Table(String),
    /// A geometry, kept as the tagged CBOR data that describes it: its
    /// coordinates are floating-point numbers, which this library carries
    /// but does not compute with.
    Geometry(Data),
    /// A parameter, by name: an expression that stands for a value and is none.
    Param(String),
}

/// The mathematical value of a value.
pub open spec fn value_view(v: Value) -> ValueView
    decreases v,
{
    match v {
        Value::Absent => ValueView::Absent,
        Value::Null => ValueView::Null,
        Value::Bool(b) => ValueView::Bool(b),
        Value::Number(n) => ValueView::Number(n@),
        Value::Strand(s) => ValueView::Strand(s@),
        Value::Duration(s) => ValueView::Duration(s@),
        Value::Datetime(s) => ValueView::Datetime(s@),
        Value::Uuid(u) => ValueView::Uuid(u),
        Value::Array(items) => ValueView::Array(
            Seq::new(
                items.len() as nat,
                |i: int|
                    if 0 <= i < items.len() {
                        value_view(items[i])
                    } else {
                        ValueView::Absent
                    },
            ),
        ),
        Value::Object(fields) => ValueView::Object(
            Seq::new(
                fields.len() as nat,
                |i: int|
                    if 0 <= i < fields.len() {
                        (fields[i].0@, value_view(fields[i].1))
                    } else {
                        (Seq::empty(), ValueView::Absent)
                    },
            ),
        ),
        Value::Bytes(bytes) => ValueView::Bytes(bytes@),
        Value::Thing(thing) => ValueView::Thing(
            Box::new(ThingView { tb: thing.tb@, id: id_view(thing.id) }),
        ),
        Value::Table(s) => ValueView::Table(s@),
        Value::Geometry(d) => ValueView::Geometry(data_view(d)),
        Value::Param(s) => ValueView::Param(s@),
    }
}

/// The mathematical value of an id.
pub open spec fn id_view(id: Id) -> IdView
    decreases id,
{
    match id {
        Id::Number(i) => IdView::Number(i),
        Id::String(s) => IdView::String(s@),
        Id::Array(items) => IdView::Array(
            Seq::new(
                items.len() as nat,
                |i: int|
                    if 0 <= i < items.len() {
                        value_view(items[i])
                    } else {
                        ValueView::Absent
                    },
            ),
        ),
        Id::Object(fields) => IdView::Object(
            Seq::new(
                fields.len() as nat,
                |i: int|
                    if 0 <= i < fields.len() {
                        (fields[i].0@, value_view(fields[i].1))
                    } else {
                        (Seq::empty(), ValueView::Absent)
                    },
            ),
        ),
        Id::Generate => IdView::Generate,
    }
}

impl View for Value {
    type V = ValueView;

    open spec fn view(&self) -> ValueView {
        value_view(*self)
    }
}

impl View for Id {
    type V = IdView;

    open spec fn view(&self) -> IdView {
        id_view(*self)
    }
}

impl View for Thing {
    type V = ThingView;

    open spec fn view(&self) -> ThingView {
        ThingView { tb: self.tb@, id: id_view(self.id) }
    }
}

/// The views of values, in the same order.
pub open spec fn value_views(items: Seq<Value>) -> Seq<ValueView> {
    Seq::new(items.len(), |i: int| value_view(items[i]))
}

/// The views of named values, in the same order.
pub open spec fn field_views(fields: Seq<(String, Value)>) -> Seq<(Seq<char>, ValueView)> {
    Seq::new(fields.len(), |i: int| (fields[i].0@, value_view(fields[i].1)))
}

/// The view of a list of values is made of the views of the values.
pub proof fn lemma_list_views(items: Vec<Value>)
    ensures
        value_view(Value::Array(items)) == ValueView::Array(value_views(items@)),
        id_view(Id::Array(items)) == IdView::Array(value_views(items@)),
{
    assert(value_view(Value::Array(items))->Array_0 =~= value_views(items@));
    assert(id_view(Id::Array(items))->Array_0 =~= value_views(items@));
}

/// The view of a list of fields is made of the views of the fields.
pub proof fn lemma_fields_views(fields: Vec<(String, Value)>)
    ensures
        value_view(Value::Object(fields)) == ValueView::Object(field_views(fields@)),
        id_view(Id::Object(fields)) == IdView::Object(field_views(fields@)),
{
    assert(value_view(Value::Object(fields))->Object_0 =~= field_views(fields@));
    assert(id_view(Id::Object(fields))->Object_0 =~= field_views(fields@));
}

fn duplicate_list(items: &Vec<Value>) -> (copy: Vec<Value>)
    ensures
        value_views(copy@) == value_views(items@),
    decreases items,
{
    let mut copy: Vec<Value> = Vec::new();
    let mut i: usize = 0;
    while i < items.len()
        invariant
            i <= items.len(),
            copy.len() == i,
            forall|j: int| 0 <= j < i ==> value_view(copy[j]) == value_view(items[j]),
        decreases items.len() - i,
    {
        proof {
            vstd::std_specs::vec::axiom_vec_index_decreases(*items, i as int);
        }
        copy.push(items[i].duplicate());
        i += 1;
    }
    assert(value_views(copy@) =~= value_views(items@));
    copy
}

fn duplicate_fields(fields: &Vec<(String, Value)>) -> (copy: Vec<(String, Value)>)
    ensures
        field_views(copy@) == field_views(fields@),
    decreases fields,
{
    let mut copy: Vec<(String, Value)> = Vec::new();
    let mut i: usize = 0;
    while i < fields.len()
        invariant
            i <= fields.len(),
            copy.len() == i,
            forall|j: int|
                0 <= j < i ==> copy[j].0@ == fields[j].0@ && value_view(copy[j].1) == value_view(
                    fields[j].1,
                ),
        decreases fields.len() - i,
    {
        proof {
            vstd::std_specs::vec::axiom_vec_index_decreases(*fields, i as int);
        }
        copy.push((fields[i].0.clone(), fields[i].1.duplicate()));
        i += 1;
    }
    assert(field_views(copy@) =~= field_views(fields@));
    copy
}

impl Id {
    /// A copy of the id.
    pub fn duplicate(&self) -> (copy: Self)
        ensures
            copy@ == self@,
        decreases self,
    {
        match self {
            Id::Number(i) => Id::Number(*i),
            Id::String(s) => Id::String(s.clone()),
            Id::Array(items) => {
                let copy = duplicate_list(items);
                proof {
                    lemma_list_views(copy);
                    lemma_list_views(*items);
                }
                Id::Array(copy)
            },
            Id::Object(fields) => {
                let copy = duplicate_fields(fields);
                proof {
                    lemma_fields_views(copy);
                    lemma_fields_views(*fields);
                }
                Id::Object(copy)
            },
            Id::Generate => Id::Generate,
        }
    }
}

impl Value {
    /// A copy of the value.
    pub fn duplicate(&self) -> (copy: Self)
        ensures
            copy@ == self@,
        decreases self,
    {
        match self {
            Value::Absent => Value::Absent,
            Value::Null => Value::Null,
            Value::Bool(b) => Value::Bool(*b),
            Value::Number(n) => Value::Number(n.duplicate()),
            Value::Strand(s) => Value::Strand(s.clone()),
            Value::Duration(s) => Value::Duration(s.clone()),
            Value::Datetime(s) => Value::Datetime(s.clone()),
            Value::Uuid(u) => Value::Uuid(*u),
            Value::Array(items) => {
                let copy = duplicate_list(items);
                proof {
                    lemma_list_views(copy);
                    lemma_list_views(*items);
                }
                Value::Array(copy)
            },
            Value::Object(fields) => {
                let copy = duplicate_fields(fields);
                proof {
                    lemma_fields_views(copy);
                    lemma_fields_views(*fields);
                }
                Value::Object(copy)
            },
            Value::Bytes(bytes) => {
                let copy = bytes.clone();
                assert(copy@ =~= bytes@);
                Value::Bytes(copy)
            },
            Value::Thing(thing) => Value::Thing(
                Thing { tb: thing.tb.clone(), id: thing.id.duplicate() },
            ),
            Value::Table(s) => Value::Table(s.clone()),
            Value::Geometry(d) => Value::Geometry(d.duplicate()),
            Value::Param(s) => Value::Param(s.clone()),
        }
    }
}

impl Clone for Id {
    fn clone(&self) -> (copy: Self)
        ensures
            copy@ == self@,
    {
        self.duplicate()
    }
}

impl Clone for Thing {
    fn clone(&self) -> (copy: Self)
        ensures
            copy@ == self@,
    {
        Thing { tb: self.tb.clone(), id: self.id.duplicate() }
    }
}

impl Clone for Value {
    fn clone(&self) -> (copy: Self)
        ensures
            copy@ == self@,
    {
        self.duplicate()
    }
}

} // verus!
