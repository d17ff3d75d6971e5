//! CBOR data as a tree, and the tags that mark the values of the database in it.

use vstd::prelude::*;

verus! {

/// Marks a datetime, written as text.
pub const TAG_DATETIME: u64 = 0;

/// Marks the value that stands for no value.
pub const TAG_NONE: u64 = 6;

/// Marks a UUID, written as text.
pub const TAG_UUID: u64 = 7;

/// Marks a decimal number, written as text.
pub const TAG_DECIMAL: u64 = 8;

/// Marks a duration, written as text.
pub const TAG_DURATION: u64 = 9;

/// Marks a record id.
pub const TAG_RECORDID: u64 = 10;

/// Marks the name of a table.
pub const TAG_TABLE: u64 = 11;

/// Marks a point.
pub const TAG_GEOMETRY_POINT: u64 = 88;

/// Marks a line.
pub const TAG_GEOMETRY_LINE: u64 = 89;

/// Marks a polygon.
pub const TAG_GEOMETRY_POLYGON: u64 = 90;

/// Marks a set of points.
pub const TAG_GEOMETRY_MULTIPOINT: u64 = 91;

/// Marks a set of lines.
pub const TAG_GEOMETRY_MULTILINE: u64 = 92;

/// Marks a set of polygons.
pub const TAG_GEOMETRY_MULTIPOLYGON: u64 = 93;

/// Marks a collection of geometries.
pub const TAG_GEOMETRY_COLLECTION: u64 = 94;

/// Whether `tag` marks a geometry.
pub open spec fn is_geometry_tag(tag: u64) -> bool {
    TAG_GEOMETRY_POINT <= tag <= TAG_GEOMETRY_COLLECTION
}

/// The mathematical value of a [`Data`].
pub enum DataView {
    Null,
    Bool(bool),
    Integer(i128),
    Float(u64),
    Bytes(Seq<u8>),
    Text(Seq<char>),
    Array(Seq<DataView>),
    Dict(Seq<(DataView, DataView)>),
    Tag(u64, Box<DataView>),
}

/// A piece of CBOR data. A floating-point number is held by its 64 bits.
#[derive(Debug, PartialEq, Eq)]
pub enum Data {
    Null,
    Bool(bool),
    Integer(i128),
    Float(u64),
    Bytes(Vec<u8>),
    Text(String),
    Array(Vec<Data>),
    /// A map: its pairs of key and value, in the order in which they are written.
    Dict(Vec<(Data, Data)>),
    Tag(u64, Box<Data>),
}

/// The mathematical value of a piece of CBOR data.
pub open spec fn data_view(d: Data) -> DataView
    decreases d,
{
    match d {
        Data::Null => DataView::Null,
        Data::Bool(b) => DataView::Bool(b),
        Data::Integer(i) => DataView::Integer(i),
        Data::Float(bits) => DataView::Float(bits),
        Data::Bytes(bytes) => DataView::Bytes(bytes@),
        Data::Text(t) => DataView::Text(t@),
        Data::Array(items) => DataView::Array(
            Seq::new(
                items.len() as nat,
                |i: int|
                    if 0 <= i < items.len() {
                        data_view(items[i])
                    } else {
                        DataView::Null
                    },
            ),
        ),
        Data::Dict(pairs) => DataView::Dict(
            Seq::new(
                pairs.len() as nat,
                |i: int|
                    if 0 <= i < pairs.len() {
                        (data_view(pairs[i].0), data_view(pairs[i].1))
                    } else {
                        (DataView::Null, DataView::Null)
                    },
            ),
        ),
        Data::Tag(t, inner) => DataView::Tag(t, Box::new(data_view(*inner))),
    }
}

impl View for Data {
    type V = DataView;

    open spec fn view(&self) -> DataView {
        data_view(*self)
    }
}

/// The views of pieces of data, in the same order.
pub open spec fn data_views(items: Seq<Data>) -> Seq<DataView> {
    Seq::new(items.len(), |i: int| data_view(items[i]))
}

/// The views of pairs of pieces of data, in the same order.
pub open spec fn pair_views(pairs: Seq<(Data, Data)>) -> Seq<(DataView, DataView)> {
    Seq::new(pairs.len(), |i: int| (data_view(pairs[i].0), data_view(pairs[i].1)))
}

/// The view of an array is made of the views of its items.
pub proof fn lemma_array_view(items: Vec<Data>)
    ensures
        data_view(Data::Array(items)) == DataView::Array(data_views(items@)),
{
    assert(data_view(Data::Array(items))->Array_0 =~= data_views(items@));
}

/// The view of a map is made of the views of its pairs.
pub proof fn lemma_dict_view(pairs: Vec<(Data, Data)>)
    ensures
        data_view(Data::Dict(pairs)) == DataView::Dict(pair_views(pairs@)),
{
    assert(data_view(Data::Dict(pairs))->Dict_0 =~= pair_views(pairs@));
}

impl Clone for Data {
    fn clone(&self) -> (copy: Self)
        ensures
            copy@ == self@,
    {
        self.duplicate()
    }
}

impl Data {
    /// A copy of the data.
    pub fn duplicate(&self) -> (copy: Self)
        ensures
            copy@ == self@,
        decreases self,
    {
        match self {
            Data::Null => Data::Null,
            Data::Bool(b) => Data::Bool(*b),
            Data::Integer(i) => Data::Integer(*i),
            Data::Float(bits) => Data::Float(*bits),
            Data::Bytes(bytes) => {
                let copy = bytes.clone();
                assert(copy@ =~= bytes@);
                Data::Bytes(copy)
            },
            Data::Text(t) => Data::Text(t.clone()),
            Data::Array(items) => {
                let mut out: Vec<Data> = Vec::new();
                let mut i: usize = 0;
                while i < items.len()
                    invariant
                        i <= items.len(),
                        out.len() == i,
                        decreases_to!(self => items),
                        forall|j: int| 0 <= j < i ==> data_view(out[j]) == data_view(items[j]),
                    decreases items.len() - i,
                {
                    proof {
                        vstd::std_specs::vec::axiom_vec_index_decreases(*items, i as int);
                    }
                    out.push(items[i].duplicate());
                    i += 1;
                }
                proof {
                    lemma_array_view(out);
                    lemma_array_view(*items);
                    assert(data_views(out@) =~= data_views(items@));
                }
                Data::Array(out)
            },
            Data::Dict(pairs) => {
                let mut out: Vec<(Data, Data)> = Vec::new();
                let mut i: usize = 0;
                while i < pairs.len()
                    invariant
                        i <= pairs.len(),
                        out.len() == i,
                        decreases_to!(self => pairs),
                        forall|j: int|
                            0 <= j < i ==> data_view(out[j].0) == data_view(pairs[j].0)
                                && data_view(out[j].1) == data_view(pairs[j].1),
                    decreases pairs.len() - i,
                {
                    proof {
                        vstd::std_specs::vec::axiom_vec_index_decreases(*pairs, i as int);
                    }
                    out.push((pairs[i].0.duplicate(), pairs[i].1.duplicate()));
                    i += 1;
                }
                proof {
                    lemma_dict_view(out);
                    lemma_dict_view(*pairs);
                    assert(pair_views(out@) =~= pair_views(pairs@));
                }
                Data::Dict(out)
            },
            Data::Tag(t, inner) => Data::Tag(*t, Box::new(inner.duplicate())),
        }
    }
}

} // verus!
