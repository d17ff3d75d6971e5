//! Geometries as they are written in CBOR data. The coordinates of a point
//! are numbers with a fraction; here they are held by their digits.

use vstd::prelude::*;
use crate::cbor::{
    Data, data_view, data_views, DataView, lemma_array_view, TAG_DECIMAL, TAG_GEOMETRY_COLLECTION,
    TAG_GEOMETRY_LINE, TAG_GEOMETRY_MULTILINE, TAG_GEOMETRY_MULTIPOINT, TAG_GEOMETRY_MULTIPOLYGON,
    TAG_GEOMETRY_POINT, TAG_GEOMETRY_POLYGON,
};

verus! {

/// The mathematical value of a [`Shape`].
pub enum ShapeView {
    Point(Seq<char>, Seq<char>),
    Line(Seq<ShapeView>),
    Polygon(Seq<ShapeView>),
    MultiPoint(Seq<ShapeView>),
    MultiLine(Seq<ShapeView>),
    MultiPolygon(Seq<ShapeView>),
    Collection(Seq<ShapeView>),
}

/// A geometry.
#[derive(Debug, PartialEq, Eq)]
pub enum Shape {
    /// A point: its two coordinates, each as it is written.
    Point(String, String),
    /// A line: its points.
    Line(Vec<Shape>),
    /// A polygon: its outer line, then its inner lines.
    Polygon(Vec<Shape>),
    /// A set of points.
    MultiPoint(Vec<Shape>),
    /// A set of lines.
    MultiLine(Vec<Shape>),
    /// A set of polygons.
    MultiPolygon(Vec<Shape>),
    /// A collection of geometries of any kind.
    Collection(Vec<Shape>),
}

/// The mathematical value of a geometry.
pub open spec fn shape_view(v: Shape) -> ShapeView
    decreases v,
{
    match v {
        Shape::Point(x, y) => ShapeView::Point(x@, y@),
        Shape::Line(items) => ShapeView::Line(
            Seq::new(
                items.len() as nat,
                |i: int|
                    if 0 <= i < items.len() {
                        shape_view(items[i])
                    } else {
                        ShapeView::Point(Seq::empty(), Seq::empty())
                    },
            ),
        ),
        Shape::Polygon(items) => ShapeView::Polygon(
            Seq::new(
                items.len() as nat,
                |i: int|
                    if 0 <= i < items.len() {
                        shape_view(items[i])
                    } else {
                        ShapeView::Point(Seq::empty(), Seq::empty())
                    },
            ),
        ),
        Shape::MultiPoint(items) => ShapeView::MultiPoint(
            Seq::new(
                items.len() as nat,
                |i: int|
                    if 0 <= i < items.len() {
                        shape_view(items[i])
                    } else {
                        ShapeView::Point(Seq::empty(), Seq::empty())
                    },
            ),
        ),
        Shape::MultiLine(items) => ShapeView::MultiLine(
            Seq::new(
                items.len() as nat,
                |i: int|
                    if 0 <= i < items.len() {
                        shape_view(items[i])
                    } else {
                        ShapeView::Point(Seq::empty(), Seq::empty())
                    },
            ),
        ),
        Shape::MultiPolygon(items) => ShapeView::MultiPolygon(
            Seq::new(
                items.len() as nat,
                |i: int|
                    if 0 <= i < items.len() {
                        shape_view(items[i])
                    } else {
                        ShapeView::Point(Seq::empty(), Seq::empty())
                    },
            ),
        ),
        Shape::Collection(items) => ShapeView::Collection(
            Seq::new(
                items.len() as nat,
                |i: int|
                    if 0 <= i < items.len() {
                        shape_view(items[i])
                    } else {
                        ShapeView::Point(Seq::empty(), Seq::empty())
                    },
            ),
        ),
    }
}

impl View for Shape {
    type V = ShapeView;

    open spec fn view(&self) -> ShapeView {
        shape_view(*self)
    }
}

/// The views of geometries, in the same order.
pub open spec fn shape_views(items: Seq<Shape>) -> Seq<ShapeView> {
    Seq::new(items.len(), |i: int| shape_view(items[i]))
}

/// The view of a geometry with members is made of the views of the members.
pub proof fn lemma_member_views(items: Vec<Shape>)
    ensures
        shape_view(Shape::Line(items)) == ShapeView::Line(shape_views(items@)),
        shape_view(Shape::Polygon(items)) == ShapeView::Polygon(shape_views(items@)),
        shape_view(Shape::MultiPoint(items)) == ShapeView::MultiPoint(shape_views(items@)),
        shape_view(Shape::MultiLine(items)) == ShapeView::MultiLine(shape_views(items@)),
        shape_view(Shape::MultiPolygon(items)) == ShapeView::MultiPolygon(shape_views(items@)),
        shape_view(Shape::Collection(items)) == ShapeView::Collection(shape_views(items@)),
{
    assert(shape_view(Shape::Line(items))->Line_0 =~= shape_views(items@));
    assert(shape_view(Shape::Polygon(items))->Polygon_0 =~= shape_views(items@));
    assert(shape_view(Shape::MultiPoint(items))->MultiPoint_0 =~= shape_views(items@));
    assert(shape_view(Shape::MultiLine(items))->MultiLine_0 =~= shape_views(items@));
    assert(shape_view(Shape::MultiPolygon(items))->MultiPolygon_0 =~= shape_views(items@));
    assert(shape_view(Shape::Collection(items))->Collection_0 =~= shape_views(items@));
}

/// A coordinate as it is written in CBOR data: its digits, marked as a decimal.
pub open spec fn coordinate_data(digits: Seq<char>) -> DataView {
    DataView::Tag(TAG_DECIMAL, Box::new(DataView::Text(digits)))
}

/// The CBOR data that a geometry is written as: its members, in order, in
/// an array behind the tag of its kind; a point as its two coordinates.
pub open spec fn geometry_data(v: ShapeView) -> DataView
    decreases v,
{
    match v {
        ShapeView::Point(x, y) => DataView::Tag(
            TAG_GEOMETRY_POINT,
            Box::new(DataView::Array(seq![coordinate_data(x), coordinate_data(y)])),
        ),
        ShapeView::Line(items) => DataView::Tag(
            TAG_GEOMETRY_LINE,
            Box::new(DataView::Array(members_data(items))),
        ),
        ShapeView::Polygon(items) => DataView::Tag(
            TAG_GEOMETRY_POLYGON,
            Box::new(DataView::Array(members_data(items))),
        ),
        ShapeView::MultiPoint(items) => DataView::Tag(
            TAG_GEOMETRY_MULTIPOINT,
            Box::new(DataView::Array(members_data(items))),
        ),
        ShapeView::MultiLine(items) => DataView::Tag(
            TAG_GEOMETRY_MULTILINE,
            Box::new(DataView::Array(members_data(items))),
        ),
        ShapeView::MultiPolygon(items) => DataView::Tag(
            TAG_GEOMETRY_MULTIPOLYGON,
            Box::new(DataView::Array(members_data(items))),
        ),
        ShapeView::Collection(items) => DataView::Tag(
            TAG_GEOMETRY_COLLECTION,
            Box::new(DataView::Array(members_data(items))),
        ),
    }
}

/// The data that the members of a geometry are written as, in order.
pub open spec fn members_data(items: Seq<ShapeView>) -> Seq<DataView>
    decreases items,
{
    Seq::new(
        items.len(),
        |i: int|
            if 0 <= i < items.len() {
                geometry_data(items[i])
            } else {
                DataView::Null
            },
    )
}

fn encode_members(items: &Vec<Shape>) -> (data: Vec<Data>)
    ensures
        data_views(data@) == members_data(shape_views(items@)),
    decreases items,
{
    let mut data: Vec<Data> = Vec::new();
    let mut i: usize = 0;
    while i < items.len()
        invariant
            i <= items.len(),
            data.len() == i,
            forall|j: int| 0 <= j < i ==> data_view(data[j]) == geometry_data(shape_view(items[j])),
        decreases items.len() - i,
    {
        proof {
            vstd::std_specs::vec::axiom_vec_index_decreases(*items, i as int);
        }
        data.push(encode_geometry(&items[i]));
        i += 1;
    }
    assert(data_views(data@) =~= members_data(shape_views(items@)));
    data
}

fn tagged(tag: u64, members: Vec<Data>) -> (d: Data)
    ensures
        d@ == DataView::Tag(tag, Box::new(DataView::Array(data_views(members@)))),
{
    proof {
        lemma_array_view(members);
        reveal_with_fuel(data_view, 2);
    }
    Data::Tag(tag, Box::new(Data::Array(members)))
}

fn coordinate(digits: &String) -> (d: Data)
    ensures
        d@ == coordinate_data(digits@),
{
    proof {
        reveal_with_fuel(data_view, 2);
    }
    Data::Tag(TAG_DECIMAL, Box::new(Data::Text(digits.clone())))
}

/// The CBOR data that a geometry is written as.
pub fn encode_geometry(v: &Shape) -> (d: Data)
    ensures
        d@ == geometry_data(v@),
    decreases v,
{
    match v {
        Shape::Point(x, y) => {
            let mut parts: Vec<Data> = Vec::new();
            parts.push(coordinate(x));
            parts.push(coordinate(y));
            assert(data_views(parts@) =~= seq![coordinate_data(x@), coordinate_data(y@)]);
            tagged(TAG_GEOMETRY_POINT, parts)
        },
        Shape::Line(items) => {
            proof {
                lemma_member_views(*items);
            }
            tagged(TAG_GEOMETRY_LINE, encode_members(items))
        },
        Shape::Polygon(items) => {
            proof {
                lemma_member_views(*items);
            }
            tagged(TAG_GEOMETRY_POLYGON, encode_members(items))
        },
        Shape::MultiPoint(items) => {
            proof {
                lemma_member_views(*items);
            }
            tagged(TAG_GEOMETRY_MULTIPOINT, encode_members(items))
        },
        Shape::MultiLine(items) => {
            proof {
                lemma_member_views(*items);
            }
            tagged(TAG_GEOMETRY_MULTILINE, encode_members(items))
        },
        Shape::MultiPolygon(items) => {
            proof {
                lemma_member_views(*items);
            }
            tagged(TAG_GEOMETRY_MULTIPOLYGON, encode_members(items))
        },
        Shape::Collection(items) => {
            proof {
                lemma_member_views(*items);
            }
            tagged(TAG_GEOMETRY_COLLECTION, encode_members(items))
        },
    }
}

} // verus!
