//! Record images: the fields of a row before or after a mutation.

use vstd::prelude::*;
use crate::seqs::{Duplicate, duplicate_all, lemma_views_push, views_of};

verus! {

/// The mathematical value of a [`Scalar`].
pub enum ScalarView {
    Null,
    Bool(bool),
    Int(i64),
    Text(Seq<char>),
}

/// A field value.
#[derive(Clone, Debug, PartialEq, Eq)]
pub enum Scalar {
    Null,
    Bool(bool),
    Int(i64),
    Text(String),
}

impl View for Scalar {
    type V = ScalarView;

    open spec fn view(&self) -> ScalarView {
        match self {
            Scalar::Null => ScalarView::Null,
            Scalar::Bool(b) => ScalarView::Bool(*b),
            Scalar::Int(i) => ScalarView::Int(*i),
            Scalar::Text(t) => ScalarView::Text(t@),
        }
    }
}

impl Duplicate for Scalar {
    fn duplicate(&self) -> (copy: Self) {
        match self {
            Scalar::Null => Scalar::Null,
            Scalar::Bool(b) => Scalar::Bool(*b),
            Scalar::Int(i) => Scalar::Int(*i),
            Scalar::Text(t) => Scalar::Text(t.clone()),
        }
    }
}

impl Scalar {
    /// Whether both scalars hold the same value.
    pub fn same_as(&self, other: &Scalar) -> (same: bool)
        ensures
            same == (self@ == other@),
    {
        match (self, other) {
            (Scalar::Null, Scalar::Null) => true,
            (Scalar::Bool(a), Scalar::Bool(b)) => *a == *b,
            (Scalar::Int(a), Scalar::Int(b)) => *a == *b,
            (Scalar::Text(a), Scalar::Text(b)) => *a == *b,
            _ => false,
        }
    }
}

/// The mathematical value of a [`Field`].
pub struct FieldView {
    pub name: Seq<char>,
    pub value: ScalarView,
}

/// A named value of a record.
#[derive(Clone, Debug, PartialEq, Eq)]
pub struct Field {
    pub name: String,
    pub value: Scalar,
}

impl View for Field {
    type V = FieldView;

    open spec fn view(&self) -> FieldView {
        FieldView { name: self.name@, value: self.value@ }
    }
}

impl Duplicate for Field {
    fn duplicate(&self) -> (copy: Self) {
        Field { name: self.name.clone(), value: self.value.duplicate() }
    }
}

/// The value that `fields` gives to `name`: that of the first field so named.
pub open spec fn field_value(fields: Seq<FieldView>, name: Seq<char>) -> Option<ScalarView>
    decreases fields.len(),
{
    if fields.len() == 0 {
        None
    } else if fields[0].name == name {
        Some(fields[0].value)
    } else {
        field_value(fields.skip(1), name)
    }
}

/// The image of a record: its fields, in the order they were written.
#[derive(Clone, Debug, PartialEq, Eq)]
pub struct Document {
    pub fields: Vec<Field>,
}

impl View for Document {
    type V = Seq<FieldView>;

    open spec fn view(&self) -> Seq<FieldView> {
        views_of(self.fields@)
    }
}

impl Duplicate for Document {
    fn duplicate(&self) -> (copy: Self) {
        Document { fields: duplicate_all(&self.fields) }
    }
}

impl Document {
    /// The document without fields.
    pub fn new() -> (doc: Self)
        ensures
            doc@ == Seq::<FieldView>::empty(),
    {
        Document { fields: Vec::new() }
    }

    /// Appends a field.
    pub fn push(&mut self, name: &str, value: Scalar)
        ensures
            final(self)@ == old(self)@.push(FieldView { name: name@, value: value@ }),
    {
        let field = Field { name: name.to_owned(), value };
        proof {
            lemma_views_push(self.fields@, field);
        }
        self.fields.push(field);
    }

    /// The value of the first field called `name`, if there is one.
    pub fn get(&self, name: &str) -> (found: Option<&Scalar>)
        ensures
            match found {
                Some(value) => field_value(self@, name@) == Some(value@),
                None => field_value(self@, name@).is_none(),
            },
    {
        let probe = name.to_owned();
        let mut i: usize = 0;
        assert(self@.skip(0) =~= self@);
        while i < self.fields.len()
            invariant
                i <= self.fields.len(),
                probe@ == name@,
                field_value(self@, name@) == field_value(self@.skip(i as int), name@),
            decreases self.fields.len() - i,
        {
            assert(self@.skip(i as int)[0] == self.fields[i as int]@);
            assert(self@.skip(i as int).skip(1) =~= self@.skip(i as int + 1));
            if self.fields[i].name == probe {
                return Some(&self.fields[i].value);
            }
            i += 1;
        }
        None
    }
}

} // verus!
