//! Live-query filters: the condition a record image has to meet for a
//! change to be published.

use vstd::prelude::*;
use crate::document::{Document, field_value, FieldView, Scalar, ScalarView};
use crate::error::Error;
use crate::seqs::{Duplicate, duplicate_all, views_of};

verus! {

/// The mathematical value of a [`Clause`].
pub enum ClauseView {
    Has(Seq<char>),
    Equals(Seq<char>, ScalarView),
    Differs(Seq<char>, ScalarView),
    Invoke(Seq<char>),
}

/// One condition of a filter.
#[derive(Clone, Debug, PartialEq, Eq)]
pub enum Clause {
    /// The record has a field of this name.
    Has(String),
    /// The field of this name holds this value.
    Equals(String, Scalar),
    /// The field of this name is missing or holds another value.
    Differs(String, Scalar),
    /// A call of a user-defined function. The core cannot run it:
    /// evaluating such a clause is an error.
    Invoke(String),
}

impl View for Clause {
    type V = ClauseView;

    open spec fn view(&self) -> ClauseView {
        match self {
            Clause::Has(name) => ClauseView::Has(name@),
            Clause::Equals(name, value) => ClauseView::Equals(name@, value@),
            Clause::Differs(name, value) => ClauseView::Differs(name@, value@),
            Clause::Invoke(name) => ClauseView::Invoke(name@),
        }
    }
}

impl Duplicate for Clause {
    fn duplicate(&self) -> (copy: Self) {
        match self {
            Clause::Has(name) => Clause::Has(name.clone()),
            Clause::Equals(name, value) => Clause::Equals(name.clone(), value.duplicate()),
            Clause::Differs(name, value) => Clause::Differs(name.clone(), value.duplicate()),
            Clause::Invoke(name) => Clause::Invoke(name.clone()),
        }
    }
}

/// What a clause says of a record image; `None` where it cannot be evaluated.
pub open spec fn clause_holds(clause: ClauseView, image: Seq<FieldView>) -> Option<bool> {
    match clause {
        ClauseView::Has(name) => Some(field_value(image, name).is_some()),
        ClauseView::Equals(name, value) => Some(field_value(image, name) == Some(value)),
        ClauseView::Differs(name, value) => Some(field_value(image, name) != Some(value)),
        ClauseView::Invoke(_) => None,
    }
}

/// What a filter says of a record image. The clauses are taken in order and
/// all have to hold; the first that fails settles the answer, and a clause
/// that cannot be evaluated makes the whole evaluation fail (`None`) unless
/// an earlier clause has already failed.
pub open spec fn filter_holds(clauses: Seq<ClauseView>, image: Seq<FieldView>) -> Option<bool>
    decreases clauses.len(),
{
    if clauses.len() == 0 {
        Some(true)
    } else {
        match clause_holds(clauses[0], image) {
            None => None,
            Some(false) => Some(false),
            Some(true) => filter_holds(clauses.skip(1), image),
        }
    }
}

/// The filter of a live query: a conjunction of clauses. The empty filter
/// accepts every record of the table.
#[derive(Clone, Debug, PartialEq, Eq)]
pub struct Filter {
    pub clauses: Vec<Clause>,
}

impl View for Filter {
    type V = Seq<ClauseView>;

    open spec fn view(&self) -> Seq<ClauseView> {
        views_of(self.clauses@)
    }
}

impl Duplicate for Filter {
    fn duplicate(&self) -> (copy: Self) {
        Filter { clauses: duplicate_all(&self.clauses) }
    }
}

impl Clause {
    /// Evaluates the clause on a record image.
    pub fn evaluate(&self, image: &Document) -> (outcome: Result<bool, Error>)
        ensures
            match outcome {
                Ok(holds) => clause_holds(self@, image@) == Some(holds),
                Err(e) => e == Error::FilterEvaluation && clause_holds(self@, image@).is_none(),
            },
    {
        match self {
            Clause::Has(name) => Ok(image.get(name.as_str()).is_some()),
            Clause::Equals(name, value) => match image.get(name.as_str()) {
                Some(found) => Ok(found.same_as(value)),
                None => Ok(false),
            },
            Clause::Differs(name, value) => match image.get(name.as_str()) {
                Some(found) => Ok(!found.same_as(value)),
                None => Ok(true),
            },
            Clause::Invoke(_) => Err(Error::FilterEvaluation),
        }
    }
}

impl Filter {
    /// The filter that accepts every record.
    pub fn all() -> (filter: Self)
        ensures
            filter@ == Seq::<ClauseView>::empty(),
    {
        Filter { clauses: Vec::new() }
    }

    /// Evaluates the filter on a record image.
    pub fn evaluate(&self, image: &Document) -> (outcome: Result<bool, Error>)
        ensures
            match outcome {
                Ok(holds) => filter_holds(self@, image@) == Some(holds),
                Err(e) => e == Error::FilterEvaluation && filter_holds(self@, image@).is_none(),
            },
    {
        let mut i: usize = 0;
        assert(self@.skip(0) =~= self@);
        while i < self.clauses.len()
            invariant
                i <= self.clauses.len(),
                filter_holds(self@, image@) == filter_holds(self@.skip(i as int), image@),
            decreases self.clauses.len() - i,
        {
            assert(self@.skip(i as int)[0] == self.clauses[i as int]@);
            assert(self@.skip(i as int).skip(1) =~= self@.skip(i as int + 1));
            match self.clauses[i].evaluate(image) {
                Ok(true) => {},
                Ok(false) => {
                    return Ok(false);
                },
                Err(e) => {
                    return Err(e);
                },
            }
            i += 1;
        }
        Ok(true)
    }
}

} // verus!
