//! Change capture: the mutations of one transaction, in the order they were made.

use vstd::prelude::*;
use crate::document::{Document, FieldView};
use crate::ident::{TableRef, TableView};
use crate::record::Action;
use crate::seqs::{
    Duplicate, duplicate_all, duplicate_option, lemma_views_push, option_view, views_of,
};

verus! {

/// The mathematical value of a [`Change`].
pub struct ChangeView {
    pub table: TableView,
    pub record: Seq<char>,
    pub action: Action,
    pub before: Option<Seq<FieldView>>,
    pub after: Option<Seq<FieldView>>,
}

/// One mutation of one record: what happened, and the images of the record
/// before and after.
#[derive(Clone, Debug, PartialEq, Eq)]
pub struct Change {
    pub table: TableRef,
    pub record: String,
    pub action: Action,
    pub before: Option<Document>,
    pub after: Option<Document>,
}

impl View for Change {
    type V = ChangeView;

    open spec fn view(&self) -> ChangeView {
        ChangeView {
            table: self.table@,
            record: self.record@,
            action: self.action,
            before: option_view(self.before),
            after: option_view(self.after),
        }
    }
}

impl Duplicate for Change {
    fn duplicate(&self) -> (copy: Self) {
        Change {
            table: self.table.duplicate(),
            record: self.record.clone(),
            action: self.action,
            before: duplicate_option(&self.before),
            after: duplicate_option(&self.after),
        }
    }
}

/// The image that a filter is evaluated on: the record after the change, or
/// before it where the record was deleted. A missing image counts as a
/// record without fields.
pub open spec fn image_of(change: ChangeView) -> Seq<FieldView> {
    let chosen = if change.action == Action::Delete {
        change.before
    } else {
        change.after
    };
    match chosen {
        Some(fields) => fields,
        None => Seq::empty(),
    }
}

impl Change {
    /// The image that a filter is evaluated on.
    pub fn image(&self) -> (image: Document)
        ensures
            image@ == image_of(self@),
    {
        let chosen = match self.action {
            Action::Delete => &self.before,
            _ => &self.after,
        };
        match chosen {
            Some(fields) => fields.duplicate(),
            None => {
                let empty = Document::new();
                empty
            },
        }
    }
}

/// The change buffer of a transaction.
#[derive(Clone, Debug, PartialEq, Eq)]
pub struct ChangeBuffer {
    entries: Vec<Change>,
}

impl View for ChangeBuffer {
    type V = Seq<ChangeView>;

    closed spec fn view(&self) -> Seq<ChangeView> {
        views_of(self.entries@)
    }
}

impl ChangeBuffer {
    /// A buffer without changes.
    pub fn new() -> (buffer: Self)
        ensures
            buffer@ == Seq::<ChangeView>::empty(),
    {
        let buffer = ChangeBuffer { entries: Vec::new() };
        assert(buffer@ =~= Seq::<ChangeView>::empty());
        buffer
    }

    /// Records one mutation behind those recorded before.
    pub fn capture(
        &mut self,
        table: &TableRef,
        record: &str,
        action: Action,
        before: Option<Document>,
        after: Option<Document>,
    )
        ensures
            final(self)@ == old(self)@.push(
                ChangeView {
                    table: table@,
                    record: record@,
                    action,
                    before: option_view(before),
                    after: option_view(after),
                },
            ),
    {
        let change = Change {
            table: table.duplicate(),
            record: record.to_owned(),
            action,
            before,
            after,
        };
        proof {
            lemma_views_push(self.entries@, change);
        }
        self.entries.push(change);
    }

    /// The number of recorded changes.
    pub fn len(&self) -> (n: usize)
        ensures
            n == self@.len(),
    {
        self.entries.len()
    }

    /// The recorded changes, oldest first.
    pub fn changes(&self) -> (out: &Vec<Change>)
        ensures
            views_of(out@) == self@,
    {
        &self.entries
    }

    /// Empties the buffer and hands out what it held, oldest first.
    pub fn drain(&mut self) -> (out: Vec<Change>)
        ensures
            views_of(out@) == old(self)@,
            final(self)@ == Seq::<ChangeView>::empty(),
    {
        let mut out: Vec<Change> = Vec::new();
        std::mem::swap(&mut out, &mut self.entries);
        assert(self@ =~= Seq::<ChangeView>::empty());
        out
    }

    /// A copy of the buffer.
    pub fn snapshot(&self) -> (copy: Self)
        ensures
            copy@ == self@,
    {
        ChangeBuffer { entries: duplicate_all(&self.entries) }
    }
}

} // verus!
