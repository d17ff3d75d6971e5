//! The layout of the store: the keys that the records stand under, and the
//! revision that every stored record carries.

use vstd::prelude::*;
use vstd::string::StringExecFns;
use crate::error::Error;
use crate::ident::{TableRef, TableView, Uuid, uuid_text};
use crate::text::{decimal, push_decimal};

verus! {

/// The revision of the layout that this library writes and reads.
pub const REVISION: u16 = 1;

/// Whether a record of revision `found` can be read: one of a later
/// revision than this library knows cannot.
pub fn check_revision(found: u16) -> (done: Result<(), Error>)
    ensures
        match done {
            Ok(()) => found <= REVISION,
            Err(e) => e == Error::UnsupportedRevision && found > REVISION,
        },
{
    if found <= REVISION {
        Ok(())
    } else {
        Err(Error::UnsupportedRevision)
    }
}

/// A record as it is stored: with the revision of the layout that wrote it.
#[derive(Clone, Debug, PartialEq, Eq)]
pub struct Stored<T> {
    pub revision: u16,
    pub record: T,
}

impl<T> Stored<T> {
    /// The record as this library stores it: with its own revision.
    pub fn new(record: T) -> (stored: Self)
        ensures
            stored.revision == REVISION,
            stored.record == record,
    {
        Stored { revision: REVISION, record }
    }

    /// The record, if it was written by a revision that this library knows.
    pub fn read(self) -> (record: Result<T, Error>)
        ensures
            match record {
                Ok(r) => self.revision <= REVISION && r == self.record,
                Err(e) => e == Error::UnsupportedRevision && self.revision > REVISION,
            },
    {
        match check_revision(self.revision) {
            Ok(()) => Ok(self.record),
            Err(e) => Err(e),
        }
    }
}

/// The key of the record of a node.
pub open spec fn node_path(id: Uuid) -> Seq<char> {
    "nd/"@ + uuid_text(id.0)
}

/// The key of a heartbeat.
pub open spec fn heartbeat_path(ts: u64, node: Uuid) -> Seq<char> {
    "hb/"@ + decimal(ts as nat) + "/"@ + uuid_text(node.0)
}

/// The key of a node live query.
pub open spec fn ndlq_path(node: Uuid, lq: Uuid) -> Seq<char> {
    "ndlq/"@ + uuid_text(node.0) + "/"@ + uuid_text(lq.0)
}

/// The part of a key that names a table.
pub open spec fn table_path(table: TableView) -> Seq<char> {
    table.ns + "/"@ + table.db + "/"@ + table.tb
}

/// The key of a table live query.
pub open spec fn tblq_path(table: TableView, lq: Uuid) -> Seq<char> {
    "tblq/"@ + table_path(table) + "/"@ + uuid_text(lq.0)
}

/// The key of a notification.
pub open spec fn notification_path(table: TableView, lq: Uuid, id: Uuid) -> Seq<char> {
    "nt/"@ + table_path(table) + "/"@ + uuid_text(lq.0) + "/"@ + uuid_text(id.0)
}

fn push_uuid(out: &mut String, id: Uuid)
    ensures
        final(out)@ == old(out)@ + uuid_text(id.0),
{
    let text = id.to_text();
    out.append(text.as_str());
}

fn push_table(out: &mut String, table: &TableRef)
    ensures
        final(out)@ == old(out)@ + table_path(table@),
{
    out.append(table.ns.as_str());
    out.append("/");
    out.append(table.db.as_str());
    out.append("/");
    out.append(table.tb.as_str());
    assert(out@ =~= old(out)@ + table_path(table@));
}

/// The key of the record of a node.
pub fn node_key(id: Uuid) -> (key: String)
    ensures
        key@ == node_path(id),
{
    let mut key = String::new();
    key.append("nd/");
    push_uuid(&mut key, id);
    assert(key@ =~= node_path(id));
    key
}

/// The key of a heartbeat.
pub fn heartbeat_key(ts: u64, node: Uuid) -> (key: String)
    ensures
        key@ == heartbeat_path(ts, node),
{
    let mut key = String::new();
    key.append("hb/");
    push_decimal(&mut key, ts as u128);
    key.append("/");
    push_uuid(&mut key, node);
    assert(key@ =~= heartbeat_path(ts, node));
    key
}

/// The key of a node live query.
pub fn ndlq_key(node: Uuid, lq: Uuid) -> (key: String)
    ensures
        key@ == ndlq_path(node, lq),
{
    let mut key = String::new();
    key.append("ndlq/");
    push_uuid(&mut key, node);
    key.append("/");
    push_uuid(&mut key, lq);
    assert(key@ =~= ndlq_path(node, lq));
    key
}

/// The key of a table live query.
pub fn tblq_key(table: &TableRef, lq: Uuid) -> (key: String)
    ensures
        key@ == tblq_path(table@, lq),
{
    let mut key = String::new();
    key.append("tblq/");
    push_table(&mut key, table);
    key.append("/");
    push_uuid(&mut key, lq);
    assert(key@ =~= tblq_path(table@, lq));
    key
}

/// The key of a notification.
pub fn notification_key(table: &TableRef, lq: Uuid, id: Uuid) -> (key: String)
    ensures
        key@ == notification_path(table@, lq, id),
{
    let mut key = String::new();
    key.append("nt/");
    push_table(&mut key, table);
    key.append("/");
    push_uuid(&mut key, lq);
    key.append("/");
    push_uuid(&mut key, id);
    assert(key@ =~= notification_path(table@, lq, id));
    key
}

} // verus!
