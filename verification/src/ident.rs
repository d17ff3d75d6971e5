//! Identifiers: 128-bit ids and fully qualified table names.

use vstd::prelude::*;
use crate::seqs::Duplicate;

verus! {

/// A 128-bit identifier of a node, a live query or a notification.
#[derive(Clone, Copy, Debug, PartialEq, Eq, Structural, Hash)]
pub struct Uuid(pub u128);

/// What `uuid::Uuid::parse_str` makes of a text: the 128 bits of the id that
/// the text denotes, or nothing where the text denotes none.
pub uninterp spec fn uuid_parsed(text: Seq<char>) -> Option<u128>;

/// The character of a hexadecimal digit, in lower case.
pub open spec fn hex_char(digit: u128) -> char {
    if digit < 10 {
        ((48 + digit) as u8) as char
    } else {
        ((87 + digit) as u8) as char
    }
}

/// The hexadecimal digit of `bits` at place `k`, the highest being place 0.
pub open spec fn hex_digit(bits: u128, k: int) -> u128 {
    (bits >> (((31 - k) * 4) as u128)) & 0xf
}

/// The text of an id of these 128 bits: its 32 hexadecimal digits in lower
/// case, highest first, in groups of 8, 4, 4, 4 and 12 that hyphens
/// separate.
pub open spec fn uuid_text(bits: u128) -> Seq<char> {
    Seq::new(
        36,
        |i: int|
            if i == 8 || i == 13 || i == 18 || i == 23 {
                '-'
            } else if i < 8 {
                hex_char(hex_digit(bits, i))
            } else if i < 13 {
                hex_char(hex_digit(bits, i - 1))
            } else if i < 18 {
                hex_char(hex_digit(bits, i - 2))
            } else if i < 23 {
                hex_char(hex_digit(bits, i - 3))
            } else {
                hex_char(hex_digit(bits, i - 4))
            },
    )
}

/// The bits that tell the version and the variant of an id.
pub const VERSION_MASK: u128 = 0x0000_0000_0000_f000_c000_0000_0000_0000;

/// The version and variant bits of a random id.
pub const VERSION_RANDOM: u128 = 0x0000_0000_0000_4000_8000_0000_0000_0000;

/// Calls `uuid::Uuid::new_v4` and takes the bits of the id it made. The id
/// is random; all that is known of it is that it carries the version and
/// variant of a random id, which `new_v4` sets by masking.
#[verifier::external_body]
fn new_v4() -> (id: Uuid)
    ensures
        id.0 & VERSION_MASK == VERSION_RANDOM,
{
    Uuid(uuid::Uuid::new_v4().as_u128())
}

/// Calls `uuid::Uuid::parse_str` and takes the bits of the id it read.
#[verifier::external_body]
fn parse_text(text: &str) -> (bits: Option<u128>)
    ensures
        bits == uuid_parsed(text@),
{
    match uuid::Uuid::parse_str(text) {
        Ok(id) => Some(id.as_u128()),
        Err(_) => None,
    }
}

/// Calls `uuid::Uuid::from_u128` and writes the id in its hyphenated form:
/// 36 characters, the digits in lower case, hyphens after the 8th, 12th,
/// 16th and 20th digit. `uuid::Uuid::parse_str` reads the text back as the
/// same id.
#[verifier::external_body]
fn write_text(bits: u128) -> (text: String)
    ensures
        text@ == uuid_text(bits),
        uuid_parsed(text@) == Some(bits),
{
    uuid::Uuid::from_u128(bits).hyphenated().to_string()
}

impl Uuid {
    /// A random id.
    pub fn random() -> (id: Self)
        ensures
            id.0 & VERSION_MASK == VERSION_RANDOM,
    {
        new_v4()
    }

    /// The id that `text` denotes, if it denotes one.
    pub fn parse_str(text: &str) -> (id: Option<Self>)
        ensures
            id == match uuid_parsed(text@) {
                Some(bits) => Some(Uuid(bits)),
                None => None,
            },
    {
        match parse_text(text) {
            Some(bits) => Some(Uuid(bits)),
            None => None,
        }
    }

    /// The id in its hyphenated form, which `parse_str` reads back as the same id.
    pub fn to_text(&self) -> (text: String)
        ensures
            text@ == uuid_text(self.0),
            uuid_parsed(text@) == Some(self.0),
    {
        write_text(self.0)
    }
}

/// The mathematical value of a [`TableRef`]: three sequences of characters.
pub struct TableView {
    pub ns: Seq<char>,
    pub db: Seq<char>,
    pub tb: Seq<char>,
}

/// A table, named by namespace, database and table name.
#[derive(Clone, Debug, PartialEq, Eq)]
pub struct TableRef {
    pub ns: String,
    pub db: String,
    pub tb: String,
}

impl View for TableRef {
    type V = TableView;

    open spec fn view(&self) -> TableView {
        TableView { ns: self.ns@, db: self.db@, tb: self.tb@ }
    }
}

impl Duplicate for TableRef {
    fn duplicate(&self) -> (copy: Self) {
        TableRef { ns: self.ns.clone(), db: self.db.clone(), tb: self.tb.clone() }
    }
}

impl TableRef {
    /// Builds a table reference from its three names.
    pub fn new(ns: &str, db: &str, tb: &str) -> (table: Self)
        ensures
            table@ == (TableView { ns: ns@, db: db@, tb: tb@ }),
    {
        TableRef { ns: ns.to_owned(), db: db.to_owned(), tb: tb.to_owned() }
    }

    /// Whether both references name the same table.
    pub fn same_as(&self, other: &TableRef) -> (same: bool)
        ensures
            same == (self@ == other@),
    {
        self.ns == other.ns && self.db == other.db && self.tb == other.tb
    }
}

} // verus!
