//! Statements that change the definitions of the store.

use vstd::prelude::*;
use vstd::string::StringExecFns;
use crate::error::Error;
use crate::seqs::{Duplicate, duplicate_option, option_view};
use crate::transaction::{Transaction, TransactionView};
use crate::value::Value;
use crate::text::{decimal, name_text, push_decimal, push_name, push_string, string_text};

verus! {

/// A name.
#[derive(Clone, Debug, Default, PartialEq, Eq, Hash)]
pub struct Ident(pub String);

impl View for Ident {
    type V = Seq<char>;

    open spec fn view(&self) -> Seq<char> {
        self.0@
    }
}

impl Duplicate for Ident {
    fn duplicate(&self) -> (copy: Self) {
        Ident(self.0.clone())
    }
}

/// A string.
#[derive(Clone, Debug, Default, PartialEq, Eq, Hash)]
pub struct Strand(pub String);

impl View for Strand {
    type V = Seq<char>;

    open spec fn view(&self) -> Seq<char> {
        self.0@
    }
}

impl Duplicate for Strand {
    fn duplicate(&self) -> (copy: Self) {
        Strand(self.0.clone())
    }
}

/// The change feed of a database: for how many seconds changes are kept,
/// and whether the record before the change is kept with them.
#[derive(Clone, Copy, Debug, Default, PartialEq, Eq, Hash, Structural)]
pub struct ChangeFeed {
    pub expiry: u64,
    pub store_original: bool,
}

impl View for ChangeFeed {
    type V = ChangeFeed;

    open spec fn view(&self) -> ChangeFeed {
        *self
    }
}

impl Duplicate for ChangeFeed {
    fn duplicate(&self) -> (copy: Self) {
        *self
    }
}

/// A change feed as it is written in a statement.
pub open spec fn changefeed_text(feed: ChangeFeed) -> Seq<char> {
    "CHANGEFEED "@ + decimal(feed.expiry as nat) + "s"@ + if feed.store_original {
        " INCLUDE ORIGINAL"@
    } else {
        Seq::empty()
    }
}

impl ChangeFeed {
    /// The change feed as it is written in a statement.
    pub fn to_string(&self) -> (text: String)
        ensures
            text@ == changefeed_text(*self),
    {
        let mut text = String::new();
        text.append("CHANGEFEED ");
        push_decimal(&mut text, self.expiry as u128);
        text.append("s");
        if self.store_original {
            text.append(" INCLUDE ORIGINAL");
        }
        assert(text@ =~= changefeed_text(*self));
        text
    }
}

/// The mathematical value of a [`DefineDatabaseStatement`].
pub struct DefineDatabaseView {
    pub id: Option<u32>,
    pub name: Seq<char>,
    pub comment: Option<Seq<char>>,
    pub changefeed: Option<ChangeFeed>,
}

/// The statement that defines a database.
#[derive(Clone, Debug, Default, PartialEq, Eq, Hash)]
pub struct DefineDatabaseStatement {
    pub id: Option<u32>,
    pub name: Ident,
    pub comment: Option<Strand>,
    pub changefeed: Option<ChangeFeed>,
}

impl View for DefineDatabaseStatement {
    type V = DefineDatabaseView;

    open spec fn view(&self) -> DefineDatabaseView {
        DefineDatabaseView {
            id: self.id,
            name: self.name@,
            comment: option_view(self.comment),
            changefeed: self.changefeed,
        }
    }
}

impl Duplicate for DefineDatabaseStatement {
    fn duplicate(&self) -> (copy: Self) {
        DefineDatabaseStatement {
            id: self.id,
            name: self.name.duplicate(),
            comment: duplicate_option(&self.comment),
            changefeed: self.changefeed,
        }
    }
}

/// The statement as it is written: `DEFINE DATABASE`, the name, then the
/// comment and the change feed where it has them.
pub open spec fn define_database_text(stmt: DefineDatabaseView) -> Seq<char> {
    "DEFINE DATABASE "@ + name_text(stmt.name) + match stmt.comment {
        Some(comment) => " COMMENT "@ + string_text(comment),
        None => Seq::empty(),
    } + match stmt.changefeed {
        Some(feed) => " "@ + changefeed_text(feed),
        None => Seq::empty(),
    }
}

impl DefineDatabaseStatement {
    /// The statement as it is written.
    pub fn to_string(&self) -> (text: String)
        ensures
            text@ == define_database_text(self@),
    {
        let mut text = String::new();
        text.append("DEFINE DATABASE ");
        push_name(&mut text, self.name.0.as_str());
        let ghost head = text@;
        match &self.comment {
            Some(comment) => {
                text.append(" COMMENT ");
                push_string(&mut text, comment.0.as_str());
                assert(text@ =~= head + (" COMMENT "@ + string_text(comment@)));
            },
            None => {
                assert(text@ =~= head + Seq::<char>::empty());
            },
        }
        let ghost middle = text@;
        match &self.changefeed {
            Some(feed) => {
                text.append(" ");
                let feed_text = feed.to_string();
                text.append(feed_text.as_str());
                assert(text@ =~= middle + (" "@ + changefeed_text(*feed)));
            },
            None => {
                assert(text@ =~= middle + Seq::<char>::empty());
            },
        }
        assert(head =~= "DEFINE DATABASE "@ + name_text(self@.name));
        text
    }
}

/// The mathematical value of a [`RemoveParamStatement`].
pub struct RemoveParamView {
    pub name: Seq<char>,
}

/// The statement that removes a parameter.
#[derive(Clone, Debug, Default, PartialEq, Eq, Hash)]
pub struct RemoveParamStatement {
    pub name: Ident,
}

impl View for RemoveParamStatement {
    type V = RemoveParamView;

    open spec fn view(&self) -> RemoveParamView {
        RemoveParamView { name: self.name@ }
    }
}

/// The statement as it is written: `REMOVE PARAM $` and the name.
pub open spec fn remove_param_text(stmt: RemoveParamView) -> Seq<char> {
    "REMOVE PARAM $"@ + name_text(stmt.name)
}

impl RemoveParamStatement {
    /// The statement as it is written.
    pub fn to_string(&self) -> (text: String)
        ensures
            text@ == remove_param_text(self@),
    {
        let mut text = String::new();
        text.append("REMOVE PARAM $");
        push_name(&mut text, self.name.0.as_str());
        assert(text@ =~= remove_param_text(self@));
        text
    }
}

/// Where the authority of the one who asks is rooted.
#[derive(Clone, Copy, Debug, PartialEq, Eq, Structural)]
pub enum Level {
    /// Nowhere: a guest.
    No,
    /// In the whole store.
    Root,
    /// In the selected namespace.
    Namespace,
    /// In the selected database.
    Database,
}

/// What the one who asks may do where their authority reaches.
#[derive(Clone, Copy, Debug, PartialEq, Eq, Structural)]
pub enum Role {
    /// Read.
    Viewer,
    /// Read and change, but not those who may ask.
    Editor,
    /// Everything.
    Owner,
}

/// The level that a resource belongs to.
#[derive(Clone, Copy, Debug, PartialEq, Eq, Structural)]
pub enum Base {
    Root,
    Ns,
    Db,
}

/// What a statement does to a resource.
#[derive(Clone, Copy, Debug, PartialEq, Eq, Structural)]
pub enum Access {
    View,
    Edit,
}

/// The kind of resource that a statement works on.
#[derive(Clone, Copy, Debug, PartialEq, Eq, Structural)]
pub enum ResourceKind {
    Namespace,
    Database,
    Parameter,
    /// One who may ask: a user or a token.
    Actor,
}

/// The mathematical value of [`Options`].
pub struct OptionsView {
    pub ns: Seq<char>,
    pub db: Seq<char>,
    pub strict: bool,
    pub auth_enabled: bool,
    pub level: Level,
    pub role: Role,
}

/// What a statement is run with: the selected namespace and database,
/// whether the store is strict, and who asks.
#[derive(Clone, Debug, PartialEq, Eq)]
pub struct Options {
    pub ns: String,
    pub db: String,
    pub strict: bool,
    pub auth_enabled: bool,
    pub level: Level,
    pub role: Role,
}

impl View for Options {
    type V = OptionsView;

    open spec fn view(&self) -> OptionsView {
        OptionsView {
            ns: self.ns@,
            db: self.db@,
            strict: self.strict,
            auth_enabled: self.auth_enabled,
            level: self.level,
            role: self.role,
        }
    }
}

/// Whether authority that is rooted at `level` reaches the resources of `base`.
pub open spec fn reaches(level: Level, base: Base) -> bool {
    match base {
        Base::Root => level == Level::Root,
        Base::Ns => level == Level::Root || level == Level::Namespace,
        Base::Db => level == Level::Root || level == Level::Namespace || level == Level::Database,
    }
}

/// Whether `role` may do `access` to a resource of `kind`.
pub open spec fn permits(role: Role, access: Access, kind: ResourceKind) -> bool {
    match access {
        Access::View => true,
        Access::Edit => role == Role::Owner || (role == Role::Editor && kind
            != ResourceKind::Actor),
    }
}

/// Whether the one who asks may do `access` to a resource of `kind` at
/// `base`: always where nobody is asked who they are, else where their
/// authority reaches `base` and their role permits it.
pub open spec fn allowed(opt: OptionsView, access: Access, kind: ResourceKind, base: Base) -> bool {
    !opt.auth_enabled || (reaches(opt.level, base) && permits(opt.role, access, kind))
}

impl Options {
    /// Whether the one who asks may do `access` to a resource of `kind` at `base`.
    pub fn is_allowed(&self, access: Access, kind: ResourceKind, base: Base) -> (done: Result<
        (),
        Error,
    >)
        ensures
            match done {
                Ok(()) => allowed(self@, access, kind, base),
                Err(e) => e == Error::NotAllowed && !allowed(self@, access, kind, base),
            },
    {
        if !self.auth_enabled {
            return Ok(());
        }
        let reaches = match base {
            Base::Root => self.level == Level::Root,
            Base::Ns => self.level == Level::Root || self.level == Level::Namespace,
            Base::Db => self.level == Level::Root || self.level == Level::Namespace || self.level
                == Level::Database,
        };
        let permits = match access {
            Access::View => true,
            Access::Edit => self.role == Role::Owner || (self.role == Role::Editor && kind
                != ResourceKind::Actor),
        };
        if reaches && permits {
            Ok(())
        } else {
            Err(Error::NotAllowed)
        }
    }
}

/// A transaction after it was aborted by `e`.
pub open spec fn aborted(t: TransactionView, e: Error) -> TransactionView {
    TransactionView {
        failure: if t.failure.is_some() {
            t.failure
        } else {
            Some(e)
        },
        ..t
    }
}

/// What defining a database does to a transaction, and what it gives.
///
/// The one who asks has to be allowed to edit databases of the namespace.
/// The cache of the transaction is emptied and the selected namespace is
/// asked for, which defines it where it is missing and the store is not
/// strict. A statement without an id gets the next database id of the
/// namespace, if the namespace has an id. The database is then written
/// under the namespace and its name. Every error aborts the transaction.
pub open spec fn define_database(t: TransactionView, opt: OptionsView, stmt: DefineDatabaseView) -> (
    TransactionView,
    Result<Value, Error>,
) {
    if !allowed(opt, Access::Edit, ResourceKind::Database, Base::Ns) {
        (aborted(t, Error::NotAllowed), Err(Error::NotAllowed))
    } else {
        let cleared = TransactionView { cached: Seq::empty(), dirty: true, ..t };
        let (with_ns, ns_id) = t.catalog.add_ns(opt.ns, opt.strict);
        match ns_id {
            Err(e) => (aborted(TransactionView { catalog: with_ns, ..cleared }, e), Err(e)),
            Ok(ns_id) => if stmt.id.is_none() && ns_id.is_some() {
                let (with_id, id) = with_ns.next_db_id(opt.ns);
                match id {
                    Err(e) => (
                        aborted(TransactionView { catalog: with_id, ..cleared }, e),
                        Err(e),
                    ),
                    Ok(id) => (
                        TransactionView {
                            catalog: with_id.set_db(
                                opt.ns,
                                DefineDatabaseView { id: Some(id), ..stmt },
                            ),
                            ..cleared
                        },
                        Ok(Value::Absent),
                    ),
                }
            } else {
                (
                    TransactionView { catalog: with_ns.set_db(opt.ns, stmt), ..cleared },
                    Ok(Value::Absent),
                )
            },
        }
    }
}

/// What removing a parameter does to a transaction, and what it gives.
///
/// The one who asks has to be allowed to edit parameters of the database.
/// The cache of the transaction is emptied and the parameter of that name
/// in the selected database is deleted; where there is none, nothing is.
pub open spec fn remove_param(t: TransactionView, opt: OptionsView, stmt: RemoveParamView) -> (
    TransactionView,
    Result<Value, Error>,
) {
    if !allowed(opt, Access::Edit, ResourceKind::Parameter, Base::Db) {
        (aborted(t, Error::NotAllowed), Err(Error::NotAllowed))
    } else {
        (
            TransactionView {
                cached: Seq::empty(),
                dirty: true,
                catalog: t.catalog.del_pa(opt.ns, opt.db, stmt.name),
                ..t
            },
            Ok(Value::Absent),
        )
    }
}

impl DefineDatabaseStatement {
    /// Runs the statement in a transaction.
    pub fn compute(&self, opt: &Options, txn: &mut Transaction) -> (out: Result<Value, Error>)
        requires
            old(txn).wf(),
        ensures
            final(txn).wf(),
            final(txn)@ == define_database(old(txn)@, opt@, self@).0,
            out == define_database(old(txn)@, opt@, self@).1,
    {
        match opt.is_allowed(Access::Edit, ResourceKind::Database, Base::Ns) {
            Ok(()) => {},
            Err(e) => {
                txn.fail(e);
                return Err(e);
            },
        }
        txn.clear_cache();
        let ns_id = match txn.add_ns(opt.ns.as_str(), opt.strict) {
            Ok(id) => id,
            Err(e) => {
                txn.fail(e);
                return Err(e);
            },
        };
        if self.id.is_none() && ns_id.is_some() {
            let mut db = self.duplicate();
            match txn.get_next_db_id(opt.ns.as_str()) {
                Ok(id) => {
                    db.id = Some(id);
                },
                Err(e) => {
                    txn.fail(e);
                    return Err(e);
                },
            }
            txn.set_db(opt.ns.as_str(), db);
        } else {
            txn.set_db(opt.ns.as_str(), self.duplicate());
        }
        Ok(Value::Absent)
    }
}

impl RemoveParamStatement {
    /// Runs the statement in a transaction.
    pub fn compute(&self, opt: &Options, txn: &mut Transaction) -> (out: Result<Value, Error>)
        requires
            old(txn).wf(),
        ensures
            final(txn).wf(),
            final(txn)@ == remove_param(old(txn)@, opt@, self@).0,
            out == remove_param(old(txn)@, opt@, self@).1,
    {
        match opt.is_allowed(Access::Edit, ResourceKind::Parameter, Base::Db) {
            Ok(()) => {},
            Err(e) => {
                txn.fail(e);
                return Err(e);
            },
        }
        txn.clear_cache();
        txn.del_pa(opt.ns.as_str(), opt.db.as_str(), self.name.0.as_str());
        Ok(Value::Absent)
    }
}

} // verus!
