//! The definitions that the store holds: namespaces, databases and parameters.

use vstd::prelude::*;
use crate::document::{Scalar, ScalarView};
use crate::error::Error;
use crate::seqs::{
    distinct_by, Duplicate, duplicate_all, find_first, lemma_filter_all, lemma_filter_distinct,
    lemma_filter_remove, lemma_find_first, lemma_find_first_is, lemma_find_first_none,
    lemma_views_push, lemma_views_remove, lemma_views_update, upsert, views_of, without,
};
use crate::statements::{DefineDatabaseStatement, DefineDatabaseView};

verus! {

/// The mathematical value of a [`Namespace`].
pub struct NamespaceView {
    pub name: Seq<char>,
    pub id: Option<u32>,
    pub next_db: u32,
}

/// A namespace: its name, its id, and the id that its next database gets.
#[derive(Clone, Debug, PartialEq, Eq)]
pub struct Namespace {
    pub name: String,
    pub id: Option<u32>,
    pub next_db: u32,
}

impl View for Namespace {
    type V = NamespaceView;

    open spec fn view(&self) -> NamespaceView {
        NamespaceView { name: self.name@, id: self.id, next_db: self.next_db }
    }
}

impl Duplicate for Namespace {
    fn duplicate(&self) -> (copy: Self) {
        Namespace { name: self.name.clone(), id: self.id, next_db: self.next_db }
    }
}

/// The mathematical value of a [`Database`].
pub struct DatabaseView {
    pub ns: Seq<char>,
    pub stmt: DefineDatabaseView,
}

/// A database of a namespace, as it was defined.
#[derive(Clone, Debug, PartialEq, Eq)]
pub struct Database {
    pub ns: String,
    pub stmt: DefineDatabaseStatement,
}

impl View for Database {
    type V = DatabaseView;

    open spec fn view(&self) -> DatabaseView {
        DatabaseView { ns: self.ns@, stmt: self.stmt@ }
    }
}

impl Duplicate for Database {
    fn duplicate(&self) -> (copy: Self) {
        Database { ns: self.ns.clone(), stmt: self.stmt.duplicate() }
    }
}

/// The mathematical value of a [`Param`].
pub struct ParamView {
    pub ns: Seq<char>,
    pub db: Seq<char>,
    pub name: Seq<char>,
    pub value: ScalarView,
}

/// A parameter of a database.
#[derive(Clone, Debug, PartialEq, Eq)]
pub struct Param {
    pub ns: String,
    pub db: String,
    pub name: String,
    pub value: Scalar,
}

impl View for Param {
    type V = ParamView;

    open spec fn view(&self) -> ParamView {
        ParamView { ns: self.ns@, db: self.db@, name: self.name@, value: self.value@ }
    }
}

impl Duplicate for Param {
    fn duplicate(&self) -> (copy: Self) {
        Param {
            ns: self.ns.clone(),
            db: self.db.clone(),
            name: self.name.clone(),
            value: self.value.duplicate(),
        }
    }
}

/// The definitions of the store: each kind as the list of its records.
pub struct CatalogView {
    pub namespaces: Seq<NamespaceView>,
    pub databases: Seq<DatabaseView>,
    pub params: Seq<ParamView>,
    /// The id that the next namespace gets.
    pub next_ns: u32,
}

/// The key of a namespace.
pub open spec fn namespace_key() -> spec_fn(NamespaceView) -> Seq<char> {
    |n: NamespaceView| n.name
}

/// The key of a database.
pub open spec fn database_key() -> spec_fn(DatabaseView) -> (Seq<char>, Seq<char>) {
    |d: DatabaseView| (d.ns, d.stmt.name)
}

/// The key of a parameter.
pub open spec fn param_key() -> spec_fn(ParamView) -> (Seq<char>, Seq<char>, Seq<char>) {
    |p: ParamView| (p.ns, p.db, p.name)
}

/// Selects the namespace `name`.
pub open spec fn namespace_is(name: Seq<char>) -> spec_fn(NamespaceView) -> bool {
    |n: NamespaceView| n.name == name
}

/// Selects the database `name` of the namespace `ns`.
pub open spec fn database_is(ns: Seq<char>, name: Seq<char>) -> spec_fn(DatabaseView) -> bool {
    |d: DatabaseView| d.ns == ns && d.stmt.name == name
}

/// Selects the parameter `name` of the database `db` of the namespace `ns`.
pub open spec fn param_is(ns: Seq<char>, db: Seq<char>, name: Seq<char>) -> spec_fn(
    ParamView,
) -> bool {
    |p: ParamView| p.ns == ns && p.db == db && p.name == name
}

impl CatalogView {
    /// The catalog without definitions. Ids start at 1.
    pub open spec fn empty() -> CatalogView {
        CatalogView {
            namespaces: Seq::empty(),
            databases: Seq::empty(),
            params: Seq::empty(),
            next_ns: 1,
        }
    }

    /// No kind holds two records under one key.
    pub open spec fn wf(self) -> bool {
        &&& distinct_by(self.namespaces, namespace_key())
        &&& distinct_by(self.databases, database_key())
        &&& distinct_by(self.params, param_key())
    }

    /// The namespace `name`, if it is defined.
    pub open spec fn namespace(self, name: Seq<char>) -> Option<NamespaceView> {
        match find_first(self.namespaces, namespace_is(name)) {
            Some(i) => Some(self.namespaces[i]),
            None => None,
        }
    }

    /// The catalog after the namespace `name` was asked for, and what the
    /// asking gave: the id of the namespace. A namespace that is not
    /// defined is defined on the way and given the next id, unless the
    /// store is strict, or the ids have run out.
    pub open spec fn add_ns(self, name: Seq<char>, strict: bool) -> (CatalogView, Result<
        Option<u32>,
        Error,
    >) {
        match self.namespace(name) {
            Some(ns) => (self, Ok(ns.id)),
            None => if strict {
                (self, Err(Error::NamespaceNotFound))
            } else if self.next_ns == u32::MAX {
                (self, Err(Error::StorageError))
            } else {
                (
                    CatalogView {
                        namespaces: self.namespaces.push(
                            NamespaceView { name, id: Some(self.next_ns), next_db: 1 },
                        ),
                        next_ns: (self.next_ns + 1) as u32,
                        ..self
                    },
                    Ok(Some(self.next_ns)),
                )
            },
        }
    }

    /// The catalog after an id for a database of the namespace `name` was
    /// taken, and the id.
    pub open spec fn next_db_id(self, name: Seq<char>) -> (CatalogView, Result<u32, Error>) {
        match find_first(self.namespaces, namespace_is(name)) {
            None => (self, Err(Error::NamespaceNotFound)),
            Some(i) => if self.namespaces[i].next_db == u32::MAX {
                (self, Err(Error::StorageError))
            } else {
                (
                    CatalogView {
                        namespaces: self.namespaces.update(
                            i,
                            NamespaceView {
                                next_db: (self.namespaces[i].next_db + 1) as u32,
                                ..self.namespaces[i]
                            },
                        ),
                        ..self
                    },
                    Ok(self.namespaces[i].next_db),
                )
            },
        }
    }

    /// The catalog after the database `stmt` of the namespace `ns` was written.
    pub open spec fn set_db(self, ns: Seq<char>, stmt: DefineDatabaseView) -> CatalogView {
        CatalogView {
            databases: upsert(
                self.databases,
                database_is(ns, stmt.name),
                DatabaseView { ns, stmt },
            ),
            ..self
        }
    }

    /// The catalog after a parameter was written.
    pub open spec fn set_pa(self, p: ParamView) -> CatalogView {
        CatalogView { params: upsert(self.params, param_is(p.ns, p.db, p.name), p), ..self }
    }

    /// The catalog after a parameter was deleted.
    pub open spec fn del_pa(self, ns: Seq<char>, db: Seq<char>, name: Seq<char>) -> CatalogView {
        CatalogView { params: without(self.params, param_is(ns, db, name)), ..self }
    }
}

/// The definitions of the store.
pub struct Catalog {
    namespaces: Vec<Namespace>,
    databases: Vec<Database>,
    params: Vec<Param>,
    next_ns: u32,
}

impl View for Catalog {
    type V = CatalogView;

    closed spec fn view(&self) -> CatalogView {
        CatalogView {
            namespaces: views_of(self.namespaces@),
            databases: views_of(self.databases@),
            params: views_of(self.params@),
            next_ns: self.next_ns,
        }
    }
}

impl Catalog {
    /// Whether no kind holds two records under one key.
    pub open spec fn wf(&self) -> bool {
        self@.wf()
    }

    /// A catalog without definitions.
    pub fn new() -> (catalog: Self)
        ensures
            catalog.wf(),
            catalog@ == CatalogView::empty(),
    {
        let catalog = Catalog {
            namespaces: Vec::new(),
            databases: Vec::new(),
            params: Vec::new(),
            next_ns: 1,
        };
        assert(catalog@.namespaces =~= Seq::empty());
        assert(catalog@.databases =~= Seq::empty());
        assert(catalog@.params =~= Seq::empty());
        catalog
    }

    /// A copy of the catalog.
    pub fn snapshot(&self) -> (copy: Self)
        ensures
            copy@ == self@,
    {
        Catalog {
            namespaces: duplicate_all(&self.namespaces),
            databases: duplicate_all(&self.databases),
            params: duplicate_all(&self.params),
            next_ns: self.next_ns,
        }
    }

    fn find_ns(&self, name: &String) -> (found: Option<usize>)
        ensures
            match found {
                Some(i) => i < self@.namespaces.len() && namespace_is(name@)(
                    self@.namespaces[i as int],
                ) && find_first(self@.namespaces, namespace_is(name@)) == Some(i as int),
                None => find_first(self@.namespaces, namespace_is(name@)).is_none(),
            },
    {
        let mut i: usize = 0;
        while i < self.namespaces.len()
            invariant
                i <= self.namespaces.len(),
                forall|j: int| 0 <= j < i ==> !namespace_is(name@)(#[trigger] self@.namespaces[j]),
            decreases self.namespaces.len() - i,
        {
            if self.namespaces[i].name == *name {
                proof {
                    lemma_find_first_is(self@.namespaces, namespace_is(name@), i as int);
                }
                return Some(i);
            }
            i += 1;
        }
        proof {
            lemma_find_first_none(self@.namespaces, namespace_is(name@));
        }
        None
    }

    /// The namespace `name`, if it is defined.
    pub fn get_ns(&self, name: &str) -> (found: Option<&Namespace>)
        ensures
            match found {
                Some(ns) => self@.namespace(name@) == Some(ns@),
                None => self@.namespace(name@).is_none(),
            },
    {
        let probe = name.to_owned();
        match self.find_ns(&probe) {
            Some(i) => Some(&self.namespaces[i]),
            None => None,
        }
    }

    /// Asks for the namespace `name` and gives its id. A namespace that is
    /// not defined is defined on the way, unless the store is strict.
    pub fn add_ns(&mut self, name: &str, strict: bool) -> (id: Result<Option<u32>, Error>)
        requires
            old(self).wf(),
        ensures
            final(self).wf(),
            final(self)@ == old(self)@.add_ns(name@, strict).0,
            id == old(self)@.add_ns(name@, strict).1,
    {
        let probe = name.to_owned();
        proof {
            lemma_find_first(self@.namespaces, namespace_is(name@));
        }
        match self.find_ns(&probe) {
            Some(i) => Ok(self.namespaces[i].id),
            None => {
                if strict {
                    return Err(Error::NamespaceNotFound);
                }
                if self.next_ns == u32::MAX {
                    return Err(Error::StorageError);
                }
                let id = self.next_ns;
                let row = Namespace { name: probe, id: Some(id), next_db: 1 };
                proof {
                    lemma_views_push(self.namespaces@, row);
                }
                self.namespaces.push(row);
                self.next_ns = id + 1;
                Ok(Some(id))
            },
        }
    }

    /// Takes the next id for a database of the namespace `name`.
    pub fn next_db_id(&mut self, name: &str) -> (id: Result<u32, Error>)
        requires
            old(self).wf(),
        ensures
            final(self).wf(),
            final(self)@ == old(self)@.next_db_id(name@).0,
            id == old(self)@.next_db_id(name@).1,
    {
        let probe = name.to_owned();
        proof {
            lemma_find_first(self@.namespaces, namespace_is(name@));
        }
        match self.find_ns(&probe) {
            None => Err(Error::NamespaceNotFound),
            Some(i) => {
                let id = self.namespaces[i].next_db;
                if id == u32::MAX {
                    return Err(Error::StorageError);
                }
                let row = Namespace {
                    name: self.namespaces[i].name.clone(),
                    id: self.namespaces[i].id,
                    next_db: id + 1,
                };
                proof {
                    lemma_views_update(self.namespaces@, i as int, row);
                }
                self.namespaces.set(i, row);
                Ok(id)
            },
        }
    }

    fn find_db(&self, ns: &String, name: &String) -> (found: Option<usize>)
        ensures
            match found {
                Some(i) => i < self@.databases.len() && database_is(ns@, name@)(
                    self@.databases[i as int],
                ) && find_first(self@.databases, database_is(ns@, name@)) == Some(i as int),
                None => find_first(self@.databases, database_is(ns@, name@)).is_none(),
            },
    {
        let mut i: usize = 0;
        while i < self.databases.len()
            invariant
                i <= self.databases.len(),
                forall|j: int|
                    0 <= j < i ==> !database_is(ns@, name@)(#[trigger] self@.databases[j]),
            decreases self.databases.len() - i,
        {
            if self.databases[i].ns == *ns && self.databases[i].stmt.name.0 == *name {
                proof {
                    lemma_find_first_is(self@.databases, database_is(ns@, name@), i as int);
                }
                return Some(i);
            }
            i += 1;
        }
        proof {
            lemma_find_first_none(self@.databases, database_is(ns@, name@));
        }
        None
    }

    /// The database `name` of the namespace `ns`, if it is defined.
    pub fn get_db(&self, ns: &str, name: &str) -> (found: Option<&DefineDatabaseStatement>)
        ensures
            match found {
                Some(stmt) => find_first(self@.databases, database_is(ns@, name@)).is_some()
                    && self@.databases[find_first(
                    self@.databases,
                    database_is(ns@, name@),
                ).unwrap()].stmt == stmt@,
                None => find_first(self@.databases, database_is(ns@, name@)).is_none(),
            },
    {
        let ns = ns.to_owned();
        let name = name.to_owned();
        match self.find_db(&ns, &name) {
            Some(i) => Some(&self.databases[i].stmt),
            None => None,
        }
    }

    /// Writes the database `stmt` of the namespace `ns`.
    pub fn set_db(&mut self, ns: &str, stmt: DefineDatabaseStatement)
        requires
            old(self).wf(),
        ensures
            final(self).wf(),
            final(self)@ == old(self)@.set_db(ns@, stmt@),
    {
        let ns = ns.to_owned();
        proof {
            lemma_find_first(self@.databases, database_is(ns@, stmt@.name));
        }
        let found = self.find_db(&ns, &stmt.name.0);
        let row = Database { ns, stmt };
        match found {
            Some(i) => {
                proof {
                    lemma_views_update(self.databases@, i as int, row);
                }
                self.databases.set(i, row);
            },
            None => {
                proof {
                    lemma_views_push(self.databases@, row);
                }
                self.databases.push(row);
            },
        }
    }

    fn find_pa(&self, ns: &String, db: &String, name: &String) -> (found: Option<usize>)
        ensures
            match found {
                Some(i) => i < self@.params.len() && param_is(ns@, db@, name@)(
                    self@.params[i as int],
                ) && find_first(self@.params, param_is(ns@, db@, name@)) == Some(i as int),
                None => find_first(self@.params, param_is(ns@, db@, name@)).is_none(),
            },
    {
        let mut i: usize = 0;
        while i < self.params.len()
            invariant
                i <= self.params.len(),
                forall|j: int| 0 <= j < i ==> !param_is(ns@, db@, name@)(#[trigger] self@.params[j]),
            decreases self.params.len() - i,
        {
            if self.params[i].ns == *ns && self.params[i].db == *db && self.params[i].name
                == *name {
                proof {
                    lemma_find_first_is(self@.params, param_is(ns@, db@, name@), i as int);
                }
                return Some(i);
            }
            i += 1;
        }
        proof {
            lemma_find_first_none(self@.params, param_is(ns@, db@, name@));
        }
        None
    }

    /// The value of the parameter `name` of the database `db` of the namespace `ns`.
    pub fn get_pa(&self, ns: &str, db: &str, name: &str) -> (found: Option<&Scalar>)
        ensures
            match found {
                Some(value) => find_first(self@.params, param_is(ns@, db@, name@)).is_some()
                    && self@.params[find_first(
                    self@.params,
                    param_is(ns@, db@, name@),
                ).unwrap()].value == value@,
                None => find_first(self@.params, param_is(ns@, db@, name@)).is_none(),
            },
    {
        let ns = ns.to_owned();
        let db = db.to_owned();
        let name = name.to_owned();
        match self.find_pa(&ns, &db, &name) {
            Some(i) => Some(&self.params[i].value),
            None => None,
        }
    }

    /// Writes a parameter.
    pub fn set_pa(&mut self, param: Param)
        requires
            old(self).wf(),
        ensures
            final(self).wf(),
            final(self)@ == old(self)@.set_pa(param@),
    {
        proof {
            lemma_find_first(self@.params, param_is(param@.ns, param@.db, param@.name));
        }
        match self.find_pa(&param.ns, &param.db, &param.name) {
            Some(i) => {
                proof {
                    lemma_views_update(self.params@, i as int, param);
                }
                self.params.set(i, param);
            },
            None => {
                proof {
                    lemma_views_push(self.params@, param);
                }
                self.params.push(param);
            },
        }
    }

    /// Deletes the parameter `name` of the database `db` of the namespace `ns`.
    pub fn del_pa(&mut self, ns: &str, db: &str, name: &str)
        requires
            old(self).wf(),
        ensures
            final(self).wf(),
            final(self)@ == old(self)@.del_pa(ns@, db@, name@),
    {
        let ns = ns.to_owned();
        let db = db.to_owned();
        let name = name.to_owned();
        let ghost keep = |p: ParamView| !param_is(ns@, db@, name@)(p);
        proof {
            lemma_find_first(self@.params, param_is(ns@, db@, name@));
            lemma_filter_distinct(self@.params, param_key(), keep);
        }
        match self.find_pa(&ns, &db, &name) {
            Some(i) => {
                proof {
                    lemma_filter_remove(self@.params, keep, i as int);
                    lemma_views_remove(self.params@, i as int);
                }
                self.params.remove(i);
            },
            None => {
                proof {
                    lemma_filter_all(self@.params, keep);
                }
            },
        }
    }
}

} // verus!
