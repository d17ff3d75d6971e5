//! Statements that change the definitions of the store.

use livequery::catalog::Param;
use livequery::datastore::Datastore;
use livequery::document::Scalar;
use livequery::error::Error;
use livequery::ident::{TableRef, Uuid};
use livequery::options::Config;
use livequery::statements::{
    Access, Base, ChangeFeed, DefineDatabaseStatement, Ident, Level, Options, RemoveParamStatement,
    ResourceKind, Role, Strand,
};
use livequery::value::Value;

fn options() -> Options {
    Options {
        ns: "test".to_string(),
        db: "main".to_string(),
        strict: false,
        auth_enabled: false,
        level: Level::No,
        role: Role::Viewer,
    }
}

fn define(name: &str) -> DefineDatabaseStatement {
    DefineDatabaseStatement { name: Ident(name.to_string()), ..Default::default() }
}

#[test]
fn define_database_as_text() {
    assert_eq!(define("main").to_string(), "DEFINE DATABASE main");
    let mut stmt = define("my db");
    assert_eq!(stmt.to_string(), "DEFINE DATABASE `my db`");
    stmt.comment = Some(Strand("it's mine".to_string()));
    assert_eq!(stmt.to_string(), r"DEFINE DATABASE `my db` COMMENT 'it\'s mine'");
    stmt.changefeed = Some(ChangeFeed { expiry: 3600, store_original: false });
    assert_eq!(
        stmt.to_string(),
        r"DEFINE DATABASE `my db` COMMENT 'it\'s mine' CHANGEFEED 3600s"
    );
    stmt.comment = None;
    stmt.changefeed = Some(ChangeFeed { expiry: 0, store_original: true });
    assert_eq!(stmt.to_string(), "DEFINE DATABASE `my db` CHANGEFEED 0s INCLUDE ORIGINAL");
    stmt.id = Some(7);
    assert_eq!(stmt.to_string(), "DEFINE DATABASE `my db` CHANGEFEED 0s INCLUDE ORIGINAL");
}

#[test]
fn remove_param_as_text() {
    let stmt = RemoveParamStatement { name: Ident("limit".to_string()) };
    assert_eq!(stmt.to_string(), "REMOVE PARAM $limit");
    let stmt = RemoveParamStatement { name: Ident("my limit".to_string()) };
    assert_eq!(stmt.to_string(), "REMOVE PARAM $`my limit`");
}

#[test]
fn change_feed_as_text() {
    assert_eq!(ChangeFeed { expiry: 60, store_original: false }.to_string(), "CHANGEFEED 60s");
    assert_eq!(
        ChangeFeed { expiry: u64::MAX, store_original: true }.to_string(),
        "CHANGEFEED 18446744073709551615s INCLUDE ORIGINAL"
    );
}

#[test]
fn defining_a_database_defines_its_namespace_and_gives_it_an_id() {
    let mut ds = Datastore::new(Uuid(1), Config::default());
    let mut tx = ds.transaction();
    assert_eq!(define("main").compute(&options(), &mut tx), Ok(Value::Absent));
    assert_eq!(define("other").compute(&options(), &mut tx), Ok(Value::Absent));
    let mut fixed = define("fixed");
    fixed.id = Some(40);
    fixed.comment = Some(Strand("kept".to_string()));
    assert_eq!(fixed.compute(&options(), &mut tx), Ok(Value::Absent));
    ds.commit(tx).unwrap();

    let catalog = ds.catalog();
    let ns = catalog.get_ns("test").unwrap();
    assert_eq!((ns.id, ns.next_db), (Some(1), 3));
    assert_eq!(catalog.get_db("test", "main").unwrap().id, Some(1));
    assert_eq!(catalog.get_db("test", "other").unwrap().id, Some(2));
    assert_eq!(catalog.get_db("test", "fixed"), Some(&fixed));
    assert_eq!(catalog.get_db("test", "none"), None);
    assert_eq!(catalog.get_db("else", "main"), None);

    // defining it again writes over it, with a new id
    let mut tx = ds.transaction();
    let mut again = define("main");
    again.changefeed = Some(ChangeFeed { expiry: 5, store_original: true });
    assert_eq!(again.compute(&options(), &mut tx), Ok(Value::Absent));
    ds.commit(tx).unwrap();
    let stored = ds.catalog().get_db("test", "main").unwrap();
    assert_eq!(stored.id, Some(3));
    assert_eq!(stored.changefeed, Some(ChangeFeed { expiry: 5, store_original: true }));
}

#[test]
fn a_strict_store_does_not_define_the_namespace_on_the_way() {
    let mut ds = Datastore::new(Uuid(1), Config::default());
    let mut strict = options();
    strict.strict = true;
    let mut tx = ds.transaction();
    assert_eq!(define("main").compute(&strict, &mut tx), Err(Error::NamespaceNotFound));
    assert_eq!(tx.failure(), Some(Error::NamespaceNotFound));
    assert_eq!(ds.commit(tx), Err(Error::NamespaceNotFound));
    assert!(ds.catalog().get_ns("test").is_none());

    let mut tx = ds.transaction();
    assert_eq!(tx.add_ns("test", false), Ok(Some(1)));
    assert_eq!(define("main").compute(&strict, &mut tx), Ok(Value::Absent));
    ds.commit(tx).unwrap();
    assert_eq!(ds.catalog().get_db("test", "main").unwrap().id, Some(1));
}

#[test]
fn defining_a_database_empties_the_cache_of_the_transaction() {
    let mut ds = Datastore::new(Uuid(1), Config::default());
    let table = TableRef::new("test", "main", "tb");
    let mut tx = ds.transaction();
    assert!(tx.lookup(&table).is_empty());
    assert_eq!(define("main").compute(&options(), &mut tx), Ok(Value::Absent));
    assert!(tx.lookup(&table).is_empty());
    ds.commit(tx).unwrap();
}

#[test]
fn who_may_run_a_statement() {
    let with = |level, role| Options { auth_enabled: true, level, role, ..options() };
    let edit_db = |o: &Options| o.is_allowed(Access::Edit, ResourceKind::Database, Base::Ns);
    let edit_pa = |o: &Options| o.is_allowed(Access::Edit, ResourceKind::Parameter, Base::Db);
    assert_eq!(edit_db(&options()), Ok(()));
    assert_eq!(edit_db(&with(Level::Root, Role::Owner)), Ok(()));
    assert_eq!(edit_db(&with(Level::Root, Role::Editor)), Ok(()));
    assert_eq!(edit_db(&with(Level::Namespace, Role::Editor)), Ok(()));
    assert_eq!(edit_db(&with(Level::Namespace, Role::Viewer)), Err(Error::NotAllowed));
    assert_eq!(edit_db(&with(Level::Database, Role::Owner)), Err(Error::NotAllowed));
    assert_eq!(edit_db(&with(Level::No, Role::Owner)), Err(Error::NotAllowed));
    assert_eq!(edit_pa(&with(Level::Database, Role::Owner)), Ok(()));
    assert_eq!(edit_pa(&with(Level::Database, Role::Viewer)), Err(Error::NotAllowed));
    assert_eq!(edit_pa(&with(Level::No, Role::Owner)), Err(Error::NotAllowed));
    let o = with(Level::Root, Role::Viewer);
    assert_eq!(o.is_allowed(Access::View, ResourceKind::Namespace, Base::Root), Ok(()));
    let o = with(Level::Namespace, Role::Owner);
    assert_eq!(o.is_allowed(Access::View, ResourceKind::Namespace, Base::Root), Err(Error::NotAllowed));
    let o = with(Level::Root, Role::Editor);
    assert_eq!(o.is_allowed(Access::Edit, ResourceKind::Actor, Base::Root), Err(Error::NotAllowed));
    let o = with(Level::Root, Role::Owner);
    assert_eq!(o.is_allowed(Access::Edit, ResourceKind::Actor, Base::Root), Ok(()));
}

#[test]
fn a_statement_that_is_not_allowed_aborts_the_transaction() {
    let mut ds = Datastore::new(Uuid(1), Config::default());
    let guest = Options { auth_enabled: true, ..options() };
    let mut tx = ds.transaction();
    assert_eq!(define("main").compute(&guest, &mut tx), Err(Error::NotAllowed));
    assert_eq!(ds.commit(tx), Err(Error::NotAllowed));
    let mut tx = ds.transaction();
    let stmt = RemoveParamStatement { name: Ident("limit".to_string()) };
    assert_eq!(stmt.compute(&guest, &mut tx), Err(Error::NotAllowed));
    assert_eq!(ds.commit(tx), Err(Error::NotAllowed));
    assert_eq!(ds.version(), 0);
}

#[test]
fn removing_a_parameter() {
    let mut ds = Datastore::new(Uuid(1), Config::default());
    let param = |db: &str, name: &str, value: i64| Param {
        ns: "test".to_string(),
        db: db.to_string(),
        name: name.to_string(),
        value: Scalar::Int(value),
    };
    let mut tx = ds.transaction();
    tx.set_pa(param("main", "limit", 1));
    tx.set_pa(param("main", "other", 2));
    tx.set_pa(param("side", "limit", 3));
    tx.set_pa(param("main", "limit", 4));
    ds.commit(tx).unwrap();
    assert_eq!(ds.catalog().get_pa("test", "main", "limit"), Some(&Scalar::Int(4)));

    let stmt = RemoveParamStatement { name: Ident("limit".to_string()) };
    let mut tx = ds.transaction();
    assert_eq!(stmt.compute(&options(), &mut tx), Ok(Value::Absent));
    // one that is not there can be removed as well
    assert_eq!(stmt.compute(&options(), &mut tx), Ok(Value::Absent));
    ds.commit(tx).unwrap();
    assert_eq!(ds.catalog().get_pa("test", "main", "limit"), None);
    assert_eq!(ds.catalog().get_pa("test", "main", "other"), Some(&Scalar::Int(2)));
    assert_eq!(ds.catalog().get_pa("test", "side", "limit"), Some(&Scalar::Int(3)));
}
