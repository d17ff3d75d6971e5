//! Retrying, errors, ids, keys and text.

use livequery::backoff::{
    delay_base, delay_with_jitter, INITIAL_DELAY_MS, MAX_ATTEMPTS, MAX_DELAY_MS, next_step, Step,
};
use livequery::error::{Error, ErrorClass};
use livequery::ident::{TableRef, Uuid};
use livequery::layout::{
    check_revision, heartbeat_key, ndlq_key, node_key, notification_key, REVISION, Stored, tblq_key,
};
use livequery::record::Node;
use livequery::text::{
    plain_name, push, push_decimal, push_escaped, push_name, push_signed, push_string,
};

#[test]
fn the_delay_doubles_from_50_ms_up_to_2_s() {
    assert_eq!(INITIAL_DELAY_MS, 50);
    assert_eq!(MAX_DELAY_MS, 2_000);
    let delays: Vec<u64> = (0..10).map(delay_base).collect();
    assert_eq!(delays, vec![50, 50, 100, 200, 400, 800, 1_600, 2_000, 2_000, 2_000]);
    assert_eq!(delay_base(u32::MAX), 2_000);
}

#[test]
fn jitter_stays_between_half_the_delay_and_the_delay() {
    assert_eq!(delay_with_jitter(1, 0), 25);
    assert_eq!(delay_with_jitter(1, 25), 50);
    assert_eq!(delay_with_jitter(1, 26), 25);
    assert_eq!(delay_with_jitter(1, 30), 29);
    assert_eq!(delay_with_jitter(3, 7), 107);
    assert_eq!(delay_with_jitter(3, 100), 200);
    assert_eq!(delay_with_jitter(9, 1_000), 2_000);
    assert_eq!(delay_with_jitter(9, 1_001), 1_000);
    for entropy in [0u64, 1, 99, 12345, u64::MAX] {
        for attempt in 1..8 {
            let d = delay_with_jitter(attempt, entropy);
            let base = delay_base(attempt);
            assert!(base / 2 <= d && d <= base);
        }
    }
}

#[test]
fn a_conflict_is_retried_four_times() {
    assert_eq!(MAX_ATTEMPTS, 5);
    let conflict = Err(Error::ConditionNotMet);
    let gave_up = Error::BootstrapConflict;
    assert_eq!(next_step(1, conflict, 0, gave_up), Step::Retry { delay_ms: 25 });
    assert_eq!(next_step(2, conflict, 0, gave_up), Step::Retry { delay_ms: 50 });
    assert_eq!(next_step(3, conflict, 0, gave_up), Step::Retry { delay_ms: 100 });
    assert_eq!(next_step(4, conflict, 200, gave_up), Step::Retry { delay_ms: 400 });
    assert_eq!(next_step(5, conflict, 0, gave_up), Step::Fail(Error::BootstrapConflict));
    assert_eq!(next_step(6, conflict, 0, gave_up), Step::Fail(Error::BootstrapConflict));
    assert_eq!(
        next_step(5, conflict, 0, Error::ConflictRetryable),
        Step::Fail(Error::ConflictRetryable)
    );
    assert_eq!(next_step(1, Ok(()), 0, gave_up), Step::Done);
    assert_eq!(next_step(5, Ok(()), 0, gave_up), Step::Done);
    assert_eq!(next_step(1, Err(Error::FatalStorage), 0, gave_up), Step::Fail(Error::FatalStorage));
    assert_eq!(
        next_step(1, Err(Error::FilterEvaluation), 0, gave_up),
        Step::Fail(Error::FilterEvaluation)
    );
}

#[test]
fn errors_have_a_class_and_a_name() {
    let all = [
        (Error::ConditionNotMet, ErrorClass::Retryable, "ConditionNotMet"),
        (Error::TooManyLiveQueries, ErrorClass::ContractViolation, "TooManyLiveQueries"),
        (Error::LiveQueryNotFound, ErrorClass::ContractViolation, "LiveQueryNotFound"),
        (Error::UnsupportedRevision, ErrorClass::ContractViolation, "UnsupportedRevision"),
        (Error::FilterEvaluation, ErrorClass::ContractViolation, "FilterEvaluation"),
        (Error::ConflictRetryable, ErrorClass::Retryable, "ConflictRetryable"),
        (Error::BootstrapConflict, ErrorClass::Retryable, "BootstrapConflict"),
        (Error::StorageError, ErrorClass::Retryable, "StorageError"),
        (Error::FatalStorage, ErrorClass::Fatal, "FatalStorage"),
        (Error::NotAllowed, ErrorClass::ContractViolation, "NotAllowed"),
        (Error::NamespaceNotFound, ErrorClass::ContractViolation, "NamespaceNotFound"),
    ];
    for (error, class, name) in all {
        assert_eq!(error.class(), class);
        assert_eq!(error.name(), name);
        let seen = error.at(Uuid(9));
        assert_eq!(seen.node, Uuid(9));
        if error == Error::ConditionNotMet {
            assert_eq!(seen.kind, Error::ConflictRetryable);
        } else {
            assert_eq!(seen.kind, error);
        }
    }
}

#[test]
fn a_later_revision_is_refused() {
    assert_eq!(REVISION, 1);
    assert_eq!(check_revision(0), Ok(()));
    assert_eq!(check_revision(1), Ok(()));
    assert_eq!(check_revision(2), Err(Error::UnsupportedRevision));
    assert_eq!(check_revision(u16::MAX), Err(Error::UnsupportedRevision));
    let stored = Stored::new(Node { id: Uuid(4) });
    assert_eq!(stored.revision, 1);
    assert_eq!(stored.read(), Ok(Node { id: Uuid(4) }));
    let old = Stored { revision: 0, record: 7u8 };
    assert_eq!(old.read(), Ok(7));
    let later = Stored { revision: 2, record: Node { id: Uuid(4) } };
    assert_eq!(later.read(), Err(Error::UnsupportedRevision));
}

#[test]
fn ids_are_read_and_written_as_text() {
    let text = "9d8e16e4-9f6a-4704-8cf1-7cd55b937c5b";
    let id = Uuid::parse_str(text).unwrap();
    assert_eq!(id, Uuid(0x9d8e16e4_9f6a_4704_8cf1_7cd55b937c5b));
    assert_eq!(id.to_text(), text);
    assert_eq!(Uuid(0).to_text(), "00000000-0000-0000-0000-000000000000");
    assert_eq!(Uuid(0xAB).to_text(), "00000000-0000-0000-0000-0000000000ab");
    assert_eq!(Uuid::parse_str("9D8E16E49F6A47048CF17CD55B937C5B"), Some(id));
    assert_eq!(Uuid::parse_str(""), None);
    assert_eq!(Uuid::parse_str("9d8e16e4-9f6a-4704-8cf1-7cd55b937c5"), None);
    assert_eq!(Uuid::parse_str("zd8e16e4-9f6a-4704-8cf1-7cd55b937c5b"), None);
    assert_eq!(Node { id }.name(), text);
}

#[test]
fn random_ids_are_version_4_and_differ() {
    let a = Uuid::random();
    let b = Uuid::random();
    assert_ne!(a, b);
    for id in [a, b] {
        assert_eq!((id.0 >> 76) & 0xf, 4);
        assert_eq!((id.0 >> 62) & 0x3, 2);
    }
}

#[test]
fn keys() {
    let node = Uuid(0x123e9d92_c975_4daf_8080_3082e83cfa9b);
    let lq = Uuid(0xca02c2d0_31dd_4bf0_ada4_ee02b1191e0a);
    let id = Uuid(0xc952cf7d_b503_4370_802e_cd2404f2160d);
    let table = TableRef::new("testns", "testdb", "testtb");
    assert_eq!(node_key(node), "nd/123e9d92-c975-4daf-8080-3082e83cfa9b");
    assert_eq!(heartbeat_key(0, node), "hb/0/123e9d92-c975-4daf-8080-3082e83cfa9b");
    assert_eq!(
        heartbeat_key(u64::MAX, node),
        "hb/18446744073709551615/123e9d92-c975-4daf-8080-3082e83cfa9b"
    );
    assert_eq!(
        ndlq_key(node, lq),
        "ndlq/123e9d92-c975-4daf-8080-3082e83cfa9b/ca02c2d0-31dd-4bf0-ada4-ee02b1191e0a"
    );
    assert_eq!(
        tblq_key(&table, lq),
        "tblq/testns/testdb/testtb/ca02c2d0-31dd-4bf0-ada4-ee02b1191e0a"
    );
    assert_eq!(
        notification_key(&table, lq, id),
        "nt/testns/testdb/testtb/ca02c2d0-31dd-4bf0-ada4-ee02b1191e0a/c952cf7d-b503-4370-802e-cd2404f2160d"
    );
}

#[test]
fn tables_are_the_same_if_all_three_names_are() {
    let t = TableRef::new("a", "b", "c");
    assert!(t.same_as(&TableRef::new("a", "b", "c")));
    assert!(!t.same_as(&TableRef::new("x", "b", "c")));
    assert!(!t.same_as(&TableRef::new("a", "x", "c")));
    assert!(!t.same_as(&TableRef::new("a", "b", "x")));
    assert!(!t.same_as(&TableRef::new("ab", "", "c")));
}

#[test]
fn text() {
    let mut out = String::from("n=");
    push_decimal(&mut out, 0);
    push(&mut out, ',');
    push_decimal(&mut out, 7);
    push(&mut out, ',');
    push_decimal(&mut out, 10);
    push(&mut out, ',');
    push_decimal(&mut out, 1_234_567_890);
    assert_eq!(out, "n=0,7,10,1234567890");
    let mut out = String::new();
    push_decimal(&mut out, u128::MAX);
    push(&mut out, ' ');
    push_signed(&mut out, -1);
    push(&mut out, ' ');
    push_signed(&mut out, 0);
    push(&mut out, ' ');
    push_signed(&mut out, i128::MAX);
    assert_eq!(
        out,
        "340282366920938463463374607431768211455 -1 0 170141183460469231731687303715884105727"
    );

    let mut out = String::new();
    push_escaped(&mut out, r"it's a \ here", '\'');
    assert_eq!(out, r"it\'s a \\ here");
    let mut out = String::new();
    push_escaped(&mut out, "it's `quoted`", '`');
    assert_eq!(out, r"it's \`quoted\`");

    assert!(plain_name("abc_DEF_09"));
    assert!(plain_name("_"));
    assert!(!plain_name(""));
    assert!(!plain_name("9lives"));
    assert!(!plain_name("a-b"));
    assert!(!plain_name("a b"));
    assert!(!plain_name("caf\u{e9}"));

    let mut out = String::new();
    push_name(&mut out, "plain");
    push(&mut out, ' ');
    push_name(&mut out, "not plain");
    push(&mut out, ' ');
    push_name(&mut out, "");
    push(&mut out, ' ');
    push_string(&mut out, "o'clock");
    assert_eq!(out, r"plain `not plain` `` 'o\'clock'");
}

#[test]
fn the_address_of_a_datastore() {
    assert_eq!(livequery::endpoint::PROTOCOL, "surrealcs://");
    assert_eq!(livequery::endpoint::surrealcs_address("127.0.0.1:8000"), "surrealcs://127.0.0.1:8000");
    assert_eq!(livequery::endpoint::surrealcs_address(""), "surrealcs://");
}
