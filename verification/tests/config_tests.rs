use fingered::config::{
    validate_config, Config, DecodeError, Entry, Record, User, Users, Warning,
};

fn record(fix_crlf: bool, info: Option<&str>, long_info: Option<&str>, unlisted: bool) -> User {
    User {
        fix_crlf,
        info: info.map(String::from),
        long_info: long_info.map(String::from),
        unlisted,
    }
}

fn given(
    fix_crlf: Option<bool>,
    info: Option<&str>,
    long_info: Option<&str>,
    unlisted: Option<bool>,
) -> Entry {
    Entry::Record(Record {
        fix_crlf,
        info: info.map(String::from),
        long_info: long_info.map(String::from),
        unlisted,
    })
}

fn source(entries: Vec<(&str, Entry)>) -> Vec<(String, Entry)> {
    entries.into_iter().map(|(name, entry)| (String::from(name), entry)).collect()
}

#[test]
fn user_from_bare_text() {
    let user = User::from_info(String::from("Hello"));
    assert!(user.fix_crlf);
    assert!(!user.unlisted);
    assert_eq!(user.info.as_deref(), Some("Hello"));
    assert_eq!(user.long_info, None);
}

#[test]
fn one_text_serves_both_replies() {
    let short = record(true, Some("short"), None, false);
    assert_eq!(short.info(), "short");
    assert_eq!(short.long_info(), "short");
    let long = record(true, None, Some("long"), false);
    assert_eq!(long.info(), "long");
    assert_eq!(long.long_info(), "long");
}

#[test]
fn each_reply_has_its_own_text() {
    let user = record(true, Some("short"), Some("long"), false);
    assert_eq!(user.info(), "short");
    assert_eq!(user.long_info(), "long");
}

#[test]
fn user_without_text_replies_with_nothing() {
    let mut user = record(true, None, None, false);
    user.fix_crlf();
    assert_eq!(user.info(), "");
    assert_eq!(user.long_info(), "");
}

#[test]
fn fix_crlf_normalises_both_texts() {
    let mut user = record(true, Some("a\nb"), Some("long"), true);
    user.fix_crlf();
    assert_eq!(user.info(), "a\r\nb\r\n");
    assert_eq!(user.long_info(), "long\r\n");
    assert!(user.fix_crlf);
    assert!(user.unlisted);
}

#[test]
fn fix_crlf_leaves_texts_where_it_is_switched_off() {
    let mut user = record(false, Some("a\nb"), Some(""), false);
    user.fix_crlf();
    assert_eq!(user.info(), "a\nb");
    assert_eq!(user.long_info(), "");
    assert!(!user.fix_crlf);
}

#[test]
fn entry_becomes_a_normalised_user() {
    let user = Entry::Text(String::from("Hello\n")).to_user();
    assert_eq!(user.info(), "Hello\r\n");
    assert_eq!(user.long_info, None);
    assert!(user.fix_crlf && !user.unlisted);
    let user = given(Some(true), None, Some("x"), Some(true)).to_user();
    assert_eq!(user.info, None);
    assert_eq!(user.long_info.as_deref(), Some("x\r\n"));
    assert!(user.unlisted);
    let user = given(Some(false), Some("x"), None, Some(false)).to_user();
    assert_eq!(user.info.as_deref(), Some("x"));
    assert!(!user.fix_crlf && !user.unlisted);
}

#[test]
fn record_fields_have_defaults() {
    let user = given(None, Some("x\ny"), None, None).to_user();
    assert!(user.fix_crlf);
    assert!(!user.unlisted);
    assert_eq!(user.info.as_deref(), Some("x\r\ny\r\n"));
    assert_eq!(user.long_info, None);
    let user = given(None, None, None, Some(true)).to_user();
    assert!(user.fix_crlf && user.unlisted);
    assert_eq!(user.info(), "");
}

#[test]
fn store_from_a_source() {
    let entries = source(vec![("alice", Entry::Text(String::from("one")))]);
    let config = Config::new_parsed(Some(false), &entries).expect("the names differ");
    assert_eq!(config.get().find("alice").unwrap().info(), "one\r\n");
    assert!(!config.get().enable_index);
    let twice = source(vec![
        ("alice", Entry::Text(String::from("one"))),
        ("alice", Entry::Text(String::from("two"))),
    ]);
    match Config::new_parsed(None, &twice) {
        Err(error) => assert_eq!(error, DecodeError::DuplicateName(1)),
        Ok(_) => panic!("a name stands twice"),
    }
}

#[test]
fn decode_keeps_names_and_order() {
    let entries = source(vec![
        ("alice", Entry::Text(String::from("Hello\n"))),
        ("bob", given(Some(false), Some("raw"), None, Some(true))),
    ]);
    let users = Users::decode(None, &entries).expect("the names differ");
    assert!(users.enable_index);
    assert_eq!(users.users.len(), 2);
    assert_eq!(users.users[0].0, "alice");
    assert_eq!(users.users[0].1.info(), "Hello\r\n");
    assert_eq!(users.users[1].0, "bob");
    assert_eq!(users.users[1].1.info(), "raw");
    assert!(users.users[1].1.unlisted);
}

#[test]
fn decode_takes_the_index_flag() {
    assert!(!Users::decode(Some(false), &Vec::new()).unwrap().enable_index);
    assert!(Users::decode(Some(true), &Vec::new()).unwrap().enable_index);
    assert!(Users::decode(None, &Vec::new()).unwrap().users.is_empty());
}

#[test]
fn decode_refuses_a_repeated_name() {
    let entries = source(vec![
        ("alice", Entry::Text(String::from("a"))),
        ("bob", Entry::Text(String::from("b"))),
        ("alice", Entry::Text(String::from("c"))),
        ("bob", Entry::Text(String::from("d"))),
    ]);
    match Users::decode(None, &entries) {
        Err(error) => assert_eq!(error, DecodeError::DuplicateName(2)),
        Ok(_) => panic!("a name stands twice"),
    }
}

#[test]
fn names_are_case_sensitive() {
    let entries = source(vec![
        ("alice", Entry::Text(String::from("a"))),
        ("Alice", Entry::Text(String::from("b"))),
    ]);
    let users = Users::decode(None, &entries).unwrap();
    assert_eq!(users.find("Alice").unwrap().info(), "b\r\n");
    assert_eq!(users.find("alice").unwrap().info(), "a\r\n");
    assert!(users.find("ALICE").is_none());
}

#[test]
fn find_gives_the_user_of_that_name() {
    let users = Users {
        enable_index: true,
        users: vec![
            (String::from("alice"), record(true, Some("a"), None, false)),
            (String::from("bob"), record(true, Some("b"), None, false)),
        ],
    };
    assert_eq!(users.find("bob").unwrap().info(), "b");
    assert_eq!(users.find("alice").unwrap().info(), "a");
    assert!(users.find("carol").is_none());
    assert!(users.find("").is_none());
}

#[test]
fn store_hands_out_what_it_holds() {
    let users = Users::decode(None, &source(vec![("alice", Entry::Text(String::from("one")))]));
    let config = Config::new(users.unwrap());
    let snapshot = config.get();
    assert_eq!(snapshot.find("alice").unwrap().info(), "one\r\n");
    assert!(snapshot.enable_index);
}

#[test]
fn snapshot_outlives_a_reload() {
    let first = source(vec![("alice", Entry::Text(String::from("one")))]);
    let second = source(vec![("bob", Entry::Text(String::from("two")))]);
    let mut config = Config::new(Users::decode(None, &first).unwrap());
    let before = config.get();
    assert!(config.load(Some(false), &second).is_ok());
    let after = config.get();
    assert_eq!(before.find("alice").unwrap().info(), "one\r\n");
    assert!(before.find("bob").is_none());
    assert!(before.enable_index);
    assert_eq!(after.find("bob").unwrap().info(), "two\r\n");
    assert!(after.find("alice").is_none());
    assert!(!after.enable_index);
}

#[test]
fn failed_reload_keeps_the_directory() {
    let first = source(vec![("alice", Entry::Text(String::from("one")))]);
    let broken = source(vec![
        ("bob", Entry::Text(String::from("two"))),
        ("bob", Entry::Text(String::from("three"))),
    ]);
    let mut config = Config::new(Users::decode(Some(false), &first).unwrap());
    match config.load(None, &broken) {
        Err(error) => assert_eq!(error, DecodeError::DuplicateName(1)),
        Ok(()) => panic!("a name stands twice"),
    }
    let current = config.get();
    assert_eq!(current.users.len(), 1);
    assert_eq!(current.users[0].0, "alice");
    assert_eq!(current.find("alice").unwrap().info(), "one\r\n");
    assert!(!current.enable_index);
}

#[test]
fn set_replaces_the_directory() {
    let mut config = Config::new(Users { enable_index: true, users: Vec::new() });
    config.set(Users {
        enable_index: false,
        users: vec![(String::from("alice"), record(true, Some("a"), None, false))],
    });
    let current = config.get();
    assert!(!current.enable_index);
    assert_eq!(current.find("alice").unwrap().info(), "a");
}

#[test]
fn texts_outside_ascii_are_reported() {
    let users = Users {
        enable_index: true,
        users: vec![
            (String::from("a"), record(true, Some("plain"), Some("pl\u{e4}in"), false)),
            (String::from("b"), record(true, None, None, false)),
            (String::from("c"), record(true, Some("\u{fc}"), Some("\u{fc}"), false)),
            (String::from("d"), record(true, Some("\u{fc}"), Some("plain"), false)),
        ],
    };
    assert_eq!(
        validate_config(&users),
        vec![
            Warning { user: 0, long: true },
            Warning { user: 2, long: false },
            Warning { user: 2, long: true },
            Warning { user: 3, long: false },
        ]
    );
}
