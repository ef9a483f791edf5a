use kdbx::picker::{filter_totp, picker_items, resolve_selection};
use kdbx::vault::{
    find_entry, get_entries, new_database_key, resolve_lookup, show_entry, Entry, EntryPath,
    Group, LookupOutcome, Node, WrappedEntry,
};
use kdbx::pwd::Pwd;

fn entry_titled(title: &str) -> Entry {
    Entry {
        title: title.to_string(),
        username: String::new(),
        password: String::new(),
        url: String::new(),
        notes: String::new(),
        otp: None,
    }
}

fn fixture_vault() -> Group {
    let pwd_entry = Entry {
        title: "test-pwd".to_string(),
        username: "test".to_string(),
        password: "1234".to_string(),
        url: String::new(),
        notes: String::new(),
        otp: None,
    };
    let totp_entry = Entry {
        title: "test-totp".to_string(),
        username: "test".to_string(),
        password: String::new(),
        url: String::new(),
        notes: String::new(),
        otp: Some(
            "otpauth://totp/test-totp:test?secret=JBSWY3DPEHPK3PXP&period=30&digits=6&issuer=test-totp"
                .to_string(),
        ),
    };
    Group {
        name: "Root".to_string(),
        children: vec![Node::Entry(pwd_entry), Node::Entry(totp_entry)],
    }
}

#[test]
fn test_find_entry() {
    let entry = Entry {
        title: "My Title".to_string(),
        username: String::new(),
        password: String::new(),
        url: String::new(),
        notes: String::new(),
        otp: None,
    };
    let child = Group { name: "child".to_string(), children: vec![Node::Entry(entry.clone())] };
    let group = Group { name: "root".to_string(), children: vec![Node::Group(child)] };

    assert_eq!(find_entry("/root/child/My Title", &group), Some(entry.clone()));
    assert_eq!(find_entry("child/My Title", &group), Some(entry.clone()));
    assert_eq!(find_entry("My Title", &group), Some(entry.clone()));
    assert_eq!(find_entry("Title", &group), Some(entry.clone()));
    assert!(find_entry("My Other Title", &group).is_none());
}

#[test]
fn test_find_entry_suffix_queries() {
    let entry = entry_titled("My Title");
    let child = Group { name: "child".to_string(), children: vec![Node::Entry(entry.clone())] };
    let root = Group { name: "Root".to_string(), children: vec![Node::Group(child)] };

    assert_eq!(find_entry("My Title", &root), Some(entry.clone()));
    assert_eq!(find_entry("child/My Title", &root), Some(entry.clone()));
    assert_eq!(find_entry("/Root/child/My Title", &root), Some(entry.clone()));
    assert!(find_entry("My Other Title", &root).is_none());
}

#[test]
fn test_flatten_deterministic_and_paths() {
    let mut inner = Group { name: "inner".to_string(), children: vec![] };
    inner.children.push(Node::Entry(entry_titled("deep")));
    let mut root = Group { name: "Root".to_string(), children: vec![] };
    root.children.push(Node::Entry(entry_titled("top")));
    root.children.push(Node::Group(inner));

    let once = get_entries(&root, "");
    let twice = get_entries(&root, "");
    assert_eq!(once, twice);

    assert_eq!(once.len(), 2);
    assert_eq!(once[0].path, "/Root");
    assert_eq!(once[0].entry_path(), "/Root/top");
    assert_eq!(once[1].path, "/Root/inner");
    assert_eq!(once[1].entry_path(), "/Root/inner/deep");
}

#[test]
fn test_flatten_entries_before_groups() {
    let sub = Group {
        name: "sub".to_string(),
        children: vec![Node::Entry(entry_titled("nested"))],
    };
    let root = Group {
        name: "Root".to_string(),
        children: vec![Node::Group(sub), Node::Entry(entry_titled("own"))],
    };
    let flat = get_entries(&root, "");
    assert_eq!(flat[0].entry.title, "own");
    assert_eq!(flat[1].entry.title, "nested");
}

#[test]
fn test_list_first_line() {
    let root = fixture_vault();
    let flat = get_entries(&root, "");
    assert_eq!(flat[0].entry_path(), "/Root/test-pwd");
}

#[test]
fn test_pwd_value() {
    let root = fixture_vault();
    let entry = find_entry("test-pwd", &root).expect("entry exists");
    assert_eq!(entry.password, "1234");
}

#[test]
fn test_show_entry_rendering() {
    let entry = Entry {
        title: "test-pwd".to_string(),
        username: "test".to_string(),
        password: "1234".to_string(),
        url: "https://example.net".to_string(),
        notes: "a note".to_string(),
        otp: None,
    };
    assert_eq!(
        show_entry(&entry),
        "Title: test-pwd\nUsername: test\nUrl: https://example.net\nNote: a note"
    );
}

#[test]
fn test_new_database_key_empty_password() {
    let key = new_database_key(None, Pwd::from_str(""));
    assert!(key.password.is_none());
    assert!(key.keyfile.is_none());

    let key = new_database_key(Some(vec![1, 2, 3]), Pwd::from_str("pw"));
    assert_eq!(key.password.map(|p| p.into_text()), Some("pw".to_string()));
    assert_eq!(key.keyfile, Some(vec![1, 2, 3]));
}

#[test]
fn test_resolve_lookup_outcomes() {
    let root = fixture_vault();

    match resolve_lookup(&root, &Some("test-pwd".to_string()), false, true) {
        LookupOutcome::Found(e) => assert_eq!(e.title, "test-pwd"),
        _ => panic!("expected the entry to be found"),
    }
    assert!(matches!(
        resolve_lookup(&root, &Some("missing".to_string()), true, true),
        LookupOutcome::NotFound
    ));
    assert!(matches!(
        resolve_lookup(&root, &Some("missing".to_string()), false, false),
        LookupOutcome::NoSingleMatch
    ));
    assert!(matches!(
        resolve_lookup(&root, &None, false, true),
        LookupOutcome::NeedsPicker
    ));
}

#[test]
fn test_picker_filter_and_selection() {
    let mut root = fixture_vault();
    // An empty TOTP payload is not usable: the filter must exclude it.
    let mut empty_otp = entry_titled("blank-totp");
    empty_otp.otp = Some(String::new());
    root.children.push(Node::Entry(empty_otp));
    let flat = get_entries(&root, "");

    let with_totp = filter_totp(&flat, true);
    assert_eq!(with_totp.len(), 1);
    assert_eq!(with_totp[0].entry.title, "test-totp");

    let everything = filter_totp(&flat, false);
    assert_eq!(everything.len(), 3);

    let items = picker_items(&everything, false, true);
    assert_eq!(items.len(), 3);
    assert_eq!(items[0].idx, 0);
    assert_eq!(items[0].title, "/Root/test-pwd");
    assert!(items[0].preview.as_deref().unwrap().starts_with("Title: test-pwd"));

    let bare = picker_items(&everything, true, false);
    assert_eq!(bare[1].title, "test-totp");
    assert!(bare[1].preview.is_none());

    let chosen = resolve_selection(&everything, false, &vec![1]);
    assert_eq!(chosen.map(|e| e.title), Some("test-totp".to_string()));
    assert!(resolve_selection(&everything, true, &vec![1]).is_none());
    assert!(resolve_selection(&everything, false, &vec![0, 1]).is_none());
    assert!(resolve_selection(&everything, false, &vec![7]).is_none());
}

#[test]
fn test_empty_group_flattens_to_nothing() {
    let root = Group { name: "Root".to_string(), children: vec![] };
    assert!(get_entries(&root, "").is_empty());
    assert!(find_entry("anything", &root).is_none());
}

#[test]
fn test_duplicate_titles_first_in_order_wins() {
    let mut first = entry_titled("twin");
    first.username = "first".to_string();
    let mut second = entry_titled("twin");
    second.username = "second".to_string();
    let sub = Group { name: "sub".to_string(), children: vec![Node::Entry(second)] };
    let root = Group {
        name: "Root".to_string(),
        children: vec![Node::Entry(first), Node::Group(sub)],
    };
    let found = find_entry("twin", &root).expect("a twin exists");
    assert_eq!(found.username, "first");
}

#[test]
fn test_wrapped_entry_trait_accessors() {
    let w = WrappedEntry { path: "/Root".to_string(), entry: entry_titled("a") };
    assert_eq!(w.get_title(), "a");
    assert_eq!(w.entry_path(), "/Root/a");
    assert!(!w.has_totp());
    assert_eq!(w.get_entry().title, "a");
}
