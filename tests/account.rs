use cloak::account::{name_precedes, Account, AccountStore};

fn account(key: &str, totp: bool) -> Account {
    Account {
        key: key.to_string(),
        totp,
        hash_function: "SHA1".to_string(),
        counter: if totp { None } else { Some(0) },
    }
}

#[test]
fn add_get_delete() {
    let mut store = AccountStore::new();
    assert!(store.get("test_app").is_none());
    store.add("test_app".to_string(), account("MFZWIYLTMRQXGZCBBI", true));
    let got = store.get("test_app").unwrap();
    assert_eq!(got.key, "MFZWIYLTMRQXGZCBBI");
    assert!(got.totp);
    let removed = store.delete("test_app").unwrap();
    assert_eq!(removed.key, "MFZWIYLTMRQXGZCBBI");
    assert!(store.get("test_app").is_none());
    assert!(store.delete("test_app").is_none());
}

#[test]
fn add_replaces_an_existing_name() {
    let mut store = AccountStore::new();
    store.add("a".to_string(), account("AAAA", true));
    store.add("b".to_string(), account("BBBB", false));
    store.add("a".to_string(), account("CCCC", false));
    assert_eq!(store.list().len(), 2);
    assert_eq!(store.get("a").unwrap().key, "CCCC");
    assert_eq!(store.get("b").unwrap().counter, Some(0));
}

#[test]
fn delete_of_missing_name_keeps_the_rest() {
    let mut store = AccountStore::new();
    store.add("x".to_string(), account("XXXX", true));
    assert!(store.delete("404app").is_none());
    assert_eq!(store.list().len(), 1);
    assert_eq!(store.list()[0].0, "x");
}

#[test]
fn list_is_in_ascending_name_order() {
    let mut store = AccountStore::new();
    for name in ["mail", "bank", "zeta", "Alpha", "bankx"] {
        store.add(name.to_string(), account("AAAA", true));
    }
    let names: Vec<&str> = store.list().iter().map(|(n, _)| n.as_str()).collect();
    assert_eq!(names, vec!["Alpha", "bank", "bankx", "mail", "zeta"]);
    store.delete("bank");
    let names: Vec<&str> = store.list().iter().map(|(n, _)| n.as_str()).collect();
    assert_eq!(names, vec!["Alpha", "bankx", "mail", "zeta"]);
}

#[test]
fn name_order_is_byte_order() {
    assert!(name_precedes("a", "b"));
    assert!(name_precedes("ab", "abc"));
    assert!(!name_precedes("abc", "ab"));
    assert!(!name_precedes("same", "same"));
    assert!(name_precedes("Z", "a"));
    assert!(name_precedes("z", "é"));
}
