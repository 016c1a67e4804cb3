use contacts::contact::Contact;
use contacts::requests::{
    email_feedback, redirects_after_delete, renders_rows_only, ContactsEmailParams,
    ContactsParams, NewContact,
};
use contacts::store::{ContactStore, PAGE_SIZE};
use contacts::text::field_contains;

fn s(x: &str) -> Option<String> {
    Some(x.to_string())
}

fn person(first: &str, email: &str) -> Contact {
    Contact::new(s(first), None, None, s(email))
}

fn email_error(c: &Contact) -> Option<String> {
    c.errors.get("email").cloned()
}

#[test]
fn new_contact_has_no_id_and_no_errors() {
    let c = Contact::new(s("Ada"), s("Lovelace"), s("555"), s("ada@x.com"));
    assert_eq!(c.id, None);
    assert_eq!(c.first, s("Ada"));
    assert_eq!(c.last, s("Lovelace"));
    assert_eq!(c.phone, s("555"));
    assert_eq!(c.email, s("ada@x.com"));
    assert!(c.errors.is_empty());
}

#[test]
fn default_contact_is_blank() {
    let c = Contact::default();
    assert_eq!(c.id, None);
    assert_eq!(c.first, None);
    assert_eq!(c.email, None);
    assert!(c.errors.is_empty());
}

#[test]
fn validate_twice_gives_same_errors() {
    let mut c = Contact::new(s("Ada"), None, None, None);
    assert!(!c.validate());
    let first = email_error(&c);
    assert!(!c.validate());
    assert_eq!(email_error(&c), first);
    assert_eq!(first, s("Email Required"));

    let mut ok = person("Ada", "ada@x.com");
    assert!(ok.validate());
    assert!(ok.validate());
    assert!(ok.errors.is_empty());
}

#[test]
fn validate_clears_fixed_error() {
    let mut c = Contact::new(s("Ada"), None, None, s(""));
    assert!(!c.validate());
    assert_eq!(email_error(&c), s("Email Required"));
    c.email = s("ada@x.com");
    assert!(c.validate());
    assert!(c.errors.is_empty());
    assert_eq!(email_error(&c), None);
}

#[test]
fn update_replaces_all_four_fields() {
    let mut c = Contact::new(s("Ada"), s("Lovelace"), s("555"), s("ada@x.com"));
    c.update(s("Grace"), None, None, s("grace@x.com"));
    assert_eq!(c.first, s("Grace"));
    assert_eq!(c.last, None);
    assert_eq!(c.phone, None);
    assert_eq!(c.email, s("grace@x.com"));
    assert_eq!(c.id, None);
}

#[test]
fn save_without_email_fails_and_keeps_store() {
    let mut store = ContactStore::new();
    assert!(store.save(person("Ada", "ada@x.com")).is_ok());
    let before = store.count();

    let absent = Contact::new(s("Bob"), None, None, None);
    let err = store.save(absent).err().unwrap();
    assert_eq!(email_error(&err), s("Email Required"));
    assert_eq!(err.first, s("Bob"));
    assert_eq!(store.count(), before);

    let empty = Contact::new(s("Bob"), None, None, s(""));
    let err = store.save(empty).err().unwrap();
    assert_eq!(email_error(&err), s("Email Required"));
    assert_eq!(store.count(), before);
    assert_eq!(store.find(2).unwrap().first, s("Ada"));
}

#[test]
fn second_contact_with_same_email_is_rejected() {
    let mut store = ContactStore::new();
    assert!(store.save(person("Ada", "same@x.com")).is_ok());
    let err = store.save(person("Bob", "same@x.com")).err().unwrap();
    assert_eq!(email_error(&err), s("Email Already Exists"));
    assert_eq!(err.first, s("Bob"));
    assert_eq!(err.id, None);
    assert_eq!(store.count(), 1);
    assert_eq!(store.find(2).unwrap().first, s("Ada"));
}

#[test]
fn email_match_is_exact_and_case_sensitive() {
    let mut store = ContactStore::new();
    assert!(store.save(person("Ada", "ada@x.com")).is_ok());
    assert!(store.save(person("Bob", "ADA@x.com")).is_ok());
    assert!(store.save(person("Cy", "ada@x.co")).is_ok());
    assert_eq!(store.count(), 3);
}

#[test]
fn updating_with_own_email_succeeds() {
    let mut store = ContactStore::new();
    assert!(store.save(person("Ada", "ada@x.com")).is_ok());
    let mut c = store.find(2).unwrap();
    c.update(s("Ada"), s("Lovelace"), None, s("ada@x.com"));
    assert!(store.save(c).is_ok());
    assert_eq!(store.count(), 1);
    let stored = store.find(2).unwrap();
    assert_eq!(stored.last, s("Lovelace"));
    assert_eq!(stored.email, s("ada@x.com"));
}

#[test]
fn first_ids_follow_max_plus_one() {
    let mut store = ContactStore::new();
    assert_eq!(store.max_id(), 1);
    assert!(store.save(person("Ada", "a@x.com")).is_ok());
    assert!(store.save(person("Bob", "b@x.com")).is_ok());
    assert_eq!(store.max_id(), 3);
    assert_eq!(store.find(2).unwrap().first, s("Ada"));
    assert_eq!(store.find(3).unwrap().first, s("Bob"));
    let mut fixed = person("Cy", "c@x.com");
    fixed.id = Some(40);
    assert!(store.save(fixed).is_ok());
    assert!(store.save(person("Di", "d@x.com")).is_ok());
    assert_eq!(store.find(41).unwrap().first, s("Di"));
}

#[test]
fn find_unknown_id_is_none() {
    let mut store = ContactStore::new();
    assert!(store.find(1).is_none());
    assert!(store.save(person("Ada", "ada@x.com")).is_ok());
    assert!(store.find(1).is_none());
    assert!(store.find(3).is_none());
    assert!(store.find(2).is_some());
}

#[test]
fn delete_unknown_id_is_noop() {
    let mut store = ContactStore::new();
    assert!(store.save(person("Ada", "ada@x.com")).is_ok());
    let mut ghost = person("Nobody", "n@x.com");
    ghost.id = Some(99);
    store.delete(ghost);
    assert_eq!(store.count(), 1);
    let known = store.find(2).unwrap();
    store.delete(known);
    assert_eq!(store.count(), 0);
    assert!(store.find(2).is_none());
}

fn fifteen() -> ContactStore {
    let mut store = ContactStore::new();
    for i in 0..15 {
        let email = format!("p{}@x.com", i);
        assert!(store.save(person("P", &email)).is_ok());
    }
    store
}

#[test]
fn second_page_of_fifteen_has_five() {
    let store = fifteen();
    let p1 = store.all(1);
    let p2 = store.all(2);
    assert_eq!(PAGE_SIZE, 10);
    assert_eq!(p1.len(), 10);
    assert_eq!(p2.len(), 5);
    for a in &p1 {
        for b in &p2 {
            assert_ne!(a.id, b.id);
        }
    }
    assert_eq!(store.all(3).len(), 0);
    assert_eq!(store.all(usize::MAX).len(), 0);
}

#[test]
fn empty_search_returns_all() {
    let store = fifteen();
    assert_eq!(store.search("").len(), 15);
    assert_eq!(ContactStore::new().search("").len(), 0);
}

#[test]
fn search_matches_any_field_case_sensitively() {
    let mut store = ContactStore::new();
    assert!(store.save(Contact::new(s("Ada"), s("Lovelace"), None, s("ada@x.com"))).is_ok());
    assert!(store.save(Contact::new(s("Bob"), None, s("555-1234"), s("bob@y.org"))).is_ok());
    assert_eq!(store.search("ove").len(), 1);
    assert_eq!(store.search("love").len(), 0);
    assert_eq!(store.search("Love").len(), 1);
    assert_eq!(store.search("LOVE").len(), 0);
    assert_eq!(store.search("555").len(), 1);
    assert_eq!(store.search("@").len(), 2);
    assert_eq!(store.search("y.org")[0].first, s("Bob"));
    assert_eq!(store.search("zzz").len(), 0);
}

#[test]
fn field_contains_reads_the_text() {
    assert!(field_contains(&s("hello"), "ell"));
    assert!(!field_contains(&s("hello"), "Hell"));
    assert!(!field_contains(&None, ""));
    assert!(field_contains(&s(""), ""));
}

#[test]
fn snapshot_reload_round_trip() {
    let mut store = ContactStore::new();
    assert!(store.save(Contact::new(s("Ada"), s("L"), s("1"), s("ada@x.com"))).is_ok());
    assert!(store.save(Contact::new(None, None, None, s("b@x.com"))).is_ok());
    assert!(store.save(person("Cy", "c@x.com")).is_ok());
    let saved = store.snapshot();
    assert_eq!(saved.len(), 3);
    let reloaded = ContactStore::from_contacts(saved).unwrap();
    assert_eq!(reloaded.count(), 3);
    let a = store.snapshot();
    let b = reloaded.snapshot();
    for i in 0..3 {
        assert_eq!(a[i].id, b[i].id);
        assert_eq!(a[i].first, b[i].first);
        assert_eq!(a[i].last, b[i].last);
        assert_eq!(a[i].phone, b[i].phone);
        assert_eq!(a[i].email, b[i].email);
    }
}

#[test]
fn loading_requires_ids_and_later_wins() {
    let no_id = vec![person("Ada", "a@x.com")];
    assert!(ContactStore::from_contacts(no_id).is_none());

    let mut a = person("Ada", "a@x.com");
    a.id = Some(5);
    let mut b = person("Bob", "b@x.com");
    b.id = Some(5);
    let mut c = person("Cy", "c@x.com");
    c.id = Some(7);
    c.errors.insert("email".to_string(), "stale".to_string());
    let store = ContactStore::from_contacts(vec![a, b, c]).unwrap();
    assert_eq!(store.count(), 2);
    assert_eq!(store.find(5).unwrap().first, s("Bob"));
    assert!(store.find(7).unwrap().errors.is_empty());
    assert_eq!(store.max_id(), 7);
    assert!(store.has_free_id());
}

#[test]
fn id_space_exhaustion_is_reported() {
    let mut a = person("Ada", "a@x.com");
    a.id = Some(u64::MAX);
    let store = ContactStore::from_contacts(vec![a]).unwrap();
    assert!(!store.has_free_id());
    assert!(ContactStore::new().has_free_id());
}

#[test]
fn ada_then_bob_with_same_email() {
    let mut store = ContactStore::new();
    assert!(store.save(Contact::new(s("Ada"), None, None, s("ada@x.com"))).is_ok());
    let ada = store.find(2).unwrap();
    assert_eq!(ada.id, Some(2));
    assert_eq!(ada.first, s("Ada"));
    let err = store.save(Contact::new(s("Bob"), None, None, s("ada@x.com"))).err().unwrap();
    assert_eq!(email_error(&err), s("Email Already Exists"));
    assert!(err.errors.get("first").is_none());
    assert_eq!(store.count(), 1);
}

#[test]
fn field_errors_insert_replaces() {
    let mut c = Contact::default();
    c.errors.insert("email".to_string(), "one".to_string());
    c.errors.insert("phone".to_string(), "two".to_string());
    c.errors.insert("email".to_string(), "three".to_string());
    assert_eq!(c.errors.get("email"), Some(&"three".to_string()));
    assert_eq!(c.errors.get("phone"), Some(&"two".to_string()));
    assert_eq!(c.errors.get("last"), None);
    assert!(!c.errors.is_empty());
}

#[test]
fn form_becomes_unsaved_contact() {
    let form = NewContact {
        first_name: s("Ada"),
        last_name: None,
        phone: s("1"),
        email: s("ada@x.com"),
    };
    let c = form.into_contact();
    assert_eq!(c.id, None);
    assert_eq!(c.first, s("Ada"));
    assert_eq!(c.last, None);
    assert_eq!(c.phone, s("1"));
    assert_eq!(c.email, s("ada@x.com"));
    assert!(c.errors.is_empty());
}

#[test]
fn inline_email_feedback() {
    let c = person("Ada", "ada@x.com");
    assert_eq!(email_feedback(c, ContactsEmailParams { email: None }), "Email Required");
    let c = person("Ada", "ada@x.com");
    assert_eq!(email_feedback(c, ContactsEmailParams { email: s("") }), "Email Required");
    let c = person("Ada", "");
    assert_eq!(email_feedback(c, ContactsEmailParams { email: s("new@x.com") }), "");
}

#[test]
fn rows_only_for_search_keystrokes() {
    let q = ContactsParams { q: s("ad") };
    let none = ContactsParams { q: None };
    assert!(renders_rows_only(&q, &s("search")));
    assert!(!renders_rows_only(&q, &s("Search")));
    assert!(!renders_rows_only(&q, &None));
    assert!(!renders_rows_only(&none, &s("search")));
}

#[test]
fn delete_button_redirects() {
    assert!(redirects_after_delete(&s("delete-btn")));
    assert!(!redirects_after_delete(&s("delete")));
    assert!(!redirects_after_delete(&None));
}
