use beebfam_core::credential::CredentialStore;
use beebfam_core::error::ErrorKind;
use beebfam_core::items::{add_item, add_item_with, delete_item, get_items, ItemStore};
use beebfam_core::wire::{Listing, Scalar, WireObj};

fn body_with_name(name: &str) -> WireObj {
    WireObj { fields: vec![("name".to_string(), Scalar::Str(name.to_string()))] }
}

fn field<'a>(obj: &'a WireObj, key: &str) -> &'a Scalar {
    &obj.fields.iter().find(|p| p.0 == key).expect("field missing").1
}

fn str_of(s: &Scalar) -> String {
    match s {
        Scalar::Str(v) => v.clone(),
        other => panic!("expected a string, got {:?}", other),
    }
}

#[test]
fn add_item_with_valid_credential_grows_the_listing() {
    let cred = CredentialStore::new("key");
    let mut store = ItemStore::new();
    let cookie = String::from("key");
    let before: Listing = get_items(&store);
    assert_eq!(before.rows.len(), 0);

    let listing = add_item(&mut store, &cred, Some(&cookie), &body_with_name("Buy milk"))
        .expect("authorized add must succeed");
    assert_eq!(listing.key, "items");
    assert_eq!(listing.rows.len(), 1);
    let row = &listing.rows[0];
    assert_eq!(str_of(field(row, "name")), "Buy milk");
    let id = str_of(field(row, "id"));
    assert_eq!(id.chars().count(), 36);
}

#[test]
fn add_item_without_credential_changes_nothing() {
    let cred = CredentialStore::new("key");
    let mut store = ItemStore::new();
    let err = add_item(&mut store, &cred, None, &body_with_name("Buy milk")).unwrap_err();
    assert_eq!(err.kind, ErrorKind::Authorization);
    assert_eq!(get_items(&store).rows.len(), 0);
}

#[test]
fn add_item_with_wrong_credential_changes_nothing() {
    let cred = CredentialStore::new("key");
    let mut store = ItemStore::new();
    let cookie = String::from("not-the-key");
    let err = add_item(&mut store, &cred, Some(&cookie), &body_with_name("x")).unwrap_err();
    assert_eq!(err.kind, ErrorKind::Authorization);
    assert_eq!(get_items(&store).rows.len(), 0);
}

#[test]
fn item_created_at_is_the_server_clock_value() {
    let cred = CredentialStore::new("key");
    let mut store = ItemStore::new();
    let cookie = String::from("key");
    let listing = add_item_with(
        &mut store,
        &cred,
        Some(&cookie),
        &body_with_name("Buy milk"),
        String::from("fixed-id"),
        4242,
    )
    .unwrap();
    let row = &listing.rows[0];
    assert_eq!(str_of(field(row, "id")), "fixed-id");
    assert_eq!(*field(row, "created_at"), Scalar::Int(4242));
}

#[test]
fn delete_item_removes_exactly_the_named_id() {
    let cred = CredentialStore::new("key");
    let mut store = ItemStore::new();
    let cookie = String::from("key");
    add_item_with(&mut store, &cred, Some(&cookie), &body_with_name("a"), "id-a".into(), 1)
        .unwrap();
    add_item_with(&mut store, &cred, Some(&cookie), &body_with_name("b"), "id-b".into(), 2)
        .unwrap();
    let listing = delete_item(&mut store, &cred, Some(&cookie), "id-a").unwrap();
    assert_eq!(listing.rows.len(), 1);
    assert_eq!(str_of(field(&listing.rows[0], "name")), "b");
}

#[test]
fn delete_item_without_credential_changes_nothing() {
    let cred = CredentialStore::new("key");
    let mut store = ItemStore::new();
    let cookie = String::from("key");
    add_item_with(&mut store, &cred, Some(&cookie), &body_with_name("a"), "id-a".into(), 1)
        .unwrap();
    let err = delete_item(&mut store, &cred, None, "id-a").unwrap_err();
    assert_eq!(err.kind, ErrorKind::Authorization);
    assert_eq!(get_items(&store).rows.len(), 1);
}

#[test]
fn malformed_item_body_is_a_validation_failure() {
    let cred = CredentialStore::new("key");
    let mut store = ItemStore::new();
    let cookie = String::from("key");
    let body = WireObj { fields: vec![("name".to_string(), Scalar::Int(7))] };
    let err = add_item(&mut store, &cred, Some(&cookie), &body).unwrap_err();
    assert_eq!(err.kind, ErrorKind::Validation);
    let empty = WireObj { fields: vec![] };
    let err = add_item(&mut store, &cred, Some(&cookie), &empty).unwrap_err();
    assert_eq!(err.kind, ErrorKind::Validation);
    assert_eq!(get_items(&store).rows.len(), 0);
}

#[test]
fn duplicate_name_field_is_rejected() {
    let cred = CredentialStore::new("key");
    let mut store = ItemStore::new();
    let cookie = String::from("key");
    let body = WireObj {
        fields: vec![
            ("name".to_string(), Scalar::Str("a".to_string())),
            ("name".to_string(), Scalar::Str("b".to_string())),
        ],
    };
    let err = add_item(&mut store, &cred, Some(&cookie), &body).unwrap_err();
    assert_eq!(err.kind, ErrorKind::Validation);
}

#[test]
fn listing_twice_without_mutation_is_identical() {
    let cred = CredentialStore::new("key");
    let mut store = ItemStore::new();
    let cookie = String::from("key");
    add_item_with(&mut store, &cred, Some(&cookie), &body_with_name("a"), "id-a".into(), 1)
        .unwrap();
    add_item_with(&mut store, &cred, Some(&cookie), &body_with_name("b"), "id-b".into(), 2)
        .unwrap();
    let l1 = get_items(&store);
    let l2 = get_items(&store);
    assert_eq!(l1, l2);
}
