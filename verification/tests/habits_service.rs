use beebfam_core::credential::CredentialStore;
use beebfam_core::error::ErrorKind;
use beebfam_core::habits::{
    add_habit_at, get_habit_templates, get_habits_at, undo_last_at, HabitStore,
    HabitTemplateStore,
};
use beebfam_core::wire::{Scalar, WireObj};

// 2024-05-01T00:00:00Z.
const MAY_FIRST: i64 = 1714521600;
const DAY: i64 = 86400;

fn habit_body(name: &str, date: &str) -> WireObj {
    WireObj {
        fields: vec![
            ("name".to_string(), Scalar::Str(name.to_string())),
            ("date".to_string(), Scalar::Str(date.to_string())),
        ],
    }
}

fn field<'a>(obj: &'a WireObj, key: &str) -> &'a Scalar {
    &obj.fields.iter().find(|p| p.0 == key).expect("field missing").1
}

#[test]
fn habit_shows_inside_the_window_and_drops_out_after() {
    let cred = CredentialStore::new("key");
    let cookie = String::from("key");
    let mut store = HabitStore::new();
    let listing = add_habit_at(
        &mut store,
        &cred,
        Some(&cookie),
        &habit_body("Meditate", "2024-05-01"),
        MAY_FIRST,
    )
    .unwrap();
    assert_eq!(listing.key, "habits");
    assert_eq!(listing.rows.len(), 1);
    assert_eq!(*field(&listing.rows[0], "name"), Scalar::Str("Meditate".to_string()));

    // Ten days later the seven-day window has moved past the habit.
    let later = get_habits_at(&store, MAY_FIRST + 10 * DAY);
    assert_eq!(later.rows.len(), 0);

    // The row still exists in storage: the earlier window still shows it.
    let again = get_habits_at(&store, MAY_FIRST);
    assert_eq!(again.rows.len(), 1);
}

#[test]
fn undo_deletes_the_most_recently_updated_row_not_the_latest_date() {
    let cred = CredentialStore::new("key");
    let cookie = String::from("key");
    let mut store = HabitStore::new();
    // Later calendar day, earlier update time.
    add_habit_at(&mut store, &cred, Some(&cookie), &habit_body("A", "2024-05-02"), MAY_FIRST)
        .unwrap();
    // Earlier calendar day, later update time: the undo target.
    add_habit_at(
        &mut store,
        &cred,
        Some(&cookie),
        &habit_body("B", "2024-05-01"),
        MAY_FIRST + 100,
    )
    .unwrap();
    let listing = undo_last_at(&mut store, &cred, Some(&cookie), MAY_FIRST + 200).unwrap();
    assert_eq!(listing.rows.len(), 1);
    assert_eq!(*field(&listing.rows[0], "name"), Scalar::Str("A".to_string()));
    assert_eq!(*field(&listing.rows[0], "date"), Scalar::Str("2024-05-02".to_string()));
}

#[test]
fn undo_on_an_empty_store_is_a_quiet_success() {
    let cred = CredentialStore::new("key");
    let cookie = String::from("key");
    let mut store = HabitStore::new();
    let listing = undo_last_at(&mut store, &cred, Some(&cookie), MAY_FIRST).unwrap();
    assert_eq!(listing.rows.len(), 0);
}

#[test]
fn habit_listing_orders_by_date_then_update_time_descending() {
    let cred = CredentialStore::new("key");
    let cookie = String::from("key");
    let mut store = HabitStore::new();
    add_habit_at(&mut store, &cred, Some(&cookie), &habit_body("old", "2024-04-29"), MAY_FIRST)
        .unwrap();
    add_habit_at(
        &mut store,
        &cred,
        Some(&cookie),
        &habit_body("new-early", "2024-05-01"),
        MAY_FIRST + 1,
    )
    .unwrap();
    let listing = add_habit_at(
        &mut store,
        &cred,
        Some(&cookie),
        &habit_body("new-late", "2024-05-01"),
        MAY_FIRST + 2,
    )
    .unwrap();
    let names: Vec<Scalar> = listing.rows.iter().map(|r| field(r, "name").clone()).collect();
    assert_eq!(
        names,
        vec![
            Scalar::Str("new-late".to_string()),
            Scalar::Str("new-early".to_string()),
            Scalar::Str("old".to_string()),
        ]
    );
}

#[test]
fn habit_mutations_without_credential_change_nothing() {
    let cred = CredentialStore::new("key");
    let cookie = String::from("key");
    let mut store = HabitStore::new();
    add_habit_at(&mut store, &cred, Some(&cookie), &habit_body("A", "2024-05-01"), MAY_FIRST)
        .unwrap();

    let err = add_habit_at(&mut store, &cred, None, &habit_body("B", "2024-05-01"), MAY_FIRST)
        .unwrap_err();
    assert_eq!(err.kind, ErrorKind::Authorization);
    let wrong = String::from("nope");
    let err = undo_last_at(&mut store, &cred, Some(&wrong), MAY_FIRST).unwrap_err();
    assert_eq!(err.kind, ErrorKind::Authorization);
    assert_eq!(get_habits_at(&store, MAY_FIRST).rows.len(), 1);
}

#[test]
fn malformed_habit_body_is_a_validation_failure() {
    let cred = CredentialStore::new("key");
    let cookie = String::from("key");
    let mut store = HabitStore::new();
    let body = WireObj {
        fields: vec![("name".to_string(), Scalar::Str("A".to_string()))],
    };
    let err = add_habit_at(&mut store, &cred, Some(&cookie), &body, MAY_FIRST).unwrap_err();
    assert_eq!(err.kind, ErrorKind::Validation);
    assert_eq!(get_habits_at(&store, MAY_FIRST).rows.len(), 0);
}

#[test]
fn habit_templates_list_in_name_order() {
    let mut store = HabitTemplateStore::new();
    store.add("Stretch".to_string(), None);
    store.add("Meditate".to_string(), Some(2));
    let listing = get_habit_templates(&store);
    assert_eq!(listing.key, "templates");
    assert_eq!(listing.rows.len(), 2);
    assert_eq!(*field(&listing.rows[0], "name"), Scalar::Str("Meditate".to_string()));
    assert_eq!(*field(&listing.rows[0], "max_occurrences"), Scalar::Int(2));
    assert_eq!(*field(&listing.rows[1], "name"), Scalar::Str("Stretch".to_string()));
    assert_eq!(*field(&listing.rows[1], "max_occurrences"), Scalar::Null);
}

#[test]
fn habit_listing_twice_without_mutation_is_identical() {
    let cred = CredentialStore::new("key");
    let cookie = String::from("key");
    let mut store = HabitStore::new();
    add_habit_at(&mut store, &cred, Some(&cookie), &habit_body("A", "2024-05-01"), MAY_FIRST)
        .unwrap();
    assert_eq!(get_habits_at(&store, MAY_FIRST), get_habits_at(&store, MAY_FIRST));
}
