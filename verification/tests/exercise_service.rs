use beebfam_core::credential::CredentialStore;
use beebfam_core::error::ErrorKind;
use beebfam_core::exercise::{
    add_exercise_at, decode_exercise_request, get_exercise_items, get_exercise_templates,
    AerobicTemplate, AnaerobicTemplate, ExerciseRequest, ExerciseStore, ExerciseTemplateStore,
};
use beebfam_core::wire::{Number, Scalar, WireObj};

fn aerobic_body(name: &str) -> WireObj {
    WireObj {
        fields: vec![
            ("type".to_string(), Scalar::Str("aerobic".to_string())),
            ("name".to_string(), Scalar::Str(name.to_string())),
            ("duration_min".to_string(), Scalar::Int(30)),
            ("distance".to_string(), Scalar::Int(5)),
        ],
    }
}

fn field<'a>(obj: &'a WireObj, key: &str) -> &'a Scalar {
    &obj.fields.iter().find(|p| p.0 == key).expect("field missing").1
}

#[test]
fn aerobic_add_stores_the_server_date_not_the_clients() {
    let cred = CredentialStore::new("key");
    let cookie = String::from("key");
    let mut store = ExerciseStore::new();
    let mut body = aerobic_body("Run");
    body.fields.push(("date".to_string(), Scalar::Int(999)));
    let listing = add_exercise_at(&mut store, &cred, Some(&cookie), &body, 1234).unwrap();
    assert_eq!(listing.key, "items");
    assert_eq!(listing.rows.len(), 1);
    let row = &listing.rows[0];
    assert_eq!(*field(row, "name"), Scalar::Str("Run".to_string()));
    assert_eq!(*field(row, "duration_min"), Scalar::Int(30));
    assert_eq!(*field(row, "distance"), Scalar::Int(5));
    assert_eq!(*field(row, "date"), Scalar::Int(1234));
    assert!(row.fields.iter().all(|p| p.0 != "type"));
}

#[test]
fn encoded_row_and_tagged_input_round_trip() {
    let cred = CredentialStore::new("key");
    let cookie = String::from("key");
    let mut store = ExerciseStore::new();
    let mut body = aerobic_body("Swim");
    body.fields[2].1 = Scalar::Dec("12.5".to_string());
    add_exercise_at(&mut store, &cred, Some(&cookie), &body, 7).unwrap();
    let row = &get_exercise_items(&store).rows[0];

    let tagged = WireObj {
        fields: vec![
            ("type".to_string(), Scalar::Str("aerobic".to_string())),
            ("name".to_string(), field(row, "name").clone()),
            ("duration_min".to_string(), field(row, "duration_min").clone()),
            ("distance".to_string(), field(row, "distance").clone()),
        ],
    };
    match decode_exercise_request(&tagged).unwrap() {
        ExerciseRequest::Aerobic(q) => {
            assert_eq!(q.name, "Swim");
            assert_eq!(q.duration_min, Some(Number::Dec("12.5".to_string())));
            assert_eq!(q.distance, Some(Number::Int(5)));
        }
        ExerciseRequest::Anaerobic(_) => panic!("wrong variant"),
    }
}

#[test]
fn unknown_discriminator_fails_without_touching_the_store() {
    let cred = CredentialStore::new("key");
    let cookie = String::from("key");
    let mut store = ExerciseStore::new();
    let body = WireObj {
        fields: vec![
            ("type".to_string(), Scalar::Str("swimming".to_string())),
            ("name".to_string(), Scalar::Str("x".to_string())),
        ],
    };
    let err = add_exercise_at(&mut store, &cred, Some(&cookie), &body, 1).unwrap_err();
    assert_eq!(err.kind, ErrorKind::Validation);
    assert_eq!(get_exercise_items(&store).rows.len(), 0);
}

#[test]
fn missing_discriminator_is_rejected() {
    let body = WireObj {
        fields: vec![("name".to_string(), Scalar::Str("x".to_string()))],
    };
    let err = decode_exercise_request(&body).unwrap_err();
    assert_eq!(err.kind, ErrorKind::Validation);
}

#[test]
fn anaerobic_add_keeps_its_own_field_shape() {
    let cred = CredentialStore::new("key");
    let cookie = String::from("key");
    let mut store = ExerciseStore::new();
    let body = WireObj {
        fields: vec![
            ("type".to_string(), Scalar::Str("anaerobic".to_string())),
            ("name".to_string(), Scalar::Str("Bench".to_string())),
            ("weight".to_string(), Scalar::Dec("62.5".to_string())),
            ("sets".to_string(), Scalar::Int(3)),
            ("reps".to_string(), Scalar::Int(8)),
        ],
    };
    let listing = add_exercise_at(&mut store, &cred, Some(&cookie), &body, 55).unwrap();
    let row = &listing.rows[0];
    assert_eq!(*field(row, "weight"), Scalar::Dec("62.5".to_string()));
    assert_eq!(*field(row, "sets"), Scalar::Int(3));
    assert_eq!(*field(row, "reps"), Scalar::Int(8));
    assert_eq!(*field(row, "date"), Scalar::Int(55));
    assert!(row.fields.iter().all(|p| p.0 != "duration_min"));
}

#[test]
fn sets_must_be_integral() {
    let body = WireObj {
        fields: vec![
            ("type".to_string(), Scalar::Str("anaerobic".to_string())),
            ("name".to_string(), Scalar::Str("Bench".to_string())),
            ("sets".to_string(), Scalar::Dec("3.5".to_string())),
        ],
    };
    let err = decode_exercise_request(&body).unwrap_err();
    assert_eq!(err.kind, ErrorKind::Validation);
}

#[test]
fn absent_and_null_optionals_decode_to_none() {
    let body = WireObj {
        fields: vec![
            ("type".to_string(), Scalar::Str("aerobic".to_string())),
            ("name".to_string(), Scalar::Str("Walk".to_string())),
            ("duration_min".to_string(), Scalar::Null),
        ],
    };
    match decode_exercise_request(&body).unwrap() {
        ExerciseRequest::Aerobic(q) => {
            assert_eq!(q.duration_min, None);
            assert_eq!(q.distance, None);
        }
        ExerciseRequest::Anaerobic(_) => panic!("wrong variant"),
    }
}

#[test]
fn listing_is_capped_at_the_most_recent_hundred_per_variant() {
    let mut store = ExerciseStore::new();
    for day in 1..=105i64 {
        store.insert_aerobic(format!("run {day}"), None, None, day);
    }
    let listing = get_exercise_items(&store);
    assert_eq!(listing.rows.len(), 100);
    assert_eq!(*field(&listing.rows[0], "date"), Scalar::Int(6));
    assert_eq!(*field(&listing.rows[99], "date"), Scalar::Int(105));
}

#[test]
fn listing_orders_each_variant_by_date_ascending() {
    let mut store = ExerciseStore::new();
    store.insert_aerobic("late".to_string(), None, None, 30);
    store.insert_aerobic("early".to_string(), None, None, 10);
    store.insert_anaerobic("middle".to_string(), None, None, None, 20);
    let listing = get_exercise_items(&store);
    assert_eq!(*field(&listing.rows[0], "date"), Scalar::Int(10));
    assert_eq!(*field(&listing.rows[1], "date"), Scalar::Int(30));
    assert_eq!(*field(&listing.rows[2], "date"), Scalar::Int(20));
}

#[test]
fn exercise_add_without_credential_changes_nothing() {
    let cred = CredentialStore::new("key");
    let mut store = ExerciseStore::new();
    let err = add_exercise_at(&mut store, &cred, None, &aerobic_body("Run"), 1).unwrap_err();
    assert_eq!(err.kind, ErrorKind::Authorization);
    assert_eq!(get_exercise_items(&store).rows.len(), 0);
}

#[test]
fn exercise_templates_list_untagged_in_arrival_order() {
    let mut store = ExerciseTemplateStore::new();
    store.add_aerobic(AerobicTemplate {
        name: "Jog".to_string(),
        duration_min: Some(Number::Int(20)),
        distance: None,
    });
    store.add_anaerobic(AnaerobicTemplate {
        name: "Squat".to_string(),
        weight: None,
        sets: Some(5),
        reps: Some(5),
    });
    let listing = get_exercise_templates(&store);
    assert_eq!(listing.key, "templates");
    assert_eq!(listing.rows.len(), 2);
    assert_eq!(*field(&listing.rows[0], "duration_min"), Scalar::Int(20));
    assert_eq!(*field(&listing.rows[0], "distance"), Scalar::Null);
    assert_eq!(*field(&listing.rows[1], "sets"), Scalar::Int(5));
    assert!(listing.rows[0].fields.iter().all(|p| p.0 != "type"));
}

#[test]
fn exercise_listing_twice_without_mutation_is_identical() {
    let mut store = ExerciseStore::new();
    store.insert_aerobic("a".to_string(), Some(Number::Int(1)), None, 3);
    store.insert_anaerobic("b".to_string(), None, Some(2), None, 4);
    assert_eq!(get_exercise_items(&store), get_exercise_items(&store));
}

#[test]
fn uppercase_tag_is_an_unknown_variant() {
    let body = WireObj {
        fields: vec![
            ("type".to_string(), Scalar::Str("Aerobic".to_string())),
            ("name".to_string(), Scalar::Str("x".to_string())),
        ],
    };
    let err = decode_exercise_request(&body).unwrap_err();
    assert_eq!(err.kind, ErrorKind::Validation);
}

#[test]
fn duplicate_tag_is_rejected() {
    let body = WireObj {
        fields: vec![
            ("type".to_string(), Scalar::Str("aerobic".to_string())),
            ("type".to_string(), Scalar::Str("aerobic".to_string())),
            ("name".to_string(), Scalar::Str("x".to_string())),
        ],
    };
    let err = decode_exercise_request(&body).unwrap_err();
    assert_eq!(err.kind, ErrorKind::Validation);
}

#[test]
fn nested_values_are_type_mismatches() {
    let body = WireObj {
        fields: vec![
            ("type".to_string(), Scalar::Str("aerobic".to_string())),
            ("name".to_string(), Scalar::Str("x".to_string())),
            ("duration_min".to_string(), Scalar::Composite),
        ],
    };
    let err = decode_exercise_request(&body).unwrap_err();
    assert_eq!(err.kind, ErrorKind::Validation);
}
