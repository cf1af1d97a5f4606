use beebfam_core::auth::{check_credential, cookie_name};
use beebfam_core::credential::CredentialStore;
use beebfam_core::error::ErrorKind;

#[test]
fn secret_is_trimmed_at_load() {
    let cred = CredentialStore::new("  hunter2 \n");
    assert!(cred.matches("hunter2"));
    assert!(cred.matches("  hunter2  "));
    assert!(cred.matches("hunter2\n"));
}

#[test]
fn wrong_or_differently_cased_candidates_fail() {
    let cred = CredentialStore::new("hunter2");
    assert!(!cred.matches("hunter3"));
    assert!(!cred.matches("HUNTER2"));
    assert!(!cred.matches(""));
}

#[test]
fn guard_accepts_only_the_trimmed_secret() {
    let cred = CredentialStore::new("hunter2\n");
    let good = String::from(" hunter2 ");
    let bad = String::from("other");
    assert!(check_credential(Some(&good), &cred).is_ok());
    let denied = check_credential(Some(&bad), &cred).unwrap_err();
    assert_eq!(denied.kind, ErrorKind::Authorization);
    assert_eq!(denied.msg, "Nope, sorry");
}

#[test]
fn guard_denies_a_missing_cookie() {
    let cred = CredentialStore::new("hunter2");
    let denied = check_credential(None, &cred).unwrap_err();
    assert_eq!(denied.kind, ErrorKind::Authorization);
    assert_eq!(denied.status(), 500);
    assert_eq!(denied.body(), "Something went wrong: Nope, sorry");
}

#[test]
fn cookie_name_is_fixed() {
    assert_eq!(cookie_name(), "beebfam-key");
}
