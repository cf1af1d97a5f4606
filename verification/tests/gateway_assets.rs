use beebfam_core::assets::{index_content, normalize_path, not_found_body, AssetSet,
    StaticContent, StaticFile};
use beebfam_core::credential::CredentialStore;
use beebfam_core::error::ErrorKind;
use beebfam_core::gateway::{decide_login, get_device, light_control, plan_light_commands,
    LightItem, LoginDecision, ONE_YEAR_SECONDS};

#[test]
fn device_table_maps_known_names() {
    let d = get_device("bubble lamp").expect("known device");
    assert_eq!(d.device, "38:31:D4:AD:FC:A8:91:CB");
    assert_eq!(d.sku, "H5080");
    let s = get_device("studio lights").expect("known device");
    assert_eq!(s.sku, "H612D");
    assert!(get_device("garage").is_none());
    assert!(get_device("Bubble Lamp").is_none());
}

#[test]
fn light_control_toggles_known_devices_and_skips_unknown_names() {
    let cred = CredentialStore::new("key");
    let cookie = String::from("key");
    let reqs = vec![
        LightItem { name: "bubble lamp".to_string(), toggle: true },
        LightItem { name: "no such lamp".to_string(), toggle: false },
    ];
    let cmds = light_control(&cred, Some(&cookie), &reqs).expect("authorized");
    assert_eq!(cmds.len(), 1);
    assert_eq!(cmds[0].device, "38:31:D4:AD:FC:A8:91:CB");
    assert_eq!(cmds[0].value, 1);
}

#[test]
fn light_control_without_credential_is_denied() {
    let cred = CredentialStore::new("key");
    let reqs = vec![LightItem { name: "bubble lamp".to_string(), toggle: true }];
    let err = light_control(&cred, None, &reqs).unwrap_err();
    assert_eq!(err.kind, ErrorKind::Authorization);
}

#[test]
fn light_plan_keeps_request_order_and_encodes_off_as_zero() {
    let reqs = vec![
        LightItem { name: "studio lights".to_string(), toggle: false },
        LightItem { name: "tall living room".to_string(), toggle: true },
    ];
    let cmds = plan_light_commands(&reqs);
    assert_eq!(cmds.len(), 2);
    assert_eq!(cmds[0].sku, "H612D");
    assert_eq!(cmds[0].value, 0);
    assert_eq!(cmds[1].device, "1A:A6:D4:AD:FC:EF:A6:1B");
    assert_eq!(cmds[1].value, 1);
}

#[test]
fn login_grants_the_cookie_for_a_year_on_the_right_password() {
    match decide_login(None, " open sesame \n", "open sesame", "  key  ", 1000) {
        LoginDecision::Grant(value, expires) => {
            assert_eq!(value, "key");
            assert_eq!(expires, 1000 + ONE_YEAR_SECONDS);
        }
        _ => panic!("expected a grant"),
    }
}

#[test]
fn login_denies_the_wrong_password() {
    assert!(matches!(
        decide_login(None, "guess", "open sesame", "key", 1000),
        LoginDecision::Denied
    ));
}

#[test]
fn login_recognizes_an_existing_cookie_verbatim() {
    let cookie = String::from("key");
    assert!(matches!(
        decide_login(Some(&cookie), "anything", "open sesame", " key ", 1000),
        LoginDecision::AlreadyAuthorized
    ));
    // The cookie comparison is verbatim: surrounding whitespace fails it.
    let padded = String::from(" key ");
    assert!(matches!(
        decide_login(Some(&padded), "open sesame", "open sesame", " key ", 1000),
        LoginDecision::Grant(_, _)
    ));
}

#[test]
fn assets_resolve_by_exact_path_with_a_guessed_mime_type() {
    let mut assets = AssetSet::new();
    assets.add("index.html".to_string(), b"<html></html>".to_vec());
    assets.add("assets/app.js".to_string(), b"console.log(1)".to_vec());
    match StaticFile("assets/app.js".to_string()).respond(&assets) {
        StaticContent::Found(mime, body) => {
            assert_eq!(mime, "text/javascript");
            assert_eq!(body, &b"console.log(1)".to_vec());
        }
        StaticContent::Missing => panic!("asset should resolve"),
    }
    match index_content(&assets) {
        StaticContent::Found(mime, body) => {
            assert_eq!(mime, "text/html");
            assert_eq!(body, &b"<html></html>".to_vec());
        }
        StaticContent::Missing => panic!("index should resolve"),
    }
}

#[test]
fn missing_assets_are_a_miss() {
    let assets = AssetSet::new();
    assert!(matches!(
        StaticFile("nope.png".to_string()).respond(&assets),
        StaticContent::Missing
    ));
    assert_eq!(not_found_body(), "404 Not Found");
}

#[test]
fn request_paths_lose_their_leading_slashes() {
    assert_eq!(normalize_path("/index.html"), "index.html");
    assert_eq!(normalize_path("///assets/app.js"), "assets/app.js");
    assert_eq!(normalize_path("plain"), "plain");
    assert_eq!(normalize_path(""), "");
}
