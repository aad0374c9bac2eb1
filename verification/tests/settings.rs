use inertia_axum::form::{validation_errors, FieldError};
use inertia_axum::json::JsonValue;
use inertia_axum::settings::{CsrfSettings, InertiaSettings, SettingsError};
use inertia_axum::ssr::SsrSettings;

#[test]
fn flash_secret_must_be_long_enough() {
    let short = InertiaSettings { flash_secret: Some("too short".into()), ..Default::default() };
    assert_eq!(short.key_material().unwrap_err(), SettingsError::SecretTooShort);

    let ok = InertiaSettings { flash_secret: Some("x".repeat(64)), secure_cookies: true, ..Default::default() };
    assert!(ok.secure_cookies);
    assert_eq!(ok.key_material().unwrap(), Some(vec![b'x'; 64]));
    // Without a secret a random key is used…
    assert_eq!(InertiaSettings::default().key_material().unwrap(), None);
    // …except where one is required (production).
    let required = InertiaSettings { require_flash_secret: true, ..Default::default() };
    assert_eq!(required.key_material().unwrap_err(), SettingsError::SecretRequired);
    assert!(InertiaSettings { flash_secret: Some("x".repeat(64)), ..required }.key_material().is_ok());
}

#[test]
fn validator_errors_become_first_message_per_field() {
    let fields = vec![
        ("name".to_string(), vec![FieldError { code: "length".into(), message: Some("Name is too short.".into()) }]),
        ("email".to_string(), vec![FieldError { code: "email".into(), message: None }]),
        ("age".to_string(), vec![]),
    ];
    let errors = validation_errors(&fields);
    assert_eq!(
        errors,
        vec![
            ("name".to_string(), JsonValue::Text("Name is too short.".into())),
            ("email".to_string(), JsonValue::Text("The email field is invalid (email).".into())),
        ]
    );
}

#[test]
fn ssr_settings() {
    let r = SsrSettings::default().renderer().expect("on when the section is present");
    assert_eq!(r.render_url, "http://127.0.0.1:13714/render");
    assert_eq!(r.timeout_ms, 2000);
    let custom = SsrSettings { url: Some("http://127.0.0.1:9999/".into()), timeout_ms: Some(500), ..Default::default() };
    let r = custom.renderer().unwrap();
    assert_eq!(r.render_url, "http://127.0.0.1:9999/render");
    assert_eq!(r.timeout_ms, 500);
    assert!(SsrSettings { enabled: Some(false), ..Default::default() }.renderer().is_none());
    let b = SsrSettings { failure_threshold: Some(0), cooldown_secs: Some(5), ..Default::default() }.breaker();
    assert_eq!(b.threshold, 1);
    assert_eq!(b.cooldown_ms, 5000);
    let d = SsrSettings::default().breaker();
    assert_eq!((d.threshold, d.cooldown_ms), (3, 30000));
}

#[test]
fn setup_enables_csrf_unless_disabled_and_passes_encrypt_history() {
    let key = vec![7u8; 64];
    let default = InertiaSettings::default();
    assert!(default.csrf(key.clone()).is_some());
    assert!(!default.adapter_config(None).encrypt_history);

    let custom = InertiaSettings {
        csrf: Some(CsrfSettings { enabled: None, exempt: vec!["/api/".into()] }),
        encrypt_history: true,
        ..Default::default()
    };
    assert_eq!(custom.csrf(key.clone()).unwrap().exempt, vec!["/api/".to_string()]);
    assert!(custom.adapter_config(None).encrypt_history);

    let off = InertiaSettings { csrf: Some(CsrfSettings { enabled: Some(false), exempt: vec![] }), ..Default::default() };
    assert!(off.csrf(key).is_none());
}

#[test]
fn version_and_app_id_come_from_settings_or_the_manifest() {
    let s = InertiaSettings::default();
    let c = s.adapter_config(Some("abc".into()));
    assert_eq!(c.version.as_deref(), Some("abc"));
    assert_eq!(c.app_id, "app");
    let s = InertiaSettings { version: Some("v42".into()), app_id: Some("root".into()), ..Default::default() };
    let c = s.adapter_config(Some("abc".into()));
    assert_eq!(c.version.as_deref(), Some("v42"));
    assert_eq!(c.app_id, "root");
    assert_eq!(InertiaSettings::default().root_template_path(), "assets/views/inertia.html");
}

#[test]
fn allowed_hosts_take_the_authority_once() {
    let mut s = InertiaSettings::default();
    s.allow_hosts_of(&vec!["http://example.com:8080".into(), "https://example.com:8080/x".into(), "/relative".into()]);
    assert_eq!(s.allowed_redirect_hosts, vec!["example.com:8080".to_string()]);
}
