use inertia_axum::vite::{attr, dedup, fnv1a_hex, Chunk, Vite, ViteError, ViteSettings};

const MANIFEST: &str = r#"{"src/main.tsx":{"file":"assets/main-4f2a.js","src":"src/main.tsx","isEntry":true,"imports":["_vendor","_shared"],"dynamicImports":["src/Lazy.tsx"],"css":["assets/main-1b2c.css"]},"_vendor":{"file":"assets/vendor-9c1d.js","css":["assets/vendor-5e6f.css"]},"_shared":{"file":"assets/shared-77aa.js","imports":["_vendor"]},"src/Lazy.tsx":{"file":"assets/Lazy-3e3e.js","isDynamicEntry":true}}"#;

fn chunk(file: &str, imports: &[&str], css: &[&str]) -> Chunk {
    Chunk {
        file: file.into(),
        imports: imports.iter().map(|s| s.to_string()).collect(),
        css: css.iter().map(|s| s.to_string()).collect(),
    }
}

fn build() -> Vite {
    let chunks = vec![
        ("src/main.tsx".to_string(), chunk("assets/main-4f2a.js", &["_vendor", "_shared"], &["assets/main-1b2c.css"])),
        ("_vendor".to_string(), chunk("assets/vendor-9c1d.js", &[], &["assets/vendor-5e6f.css"])),
        ("_shared".to_string(), chunk("assets/shared-77aa.js", &["_vendor"], &[])),
        ("src/Lazy.tsx".to_string(), chunk("assets/Lazy-3e3e.js", &[], &[])),
    ];
    Vite::from_chunks(chunks, MANIFEST.as_bytes(), "/static".into())
}

#[test]
fn entry_tags_include_css_preloads_and_script() {
    let tags = build().tags(Some("src/main.tsx")).unwrap();
    assert_eq!(
        tags,
        r#"<link rel="stylesheet" href="/static/assets/main-1b2c.css"><link rel="stylesheet" href="/static/assets/vendor-5e6f.css"><link rel="modulepreload" href="/static/assets/vendor-9c1d.js"><link rel="modulepreload" href="/static/assets/shared-77aa.js"><script type="module" src="/static/assets/main-4f2a.js"></script>"#);
    // Dynamic imports stay lazy.
    assert!(!tags.contains("Lazy"));
}

#[test]
fn unknown_entry_and_missing_manifest_are_errors() {
    assert_eq!(build().tags(Some("src/nope.tsx")).unwrap_err(), ViteError::UnknownEntry("src/nope.tsx".into()));
    assert_eq!(build().tags(None).unwrap_err(), ViteError::NoEntry, "no default entry configured");
}

#[test]
fn version_is_a_stable_hash_of_the_manifest() {
    let v = |m: &str| Vite::from_chunks(vec![("a.js".into(), chunk("a-1.js", &[], &[]))], m.as_bytes(), "/".into());
    let a = v(r#"{"a.js":{"file":"a-1.js"}}"#);
    let b = v(r#"{"a.js":{"file":"a-1.js"}}"#);
    let c = v(r#"{"a.js":{"file":"a-2.js"}}"#);
    assert_eq!(a.version(), b.version());
    assert_ne!(a.version(), c.version());
    assert_eq!(a.version().unwrap().len(), 16);
}

#[test]
fn dev_server_tags() {
    let vite = Vite::dev("http://localhost:5173/", true).with_default_entry(Some("src/main.tsx".into()));
    let tags = vite.tags(None).unwrap();
    assert!(tags.starts_with(r#"<script type="module">import RefreshRuntime from "http://localhost:5173/@react-refresh";"#));
    assert!(tags.ends_with(r#"<script type="module" src="http://localhost:5173/@vite/client"></script><script type="module" src="http://localhost:5173/src/main.tsx"></script>"#));
    assert_eq!(vite.version(), None);

    let plain = Vite::dev("http://localhost:5173", false).tags(Some("src/main.tsx")).unwrap();
    assert!(!plain.contains("RefreshRuntime"));
}

#[test]
fn dev_server_wins_over_manifest() {
    let vite = Vite::from_dev_settings(&ViteSettings {
        dev_server: Some("http://localhost:5173".into()),
        manifest: Some("does/not/exist.json".into()),
        ..Default::default()
    })
    .unwrap();
    assert_eq!(vite.version(), None);
    assert!(Vite::from_dev_settings(&ViteSettings::default()).is_none());
}

#[test]
fn fnv1a_of_known_inputs() {
    assert_eq!(fnv1a_hex(b""), "cbf29ce484222325");
    assert_eq!(fnv1a_hex(b"a"), "af63dc4c8601ec8c");
}

#[test]
fn attributes_are_escaped_and_lists_deduplicated() {
    assert_eq!(attr(r#"a&b"<c>"#), "a&amp;b&quot;&lt;c&gt;");
    let d = dedup(&vec!["x".into(), "y".into(), "x".into()]);
    assert_eq!(d, vec!["x".to_string(), "y".to_string()]);
    let v = Vite::dev("http://h", false).tags(Some("/src/a\".tsx")).unwrap();
    assert!(v.contains(r#"src="http://h/src/a&quot;.tsx""#));
}

#[test]
fn an_import_cycle_is_walked_once() {
    let chunks = vec![
        ("main".to_string(), chunk("m.js", &["_a"], &["m.css"])),
        ("_a".to_string(), chunk("a.js", &["main", "_a"], &["a.css", "m.css"])),
    ];
    let vite = Vite::from_chunks(chunks, b"{}", "/".into());
    let tags = vite.tags(Some("main")).unwrap();
    assert_eq!(
        tags,
        r#"<link rel="stylesheet" href="/m.css"><link rel="stylesheet" href="/a.css"><link rel="modulepreload" href="/a.js"><link rel="modulepreload" href="/m.js"><script type="module" src="/m.js"></script>"#);
}
