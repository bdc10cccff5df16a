use literm::config::{AuthConfig, Config, FeatureConfig, ServerConfig};
use literm::fsapi::{
    content_response_json, filter_entries, list_params, list_response_json, make_entry,
    name_visible, raw_download_head, FsEntry, FsListQuery,
};
use literm::sandbox::FsService;

fn entry(name: &str) -> FsEntry {
    make_entry(name.to_string(), false, 1, 2)
}

#[test]
fn hidden_names_are_filtered_unless_asked_for() {
    let names = |entries: &Vec<FsEntry>| -> Vec<String> {
        entries.iter().map(|e| e.name.clone()).collect()
    };
    let listing = vec![entry(".hidden"), entry("visible.txt")];
    let shown = filter_entries(listing, false);
    assert_eq!(names(&shown), vec!["visible.txt".to_string()]);
    let listing2 = vec![entry(".hidden"), entry("visible.txt")];
    let all = filter_entries(listing2, true);
    assert_eq!(names(&all), vec![".hidden".to_string(), "visible.txt".to_string()]);
    assert!(!name_visible(".bashrc", false));
    assert!(name_visible(".bashrc", true));
    assert!(name_visible("plain", false));
}

#[test]
fn listing_defaults_name_the_root_and_hide_dotfiles() {
    let (path, show) = list_params(FsListQuery { path: None, show_hidden: None });
    assert_eq!(path, "");
    assert!(!show);
    let (path, show) =
        list_params(FsListQuery { path: Some("docs".to_string()), show_hidden: Some(true) });
    assert_eq!(path, "docs");
    assert!(show);
}

#[test]
fn entries_carry_their_type_size_and_mtime() {
    let d = make_entry("docs".to_string(), true, 4096, 99);
    assert_eq!(d.entry_type, "dir");
    let f = make_entry("a.txt".to_string(), false, 2, 77);
    assert_eq!(f.entry_type, "file");
    assert_eq!(f.size, 2);
    assert_eq!(f.mtime, 77);
}

#[test]
fn content_body_matches_the_wire_shape() {
    assert_eq!(
        content_response_json("a.txt", "hi"),
        "{\"ok\":true,\"path\":\"a.txt\",\"content\":\"hi\"}"
    );
}

#[test]
fn string_escaping_matches_the_reference_serializer() {
    let tricky = "a\"b\\c\nd\te\u{8}f\u{c}g\rh\u{1f}i/j";
    let body = content_response_json("p", tricky);
    let reference = format!(
        "{{\"ok\":true,\"path\":\"p\",\"content\":{}}}",
        serde_json::to_string(tricky).unwrap()
    );
    assert_eq!(body, reference);
}

#[test]
fn listing_body_is_exact() {
    let entries = vec![make_entry("a".to_string(), true, 10, 5), make_entry(
        "b.txt".to_string(),
        false,
        2,
        7,
    )];
    assert_eq!(
        list_response_json("", &entries),
        "{\"ok\":true,\"path\":\"\",\"entries\":[\
         {\"name\":\"a\",\"entry_type\":\"dir\",\"size\":10,\"mtime\":5},\
         {\"name\":\"b.txt\",\"entry_type\":\"file\",\"size\":2,\"mtime\":7}]}"
    );
    let none: Vec<FsEntry> = Vec::new();
    assert_eq!(list_response_json("x", &none), "{\"ok\":true,\"path\":\"x\",\"entries\":[]}");
}

#[test]
fn raw_download_head_guesses_from_the_extension() {
    let fs = FsService::new("/").unwrap();
    let (path, mime) = raw_download_head(&fs, "tmp").unwrap();
    assert_eq!(path, "/tmp");
    // A path without a known extension falls back to the default type.
    assert_eq!(mime, "application/octet-stream");
    assert_eq!(mime, mime_guess::from_path("/tmp").first_or_octet_stream().as_ref());
}

#[test]
fn raw_download_refuses_escapes() {
    let fs = FsService::new("/tmp").unwrap();
    assert!(raw_download_head(&fs, "../etc/passwd").is_err());
}

#[test]
fn configured_lifetime_converts_to_seconds() {
    let config = Config {
        server: ServerConfig {
            bind_addr: "127.0.0.1".to_string(),
            port: 8080,
            root_dir: "/tmp".to_string(),
            session_timeout_minutes: 30,
        },
        auth: AuthConfig { password_hash: "$argon2id$...".to_string() },
        features: FeatureConfig { enable_hdf5: false, enable_watch: true },
    };
    assert_eq!(config.ttl_seconds(), 1800);
    let mut huge = config;
    huge.server.session_timeout_minutes = u64::MAX;
    assert_eq!(huge.ttl_seconds(), u64::MAX);
}
