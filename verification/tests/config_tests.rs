use yabridgectl::codec::{decode_config, encode_config, ConfigError};
use yabridgectl::config::{
    add_directory, contains_dir, list_directories, remove_directory, Config, InstallationMethod,
};
use yabridgectl::locator::{default_probe_dirs, library_candidates, resolve_library};
use yabridgectl::path::normalize;
use yabridgectl::validate::validate_path;

fn b(s: &str) -> Vec<u8> {
    s.as_bytes().to_vec()
}

#[test]
fn default_config_is_empty() {
    let c = Config::default();
    assert!(c.plugin_dirs.is_empty());
    assert!(c.yabridge_home.is_none());
    assert_eq!(c.method, InstallationMethod::Copy);
}

#[test]
fn add_is_idempotent() {
    let mut c = Config::default();
    assert!(add_directory(&mut c, b("/plugins/a")));
    let once = c.plugin_dirs.clone();
    assert!(!add_directory(&mut c, b("/plugins/a")));
    assert_eq!(c.plugin_dirs, once);
    assert_eq!(c.plugin_dirs.len(), 1);
}

#[test]
fn add_normalizes_trailing_separators() {
    let mut c = Config::default();
    assert!(add_directory(&mut c, b("/plugins/a///")));
    assert!(!add_directory(&mut c, b("/plugins/a")));
    assert_eq!(c.plugin_dirs, vec![b("/plugins/a")]);
}

#[test]
fn normalize_keeps_root() {
    assert_eq!(normalize(b("/")), b("/"));
    assert_eq!(normalize(b("///")), b("/"));
    assert_eq!(normalize(b("/a/b/")), b("/a/b"));
}

#[test]
fn remove_absent_is_noop() {
    let mut c = Config::default();
    add_directory(&mut c, b("/plugins/a"));
    let before = c.plugin_dirs.clone();
    assert!(!remove_directory(&mut c, &b("/plugins/zzz")));
    assert_eq!(c.plugin_dirs, before);
}

#[test]
fn remove_twice_equals_once() {
    let mut c = Config::default();
    add_directory(&mut c, b("/plugins/a"));
    add_directory(&mut c, b("/plugins/b"));
    assert!(remove_directory(&mut c, &b("/plugins/a")));
    let once = c.plugin_dirs.clone();
    assert!(!remove_directory(&mut c, &b("/plugins/a")));
    assert_eq!(c.plugin_dirs, once);
    assert_eq!(c.plugin_dirs, vec![b("/plugins/b")]);
}

#[test]
fn listing_is_sorted_and_deterministic() {
    let mut c = Config::default();
    add_directory(&mut c, b("/zeta"));
    add_directory(&mut c, b("/alpha"));
    add_directory(&mut c, b("/mid"));
    let l1 = list_directories(&c);
    let l2 = list_directories(&c);
    assert_eq!(l1, l2);
    assert_eq!(l1, vec![b("/alpha"), b("/mid"), b("/zeta")]);
    assert!(contains_dir(&c, &b("/mid")));
    assert!(!contains_dir(&c, &b("/missing")));
}

#[test]
fn encode_produces_canonical_document() {
    let mut c = Config::default();
    add_directory(&mut c, b("/plugins/a"));
    add_directory(&mut c, b("/plugins/b"));
    c.yabridge_home = Some(b("/opt/yabridge"));
    c.method = InstallationMethod::Symlink;
    let doc = encode_config(&c);
    assert_eq!(
        doc,
        b("method=symlink\nhome=/opt/yabridge\ndir=/plugins/a\ndir=/plugins/b\n")
    );
}

#[test]
fn round_trip_default() {
    let c = Config::default();
    let doc = encode_config(&c);
    let c2 = decode_config(&doc).expect("canonical document must parse");
    assert_eq!(c2.plugin_dirs, c.plugin_dirs);
    assert_eq!(c2.yabridge_home, c.yabridge_home);
    assert_eq!(c2.method, c.method);
}

#[test]
fn round_trip_full() {
    let mut c = Config::default();
    add_directory(&mut c, b("/plugins/vst"));
    add_directory(&mut c, b("/data/more plugins"));
    c.yabridge_home = Some(b("/opt/yabridge"));
    c.method = InstallationMethod::Symlink;
    let doc = encode_config(&c);
    let c2 = decode_config(&doc).expect("canonical document must parse");
    assert_eq!(c2.plugin_dirs, c.plugin_dirs);
    assert_eq!(c2.yabridge_home, c.yabridge_home);
    assert_eq!(c2.method, c.method);
}

#[test]
fn decode_rejects_garbage() {
    assert_eq!(decode_config(&b("nonsense")), Err(ConfigError::Parse));
    assert_eq!(decode_config(&b("")), Err(ConfigError::Parse));
    assert_eq!(decode_config(&b("method=copper\n")), Err(ConfigError::Parse));
}

#[test]
fn decode_rejects_unsorted_directories() {
    let doc = b("method=copy\ndir=/b\ndir=/a\n");
    assert_eq!(decode_config(&doc), Err(ConfigError::Parse));
    let dup = b("method=copy\ndir=/a\ndir=/a\n");
    assert_eq!(decode_config(&dup), Err(ConfigError::Parse));
}

#[test]
fn decode_rejects_invalid_paths() {
    assert_eq!(
        decode_config(&b("method=copy\ndir=relative\n")),
        Err(ConfigError::Parse)
    );
    assert_eq!(
        decode_config(&b("method=copy\ndir=/trailing/\n")),
        Err(ConfigError::Parse)
    );
    assert_eq!(
        decode_config(&b("method=copy\nhome=elsewhere\n")),
        Err(ConfigError::Parse)
    );
}

#[test]
fn decode_accepts_home_line() {
    let c = decode_config(&b("method=copy\nhome=/opt/yabridge\n")).expect("must parse");
    assert_eq!(c.yabridge_home, Some(b("/opt/yabridge")));
    assert!(c.plugin_dirs.is_empty());
    assert_eq!(c.method, InstallationMethod::Copy);
}

#[test]
fn validate_path_accepts_existing() {
    assert_eq!(validate_path(&b("/anywhere"), true), Ok(()));
}

#[test]
fn validate_path_message_for_missing() {
    let r = validate_path(&b("/nowhere"), false);
    assert_eq!(
        r,
        Err(b("File or directory '/nowhere' could not be found"))
    );
}

#[test]
fn resolver_picks_first_existing_candidate() {
    let candidates = vec![b("/a/libyabridge.so"), b("/b/libyabridge.so"), b("/c/libyabridge.so")];
    let exists = vec![false, true, true];
    assert_eq!(
        resolve_library(&candidates, &exists),
        Ok(b("/b/libyabridge.so"))
    );
}

#[test]
fn resolver_fails_when_nothing_exists() {
    let candidates = vec![b("/a/libyabridge.so")];
    assert!(resolve_library(&candidates, &vec![false]).is_err());
}

#[test]
fn override_is_honored_literally() {
    let probes = vec![b("/usr/lib/yabridge")];
    let cands = library_candidates(&Some(b("/opt/custom")), &probes);
    assert_eq!(cands, vec![b("/opt/custom/libyabridge.so")]);
    // the override's absence is a hard failure, not a fallback to probing
    assert!(resolve_library(&cands, &vec![false]).is_err());
}

#[test]
fn probe_candidates_follow_probe_order() {
    let probes = default_probe_dirs(&b("/home/user/.local/share"));
    let cands = library_candidates(&None, &probes);
    assert_eq!(
        cands,
        vec![
            b("/home/user/.local/share/yabridge/libyabridge.so"),
            b("/usr/lib/yabridge/libyabridge.so"),
            b("/usr/local/lib/yabridge/libyabridge.so"),
        ]
    );
}
