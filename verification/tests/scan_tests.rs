use yabridgectl::config::{add_directory, Config, InstallationMethod};
use yabridgectl::fs::{
    classify, index_directory, scan, Entry, FoundFile, FsTree, InstallationCheckError,
};
use yabridgectl::locator::LibraryNotFoundError;
use yabridgectl::path::{check_plugin_name, make_companion_name};
use yabridgectl::report::{
    compose, format_report, header_lines, status_word, DirectoryError, DirReport, ScanOutcome,
};

fn b(s: &str) -> Vec<u8> {
    s.as_bytes().to_vec()
}

fn file(name: &str) -> Entry {
    Entry { name: b(name), node: FsTree::File }
}

fn link(name: &str) -> Entry {
    Entry { name: b(name), node: FsTree::Symlink }
}

fn dir(name: &str, entries: Vec<Entry>) -> Entry {
    Entry { name: b(name), node: FsTree::Dir(entries) }
}

#[test]
fn plugin_names_match_suffix_case_insensitively() {
    assert!(check_plugin_name(&b("Synth.dll")));
    assert!(check_plugin_name(&b("SYNTH.DLL")));
    assert!(check_plugin_name(&b("synth.DlL")));
    assert!(!check_plugin_name(&b("Synth.so")));
    assert!(!check_plugin_name(&b(".dll")));
    assert!(!check_plugin_name(&b("dll")));
}

#[test]
fn companion_replaces_suffix() {
    assert_eq!(make_companion_name(&b("Synth.dll")), b("Synth.so"));
    assert_eq!(make_companion_name(&b("My Synth.DLL")), b("My Synth.so"));
}

#[test]
fn classify_reports_absent_without_companion() {
    let entries = vec![file("Synth.dll")];
    let r = classify(&b("/plugins/A"), &entries, &b("Synth.dll"));
    assert_eq!(r, Ok(None));
}

#[test]
fn classify_reports_regular_copy() {
    let entries = vec![file("Synth.dll"), file("Synth.so")];
    let r = classify(&b("/plugins/A"), &entries, &b("Synth.dll"));
    assert_eq!(r, Ok(Some(FoundFile::Regular(b("/plugins/A/Synth.so")))));
}

#[test]
fn classify_reports_symlink_even_dangling() {
    // the entry's own type decides, not its target
    let entries = vec![file("Synth.dll"), link("Synth.so")];
    let r = classify(&b("/plugins/A"), &entries, &b("Synth.dll"));
    assert_eq!(r, Ok(Some(FoundFile::Symlink(b("/plugins/A/Synth.so")))));
}

#[test]
fn classify_reports_unknown_on_unreadable_companion() {
    let entries = vec![
        file("Synth.dll"),
        Entry { name: b("Synth.so"), node: FsTree::Other },
    ];
    let r = classify(&b("/plugins/A"), &entries, &b("Synth.dll"));
    assert_eq!(r, Err(InstallationCheckError));
}

#[test]
fn index_walks_subdirectories_and_sorts() {
    let entries = vec![
        dir("zeta", vec![file("B.dll"), file("B.so")]),
        file("A.dll"),
        dir("alpha", vec![file("C.dll")]),
    ];
    let items = index_directory(&b("/p"), &entries);
    let plugins: Vec<Vec<u8>> = items.iter().map(|it| it.plugin.clone()).collect();
    assert_eq!(plugins, vec![b("/p/A.dll"), b("/p/alpha/C.dll"), b("/p/zeta/B.dll")]);
    assert_eq!(items[0].status, Ok(None));
    assert_eq!(
        items[2].status,
        Ok(Some(FoundFile::Regular(b("/p/zeta/B.so"))))
    );
}

#[test]
fn directory_symlinks_are_never_followed() {
    // a link pointing back at an ancestor is a leaf for the scanner: the
    // walk terminates and yields each plugin exactly once
    let entries = vec![
        file("Synth.dll"),
        link("loop"),
        dir("sub", vec![link("back"), file("Deep.dll")]),
    ];
    let items = index_directory(&b("/p"), &entries);
    let plugins: Vec<Vec<u8>> = items.iter().map(|it| it.plugin.clone()).collect();
    assert_eq!(plugins, vec![b("/p/Synth.dll"), b("/p/sub/Deep.dll")]);
}

#[test]
fn scan_lists_sorted_plugin_paths() {
    let entries = vec![
        dir("b", vec![file("Late.dll")]),
        file("Early.dll"),
        file("ignored.txt"),
    ];
    let found = scan(&b("/p"), &entries);
    assert_eq!(found, vec![b("/p/Early.dll"), b("/p/b/Late.dll")]);
}

#[test]
fn compose_isolates_a_broken_directory() {
    // one registered directory was deleted after registration; the other
    // must still produce a full result
    let mut c = Config::default();
    add_directory(&mut c, b("/plugins/A"));
    add_directory(&mut c, b("/plugins/B"));
    let outcomes = vec![
        ScanOutcome::Failed(DirectoryError::NotFound),
        ScanOutcome::Scanned(vec![file("Synth.dll"), file("Synth.so")]),
    ];
    let reports = compose(&c, outcomes);
    assert_eq!(reports.len(), 2);
    assert_eq!(reports[0].dir, b("/plugins/A"));
    assert_eq!(reports[0].result, Err(DirectoryError::NotFound));
    assert_eq!(reports[1].dir, b("/plugins/B"));
    let items = reports[1].result.as_ref().expect("intact directory must scan");
    assert_eq!(items.len(), 1);
    assert_eq!(items[0].plugin, b("/plugins/B/Synth.dll"));
}

#[test]
fn status_words() {
    assert_eq!(status_word(&Ok(None)), b("not installed"));
    assert_eq!(status_word(&Ok(Some(FoundFile::Regular(b("/x"))))), b("copy"));
    assert_eq!(status_word(&Ok(Some(FoundFile::Symlink(b("/x"))))), b("symlink"));
    assert_eq!(status_word(&Err(InstallationCheckError)), b("unknown"));
}

#[test]
fn end_to_end_symlinked_plugin() {
    // config registers /plugins/A; the directory holds Synth.dll and a
    // symbolic link Synth.so; status must list `Synth.dll :: symlink`
    let mut c = Config::default();
    add_directory(&mut c, b("/plugins/A"));
    let outcomes = vec![ScanOutcome::Scanned(vec![file("Synth.dll"), link("Synth.so")])];
    let reports = compose(&c, outcomes);
    let lines = format_report(&reports[0]);
    assert_eq!(lines[0], b("/plugins/A:"));
    assert_eq!(lines[1], b("  /plugins/A/Synth.dll :: symlink"));
}

#[test]
fn report_error_line() {
    let rep = DirReport { dir: b("/gone"), result: Err(DirectoryError::PermissionDenied) };
    let lines = format_report(&rep);
    assert_eq!(lines, vec![b("/gone:"), b("  error: permission denied")]);
}

#[test]
fn header_lines_with_auto_discovery() {
    let c = Config::default();
    let lines = header_lines(&c, &Ok(b("/usr/lib/yabridge/libyabridge.so")));
    assert_eq!(lines[0], b("yabridge path: <auto>"));
    assert_eq!(lines[1], b("libyabridge.so: '/usr/lib/yabridge/libyabridge.so'"));
    assert_eq!(lines[2], b("installation method: copy"));
}

#[test]
fn header_lines_with_override_and_missing_library() {
    let mut c = Config::default();
    c.yabridge_home = Some(b("/opt/yabridge"));
    c.method = InstallationMethod::Symlink;
    let lines = header_lines(&c, &Err(LibraryNotFoundError));
    assert_eq!(lines[0], b("yabridge path: '/opt/yabridge'"));
    assert_eq!(lines[1], b("libyabridge.so: <not found>"));
    assert_eq!(lines[2], b("installation method: symlink"));
}
