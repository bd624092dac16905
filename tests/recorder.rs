use std::collections::HashSet;

use malinstrack::filter::{default_deny_rules, path_allowed_by, valid_path_to_insert, DenyRule};
use malinstrack::record::{
    create_table_statement, insert_statement, path_to_record, record_plan, select_all_statement,
    table_name, table_name_from_stem,
};

const STORE: &str = "/home/user/.malinstrack/reports/demo/demo.db";

#[test]
fn deny_rules_match() {
    assert!(!valid_path_to_insert("/proc/self/maps"));
    assert!(!valid_path_to_insert("/proc/"));
    assert!(!valid_path_to_insert("/usr/bin/ldd"));
    assert!(!valid_path_to_insert("/x/usr/bin/ldd-wrapper"));
    assert!(!valid_path_to_insert("/dev/tty"));
    assert!(!valid_path_to_insert("/dev/tty1"));
}

#[test]
fn other_paths_are_allowed() {
    assert!(valid_path_to_insert("/proc"));
    assert!(valid_path_to_insert("/home/proc/x"));
    assert!(valid_path_to_insert("/etc/passwd"));
    assert!(valid_path_to_insert("/dev/null"));
    assert!(valid_path_to_insert(""));
}

#[test]
fn custom_rules_extend_the_table() {
    let mut rules = default_deny_rules();
    assert_eq!(rules.len(), 3);
    rules.push(DenyRule::Prefix("/tmp/"));
    assert!(!path_allowed_by(&rules, b"/tmp/scratch"));
    assert!(path_allowed_by(&rules, b"/var/tmp/scratch"));
    assert!(path_allowed_by(&[], b"/proc/1"));
}

#[test]
fn denied_paths_are_never_recorded() {
    for p in ["/proc/1/status", "/usr/bin/ldd", "/dev/tty3"] {
        assert_eq!(path_to_record(p.as_bytes()), None);
        assert!(record_plan(Some(STORE), p.as_bytes()).is_none());
    }
}

#[test]
fn invalid_utf8_is_not_recorded() {
    assert_eq!(path_to_record(&[0x2f, 0xff, 0x61]), None);
    assert!(record_plan(Some(STORE), &[0x2f, 0xff, 0x61]).is_none());
}

#[test]
fn allowed_path_is_recorded_as_text() {
    assert_eq!(path_to_record("/etc/h\u{e9}".as_bytes()), Some("/etc/h\u{e9}"));
}

#[test]
fn table_is_named_after_store_file() {
    assert_eq!(table_name(STORE), Some("demo"));
    assert_eq!(table_name("/a/b/sess.v2.db"), Some("sess"));
    assert_eq!(table_name("plain"), Some("plain"));
    assert_eq!(table_name("/"), None);
    assert_eq!(table_name(""), None);
    assert_eq!(table_name_from_stem("a.b"), "a");
    assert_eq!(table_name_from_stem("abc"), "abc");
    assert_eq!(table_name_from_stem(".hidden"), "");
}

#[test]
fn statements_are_exact() {
    assert_eq!(insert_statement("demo"), "INSERT INTO demo VALUES (?)");
    assert_eq!(
        create_table_statement("demo"),
        "CREATE TABLE IF NOT EXISTS demo(path TEXT, unique(path))"
    );
    assert_eq!(select_all_statement("demo"), "SELECT * FROM demo");
}

#[test]
fn plan_names_store_statement_and_path() {
    let ins = record_plan(Some(STORE), b"/etc/hosts").unwrap();
    assert_eq!(ins.store_path, STORE);
    assert_eq!(ins.statement, "INSERT INTO demo VALUES (?)");
    assert_eq!(ins.path, "/etc/hosts");
}

#[test]
fn no_binding_no_recording() {
    assert!(record_plan(None, b"/etc/hosts").is_none());
    assert!(record_plan(None, b"/proc/1").is_none());
    assert!(record_plan(None, &[0xff]).is_none());
}

#[test]
fn store_without_file_name_records_nothing() {
    assert!(record_plan(Some("/"), b"/etc/hosts").is_none());
}

fn run_session(calls: &[&str]) -> HashSet<String> {
    let mut rows = HashSet::new();
    for c in calls {
        if let Some(ins) = record_plan(Some(STORE), c.as_bytes()) {
            rows.insert(ins.path);
        }
    }
    rows
}

#[test]
fn recording_twice_leaves_one_row() {
    let rows = run_session(&["/etc/hosts", "/etc/hosts"]);
    assert_eq!(rows.len(), 1);
    assert!(rows.contains("/etc/hosts"));
}

#[test]
fn distinct_files_give_one_row_each() {
    let rows = run_session(&[
        "/etc/a", "/etc/b", "/etc/c", "/etc/a", "/etc/c", "/etc/a", "/proc/1/maps",
    ]);
    assert_eq!(rows.len(), 3);
}

#[test]
fn interleaved_reopens_give_one_row_per_path() {
    let rows = run_session(&["/etc/a", "/etc/b", "/etc/a", "/etc/c", "/etc/b", "/etc/c"]);
    assert_eq!(rows.len(), 3);
}
