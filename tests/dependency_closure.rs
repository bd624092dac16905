use malinstrack::deps::{
    dependency_entries, first_search_result, is_needed_shared_lib_path, is_path_like, split_rows,
    trim_ldd_row_to_only_path,
};

const CAT_LDD_OUTPUT: &str = "\tlinux-vdso.so.1 (0x00007ffd8a5f2000)\n\
\tlibc.so.6 => /lib/x86_64-linux-gnu/libc.so.6 (0x00007f3a1c000000)\n\
\t/lib64/ld-linux-x86-64.so.2 (0x00007f3a1c3a4000)\n";

#[test]
fn resolved_row_yields_resolved_path() {
    assert_eq!(
        trim_ldd_row_to_only_path("libfoo.so => /usr/lib/libfoo.so (0x7f...)"),
        "/usr/lib/libfoo.so"
    );
}

#[test]
fn vdso_row_yields_no_entry() {
    let row = "linux-vdso.so.1 (0x7f...)";
    assert_eq!(trim_ldd_row_to_only_path(row), "linux-vdso.so.1");
    assert!(!is_needed_shared_lib_path(trim_ldd_row_to_only_path(row)));
    assert!(dependency_entries(row).is_empty());
}

#[test]
fn row_without_address_is_trimmed() {
    assert_eq!(trim_ldd_row_to_only_path("  libbar.so.2  "), "libbar.so.2");
    assert_eq!(trim_ldd_row_to_only_path(""), "");
    assert_eq!(trim_ldd_row_to_only_path("   \t "), "");
}

#[test]
fn only_the_segment_after_the_first_arrow_counts() {
    assert_eq!(trim_ldd_row_to_only_path("a => b => c"), "b");
    assert_eq!(trim_ldd_row_to_only_path("libx.so => not found"), "not found");
}

#[test]
fn unicode_white_space_is_trimmed() {
    assert_eq!(
        trim_ldd_row_to_only_path("x =>\u{a0}/opt/p\u{3000} (0x1)"),
        "/opt/p"
    );
}

#[test]
fn ubiquitous_entries_are_not_needed() {
    assert!(!is_needed_shared_lib_path(""));
    assert!(!is_needed_shared_lib_path("linux-vdso.so.1"));
    assert!(!is_needed_shared_lib_path("libc.so.6"));
    assert!(!is_needed_shared_lib_path("/lib/x86_64-linux-gnu/libc.so.6"));
    assert!(is_needed_shared_lib_path("/lib64/ld-linux-x86-64.so.2"));
    assert!(is_needed_shared_lib_path("/usr/lib/libcrypt.so.1"));
    assert!(is_needed_shared_lib_path("libcap.so.2"));
}

#[test]
fn path_like_tokens() {
    assert!(is_path_like("/bin/cat"));
    assert!(is_path_like("./run.sh"));
    assert!(is_path_like("../bin/tool"));
    assert!(!is_path_like("cat"));
    assert!(!is_path_like(".hidden"));
    assert!(!is_path_like(""));
}

#[test]
fn rows_split_on_newlines() {
    assert_eq!(split_rows("a\nb\n"), vec!["a", "b", ""]);
    assert_eq!(split_rows(""), vec![""]);
    assert_eq!(split_rows("one"), vec!["one"]);
    assert_eq!(split_rows("\n\n"), vec!["", "", ""]);
}

#[test]
fn search_result_is_first_line() {
    assert_eq!(first_search_result("/bin/cat\n"), Some("/bin/cat".to_string()));
    assert_eq!(
        first_search_result("/usr/bin/cat\n/bin/cat\n"),
        Some("/usr/bin/cat".to_string())
    );
    assert_eq!(first_search_result(""), None);
    assert_eq!(first_search_result("\n/bin/cat\n"), None);
}

#[test]
fn cat_closure_excludes_runtime_and_vdso() {
    assert!(!is_path_like("cat"));
    let resolved = first_search_result("/bin/cat\n").unwrap();
    assert_eq!(resolved, "/bin/cat");
    let entries = dependency_entries(CAT_LDD_OUTPUT);
    assert_eq!(entries, vec!["/lib64/ld-linux-x86-64.so.2".to_string()]);
}

#[test]
fn closure_entries_are_distinct() {
    let out = "libfoo.so => /usr/lib/libfoo.so (0x1)\n\
libbar.so => /usr/lib/libbar.so (0x2)\n\
libfoo.so => /usr/lib/libfoo.so (0x3)\n\
\n\
libc.so.6 => /lib/libc.so.6 (0x4)\n";
    assert_eq!(
        dependency_entries(out),
        vec!["/usr/lib/libfoo.so".to_string(), "/usr/lib/libbar.so".to_string()]
    );
}

#[test]
fn empty_output_has_no_entries() {
    assert!(dependency_entries("").is_empty());
    assert!(dependency_entries("\n\n").is_empty());
}

#[test]
fn vdso_named_file_is_a_real_dependency() {
    assert!(is_needed_shared_lib_path("/x/linux-vdso.so.1"));
    assert!(!is_needed_shared_lib_path("linux-vdso.so.1"));
    assert_eq!(
        dependency_entries("libv.so => /x/linux-vdso.so.1 (0x1)\n"),
        vec!["/x/linux-vdso.so.1".to_string()]
    );
}

#[test]
fn cat_closure_with_resolved_libc() {
    let out = "\tlinux-vdso.so.1 (0x7ffd)\n\
\tlibc.so.6 => /lib/x86_64-linux-gnu/libc.so.6 (0x7f01)\n\
\tlibfoo.so.1 => /usr/lib/libfoo.so.1 (0x7f02)\n";
    assert_eq!(dependency_entries(out), vec!["/usr/lib/libfoo.so.1".to_string()]);
}
