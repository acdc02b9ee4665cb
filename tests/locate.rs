use llvm_proxy::locate::{
    collect_possible_directories, find_lib_path, find_library_in_directory, is_library_file_name,
    join_dir, sibling_dir, LocateError, LocatorEnv, Platform,
};
use llvm_proxy::text::split_list;

fn strings(items: &[&str]) -> Vec<String> {
    items.iter().map(|s| s.to_string()).collect()
}

#[test]
fn locator_finds_library_in_second_directory() {
    let dirs = strings(&["/a", "/b"]);
    let listings = vec![Some(vec![]), Some(strings(&["libLLVM-15.so"]))];
    let r = find_lib_path(&dirs, &listings, Platform::Linux);
    assert!(matches!(r, Ok(ref p) if p == "/b/libLLVM-15.so"));
}

#[test]
fn locator_lists_every_directory_when_nothing_matches() {
    let dirs = strings(&["/a", "/b"]);
    let listings = vec![Some(vec![]), Some(strings(&["libclang.so", "README"]))];
    match find_lib_path(&dirs, &listings, Platform::Linux) {
        Err(LocateError::NotFound { searched }) => {
            assert_eq!(searched, strings(&["/a", "/b"]));
            let e = LocateError::NotFound { searched };
            assert_eq!(
                e.message(),
                "Unable to find LLVM shared lib in possible locations:\n- /a\n- /b"
            );
        }
        _ => panic!("expected NotFound"),
    }
}

#[test]
fn locator_without_candidates_fails() {
    let r = find_lib_path(&vec![], &vec![], Platform::Linux);
    match r {
        Err(e) => {
            assert!(matches!(e, LocateError::NoCandidates));
            assert_eq!(e.message(), "Unable to find possible LLVM shared lib locations.");
        }
        Ok(_) => panic!("expected an error"),
    }
}

#[test]
fn locator_skips_unreadable_directory_and_keeps_first_match() {
    let dirs = strings(&["/x", "/y", "/z"]);
    let listings = vec![
        None,
        Some(strings(&["libLLVM.a", "libLLVM-17.so", "libLLVM-18.so"])),
        Some(strings(&["libLLVM-19.so"])),
    ];
    let r = find_lib_path(&dirs, &listings, Platform::Linux);
    assert!(matches!(r, Ok(ref p) if p == "/y/libLLVM-17.so"));
}

#[test]
fn duplicate_directories_first_match_wins() {
    let dirs = strings(&["/a", "/a/"]);
    let listings = vec![
        Some(strings(&["libLLVM-16.so"])),
        Some(strings(&["libLLVM-16.so"])),
    ];
    let r = find_lib_path(&dirs, &listings, Platform::Linux);
    assert!(matches!(r, Ok(ref p) if p == "/a/libLLVM-16.so"));
}

#[test]
fn library_naming_rule() {
    assert!(is_library_file_name("libLLVM-15.so", Platform::Linux));
    assert!(is_library_file_name("libLLVM.so", Platform::Linux));
    assert!(!is_library_file_name("libLLVM.a", Platform::Linux));
    assert!(!is_library_file_name("libLLVM-15.dylib", Platform::Linux));
    assert!(is_library_file_name("libLLVM-15.dylib", Platform::MacOs));
    assert!(is_library_file_name("libLLVM-15.dll", Platform::Windows));
    assert!(!is_library_file_name("libLLVM-15.lib", Platform::Windows));
    assert!(!is_library_file_name("libllvm-15.so", Platform::Linux));
    assert!(!is_library_file_name("libclang.so", Platform::Linux));
    assert!(!is_library_file_name("libLLVM", Platform::Linux));
    assert!(!is_library_file_name("", Platform::Linux));
}

#[test]
fn directory_in_listing_is_joined() {
    let entries = strings(&["notes.txt", "libLLVM-14.dylib"]);
    assert_eq!(
        find_library_in_directory("/opt/lib", &entries, Platform::MacOs),
        Some("/opt/lib/libLLVM-14.dylib".to_string())
    );
    assert_eq!(find_library_in_directory("/opt/lib", &entries, Platform::Linux), None);
    assert_eq!(find_library_in_directory("/opt/lib", &vec![], Platform::Linux), None);
}

#[test]
fn joining_paths() {
    assert_eq!(join_dir("/usr", "lib", Platform::Linux), "/usr/lib");
    assert_eq!(join_dir("/usr/", "lib", Platform::Linux), "/usr/lib");
    assert_eq!(join_dir("", "lib", Platform::Linux), "lib");
    assert_eq!(join_dir("C:\\llvm", "lib", Platform::Windows), "C:\\llvm\\lib");
}

#[test]
fn sibling_library_directory() {
    assert_eq!(sibling_dir("/usr/bin", "lib", Platform::Linux), "/usr/lib");
    assert_eq!(sibling_dir("/usr/bin/", "lib", Platform::Linux), "/usr/lib");
    assert_eq!(sibling_dir("bin", "lib", Platform::Linux), "lib");
    assert_eq!(sibling_dir("/", "lib", Platform::Linux), "/lib");
    assert_eq!(sibling_dir("", "lib", Platform::Linux), "lib");
    assert_eq!(sibling_dir("/bin", "lib", Platform::Linux), "/lib");
    assert_eq!(sibling_dir("C:\\llvm\\bin", "lib", Platform::Windows), "C:\\llvm\\lib");
}

#[test]
fn splitting_path_lists() {
    assert_eq!(split_list("a:b", ':'), strings(&["a", "b"]));
    assert_eq!(split_list("a::b", ':'), strings(&["a", "", "b"]));
    assert_eq!(split_list("", ':'), strings(&[""]));
    assert_eq!(split_list("a;b", ';'), strings(&["a", "b"]));
    assert_eq!(split_list(":", ':'), strings(&["", ""]));
}

#[test]
fn candidate_directories_in_priority_order() {
    let env = LocatorEnv {
        build_prefix: Some("/opt/llvm".to_string()),
        library_path: Some("/x:/y".to_string()),
        fallback_library_path: Some("/fallback".to_string()),
        search_path: Some("/usr/bin:/opt/tools/bin/".to_string()),
    };
    assert_eq!(
        collect_possible_directories(&env, Platform::Linux),
        strings(&["/opt/llvm/lib", "/x", "/y", "/fallback", "/usr/lib", "/opt/tools/lib"])
    );
}

#[test]
fn candidate_directories_with_nothing_set() {
    let env = LocatorEnv {
        build_prefix: None,
        library_path: None,
        fallback_library_path: None,
        search_path: None,
    };
    assert!(collect_possible_directories(&env, Platform::Linux).is_empty());
}

#[test]
fn candidate_directories_keep_duplicates_on_windows() {
    let env = LocatorEnv {
        build_prefix: None,
        library_path: Some("C:\\a;C:\\a".to_string()),
        fallback_library_path: None,
        search_path: Some("C:\\llvm\\bin".to_string()),
    };
    assert_eq!(
        collect_possible_directories(&env, Platform::Windows),
        strings(&["C:\\a", "C:\\a", "C:\\llvm\\lib"])
    );
}

#[test]
fn platform_conventions() {
    assert_eq!(Platform::Linux.list_separator(), ':');
    assert_eq!(Platform::Windows.list_separator(), ';');
    assert_eq!(Platform::MacOs.library_extension(), "dylib");
    assert_eq!(Platform::Windows.dir_separator(), "\\");
    assert_eq!(Platform::Linux.dir_separator_char(), '/');
}
