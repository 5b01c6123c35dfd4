use minishell::{find_in_directory, resolve_executable, split_search_path, Entry};

fn file(dir: &str, name: &str) -> Entry {
    Entry { name: name.to_string(), path: format!("{dir}/{name}"), is_file: true }
}

fn directory(dir: &str, name: &str) -> Entry {
    Entry { name: name.to_string(), path: format!("{dir}/{name}"), is_file: false }
}

#[test]
fn test_first_directory_wins() {
    let search = vec![
        vec![file("/usr/local/bin", "ls")],
        vec![file("/usr/bin", "ls")],
    ];
    assert_eq!(resolve_executable("ls", &search), Some("/usr/local/bin/ls".to_string()));
    let search = vec![
        vec![file("/usr/bin", "ls")],
        vec![file("/usr/local/bin", "ls")],
    ];
    assert_eq!(resolve_executable("ls", &search), Some("/usr/bin/ls".to_string()));
}

#[test]
fn test_later_directory_is_reached() {
    let search = vec![
        vec![file("/a", "cat"), file("/a", "grep")],
        Vec::new(),
        vec![file("/c", "sed"), file("/c", "ls")],
    ];
    assert_eq!(resolve_executable("ls", &search), Some("/c/ls".to_string()));
}

#[test]
fn test_only_regular_files_count() {
    let search = vec![
        vec![directory("/a", "ls")],
        vec![file("/b", "ls")],
    ];
    assert_eq!(resolve_executable("ls", &search), Some("/b/ls".to_string()));
    let search = vec![vec![directory("/a", "ls")]];
    assert_eq!(resolve_executable("ls", &search), None);
}

#[test]
fn test_the_name_has_to_match_exactly() {
    let search = vec![vec![file("/a", "ls2"), file("/a", "LS"), file("/a", "l"), file("/a", "")]];
    assert_eq!(resolve_executable("ls", &search), None);
    assert_eq!(resolve_executable("LS", &search), Some("/a/LS".to_string()));
    assert_eq!(resolve_executable("", &search), Some("/a/".to_string()));
}

#[test]
fn test_nothing_to_search() {
    assert_eq!(resolve_executable("ls", &[]), None);
    assert_eq!(resolve_executable("ls", &[Vec::new(), Vec::new()]), None);
}

#[test]
fn test_first_entry_of_a_directory_wins() {
    let entries = vec![
        directory("/a", "x"),
        Entry { name: "x".to_string(), path: "first".to_string(), is_file: true },
        Entry { name: "x".to_string(), path: "second".to_string(), is_file: true },
    ];
    assert_eq!(find_in_directory(&entries, "x"), Some("first".to_string()));
    assert_eq!(find_in_directory(&entries, "y"), None);
    assert_eq!(find_in_directory(&[], "x"), None);
}

#[test]
fn test_split_search_path() {
    assert_eq!(split_search_path("/usr/bin:/bin"), vec!["/usr/bin", "/bin"]);
    assert_eq!(split_search_path("/usr/bin"), vec!["/usr/bin"]);
    assert_eq!(split_search_path(""), vec![""]);
    assert_eq!(split_search_path(":"), vec!["", ""]);
    assert_eq!(split_search_path("a::b"), vec!["a", "", "b"]);
    assert_eq!(split_search_path(":a:"), vec!["", "a", ""]);
    assert_eq!(split_search_path("/opt/é:/日本"), vec!["/opt/é", "/日本"]);
}

#[test]
fn test_split_search_path_agrees_with_the_standard_library() {
    for path in ["", ":", "::", "a", "a:b", ":a", "a:", "a::b:", "/x y:/z", "a;b:c"] {
        let want: Vec<&str> = path.split(':').collect();
        assert_eq!(split_search_path(path), want, "{path:?}");
        assert_eq!(split_search_path(path).join(":"), path);
    }
}
