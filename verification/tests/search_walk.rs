use editor_core::search::SearchResult;
use editor_core::search::SearchWalk;

/// An in-memory directory tree: directory listings and file contents,
/// with a counter for every listing or read the walk asks for.
struct TestTree {
    dirs: Vec<(String, Vec<String>)>,
    files: Vec<(String, String)>,
    io_calls: usize,
}

impl TestTree {
    fn new() -> TestTree {
        TestTree { dirs: Vec::new(), files: Vec::new(), io_calls: 0 }
    }

    fn with_dir(mut self, path: &str, entries: &[&str]) -> TestTree {
        let entries = entries.iter().map(|e| e.to_string()).collect();
        self.dirs.push((path.to_string(), entries));
        self
    }

    fn with_file(mut self, path: &str, content: &str) -> TestTree {
        self.files.push((path.to_string(), content.to_string()));
        self
    }

    fn listing(&mut self, path: &str) -> Option<Vec<String>> {
        self.io_calls += 1;
        for (p, entries) in &self.dirs {
            if p == path {
                return Some(entries.clone());
            }
        }
        None
    }

    fn content(&mut self, path: &str) -> Option<String> {
        self.io_calls += 1;
        for (p, c) in &self.files {
            if p == path {
                return Some(c.clone());
            }
        }
        None
    }

    fn is_dir(&self, path: &str) -> bool {
        self.dirs.iter().any(|(p, _)| p == path)
    }

    fn is_file(&self, path: &str) -> bool {
        self.files.iter().any(|(p, _)| p == path)
    }
}

/// Drives a whole search over the in-memory tree, the way the editor
/// drives it over the real file system.
fn run_search(query: &str, root: &str, tree: &mut TestTree) -> Vec<SearchResult> {
    let mut walk = SearchWalk::new(query, root.to_string());
    while let Some(path) = walk.next_path() {
        if tree.is_dir(&path) {
            if let Some(entries) = tree.listing(&path) {
                walk.on_directory(entries);
            }
        } else if tree.is_file(&path) {
            if let Some(content) = tree.content(&path) {
                walk.on_file(&path, &content);
            }
        }
    }
    walk.into_results()
}

#[test]
fn three_matches_across_two_files() {
    let mut tree = TestTree::new()
        .with_dir("/root", &["/root/one.txt", "/root/two.txt"])
        .with_file("/root/one.txt", "foo at top\nnothing here\n  foo indented")
        .with_file("/root/two.txt", "bar\nalso foo here\n");
    let results = run_search("foo", "/root", &mut tree);
    assert_eq!(results.len(), 3);
    assert_eq!(results[0].path, "/root/two.txt");
    assert_eq!(results[0].line, 2);
    assert_eq!(results[0].line_content, "also foo here");
    assert_eq!(results[1].path, "/root/one.txt");
    assert_eq!(results[1].line, 1);
    assert_eq!(results[1].line_content, "foo at top");
    assert_eq!(results[2].path, "/root/one.txt");
    assert_eq!(results[2].line, 3);
    assert_eq!(results[2].line_content, "foo indented");
}

#[test]
fn empty_query_returns_nothing_with_zero_io() {
    let mut tree = TestTree::new()
        .with_dir("/root", &["/root/a.txt"])
        .with_file("/root/a.txt", "foo\nfoo\n");
    let mut walk = SearchWalk::new("", "/root".to_string());
    assert!(walk.finished());
    assert!(walk.next_path().is_none());
    assert!(walk.next_path().is_none());
    let results = walk.into_results();
    assert!(results.is_empty());
    assert_eq!(tree.io_calls, 0);
    let _ = tree.listing("/root");
    assert_eq!(tree.io_calls, 1);
}

#[test]
fn sixty_matching_lines_cap_at_fifty_one() {
    let mut content = String::new();
    for i in 1..=60 {
        content.push_str(&format!("foo number {}\n", i));
    }
    let mut tree = TestTree::new().with_file("/big.txt", &content);
    let results = run_search("foo", "/big.txt", &mut tree);
    assert_eq!(results.len(), 51);
    for (i, r) in results.iter().enumerate() {
        assert_eq!(r.line, i + 1);
        assert_eq!(r.line_content, format!("foo number {}", i + 1));
    }
}

#[test]
fn cap_stops_the_walk_for_good() {
    let mut tree = TestTree::new()
        .with_dir("/root", &["/root/second.txt", "/root/first.txt"])
        .with_file("/root/first.txt", &"foo\n".repeat(60))
        .with_file("/root/second.txt", "foo\n");
    let mut walk = SearchWalk::new("foo", "/root".to_string());
    while let Some(path) = walk.next_path() {
        if tree.is_dir(&path) {
            if let Some(entries) = tree.listing(&path) {
                walk.on_directory(entries);
            }
        } else if let Some(content) = tree.content(&path) {
            walk.on_file(&path, &content);
        }
    }
    // first.txt is popped first, fills the cap mid-file, and second.txt
    // is never read: the walk hands out no further path.
    let io_after_cap = tree.io_calls;
    assert_eq!(io_after_cap, 2);
    let results = walk.into_results();
    assert_eq!(results.len(), 51);
    assert!(results.iter().all(|r| r.path == "/root/first.txt"));
}

#[test]
fn exactly_fifty_matches_fit_without_truncation() {
    let mut tree = TestTree::new().with_file("/f.txt", &"foo\n".repeat(50));
    let results = run_search("foo", "/f.txt", &mut tree);
    assert_eq!(results.len(), 50);
}

#[test]
fn crlf_line_endings_are_stripped() {
    let mut tree = TestTree::new().with_file("/w.txt", "foo\r\nbar\r\nfoo again\r\n");
    let results = run_search("foo", "/w.txt", &mut tree);
    assert_eq!(results.len(), 2);
    assert_eq!(results[0].line, 1);
    assert_eq!(results[0].line_content, "foo");
    assert_eq!(results[1].line, 3);
    assert_eq!(results[1].line_content, "foo again");
}

#[test]
fn matched_lines_are_trimmed() {
    let mut tree = TestTree::new().with_file("/t.txt", "\t  foo bar  \t\nno match\n   foo   ");
    let results = run_search("foo", "/t.txt", &mut tree);
    assert_eq!(results.len(), 2);
    assert_eq!(results[0].line_content, "foo bar");
    assert_eq!(results[1].line_content, "foo");
    assert_eq!(results[1].line, 3);
}

#[test]
fn query_matches_in_the_middle_of_a_word() {
    let mut tree = TestTree::new().with_file("/m.txt", "scaffooding\nnothing\n");
    let results = run_search("foo", "/m.txt", &mut tree);
    assert_eq!(results.len(), 1);
    assert_eq!(results[0].line, 1);
}

#[test]
fn unreadable_entries_are_skipped() {
    let mut tree = TestTree::new()
        .with_dir("/root", &["/root/ghost", "/root/real.txt"])
        .with_file("/root/real.txt", "foo\n");
    let results = run_search("foo", "/root", &mut tree);
    assert_eq!(results.len(), 1);
    assert_eq!(results[0].path, "/root/real.txt");
}

#[test]
fn nested_directories_are_walked() {
    let mut tree = TestTree::new()
        .with_dir("/root", &["/root/sub"])
        .with_dir("/root/sub", &["/root/sub/deep.txt"])
        .with_file("/root/sub/deep.txt", "deep foo\n");
    let results = run_search("foo", "/root", &mut tree);
    assert_eq!(results.len(), 1);
    assert_eq!(results[0].path, "/root/sub/deep.txt");
    assert_eq!(results[0].line_content, "deep foo");
}

#[test]
fn no_match_means_no_results() {
    let mut tree = TestTree::new().with_file("/n.txt", "alpha\nbeta\n");
    let results = run_search("foo", "/n.txt", &mut tree);
    assert!(results.is_empty());
}
