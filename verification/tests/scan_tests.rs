use paddown::scan::{
    accepts, build_level, lowercase_all, scan_directory, scan_with_limits, ScanError, ScanLimits,
    MAX_DEPTH, MAX_ENTRIES,
};
use paddown::snapshot::{is_hidden, FsNode, HiddenRule, NodeKind};
use paddown::tree::DirEntry;

fn node(name: &str, parent: &str, kind: NodeKind, entries: Vec<FsNode>) -> FsNode {
    FsNode {
        name: name.to_string(),
        path: format!("{}/{}", parent, name),
        kind,
        hidden_attribute: false,
        listed: true,
        entries,
    }
}

fn file(name: &str, parent: &str) -> FsNode {
    node(name, parent, NodeKind::File, Vec::new())
}

fn dir(name: &str, parent: &str, entries: Vec<FsNode>) -> FsNode {
    node(name, parent, NodeKind::Directory, entries)
}

fn root(entries: Vec<FsNode>) -> FsNode {
    FsNode {
        name: "root".to_string(),
        path: "/root".to_string(),
        kind: NodeKind::Directory,
        hidden_attribute: false,
        listed: true,
        entries,
    }
}

fn md() -> Vec<String> {
    vec!["md".to_string()]
}

fn names(level: &Vec<DirEntry>) -> Vec<String> {
    level.iter().map(|e| e.name.clone()).collect()
}

fn count_nodes(level: &Vec<DirEntry>) -> usize {
    level.iter().map(|e| 1 + count_nodes(&e.children)).sum()
}

fn has_empty_directory(level: &Vec<DirEntry>) -> bool {
    level.iter().any(|e| (e.is_directory && e.children.is_empty()) || has_empty_directory(&e.children))
}

fn in_display_order(level: &Vec<DirEntry>) -> bool {
    let mut seen_file = false;
    for pair in level.windows(2) {
        if pair[0].is_directory == pair[1].is_directory
            && pair[0].name.to_lowercase() > pair[1].name.to_lowercase()
        {
            return false;
        }
    }
    for e in level {
        if e.is_directory && seen_file {
            return false;
        }
        if !e.is_directory {
            seen_file = true;
        }
        if !in_display_order(&e.children) {
            return false;
        }
    }
    true
}

fn chain(depth: usize, parent: &str, leaf: &str) -> FsNode {
    let name = format!("d{}", depth);
    let here = format!("{}/{}", parent, name);
    if depth == 0 {
        dir(&name, parent, vec![file(leaf, &here)])
    } else {
        dir(&name, parent, vec![chain(depth - 1, &here, leaf)])
    }
}

#[test]
fn only_text_file_scans_to_nothing() {
    let tree = root(vec![file("notes.txt", "/root")]);
    let out = scan_directory(&tree, &md(), HiddenRule::DotPrefix).unwrap();
    assert!(out.is_empty());
}

#[test]
fn one_markdown_file_scans_to_one_node() {
    let tree = root(vec![file("notes.md", "/root")]);
    let out = scan_directory(&tree, &md(), HiddenRule::DotPrefix).unwrap();
    assert_eq!(out.len(), 1);
    assert_eq!(out[0].name, "notes.md");
    assert_eq!(out[0].path, "/root/notes.md");
    assert!(!out[0].is_directory);
    assert!(out[0].children.is_empty());
}

#[test]
fn files_below_the_depth_budget_are_left_out() {
    // d4/d3/d2/d1/d0/deep.md: the file lies at depth 5 below the root.
    let tree = root(vec![chain(4, "/root", "deep.md")]);
    let limits = ScanLimits { max_depth: 2, max_entries: MAX_ENTRIES };
    let out = scan_with_limits(&tree, &md(), HiddenRule::DotPrefix, limits).unwrap();
    assert!(out.is_empty());
}

#[test]
fn files_within_the_depth_budget_are_kept() {
    // d1/d0/deep.md: the directories are at depths 1 and 2.
    let tree = root(vec![chain(1, "/root", "deep.md")]);
    let limits = ScanLimits { max_depth: 2, max_entries: MAX_ENTRIES };
    let out = scan_with_limits(&tree, &md(), HiddenRule::DotPrefix, limits).unwrap();
    assert_eq!(count_nodes(&out), 3);
    assert_eq!(out[0].name, "d1");
    assert_eq!(out[0].children[0].name, "d0");
    assert_eq!(out[0].children[0].children[0].name, "deep.md");
    let tighter = ScanLimits { max_depth: 1, max_entries: MAX_ENTRIES };
    let none = scan_with_limits(&tree, &md(), HiddenRule::DotPrefix, tighter).unwrap();
    assert!(none.is_empty());
}

#[test]
fn depth_zero_shows_only_the_files_of_the_root() {
    let tree = root(vec![file("top.md", "/root"), chain(0, "/root", "below.md")]);
    let limits = ScanLimits { max_depth: 0, max_entries: MAX_ENTRIES };
    let out = scan_with_limits(&tree, &md(), HiddenRule::DotPrefix, limits).unwrap();
    assert_eq!(names(&out), vec!["top.md"]);
}

#[test]
fn symlinked_directory_never_appears() {
    let mut link = dir("linked", "/root", vec![file("inside.md", "/root/linked")]);
    link.kind = NodeKind::Symlink;
    let mut file_link = file("alias.md", "/root");
    file_link.kind = NodeKind::Symlink;
    let tree = root(vec![link, file_link, file("real.md", "/root")]);
    let out = scan_directory(&tree, &md(), HiddenRule::DotPrefix).unwrap();
    assert_eq!(names(&out), vec!["real.md"]);
}

#[test]
fn other_and_unknown_kinds_are_passed_over() {
    let tree = root(vec![
        node("socket.md", "/root", NodeKind::Other, Vec::new()),
        node("gone.md", "/root", NodeKind::Unknown, Vec::new()),
    ]);
    let out = scan_directory(&tree, &md(), HiddenRule::DotPrefix).unwrap();
    assert!(out.is_empty());
}

#[test]
fn directories_without_kept_files_are_pruned() {
    let tree = root(vec![
        dir("empty", "/root", Vec::new()),
        dir("texts", "/root", vec![file("a.txt", "/root/texts")]),
        dir(
            "outer",
            "/root",
            vec![dir("inner", "/root/outer", vec![file("b.txt", "/root/outer/inner")])],
        ),
        dir("docs", "/root", vec![file("c.md", "/root/docs")]),
    ]);
    let out = scan_directory(&tree, &md(), HiddenRule::DotPrefix).unwrap();
    assert_eq!(names(&out), vec!["docs"]);
    assert!(out[0].is_directory);
    assert_eq!(names(&out[0].children), vec!["c.md"]);
    assert!(!has_empty_directory(&out));
}

#[test]
fn directories_come_first_and_names_ignore_case() {
    let tree = root(vec![
        file("zeta.md", "/root"),
        dir("Beta", "/root", vec![file("x.md", "/root/Beta")]),
        file("Alpha.md", "/root"),
        dir("alpha", "/root", vec![file("y.md", "/root/alpha"), file("B.md", "/root/alpha")]),
        file("beta.md", "/root"),
    ]);
    let out = scan_directory(&tree, &md(), HiddenRule::DotPrefix).unwrap();
    assert_eq!(names(&out), vec!["alpha", "Beta", "Alpha.md", "beta.md", "zeta.md"]);
    assert_eq!(names(&out[0].children), vec!["B.md", "y.md"]);
    assert!(in_display_order(&out));
}

#[test]
fn names_that_differ_only_in_case_keep_their_listing_order() {
    let tree = root(vec![file("b.md", "/root"), file("a.md", "/root"), file("A.md", "/root")]);
    let out = scan_directory(&tree, &md(), HiddenRule::DotPrefix).unwrap();
    assert_eq!(names(&out), vec!["a.md", "A.md", "b.md"]);
    let tree = root(vec![file("A.md", "/root"), file("b.md", "/root"), file("a.md", "/root")]);
    let out = scan_directory(&tree, &md(), HiddenRule::DotPrefix).unwrap();
    assert_eq!(names(&out), vec!["A.md", "a.md", "b.md"]);
}

#[test]
fn extensions_match_without_regard_to_case() {
    let tree = root(vec![file("One.MD", "/root"), file("two.Md", "/root"), file("three.txt", "/root")]);
    let out = scan_directory(&tree, &vec!["mD".to_string()], HiddenRule::DotPrefix).unwrap();
    assert_eq!(names(&out), vec!["One.MD", "two.Md"]);
}

#[test]
fn no_extensions_give_an_empty_result() {
    let tree = root(vec![file("a.md", "/root"), dir("d", "/root", vec![file("b.md", "/root/d")])]);
    let out = scan_directory(&tree, &Vec::new(), HiddenRule::DotPrefix).unwrap();
    assert!(out.is_empty());
}

#[test]
fn a_root_that_is_no_directory_is_refused() {
    let mut tree = root(vec![file("a.md", "/root")]);
    tree.kind = NodeKind::File;
    assert!(matches!(
        scan_directory(&tree, &md(), HiddenRule::DotPrefix),
        Err(ScanError::NotADirectory)
    ));
    tree.kind = NodeKind::Unknown;
    assert!(matches!(
        scan_directory(&tree, &md(), HiddenRule::DotPrefix),
        Err(ScanError::NotADirectory)
    ));
    tree.kind = NodeKind::Symlink;
    assert!(scan_directory(&tree, &md(), HiddenRule::DotPrefix).is_err());
}

#[test]
fn an_unreadable_directory_counts_as_empty() {
    let mut locked = dir("locked", "/root", vec![file("secret.md", "/root/locked")]);
    locked.listed = false;
    let tree = root(vec![locked, file("open.md", "/root")]);
    let out = scan_directory(&tree, &md(), HiddenRule::DotPrefix).unwrap();
    assert_eq!(names(&out), vec!["open.md"]);
    let mut unread_root = root(vec![file("a.md", "/root")]);
    unread_root.listed = false;
    let out = scan_directory(&unread_root, &md(), HiddenRule::DotPrefix).unwrap();
    assert!(out.is_empty());
}

#[test]
fn dot_prefixed_entries_are_hidden_under_the_dot_rule() {
    let tree = root(vec![
        file(".secret.md", "/root"),
        dir(".git", "/root", vec![file("readme.md", "/root/.git")]),
        file("shown.md", "/root"),
    ]);
    let out = scan_directory(&tree, &md(), HiddenRule::DotPrefix).unwrap();
    assert_eq!(names(&out), vec!["shown.md"]);
    let out = scan_directory(&tree, &md(), HiddenRule::AttributeBit).unwrap();
    assert_eq!(names(&out), vec![".git", ".secret.md", "shown.md"]);
}

#[test]
fn marked_entries_are_hidden_under_the_attribute_rule() {
    let mut marked = file("marked.md", "/root");
    marked.hidden_attribute = true;
    assert!(is_hidden(HiddenRule::AttributeBit, &marked));
    assert!(!is_hidden(HiddenRule::DotPrefix, &marked));
    let tree = root(vec![marked, file("plain.md", "/root")]);
    let out = scan_directory(&tree, &md(), HiddenRule::AttributeBit).unwrap();
    assert_eq!(names(&out), vec!["plain.md"]);
    let out = scan_directory(&tree, &md(), HiddenRule::DotPrefix).unwrap();
    assert_eq!(names(&out), vec!["marked.md", "plain.md"]);
}

#[test]
fn the_entry_budget_bounds_the_result() {
    let files: Vec<FsNode> = (0..10).map(|i| file(&format!("f{}.md", i), "/root")).collect();
    let tree = root(files);
    let limits = ScanLimits { max_depth: MAX_DEPTH, max_entries: 3 };
    let out = scan_with_limits(&tree, &md(), HiddenRule::DotPrefix, limits).unwrap();
    assert_eq!(names(&out), vec!["f0.md", "f1.md", "f2.md"]);
    let none = ScanLimits { max_depth: MAX_DEPTH, max_entries: 0 };
    assert!(scan_with_limits(&tree, &md(), HiddenRule::DotPrefix, none).unwrap().is_empty());
}

#[test]
fn the_budget_counts_directories_with_their_files() {
    // d1/d0/leaf.md takes three nodes.
    let tree = root(vec![chain(1, "/root", "leaf.md"), file("after.md", "/root")]);
    for budget in 0..6usize {
        let limits = ScanLimits { max_depth: MAX_DEPTH, max_entries: budget };
        let out = scan_with_limits(&tree, &md(), HiddenRule::DotPrefix, limits).unwrap();
        assert!(count_nodes(&out) <= budget);
        assert!(!has_empty_directory(&out));
        assert!(in_display_order(&out));
    }
    let two = ScanLimits { max_depth: MAX_DEPTH, max_entries: 2 };
    let out = scan_with_limits(&tree, &md(), HiddenRule::DotPrefix, two).unwrap();
    assert_eq!(names(&out), vec!["after.md"]);
    let three = ScanLimits { max_depth: MAX_DEPTH, max_entries: 3 };
    let out = scan_with_limits(&tree, &md(), HiddenRule::DotPrefix, three).unwrap();
    assert_eq!(names(&out), vec!["d1"]);
    assert_eq!(count_nodes(&out), 3);
    let four = ScanLimits { max_depth: MAX_DEPTH, max_entries: 4 };
    let out = scan_with_limits(&tree, &md(), HiddenRule::DotPrefix, four).unwrap();
    assert_eq!(names(&out), vec!["d1", "after.md"]);
}

#[test]
fn a_pruned_directory_gives_its_count_back() {
    let tree = root(vec![
        dir("texts", "/root", vec![file("a.txt", "/root/texts")]),
        file("one.md", "/root"),
    ]);
    let limits = ScanLimits { max_depth: MAX_DEPTH, max_entries: 1 };
    let accepted = lowercase_all(&md());
    let mut counter = 0usize;
    let out = build_level(&tree, &accepted, HiddenRule::DotPrefix, limits, 0, &mut counter);
    assert_eq!(names(&out), vec!["one.md"]);
    assert_eq!(counter, 1);
}

#[test]
fn build_level_counts_what_it_keeps() {
    let tree = root(vec![chain(1, "/root", "leaf.md"), file("after.md", "/root")]);
    let accepted = lowercase_all(&md());
    let mut counter = 5usize;
    let out = build_level(&tree, &accepted, HiddenRule::DotPrefix, ScanLimits::standard(), 0, &mut counter);
    assert_eq!(count_nodes(&out), 4);
    assert_eq!(counter, 9);
    let mut deep = 0usize;
    let below = build_level(&tree, &accepted, HiddenRule::DotPrefix, ScanLimits::standard(), 21, &mut deep);
    assert!(below.is_empty());
    assert_eq!(deep, 0);
}

#[test]
fn standard_limits_are_twenty_levels_and_ten_thousand_nodes() {
    let limits = ScanLimits::standard();
    assert_eq!(limits.max_depth, 20);
    assert_eq!(limits.max_entries, 10_000);
    assert_eq!(MAX_DEPTH, 20);
    assert_eq!(MAX_ENTRIES, 10_000);
}

#[test]
fn the_standard_depth_keeps_twenty_levels_of_directories() {
    // d19/.../d0/leaf.md: twenty directories, the deepest at depth 20.
    let tree = root(vec![chain(19, "/root", "leaf.md")]);
    let out = scan_directory(&tree, &md(), HiddenRule::DotPrefix).unwrap();
    assert_eq!(count_nodes(&out), 21);
    let deeper = root(vec![chain(20, "/root", "leaf.md")]);
    let out = scan_directory(&deeper, &md(), HiddenRule::DotPrefix).unwrap();
    assert!(out.is_empty());
}

#[test]
fn accepted_extensions_are_compared_in_lowercase() {
    let accepted = lowercase_all(&vec!["MD".to_string(), "Markdown".to_string()]);
    assert_eq!(accepted, vec!["md".to_string(), "markdown".to_string()]);
    assert!(accepts(&accepted, "README.MD"));
    assert!(accepts(&accepted, "notes.markdown"));
    assert!(!accepts(&accepted, "notes.txt"));
    assert!(!accepts(&accepted, "md"));
    assert!(!accepts(&accepted, ".md"));
}

#[test]
fn a_name_without_extension_matches_the_empty_extension() {
    let accepted = lowercase_all(&vec!["".to_string()]);
    assert!(accepts(&accepted, "Makefile"));
    assert!(accepts(&accepted, "trailing."));
    assert!(!accepts(&accepted, "notes.md"));
    assert!(!accepts(&Vec::new(), "Makefile"));
}
