use fingerprints::traversal::walk_recorded;
use fingerprints::walker::{Entry, Listing, Walker};

fn file(path: &str) -> Entry {
    let name = path.rsplit('/').next().unwrap().to_string();
    Entry { path: path.to_string(), name, is_dir: false }
}

fn dir(path: &str) -> Entry {
    let name = path.rsplit('/').next().unwrap().to_string();
    Entry { path: path.to_string(), name, is_dir: true }
}

fn list(tree: &[(&str, Vec<&str>, Vec<&str>)], dir_path: &str) -> Listing {
    for (path, files, dirs) in tree {
        if *path == dir_path {
            let mut entries: Vec<Entry> = Vec::new();
            for d in dirs {
                entries.push(dir(&format!("{}/{}", path, d)));
            }
            for f in files {
                entries.push(file(&format!("{}/{}", path, f)));
            }
            return Listing::Entries(entries);
        }
    }
    Listing::Unreadable
}

fn run(tree: &[(&str, Vec<&str>, Vec<&str>)], root: &str) -> (Vec<String>, Vec<String>) {
    let mut walker = Walker::new(root.to_string());
    let mut found: Vec<String> = Vec::new();
    let mut listed: Vec<String> = Vec::new();
    while let Some(next) = walker.next_directory() {
        let listing = list(tree, &next);
        listed.push(next);
        found.extend(walker.visit(&listing));
    }
    assert!(walker.is_done());
    (found, listed)
}

#[test]
fn files_come_before_directories_and_keep_listing_order() {
    let mut walker = Walker::new("r".to_string());
    assert_eq!(walker.next_directory(), Some("r".to_string()));
    let listing = Listing::Entries(vec![
        dir("r/d1"),
        file("r/f1"),
        dir("r/d2"),
        file("r/f2"),
        dir("r/d3"),
    ]);
    assert_eq!(walker.visit(&listing), vec!["r/f1".to_string(), "r/f2".to_string()]);
    assert_eq!(walker.next_directory(), Some("r/d1".to_string()));
    assert_eq!(walker.next_directory(), Some("r/d2".to_string()));
    assert_eq!(walker.next_directory(), Some("r/d3".to_string()));
    assert_eq!(walker.next_directory(), None);
}

#[test]
fn marked_directory_is_never_listed() {
    let mut walker = Walker::new("r".to_string());
    walker.next_directory();
    let listing = Listing::Entries(vec![dir("r/.ignore"), dir("r/keep"), file("r/a")]);
    assert_eq!(walker.visit(&listing), vec!["r/a".to_string()]);
    assert_eq!(walker.next_directory(), Some("r/keep".to_string()));
    assert!(walker.is_done());
}

#[test]
fn a_file_named_as_the_marker_is_hashed() {
    let mut walker = Walker::new("r".to_string());
    walker.next_directory();
    let listing = Listing::Entries(vec![file("r/.ignore")]);
    assert_eq!(walker.visit(&listing), vec!["r/.ignore".to_string()]);
    assert!(walker.is_done());
}

#[test]
fn marker_is_a_literal_name_not_a_pattern() {
    let mut walker = Walker::new("r".to_string());
    walker.next_directory();
    let listing = Listing::Entries(vec![dir("r/.ignored"), dir("r/x.ignore"), dir("r/.IGNORE")]);
    assert!(walker.visit(&listing).is_empty());
    assert_eq!(walker.next_directory(), Some("r/.ignored".to_string()));
    assert_eq!(walker.next_directory(), Some("r/x.ignore".to_string()));
    assert_eq!(walker.next_directory(), Some("r/.IGNORE".to_string()));
    assert_eq!(walker.next_directory(), None);
}

#[test]
fn another_marker_can_be_set() {
    let mut walker = Walker::with_marker("r".to_string(), "skip".to_string());
    walker.next_directory();
    let listing = Listing::Entries(vec![dir("r/skip"), dir("r/.ignore")]);
    assert!(walker.visit(&listing).is_empty());
    assert_eq!(walker.next_directory(), Some("r/.ignore".to_string()));
    assert_eq!(walker.next_directory(), None);
}

#[test]
fn scenario_with_one_marked_subtree() {
    let tree = vec![
        (".", vec!["a.txt"], vec!["sub", "sub2"]),
        ("./sub", vec![], vec![".ignore"]),
        ("./sub/.ignore", vec!["b.txt"], vec![]),
        ("./sub2", vec!["c.txt"], vec![]),
    ];
    let (found, listed) = run(&tree, ".");
    assert_eq!(found, vec!["./a.txt".to_string(), "./sub2/c.txt".to_string()]);
    assert_eq!(listed, vec![".".to_string(), "./sub".to_string(), "./sub2".to_string()]);
    assert!(found.iter().all(|p| !p.contains("b.txt")));
}

#[test]
fn empty_root_yields_nothing_and_finishes() {
    let tree = vec![(".", vec![], vec![])];
    let (found, listed) = run(&tree, ".");
    assert!(found.is_empty());
    assert_eq!(listed, vec![".".to_string()]);
}

#[test]
fn every_file_of_a_tree_is_found_once() {
    let tree = vec![
        ("r", vec!["f0", "f1"], vec!["a", "b", "c"]),
        ("r/a", vec!["f2"], vec!["aa", "ab"]),
        ("r/a/aa", vec!["f3", "f4", "f5"], vec![]),
        ("r/a/ab", vec![], vec!["deep"]),
        ("r/a/ab/deep", vec!["f6"], vec![]),
        ("r/b", vec![], vec![]),
        ("r/c", vec!["f7", "f8"], vec![]),
    ];
    let (mut found, listed) = run(&tree, "r");
    assert_eq!(found.len(), 9);
    assert_eq!(listed.len(), 7);
    assert_eq!(
        found,
        vec![
            "r/f0", "r/f1", "r/a/f2", "r/a/aa/f3", "r/a/aa/f4", "r/a/aa/f5", "r/a/ab/deep/f6",
            "r/c/f7", "r/c/f8"
        ]
    );
    found.sort();
    found.dedup();
    assert_eq!(found.len(), 9);
}

#[test]
fn marked_subtree_is_as_if_absent() {
    let with = vec![
        ("r", vec!["f0"], vec!["a", ".ignore"]),
        ("r/a", vec!["f1"], vec![".ignore", "b"]),
        ("r/a/.ignore", vec!["hidden"], vec!["more"]),
        ("r/a/.ignore/more", vec!["hidden2"], vec![]),
        ("r/a/b", vec!["f2"], vec![]),
        ("r/.ignore", vec!["hidden3"], vec![]),
    ];
    let without = vec![
        ("r", vec!["f0"], vec!["a"]),
        ("r/a", vec!["f1"], vec!["b"]),
        ("r/a/b", vec!["f2"], vec![]),
    ];
    assert_eq!(run(&with, "r"), run(&without, "r"));
    assert_eq!(run(&with, "r").0.len(), 3);
}

#[test]
fn unreadable_directory_loses_only_its_subtree() {
    let tree = vec![
        ("r", vec!["f0"], vec!["a", "locked", "z"]),
        ("r/a", vec!["f1"], vec![]),
        ("r/z", vec!["f2"], vec![]),
    ];
    let (found, listed) = run(&tree, "r");
    assert_eq!(found, vec!["r/f0", "r/a/f1", "r/z/f2"]);
    assert_eq!(listed, vec!["r", "r/a", "r/locked", "r/z"]);
}

#[test]
fn unreadable_root_yields_nothing() {
    let mut walker = Walker::new("gone".to_string());
    assert_eq!(walker.next_directory(), Some("gone".to_string()));
    assert!(walker.visit(&Listing::Unreadable).is_empty());
    assert!(walker.is_done());
    assert_eq!(walker.next_directory(), None);
}

#[test]
fn recorded_run_of_the_scenario() {
    let listings = vec![
        Listing::Entries(vec![file("./a.txt"), dir("./sub"), dir("./sub2")]),
        Listing::Entries(vec![dir("./sub/.ignore")]),
        Listing::Entries(vec![file("./sub2/c.txt")]),
    ];
    let found = walk_recorded(".".to_string(), ".ignore".to_string(), &listings);
    assert_eq!(found, vec!["./a.txt".to_string(), "./sub2/c.txt".to_string()]);
}

#[test]
fn recorded_run_stops_using_listings_once_nothing_is_pending() {
    let listings = vec![
        Listing::Entries(vec![file("r/a")]),
        Listing::Entries(vec![file("r/never")]),
    ];
    let found = walk_recorded("r".to_string(), ".ignore".to_string(), &listings);
    assert_eq!(found, vec!["r/a".to_string()]);
    assert!(walk_recorded("r".to_string(), ".ignore".to_string(), &Vec::new()).is_empty());
}

#[test]
fn recorded_run_skips_an_unreadable_directory() {
    let listings = vec![
        Listing::Entries(vec![dir("r/locked"), dir("r/open"), file("r/f")]),
        Listing::Unreadable,
        Listing::Entries(vec![file("r/open/g")]),
    ];
    let found = walk_recorded("r".to_string(), ".ignore".to_string(), &listings);
    assert_eq!(found, vec!["r/f".to_string(), "r/open/g".to_string()]);
}
