use add_note_and_deps::{exclude_unchanged, Closure, FileStatus, RoamFile};

fn file(p: &str) -> RoamFile {
    RoamFile::from_absolute(p.to_string()).unwrap()
}

/// Runs a walk to its end over `graph`, not expanding the files of `excluded`.
fn walk(graph: &[(&str, &[&str])], seeds: &[&str], excluded: &[&str]) -> Vec<String> {
    let seeds: Vec<RoamFile> = seeds.iter().map(|s| file(s)).collect();
    let mut closure = Closure::new(&seeds);
    let mut steps = 0;
    while let Some(current) = closure.pending() {
        steps += 1;
        assert!(steps <= 1000, "the walk does not end");
        if excluded.contains(&current.as_str()) {
            closure.skip();
            continue;
        }
        let targets: Vec<RoamFile> = graph
            .iter()
            .filter(|(source, _)| *source == current.as_str())
            .flat_map(|(_, targets)| targets.iter().map(|t| file(t)))
            .collect();
        closure.expand(&targets);
    }
    assert!(closure.is_done());
    closure.finish().iter().map(|f| f.display()).collect()
}

#[test]
fn two_node_cycle_is_walked_once() {
    let graph: &[(&str, &[&str])] = &[("/a", &["/b"]), ("/b", &["/a"])];
    assert_eq!(walk(graph, &["/a"], &[]), vec!["/a", "/b"]);
}

#[test]
fn self_reference_ends() {
    let graph: &[(&str, &[&str])] = &[("/a", &["/a"])];
    assert_eq!(walk(graph, &["/a"], &[]), vec!["/a"]);
}

#[test]
fn excluded_file_is_a_leaf() {
    let graph: &[(&str, &[&str])] = &[("/a", &["/b"]), ("/b", &["/c"])];
    assert_eq!(walk(graph, &["/a"], &["/b"]), vec!["/a", "/b"]);
    assert_eq!(walk(graph, &["/a"], &[]), vec!["/a", "/b", "/c"]);
}

#[test]
fn excluded_seed_is_still_found() {
    let graph: &[(&str, &[&str])] = &[("/a", &["/b"])];
    assert_eq!(walk(graph, &["/a"], &["/a"]), vec!["/a"]);
}

#[test]
fn seed_reached_again_is_not_repeated() {
    let graph: &[(&str, &[&str])] = &[("/a", &["/b"])];
    assert_eq!(walk(graph, &["/a", "/b"], &[]), vec!["/a", "/b"]);
}

#[test]
fn repeated_seeds_are_found_once() {
    let graph: &[(&str, &[&str])] = &[];
    assert_eq!(walk(graph, &["/b", "/a", "/b", "/a"], &[]), vec!["/b", "/a"]);
}

#[test]
fn no_seeds_find_nothing() {
    let graph: &[(&str, &[&str])] = &[("/a", &["/b"])];
    assert_eq!(walk(graph, &[], &[]), Vec::<String>::new());
}

#[test]
fn files_come_in_breadth_first_order() {
    let graph: &[(&str, &[&str])] = &[
        ("/a", &["/b", "/c"]),
        ("/b", &["/d"]),
        ("/c", &["/d", "/e", "/c"]),
        ("/d", &["/a", "/f"]),
    ];
    assert_eq!(walk(graph, &["/a"], &[]), vec!["/a", "/b", "/c", "/d", "/e", "/f"]);
}

#[test]
fn exclusion_finds_a_subset() {
    let graph: &[(&str, &[&str])] = &[
        ("/a", &["/b", "/c"]),
        ("/b", &["/d"]),
        ("/c", &["/e"]),
        ("/e", &["/b", "/f"]),
    ];
    let full = walk(graph, &["/a"], &[]);
    for excluded in [&["/b"][..], &["/c"], &["/a"], &["/b", "/e"], &["/x"]] {
        let pruned = walk(graph, &["/a"], excluded);
        assert!(pruned.iter().all(|f| full.contains(f)));
    }
    assert_eq!(walk(graph, &["/a"], &["/c"]), vec!["/a", "/b", "/c", "/d"]);
}

#[test]
fn walking_twice_gives_the_same_order() {
    let graph: &[(&str, &[&str])] = &[("/a", &["/c", "/b"]), ("/b", &["/a", "/d"]), ("/c", &["/d"])];
    let first = walk(graph, &["/a", "/d"], &["/c"]);
    let second = walk(graph, &["/a", "/d"], &["/c"]);
    assert_eq!(first, second);
    assert_eq!(first, vec!["/a", "/d", "/c", "/b"]);
}

#[test]
fn pending_names_each_file_once() {
    let seeds = vec![file("/a"), file("/b")];
    let mut closure = Closure::new(&seeds);
    assert_eq!(closure.pending().unwrap().as_str(), "/a");
    assert_eq!(closure.pending().unwrap().as_str(), "/a");
    closure.expand(&[file("/b"), file("/c")]);
    assert_eq!(closure.pending().unwrap().as_str(), "/b");
    closure.skip();
    assert_eq!(closure.pending().unwrap().as_str(), "/c");
    assert!(!closure.is_done());
    closure.expand(&[]);
    assert!(closure.pending().is_none());
    assert!(closure.is_done());
    let found: Vec<String> = closure.finish().iter().map(|f| f.display()).collect();
    assert_eq!(found, vec!["/a", "/b", "/c"]);
}

#[test]
fn events_after_the_end_change_nothing() {
    let seeds = vec![file("/a")];
    let mut closure = Closure::new(&seeds);
    closure.expand(&[]);
    assert!(closure.is_done());
    closure.expand(&[file("/z")]);
    closure.skip();
    assert!(closure.is_done());
    let found: Vec<String> = closure.finish().iter().map(|f| f.display()).collect();
    assert_eq!(found, vec!["/a"]);
}

#[test]
fn status_decides_modification() {
    assert!(FileStatus::Changed.is_modified());
    assert!(!FileStatus::Unmodified.is_modified());
    assert!(!FileStatus::Ignored.is_modified());
}

#[test]
fn walk_stops_only_at_known_unchanged_files() {
    assert!(exclude_unchanged(Some(FileStatus::Unmodified)));
    assert!(exclude_unchanged(Some(FileStatus::Ignored)));
    assert!(!exclude_unchanged(Some(FileStatus::Changed)));
    assert!(!exclude_unchanged(None));
}
