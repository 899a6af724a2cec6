use buildxyz::attr::{is_dir, is_file_or_symlink, FileType};
use buildxyz::cache::{FileNode, FileTreeEntry, PathOrigin, StorePath};
use buildxyz::popcount::Popcount;
use buildxyz::ranking::{extract_optimal_path, is_homogeneous, key_of};

fn candidate_of(name: &str, node: FileNode<()>) -> (StorePath, FileTreeEntry) {
    let origin = PathOrigin {
        attr: name.to_string(),
        output: "out".to_string(),
        toplevel: true,
        system: None,
    };
    (
        StorePath::new("/nix/store".to_string(), "abc".to_string(), name.to_string(), origin),
        FileTreeEntry { path: "/bin/hello".to_string(), node },
    )
}

fn file(name: &str) -> (StorePath, FileTreeEntry) {
    candidate_of(name, FileNode::Regular { size: 1, executable: true })
}

fn names(candidates: &Vec<(StorePath, FileTreeEntry)>) -> Vec<String> {
    candidates.iter().map(|c| c.0.name.clone()).collect()
}

fn popcount_of(counts: &[(&str, u32)]) -> Popcount {
    let mut popcount = Popcount::new();
    for (name, count) in counts {
        popcount.native_build_inputs.insert(format!("/nix/store/abc-{}", name), *count);
    }
    popcount
}

#[test]
fn most_popular_candidate_comes_first() {
    let popcount = popcount_of(&[("a", 1), ("b", 9), ("c", 0)]);
    let mut candidates = vec![file("a"), file("b"), file("c")];
    let best = extract_optimal_path(&mut candidates, &popcount);
    assert_eq!(names(&candidates), vec!["b", "a", "c"]);
    assert_eq!(best.0.name, "b");
}

#[test]
fn candidates_of_equal_popularity_keep_their_order() {
    let popcount = popcount_of(&[("a", 3), ("b", 3), ("c", 5), ("d", 3)]);
    let mut candidates = vec![file("a"), file("b"), file("c"), file("d")];
    let best = extract_optimal_path(&mut candidates, &popcount);
    assert_eq!(names(&candidates), vec!["c", "a", "b", "d"]);
    assert_eq!(best.0.name, "c");
}

#[test]
fn unknown_packages_tie_at_zero() {
    let popcount = popcount_of(&[("b", 0)]);
    let mut candidates = vec![file("x"), file("b"), file("y")];
    let best = extract_optimal_path(&mut candidates, &popcount);
    assert_eq!(names(&candidates), vec!["x", "b", "y"]);
    assert_eq!(best.0.name, "x");
}

#[test]
fn ranking_twice_gives_the_same_order() {
    let popcount = popcount_of(&[("a", 1), ("b", 9), ("c", 0), ("d", 9)]);
    let mut first = vec![file("a"), file("b"), file("c"), file("d")];
    let mut second = vec![file("a"), file("b"), file("c"), file("d")];
    extract_optimal_path(&mut first, &popcount);
    extract_optimal_path(&mut second, &popcount);
    assert_eq!(names(&first), names(&second));
    assert_eq!(names(&first), vec!["b", "d", "a", "c"]);
}

#[test]
fn a_single_candidate_is_the_best() {
    let popcount = Popcount::new();
    let mut candidates = vec![file("only")];
    let best = extract_optimal_path(&mut candidates, &popcount);
    assert_eq!(best.0.name, "only");
    assert_eq!(candidates.len(), 1);
}

#[test]
fn the_key_is_the_popularity_negated() {
    let popcount = popcount_of(&[("a", 7), ("big", u32::MAX)]);
    assert_eq!(key_of(&popcount, &file("a")), -7);
    assert_eq!(key_of(&popcount, &file("unknown")), 0);
    assert_eq!(key_of(&popcount, &file("big")), -4294967295);
}

#[test]
fn popularity_counts_native_build_inputs_only() {
    let mut popcount = Popcount::new();
    popcount.build_inputs.insert("/nix/store/abc-a".to_string(), 5);
    popcount.propagated_build_inputs.insert("/nix/store/abc-a".to_string(), 6);
    popcount.propagated_native_build_inputs.insert("/nix/store/abc-a".to_string(), 7);
    assert_eq!(popcount.get_popularity("/nix/store/abc-a"), 0);
    popcount.native_build_inputs.insert("/nix/store/abc-a".to_string(), 8);
    assert_eq!(popcount.get_popularity("/nix/store/abc-a"), 8);
}

#[test]
fn files_and_links_are_of_one_sort() {
    let candidates = vec![
        file("a"),
        candidate_of("b", FileNode::Symlink { target: "x".to_string() }),
    ];
    assert!(is_homogeneous(&candidates));
}

#[test]
fn links_and_directories_are_not_of_one_sort() {
    let candidates = vec![
        candidate_of("a", FileNode::Directory { size: 0, contents: () }),
        candidate_of("b", FileNode::Symlink { target: "x".to_string() }),
    ];
    assert!(!is_homogeneous(&candidates));
    let candidates = vec![
        candidate_of("b", FileNode::Symlink { target: "x".to_string() }),
        candidate_of("a", FileNode::Directory { size: 0, contents: () }),
    ];
    assert!(!is_homogeneous(&candidates));
}

#[test]
fn directories_are_of_one_sort() {
    let candidates = vec![
        candidate_of("a", FileNode::Directory { size: 0, contents: () }),
        candidate_of("b", FileNode::Directory { size: 4, contents: () }),
    ];
    assert!(is_homogeneous(&candidates));
}

#[test]
fn files_and_directories_are_not_of_one_sort() {
    let candidates = vec![file("a"), candidate_of("b", FileNode::Directory { size: 0, contents: () })];
    assert!(!is_homogeneous(&candidates));
    assert!(is_homogeneous(&Vec::new()));
}

#[test]
fn node_sorts() {
    let regular: FileNode<()> = FileNode::Regular { size: 1, executable: false };
    let link: FileNode<()> = FileNode::Symlink { target: "t".to_string() };
    let directory: FileNode<()> = FileNode::Directory { size: 0, contents: () };
    assert!(is_file_or_symlink(&regular) && is_file_or_symlink(&link));
    assert!(!is_file_or_symlink(&directory));
    assert!(!is_dir(&regular) && !is_dir(&link));
    assert!(is_dir(&directory));
    assert_eq!(regular.into_attr().kind, FileType::Symlink);
    assert_eq!(link.into_attr().kind, FileType::Symlink);
    assert_eq!(directory.into_attr().kind, FileType::Directory);
    assert_eq!(directory.into_attr().ino, 1);
}
