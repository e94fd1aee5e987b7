use std::cmp::Ordering;

use git::repo_path::check_path_to_repo_path_errors;
use git::RepoPath;
use git::RepoPathDescendants;
use git::RepoPathError;

#[test]
fn empty_path_is_rejected() {
    let p = RepoPath::from_str("");
    assert_eq!(check_path_to_repo_path_errors(&p), Err(RepoPathError::Empty));
}

#[test]
fn rooted_path_is_rejected() {
    let p = RepoPath(String::from("/abs"));
    assert_eq!(check_path_to_repo_path_errors(&p), Err(RepoPathError::Rooted));
}

#[test]
fn drive_prefixed_path_is_rejected() {
    let p = RepoPath(String::from("c:/x"));
    assert_eq!(check_path_to_repo_path_errors(&p), Err(RepoPathError::Prefixed));
}

#[test]
fn dot_leading_path_is_rejected() {
    let p = RepoPath::from_str("./x");
    assert_eq!(
        check_path_to_repo_path_errors(&p),
        Err(RepoPathError::CurDirLeading)
    );
}

#[test]
fn dot_dot_leading_path_is_rejected() {
    let p = RepoPath::from_str("../x");
    assert_eq!(
        check_path_to_repo_path_errors(&p),
        Err(RepoPathError::ParentDirLeading)
    );
}

#[test]
fn plain_relative_path_is_accepted() {
    let p = RepoPath::from_str("a/b");
    assert_eq!(check_path_to_repo_path_errors(&p), Ok(()));
}

#[test]
fn paths_order_by_components() {
    let ab = RepoPath::from_str("a/b");
    let ac = RepoPath::from_str("a/c");
    assert_eq!(ab.cmp_path(&ac), Ordering::Less);
    assert_eq!(ac.cmp_path(&ab), Ordering::Greater);
    assert_eq!(ab.cmp_path(&RepoPath::from_str("a/b")), Ordering::Equal);
    // component order, not plain text order: "a/b" sorts before "a-b"
    let dash = RepoPath::from_str("a-b");
    assert_eq!(ab.cmp_path(&dash), Ordering::Less);
}

#[test]
fn descendants_follow_their_prefix() {
    let ab = RepoPath::from_str("a/b");
    let a = RepoPath::from_str("a");
    assert!(ab.starts_with(&a));
    assert!(!a.starts_with(&ab));
    assert!(!RepoPath::from_str("ab").starts_with(&a));
    // the empty path stands for the repository root
    assert!(ab.starts_with(&RepoPath::default()));
}

#[test]
fn seek_target_places_descendants_after_the_prefix() {
    let target = RepoPath::from_str("a");
    let seek = RepoPathDescendants(&target);
    assert_eq!(seek.cmp_cursor(&RepoPath::from_str("a/b")), Ordering::Greater);
    assert_eq!(seek.cmp_cursor(&RepoPath::from_str("a")), Ordering::Greater);
    assert_eq!(seek.cmp_cursor(&RepoPath::from_str("b")), Ordering::Less);
    assert_eq!(seek.cmp_cursor(&RepoPath::from_str("A")), Ordering::Greater);
}

#[test]
fn repo_path_construction_keeps_the_text() {
    let p = RepoPath::new(String::from("x/y.txt"));
    assert_eq!(p.as_str(), "x/y.txt");
    let q = RepoPath::from_str("x/y.txt");
    assert_eq!(p, q);
    assert_eq!(RepoPath::default().as_str(), "");
}
