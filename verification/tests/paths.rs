use docmerge::order::{comes_before, sort_paths_by_depth};
use docmerge::paths::{compare_paths, file_name_is, get_path_depth, Rank};
use std::path::Path;

fn samples() -> Vec<&'static str> {
    vec![
        "", ".", "..", "/", "//", "a", "a/", "a/b", "a//b", "a/./b", "./a", "./a/b", "../a", "a/..",
        "/a", "/a/b/", "/./a", "a/b/.", "intro.md", "chapters/ch1.md", "a-b/c", "a/c", "a.b/c",
        ".hidden/x", "...", "a/../b", "/..", "./", "./.", "é/ü", "a b/c d",
    ]
}

fn strings(paths: &[&str]) -> Vec<String> {
    paths.iter().map(|p| p.to_string()).collect()
}

#[test]
fn depth_counts_segments() {
    assert_eq!(get_path_depth("intro.md"), 1);
    assert_eq!(get_path_depth("chapters/ch1.md"), 2);
    assert_eq!(get_path_depth("a/b/c/d.md"), 4);
}

#[test]
fn depth_of_edge_cases() {
    assert_eq!(get_path_depth(""), 0);
    assert_eq!(get_path_depth("/"), 1);
    assert_eq!(get_path_depth("/a/b"), 3);
    assert_eq!(get_path_depth("./a"), 2);
    assert_eq!(get_path_depth("."), 1);
    assert_eq!(get_path_depth(".."), 1);
    assert_eq!(get_path_depth("a/./b"), 2);
    assert_eq!(get_path_depth("a//b"), 2);
    assert_eq!(get_path_depth("a/b/"), 2);
    assert_eq!(get_path_depth("a/.."), 2);
}

#[test]
fn depth_agrees_with_std_paths() {
    for p in samples() {
        assert_eq!(get_path_depth(p), Path::new(p).iter().count(), "depth of {:?}", p);
    }
}

#[test]
fn shallower_path_comes_first() {
    assert_eq!(compare_paths("z.md", "a/a.md"), Rank::Before);
    assert_eq!(compare_paths("a/a.md", "z.md"), Rank::After);
}

#[test]
fn equal_depth_goes_by_segments() {
    assert_eq!(compare_paths("a/x.md", "b/a.md"), Rank::Before);
    assert_eq!(compare_paths("a/b.md", "a/a.md"), Rank::After);
    assert_eq!(compare_paths("a/c", "a-b/c"), Rank::Before);
    assert_eq!(compare_paths("a/c", "a.b/c"), Rank::Before);
    assert_eq!(compare_paths("ab", "abc"), Rank::Before);
}

#[test]
fn a_path_ranks_same_as_itself_only() {
    assert_eq!(compare_paths("a/b", "a/b"), Rank::Same);
    assert_eq!(compare_paths("a//b", "a/b"), Rank::Before);
    assert_eq!(compare_paths("a/b", "a//b"), Rank::After);
}

#[test]
fn kinds_of_segment_rank_root_dot_dotdot_name() {
    assert_eq!(compare_paths("/", "."), Rank::Before);
    assert_eq!(compare_paths(".", ".."), Rank::Before);
    assert_eq!(compare_paths("..", "-x"), Rank::Before);
    assert_eq!(compare_paths("-x", ".."), Rank::After);
}

#[test]
fn ranking_agrees_with_std_paths() {
    let all = samples();
    for a in &all {
        for b in &all {
            let pa = Path::new(a);
            let pb = Path::new(b);
            let by_depth = pa.iter().count().cmp(&pb.iter().count()).then(pa.cmp(pb));
            let ours = compare_paths(a, b);
            match by_depth {
                std::cmp::Ordering::Less => assert_eq!(ours, Rank::Before, "{:?} {:?}", a, b),
                std::cmp::Ordering::Greater => assert_eq!(ours, Rank::After, "{:?} {:?}", a, b),
                std::cmp::Ordering::Equal => assert_eq!(ours, compare_bytes(a, b), "{:?} {:?}", a, b),
            }
        }
    }
}

fn compare_bytes(a: &str, b: &str) -> Rank {
    match a.as_bytes().cmp(b.as_bytes()) {
        std::cmp::Ordering::Less => Rank::Before,
        std::cmp::Ordering::Equal => Rank::Same,
        std::cmp::Ordering::Greater => Rank::After,
    }
}

#[test]
fn ranking_flips_with_its_arguments() {
    let all = samples();
    for a in &all {
        for b in &all {
            let there = compare_paths(a, b);
            let back = compare_paths(b, a);
            let flipped = match there {
                Rank::Before => Rank::After,
                Rank::Same => Rank::Same,
                Rank::After => Rank::Before,
            };
            assert_eq!(back, flipped);
            assert_eq!(there == Rank::Same, a == b);
            assert_eq!(comes_before(a, b), there == Rank::Before);
        }
    }
}

#[test]
fn sort_puts_shallow_first_then_by_path() {
    let mut paths = strings(&["chapters/ch2.md", "b.md", "chapters/ch1.md", "a.md", "x/y/z.md"]);
    sort_paths_by_depth(&mut paths);
    assert_eq!(paths, strings(&["a.md", "b.md", "chapters/ch1.md", "chapters/ch2.md", "x/y/z.md"]));
}

#[test]
fn sort_of_nothing_and_of_one() {
    let mut none: Vec<String> = Vec::new();
    sort_paths_by_depth(&mut none);
    assert!(none.is_empty());
    let mut one = strings(&["only.md"]);
    sort_paths_by_depth(&mut one);
    assert_eq!(one, strings(&["only.md"]));
}

#[test]
fn sort_keeps_every_path_and_orders_neighbours() {
    let mut paths = strings(&samples());
    paths.reverse();
    let mut expected_members = paths.clone();
    sort_paths_by_depth(&mut paths);
    let mut members = paths.clone();
    members.sort();
    expected_members.sort();
    assert_eq!(members, expected_members);
    for pair in paths.windows(2) {
        assert_ne!(compare_paths(&pair[0], &pair[1]), Rank::After);
        assert!(get_path_depth(&pair[0]) <= get_path_depth(&pair[1]));
    }
}

#[test]
fn sort_does_not_depend_on_input_order() {
    let mut forward = strings(&samples());
    let mut backward = forward.clone();
    backward.reverse();
    let mut rotated = forward.clone();
    rotated.rotate_left(7);
    sort_paths_by_depth(&mut forward);
    sort_paths_by_depth(&mut backward);
    sort_paths_by_depth(&mut rotated);
    assert_eq!(forward, backward);
    assert_eq!(forward, rotated);
}

#[test]
fn sort_keeps_duplicates() {
    let mut paths = strings(&["b", "a", "b", "a"]);
    sort_paths_by_depth(&mut paths);
    assert_eq!(paths, strings(&["a", "a", "b", "b"]));
}

#[test]
fn file_name_is_the_last_segment() {
    assert!(file_name_is("root/docs/x.md", "x.md"));
    assert!(file_name_is("x.md", "x.md"));
    assert!(file_name_is("root/x.md/", "x.md"));
    assert!(!file_name_is("root/x.md/y", "x.md"));
    assert!(!file_name_is("root/ax.md", "x.md"));
    assert!(!file_name_is("root/docs", "docs/x.md"));
    assert!(!file_name_is("root/..", ".."));
    assert!(!file_name_is("", ""));
    assert!(!file_name_is("/", ""));
}
