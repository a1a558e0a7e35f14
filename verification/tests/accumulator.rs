//! Tests of the accumulator: duplicate-free insertion in first-seen order,
//! the adapter over resolved node identifiers, and the fixed-point
//! expansion over a growing remote-source set.

use root_pkg_ws::accumulate::accumulate_nodes;
use root_pkg_ws::accumulate::Accumulator;

#[test]
fn same_pair_twice_collapses_to_one_entry() {
    let mut acc = Accumulator::new();
    let fresh = acc.insert_git(
        String::from("https://example.com/r.git"),
        String::from("deadbeef"),
    );
    assert!(fresh);
    let again = acc.insert_git(
        String::from("https://example.com/r.git"),
        String::from("deadbeef"),
    );
    assert!(!again);
    assert_eq!(acc.git_len(), 1);
    let g = acc.git_at(0);
    assert_eq!(g.url, String::from("https://example.com/r.git"));
    assert_eq!(g.commit, String::from("deadbeef"));
}

#[test]
fn same_url_distinct_revisions_stay_distinct() {
    let mut acc = Accumulator::new();
    assert!(acc.insert_git(String::from("https://example.com/r.git"), String::from("rev1")));
    assert!(acc.insert_git(String::from("https://example.com/r.git"), String::from("rev2")));
    assert_eq!(acc.git_len(), 2);
    assert_eq!(acc.git_at(0).commit, String::from("rev1"));
    assert_eq!(acc.git_at(1).commit, String::from("rev2"));
}

#[test]
fn crate_coordinates_keep_first_seen_order() {
    let mut acc = Accumulator::new();
    assert!(acc.insert_crate(String::from("crate://crates.io/b/2.0.0")));
    assert!(acc.insert_crate(String::from("crate://crates.io/a/1.0.0")));
    assert!(!acc.insert_crate(String::from("crate://crates.io/b/2.0.0")));
    assert_eq!(acc.crates_len(), 2);
    assert_eq!(acc.crate_at(0), String::from("crate://crates.io/b/2.0.0"));
    assert_eq!(acc.crate_at(1), String::from("crate://crates.io/a/1.0.0"));
}

#[test]
fn adapter_feeds_each_class_to_its_place() {
    let mut acc = Accumulator::new();
    let ids = vec![
        String::from("serde 1.0.219 (registry+https://github.com/rust-lang/crates.io-index)"),
        String::from("loc 0.1.0 (path+file:///home/user/loc)"),
        String::from("r 0.1.0 (git+https://example.com/r.git#deadbeef)"),
        String::from("odd 0.1.0 (sparse+https://example.com/index)"),
    ];
    let (paths, unrecognized) = accumulate_nodes(&mut acc, &ids);
    assert_eq!(acc.crates_len(), 1);
    assert_eq!(acc.crate_at(0), String::from("crate://crates.io/serde/1.0.219"));
    assert_eq!(acc.git_len(), 1);
    assert_eq!(acc.git_at(0).url, String::from("https://example.com/r.git"));
    assert_eq!(acc.git_at(0).commit, String::from("deadbeef"));
    assert_eq!(paths, vec![String::from("/home/user/loc")]);
    assert_eq!(unrecognized, vec![String::from("(sparse+https://example.com/index)")]);
}

#[test]
fn unrecognized_entry_populates_nothing_and_run_goes_on() {
    let mut acc = Accumulator::new();
    let ids = vec![String::from("odd 0.1.0 (mystery+wherever)")];
    let (paths, unrecognized) = accumulate_nodes(&mut acc, &ids);
    assert_eq!(acc.crates_len(), 0);
    assert_eq!(acc.git_len(), 0);
    assert!(paths.is_empty());
    assert_eq!(unrecognized, vec![String::from("(mystery+wherever)")]);
}

#[test]
fn short_identifier_reported_whole() {
    let mut acc = Accumulator::new();
    let ids = vec![String::from("odd")];
    let (paths, unrecognized) = accumulate_nodes(&mut acc, &ids);
    assert_eq!(acc.crates_len(), 0);
    assert_eq!(acc.git_len(), 0);
    assert!(paths.is_empty());
    assert_eq!(unrecognized, vec![String::from("odd")]);
}

#[test]
fn fixed_point_processes_exactly_two_remote_sources() {
    let mut acc = Accumulator::new();
    let root_ids = vec![String::from("a 0.1.0 (git+https://example.com/a.git#aaaa)")];
    let (_, _) = accumulate_nodes(&mut acc, &root_ids);
    assert_eq!(acc.git_len(), 1);

    // The nested manifest of each fetched remote source, as the resolution
    // service would report it: a.git introduces one new remote source, and
    // b.git introduces nothing new.
    let nested = |url: &str| -> Vec<String> {
        if url == "https://example.com/a.git" {
            vec![String::from("b 0.1.0 (git+https://example.com/b.git#bbbb)")]
        } else {
            vec![]
        }
    };

    let mut processed = 0;
    let mut i = 0;
    while i < acc.git_len() {
        let entry = acc.git_at(i);
        let ids = nested(&entry.url);
        let (_, _) = accumulate_nodes(&mut acc, &ids);
        processed += 1;
        i += 1;
    }
    assert_eq!(processed, 2);
    assert_eq!(acc.git_len(), 2);
    assert_eq!(acc.git_at(0).url, String::from("https://example.com/a.git"));
    assert_eq!(acc.git_at(1).url, String::from("https://example.com/b.git"));
}
