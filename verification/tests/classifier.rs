//! Tests of the identifier classifier: the three provenance classes, the
//! revision-extraction branching, and the permissive handling of
//! unrecognized shapes.

use root_pkg_ws::classify::classify;
use root_pkg_ws::classify::registry_coordinate;
use root_pkg_ws::classify::Classification;

#[test]
fn registry_identifier_round_trip() {
    let id = "serde 1.0.219 (registry+https://github.com/rust-lang/crates.io-index)";
    let c = classify(id);
    assert_eq!(
        c,
        Classification::Registry { name: String::from("serde"), version: String::from("1.0.219") }
    );
    assert_eq!(
        registry_coordinate("serde", "1.0.219"),
        String::from("crate://crates.io/serde/1.0.219")
    );
}

#[test]
fn registry_marker_must_match_exactly() {
    let id = "serde 1.0.219 (registry+https://example.com/other-index)";
    let c = classify(id);
    assert_eq!(c, Classification::Unrecognized);
}

#[test]
fn local_path_identifier() {
    let id = "mylib 0.1.0 (path+file:///home/user/project/mylib)";
    let c = classify(id);
    assert_eq!(c, Classification::LocalPath { path: String::from("/home/user/project/mylib") });
}

#[test]
fn local_path_without_scheme_is_unrecognized() {
    let id = "mylib 0.1.0 (path+/home/user/project/mylib)";
    let c = classify(id);
    assert_eq!(c, Classification::Unrecognized);
}

#[test]
fn revision_from_fragment_when_query_present() {
    let id = "r 0.1.0 (git+https://example.com/r.git?x=1#deadbeef)";
    let c = classify(id);
    assert_eq!(
        c,
        Classification::RemoteVcs {
            url: String::from("https://example.com/r.git"),
            revision: String::from("deadbeef"),
        }
    );
}

#[test]
fn revision_from_single_trailing_component() {
    let id = "r 0.1.0 (git+https://example.com/r.git#deadbeef)";
    let c = classify(id);
    assert_eq!(
        c,
        Classification::RemoteVcs {
            url: String::from("https://example.com/r.git"),
            revision: String::from("deadbeef"),
        }
    );
}

#[test]
fn vcs_identifier_without_revision_is_unrecognized() {
    let id = "r 0.1.0 (git+https://example.com/r.git)";
    assert_eq!(classify(id), Classification::Unrecognized);
}

#[test]
fn vcs_identifier_with_empty_revision_is_unrecognized() {
    let id = "r 0.1.0 (git+https://example.com/r.git#)";
    assert_eq!(classify(id), Classification::Unrecognized);
}

#[test]
fn vcs_url_with_extra_plus_sign_is_unrecognized() {
    // The repository text runs from the first `+` to the second one, so a
    // URL holding another `+` loses its revision fragment and the entry is
    // skipped rather than pinned to a wrong revision.
    let id = "r 0.1.0 (git+https://example.com/a+b.git#deadbeef)";
    assert_eq!(classify(id), Classification::Unrecognized);
}

#[test]
fn unknown_marker_is_unrecognized() {
    let id = "x 1.0.0 (sparse+https://example.com/index)";
    assert_eq!(classify(id), Classification::Unrecognized);
}

#[test]
fn short_identifier_is_unrecognized() {
    assert_eq!(classify("just-a-name"), Classification::Unrecognized);
    assert_eq!(classify(""), Classification::Unrecognized);
}
