//! Tests of the recipe emitter: folder-name derivation and the exact,
//! insertion-ordered recipe text.

use root_pkg_ws::accumulate::accumulate_nodes;
use root_pkg_ws::accumulate::Accumulator;
use root_pkg_ws::emit::get_repo_folder_name;
use root_pkg_ws::emit::render_recipe;

#[test]
fn folder_name_strips_suffix() {
    let r = get_repo_folder_name(String::from("https://example.com/org/repo.git"));
    assert_eq!(r, String::from("repo"));
}

#[test]
fn folder_name_without_suffix_is_last_segment() {
    let r = get_repo_folder_name(String::from("https://example.com/org/repo"));
    assert_eq!(r, String::from("repo"));
}

#[test]
fn folder_name_of_bare_name() {
    assert_eq!(get_repo_folder_name(String::from("repo.git")), String::from("repo"));
}

#[test]
fn folder_name_cuts_at_first_suffix_occurrence() {
    let r = get_repo_folder_name(String::from("https://example.com/org/pages.github.io"));
    assert_eq!(r, String::from("pages"));
}

#[test]
fn registry_block_keeps_insertion_order_and_omits_extra_paths() {
    let mut acc = Accumulator::new();
    assert!(acc.insert_crate(String::from("crate://crates.io/a/1.0.0")));
    assert!(acc.insert_crate(String::from("crate://crates.io/b/2.0.0")));
    let text = render_recipe(&acc);
    let expected =
        "\nSRC_URI += \" \\\n    crate://crates.io/a/1.0.0 \\\n    crate://crates.io/b/2.0.0 \\\n\"\n\n";
    assert_eq!(text, String::from(expected));
}

#[test]
fn empty_accumulator_renders_empty_blocks() {
    let acc = Accumulator::new();
    let text = render_recipe(&acc);
    assert_eq!(text, String::from("\nSRC_URI += \" \\\n\"\n\n"));
}

#[test]
fn full_recipe_with_remote_source() {
    let mut acc = Accumulator::new();
    let ids = vec![
        String::from("serde 1.0.219 (registry+https://github.com/rust-lang/crates.io-index)"),
        String::from("mylib 0.1.0 (git+https://example.com/org/repo.git?branch=main#abc123)"),
    ];
    let (_, _) = accumulate_nodes(&mut acc, &ids);
    let text = render_recipe(&acc);
    let header = "\nSRC_URI += \" \\\n    crate://crates.io/serde/1.0.219 \\\n";
    let vcs_line =
        "    git://example.com/org/repo.git;lfs=0;nobranch=1;protocol=https;destsuffix=repo;name=repo \\\n\"\n\n";
    let srcrev = "SRCREV_FORMAT .= \"_repo\"\nSRCREV_repo = \"abc123\"\n";
    let extra = "\nEXTRA_OECARGO_PATHS += \"\\\n    ${WORKDIR}/repo \\\n\"\n";
    let expected = format!("{}{}{}{}", header, vcs_line, srcrev, extra);
    assert_eq!(text, expected);
}

#[test]
fn extra_path_block_lists_each_distinct_folder_once() {
    let mut acc = Accumulator::new();
    assert!(acc.insert_git(String::from("https://example.com/x/repo.git"), String::from("r1")));
    assert!(acc.insert_git(String::from("https://mirror.example.org/y/repo.git"), String::from("r2")));
    assert!(acc.insert_git(String::from("https://example.com/z/other.git"), String::from("r3")));
    let text = render_recipe(&acc);
    let extra = text.split("EXTRA_OECARGO_PATHS").nth(1).expect("extra block present");
    assert_eq!(extra.matches("${WORKDIR}/repo ").count(), 1);
    assert_eq!(extra.matches("${WORKDIR}/other ").count(), 1);
    // The revision-pin block still names every remote source.
    assert_eq!(text.matches("SRCREV_FORMAT").count(), 3);
}
