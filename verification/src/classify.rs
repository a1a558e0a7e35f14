//! The identifier classifier: parses one resolved-dependency identifier
//! string into its provenance class — registry package, local path, or
//! remote version-controlled source.

use vstd::prelude::*;
use vstd::string::StrSliceExecFns;
use vstd::string::StringExecFns;

use crate::text::between_sub;
use crate::text::between_sub_str;
use crate::text::find_char2;
use crate::text::find_char2_str;
use crate::text::find_sub;
use crate::text::find_sub_str;
use crate::text::lemma_find_char2;
use crate::text::lemma_split_ws_leading_token;
use crate::text::lemma_ws_free_cons;
use crate::text::lemma_split_ws_leading_ws;
use crate::text::lemma_ws_free_indices;
use crate::text::remove_char;
use crate::text::remove_char_str;
use crate::text::split_ws;
use crate::text::split_ws_str;
use crate::text::ws_free;

verus! {

/// Mathematical image of a classification result.
pub enum ClassView {
    Registry { name: Seq<char>, version: Seq<char> },
    LocalPath { path: Seq<char> },
    RemoteVcs { url: Seq<char>, revision: Seq<char> },
    Unrecognized,
}

/// The provenance of one resolved dependency, as read from its identifier.
#[derive(Debug, PartialEq, Eq)]
pub enum Classification {
    /// A published package, identified by name and version.
    Registry { name: String, version: String },
    /// A workspace-local dependency, identified by a bare filesystem path.
    LocalPath { path: String },
    /// A version-controlled repository pinned to one revision.
    RemoteVcs { url: String, revision: String },
    /// None of the known shapes: the entry is skipped, not an error.
    Unrecognized,
}

impl View for Classification {
    type V = ClassView;

    open spec fn view(&self) -> ClassView {
        match self {
            Classification::Registry { name, version } => ClassView::Registry {
                name: name@,
                version: version@,
            },
            Classification::LocalPath { path } => ClassView::LocalPath { path: path@ },
            Classification::RemoteVcs { url, revision } => ClassView::RemoteVcs {
                url: url@,
                revision: revision@,
            },
            Classification::Unrecognized => ClassView::Unrecognized,
        }
    }
}

/// The source descriptor that marks a registry dependency, matched exactly.
pub open spec fn registry_marker() -> Seq<char> {
    "(registry+https://github.com/rust-lang/crates.io-index)"@
}

/// The marker that a source descriptor of a local-path dependency contains.
pub open spec fn path_marker() -> Seq<char> {
    "(path+"@
}

/// The marker that a source descriptor of a remote VCS dependency contains.
pub open spec fn git_marker() -> Seq<char> {
    "(git+"@
}

/// The repository text of a source descriptor: the part between the first
/// and second `+`, with every `)` removed.
pub open spec fn spec_repository_of(src: Seq<char>) -> Seq<char> {
    remove_char(between_sub(src, "+"@), ')')
}

/// Splits repository text into URL and pinned revision at its `?` and `#`
/// delimiters. The revision is the third split segment when a query
/// component is also present (two or more delimiters), and otherwise the
/// single trailing segment; with no delimiter at all there is no revision.
pub open spec fn spec_split_url_revision(rep: Seq<char>) -> Option<(Seq<char>, Seq<char>)> {
    match find_char2(rep, '?', '#') {
        None => None,
        Some(i) => {
            let url = rep.take(i);
            let rest1 = rep.skip(i + 1);
            let rev = match find_char2(rest1, '?', '#') {
                None => rest1,
                Some(j) => {
                    let rest2 = rest1.skip(j + 1);
                    match find_char2(rest2, '?', '#') {
                        None => rest2,
                        Some(k) => rest2.take(k),
                    }
                },
            };
            Some((url, rev))
        },
    }
}

/// What the classifier returns for one identifier: the third
/// whitespace-separated component carries the provenance tag; identifiers
/// of any other shape are unrecognized, never an error. A remote VCS entry
/// whose revision would be empty is unrecognized as well: a pinned
/// dependency needs a revision.
pub open spec fn spec_classify(id: Seq<char>) -> ClassView {
    let parts = split_ws(id);
    if parts.len() < 3 {
        ClassView::Unrecognized
    } else if parts[2] == registry_marker() {
        ClassView::Registry { name: parts[0], version: parts[1] }
    } else if find_sub(parts[2], path_marker()) is Some {
        let rep = spec_repository_of(parts[2]);
        if find_sub(rep, "file://"@) is Some {
            ClassView::LocalPath { path: between_sub(rep, "file://"@) }
        } else {
            ClassView::Unrecognized
        }
    } else if find_sub(parts[2], git_marker()) is Some {
        let rep = spec_repository_of(parts[2]);
        match spec_split_url_revision(rep) {
            None => ClassView::Unrecognized,
            Some((url, rev)) => if rev.len() == 0 {
                ClassView::Unrecognized
            } else {
                ClassView::RemoteVcs { url, revision: rev }
            },
        }
    } else {
        ClassView::Unrecognized
    }
}

/// Classifies one resolved-dependency identifier. Pure: a function of the
/// identifier text alone, and total — unrecognized shapes are skipped.
pub fn classify(id: &str) -> (r: Classification)
    ensures
        r@ == spec_classify(id@),
{
    let parts = split_ws_str(id);
    proof {
        assert(parts.deep_view().len() == parts@.len());
    }
    if parts.len() < 3 {
        return Classification::Unrecognized;
    }
    let src: String = parts[2].clone();
    proof {
        assert(parts.deep_view()[0] == parts@[0]@);
        assert(parts.deep_view()[1] == parts@[1]@);
        assert(parts.deep_view()[2] == parts@[2]@);
    }
    proof {
        reveal_strlit("+");
        reveal_strlit("(path+");
        reveal_strlit("(git+");
        reveal_strlit("file://");
    }
    let marker = String::from_str("(registry+https://github.com/rust-lang/crates.io-index)");
    if src == marker {
        return Classification::Registry { name: parts[0].clone(), version: parts[1].clone() };
    }
    if find_sub_str(src.as_str(), "(path+").is_some() {
        let seg = between_sub_str(src.as_str(), "+");
        let rep = remove_char_str(seg.as_str(), ')');
        if find_sub_str(rep.as_str(), "file://").is_some() {
            let path = between_sub_str(rep.as_str(), "file://");
            return Classification::LocalPath { path };
        } else {
            return Classification::Unrecognized;
        }
    }
    if find_sub_str(src.as_str(), "(git+").is_some() {
        let seg = between_sub_str(src.as_str(), "+");
        let rep = remove_char_str(seg.as_str(), ')');
        match find_char2_str(rep.as_str(), '?', '#') {
            None => Classification::Unrecognized,
            Some(i) => {
                proof {
                    lemma_find_char2(rep@, '?', '#');
                }
                let n = rep.as_str().unicode_len();
                let url = String::from_str(rep.as_str().substring_char(0, i));
                let rest1 = rep.as_str().substring_char(i + 1, n);
                let rev: String = match find_char2_str(rest1, '?', '#') {
                    None => String::from_str(rest1),
                    Some(j) => {
                        proof {
                            lemma_find_char2(rest1@, '?', '#');
                        }
                        let n1 = rest1.unicode_len();
                        let rest2 = rest1.substring_char(j + 1, n1);
                        match find_char2_str(rest2, '?', '#') {
                            None => String::from_str(rest2),
                            Some(k) => {
                                proof {
                                    lemma_find_char2(rest2@, '?', '#');
                                }
                                String::from_str(rest2.substring_char(0, k))
                            },
                        }
                    },
                };
                if rev.unicode_len() == 0 {
                    return Classification::Unrecognized;
                }
                Classification::RemoteVcs { url, revision: rev }
            },
        }
    } else {
        Classification::Unrecognized
    }
}

/// Law: classification round-trip for registry identifiers. Any identifier
/// built from a name, a version and the registry marker, separated by
/// single spaces, classifies as a registry coordinate carrying exactly that
/// name and version, and the coordinate the adapter derives from it renders
/// as `crate://crates.io/<name>/<version>` exactly.
pub proof fn lemma_registry_round_trip(name: Seq<char>, version: Seq<char>)
    requires
        name.len() > 0,
        version.len() > 0,
        ws_free(name),
        ws_free(version),
    ensures
        spec_classify(name + " "@ + version + " "@ + registry_marker()) == (ClassView::Registry {
            name,
            version,
        }),
        spec_registry_coordinate(name, version) == "crate://crates.io/"@ + name + "/"@ + version,
{
    reveal_strlit(" ");
    reveal_strlit("(registry+https://github.com/rust-lang/crates.io-index)");
    let sp = " "@;
    assert(sp.len() == 1 && sp[0] == ' ');
    let m = registry_marker();
    assert(m.len() > 0);
    assert(m.len() == 55);
    // The marker holds no whitespace, established one character at a time
    // from the revealed literal, last position first.
    assert(ws_free(m.skip(55)));
    lemma_ws_free_cons(m, 54);
    lemma_ws_free_cons(m, 53);
    lemma_ws_free_cons(m, 52);
    lemma_ws_free_cons(m, 51);
    lemma_ws_free_cons(m, 50);
    lemma_ws_free_cons(m, 49);
    lemma_ws_free_cons(m, 48);
    lemma_ws_free_cons(m, 47);
    lemma_ws_free_cons(m, 46);
    lemma_ws_free_cons(m, 45);
    lemma_ws_free_cons(m, 44);
    lemma_ws_free_cons(m, 43);
    lemma_ws_free_cons(m, 42);
    lemma_ws_free_cons(m, 41);
    lemma_ws_free_cons(m, 40);
    lemma_ws_free_cons(m, 39);
    lemma_ws_free_cons(m, 38);
    lemma_ws_free_cons(m, 37);
    lemma_ws_free_cons(m, 36);
    lemma_ws_free_cons(m, 35);
    lemma_ws_free_cons(m, 34);
    lemma_ws_free_cons(m, 33);
    lemma_ws_free_cons(m, 32);
    lemma_ws_free_cons(m, 31);
    lemma_ws_free_cons(m, 30);
    lemma_ws_free_cons(m, 29);
    lemma_ws_free_cons(m, 28);
    lemma_ws_free_cons(m, 27);
    lemma_ws_free_cons(m, 26);
    lemma_ws_free_cons(m, 25);
    lemma_ws_free_cons(m, 24);
    lemma_ws_free_cons(m, 23);
    lemma_ws_free_cons(m, 22);
    lemma_ws_free_cons(m, 21);
    lemma_ws_free_cons(m, 20);
    lemma_ws_free_cons(m, 19);
    lemma_ws_free_cons(m, 18);
    lemma_ws_free_cons(m, 17);
    lemma_ws_free_cons(m, 16);
    lemma_ws_free_cons(m, 15);
    lemma_ws_free_cons(m, 14);
    lemma_ws_free_cons(m, 13);
    lemma_ws_free_cons(m, 12);
    lemma_ws_free_cons(m, 11);
    lemma_ws_free_cons(m, 10);
    lemma_ws_free_cons(m, 9);
    lemma_ws_free_cons(m, 8);
    lemma_ws_free_cons(m, 7);
    lemma_ws_free_cons(m, 6);
    lemma_ws_free_cons(m, 5);
    lemma_ws_free_cons(m, 4);
    lemma_ws_free_cons(m, 3);
    lemma_ws_free_cons(m, 2);
    lemma_ws_free_cons(m, 1);
    lemma_ws_free_cons(m, 0);
    assert(m.skip(0) =~= m);
    assert(ws_free(m));
    lemma_ws_free_indices(name);
    lemma_ws_free_indices(version);
    lemma_ws_free_indices(m);
    let id = name + sp + version + sp + m;
    let rest1 = sp + version + sp + m;
    let rest2 = version + sp + m;
    let rest3 = sp + m;
    assert(id =~= name + rest1);
    assert(rest1[0] == ' ');
    lemma_split_ws_leading_token(name, rest1);
    lemma_split_ws_leading_ws(rest1);
    assert(rest1.drop_first() =~= rest2);
    assert(rest2 =~= version + rest3);
    assert(rest3[0] == ' ');
    lemma_split_ws_leading_token(version, rest3);
    lemma_split_ws_leading_ws(rest3);
    assert(rest3.drop_first() =~= m);
    assert(m + Seq::<char>::empty() =~= m);
    lemma_split_ws_leading_token(m, Seq::empty());
    assert(split_ws(Seq::<char>::empty()) == Seq::<Seq<char>>::empty());
    assert(seq![m] + Seq::<Seq<char>>::empty() =~= seq![m]);
    let parts = split_ws(id);
    assert(parts =~= seq![name] + (seq![version] + seq![m]));
    assert(parts.len() == 3);
    assert(parts[0] == name);
    assert(parts[1] == version);
    assert(parts[2] == m);
}

/// The canonical artifact coordinate of a registry package.
pub open spec fn spec_registry_coordinate(name: Seq<char>, version: Seq<char>) -> Seq<char> {
    "crate://crates.io/"@ + name + "/"@ + version
}

/// Formats a registry package's name and version into its canonical
/// artifact coordinate.
pub fn registry_coordinate(name: &str, version: &str) -> (r: String)
    ensures
        r@ == spec_registry_coordinate(name@, version@),
{
    let mut out = String::from_str("crate://crates.io/");
    out.append(name);
    out.append("/");
    out.append(version);
    proof {
        assert(out@ =~= spec_registry_coordinate(name@, version@));
    }
    out
}

} // verus!
