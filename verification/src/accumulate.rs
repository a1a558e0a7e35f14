//! The accumulator: two order-preserving, duplicate-free collections
//! holding the registry coordinates and the remote (url, revision) pairs
//! discovered so far across the whole run, together with the adapter that
//! feeds one manifest's resolved nodes into them.

use vstd::prelude::*;

use indexmap::IndexSet;

use crate::classify::spec_classify;
use crate::classify::spec_registry_coordinate;
use crate::classify::classify;
use crate::classify::registry_coordinate;
use crate::classify::ClassView;
use crate::classify::Classification;
use crate::text::split_ws;
use crate::text::split_ws_str;

verus! {

/// Relies on indexmap's IndexSet being an insertion-ordered set type; the
/// declaration lets its values stand in fields and signatures, opaque but
/// for what the wrappers below state of them.
#[verifier::external_type_specification]
#[verifier::external_body]
#[verifier::reject_recursive_types(T)]
#[verifier::reject_recursive_types(S)]
pub struct ExIndexSet<T, S>(IndexSet<T, S>);

/// A version-controlled repository pinned to one exact revision. Equality
/// and hashing are over both fields jointly: the same URL under two
/// different revisions makes two distinct entries.
#[derive(Eq, Hash, PartialEq, Debug)]
pub struct GitRepo {
    pub url: String,
    pub commit: String,
}

impl View for GitRepo {
    type V = (Seq<char>, Seq<char>);

    open spec fn view(&self) -> (Seq<char>, Seq<char>) {
        (self.url@, self.commit@)
    }
}

/// The registry coordinates held by a coordinate set, in insertion order.
pub uninterp spec fn crate_set_seq(s: IndexSet<String>) -> Seq<Seq<char>>;

/// The (url, revision) pairs held by a remote-source set, in insertion order.
pub uninterp spec fn git_set_seq(s: IndexSet<GitRepo>) -> Seq<(Seq<char>, Seq<char>)>;

/// Order-preserving duplicate-free insertion: what one insertion does to
/// the contents of an accumulator set.
pub open spec fn insert_unique<A>(s: Seq<A>, x: A) -> Seq<A> {
    if s.contains(x) {
        s
    } else {
        s.push(x)
    }
}

/// Relies on indexmap's IndexSet::new: creates an empty set.
#[verifier::external_body]
fn crate_set_new() -> (r: IndexSet<String>)
    ensures
        crate_set_seq(r) == Seq::<Seq<char>>::empty(),
{
    IndexSet::new()
}

/// Relies on indexmap's IndexSet::insert: inserts a value that is not yet
/// present at the end of the insertion order and returns true; leaves the
/// set unchanged and returns false when an equal value is present. String
/// equality is equality of the character contents.
#[verifier::external_body]
fn crate_set_insert(s: &mut IndexSet<String>, x: String) -> (r: bool)
    ensures
        crate_set_seq(*final(s)) == insert_unique(crate_set_seq(*old(s)), x@),
        r == !crate_set_seq(*old(s)).contains(x@),
{
    s.insert(x)
}

/// Relies on indexmap's IndexSet::len: the number of elements held.
#[verifier::external_body]
fn crate_set_len(s: &IndexSet<String>) -> (r: usize)
    ensures
        r == crate_set_seq(*s).len(),
{
    s.len()
}

/// Relies on indexmap's IndexSet::get_index: the element at the given
/// position in insertion order, or None past the end.
#[verifier::external_body]
fn crate_set_get(s: &IndexSet<String>, i: usize) -> (r: Option<String>)
    ensures
        match r {
            Some(v) => i < crate_set_seq(*s).len() && v@ == crate_set_seq(*s)[i as int],
            None => i >= crate_set_seq(*s).len(),
        },
{
    match s.get_index(i) {
        Some(v) => Some(v.clone()),
        None => None,
    }
}

/// Relies on indexmap's IndexSet::new: creates an empty set.
#[verifier::external_body]
fn git_set_new() -> (r: IndexSet<GitRepo>)
    ensures
        git_set_seq(r) == Seq::<(Seq<char>, Seq<char>)>::empty(),
{
    IndexSet::new()
}

/// Relies on indexmap's IndexSet::insert: inserts a value that is not yet
/// present at the end of the insertion order and returns true; leaves the
/// set unchanged and returns false when an equal value is present. Equality
/// of `GitRepo` values is derived field-wise over the two strings.
#[verifier::external_body]
fn git_set_insert(s: &mut IndexSet<GitRepo>, x: GitRepo) -> (r: bool)
    ensures
        git_set_seq(*final(s)) == insert_unique(git_set_seq(*old(s)), x@),
        r == !git_set_seq(*old(s)).contains(x@),
{
    s.insert(x)
}

/// Relies on indexmap's IndexSet::len: the number of elements held.
#[verifier::external_body]
fn git_set_len(s: &IndexSet<GitRepo>) -> (r: usize)
    ensures
        r == git_set_seq(*s).len(),
{
    s.len()
}

/// Relies on indexmap's IndexSet::get_index: the element at the given
/// position in insertion order, or None past the end.
#[verifier::external_body]
fn git_set_get(s: &IndexSet<GitRepo>, i: usize) -> (r: Option<GitRepo>)
    ensures
        match r {
            Some(v) => i < git_set_seq(*s).len() && v@ == git_set_seq(*s)[i as int],
            None => i >= git_set_seq(*s).len(),
        },
{
    match s.get_index(i) {
        Some(v) => Some(GitRepo { url: v.url.clone(), commit: v.commit.clone() }),
        None => None,
    }
}

/// The two order-preserving unique sets of the run: registry coordinates
/// and remote (url, revision) pairs. Both grow monotonically; insertion
/// order is emission order.
pub struct Accumulator {
    crates: IndexSet<String>,
    git: IndexSet<GitRepo>,
}

impl Accumulator {
    /// The registry coordinates accumulated so far, in first-seen order.
    pub closed spec fn crates_seq(self) -> Seq<Seq<char>> {
        crate_set_seq(self.crates)
    }

    /// The remote (url, revision) pairs accumulated so far, in first-seen order.
    pub closed spec fn git_seq(self) -> Seq<(Seq<char>, Seq<char>)> {
        git_set_seq(self.git)
    }

    /// An empty accumulator.
    pub fn new() -> (r: Accumulator)
        ensures
            r.crates_seq() == Seq::<Seq<char>>::empty(),
            r.git_seq() == Seq::<(Seq<char>, Seq<char>)>::empty(),
    {
        Accumulator { crates: crate_set_new(), git: git_set_new() }
    }

    /// Inserts a registry coordinate, keeping first-seen order; returns
    /// whether the coordinate was new.
    pub fn insert_crate(&mut self, coordinate: String) -> (r: bool)
        ensures
            final (self).crates_seq() == insert_unique(old(self).crates_seq(), coordinate@),
            final (self).git_seq() == old(self).git_seq(),
            r == !old(self).crates_seq().contains(coordinate@),
    {
        crate_set_insert(&mut self.crates, coordinate)
    }

    /// Inserts a remote (url, revision) pair, keeping first-seen order;
    /// returns whether the pair was new.
    pub fn insert_git(&mut self, url: String, revision: String) -> (r: bool)
        ensures
            final (self).git_seq() == insert_unique(old(self).git_seq(), (url@, revision@)),
            final (self).crates_seq() == old(self).crates_seq(),
            r == !old(self).git_seq().contains((url@, revision@)),
    {
        git_set_insert(&mut self.git, GitRepo { url, commit: revision })
    }

    /// The number of registry coordinates held.
    pub fn crates_len(&self) -> (r: usize)
        ensures
            r == self.crates_seq().len(),
    {
        crate_set_len(&self.crates)
    }

    /// The registry coordinate at the given position in first-seen order.
    pub fn crate_at(&self, i: usize) -> (r: String)
        requires
            i < self.crates_seq().len(),
        ensures
            r@ == self.crates_seq()[i as int],
    {
        match crate_set_get(&self.crates, i) {
            Some(v) => v,
            None => {
                proof {
                    assert(false);
                }
                unreached()
            },
        }
    }

    /// The number of remote sources held.
    pub fn git_len(&self) -> (r: usize)
        ensures
            r == self.git_seq().len(),
    {
        git_set_len(&self.git)
    }

    /// The remote source at the given position in first-seen order.
    pub fn git_at(&self, i: usize) -> (r: GitRepo)
        requires
            i < self.git_seq().len(),
        ensures
            r@ == self.git_seq()[i as int],
    {
        match git_set_get(&self.git, i) {
            Some(v) => v,
            None => {
                proof {
                    assert(false);
                }
                unreached()
            },
        }
    }

    /// Whether no remote source has been seen.
    pub fn git_is_empty(&self) -> (r: bool)
        ensures
            r == (self.git_seq().len() == 0),
    {
        git_set_len(&self.git) == 0
    }
}

/// Law: inserting the same element twice yields exactly one entry, in its
/// first-seen position — repeated insertion changes nothing.
pub proof fn lemma_insert_unique_idempotent<A>(s: Seq<A>, x: A)
    ensures
        insert_unique(insert_unique(s, x), x) == insert_unique(s, x),
{
    if !s.contains(x) {
        assert(s.push(x)[s.len() as int] == x);
        assert(s.push(x).contains(x));
    }
}

/// Law: two elements that differ — such as the same URL under two
/// different revisions — make two distinct entries, kept in first-seen
/// order after everything already present.
pub proof fn lemma_insert_unique_distinct<A>(s: Seq<A>, x: A, y: A)
    requires
        x != y,
        !s.contains(x),
        !s.contains(y),
    ensures
        insert_unique(insert_unique(s, x), y).len() == s.len() + 2,
        insert_unique(insert_unique(s, x), y)[s.len() as int] == x,
        insert_unique(insert_unique(s, x), y)[s.len() as int + 1] == y,
{
    let s1 = s.push(x);
    assert forall|i: int| 0 <= i < s1.len() implies s1[i] != y by {
        if i < s.len() {
            assert(s[i] == s1[i]);
            assert(!s.contains(y));
        }
    }
    assert(!s1.contains(y));
}

/// The text named in the diagnostic notice for an unrecognized entry: the
/// raw source descriptor when the identifier has one, otherwise the whole
/// identifier.
pub open spec fn spec_descriptor(id: Seq<char>) -> Seq<char> {
    let parts = split_ws(id);
    if parts.len() >= 3 {
        parts[2]
    } else {
        id
    }
}

fn descriptor_of(id: &str) -> (r: String)
    ensures
        r@ == spec_descriptor(id@),
{
    let parts = split_ws_str(id);
    if parts.len() >= 3 {
        proof {
            assert(parts.deep_view()[2] == parts@[2]@);
        }
        parts[2].clone()
    } else {
        String::from_str(id)
    }
}

/// How one classified identifier updates the run's state: the registry
/// coordinates, the remote sources, the local paths found, and the
/// unrecognized descriptors to report.
pub open spec fn spec_absorb_one(
    crates: Seq<Seq<char>>,
    gits: Seq<(Seq<char>, Seq<char>)>,
    paths: Seq<Seq<char>>,
    unrec: Seq<Seq<char>>,
    id: Seq<char>,
) -> (Seq<Seq<char>>, Seq<(Seq<char>, Seq<char>)>, Seq<Seq<char>>, Seq<Seq<char>>) {
    match spec_classify(id) {
        ClassView::Registry { name, version } => (
            insert_unique(crates, spec_registry_coordinate(name, version)),
            gits,
            paths,
            unrec,
        ),
        ClassView::LocalPath { path } => (crates, gits, paths.push(path), unrec),
        ClassView::RemoteVcs { url, revision } => (
            crates,
            insert_unique(gits, (url, revision)),
            paths,
            unrec,
        ),
        ClassView::Unrecognized => (crates, gits, paths, unrec.push(spec_descriptor(id))),
    }
}

/// How a whole list of identifiers updates the run's state, first to last.
pub open spec fn spec_absorb(
    crates: Seq<Seq<char>>,
    gits: Seq<(Seq<char>, Seq<char>)>,
    paths: Seq<Seq<char>>,
    unrec: Seq<Seq<char>>,
    ids: Seq<Seq<char>>,
) -> (Seq<Seq<char>>, Seq<(Seq<char>, Seq<char>)>, Seq<Seq<char>>, Seq<Seq<char>>)
    decreases ids.len(),
{
    if ids.len() == 0 {
        (crates, gits, paths, unrec)
    } else {
        let (c1, g1, p1, u1) = spec_absorb_one(crates, gits, paths, unrec, ids[0]);
        spec_absorb(c1, g1, p1, u1, ids.drop_first())
    }
}

/// Law: an identifier matching none of the three known shapes populates
/// neither accumulator set and adds no local path; it only adds its
/// descriptor to the diagnostic report, and the run goes on.
pub proof fn lemma_unrecognized_skipped(
    crates: Seq<Seq<char>>,
    gits: Seq<(Seq<char>, Seq<char>)>,
    paths: Seq<Seq<char>>,
    unrec: Seq<Seq<char>>,
    id: Seq<char>,
)
    requires
        spec_classify(id) == ClassView::Unrecognized,
    ensures
        spec_absorb_one(crates, gits, paths, unrec, id) == (
            crates,
            gits,
            paths,
            unrec.push(spec_descriptor(id)),
        ),
{
}

/// Law: absorption only grows the accumulated sets. Whatever registry
/// coordinates and remote sources a resolution pass starts from stay in
/// place, in their first-seen order, however many identifiers the pass
/// feeds in: the two sets are monotonically grown, never shrunk.
pub proof fn lemma_absorb_monotonic(
    crates: Seq<Seq<char>>,
    gits: Seq<(Seq<char>, Seq<char>)>,
    paths: Seq<Seq<char>>,
    unrec: Seq<Seq<char>>,
    ids: Seq<Seq<char>>,
)
    ensures
        ({
            let (c, g, p, u) = spec_absorb(crates, gits, paths, unrec, ids);
            crates.is_prefix_of(c) && gits.is_prefix_of(g)
        }),
    decreases ids.len(),
{
    assert(crates =~= crates.subrange(0, crates.len() as int));
    assert(gits =~= gits.subrange(0, gits.len() as int));
    if ids.len() > 0 {
        let (c1, g1, p1, u1) = spec_absorb_one(crates, gits, paths, unrec, ids[0]);
        assert(crates.is_prefix_of(c1)) by {
            if c1 != crates {
                assert(c1 =~= crates.push(c1.last()));
                assert(crates =~= c1.subrange(0, crates.len() as int));
            }
        }
        assert(gits.is_prefix_of(g1)) by {
            if g1 != gits {
                assert(g1 =~= gits.push(g1.last()));
                assert(gits =~= g1.subrange(0, gits.len() as int));
            }
        }
        lemma_absorb_monotonic(c1, g1, p1, u1, ids.drop_first());
        let (c, g, p, u) = spec_absorb(c1, g1, p1, u1, ids.drop_first());
        assert(crates =~= c.subrange(0, crates.len() as int)) by {
            assert(c1 =~= c.subrange(0, c1.len() as int));
            assert(forall|k: int| 0 <= k < crates.len() ==> crates[k] == c1[k] && c1[k] == c[k]);
        }
        assert(gits =~= g.subrange(0, gits.len() as int)) by {
            assert(g1 =~= g.subrange(0, g1.len() as int));
            assert(forall|k: int| 0 <= k < gits.len() ==> gits[k] == g1[k] && g1[k] == g[k]);
        }
    }
}

/// Classifies every resolved node identifier of one manifest and feeds the
/// accumulator: registry coordinates and remote sources are inserted
/// without duplicates in first-seen order; the local paths discovered are
/// returned first, the unrecognized source descriptors second, for the
/// caller to report.
pub fn accumulate_nodes(acc: &mut Accumulator, ids: &Vec<String>) -> (r: (Vec<String>, Vec<
    String,
>))
    ensures
        ({
            let (c, g, p, u) = spec_absorb(
                old(acc).crates_seq(),
                old(acc).git_seq(),
                Seq::empty(),
                Seq::empty(),
                ids.deep_view(),
            );
            final (acc).crates_seq() == c && final (acc).git_seq() == g && r.0.deep_view() == p
                && r.1.deep_view() == u
        }),
{
    let mut paths: Vec<String> = Vec::new();
    let mut unrec: Vec<String> = Vec::new();
    let ghost c0 = acc.crates_seq();
    let ghost g0 = acc.git_seq();
    let mut i: usize = 0;
    proof {
        assert(paths.deep_view() =~= Seq::<Seq<char>>::empty());
        assert(unrec.deep_view() =~= Seq::<Seq<char>>::empty());
        assert(ids.deep_view().skip(0) =~= ids.deep_view());
    }
    while i < ids.len()
        invariant
            i <= ids.len(),
            ids.deep_view().len() == ids@.len(),
            spec_absorb(c0, g0, Seq::empty(), Seq::empty(), ids.deep_view()) == spec_absorb(
                acc.crates_seq(),
                acc.git_seq(),
                paths.deep_view(),
                unrec.deep_view(),
                ids.deep_view().skip(i as int),
            ),
        decreases ids.len() - i,
    {
        let ghost rest = ids.deep_view().skip(i as int);
        proof {
            assert(ids.deep_view()[i as int] == ids@[i as int]@);
            assert(rest[0] == ids.deep_view()[i as int]);
            assert(rest.drop_first() =~= ids.deep_view().skip(i + 1));
        }
        let id: &String = &ids[i];
        match classify(id.as_str()) {
            Classification::Registry { name, version } => {
                let coordinate = registry_coordinate(name.as_str(), version.as_str());
                acc.insert_crate(coordinate);
            },
            Classification::LocalPath { path } => {
                let ghost pv = path@;
                let ghost old_paths = paths.deep_view();
                paths.push(path);
                proof {
                    assert(paths.deep_view() =~= old_paths.push(pv));
                }
            },
            Classification::RemoteVcs { url, revision } => {
                acc.insert_git(url, revision);
            },
            Classification::Unrecognized => {
                let d = descriptor_of(id.as_str());
                let ghost dv = d@;
                let ghost old_unrec = unrec.deep_view();
                unrec.push(d);
                proof {
                    assert(unrec.deep_view() =~= old_unrec.push(dv));
                }
            },
        }
        i = i + 1;
    }
    proof {
        assert(ids.deep_view().skip(ids@.len() as int) =~= Seq::<Seq<char>>::empty());
    }
    (paths, unrec)
}

} // verus!
