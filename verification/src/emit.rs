//! The recipe emitter: a pure rendering of the final accumulator state as
//! a build-recipe fragment, in insertion order throughout, so the output is
//! reproducible given identical resolution results.

use vstd::prelude::*;
use vstd::string::StrSliceExecFns;
use vstd::string::StringExecFns;

use crate::accumulate::Accumulator;
use crate::accumulate::insert_unique;
use crate::text::after_last;
use crate::text::after_last_str;
use crate::text::before_sub;
use crate::text::before_sub_str;
use crate::text::between_sub;
use crate::text::between_sub_str;

verus! {

/// The destination folder for a repository URL: the text after the last
/// `/`, with everything from the first `.git` on stripped.
pub open spec fn spec_folder_name(url: Seq<char>) -> Seq<char> {
    before_sub(after_last(url, '/'), ".git"@)
}

/// Derives a filesystem-safe folder name from a repository URL's final
/// path segment, stripping the trailing VCS-suffix marker.
pub fn get_repo_folder_name(url: String) -> (r: String)
    ensures
        r@ == spec_folder_name(url@),
{
    proof {
        reveal_strlit(".git");
    }
    let last = after_last_str(url.as_str(), '/');
    before_sub_str(last.as_str(), ".git")
}

/// The scheme of a URL: the text before the first `://`.
pub open spec fn spec_scheme(url: Seq<char>) -> Seq<char> {
    before_sub(url, "://"@)
}

/// The remainder of a URL after its scheme; empty when the URL has no
/// scheme separator at all.
pub open spec fn spec_rest(url: Seq<char>) -> Seq<char> {
    between_sub(url, "://"@)
}

/// The destination folder of one remote source, read off its URL without
/// the scheme.
pub open spec fn spec_git_folder(url: Seq<char>) -> Seq<char> {
    spec_folder_name(spec_rest(url))
}

/// One registry-fetch directive line.
pub open spec fn spec_registry_line(c: Seq<char>) -> Seq<char> {
    "    "@ + c + " \\\n"@
}

/// One VCS-fetch directive line: protocol, destination folder, and the
/// flag disabling branch-following, since the checkout is to an exact
/// pinned revision.
pub open spec fn spec_vcs_line(url: Seq<char>) -> Seq<char> {
    "    git://"@ + spec_rest(url) + ";lfs=0;nobranch=1;protocol="@ + spec_scheme(url)
        + ";destsuffix="@ + spec_git_folder(url) + ";name="@ + spec_git_folder(url) + " \\\n"@
}

/// The revision-pin line pair of one remote source, keyed by its folder.
pub open spec fn spec_srcrev_lines(url: Seq<char>, rev: Seq<char>) -> Seq<char> {
    "SRCREV_FORMAT .= \"_"@ + spec_git_folder(url) + "\"\n"@ + "SRCREV_"@ + spec_git_folder(url)
        + " = \""@ + rev + "\"\n"@
}

/// One extra-search-path line.
pub open spec fn spec_extra_line(folder: Seq<char>) -> Seq<char> {
    "    ${WORKDIR}/"@ + folder + " \\\n"@
}

/// The registry-fetch block: one line per coordinate, in insertion order.
pub open spec fn spec_registry_block(crates: Seq<Seq<char>>) -> Seq<char>
    decreases crates.len(),
{
    if crates.len() == 0 {
        Seq::empty()
    } else {
        spec_registry_line(crates[0]) + spec_registry_block(crates.drop_first())
    }
}

/// The VCS-fetch block: one line per remote source, in insertion order.
pub open spec fn spec_vcs_block(gits: Seq<(Seq<char>, Seq<char>)>) -> Seq<char>
    decreases gits.len(),
{
    if gits.len() == 0 {
        Seq::empty()
    } else {
        spec_vcs_line(gits[0].0) + spec_vcs_block(gits.drop_first())
    }
}

/// The revision-pin block: one line pair per remote source, in insertion order.
pub open spec fn spec_srcrev_block(gits: Seq<(Seq<char>, Seq<char>)>) -> Seq<char>
    decreases gits.len(),
{
    if gits.len() == 0 {
        Seq::empty()
    } else {
        spec_srcrev_lines(gits[0].0, gits[0].1) + spec_srcrev_block(gits.drop_first())
    }
}

/// The extra-search-path block: one line per distinct folder name.
pub open spec fn spec_extra_block(folders: Seq<Seq<char>>) -> Seq<char>
    decreases folders.len(),
{
    if folders.len() == 0 {
        Seq::empty()
    } else {
        spec_extra_line(folders[0]) + spec_extra_block(folders.drop_first())
    }
}

/// First-seen-order deduplication, element by element, starting from what
/// was already kept.
pub open spec fn spec_dedup_from(acc: Seq<Seq<char>>, s: Seq<Seq<char>>) -> Seq<Seq<char>>
    decreases s.len(),
{
    if s.len() == 0 {
        acc
    } else {
        spec_dedup_from(insert_unique(acc, s[0]), s.drop_first())
    }
}

/// The distinct elements of a list, in first-seen order.
pub open spec fn spec_dedup(s: Seq<Seq<char>>) -> Seq<Seq<char>> {
    spec_dedup_from(Seq::empty(), s)
}

/// The destination folder names of the accumulated remote sources, in order.
pub open spec fn spec_folders(gits: Seq<(Seq<char>, Seq<char>)>) -> Seq<Seq<char>> {
    Seq::new(gits.len(), |i: int| spec_git_folder(gits[i].0))
}

/// The full recipe fragment over the final accumulator state: the
/// registry-fetch block, the VCS-fetch block, the revision-pin block, and —
/// only when at least one remote source exists — the extra-search-path
/// block, everything in insertion order.
pub open spec fn spec_render(crates: Seq<Seq<char>>, gits: Seq<(Seq<char>, Seq<char>)>) -> Seq<
    char,
> {
    let base = "\nSRC_URI += \" \\\n"@ + spec_registry_block(crates) + spec_vcs_block(gits)
        + "\"\n\n"@ + spec_srcrev_block(gits);
    if gits.len() == 0 {
        base
    } else {
        base + "\nEXTRA_OECARGO_PATHS += \"\\\n"@ + spec_extra_block(spec_dedup(spec_folders(gits)))
            + "\"\n"@
    }
}

proof fn lemma_registry_block_snoc(s: Seq<Seq<char>>, x: Seq<char>)
    ensures
        spec_registry_block(s.push(x)) == spec_registry_block(s) + spec_registry_line(x),
    decreases s.len(),
{
    if s.len() == 0 {
        assert(s.push(x).drop_first() =~= s);
        assert(spec_registry_line(x) + Seq::<char>::empty() =~= spec_registry_line(x));
        assert(Seq::<char>::empty() + spec_registry_line(x) =~= spec_registry_line(x));
    } else {
        lemma_registry_block_snoc(s.drop_first(), x);
        assert(s.push(x).drop_first() =~= s.drop_first().push(x));
        assert(s.push(x)[0] == s[0]);
        assert(spec_registry_line(s[0]) + (spec_registry_block(s.drop_first())
            + spec_registry_line(x)) =~= (spec_registry_line(s[0]) + spec_registry_block(
            s.drop_first(),
        )) + spec_registry_line(x));
    }
}

proof fn lemma_vcs_block_snoc(s: Seq<(Seq<char>, Seq<char>)>, x: (Seq<char>, Seq<char>))
    ensures
        spec_vcs_block(s.push(x)) == spec_vcs_block(s) + spec_vcs_line(x.0),
    decreases s.len(),
{
    if s.len() == 0 {
        assert(s.push(x).drop_first() =~= s);
        assert(spec_vcs_line(x.0) + Seq::<char>::empty() =~= spec_vcs_line(x.0));
        assert(Seq::<char>::empty() + spec_vcs_line(x.0) =~= spec_vcs_line(x.0));
    } else {
        lemma_vcs_block_snoc(s.drop_first(), x);
        assert(s.push(x).drop_first() =~= s.drop_first().push(x));
        assert(s.push(x)[0] == s[0]);
        assert(spec_vcs_line(s[0].0) + (spec_vcs_block(s.drop_first()) + spec_vcs_line(x.0)) =~= (
        spec_vcs_line(s[0].0) + spec_vcs_block(s.drop_first())) + spec_vcs_line(x.0));
    }
}

proof fn lemma_srcrev_block_snoc(s: Seq<(Seq<char>, Seq<char>)>, x: (Seq<char>, Seq<char>))
    ensures
        spec_srcrev_block(s.push(x)) == spec_srcrev_block(s) + spec_srcrev_lines(x.0, x.1),
    decreases s.len(),
{
    if s.len() == 0 {
        assert(s.push(x).drop_first() =~= s);
        assert(spec_srcrev_lines(x.0, x.1) + Seq::<char>::empty() =~= spec_srcrev_lines(x.0, x.1));
        assert(Seq::<char>::empty() + spec_srcrev_lines(x.0, x.1) =~= spec_srcrev_lines(x.0, x.1));
    } else {
        lemma_srcrev_block_snoc(s.drop_first(), x);
        assert(s.push(x).drop_first() =~= s.drop_first().push(x));
        assert(s.push(x)[0] == s[0]);
        assert(spec_srcrev_lines(s[0].0, s[0].1) + (spec_srcrev_block(s.drop_first())
            + spec_srcrev_lines(x.0, x.1)) =~= (spec_srcrev_lines(s[0].0, s[0].1)
            + spec_srcrev_block(s.drop_first())) + spec_srcrev_lines(x.0, x.1));
    }
}

proof fn lemma_extra_block_snoc(s: Seq<Seq<char>>, x: Seq<char>)
    ensures
        spec_extra_block(s.push(x)) == spec_extra_block(s) + spec_extra_line(x),
    decreases s.len(),
{
    if s.len() == 0 {
        assert(s.push(x).drop_first() =~= s);
        assert(spec_extra_line(x) + Seq::<char>::empty() =~= spec_extra_line(x));
        assert(Seq::<char>::empty() + spec_extra_line(x) =~= spec_extra_line(x));
    } else {
        lemma_extra_block_snoc(s.drop_first(), x);
        assert(s.push(x).drop_first() =~= s.drop_first().push(x));
        assert(s.push(x)[0] == s[0]);
        assert(spec_extra_line(s[0]) + (spec_extra_block(s.drop_first()) + spec_extra_line(x)) =~= (
        spec_extra_line(s[0]) + spec_extra_block(s.drop_first())) + spec_extra_line(x));
    }
}

/// Whether the list holds a string with the given contents.
fn vec_contains_string(v: &Vec<String>, x: &String) -> (r: bool)
    ensures
        r == v.deep_view().contains(x@),
{
    let mut i: usize = 0;
    while i < v.len()
        invariant
            i <= v@.len(),
            v.deep_view().len() == v@.len(),
            forall|k: int| 0 <= k < i ==> v.deep_view()[k] != x@,
        decreases v@.len() - i,
    {
        proof {
            assert(v.deep_view()[i as int] == v@[i as int]@);
        }
        if v[i].eq(x) {
            return true;
        }
        i = i + 1;
    }
    proof {
        if v.deep_view().contains(x@) {
            let k = choose|k: int| 0 <= k < v.deep_view().len() && v.deep_view()[k] == x@;
            assert(false);
        }
    }
    false
}

/// The distinct destination folder names of the accumulated remote
/// sources, in first-seen order.
fn distinct_folders(acc: &Accumulator) -> (r: Vec<String>)
    ensures
        r.deep_view() == spec_dedup(spec_folders(acc.git_seq())),
{
    proof {
        reveal_strlit("://");
    }
    let ghost fs = spec_folders(acc.git_seq());
    let n = acc.git_len();
    let mut out: Vec<String> = Vec::new();
    let mut i: usize = 0;
    proof {
        assert(out.deep_view() =~= Seq::<Seq<char>>::empty());
        assert(fs.skip(0) =~= fs);
    }
    while i < n
        invariant
            i <= n,
            n == acc.git_seq().len(),
            fs == spec_folders(acc.git_seq()),
            fs.len() == n,
            spec_dedup_from(out.deep_view(), fs.skip(i as int)) == spec_dedup(fs),
        decreases n - i,
    {
        proof {
            reveal_strlit("://");
        }
        let g = acc.git_at(i);
        let rest = between_sub_str(g.url.as_str(), "://");
        let folder = get_repo_folder_name(rest);
        let ghost fv = folder@;
        proof {
            assert(fs[i as int] == spec_git_folder(acc.git_seq()[i as int].0));
            assert(fv == fs[i as int]);
            assert(fs.skip(i as int)[0] == fs[i as int]);
            assert(fs.skip(i as int).drop_first() =~= fs.skip(i + 1));
        }
        if !vec_contains_string(&out, &folder) {
            let ghost old_out = out.deep_view();
            out.push(folder);
            proof {
                assert(out.deep_view() =~= old_out.push(fv));
                assert(out.deep_view() =~= insert_unique(old_out, fv));
            }
        } else {
            proof {
                assert(insert_unique(out.deep_view(), fv) =~= out.deep_view());
            }
        }
        i = i + 1;
    }
    proof {
        assert(fs.skip(n as int) =~= Seq::<Seq<char>>::empty());
    }
    out
}

fn append_registry_line(out: &mut String, c: &String)
    ensures
        final (out)@ == old(out)@ + spec_registry_line(c@),
{
    out.append("    ");
    out.append(c.as_str());
    out.append(" \\\n");
    proof {
        assert(out@ =~= old(out)@ + spec_registry_line(c@));
    }
}

fn append_vcs_line(out: &mut String, url: &String)
    ensures
        final (out)@ == old(out)@ + spec_vcs_line(url@),
{
    proof {
        reveal_strlit("://");
    }
    let rest = between_sub_str(url.as_str(), "://");
    let scheme = before_sub_str(url.as_str(), "://");
    let folder = get_repo_folder_name(rest.clone());
    out.append("    git://");
    out.append(rest.as_str());
    out.append(";lfs=0;nobranch=1;protocol=");
    out.append(scheme.as_str());
    out.append(";destsuffix=");
    out.append(folder.as_str());
    out.append(";name=");
    out.append(folder.as_str());
    out.append(" \\\n");
    proof {
        assert(out@ =~= old(out)@ + spec_vcs_line(url@));
    }
}

fn append_srcrev_lines(out: &mut String, url: &String, rev: &String)
    ensures
        final (out)@ == old(out)@ + spec_srcrev_lines(url@, rev@),
{
    proof {
        reveal_strlit("://");
    }
    let rest = between_sub_str(url.as_str(), "://");
    let folder = get_repo_folder_name(rest);
    out.append("SRCREV_FORMAT .= \"_");
    out.append(folder.as_str());
    out.append("\"\n");
    out.append("SRCREV_");
    out.append(folder.as_str());
    out.append(" = \"");
    out.append(rev.as_str());
    out.append("\"\n");
    proof {
        assert(out@ =~= old(out)@ + spec_srcrev_lines(url@, rev@));
    }
}

fn append_extra_line(out: &mut String, folder: &String)
    ensures
        final (out)@ == old(out)@ + spec_extra_line(folder@),
{
    out.append("    ${WORKDIR}/");
    out.append(folder.as_str());
    out.append(" \\\n");
    proof {
        assert(out@ =~= old(out)@ + spec_extra_line(folder@));
    }
}

/// Renders the final accumulator state as the recipe fragment. Pure: the
/// text depends on the accumulated sets alone, so the output is
/// reproducible given identical resolution results.
pub fn render_recipe(acc: &Accumulator) -> (r: String)
    ensures
        r@ == spec_render(acc.crates_seq(), acc.git_seq()),
{
    let ghost cs = acc.crates_seq();
    let ghost gs = acc.git_seq();
    let mut out = String::from_str("\nSRC_URI += \" \\\n");
    let ghost hdr = "\nSRC_URI += \" \\\n"@;
    let n = acc.crates_len();
    let mut i: usize = 0;
    proof {
        assert(cs.take(0) =~= Seq::<Seq<char>>::empty());
        assert(out@ =~= hdr + spec_registry_block(cs.take(0)));
    }
    while i < n
        invariant
            i <= n,
            n == cs.len(),
            cs == acc.crates_seq(),
            out@ == hdr + spec_registry_block(cs.take(i as int)),
        decreases n - i,
    {
        let c = acc.crate_at(i);
        append_registry_line(&mut out, &c);
        proof {
            lemma_registry_block_snoc(cs.take(i as int), cs[i as int]);
            assert(cs.take(i + 1) =~= cs.take(i as int).push(cs[i as int]));
            assert(hdr + (spec_registry_block(cs.take(i as int)) + spec_registry_line(
                cs[i as int],
            )) =~= (hdr + spec_registry_block(cs.take(i as int))) + spec_registry_line(
                cs[i as int],
            ));
        }
        i = i + 1;
    }
    proof {
        assert(cs.take(n as int) =~= cs);
    }
    let m = acc.git_len();
    let mut j: usize = 0;
    let ghost head1 = hdr + spec_registry_block(cs);
    proof {
        assert(gs.take(0) =~= Seq::<(Seq<char>, Seq<char>)>::empty());
        assert(out@ =~= head1 + spec_vcs_block(gs.take(0)));
    }
    while j < m
        invariant
            j <= m,
            m == gs.len(),
            gs == acc.git_seq(),
            out@ == head1 + spec_vcs_block(gs.take(j as int)),
        decreases m - j,
    {
        let g = acc.git_at(j);
        append_vcs_line(&mut out, &g.url);
        proof {
            lemma_vcs_block_snoc(gs.take(j as int), gs[j as int]);
            assert(gs.take(j + 1) =~= gs.take(j as int).push(gs[j as int]));
            assert(g.url@ == gs[j as int].0);
            assert(head1 + (spec_vcs_block(gs.take(j as int)) + spec_vcs_line(gs[j as int].0)) =~= (
            head1 + spec_vcs_block(gs.take(j as int))) + spec_vcs_line(gs[j as int].0));
        }
        j = j + 1;
    }
    proof {
        assert(gs.take(m as int) =~= gs);
    }
    out.append("\"\n\n");
    let ghost head2 = head1 + spec_vcs_block(gs) + "\"\n\n"@;
    proof {
        assert(out@ =~= head2);
    }
    let mut k: usize = 0;
    proof {
        assert(gs.take(0) =~= Seq::<(Seq<char>, Seq<char>)>::empty());
        assert(out@ =~= head2 + spec_srcrev_block(gs.take(0)));
    }
    while k < m
        invariant
            k <= m,
            m == gs.len(),
            gs == acc.git_seq(),
            out@ == head2 + spec_srcrev_block(gs.take(k as int)),
        decreases m - k,
    {
        let g = acc.git_at(k);
        append_srcrev_lines(&mut out, &g.url, &g.commit);
        proof {
            lemma_srcrev_block_snoc(gs.take(k as int), gs[k as int]);
            assert(gs.take(k + 1) =~= gs.take(k as int).push(gs[k as int]));
            assert(g.url@ == gs[k as int].0);
            assert(g.commit@ == gs[k as int].1);
            assert(head2 + (spec_srcrev_block(gs.take(k as int)) + spec_srcrev_lines(
                gs[k as int].0,
                gs[k as int].1,
            )) =~= (head2 + spec_srcrev_block(gs.take(k as int))) + spec_srcrev_lines(
                gs[k as int].0,
                gs[k as int].1,
            ));
        }
        k = k + 1;
    }
    proof {
        assert(gs.take(m as int) =~= gs);
        assert(out@ == head2 + spec_srcrev_block(gs));
    }
    if acc.git_is_empty() {
        proof {
            assert(out@ =~= spec_render(cs, gs));
        }
        return out;
    }
    out.append("\nEXTRA_OECARGO_PATHS += \"\\\n");
    let folders = distinct_folders(acc);
    let ghost fds = spec_dedup(spec_folders(gs));
    let ghost head3 = head2 + spec_srcrev_block(gs) + "\nEXTRA_OECARGO_PATHS += \"\\\n"@;
    let p = folders.len();
    let mut q: usize = 0;
    proof {
        assert(fds.take(0) =~= Seq::<Seq<char>>::empty());
        assert(out@ =~= head3 + spec_extra_block(fds.take(0)));
        assert(folders.deep_view().len() == folders@.len());
    }
    while q < p
        invariant
            q <= p,
            p == folders@.len(),
            folders.deep_view() == fds,
            fds.len() == p,
            out@ == head3 + spec_extra_block(fds.take(q as int)),
        decreases p - q,
    {
        proof {
            assert(folders.deep_view()[q as int] == folders@[q as int]@);
        }
        append_extra_line(&mut out, &folders[q]);
        proof {
            lemma_extra_block_snoc(fds.take(q as int), fds[q as int]);
            assert(fds.take(q + 1) =~= fds.take(q as int).push(fds[q as int]));
            assert(head3 + (spec_extra_block(fds.take(q as int)) + spec_extra_line(fds[q as int]))
                =~= (head3 + spec_extra_block(fds.take(q as int))) + spec_extra_line(
                fds[q as int],
            ));
        }
        q = q + 1;
    }
    out.append("\"\n");
    proof {
        assert(fds.take(p as int) =~= fds);
        assert(out@ =~= spec_render(cs, gs));
    }
    out
}

/// Law: with no remote source accumulated, the recipe is the header and
/// the registry block alone, and the extra-search-path block is omitted.
pub proof fn lemma_render_no_remote(crates: Seq<Seq<char>>)
    ensures
        spec_render(crates, Seq::empty()) == "\nSRC_URI += \" \\\n"@ + spec_registry_block(crates)
            + "\"\n\n"@,
{
    let gits = Seq::<(Seq<char>, Seq<char>)>::empty();
    assert(spec_vcs_block(gits) == Seq::<char>::empty());
    assert(spec_srcrev_block(gits) == Seq::<char>::empty());
    assert("\nSRC_URI += \" \\\n"@ + spec_registry_block(crates) + Seq::<char>::empty() + "\"\n\n"@
        + Seq::<char>::empty() =~= "\nSRC_URI += \" \\\n"@ + spec_registry_block(crates)
        + "\"\n\n"@);
}

/// Law: the registry block of two coordinates lists them in insertion
/// order, the first before the second.
pub proof fn lemma_registry_block_pair(a: Seq<char>, b: Seq<char>)
    ensures
        spec_registry_block(seq![a, b]) == spec_registry_line(a) + spec_registry_line(b),
{
    reveal_with_fuel(spec_registry_block, 3);
    assert(seq![a, b][0] == a);
    assert(seq![b][0] == b);
    assert(seq![a, b].drop_first() =~= seq![b]);
    assert(seq![b].drop_first() =~= Seq::<Seq<char>>::empty());
    assert(spec_registry_line(b) + Seq::<char>::empty() =~= spec_registry_line(b));
    assert(spec_registry_line(a) + (spec_registry_line(b) + Seq::<char>::empty())
        =~= spec_registry_line(a) + spec_registry_line(b));
}

} // verus!
