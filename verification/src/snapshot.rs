//! What a verification round reviews: what changed, what may be cited, what is
//! in scope, and whether the reviewed tree still holds it.

use vstd::prelude::*;
use vstd::string::*;

use crate::digest::{canonical_digest, digest_bytes, digest_text, normalize_sha256};
use crate::manifest::{
    add_virtual_artifact, check_round_id, entries_sound, entry_views, file_entry, find_entry,
    is_uuid, law_manifest_holds_together, lemma_faultless_is_sound, lemma_lookup_from,
    lemma_sorted_entries_sound, lemma_sound_from, lookup, manifest_fault, manifest_of,
    manifest_path, metadata_fit, missing_entry, seal, sealed, snapshot_manifest_path, symlink_entry,
    validate_manifest, virtual_fault, ArtifactEntry, ArtifactKind, ArtifactManifest, EntryView,
    MAX_FILES, MAX_MANIFEST_BYTES, ManifestView, VirtualArtifact,
};
use crate::paths::{
    is_unsafe_relative, join_path, law_rounds_are_reviewed_apart, path_join, review_dir,
    round_review_dir,
};
use crate::text::{
    append, append_str, cat2, cat3, cat4, cat5, chars_of, contains, ellipsized, ellipsized_of,
    has_char, is_sorted_set, is_text_ignoring_case, join, join_of, lemma_contains_in_whole,
    lemma_join_holds_its_parts, lemma_sorted_set, lemma_texts_push, lower, opt, same,
    same_ignoring_case, same_opt, same_str, sorted_set_of, starts_with, starts_with_str, string_of,
    strings, strings_of, texts, trim, trim_str,
};

verus! {

// ---------------------------------------------------------------------------
// What changed between two manifests

/// The entry of the later manifest at a path. What the harness itself put into
/// the snapshot does not count.
pub open spec fn later_entry(entries: Seq<EntryView>, path: Seq<char>) -> Option<EntryView> {
    if starts_with(path, ".ds-verification/"@) {
        None
    } else {
        lookup(entries, path)
    }
}

/// Whether a path was added, removed or altered.
pub open spec fn is_changed(before: Seq<EntryView>, after: Seq<EntryView>, path: Seq<char>) -> bool {
    lookup(before, path) != later_entry(after, path)
}

fn collect_changed(
    out: &mut Vec<Vec<char>>,
    from: &Vec<ArtifactEntry>,
    before: &Vec<ArtifactEntry>,
    after: &Vec<ArtifactEntry>,
)
    ensures
        forall|p: Seq<char>| #[trigger]
            texts(final(out)@).contains(p) <==> texts(old(out)@).contains(p) || (lookup(
                entry_views(from@),
                p,
            ) is Some && is_changed(entry_views(before@), entry_views(after@), p)),
{
    let ghost fs = entry_views(from@);
    let ghost bs = entry_views(before@);
    let ghost as_ = entry_views(after@);
    let ghost start = texts(out@);
    let mut i: usize = 0;
    while i < from.len()
        invariant
            i <= from@.len(),
            fs == entry_views(from@),
            bs == entry_views(before@),
            as_ == entry_views(after@),
            forall|p: Seq<char>| #[trigger]
                texts(out@).contains(p) <==> start.contains(p) || ((exists|k: int|
                    0 <= k < i && (#[trigger] fs[k]).path == p) && is_changed(bs, as_, p)),
        decreases from@.len() - i,
    {
        let path = from[i].path.as_str();
        proof {
            assert(fs[i as int].path == path@);
        }
        let earlier = find_entry(before, path);
        let v = chars_of(path);
        let later = if starts_with_str(&v, ".ds-verification/") {
            None
        } else {
            find_entry(after, path)
        };
        let changed = match (earlier, later) {
            (Some(x), Some(y)) => !before[x].same(&after[y]),
            (None, None) => false,
            _ => true,
        };
        proof {
            assert(changed == is_changed(bs, as_, path@));
        }
        let ghost prior = texts(out@);
        if changed {
            proof {
                lemma_texts_push(out@, v);
            }
            out.push(v);
        }
        proof {
            assert forall|p: Seq<char>| #[trigger]
                texts(out@).contains(p) <==> start.contains(p) || ((exists|k: int|
                    0 <= k < i + 1 && (#[trigger] fs[k]).path == p) && is_changed(bs, as_, p)) by {
                let now = texts(out@);
                if changed {
                    assert(now == prior.push(path@));
                    assert(now[prior.len() as int] == path@);
                    if prior.contains(p) {
                        let m = choose|m: int| 0 <= m < prior.len() && prior[m] == p;
                        assert(now[m] == p);
                    }
                    if now.contains(p) && !prior.contains(p) {
                        let m = choose|m: int| 0 <= m < now.len() && now[m] == p;
                        if m < prior.len() {
                            assert(prior[m] == p);
                        }
                        assert(p == path@);
                        assert(fs[i as int].path == p);
                    }
                }
                if exists|k: int| 0 <= k < i + 1 && (#[trigger] fs[k]).path == p {
                    let k = choose|k: int| 0 <= k < i + 1 && (#[trigger] fs[k]).path == p;
                    if k < i {
                        assert(exists|k: int| 0 <= k < i && (#[trigger] fs[k]).path == p);
                    }
                }
            }
        }
        i += 1;
    }
    proof {
        assert forall|p: Seq<char>| #[trigger]
            texts(out@).contains(p) <==> start.contains(p) || (lookup(fs, p) is Some
                && is_changed(bs, as_, p)) by {
            lemma_lookup_from(fs, p, 0);
        }
    }
}

/// The paths that were added, removed or altered between two manifests, in
/// order and each once.
pub fn changed_paths(baseline: &ArtifactManifest, current: &ArtifactManifest) -> (r: Result<
    Vec<String>,
    String,
>)
    ensures
        manifest_fault(baseline@) is Some ==> r is Err && r->Err_0@ == manifest_fault(
            baseline@,
        )->0,
        manifest_fault(baseline@) is None && manifest_fault(current@) is Some ==> r is Err
            && r->Err_0@ == manifest_fault(current@)->0,
        manifest_fault(baseline@) is None && manifest_fault(current@) is None ==> r is Ok,
        r is Ok ==> is_sorted_set(strings(r->Ok_0@)) && forall|p: Seq<char>| #[trigger]
            strings(r->Ok_0@).contains(p) <==> is_changed(
                baseline@.entries,
                current@.entries,
                p,
            ),
{
    if let Err(fault) = validate_manifest(baseline) {
        return Err(fault);
    }
    if let Err(fault) = validate_manifest(current) {
        return Err(fault);
    }
    let mut found: Vec<Vec<char>> = Vec::new();
    let ghost bs = baseline@.entries;
    let ghost cs = current@.entries;
    proof {
        assert(texts(found@) =~= seq![]);
    }
    collect_changed(&mut found, &baseline.entries, &baseline.entries, &current.entries);
    collect_changed(&mut found, &current.entries, &baseline.entries, &current.entries);
    let sorted = sorted_set_of(&found);
    proof {
        lemma_sorted_set(texts(found@));
        assert forall|p: Seq<char>| #[trigger]
            texts(sorted@).contains(p) <==> is_changed(bs, cs, p) by {
            assert(texts(sorted@).contains(p) <==> texts(found@).contains(p));
            assert(!Seq::<Seq<char>>::empty().contains(p));
        }
    }
    let out = strings_of(&sorted);
    Ok(out)
}

/// Between a manifest and itself nothing changed, but for what lies under the
/// harness's own directory.
pub proof fn law_nothing_changed_in_itself(entries: Seq<EntryView>, path: Seq<char>)
    ensures
        !starts_with(path, ".ds-verification/"@) ==> !is_changed(entries, entries, path),
{
}

/// Outside the harness's own directory a change seen one way is a change seen
/// the other way.
pub proof fn law_changes_are_symmetric(
    before: Seq<EntryView>,
    after: Seq<EntryView>,
    path: Seq<char>,
)
    requires
        !starts_with(path, ".ds-verification/"@),
    ensures
        is_changed(before, after, path) == is_changed(after, before, path),
{
}

// ---------------------------------------------------------------------------
// Matching a citation

/// The length of the longest prefix that two texts share.
pub open spec fn shared_prefix(a: Seq<char>, b: Seq<char>) -> nat
    decreases a.len(),
{
    if a.len() > 0 && b.len() > 0 && a[0] == b[0] {
        1 + shared_prefix(a.drop_first(), b.drop_first())
    } else {
        0
    }
}

pub fn shared_prefix_len(a: &str, b: &str) -> (r: usize)
    ensures
        r == shared_prefix(a@, b@),
{
    let x = chars_of(a);
    let y = chars_of(b);
    shared_prefix_len_of(&x, &y)
}

fn shared_prefix_len_of(x: &Vec<char>, y: &Vec<char>) -> (r: usize)
    ensures
        r == shared_prefix(x@, y@),
{
    let mut i: usize = 0;
    proof {
        assert(x@.skip(0) =~= x@);
        assert(y@.skip(0) =~= y@);
    }
    while i < x.len() && i < y.len() && x[i] == y[i]
        invariant
            i <= x@.len(),
            i <= y@.len(),
            shared_prefix(x@, y@) == i + shared_prefix(x@.skip(i as int), y@.skip(i as int)),
        decreases x@.len() - i,
    {
        proof {
            assert(x@.skip(i as int).drop_first() =~= x@.skip(i as int + 1));
            assert(y@.skip(i as int).drop_first() =~= y@.skip(i as int + 1));
        }
        i += 1;
    }
    i
}

/// Paths with how much of a citation they share, best first.
pub open spec fn rank_insert(list: Seq<(Seq<char>, nat)>, x: (Seq<char>, nat)) -> Seq<
    (Seq<char>, nat),
>
    decreases list.len(),
{
    if list.len() > 0 && list.last().1 < x.1 {
        rank_insert(list.drop_last(), x).push(list.last())
    } else {
        list.push(x)
    }
}

/// The first `n` paths ranked by the prefix that they share with `path`; among
/// equals the earlier comes first.
pub open spec fn ranked(entries: Seq<EntryView>, path: Seq<char>, n: int) -> Seq<(Seq<char>, nat)>
    decreases n,
{
    if n <= 0 {
        seq![]
    } else {
        rank_insert(
            ranked(entries, path, n - 1),
            (entries[n - 1].path, shared_prefix(entries[n - 1].path, path)),
        )
    }
}

pub open spec fn best_of(list: Seq<(Seq<char>, nat)>) -> Seq<(Seq<char>, nat)> {
    if list.len() <= 3 {
        list
    } else {
        list.take(3)
    }
}

/// The names of the best three, in backticks.
pub open spec fn nearest_names(entries: Seq<EntryView>, path: Seq<char>) -> Seq<Seq<char>> {
    let best = best_of(ranked(entries, path, entries.len() as int));
    Seq::new(best.len(), |i: int| "`"@ + best[i].0 + "`"@)
}

/// A hint at the manifest paths closest to a citation that names none.
pub open spec fn hint(entries: Seq<EntryView>, path: Seq<char>) -> Seq<char> {
    if entries.len() == 0 {
        seq![]
    } else {
        "; nearest manifest paths: "@ + join(nearest_names(entries, path), ", "@)
    }
}

proof fn lemma_rank_insert_len(list: Seq<(Seq<char>, nat)>, x: (Seq<char>, nat))
    ensures
        rank_insert(list, x).len() == list.len() + 1,
    decreases list.len(),
{
    if list.len() > 0 && list.last().1 < x.1 {
        lemma_rank_insert_len(list.drop_last(), x);
    }
}

proof fn lemma_ranked_len(entries: Seq<EntryView>, path: Seq<char>, n: int)
    requires
        0 <= n,
    ensures
        ranked(entries, path, n).len() == n,
    decreases n,
{
    if n > 0 {
        lemma_ranked_len(entries, path, n - 1);
        lemma_rank_insert_len(
            ranked(entries, path, n - 1),
            (entries[n - 1].path, shared_prefix(entries[n - 1].path, path)),
        );
    }
}

/// A ranked list has its scores in descending order.
pub open spec fn is_ranked(list: Seq<(Seq<char>, nat)>) -> bool {
    forall|i: int, j: int| 0 <= i < j < list.len() ==> (#[trigger] list[i]).1 >= (
    #[trigger] list[j]).1
}

proof fn lemma_rank_insert_ranked(list: Seq<(Seq<char>, nat)>, x: (Seq<char>, nat))
    requires
        is_ranked(list),
    ensures
        is_ranked(rank_insert(list, x)),
        forall|k: int|
            0 <= k < rank_insert(list, x).len() ==> (#[trigger] rank_insert(list, x)[k]) == x
                || list.contains(rank_insert(list, x)[k]),
    decreases list.len(),
{
    let r = rank_insert(list, x);
    lemma_rank_insert_len(list, x);
    if list.len() > 0 && list.last().1 < x.1 {
        let t = list.drop_last();
        let z = list[list.len() - 1];
        assert forall|i: int, j: int| 0 <= i < j < t.len() implies (#[trigger] t[i]).1 >= (
        #[trigger] t[j]).1 by {
            assert(list[i].1 >= list[j].1);
        }
        lemma_rank_insert_ranked(t, x);
        lemma_rank_insert_len(t, x);
        let u = rank_insert(t, x);
        assert forall|k: int| 0 <= k < r.len() implies (#[trigger] r[k]) == x || list.contains(
            r[k],
        ) by {
            if k < u.len() {
                assert(u[k] == x || t.contains(u[k]));
                if t.contains(u[k]) {
                    let m = choose|m: int| 0 <= m < t.len() && t[m] == u[k];
                    assert(list[m] == r[k]);
                }
            } else {
                assert(r[k] == z);
            }
        }
        assert forall|i: int, j: int| 0 <= i < j < r.len() implies (#[trigger] r[i]).1 >= (
        #[trigger] r[j]).1 by {
            assert(r[i] == u[i]);
            if j < u.len() {
                assert(r[j] == u[j]);
            } else {
                assert(u[i] == x || t.contains(u[i]));
                if t.contains(u[i]) {
                    let m = choose|m: int| 0 <= m < t.len() && t[m] == u[i];
                    assert(list[m].1 >= list[list.len() - 1].1);
                }
            }
        }
    } else {
        assert forall|k: int| 0 <= k < r.len() implies (#[trigger] r[k]) == x || list.contains(
            r[k],
        ) by {
            if k < list.len() {
                assert(list[k] == r[k]);
            }
        }
        assert forall|i: int, j: int| 0 <= i < j < r.len() implies (#[trigger] r[i]).1 >= (
        #[trigger] r[j]).1 by {
            assert(r[i] == list[i]);
            if j < list.len() {
                assert(r[j] == list[j]);
            } else {
                if i < list.len() - 1 {
                    assert(list[i].1 >= list[list.len() - 1].1);
                }
            }
        }
    }
}

proof fn lemma_ranked_is_ranked(entries: Seq<EntryView>, path: Seq<char>, n: int)
    requires
        0 <= n,
    ensures
        is_ranked(ranked(entries, path, n)),
    decreases n,
{
    if n > 0 {
        lemma_ranked_is_ranked(entries, path, n - 1);
        lemma_rank_insert_ranked(
            ranked(entries, path, n - 1),
            (entries[n - 1].path, shared_prefix(entries[n - 1].path, path)),
        );
    }
}

/// Only the best three matter to the best three of a longer list.
proof fn lemma_best_of_insert(list: Seq<(Seq<char>, nat)>, x: (Seq<char>, nat))
    requires
        is_ranked(list),
    ensures
        best_of(rank_insert(list, x)) == best_of(rank_insert(best_of(list), x)),
    decreases list.len(),
{
    lemma_rank_insert_len(list, x);
    lemma_rank_insert_len(best_of(list), x);
    if list.len() > 3 {
        let t = list.drop_last();
        assert forall|i: int, j: int| 0 <= i < j < t.len() implies (#[trigger] t[i]).1 >= (
        #[trigger] t[j]).1 by {
            assert(list[i].1 >= list[j].1);
        }
        lemma_best_of_insert(t, x);
        lemma_rank_insert_len(t, x);
        assert(best_of(t) =~= best_of(list));
        if list.last().1 < x.1 {
            assert(rank_insert(list, x).take(3) =~= rank_insert(t, x).take(3));
        } else {
            let b = best_of(list);
            assert(list[2].1 >= list[list.len() - 1].1);
            assert(b.last() == list[2]);
            assert(rank_insert(b, x) == b.push(x));
            assert(rank_insert(list, x).take(3) =~= b);
            assert(b.push(x).take(3) =~= b);
        }
    }
}

fn rank_insert_of(list: &mut Vec<(Vec<char>, usize)>, x: (Vec<char>, usize))
    ensures
        ranks(final(list)@) == rank_insert(ranks(old(list)@), (x.0@, x.1 as nat)),
{
    let ghost all = ranks(list@);
    let ghost y = (x.0@, x.1 as nat);
    let mut pos: usize = list.len();
    proof {
        assert(all.take(pos as int) =~= all);
        assert(rank_insert(all, y) + all.skip(pos as int) =~= rank_insert(all, y));
    }
    while pos > 0 && list[pos - 1].1 < x.1
        invariant
            pos <= list@.len(),
            list@ == old(list)@,
            all == ranks(list@),
            y == (x.0@, x.1 as nat),
            rank_insert(all, y) == rank_insert(all.take(pos as int), y) + all.skip(pos as int),
        decreases pos,
    {
        proof {
            let t = all.take(pos as int);
            assert(t.last() == all[pos - 1]);
            assert(t.drop_last() =~= all.take(pos - 1));
            assert(rank_insert(all.take(pos - 1), y).push(t.last()) + all.skip(pos as int)
                =~= rank_insert(all.take(pos - 1), y) + all.skip(pos - 1));
        }
        pos -= 1;
    }
    proof {
        let t = all.take(pos as int);
        if pos > 0 {
            assert(t.last() == all[pos - 1]);
        }
        assert(rank_insert(t, y) == t.push(y));
        assert(ranks(list@.insert(pos as int, x)) =~= t.push(y) + all.skip(pos as int));
    }
    list.insert(pos, x);
}

spec fn ranks(list: Seq<(Vec<char>, usize)>) -> Seq<(Seq<char>, nat)> {
    Seq::new(list.len(), |i: int| (list[i].0@, list[i].1 as nat))
}

pub fn manifest_hint(manifest: &ArtifactManifest, path: &str) -> (r: String)
    ensures
        r@ == hint(manifest@.entries, path@),
{
    let ghost es = manifest@.entries;
    proof {
        assert(es.len() == manifest.entries@.len());
    }
    if manifest.entries.len() == 0 {
        let empty = String::new();
        proof {
            assert(empty@ =~= seq![]);
        }
        return empty;
    }
    let target = chars_of(path);
    let mut best: Vec<(Vec<char>, usize)> = Vec::new();
    let mut n: usize = 0;
    proof {
        assert(ranks(best@) =~= best_of(ranked(es, path@, 0)));
    }
    while n < manifest.entries.len()
        invariant
            n <= manifest.entries@.len(),
            es == manifest@.entries,
            target@ == path@,
            best@.len() <= 3,
            ranks(best@) == best_of(ranked(es, path@, n as int)),
        decreases manifest.entries@.len() - n,
    {
        let candidate = chars_of(manifest.entries[n].path.as_str());
        let score = shared_prefix_len_of(&candidate, &target);
        proof {
            let x = (es[n as int].path, shared_prefix(es[n as int].path, path@));
            assert(candidate@ == es[n as int].path);
            lemma_ranked_is_ranked(es, path@, n as int);
            lemma_best_of_insert(ranked(es, path@, n as int), x);
            lemma_rank_insert_len(ranks(best@), x);
            lemma_rank_insert_len(ranked(es, path@, n as int), x);
        }
        rank_insert_of(&mut best, (candidate, score));
        proof {
            assert(ranks(best@).len() == best@.len());
        }
        if best.len() > 3 {
            let ghost longer = best@;
            best.pop();
            proof {
                assert(ranks(best@) =~= ranks(longer).take(3));
            }
        }
        n += 1;
    }
    let mut names: Vec<Vec<char>> = Vec::new();
    let mut i: usize = 0;
    let ghost wanted = nearest_names(es, path@);
    proof {
        assert(es.len() == manifest.entries@.len());
        assert(ranks(best@).len() == best@.len());
    }
    while i < best.len()
        invariant
            i <= best@.len(),
            names@.len() == i,
            ranks(best@) == best_of(ranked(es, path@, es.len() as int)),
            wanted == nearest_names(es, path@),
            wanted.len() == best@.len(),
            forall|k: int| 0 <= k < i ==> (#[trigger] names@[k])@ == wanted[k],
        decreases best@.len() - i,
    {
        let mut name = chars_of("`");
        append(&mut name, &best[i].0);
        append_str(&mut name, "`");
        proof {
            assert(ranks(best@)[i as int].0 == best@[i as int].0@);
            assert(name@ == wanted[i as int]);
        }
        names.push(name);
        i += 1;
    }
    proof {
        assert(texts(names@) =~= wanted);
    }
    let list = string_of(&join_of(&names, ", "));
    cat2("; nearest manifest paths: ", list.as_str())
}

pub fn ellipsize(text: &str, max_chars: usize) -> (r: String)
    ensures
        r@ == ellipsized(text@, max_chars as int),
{
    let v = chars_of(text);
    string_of(&ellipsized_of(&v, max_chars))
}

/// Why a cited revision of an artifact is not the reviewed one.
pub open spec fn citation_fault(m: ManifestView, path: Seq<char>, sha256: Seq<char>) -> Option<
    Seq<char>,
> {
    match lookup(m.entries, path) {
        None => Some(
            "cites artifact `"@ + path + "` which is not part of the reviewed manifest"@ + hint(
                m.entries,
                path,
            ),
        ),
        Some(entry) => if entry.kind != ArtifactKind::File {
            Some(
                "cites artifact `"@ + path
                    + "` which is not a regular file in the reviewed manifest"@,
            )
        } else {
            match canonical_digest(sha256) {
                None => Some(
                    "has a malformed artifact digest for `"@ + path
                        + "` (expected `sha256:<64 hex>` or a bare 64-hex digest; got `"@
                        + ellipsized(trim(sha256), 80) + "`)"@,
                ),
                Some(cited) => {
                    let recorded = recorded_digest(entry);
                    if same_ignoring_case(recorded, cited) {
                        None
                    } else {
                        Some(
                            "cites a stale or unknown revision of `"@ + path + "` (cited "@ + cited
                                + ", manifest records "@ + recorded + ")"@,
                        )
                    }
                },
            }
        },
    }
}

pub open spec fn recorded_digest(entry: EntryView) -> Seq<char> {
    match entry.sha256 {
        Some(digest) => digest,
        None => seq![],
    }
}

/// Holds a cited path and digest against the manifest, with a reason of its
/// own for every way in which they can fail to match.
pub fn match_entry_diagnostic(manifest: &ArtifactManifest, path: &str, sha256: &str) -> (r: Result<
    (),
    String,
>)
    ensures
        match citation_fault(manifest@, path@, sha256@) {
            Some(fault) => r is Err && r->Err_0@ == fault,
            None => r is Ok,
        },
{
    let entry = match find_entry(&manifest.entries, path) {
        Some(i) => &manifest.entries[i],
        None => {
            let near = manifest_hint(manifest, path);
            return Err(
                cat4(
                    "cites artifact `",
                    path,
                    "` which is not part of the reviewed manifest",
                    near.as_str(),
                ),
            );
        },
    };
    if entry.kind != ArtifactKind::File {
        return Err(
            cat3(
                "cites artifact `",
                path,
                "` which is not a regular file in the reviewed manifest",
            ),
        );
    }
    let cited = match normalize_sha256(sha256) {
        Some(cited) => cited,
        None => {
            let shown = ellipsize(trim_str(sha256).as_str(), 80);
            return Err(
                cat5(
                    "has a malformed artifact digest for `",
                    path,
                    "` (expected `sha256:<64 hex>` or a bare 64-hex digest; got `",
                    shown.as_str(),
                    "`)",
                ),
            );
        },
    };
    let recorded = match &entry.sha256 {
        Some(digest) => digest.clone(),
        None => {
            let none = String::new();
            proof {
                assert(none@ =~= seq![]);
            }
            none
        },
    };
    let rv = chars_of(recorded.as_str());
    if !is_text_ignoring_case(&rv, cited.as_str()) {
        let head = cat4("cites a stale or unknown revision of `", path, "` (cited ", cited.as_str());
        return Err(cat4(head.as_str(), ", manifest records ", recorded.as_str(), ")"));
    }
    Ok(())
}

// ---------------------------------------------------------------------------
// Verifying a reviewed tree

/// Whether bytes are those that a file entry records.
pub open spec fn bytes_match(entry: EntryView, bytes: Seq<u8>) -> bool {
    bytes.len() == entry.byte_len && entry.sha256 == Some(digest_text(bytes))
}

fn bytes_match_of(entry: &ArtifactEntry, bytes: &Vec<u8>) -> (r: bool)
    ensures
        r == bytes_match(entry@, bytes@),
{
    if bytes.len() as u64 != entry.byte_len {
        return false;
    }
    match &entry.sha256 {
        Some(recorded) => {
            let digest = digest_bytes(bytes.as_slice());
            same_str(recorded.as_str(), digest.as_str())
        },
        None => false,
    }
}

/// Accepts the bytes of a file that is being copied into a snapshot only where
/// they are still those that were captured.
pub fn check_copied_bytes(entry: &ArtifactEntry, bytes: &Vec<u8>) -> (r: Result<(), String>)
    ensures
        r is Ok <==> bytes_match(entry@, bytes@),
        r is Err ==> r->Err_0@ == "artifact "@ + entry.path@ + " changed during snapshot"@,
{
    if bytes_match_of(entry, bytes) {
        Ok(())
    } else {
        Err(cat3("artifact ", entry.path.as_str(), " changed during snapshot"))
    }
}

/// What was found at a path of a reviewed tree.
#[derive(Debug)]
pub enum ObservedState {
    File { bytes: Vec<u8>, executable: bool },
    Symlink { target: Option<String> },
    Other,
    /// It could not be read, for the reason given.
    Unreadable { message: String },
}

#[derive(Debug)]
pub struct ObservedArtifact {
    pub path: String,
    pub state: ObservedState,
}

/// How an observed artifact differs from what the manifest records of it.
pub open spec fn observed_fault(entry: EntryView, state: ObservedState) -> Option<Seq<char>> {
    match (state, entry.kind) {
        (ObservedState::Unreadable { message }, _) => Some(message@),
        (_, ArtifactKind::Missing) => Some(
            "expected-missing artifact "@ + entry.path + " exists"@,
        ),
        (ObservedState::File { bytes, executable }, ArtifactKind::File) => if bytes_match(
            entry,
            bytes@,
        ) && executable == entry.executable {
            None
        } else {
            Some("reviewed artifact "@ + entry.path + " changed"@)
        },
        (ObservedState::Symlink { target }, ArtifactKind::Symlink) => if opt(target)
            == entry.symlink_target {
            None
        } else {
            Some("reviewed symlink "@ + entry.path + " changed"@)
        },
        _ => Some("reviewed artifact "@ + entry.path + " changed type"@),
    }
}

pub fn verify_entry(entry: &ArtifactEntry, state: &ObservedState) -> (r: Result<(), String>)
    ensures
        match observed_fault(entry@, *state) {
            Some(fault) => r is Err && r->Err_0@ == fault,
            None => r is Ok,
        },
{
    match state {
        ObservedState::Unreadable { message } => Err(message.clone()),
        ObservedState::File { bytes, executable } => {
            match entry.kind {
                ArtifactKind::File => {
                    if bytes_match_of(entry, bytes) && *executable == entry.executable {
                        Ok(())
                    } else {
                        Err(cat3("reviewed artifact ", entry.path.as_str(), " changed"))
                    }
                },
                ArtifactKind::Missing => Err(
                    cat3("expected-missing artifact ", entry.path.as_str(), " exists"),
                ),
                ArtifactKind::Symlink => Err(
                    cat3("reviewed artifact ", entry.path.as_str(), " changed type"),
                ),
            }
        },
        ObservedState::Symlink { target } => {
            match entry.kind {
                ArtifactKind::Symlink => {
                    if same_opt(target, &entry.symlink_target) {
                        Ok(())
                    } else {
                        Err(cat3("reviewed symlink ", entry.path.as_str(), " changed"))
                    }
                },
                ArtifactKind::Missing => Err(
                    cat3("expected-missing artifact ", entry.path.as_str(), " exists"),
                ),
                ArtifactKind::File => Err(
                    cat3("reviewed artifact ", entry.path.as_str(), " changed type"),
                ),
            }
        },
        ObservedState::Other => {
            match entry.kind {
                ArtifactKind::Missing => Err(
                    cat3("expected-missing artifact ", entry.path.as_str(), " exists"),
                ),
                _ => Err(cat3("reviewed artifact ", entry.path.as_str(), " changed type")),
            }
        },
    }
}

/// The first fault among the observed artifacts from `i` on.
pub open spec fn walk_fault_from(
    entries: Seq<EntryView>,
    observed: Seq<ObservedArtifact>,
    i: int,
) -> Option<Seq<char>>
    decreases observed.len() - i,
{
    if i < 0 || i >= observed.len() {
        None
    } else {
        let path = observed[i].path@;
        if path == manifest_path() {
            walk_fault_from(entries, observed, i + 1)
        } else {
            match lookup(entries, path) {
                None => Some("reviewed snapshot contains unexpected artifact "@ + path),
                Some(entry) => match observed_fault(entry, observed[i].state) {
                    Some(fault) => Some(fault),
                    None => walk_fault_from(entries, observed, i + 1),
                },
            }
        }
    }
}

/// Whether the walk came across this path, the manifest itself aside.
pub open spec fn was_observed(observed: Seq<ObservedArtifact>, path: Seq<char>) -> bool {
    path != manifest_path() && exists|k: int|
        0 <= k < observed.len() && (#[trigger] observed[k]).path@ == path
}

/// The first entry from `i` on that the tree contradicts. `exists_at` says
/// whether anything stands at the path of each entry.
pub open spec fn presence_fault_from(
    entries: Seq<EntryView>,
    observed: Seq<ObservedArtifact>,
    exists_at: Seq<bool>,
    i: int,
) -> Option<Seq<char>>
    decreases entries.len() - i,
{
    if i < 0 || i >= entries.len() {
        None
    } else if entries[i].kind == ArtifactKind::Missing && exists_at[i] {
        Some("expected-missing artifact "@ + entries[i].path + " now exists"@)
    } else if entries[i].kind != ArtifactKind::Missing && !was_observed(
        observed,
        entries[i].path,
    ) {
        Some("reviewed artifact "@ + entries[i].path + " is missing"@)
    } else {
        presence_fault_from(entries, observed, exists_at, i + 1)
    }
}

/// Why a stored manifest is not the one that is expected.
pub open spec fn stored_fault(m: ManifestView, stored: Result<ArtifactManifest, String>) -> Option<
    Seq<char>,
> {
    match stored {
        Err(message) => Some(message@),
        Ok(found) => match manifest_fault(found@) {
            Some(fault) => Some(fault),
            None => if found@ == m {
                None
            } else {
                Some("reviewed snapshot manifest changed"@)
            },
        },
    }
}

/// Why a tree is not the reviewed snapshot that a manifest describes.
pub open spec fn tree_fault(
    m: ManifestView,
    observed: Seq<ObservedArtifact>,
    exists_at: Seq<bool>,
    stored: Result<ArtifactManifest, String>,
) -> Option<Seq<char>> {
    if manifest_fault(m) is Some {
        manifest_fault(m)
    } else if walk_fault_from(m.entries, observed, 0) is Some {
        walk_fault_from(m.entries, observed, 0)
    } else if presence_fault_from(m.entries, observed, exists_at, 0) is Some {
        presence_fault_from(m.entries, observed, exists_at, 0)
    } else {
        stored_fault(m, stored)
    }
}

fn walk_fault(entries: &Vec<ArtifactEntry>, observed: &Vec<ObservedArtifact>) -> (r: Option<String>)
    ensures
        opt(r) == walk_fault_from(entry_views(entries@), observed@, 0),
{
    let ghost es = entry_views(entries@);
    let mut i: usize = 0;
    while i < observed.len()
        invariant
            i <= observed@.len(),
            es == entry_views(entries@),
            walk_fault_from(es, observed@, 0) == walk_fault_from(es, observed@, i as int),
        decreases observed@.len() - i,
    {
        let path = observed[i].path.as_str();
        if !same_str(path, snapshot_manifest_path().as_str()) {
            match find_entry(entries, path) {
                None => {
                    return Some(cat2("reviewed snapshot contains unexpected artifact ", path));
                },
                Some(k) => {
                    if let Err(fault) = verify_entry(&entries[k], &observed[i].state) {
                        return Some(fault);
                    }
                },
            }
        }
        i += 1;
    }
    None
}

fn was_observed_of(observed: &Vec<ObservedArtifact>, path: &str) -> (r: bool)
    ensures
        r == was_observed(observed@, path@),
{
    if same_str(path, snapshot_manifest_path().as_str()) {
        return false;
    }
    let mut i: usize = 0;
    while i < observed.len()
        invariant
            i <= observed@.len(),
            path@ != manifest_path(),
            forall|k: int| 0 <= k < i ==> (#[trigger] observed@[k]).path@ != path@,
        decreases observed@.len() - i,
    {
        if same_str(observed[i].path.as_str(), path) {
            return true;
        }
        i += 1;
    }
    false
}

fn presence_fault(
    entries: &Vec<ArtifactEntry>,
    observed: &Vec<ObservedArtifact>,
    exists_at: &Vec<bool>,
) -> (r: Option<String>)
    requires
        exists_at@.len() == entries@.len(),
    ensures
        opt(r) == presence_fault_from(entry_views(entries@), observed@, exists_at@, 0),
{
    let ghost es = entry_views(entries@);
    let mut i: usize = 0;
    while i < entries.len()
        invariant
            i <= entries@.len() == exists_at@.len(),
            es == entry_views(entries@),
            presence_fault_from(es, observed@, exists_at@, 0) == presence_fault_from(
                es,
                observed@,
                exists_at@,
                i as int,
            ),
        decreases entries@.len() - i,
    {
        let entry = &entries[i];
        proof {
            assert(es[i as int] == entry@);
        }
        if entry.kind == ArtifactKind::Missing {
            if exists_at[i] {
                return Some(
                    cat3("expected-missing artifact ", entry.path.as_str(), " now exists"),
                );
            }
        } else if !was_observed_of(observed, entry.path.as_str()) {
            return Some(cat3("reviewed artifact ", entry.path.as_str(), " is missing"));
        }
        i += 1;
    }
    None
}

/// Accepts a tree only where it is exactly the snapshot that the manifest
/// describes. `observed` is what a walk through it found apart from
/// directories, `exists_at` says of each entry whether anything stands at its
/// path, and `stored` is the manifest that the tree holds.
pub fn verify_reviewed_snapshot(
    manifest: &ArtifactManifest,
    observed: &Vec<ObservedArtifact>,
    exists_at: &Vec<bool>,
    stored: &Result<ArtifactManifest, String>,
) -> (r: Result<(), String>)
    requires
        exists_at@.len() == manifest.entries@.len(),
    ensures
        match tree_fault(manifest@, observed@, exists_at@, *stored) {
            Some(fault) => r is Err && r->Err_0@ == fault,
            None => r is Ok,
        },
{
    if let Err(fault) = validate_manifest(manifest) {
        return Err(fault);
    }
    if let Some(fault) = walk_fault(&manifest.entries, observed) {
        return Err(fault);
    }
    if let Some(fault) = presence_fault(&manifest.entries, observed, exists_at) {
        return Err(fault);
    }
    match stored {
        Err(message) => Err(message.clone()),
        Ok(found) => {
            if let Err(fault) = validate_manifest(found) {
                return Err(fault);
            }
            if found.same(manifest) {
                Ok(())
            } else {
                Err("reviewed snapshot manifest changed".to_owned())
            }
        },
    }
}

proof fn lemma_walk_matches(entries: Seq<EntryView>, observed: Seq<ObservedArtifact>, i: int, k: int)
    requires
        0 <= i <= k < observed.len(),
        walk_fault_from(entries, observed, i) is None,
        observed[k].path@ != manifest_path(),
    ensures
        lookup(entries, observed[k].path@) is Some,
        observed_fault(lookup(entries, observed[k].path@)->0, observed[k].state) is None,
    decreases k - i,
{
    if i < k {
        lemma_walk_matches(entries, observed, i + 1, k);
    }
}

proof fn lemma_presence(
    entries: Seq<EntryView>,
    observed: Seq<ObservedArtifact>,
    exists_at: Seq<bool>,
    i: int,
    k: int,
)
    requires
        0 <= i <= k < entries.len(),
        presence_fault_from(entries, observed, exists_at, i) is None,
    ensures
        entries[k].kind == ArtifactKind::Missing ==> !exists_at[k],
        entries[k].kind != ArtifactKind::Missing ==> was_observed(observed, entries[k].path),
    decreases k - i,
{
    if i < k {
        lemma_presence(entries, observed, exists_at, i + 1, k);
    }
}

/// A tree that passes is bound to the manifest in content: every file that the
/// manifest records is there with exactly the bytes whose digest it records,
/// and nothing else is there.
pub proof fn law_verified_tree_is_content_bound(
    m: ManifestView,
    observed: Seq<ObservedArtifact>,
    exists_at: Seq<bool>,
    stored: Result<ArtifactManifest, String>,
)
    requires
        exists_at.len() == m.entries.len(),
        tree_fault(m, observed, exists_at, stored) is None,
    ensures
        forall|k: int|
            0 <= k < observed.len() && (#[trigger] observed[k]).path@ != manifest_path()
                ==> lookup(m.entries, observed[k].path@) is Some && observed_fault(
                lookup(m.entries, observed[k].path@)->0,
                observed[k].state,
            ) is None,
        forall|k: int|
            0 <= k < m.entries.len() && (#[trigger] m.entries[k]).kind != ArtifactKind::Missing
                ==> was_observed(observed, m.entries[k].path),
        forall|k: int|
            0 <= k < m.entries.len() && (#[trigger] m.entries[k]).kind == ArtifactKind::Missing
                ==> !exists_at[k],
{
    assert forall|k: int|
        0 <= k < observed.len() && (#[trigger] observed[k]).path@
            != manifest_path() implies lookup(m.entries, observed[k].path@) is Some
        && observed_fault(lookup(m.entries, observed[k].path@)->0, observed[k].state) is None by {
        lemma_walk_matches(m.entries, observed, 0, k);
    }
    assert forall|k: int|
        0 <= k < m.entries.len() && (#[trigger] m.entries[k]).kind
            != ArtifactKind::Missing implies was_observed(observed, m.entries[k].path) by {
        lemma_presence(m.entries, observed, exists_at, 0, k);
    }
    assert forall|k: int|
        0 <= k < m.entries.len() && (#[trigger] m.entries[k]).kind
            == ArtifactKind::Missing implies !exists_at[k] by {
        lemma_presence(m.entries, observed, exists_at, 0, k);
    }
}

proof fn lemma_walk_accepts(entries: Seq<EntryView>, observed: Seq<ObservedArtifact>, i: int)
    requires
        0 <= i <= observed.len(),
        forall|k: int|
            0 <= k < observed.len() && (#[trigger] observed[k]).path@ != manifest_path()
                ==> lookup(entries, observed[k].path@) is Some && observed_fault(
                lookup(entries, observed[k].path@)->0,
                observed[k].state,
            ) is None,
    ensures
        walk_fault_from(entries, observed, i) is None,
    decreases observed.len() - i,
{
    if i < observed.len() {
        lemma_walk_accepts(entries, observed, i + 1);
        assert(observed[i].path@ == observed[i].path@);
    }
}

proof fn lemma_presence_accepts(
    entries: Seq<EntryView>,
    observed: Seq<ObservedArtifact>,
    exists_at: Seq<bool>,
    i: int,
)
    requires
        0 <= i <= entries.len(),
        forall|k: int|
            0 <= k < entries.len() ==> if (#[trigger] entries[k]).kind == ArtifactKind::Missing {
                !exists_at[k]
            } else {
                was_observed(observed, entries[k].path)
            },
    ensures
        presence_fault_from(entries, observed, exists_at, i) is None,
    decreases entries.len() - i,
{
    if i < entries.len() {
        lemma_presence_accepts(entries, observed, exists_at, i + 1);
        assert(entries[i].kind == entries[i].kind);
    }
}

/// A tree that holds what the manifest records, no more and no less, passes: a
/// snapshot that was copied whole is never turned down.
pub proof fn law_matching_tree_is_accepted(
    m: ManifestView,
    observed: Seq<ObservedArtifact>,
    exists_at: Seq<bool>,
    stored: ArtifactManifest,
)
    requires
        manifest_fault(m) is None,
        stored@ == m,
        forall|k: int|
            0 <= k < observed.len() && (#[trigger] observed[k]).path@ != manifest_path()
                ==> lookup(m.entries, observed[k].path@) is Some && observed_fault(
                lookup(m.entries, observed[k].path@)->0,
                observed[k].state,
            ) is None,
        forall|k: int|
            0 <= k < m.entries.len() ==> if (#[trigger] m.entries[k]).kind
                == ArtifactKind::Missing {
                !exists_at[k]
            } else {
                was_observed(observed, m.entries[k].path)
            },
    ensures
        tree_fault(m, observed, exists_at, Ok(stored)) is None,
{
    lemma_walk_accepts(m.entries, observed, 0);
    lemma_presence_accepts(m.entries, observed, exists_at, 0);
}

/// A file and a symlink that were copied as they were recorded pass.
pub proof fn law_copied_artifacts_pass(path: Seq<char>, state: ObservedState)
    ensures
        state is File ==> observed_fault(
            file_entry(path, state->bytes@, state->executable),
            state,
        ) is None,
        state is Symlink && state->target is Some ==> observed_fault(
            symlink_entry(path, state->target->0@),
            state,
        ) is None,
{
    if state is File {
        assert(state->bytes.len() == state->bytes@.len());
    }
}

/// A file whose bytes are no longer those that were recorded makes the tree fail,
/// whatever else it holds: their number or their digest gives them away.
pub proof fn law_changed_bytes_are_refused(
    m: ManifestView,
    observed: Seq<ObservedArtifact>,
    exists_at: Seq<bool>,
    stored: Result<ArtifactManifest, String>,
    k: int,
    recorded: Seq<u8>,
    recorded_as_executable: bool,
)
    requires
        0 <= k < observed.len(),
        observed[k].path@ != manifest_path(),
        observed[k].state is File,
        lookup(m.entries, observed[k].path@) == Some(
            file_entry(observed[k].path@, recorded, recorded_as_executable),
        ),
        observed[k].state->bytes@.len() != recorded.len() || digest_text(
            observed[k].state->bytes@,
        ) != digest_text(recorded),
        recorded.len() <= u64::MAX,
    ensures
        tree_fault(m, observed, exists_at, stored) is Some,
{
    if tree_fault(m, observed, exists_at, stored) is None {
        lemma_walk_matches(m.entries, observed, 0, k);
    }
}

// ---------------------------------------------------------------------------
// The snapshot of a round

/// A frozen copy of a workspace: where it stands, where its manifest stands, and
/// the manifest.
#[derive(Debug)]
pub struct ReviewedSnapshot {
    pub root: String,
    pub manifest_path: String,
    pub manifest: ArtifactManifest,
}

#[verifier::ext_equal]
pub struct SnapshotView {
    pub root: Seq<char>,
    pub manifest_path: Seq<char>,
    pub manifest: ManifestView,
}

impl View for ReviewedSnapshot {
    type V = SnapshotView;

    open spec fn view(&self) -> SnapshotView {
        SnapshotView {
            root: self.root@,
            manifest_path: self.manifest_path@,
            manifest: self.manifest@,
        }
    }
}

pub open spec fn document_entry(document: VirtualArtifact) -> EntryView {
    file_entry(document.path@, document.bytes@, false)
}

/// Entries followed by those of the first `n` documents of the round.
pub open spec fn with_documents(
    entries: Seq<EntryView>,
    documents: Seq<VirtualArtifact>,
    n: int,
) -> Seq<EntryView> {
    entries + documents.take(n).map_values(|d: VirtualArtifact| document_entry(d))
}

/// What keeps the first faulty document from `i` on out of a snapshot.
pub open spec fn documents_fault_from(
    entries: Seq<EntryView>,
    documents: Seq<VirtualArtifact>,
    i: int,
) -> Option<Seq<char>>
    decreases documents.len() - i,
{
    if i < 0 || i >= documents.len() {
        None
    } else {
        match virtual_fault(with_documents(entries, documents, i), documents[i].path@) {
            Some(fault) => Some(fault),
            None => documents_fault_from(entries, documents, i + 1),
        }
    }
}

/// The snapshot of a round: the captured workspace and the documents of the
/// round, under a root of its own.
pub open spec fn snapshot_of_round(
    scratch_root: Seq<char>,
    round_id: Seq<char>,
    captured: ManifestView,
    documents: Seq<VirtualArtifact>,
) -> SnapshotView {
    SnapshotView {
        root: review_dir(scratch_root, round_id),
        manifest_path: join_path(review_dir(scratch_root, round_id), manifest_path()),
        manifest: sealed(
            ManifestView {
                entries: with_documents(captured.entries, documents, documents.len() as int),
                ..captured
            },
        ),
    }
}

/// Lays out the snapshot of a round.
pub fn reviewed_snapshot(
    scratch_root: &str,
    round_id: &str,
    captured: ArtifactManifest,
    documents: &Vec<VirtualArtifact>,
) -> (r: Result<ReviewedSnapshot, String>)
    ensures
        if !is_uuid(round_id@) {
            r is Err && r->Err_0@ == "verification round id is not a UUID"@
        } else {
            match documents_fault_from(captured@.entries, documents@, 0) {
                Some(fault) => r is Err && r->Err_0@ == fault,
                None => {
                    &&& r is Ok
                    &&& r->Ok_0@ == snapshot_of_round(
                        scratch_root@,
                        round_id@,
                        captured@,
                        documents@,
                    )
                    &&& round_id@.len() > 0 && !has_char(round_id@, '/')
                    &&& manifest_fault(captured@) is None && captured@.entries.len()
                        + documents@.len() <= MAX_FILES + 16 ==> manifest_fault(
                        r->Ok_0@.manifest,
                    ) is None
                },
            }
        },
{
    if let Err(fault) = check_round_id(round_id) {
        return Err(fault);
    }
    let mut manifest = captured;
    let ghost entries = captured@.entries;
    let mut i: usize = 0;
    proof {
        assert(with_documents(entries, documents@, 0) =~= entries);
        if manifest_fault(captured@) is None {
            lemma_faultless_is_sound(entries, 0);
        }
    }
    while i < documents.len()
        invariant
            i <= documents@.len(),
            is_uuid(round_id@),
            entries == captured@.entries,
            manifest@ == (ManifestView {
                entries: with_documents(entries, documents@, i as int),
                ..captured@
            }),
            documents_fault_from(entries, documents@, 0) == documents_fault_from(
                entries,
                documents@,
                i as int,
            ),
            manifest_fault(captured@) is None ==> entries_sound(manifest@.entries),
        decreases documents@.len() - i,
    {
        let ghost before = manifest@.entries;
        if let Err(fault) = add_virtual_artifact(&mut manifest, &documents[i]) {
            return Err(fault);
        }
        proof {
            let after = manifest@.entries;
            assert(after =~= with_documents(entries, documents@, i + 1));
            if manifest_fault(captured@) is None {
                let path = documents@[i as int].path@;
                lemma_lookup_from(before, path, 0);
                assert forall|a: int| 0 <= a < after.len() implies !is_unsafe_relative(
                    (#[trigger] after[a]).path,
                ) && metadata_fit(after[a]) by {
                    if a < before.len() {
                        assert(after[a] == before[a]);
                    }
                }
                assert forall|a: int, b: int| 0 <= a < b < after.len() implies (
                #[trigger] after[a]).path != (#[trigger] after[b]).path by {
                    assert(after[a] == before[a]);
                    if b < before.len() {
                        assert(after[b] == before[b]);
                    }
                }
            }
        }
        i += 1;
    }
    let ghost unsorted = manifest@.entries;
    seal(&mut manifest);
    proof {
        if manifest_fault(captured@) is None && entries.len() + documents@.len() <= MAX_FILES + 16 {
            lemma_sorted_entries_sound(unsorted);
            lemma_sound_from(manifest@.entries, 0);
        }
    }
    let root = round_review_dir(scratch_root, round_id);
    let at = path_join(root.as_str(), snapshot_manifest_path().as_str());
    Ok(ReviewedSnapshot { root, manifest_path: at, manifest })
}

/// What a workspace holds at a path.
pub enum Seen {
    Missing,
    Symlink { target: Seq<char> },
    File { bytes: Seq<u8>, executable: bool },
}

/// The entry that a capture records for what it saw.
pub open spec fn entry_seen(path: Seq<char>, seen: Seen) -> EntryView {
    match seen {
        Seen::Missing => missing_entry(path),
        Seen::Symlink { target } => symlink_entry(path, target),
        Seen::File { bytes, executable } => file_entry(path, bytes, executable),
    }
}

/// The manifest of a workspace that holds this at the paths in scope.
pub open spec fn manifest_seen(scope: Seq<Seq<char>>, seen: Seq<Seen>) -> ManifestView {
    manifest_of(Seq::new(scope.len(), |i: int| entry_seen(scope[i], seen[i])))
}

/// Two rounds on a workspace that holds the same both times have the same
/// manifest, with the same digest, and stand under different roots.
pub proof fn law_rounds_on_an_unchanged_workspace_agree(
    scratch_root: Seq<char>,
    first: Seq<char>,
    second: Seq<char>,
    scope: Seq<Seq<char>>,
    seen_first: Seq<Seen>,
    seen_second: Seq<Seen>,
    documents: Seq<VirtualArtifact>,
)
    requires
        first.len() > 0 && !has_char(first, '/'),
        second.len() > 0 && !has_char(second, '/'),
        first != second,
        forall|i: int| 0 <= i < scope.len() ==> #[trigger] seen_first[i] == seen_second[i],
    ensures
        snapshot_of_round(
            scratch_root,
            first,
            manifest_seen(scope, seen_first),
            documents,
        ).manifest == snapshot_of_round(
            scratch_root,
            second,
            manifest_seen(scope, seen_second),
            documents,
        ).manifest,
        snapshot_of_round(scratch_root, first, manifest_seen(scope, seen_first), documents).root
            != snapshot_of_round(
            scratch_root,
            second,
            manifest_seen(scope, seen_second),
            documents,
        ).root,
{
    law_rounds_are_reviewed_apart(scratch_root, first, second);
    assert(Seq::new(scope.len(), |i: int| entry_seen(scope[i], seen_first[i])) =~= Seq::new(
        scope.len(),
        |i: int| entry_seen(scope[i], seen_second[i]),
    ));
}

/// Accepts a serialized manifest only up to the size limit.
pub fn check_manifest_body(len: u64) -> (r: Result<(), String>)
    ensures
        r is Err <==> len > MAX_MANIFEST_BYTES,
        r is Err ==> r->Err_0@ == "artifact manifest exceeds its size limit"@,
{
    if len > MAX_MANIFEST_BYTES {
        Err("artifact manifest exceeds its size limit".to_owned())
    } else {
        Ok(())
    }
}

// ---------------------------------------------------------------------------
// What a change and a citation are

/// Outside the harness's own directory a path has changed exactly where it is new,
/// is gone, or is recorded differently in kind, digest, length, mode or target;
/// what the harness put into the later manifest never counts as there.
pub proof fn law_change_is_any_difference(
    before: Seq<EntryView>,
    after: Seq<EntryView>,
    path: Seq<char>,
)
    ensures
        !starts_with(path, ".ds-verification/"@) ==> (is_changed(before, after, path) <==> {
            let a = lookup(before, path);
            let b = lookup(after, path);
            ||| a is Some && b is None
            ||| a is None && b is Some
            ||| a is Some && b is Some && (a->0.kind != b->0.kind || a->0.sha256 != b->0.sha256
                || a->0.byte_len != b->0.byte_len || a->0.executable != b->0.executable
                || a->0.symlink_target != b->0.symlink_target)
        }),
        starts_with(path, ".ds-verification/"@) ==> (is_changed(before, after, path) <==> lookup(
            before,
            path,
        ) is Some),
{
    lemma_lookup_from(before, path, 0);
    lemma_lookup_from(after, path, 0);
}

/// A citation is accepted exactly where the manifest has a regular file of that
/// path, and the cited digest is, in any of its forms and in any case, the one that
/// is recorded.
pub proof fn law_citation_is_of_the_recorded_revision(
    m: ManifestView,
    path: Seq<char>,
    sha256: Seq<char>,
)
    requires
        manifest_fault(m) is None,
    ensures
        citation_fault(m, path, sha256) is None <==> exists|k: int|
            0 <= k < m.entries.len() && (#[trigger] m.entries[k]).path == path && m.entries[k].kind
                == ArtifactKind::File && canonical_digest(sha256) is Some && lower(
                m.entries[k].sha256->0,
            ) == lower(canonical_digest(sha256)->0),
{
    law_manifest_holds_together(m);
    lemma_lookup_from(m.entries, path, 0);
    if lookup(m.entries, path) is Some {
        let entry = lookup(m.entries, path)->0;
        let at = choose|k: int| 0 <= k < m.entries.len() && m.entries[k] == entry;
        assert(m.entries[at].path == path);
        assert forall|k: int|
            0 <= k < m.entries.len() && (#[trigger] m.entries[k]).path == path implies k == at by {
            if k < at {
                assert(m.entries[k].path != m.entries[at].path);
            }
            if at < k {
                assert(m.entries[at].path != m.entries[k].path);
            }
        }
    }
}

/// An observed artifact passes exactly where it is of the recorded kind and is
/// recorded so: a file with as many bytes, their digest and its mode, a symlink
/// with its target. What could not be read, and what was to be missing, never
/// passes.
pub proof fn law_observed_artifact_passes_only_as_recorded(entry: EntryView, state: ObservedState)
    ensures
        observed_fault(entry, state) is None <==> {
            ||| entry.kind == ArtifactKind::File && state is File && state->bytes@.len()
                == entry.byte_len && entry.sha256 == Some(digest_text(state->bytes@))
                && state->executable == entry.executable
            ||| entry.kind == ArtifactKind::Symlink && state is Symlink && opt(state->target)
                == entry.symlink_target
        },
{
}

proof fn lemma_rank_insert_members(
    list: Seq<(Seq<char>, nat)>,
    x: (Seq<char>, nat),
    y: (Seq<char>, nat),
)
    ensures
        rank_insert(list, x).contains(y) <==> y == x || list.contains(y),
    decreases list.len(),
{
    let now = rank_insert(list, x);
    if list.len() > 0 && list.last().1 < x.1 {
        let t = list.drop_last();
        lemma_rank_insert_members(t, x, y);
        let u = rank_insert(t, x);
        if now.contains(y) {
            let k = choose|k: int| 0 <= k < now.len() && now[k] == y;
            if k < u.len() {
                assert(u[k] == y);
                if t.contains(y) {
                    let q = choose|q: int| 0 <= q < t.len() && t[q] == y;
                    assert(list[q] == y);
                }
            } else {
                assert(list[list.len() - 1] == y);
            }
        }
        if y == x || t.contains(y) {
            let k = choose|k: int| 0 <= k < u.len() && u[k] == y;
            assert(now[k] == y);
        }
        if list.contains(y) && !t.contains(y) {
            let q = choose|q: int| 0 <= q < list.len() && list[q] == y;
            if q < t.len() {
                assert(t[q] == y);
            }
            assert(now[u.len() as int] == y);
        }
    } else {
        assert(now[list.len() as int] == x);
        if list.contains(y) {
            let q = choose|q: int| 0 <= q < list.len() && list[q] == y;
            assert(now[q] == y);
        }
        if now.contains(y) && y != x {
            let k = choose|k: int| 0 <= k < now.len() && now[k] == y;
            assert(list[k] == y);
        }
    }
}

proof fn lemma_ranked_members(entries: Seq<EntryView>, path: Seq<char>, n: int, y: (Seq<char>, nat))
    requires
        0 <= n <= entries.len(),
    ensures
        ranked(entries, path, n).contains(y) <==> exists|k: int|
            0 <= k < n && (#[trigger] entries[k]).path == y.0 && y.1 == shared_prefix(
                entries[k].path,
                path,
            ),
    decreases n,
{
    if n > 0 {
        lemma_ranked_members(entries, path, n - 1, y);
        lemma_rank_insert_members(
            ranked(entries, path, n - 1),
            (entries[n - 1].path, shared_prefix(entries[n - 1].path, path)),
            y,
        );
    } else {
        assert(ranked(entries, path, 0) =~= seq![]);
    }
}

/// A hint names up to three paths of the manifest, and the first of them shares as
/// long a beginning with what was cited as any path of the manifest does.
pub proof fn law_hint_names_the_nearest_paths(
    entries: Seq<EntryView>,
    path: Seq<char>,
    k: int,
)
    requires
        0 <= k < entries.len(),
    ensures
        nearest_names(entries, path).len() == (if entries.len() < 3 {
            entries.len()
        } else {
            3
        }),
        exists|m: int|
            0 <= m < entries.len() && nearest_names(entries, path)[0] == "`"@ + (
            #[trigger] entries[m]).path + "`"@ && shared_prefix(entries[m].path, path)
                >= shared_prefix(entries[k].path, path),
        contains(hint(entries, path), nearest_names(entries, path)[0]),
{
    let n = entries.len() as int;
    let list = ranked(entries, path, n);
    lemma_ranked_len(entries, path, n);
    lemma_ranked_is_ranked(entries, path, n);
    let here = (entries[k].path, shared_prefix(entries[k].path, path));
    lemma_ranked_members(entries, path, n, here);
    assert(list.contains(here));
    let at = choose|i: int| 0 <= i < list.len() && list[i] == here;
    assert(list.contains(list[0]));
    lemma_ranked_members(entries, path, n, list[0]);
    if at > 0 {
        assert(list[0].1 >= list[at].1);
    }
    let m = choose|m: int|
        0 <= m < n && (#[trigger] entries[m]).path == list[0].0 && list[0].1 == shared_prefix(
            entries[m].path,
            path,
        );
    let names = nearest_names(entries, path);
    assert(names[0] == "`"@ + entries[m].path + "`"@);
    lemma_join_holds_its_parts(names, ", "@, 0);
    let lead = "; nearest manifest paths: "@;
    assert(hint(entries, path) =~= lead + join(names, ", "@) + seq![]);
    lemma_contains_in_whole(lead, join(names, ", "@), seq![], names[0]);
}

/// Two texts share exactly the characters up to the first difference.
pub proof fn law_shared_prefix_is_the_longest(a: Seq<char>, b: Seq<char>)
    ensures
        shared_prefix(a, b) <= a.len(),
        shared_prefix(a, b) <= b.len(),
        a.take(shared_prefix(a, b) as int) == b.take(shared_prefix(a, b) as int),
        shared_prefix(a, b) < a.len() && shared_prefix(a, b) < b.len() ==> a[shared_prefix(
            a,
            b,
        ) as int] != b[shared_prefix(a, b) as int],
    decreases a.len(),
{
    let n = shared_prefix(a, b) as int;
    if a.len() > 0 && b.len() > 0 && a[0] == b[0] {
        let s = a.drop_first();
        let t = b.drop_first();
        law_shared_prefix_is_the_longest(s, t);
        assert forall|i: int| 0 <= i < n implies a[i] == b[i] by {
            if i > 0 {
                assert(s.take(n - 1)[i - 1] == t.take(n - 1)[i - 1]);
            }
        }
        assert(a.take(n) =~= b.take(n));
    } else {
        assert(a.take(0) =~= b.take(0));
    }
}

} // verus!
