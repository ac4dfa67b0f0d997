//! Which paths of a workspace are in the scope of a verification round.

use vstd::prelude::*;

use crate::paths::{is_unsafe_relative, validate_relative_path};
use crate::text::{
    chars_of, contains, contains_str, copy_of, ends_with, ends_with_str, is_one_of, is_sorted_set,
    lemma_sorted_set, lemma_split_some, lemma_texts_push, lower, lower_of, one_of, replace_chars,
    replace_chars_of, sorted_set, sorted_set_of, split, split_of, strings, strings_of, texts,
    CharClass,
};

verus! {

pub open spec fn excluded_parts() -> Seq<&'static str> {
    seq![".git", ".ds", ".codex", "target", "node_modules", ".venv", "__pycache__"]
}

pub open spec fn path_parts(path: Seq<char>) -> Seq<Seq<char>> {
    split(replace_chars(path, CharClass::Only('\\'), '/'), CharClass::Only('/'))
}

/// Whether a path lies in a directory that is left out, or looks like a secret.
pub open spec fn is_excluded(path: Seq<char>) -> bool {
    let parts = path_parts(path);
    let name = lower(parts.last());
    (exists|i: int| 0 <= i < parts.len() && is_one_of(#[trigger] parts[i], excluded_parts()))
        || name == ".env"@ || ends_with(name, ".pem"@) || ends_with(name, ".key"@) || contains(
        name,
        "credentials"@,
    )
}

fn excluded(path: &Vec<char>) -> (r: bool)
    ensures
        r == is_excluded(path@),
{
    let normalized = replace_chars_of(path, CharClass::Only('\\'), '/');
    let parts = split_of(&normalized, CharClass::Only('/'));
    let ghost ps = path_parts(path@);
    let names = [".git", ".ds", ".codex", "target", "node_modules", ".venv", "__pycache__"];
    proof {
        assert(names@ =~= excluded_parts());
        assert(ps.len() == parts@.len());
        lemma_split_some(normalized@, CharClass::Only('/'), 0, 0);
    }
    let mut i: usize = 0;
    while i < parts.len()
        invariant
            i <= parts@.len(),
            ps == texts(parts@),
            ps == path_parts(path@),
            names@ == excluded_parts(),
            forall|k: int| 0 <= k < i ==> !is_one_of(#[trigger] ps[k], excluded_parts()),
        decreases parts@.len() - i,
    {
        proof {
            assert(ps[i as int] == parts@[i as int]@);
        }
        if one_of(&parts[i], &names) {
            return true;
        }
        i += 1;
    }
    let name = lower_of(&parts[parts.len() - 1]);
    crate::text::is_text(&name, ".env") || ends_with_str(&name, ".pem") || ends_with_str(
        &name,
        ".key",
    ) || contains_str(&name, "credentials")
}

pub fn excluded_path(path: &str) -> (r: bool)
    ensures
        r == is_excluded(path@),
{
    let v = chars_of(path);
    excluded(&v)
}

/// Those of the first `n` pieces that name a path in scope.
pub open spec fn scoped_pieces(pieces: Seq<Seq<char>>, n: int) -> Seq<Seq<char>>
    decreases n,
{
    if n <= 0 {
        seq![]
    } else {
        let before = scoped_pieces(pieces, n - 1);
        let piece = pieces[n - 1];
        if piece.len() > 0 && !is_excluded(piece) {
            before.push(piece)
        } else {
            before
        }
    }
}

/// The paths in scope of a listing that ends each path with NUL, in order and
/// each once.
pub open spec fn scope_of_listing(listing: Seq<char>) -> Seq<Seq<char>> {
    scope_of_walk(split(listing, CharClass::Only('\0')))
}

/// The first unsafe path from `i` on.
pub open spec fn first_unsafe_from(paths: Seq<Seq<char>>, i: int) -> Option<Seq<char>>
    decreases paths.len() - i,
{
    if i < 0 || i >= paths.len() {
        None
    } else if is_unsafe_relative(paths[i]) {
        Some(paths[i])
    } else {
        first_unsafe_from(paths, i + 1)
    }
}

fn scoped_pieces_of(pieces: &Vec<Vec<char>>) -> (r: Vec<Vec<char>>)
    ensures
        texts(r@) == scoped_pieces(texts(pieces@), pieces@.len() as int),
{
    broadcast use lemma_texts_push;

    let ghost ps = texts(pieces@);
    let mut kept: Vec<Vec<char>> = Vec::new();
    let mut n: usize = 0;
    proof {
        assert(texts(kept@) =~= scoped_pieces(ps, 0));
    }
    while n < pieces.len()
        invariant
            n <= pieces@.len(),
            ps == texts(pieces@),
            texts(kept@) == scoped_pieces(ps, n as int),
        decreases pieces@.len() - n,
    {
        proof {
            assert(ps[n as int] == pieces@[n as int]@);
        }
        if pieces[n].len() > 0 && !excluded(&pieces[n]) {
            let piece = copy_of(&pieces[n]);
            kept.push(piece);
        }
        n += 1;
    }
    kept
}

/// The paths in scope among those that a walk found, in order and each once.
pub open spec fn scope_of_walk(found: Seq<Seq<char>>) -> Seq<Seq<char>> {
    sorted_set(scoped_pieces(found, found.len() as int))
}

/// Accepts the paths in scope only where none of them is unsafe.
fn scope_of_pieces(pieces: &Vec<Vec<char>>) -> (r: Result<Vec<String>, String>)
    ensures
        match first_unsafe_from(scope_of_walk(texts(pieces@)), 0) {
            Some(path) => r is Err && r->Err_0@ == "unsafe artifact path "@ + path,
            None => r is Ok && strings(r->Ok_0@) == scope_of_walk(texts(pieces@)),
        },
{
    let kept = scoped_pieces_of(pieces);
    let sorted = sorted_set_of(&kept);
    let paths = strings_of(&sorted);
    let ghost all = scope_of_walk(texts(pieces@));
    let mut i: usize = 0;
    proof {
        assert(texts(pieces@).len() == pieces@.len());
    }
    while i < paths.len()
        invariant
            i <= paths@.len(),
            all == strings(paths@),
            all == scope_of_walk(texts(pieces@)),
            first_unsafe_from(all, 0) == first_unsafe_from(all, i as int),
        decreases paths@.len() - i,
    {
        proof {
            assert(all[i as int] == paths@[i as int]@);
        }
        if let Err(fault) = validate_relative_path(paths[i].as_str()) {
            return Err(fault);
        }
        i += 1;
    }
    Ok(paths)
}

/// Reads the output of `git ls-files -z`.
pub fn scoped_paths_of_listing(listing: &str) -> (r: Result<Vec<String>, String>)
    ensures
        match first_unsafe_from(scope_of_listing(listing@), 0) {
            Some(path) => r is Err && r->Err_0@ == "unsafe artifact path "@ + path,
            None => r is Ok && strings(r->Ok_0@) == scope_of_listing(listing@),
        },
{
    let v = chars_of(listing);
    let pieces = split_of(&v, CharClass::Only('\0'));
    scope_of_pieces(&pieces)
}

/// Sorts the paths in scope that a walk through a directory found, each once.
pub fn scoped_paths_of_walk(found: &Vec<String>) -> (r: Result<Vec<String>, String>)
    ensures
        match first_unsafe_from(scope_of_walk(strings(found@)), 0) {
            Some(path) => r is Err && r->Err_0@ == "unsafe artifact path "@ + path,
            None => r is Ok && strings(r->Ok_0@) == scope_of_walk(strings(found@)),
        },
{
    let mut list: Vec<Vec<char>> = Vec::new();
    let mut i: usize = 0;
    while i < found.len()
        invariant
            i <= found@.len(),
            list@.len() == i,
            forall|k: int| 0 <= k < i ==> (#[trigger] list@[k])@ == found@[k]@,
        decreases found@.len() - i,
    {
        let v = chars_of(found[i].as_str());
        list.push(v);
        i += 1;
    }
    proof {
        assert(texts(list@) =~= strings(found@));
    }
    scope_of_pieces(&list)
}

/// Nothing excluded is ever in scope, and no path is in scope twice: neither of
/// what a listing names nor of what a walk finds.
pub proof fn law_scope_excludes_what_is_excluded(pieces: Seq<Seq<char>>)
    ensures
        is_sorted_set(scope_of_walk(pieces)),
        forall|k: int|
            0 <= k < scope_of_walk(pieces).len() ==> !is_excluded(
                #[trigger] scope_of_walk(pieces)[k],
            ) && scope_of_walk(pieces)[k].len() > 0,
{
    let kept = scoped_pieces(pieces, pieces.len() as int);
    lemma_sorted_set(kept);
    lemma_scoped_pieces(pieces, pieces.len() as int);
    let all = scope_of_walk(pieces);
    assert forall|k: int| 0 <= k < all.len() implies !is_excluded(#[trigger] all[k])
        && all[k].len() > 0 by {
        assert(all.contains(all[k]));
        assert(kept.contains(all[k]));
        let m = choose|m: int| 0 <= m < kept.len() && kept[m] == all[k];
        assert(!is_excluded(kept[m]));
    }
}

/// A path that is in scope of no unsafe scope is safe itself.
pub proof fn lemma_first_unsafe_from(paths: Seq<Seq<char>>, i: int)
    requires
        0 <= i,
    ensures
        first_unsafe_from(paths, i) is None <==> forall|k: int|
            i <= k < paths.len() ==> !is_unsafe_relative(#[trigger] paths[k]),
    decreases paths.len() - i,
{
    if i < paths.len() {
        lemma_first_unsafe_from(paths, i + 1);
        if first_unsafe_from(paths, i) is None {
            assert forall|k: int| i <= k < paths.len() implies !is_unsafe_relative(
                #[trigger] paths[k],
            ) by {}
        }
    }
}

proof fn lemma_scoped_pieces(pieces: Seq<Seq<char>>, n: int)
    ensures
        forall|k: int|
            0 <= k < scoped_pieces(pieces, n).len() ==> !is_excluded(
                #[trigger] scoped_pieces(pieces, n)[k],
            ) && scoped_pieces(pieces, n)[k].len() > 0,
    decreases n,
{
    if n > 0 {
        lemma_scoped_pieces(pieces, n - 1);
        let before = scoped_pieces(pieces, n - 1);
        let all = scoped_pieces(pieces, n);
        assert forall|k: int| 0 <= k < all.len() implies !is_excluded(#[trigger] all[k])
            && all[k].len() > 0 by {
            if k < before.len() {
                assert(all[k] == before[k]);
            }
        }
    }
}

/// A path is left out exactly where one of its parts is a directory of tools,
/// caches or build products, or where its last part looks like a secret; slashes
/// of either kind set parts apart, and the case of a secret does not matter.
pub proof fn law_excluded_paths(path: Seq<char>)
    ensures
        ({
            let parts = split(
                replace_chars(path, CharClass::Only('\\'), '/'),
                CharClass::Only('/'),
            );
            let name = lower(parts.last());
            is_excluded(path) <==> {
                ||| parts.contains(".git"@)
                ||| parts.contains(".ds"@)
                ||| parts.contains(".codex"@)
                ||| parts.contains("target"@)
                ||| parts.contains("node_modules"@)
                ||| parts.contains(".venv"@)
                ||| parts.contains("__pycache__"@)
                ||| name == ".env"@
                ||| ends_with(name, ".pem"@)
                ||| ends_with(name, ".key"@)
                ||| contains(name, "credentials"@)
            }
        }),
{
    let parts = path_parts(path);
    let names = excluded_parts();
    assert(names.len() == 7);
    assert(names[0] == ".git");
    assert(names[1] == ".ds");
    assert(names[2] == ".codex");
    assert(names[3] == "target");
    assert(names[4] == "node_modules");
    assert(names[5] == ".venv");
    assert(names[6] == "__pycache__");
    if exists|i: int| 0 <= i < parts.len() && is_one_of(#[trigger] parts[i], excluded_parts()) {
        let i = choose|i: int|
            0 <= i < parts.len() && is_one_of(#[trigger] parts[i], excluded_parts());
        let k = choose|k: int| 0 <= k < names.len() && parts[i] == #[trigger] names[k]@;
        assert(parts.contains(names[k]@));
    }
    if parts.contains(".git"@) {
        let i = choose|i: int| 0 <= i < parts.len() && parts[i] == ".git"@;
        assert(parts[i] == names[0]@);
        assert(is_one_of(parts[i], excluded_parts()));
    }
    if parts.contains(".ds"@) {
        let i = choose|i: int| 0 <= i < parts.len() && parts[i] == ".ds"@;
        assert(parts[i] == names[1]@);
        assert(is_one_of(parts[i], excluded_parts()));
    }
    if parts.contains(".codex"@) {
        let i = choose|i: int| 0 <= i < parts.len() && parts[i] == ".codex"@;
        assert(parts[i] == names[2]@);
        assert(is_one_of(parts[i], excluded_parts()));
    }
    if parts.contains("target"@) {
        let i = choose|i: int| 0 <= i < parts.len() && parts[i] == "target"@;
        assert(parts[i] == names[3]@);
        assert(is_one_of(parts[i], excluded_parts()));
    }
    if parts.contains("node_modules"@) {
        let i = choose|i: int| 0 <= i < parts.len() && parts[i] == "node_modules"@;
        assert(parts[i] == names[4]@);
        assert(is_one_of(parts[i], excluded_parts()));
    }
    if parts.contains(".venv"@) {
        let i = choose|i: int| 0 <= i < parts.len() && parts[i] == ".venv"@;
        assert(parts[i] == names[5]@);
        assert(is_one_of(parts[i], excluded_parts()));
    }
    if parts.contains("__pycache__"@) {
        let i = choose|i: int| 0 <= i < parts.len() && parts[i] == "__pycache__"@;
        assert(parts[i] == names[6]@);
        assert(is_one_of(parts[i], excluded_parts()));
    }
}

proof fn lemma_scoped_members(pieces: Seq<Seq<char>>, n: int, path: Seq<char>)
    requires
        0 <= n <= pieces.len(),
    ensures
        scoped_pieces(pieces, n).contains(path) <==> path.len() > 0 && !is_excluded(path)
            && exists|k: int| 0 <= k < n && #[trigger] pieces[k] == path,
    decreases n,
{
    if n > 0 {
        lemma_scoped_members(pieces, n - 1, path);
        let before = scoped_pieces(pieces, n - 1);
        let now = scoped_pieces(pieces, n);
        if before.contains(path) {
            let k = choose|k: int| 0 <= k < before.len() && before[k] == path;
            assert(now[k] == path);
        }
        if now.contains(path) && !before.contains(path) {
            let k = choose|k: int| 0 <= k < now.len() && now[k] == path;
            if k < before.len() {
                assert(before[k] == path);
            }
            assert(pieces[n - 1] == path);
        }
        if pieces[n - 1] == path && path.len() > 0 && !is_excluded(path) {
            assert(now[before.len() as int] == path);
        }
    }
}

/// In scope is every path that was found and is not left out, and nothing else.
pub proof fn law_scope_is_what_was_found_and_is_not_left_out(
    found: Seq<Seq<char>>,
    path: Seq<char>,
)
    ensures
        scope_of_walk(found).contains(path) <==> found.contains(path) && path.len() > 0
            && !is_excluded(path),
{
    let kept = scoped_pieces(found, found.len() as int);
    lemma_sorted_set(kept);
    lemma_scoped_members(found, found.len() as int, path);
    assert(kept.contains(path) <==> scope_of_walk(found).contains(path));
    if found.contains(path) {
        let k = choose|k: int| 0 <= k < found.len() && found[k] == path;
        assert(found[k] == path);
    }
}

} // verus!
