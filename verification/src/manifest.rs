//! Content-addressed manifests of the artifacts of a workspace.

use vstd::prelude::*;
use vstd::string::*;
use vstd::utf8::encode_utf8;

use crate::digest::{
    digest_bytes, digest_text, is_digest, json_string, json_string_of, valid_digest,
};
use crate::paths::{
    is_plain_id, is_unsafe_relative, is_within, path_is_within, validate_relative_path,
};
use crate::scope::{
    first_unsafe_from, is_excluded, law_scope_excludes_what_is_excluded, lemma_first_unsafe_from,
    scope_of_listing, scope_of_walk, scoped_paths_of_listing, scoped_paths_of_walk,
};
use crate::text::{
    append, append_str, bool_str, bool_text, cat2, cat3, chars_of, clone_opt, contains, decimal,
    decimal_string, has_char, is_blank, is_sorted_set, join, join_of, lemma_contains_in_whole,
    lemma_contains_itself, lemma_join_holds_its_parts, lemma_precedes_irreflexive,
    lemma_precedes_total, lemma_precedes_transitive, opt, precedes, precedes_of, same, same_opt,
    same_str, split, starts_with, starts_with_str, string_of, strings, texts, trim, CharClass,
};

verus! {

pub const SNAPSHOT_SCHEMA_VERSION: u32 = 1;

/// Where in a snapshot a JSON document of the round lies.
pub open spec fn held_json(stem: Seq<char>) -> Seq<char> {
    ".ds-verification/"@ + stem + ".json"@
}

pub fn held_json_path(stem: &str) -> (r: String)
    ensures
        r@ == held_json(stem@),
{
    cat3(".ds-verification/", stem, ".json")
}

/// Where a snapshot keeps the manifest of itself.
pub open spec fn manifest_path() -> Seq<char> {
    held_json("artifact-manifest"@)
}

pub fn snapshot_manifest_path() -> (r: String)
    ensures
        r@ == manifest_path(),
{
    held_json_path("artifact-manifest")
}

/// How many artifacts a workspace may have.
pub const MAX_FILES: usize = 20_000;

/// How large one artifact may be.
pub const MAX_FILE_BYTES: u64 = 67108864;

/// How large all artifacts may be together.
pub const MAX_TOTAL_BYTES: u64 = 1073741824;

/// How large a stored manifest may be.
pub const MAX_MANIFEST_BYTES: u64 = 16777216;

pub const SCOPE_POLICY: &'static str =
    "git tracked+untracked (ignored/build caches and secret-like files excluded)";

#[derive(Clone, Copy, Debug, PartialEq, Eq, Structural)]
pub enum ArtifactKind {
    File,
    Symlink,
    Missing,
}

#[derive(Debug)]
pub struct ArtifactEntry {
    pub path: String,
    pub kind: ArtifactKind,
    pub sha256: Option<String>,
    pub byte_len: u64,
    pub executable: bool,
    pub symlink_target: Option<String>,
}

#[derive(Debug)]
pub struct ArtifactManifest {
    pub schema_version: u32,
    pub scope_policy: String,
    pub entries: Vec<ArtifactEntry>,
    pub manifest_digest: String,
}

/// A file that a round adds to what it reviews.
#[derive(Debug)]
pub struct VirtualArtifact {
    pub path: String,
    pub bytes: Vec<u8>,
}

/// What an entry says, as values.
pub struct EntryView {
    pub path: Seq<char>,
    pub kind: ArtifactKind,
    pub sha256: Option<Seq<char>>,
    pub byte_len: u64,
    pub executable: bool,
    pub symlink_target: Option<Seq<char>>,
}

/// What a manifest says, as values.
pub struct ManifestView {
    pub schema_version: u32,
    pub scope_policy: Seq<char>,
    pub entries: Seq<EntryView>,
    pub manifest_digest: Seq<char>,
}

impl View for ArtifactEntry {
    type V = EntryView;

    open spec fn view(&self) -> EntryView {
        EntryView {
            path: self.path@,
            kind: self.kind,
            sha256: opt(self.sha256),
            byte_len: self.byte_len,
            executable: self.executable,
            symlink_target: opt(self.symlink_target),
        }
    }
}

pub open spec fn entry_views(s: Seq<ArtifactEntry>) -> Seq<EntryView> {
    Seq::new(s.len(), |i: int| s[i]@)
}

impl View for ArtifactManifest {
    type V = ManifestView;

    open spec fn view(&self) -> ManifestView {
        ManifestView {
            schema_version: self.schema_version,
            scope_policy: self.scope_policy@,
            entries: entry_views(self.entries@),
            manifest_digest: self.manifest_digest@,
        }
    }
}

impl ArtifactEntry {
    pub fn same(&self, other: &ArtifactEntry) -> (r: bool)
        ensures
            r == (self@ == other@),
    {
        same_str(self.path.as_str(), other.path.as_str()) && self.kind == other.kind && same_opt(
            &self.sha256,
            &other.sha256,
        ) && self.byte_len == other.byte_len && self.executable == other.executable && same_opt(
            &self.symlink_target,
            &other.symlink_target,
        )
    }

    pub fn duplicate(&self) -> (r: ArtifactEntry)
        ensures
            r@ == self@,
    {
        ArtifactEntry {
            path: self.path.clone(),
            kind: self.kind,
            sha256: clone_opt(&self.sha256),
            byte_len: self.byte_len,
            executable: self.executable,
            symlink_target: clone_opt(&self.symlink_target),
        }
    }
}

impl ArtifactManifest {
    pub fn same(&self, other: &ArtifactManifest) -> (r: bool)
        ensures
            r == (self@ == other@),
    {
        if self.schema_version != other.schema_version || !same_str(
            self.scope_policy.as_str(),
            other.scope_policy.as_str(),
        ) || !same_str(self.manifest_digest.as_str(), other.manifest_digest.as_str())
            || self.entries.len() != other.entries.len() {
            proof {
                assert(self@.entries.len() == self.entries@.len());
                assert(other@.entries.len() == other.entries@.len());
            }
            return false;
        }
        let mut i: usize = 0;
        while i < self.entries.len()
            invariant
                i <= self.entries@.len() == other.entries@.len(),
                forall|k: int| 0 <= k < i ==> (#[trigger] self.entries@[k])@ == other.entries@[k]@,
            decreases self.entries@.len() - i,
        {
            if !self.entries[i].same(&other.entries[i]) {
                proof {
                    assert(self@.entries[i as int] != other@.entries[i as int]);
                }
                return false;
            }
            i += 1;
        }
        proof {
            assert(self@.entries =~= other@.entries);
        }
        true
    }
}

// ---------------------------------------------------------------------------
// The digest of a manifest

pub open spec fn kind_json(kind: ArtifactKind) -> &'static str {
    match kind {
        ArtifactKind::File => "file",
        ArtifactKind::Symlink => "symlink",
        ArtifactKind::Missing => "missing",
    }
}

pub open spec fn opt_json(value: Option<Seq<char>>) -> Seq<char> {
    match value {
        Some(text) => json_string_of(text),
        None => "null"@,
    }
}

/// An entry as a JSON object, without white space.
pub open spec fn entry_json(e: EntryView) -> Seq<char> {
    "{\"path\":"@ + json_string_of(e.path) + ",\"kind\":\""@ + kind_json(e.kind)@
        + "\",\"sha256\":"@ + opt_json(e.sha256) + ",\"byte_len\":"@ + decimal(e.byte_len as nat)
        + ",\"executable\":"@ + bool_text(e.executable) + ",\"symlink_target\":"@ + opt_json(
        e.symlink_target,
    ) + "}"@
}

pub open spec fn entries_json(entries: Seq<EntryView>) -> Seq<Seq<char>> {
    Seq::new(entries.len(), |i: int| entry_json(entries[i]))
}

/// A manifest as a JSON object, without white space and with its own digest
/// left empty.
pub open spec fn manifest_json(m: ManifestView) -> Seq<char> {
    "{\"schema_version\":"@ + decimal(m.schema_version as nat) + ",\"scope_policy\":"@
        + json_string_of(m.scope_policy) + ",\"entries\":["@ + join(entries_json(m.entries), ","@)
        + "],\"manifest_digest\":\"\"}"@
}

/// The digest that belongs in a manifest: that of everything else it says.
pub open spec fn digest_of_manifest(m: ManifestView) -> Seq<char> {
    digest_text(encode_utf8(manifest_json(m)))
}

fn append_opt_json(out: &mut Vec<char>, value: &Option<String>)
    ensures
        final(out)@ == old(out)@ + opt_json(opt(*value)),
{
    match value {
        Some(text) => {
            let s = json_string(text.as_str());
            append_str(out, s.as_str());
        },
        None => {
            append_str(out, "null");
        },
    }
}

fn entry_json_of(e: &ArtifactEntry) -> (r: Vec<char>)
    ensures
        r@ == entry_json(e@),
{
    let mut out = chars_of("{\"path\":");
    let path = json_string(e.path.as_str());
    append_str(&mut out, path.as_str());
    append_str(&mut out, ",\"kind\":\"");
    append_str(
        &mut out,
        match e.kind {
            ArtifactKind::File => "file",
            ArtifactKind::Symlink => "symlink",
            ArtifactKind::Missing => "missing",
        },
    );
    append_str(&mut out, "\",\"sha256\":");
    append_opt_json(&mut out, &e.sha256);
    append_str(&mut out, ",\"byte_len\":");
    let n = decimal_string(e.byte_len as u128);
    append_str(&mut out, n.as_str());
    append_str(&mut out, ",\"executable\":");
    append_str(&mut out, bool_str(e.executable));
    append_str(&mut out, ",\"symlink_target\":");
    append_opt_json(&mut out, &e.symlink_target);
    append_str(&mut out, "}");
    out
}

pub fn manifest_digest(manifest: &ArtifactManifest) -> (r: String)
    ensures
        r@ == digest_of_manifest(manifest@),
        is_digest(r@),
{
    let mut parts: Vec<Vec<char>> = Vec::new();
    let ghost all = entries_json(manifest@.entries);
    let mut i: usize = 0;
    while i < manifest.entries.len()
        invariant
            i <= manifest.entries@.len(),
            parts@.len() == i,
            all == entries_json(manifest@.entries),
            forall|k: int| 0 <= k < i ==> (#[trigger] parts@[k])@ == all[k],
        decreases manifest.entries@.len() - i,
    {
        let part = entry_json_of(&manifest.entries[i]);
        parts.push(part);
        i += 1;
    }
    proof {
        assert(texts(parts@) =~= all);
    }
    let mut out = chars_of("{\"schema_version\":");
    let version = decimal_string(manifest.schema_version as u128);
    append_str(&mut out, version.as_str());
    append_str(&mut out, ",\"scope_policy\":");
    let policy = json_string(manifest.scope_policy.as_str());
    append_str(&mut out, policy.as_str());
    append_str(&mut out, ",\"entries\":[");
    append(&mut out, &join_of(&parts, ","));
    append_str(&mut out, "],\"manifest_digest\":\"\"}");
    let body = string_of(&out);
    digest_bytes(body.as_str().as_bytes())
}

// ---------------------------------------------------------------------------
// Validation

/// Whether the metadata of an entry fit its kind.
pub open spec fn metadata_fit(e: EntryView) -> bool {
    match e.kind {
        ArtifactKind::File => e.sha256 is Some && is_digest(e.sha256->0) && e.symlink_target is None,
        ArtifactKind::Symlink => e.sha256 is None && e.symlink_target is Some
            && e.symlink_target->0.len() > 0,
        ArtifactKind::Missing => e.sha256 is None && e.symlink_target is None && e.byte_len == 0,
    }
}

pub open spec fn kind_label(kind: ArtifactKind) -> &'static str {
    match kind {
        ArtifactKind::File => "file artifact ",
        ArtifactKind::Symlink => "symlink artifact ",
        ArtifactKind::Missing => "missing artifact ",
    }
}

/// Whether the path of entry `i` is that of an earlier entry.
pub open spec fn repeats_path(entries: Seq<EntryView>, i: int) -> bool {
    exists|j: int| 0 <= j < i && (#[trigger] entries[j]).path == entries[i].path
}

/// What is wrong with entry `i`, if anything is.
pub open spec fn entry_fault(entries: Seq<EntryView>, i: int) -> Option<Seq<char>> {
    let e = entries[i];
    if is_unsafe_relative(e.path) {
        Some("unsafe artifact path "@ + e.path)
    } else if repeats_path(entries, i) {
        Some("duplicate artifact path "@ + e.path)
    } else if !metadata_fit(e) {
        Some(kind_label(e.kind)@ + e.path + " has invalid metadata"@)
    } else {
        None
    }
}

/// The fault of the first faulty entry from `i` on.
pub open spec fn entries_fault_from(entries: Seq<EntryView>, i: int) -> Option<Seq<char>>
    decreases entries.len() - i,
{
    if i < 0 || i >= entries.len() {
        None
    } else {
        match entry_fault(entries, i) {
            Some(fault) => Some(fault),
            None => entries_fault_from(entries, i + 1),
        }
    }
}

/// What is wrong with a manifest, if anything is.
pub open spec fn manifest_fault(m: ManifestView) -> Option<Seq<char>> {
    if m.schema_version != SNAPSHOT_SCHEMA_VERSION {
        Some("unsupported artifact manifest schema version "@ + decimal(m.schema_version as nat))
    } else if m.entries.len() > MAX_FILES + 16 || is_blank(m.scope_policy) {
        Some("artifact manifest is incomplete or oversized"@)
    } else if entries_fault_from(m.entries, 0) is Some {
        entries_fault_from(m.entries, 0)
    } else if !is_digest(m.manifest_digest) || digest_of_manifest(m) != m.manifest_digest {
        Some("artifact manifest digest mismatch"@)
    } else {
        None
    }
}

fn metadata_fit_of(e: &ArtifactEntry) -> (r: bool)
    ensures
        r == metadata_fit(e@),
{
    match e.kind {
        ArtifactKind::File => {
            match &e.sha256 {
                Some(digest) => valid_digest(digest.as_str()) && e.symlink_target.is_none(),
                None => false,
            }
        },
        ArtifactKind::Symlink => {
            match &e.symlink_target {
                Some(target) => e.sha256.is_none() && !target.as_str().is_empty(),
                None => false,
            }
        },
        ArtifactKind::Missing => e.sha256.is_none() && e.symlink_target.is_none() && e.byte_len
            == 0,
    }
}

fn paths_of(entries: &Vec<ArtifactEntry>) -> (r: Vec<Vec<char>>)
    ensures
        r@.len() == entries@.len(),
        forall|k: int| 0 <= k < r@.len() ==> (#[trigger] r@[k])@ == entries@[k].path@,
{
    let mut out: Vec<Vec<char>> = Vec::new();
    let mut i: usize = 0;
    while i < entries.len()
        invariant
            i <= entries@.len(),
            out@.len() == i,
            forall|k: int| 0 <= k < i ==> (#[trigger] out@[k])@ == entries@[k].path@,
        decreases entries@.len() - i,
    {
        let p = chars_of(entries[i].path.as_str());
        out.push(p);
        i += 1;
    }
    out
}

/// Whether the first `n` paths are strictly increasing, so that none repeats.
pub open spec fn increasing_paths(entries: Seq<EntryView>, n: int) -> bool {
    forall|i: int, j: int|
        0 <= i < j < n ==> precedes((#[trigger] entries[i]).path, (#[trigger] entries[j]).path)
}

proof fn lemma_increasing_step(entries: Seq<EntryView>, n: int)
    requires
        0 < n < entries.len(),
        increasing_paths(entries, n),
        precedes(entries[n - 1].path, entries[n].path),
    ensures
        increasing_paths(entries, n + 1),
        !repeats_path(entries, n),
{
    assert forall|i: int, j: int| 0 <= i < j < n + 1 implies precedes(
        (#[trigger] entries[i]).path,
        (#[trigger] entries[j]).path,
    ) by {
        if j == n && i < n - 1 {
            lemma_precedes_transitive(entries[i].path, entries[n - 1].path, entries[n].path);
        }
    }
    if repeats_path(entries, n) {
        let j = choose|j: int| 0 <= j < n && (#[trigger] entries[j]).path == entries[n].path;
        assert(precedes(entries[j].path, entries[n].path));
        lemma_precedes_irreflexive(entries[n].path);
    }
}

fn path_repeats(paths: &Vec<Vec<char>>, i: usize) -> (r: bool)
    requires
        i < paths@.len(),
    ensures
        r == (exists|j: int| 0 <= j < i && (#[trigger] paths@[j])@ == paths@[i as int]@),
{
    let mut j: usize = 0;
    while j < i
        invariant
            j <= i < paths@.len(),
            forall|k: int| 0 <= k < j ==> (#[trigger] paths@[k])@ != paths@[i as int]@,
        decreases i - j,
    {
        if same(&paths[j], &paths[i]) {
            return true;
        }
        j += 1;
    }
    false
}

fn entries_fault(entries: &Vec<ArtifactEntry>) -> (r: Option<String>)
    ensures
        opt(r) == entries_fault_from(entry_views(entries@), 0),
{
    let ghost es = entry_views(entries@);
    let paths = paths_of(entries);
    let mut increasing = true;
    let mut i: usize = 0;
    while i < entries.len()
        invariant
            i <= entries@.len() == paths@.len(),
            es == entry_views(entries@),
            forall|k: int| 0 <= k < paths@.len() ==> (#[trigger] paths@[k])@ == es[k].path,
            increasing ==> increasing_paths(es, i as int),
            entries_fault_from(es, 0) == entries_fault_from(es, i as int),
        decreases entries@.len() - i,
    {
        let entry = &entries[i];
        proof {
            assert(es[i as int] == entry@);
        }
        if let Err(fault) = validate_relative_path(entry.path.as_str()) {
            return Some(fault);
        }
        increasing = increasing && (i == 0 || precedes_of(&paths[i - 1], &paths[i]));
        let repeated = if increasing {
            proof {
                if i > 0 {
                    lemma_increasing_step(es, i as int);
                }
            }
            false
        } else {
            path_repeats(&paths, i)
        };
        proof {
            if repeated {
                let j = choose|j: int| 0 <= j < i && (#[trigger] paths@[j])@ == paths@[i as int]@;
                assert(es[j].path == es[i as int].path);
            } else if !increasing && repeats_path(es, i as int) {
                let j = choose|j: int| 0 <= j < i && (#[trigger] es[j]).path == es[i as int].path;
                assert(paths@[j]@ == paths@[i as int]@);
            }
            assert(repeated == repeats_path(es, i as int));
        }
        if repeated {
            return Some(cat2("duplicate artifact path ", entry.path.as_str()));
        }
        if !metadata_fit_of(entry) {
            return Some(
                cat3(
                    match entry.kind {
                        ArtifactKind::File => "file artifact ",
                        ArtifactKind::Symlink => "symlink artifact ",
                        ArtifactKind::Missing => "missing artifact ",
                    },
                    entry.path.as_str(),
                    " has invalid metadata",
                ),
            );
        }
        i += 1;
    }
    None
}

/// Accepts a manifest only where it is complete, safe and says what its digest
/// was taken of.
pub fn validate_manifest(manifest: &ArtifactManifest) -> (r: Result<(), String>)
    ensures
        match manifest_fault(manifest@) {
            Some(fault) => r is Err && r->Err_0@ == fault,
            None => r is Ok,
        },
{
    if manifest.schema_version != SNAPSHOT_SCHEMA_VERSION {
        let n = decimal_string(manifest.schema_version as u128);
        return Err(cat2("unsupported artifact manifest schema version ", n.as_str()));
    }
    proof {
        assert(manifest@.entries.len() == manifest.entries@.len());
    }
    if manifest.entries.len() > MAX_FILES + 16 || crate::text::blank(
        manifest.scope_policy.as_str(),
    ) {
        return Err("artifact manifest is incomplete or oversized".to_owned());
    }
    if let Some(fault) = entries_fault(&manifest.entries) {
        return Err(fault);
    }
    if !valid_digest(manifest.manifest_digest.as_str()) || !same_str(
        manifest_digest(manifest).as_str(),
        manifest.manifest_digest.as_str(),
    ) {
        return Err("artifact manifest digest mismatch".to_owned());
    }
    Ok(())
}

// ---------------------------------------------------------------------------
// Order

/// `s` with `e` put in behind the last entry whose path does not follow its own.
pub open spec fn insert_entry(s: Seq<EntryView>, e: EntryView) -> Seq<EntryView>
    decreases s.len(),
{
    if s.len() > 0 && precedes(e.path, s.last().path) {
        insert_entry(s.drop_last(), e).push(s.last())
    } else {
        s.push(e)
    }
}

/// The entries ordered by path; those with one path stay in their order.
pub open spec fn sorted_entries(s: Seq<EntryView>) -> Seq<EntryView>
    decreases s.len(),
{
    if s.len() == 0 {
        seq![]
    } else {
        insert_entry(sorted_entries(s.drop_last()), s.last())
    }
}

/// Every entry is sound by itself and no path occurs twice.
pub open spec fn entries_sound(s: Seq<EntryView>) -> bool {
    &&& forall|i: int|
        0 <= i < s.len() ==> !is_unsafe_relative((#[trigger] s[i]).path) && metadata_fit(s[i])
    &&& forall|i: int, j: int|
        0 <= i < j < s.len() ==> (#[trigger] s[i]).path != (#[trigger] s[j]).path
}

pub proof fn lemma_sound_from(s: Seq<EntryView>, i: int)
    requires
        entries_sound(s),
        0 <= i,
    ensures
        entries_fault_from(s, i) is None,
    decreases s.len() - i,
{
    if i < s.len() {
        assert(!is_unsafe_relative(s[i].path) && metadata_fit(s[i]));
        if repeats_path(s, i) {
            let j = choose|j: int| 0 <= j < i && (#[trigger] s[j]).path == s[i].path;
            assert(s[j].path != s[i].path);
        }
        lemma_sound_from(s, i + 1);
    }
}

/// Entries without a fault are sound.
pub proof fn lemma_faultless_is_sound(s: Seq<EntryView>, i: int)
    requires
        0 <= i <= s.len(),
        entries_fault_from(s, i) is None,
    ensures
        forall|k: int|
            i <= k < s.len() ==> !is_unsafe_relative((#[trigger] s[k]).path) && metadata_fit(s[k])
                && !repeats_path(s, k),
        i == 0 ==> entries_sound(s),
    decreases s.len() - i,
{
    if i < s.len() {
        lemma_faultless_is_sound(s, i + 1);
    }
    if i == 0 {
        assert forall|a: int, b: int| 0 <= a < b < s.len() implies (#[trigger] s[a]).path
            != (#[trigger] s[b]).path by {
            assert(!repeats_path(s, b));
        }
    }
}

proof fn lemma_insert_sound(s: Seq<EntryView>, e: EntryView)
    requires
        entries_sound(s),
        !is_unsafe_relative(e.path),
        metadata_fit(e),
        forall|i: int| 0 <= i < s.len() ==> (#[trigger] s[i]).path != e.path,
    ensures
        entries_sound(insert_entry(s, e)),
        forall|k: int|
            0 <= k < insert_entry(s, e).len() ==> (#[trigger] insert_entry(s, e)[k]) == e
                || s.contains(insert_entry(s, e)[k]),
    decreases s.len(),
{
    let r = insert_entry(s, e);
    if s.len() > 0 && precedes(e.path, s.last().path) {
        let t = s.drop_last();
        assert forall|i: int| 0 <= i < t.len() implies (#[trigger] t[i]).path != e.path by {
            assert(s[i].path != e.path);
        }
        assert(entries_sound(t)) by {
            assert forall|i: int| 0 <= i < t.len() implies !is_unsafe_relative(
                (#[trigger] t[i]).path,
            ) && metadata_fit(t[i]) by {
                assert(s[i] == t[i]);
            }
            assert forall|i: int, j: int| 0 <= i < j < t.len() implies (#[trigger] t[i]).path
                != (#[trigger] t[j]).path by {
                assert(s[i].path != s[j].path);
            }
        }
        lemma_insert_sound(t, e);
        let u = insert_entry(t, e);
        let z = s.last();
        assert(s[s.len() - 1] == z);
        assert forall|k: int| 0 <= k < r.len() implies (#[trigger] r[k]) == e || s.contains(
            r[k],
        ) by {
            if k < u.len() {
                assert(u[k] == e || t.contains(u[k]));
                if t.contains(u[k]) {
                    let m = choose|m: int| 0 <= m < t.len() && t[m] == u[k];
                    assert(s[m] == r[k]);
                }
            }
        }
        assert forall|i: int| 0 <= i < r.len() implies !is_unsafe_relative((#[trigger] r[i]).path)
            && metadata_fit(r[i]) by {
            if i < u.len() {
                assert(r[i] == u[i]);
            }
        }
        assert forall|i: int, j: int| 0 <= i < j < r.len() implies (#[trigger] r[i]).path != (
        #[trigger] r[j]).path by {
            assert(r[i] == u[i]);
            if j < u.len() {
                assert(r[j] == u[j]);
            } else {
                assert(u[i] == e || t.contains(u[i]));
                if t.contains(u[i]) {
                    let m = choose|m: int| 0 <= m < t.len() && t[m] == u[i];
                    assert(s[m].path != s[s.len() - 1].path);
                } else {
                    assert(s[s.len() - 1].path != e.path);
                }
            }
        }
    } else {
        assert forall|k: int| 0 <= k < r.len() implies (#[trigger] r[k]) == e || s.contains(
            r[k],
        ) by {
            if k < s.len() {
                assert(s[k] == r[k]);
            }
        }
        assert forall|i: int| 0 <= i < r.len() implies !is_unsafe_relative((#[trigger] r[i]).path)
            && metadata_fit(r[i]) by {
            if i < s.len() {
                assert(s[i] == r[i]);
            }
        }
        assert forall|i: int, j: int| 0 <= i < j < r.len() implies (#[trigger] r[i]).path != (
        #[trigger] r[j]).path by {
            assert(s[i] == r[i]);
            if j < s.len() {
                assert(s[j] == r[j]);
            }
        }
    }
}

/// Sorting keeps a sound list sound, of the same length and with the same
/// members.
pub proof fn lemma_sorted_entries_sound(s: Seq<EntryView>)
    requires
        entries_sound(s),
    ensures
        entries_sound(sorted_entries(s)),
        sorted_entries(s).len() == s.len(),
        forall|k: int|
            0 <= k < sorted_entries(s).len() ==> s.contains(#[trigger] sorted_entries(s)[k]),
    decreases s.len(),
{
    if s.len() > 0 {
        let t = s.drop_last();
        assert(entries_sound(t)) by {
            assert forall|i: int| 0 <= i < t.len() implies !is_unsafe_relative(
                (#[trigger] t[i]).path,
            ) && metadata_fit(t[i]) by {
                assert(s[i] == t[i]);
            }
            assert forall|i: int, j: int| 0 <= i < j < t.len() implies (#[trigger] t[i]).path
                != (#[trigger] t[j]).path by {
                assert(s[i].path != s[j].path);
            }
        }
        lemma_sorted_entries_sound(t);
        let u = sorted_entries(t);
        let e = s[s.len() - 1];
        assert forall|i: int| 0 <= i < u.len() implies (#[trigger] u[i]).path != e.path by {
            assert(t.contains(u[i]));
            let m = choose|m: int| 0 <= m < t.len() && t[m] == u[i];
            assert(s[m].path != e.path);
        }
        assert(!is_unsafe_relative(e.path) && metadata_fit(e));
        lemma_insert_sound(u, e);
        lemma_insert_len(u, e);
        let r = sorted_entries(s);
        assert forall|k: int| 0 <= k < r.len() implies s.contains(#[trigger] r[k]) by {
            assert(r[k] == e || u.contains(r[k]));
            if u.contains(r[k]) {
                let m = choose|m: int| 0 <= m < u.len() && u[m] == r[k];
                assert(t.contains(u[m]));
                let q = choose|q: int| 0 <= q < t.len() && t[q] == u[m];
                assert(s[q] == r[k]);
            }
        }
    }
}

proof fn lemma_insert_len(s: Seq<EntryView>, e: EntryView)
    ensures
        insert_entry(s, e).len() == s.len() + 1,
    decreases s.len(),
{
    if s.len() > 0 && precedes(e.path, s.last().path) {
        lemma_insert_len(s.drop_last(), e);
    }
}

fn insert_entry_of(list: &mut Vec<ArtifactEntry>, e: ArtifactEntry)
    ensures
        entry_views(final(list)@) == insert_entry(entry_views(old(list)@), e@),
{
    let ghost all = entry_views(list@);
    let key = chars_of(e.path.as_str());
    let mut pos: usize = list.len();
    proof {
        assert(all.take(pos as int) =~= all);
        assert(all.skip(pos as int) =~= seq![]);
        assert(insert_entry(all, e@) + seq![] =~= insert_entry(all, e@));
    }
    while pos > 0 && precedes_of(&key, &chars_of(list[pos - 1].path.as_str()))
        invariant
            pos <= list@.len(),
            list@ == old(list)@,
            all == entry_views(list@),
            key@ == e.path@,
            insert_entry(all, e@) == insert_entry(all.take(pos as int), e@) + all.skip(pos as int),
        decreases pos,
    {
        proof {
            let t = all.take(pos as int);
            assert(t.last() == list@[pos - 1]@);
            assert(t.drop_last() =~= all.take(pos - 1));
            assert(insert_entry(all.take(pos - 1), e@).push(t.last()) + all.skip(pos as int)
                =~= insert_entry(all.take(pos - 1), e@) + all.skip(pos - 1));
        }
        pos -= 1;
    }
    proof {
        let t = all.take(pos as int);
        if pos > 0 {
            assert(t.last() == list@[pos - 1]@);
        }
        assert(insert_entry(t, e@) == t.push(e@));
        assert(entry_views(list@.insert(pos as int, e)) =~= t.push(e@) + all.skip(pos as int));
    }
    list.insert(pos, e);
}

fn sort_entries(list: Vec<ArtifactEntry>) -> (r: Vec<ArtifactEntry>)
    ensures
        entry_views(r@) == sorted_entries(entry_views(list@)),
{
    let mut out: Vec<ArtifactEntry> = Vec::new();
    let ghost all = entry_views(list@);
    let mut i: usize = 0;
    proof {
        assert(entry_views(out@) =~= seq![]);
    }
    while i < list.len()
        invariant
            i <= list@.len(),
            all == entry_views(list@),
            entry_views(out@) == sorted_entries(all.take(i as int)),
        decreases list@.len() - i,
    {
        let e = list[i].duplicate();
        insert_entry_of(&mut out, e);
        proof {
            assert(all.take(i as int + 1).drop_last() =~= all.take(i as int));
        }
        i += 1;
    }
    proof {
        assert(all.take(list@.len() as int) =~= all);
    }
    out
}

// ---------------------------------------------------------------------------
// Capturing a workspace

/// What stands at the path of an artifact.
#[derive(Debug)]
pub enum Found {
    Missing,
    Symlink { target: String },
    File { len: u64 },
    Other,
}

/// What has to be done before an artifact can be recorded.
#[derive(Clone, Copy, Debug, PartialEq, Eq, Structural)]
pub enum Next {
    /// Nothing: it is recorded.
    Recorded,
    /// The symlink has to be resolved.
    Resolve,
    /// The file has to be read.
    Read,
}

/// What is still to be learned of the artifact that was looked at last.
#[derive(Debug)]
enum Awaited {
    Nothing,
    Resolution { target: String },
    Bytes,
}

/// A manifest in the making: the paths in scope, and the entries of those that
/// have been recorded, one after the other in the order of the scope.
#[derive(Debug)]
pub struct ManifestBuilder {
    scope: Vec<String>,
    entries: Vec<ArtifactEntry>,
    total_bytes: u64,
    awaited: Awaited,
}

#[verifier::ext_equal]
pub enum AwaitedView {
    Nothing,
    Resolution { target: Seq<char> },
    Bytes,
}

#[verifier::ext_equal]
pub struct CaptureView {
    pub scope: Seq<Seq<char>>,
    pub entries: Seq<EntryView>,
    pub total_bytes: u64,
    pub awaited: AwaitedView,
}

impl View for ManifestBuilder {
    type V = CaptureView;

    closed spec fn view(&self) -> CaptureView {
        CaptureView {
            scope: strings(self.scope@),
            entries: entry_views(self.entries@),
            total_bytes: self.total_bytes,
            awaited: match self.awaited {
                Awaited::Nothing => AwaitedView::Nothing,
                Awaited::Resolution { target } => AwaitedView::Resolution { target: target@ },
                Awaited::Bytes => AwaitedView::Bytes,
            },
        }
    }
}

impl CaptureView {
    /// The path of the next artifact.
    pub open spec fn path(self) -> Seq<char> {
        self.scope[self.entries.len() as int]
    }

    pub open spec fn is_done(self) -> bool {
        self.entries.len() == self.scope.len()
    }

    /// The capture with one more artifact recorded.
    pub open spec fn with(self, entry: EntryView) -> CaptureView {
        CaptureView {
            entries: self.entries.push(entry),
            awaited: AwaitedView::Nothing,
            ..self
        }
    }
}

/// A capture before its first artifact.
pub open spec fn capture_of(scope: Seq<Seq<char>>) -> CaptureView {
    CaptureView { scope, entries: seq![], total_bytes: 0, awaited: AwaitedView::Nothing }
}

/// The manifest of some entries.
pub open spec fn manifest_of(entries: Seq<EntryView>) -> ManifestView {
    sealed(
        ManifestView {
            schema_version: SNAPSHOT_SCHEMA_VERSION,
            scope_policy: SCOPE_POLICY@,
            entries,
            manifest_digest: seq![],
        },
    )
}

/// A manifest with its entries in order and its digest.
pub open spec fn sealed(m: ManifestView) -> ManifestView {
    let ordered = ManifestView { entries: sorted_entries(m.entries), ..m };
    ManifestView { manifest_digest: digest_of_manifest(ordered), ..ordered }
}

pub open spec fn missing_entry(path: Seq<char>) -> EntryView {
    EntryView {
        path,
        kind: ArtifactKind::Missing,
        sha256: None,
        byte_len: 0,
        executable: false,
        symlink_target: None,
    }
}

pub open spec fn symlink_entry(path: Seq<char>, target: Seq<char>) -> EntryView {
    EntryView {
        path,
        kind: ArtifactKind::Symlink,
        sha256: None,
        byte_len: 0,
        executable: false,
        symlink_target: Some(target),
    }
}

pub open spec fn file_entry(path: Seq<char>, bytes: Seq<u8>, executable: bool) -> EntryView {
    EntryView {
        path,
        kind: ArtifactKind::File,
        sha256: Some(digest_text(bytes)),
        byte_len: bytes.len() as u64,
        executable,
        symlink_target: None,
    }
}

/// What keeps an artifact out of a manifest, as far as can be told from what
/// stands at its path.
pub open spec fn capture_fault(relative: Seq<char>, found: Found, total_bytes: u64) -> Option<
    Seq<char>,
> {
    match found {
        Found::Missing => None,
        Found::Symlink { target } => if starts_with(target@, "/"@) {
            Some(
                "absolute symlink "@ + relative
                    + " cannot be frozen into a reviewed snapshot"@,
            )
        } else if target@.len() == 0 {
            Some("symlink artifact "@ + relative + " has invalid metadata"@)
        } else {
            None
        },
        Found::File { len } => if len > MAX_FILE_BYTES {
            Some("artifact "@ + relative + " exceeds the 67108864-byte limit"@)
        } else if total_bytes + len > MAX_TOTAL_BYTES {
            Some("workspace snapshot exceeds the 1073741824-byte total limit"@)
        } else {
            None
        },
        Found::Other => Some("scoped artifact "@ + relative + " is not a regular file"@),
    }
}

fn file_entry_of(path: &str, bytes: &Vec<u8>, executable: bool) -> (r: ArtifactEntry)
    ensures
        r@ == file_entry(path@, bytes@, executable),
        is_digest(r@.sha256->0),
{
    let digest = digest_bytes(bytes.as_slice());
    ArtifactEntry {
        path: path.to_owned(),
        kind: ArtifactKind::File,
        sha256: Some(digest),
        byte_len: bytes.len() as u64,
        executable,
        symlink_target: None,
    }
}

pub broadcast proof fn lemma_entry_views_push(v: Seq<ArtifactEntry>, x: ArtifactEntry)
    ensures
        #[trigger] entry_views(v.push(x)) == entry_views(v).push(x@),
{
    assert(entry_views(v.push(x)) =~= entry_views(v).push(x@));
}

/// Entries whose paths ascend are in order as they stand.
proof fn lemma_ascending_is_sorted(s: Seq<EntryView>)
    requires
        forall|i: int, j: int|
            0 <= i < j < s.len() ==> #[trigger] precedes(s[i].path, s[j].path),
    ensures
        sorted_entries(s) == s,
    decreases s.len(),
{
    if s.len() > 0 {
        let t = s.drop_last();
        assert forall|i: int, j: int| 0 <= i < j < t.len() implies #[trigger] precedes(
            t[i].path,
            t[j].path,
        ) by {
            assert(precedes(s[i].path, s[j].path));
        }
        lemma_ascending_is_sorted(t);
        if t.len() > 0 {
            let a = t.last().path;
            let b = s.last().path;
            assert(precedes(s[s.len() - 2].path, s[s.len() - 1].path));
            if precedes(b, a) {
                lemma_precedes_transitive(a, b, a);
                lemma_precedes_irreflexive(a);
            }
        }
        assert(t.push(s.last()) =~= s);
    } else {
        assert(s =~= seq![]);
    }
}

impl ManifestBuilder {
    pub open spec fn wf(&self) -> bool {
        let c = self@;
        &&& is_sorted_set(c.scope)
        &&& c.scope.len() <= MAX_FILES
        &&& forall|k: int|
            0 <= k < c.scope.len() ==> !is_excluded(#[trigger] c.scope[k]) && !is_unsafe_relative(
                c.scope[k],
            )
        &&& c.entries.len() <= c.scope.len()
        &&& forall|k: int|
            0 <= k < c.entries.len() ==> (#[trigger] c.entries[k]).path == c.scope[k]
                && metadata_fit(c.entries[k])
        &&& !(c.awaited is Nothing) ==> !c.is_done()
        &&& c.awaited is Resolution ==> c.awaited->target.len() > 0
        &&& c.total_bytes <= MAX_TOTAL_BYTES
    }

    fn of_scope(scope: Vec<String>) -> (r: Result<ManifestBuilder, String>)
        requires
            is_sorted_set(strings(scope@)),
            forall|k: int|
                0 <= k < scope@.len() ==> !is_excluded(#[trigger] strings(scope@)[k])
                    && !is_unsafe_relative(strings(scope@)[k]),
        ensures
            r is Err <==> scope@.len() > MAX_FILES,
            r is Err ==> r->Err_0@ == "workspace snapshot exceeds the 20000-file limit"@,
            r is Ok ==> r->Ok_0.wf() && r->Ok_0@ == capture_of(strings(scope@)),
    {
        if scope.len() > MAX_FILES {
            return Err("workspace snapshot exceeds the 20000-file limit".to_owned());
        }
        let entries: Vec<ArtifactEntry> = Vec::new();
        proof {
            assert(entry_views(entries@) =~= seq![]);
        }
        Ok(ManifestBuilder { scope, entries, total_bytes: 0, awaited: Awaited::Nothing })
    }

    /// Begins a manifest of what `git ls-files -z` lists.
    pub fn of_listing(listing: &str) -> (r: Result<ManifestBuilder, String>)
        ensures
            match first_unsafe_from(scope_of_listing(listing@), 0) {
                Some(path) => r is Err && r->Err_0@ == "unsafe artifact path "@ + path,
                None => if scope_of_listing(listing@).len() > MAX_FILES {
                    r is Err && r->Err_0@ == "workspace snapshot exceeds the 20000-file limit"@
                } else {
                    &&& r is Ok
                    &&& r->Ok_0.wf()
                    &&& r->Ok_0@ == capture_of(scope_of_listing(listing@))
                },
            },
    {
        match scoped_paths_of_listing(listing) {
            Ok(scope) => {
                proof {
                    law_scope_excludes_what_is_excluded(split(listing@, CharClass::Only('\0')));
                    lemma_first_unsafe_from(scope_of_listing(listing@), 0);
                }
                ManifestBuilder::of_scope(scope)
            },
            Err(fault) => Err(fault),
        }
    }

    /// Begins a manifest of what a walk through the workspace found.
    pub fn of_walk(found: &Vec<String>) -> (r: Result<ManifestBuilder, String>)
        ensures
            match first_unsafe_from(scope_of_walk(strings(found@)), 0) {
                Some(path) => r is Err && r->Err_0@ == "unsafe artifact path "@ + path,
                None => if scope_of_walk(strings(found@)).len() > MAX_FILES {
                    r is Err && r->Err_0@ == "workspace snapshot exceeds the 20000-file limit"@
                } else {
                    &&& r is Ok
                    &&& r->Ok_0.wf()
                    &&& r->Ok_0@ == capture_of(scope_of_walk(strings(found@)))
                },
            },
    {
        match scoped_paths_of_walk(found) {
            Ok(scope) => {
                proof {
                    law_scope_excludes_what_is_excluded(strings(found@));
                    lemma_first_unsafe_from(scope_of_walk(strings(found@)), 0);
                }
                ManifestBuilder::of_scope(scope)
            },
            Err(fault) => Err(fault),
        }
    }

    /// The path of the artifact that is to be looked at, while there is one.
    pub fn next(&self) -> (r: Option<String>)
        requires
            self.wf(),
        ensures
            match r {
                Some(path) => !self@.is_done() && path@ == self@.path(),
                None => self@.is_done(),
            },
    {
        let n: usize = self.entries.len();
        if n < self.scope.len() {
            proof {
                assert(strings(self.scope@)[n as int] == self.scope@[n as int]@);
            }
            Some(self.scope[n].clone())
        } else {
            None
        }
    }

    /// Takes in what stands at the path of the next artifact. A missing artifact
    /// is recorded at once; the size of a file is counted.
    pub fn inspect(&mut self, found: &Found) -> (r: Result<Next, String>)
        requires
            old(self).wf(),
            !old(self)@.is_done(),
            old(self)@.awaited is Nothing,
        ensures
            final(self).wf(),
            match capture_fault(old(self)@.path(), *found, old(self)@.total_bytes) {
                Some(fault) => r is Err && r->Err_0@ == fault && final(self)@ == old(self)@,
                None => match *found {
                    Found::Missing => r == Ok::<Next, String>(Next::Recorded) && final(self)@
                        == old(self)@.with(missing_entry(old(self)@.path())),
                    Found::Symlink { target } => r == Ok::<Next, String>(Next::Resolve)
                        && final(self)@ == (CaptureView {
                        awaited: AwaitedView::Resolution { target: target@ },
                        ..old(self)@
                    }),
                    Found::File { len } => r == Ok::<Next, String>(Next::Read) && final(self)@ == (
                    CaptureView {
                        awaited: AwaitedView::Bytes,
                        total_bytes: (old(self)@.total_bytes + len) as u64,
                        ..old(self)@
                    }),
                    Found::Other => false,
                },
            },
    {
        broadcast use lemma_entry_views_push;

        let n: usize = self.entries.len();
        let relative = self.scope[n].clone();
        proof {
            assert(strings(self.scope@)[n as int] == self.scope@[n as int]@);
            assert(relative@ == self@.path());
        }
        match found {
            Found::Missing => {
                let entry = ArtifactEntry {
                    path: relative,
                    kind: ArtifactKind::Missing,
                    sha256: None,
                    byte_len: 0,
                    executable: false,
                    symlink_target: None,
                };
                self.entries.push(entry);
                Ok(Next::Recorded)
            },
            Found::Symlink { target } => {
                let t = chars_of(target.as_str());
                if starts_with_str(&t, "/") {
                    return Err(
                        cat3(
                            "absolute symlink ",
                            relative.as_str(),
                            " cannot be frozen into a reviewed snapshot",
                        ),
                    );
                }
                if t.len() == 0 {
                    return Err(
                        cat3("symlink artifact ", relative.as_str(), " has invalid metadata"),
                    );
                }
                self.awaited = Awaited::Resolution { target: target.clone() };
                Ok(Next::Resolve)
            },
            Found::File { len } => {
                if *len > MAX_FILE_BYTES {
                    return Err(
                        cat3("artifact ", relative.as_str(), " exceeds the 67108864-byte limit"),
                    );
                }
                if self.total_bytes + *len > MAX_TOTAL_BYTES {
                    return Err(
                        "workspace snapshot exceeds the 1073741824-byte total limit".to_owned(),
                    );
                }
                self.total_bytes += *len;
                self.awaited = Awaited::Bytes;
                Ok(Next::Read)
            },
            Found::Other => Err(
                cat3("scoped artifact ", relative.as_str(), " is not a regular file"),
            ),
        }
    }

    /// Records the symlink that was looked at, once it was resolved to
    /// `resolved`.
    pub fn record_symlink(&mut self, resolved: &str, root: &str) -> (r: Result<(), String>)
        requires
            old(self).wf(),
            old(self)@.awaited is Resolution,
        ensures
            final(self).wf(),
            r is Err <==> !is_within(resolved@, root@),
            r is Err ==> r->Err_0@ == "symlink "@ + old(self)@.path() + " escapes the workspace"@
                && final(self)@ == old(self)@,
            r is Ok ==> final(self)@ == old(self)@.with(
                symlink_entry(old(self)@.path(), old(self)@.awaited->target),
            ),
    {
        broadcast use lemma_entry_views_push;

        let n: usize = self.entries.len();
        let relative = self.scope[n].clone();
        proof {
            assert(strings(self.scope@)[n as int] == self.scope@[n as int]@);
        }
        if !path_is_within(resolved, root) {
            return Err(cat3("symlink ", relative.as_str(), " escapes the workspace"));
        }
        let target = match &self.awaited {
            Awaited::Resolution { target } => target.clone(),
            _ => String::new(),
        };
        let entry = ArtifactEntry {
            path: relative,
            kind: ArtifactKind::Symlink,
            sha256: None,
            byte_len: 0,
            executable: false,
            symlink_target: Some(target),
        };
        self.awaited = Awaited::Nothing;
        self.entries.push(entry);
        Ok(())
    }

    /// Records the file that was looked at, once it was read.
    pub fn record_file(&mut self, bytes: &Vec<u8>, executable: bool)
        requires
            old(self).wf(),
            old(self)@.awaited is Bytes,
        ensures
            final(self).wf(),
            final(self)@ == old(self)@.with(file_entry(old(self)@.path(), bytes@, executable)),
    {
        broadcast use lemma_entry_views_push;

        let n: usize = self.entries.len();
        proof {
            assert(strings(self.scope@)[n as int] == self.scope@[n as int]@);
        }
        let entry = file_entry_of(self.scope[n].as_str(), bytes, executable);
        self.awaited = Awaited::Nothing;
        self.entries.push(entry);
    }

    /// The finished manifest: one entry for each path in scope, in their order,
    /// and the digest of it all. It passes validation.
    pub fn finish(self) -> (r: ArtifactManifest)
        requires
            self.wf(),
            self@.is_done(),
        ensures
            r@ == manifest_of(self@.entries),
            r@.entries == self@.entries,
            r@.entries.len() == self@.scope.len() <= MAX_FILES,
            forall|k: int|
                0 <= k < r@.entries.len() ==> (#[trigger] r@.entries[k]).path == self@.scope[k]
                    && !is_excluded(r@.entries[k].path),
            is_sorted_set(self@.scope),
            manifest_fault(r@) is None,
    {
        let ghost es = self@.entries;
        let ghost scope = self@.scope;
        proof {
            assert forall|i: int, j: int| 0 <= i < j < es.len() implies #[trigger] precedes(
                es[i].path,
                es[j].path,
            ) by {
                assert(precedes(scope[i], scope[j]));
            }
            lemma_ascending_is_sorted(es);
        }
        let mut manifest = ArtifactManifest {
            schema_version: SNAPSHOT_SCHEMA_VERSION,
            scope_policy: SCOPE_POLICY.to_owned(),
            entries: self.entries,
            manifest_digest: String::new(),
        };
        seal(&mut manifest);
        proof {
            assert forall|i: int| 0 <= i < es.len() implies !is_unsafe_relative(
                (#[trigger] es[i]).path,
            ) && metadata_fit(es[i]) by {
                assert(es[i].path == scope[i]);
            }
            assert forall|i: int, j: int| 0 <= i < j < es.len() implies (#[trigger] es[i]).path
                != (#[trigger] es[j]).path by {
                assert(precedes(es[i].path, es[j].path));
                lemma_precedes_irreflexive(es[i].path);
            }
            assert(entries_sound(es));
            lemma_sound_from(manifest@.entries, 0);
            lemma_scope_policy_not_blank();
        }
        manifest
    }
}

proof fn lemma_scope_policy_not_blank()
    ensures
        !is_blank(SCOPE_POLICY@),
{
    reveal_strlit("git tracked+untracked (ignored/build caches and secret-like files excluded)");
    let s = SCOPE_POLICY@;
    assert(s[0] == 'g');
    assert(s.last() == ')');
    crate::text::lemma_trim_by_fixed(s, CharClass::White);
}

/// Sorts the entries of a manifest and writes its digest.
pub fn seal(manifest: &mut ArtifactManifest)
    ensures
        final(manifest)@ == sealed(old(manifest)@),
        is_digest(final(manifest).manifest_digest@),
{
    let mut unsorted: Vec<ArtifactEntry> = Vec::new();
    std::mem::swap(&mut unsorted, &mut manifest.entries);
    manifest.entries = sort_entries(unsorted);
    let digest = manifest_digest(manifest);
    manifest.manifest_digest = digest;
}

/// Adds a virtual artifact to a manifest that is about to be sealed.
pub fn add_virtual_artifact(manifest: &mut ArtifactManifest, artifact: &VirtualArtifact) -> (r:
    Result<(), String>)
    ensures
        match virtual_fault(old(manifest)@.entries, artifact.path@) {
            Some(fault) => r is Err && r->Err_0@ == fault && *final(manifest) == *old(manifest),
            None => r is Ok && final(manifest)@ == (ManifestView {
                entries: old(manifest)@.entries.push(
                    file_entry(artifact.path@, artifact.bytes@, false),
                ),
                ..old(manifest)@
            }) && metadata_fit(file_entry(artifact.path@, artifact.bytes@, false)),
        },
{
    broadcast use lemma_entry_views_push;

    let path = artifact.path.as_str();
    if let Err(fault) = validate_relative_path(path) {
        return Err(fault);
    }
    if same_str(path, snapshot_manifest_path().as_str()) || has_entry(&manifest.entries, path) {
        return Err(cat2("duplicate virtual artifact path ", path));
    }
    let entry = file_entry_of(path, &artifact.bytes, false);
    manifest.entries.push(entry);
    Ok(())
}

/// What keeps a virtual artifact out of a manifest.
pub open spec fn virtual_fault(entries: Seq<EntryView>, path: Seq<char>) -> Option<Seq<char>> {
    if is_unsafe_relative(path) {
        Some("unsafe artifact path "@ + path)
    } else if path == manifest_path() || lookup(entries, path) is Some {
        Some("duplicate virtual artifact path "@ + path)
    } else {
        None
    }
}

// ---------------------------------------------------------------------------
// Rounds

/// Whether a text is a UUID in one of the forms that are accepted.
pub uninterp spec fn is_uuid(text: Seq<char>) -> bool;

/// `uuid::Uuid::parse_str`: whether a text is a UUID. Named by `is_uuid`; the
/// accepted forms are not spelled out, but none of them is empty or holds a
/// slash.
#[verifier::external_body]
fn parses_as_uuid(text: &str) -> (r: bool)
    ensures
        r == is_uuid(text@),
        r ==> text@.len() > 0 && !has_char(text@, '/'),
{
    uuid::Uuid::parse_str(text).is_ok()
}

/// `uuid::Uuid::now_v7` in its hyphenated form: a UUID of 36 characters, digits,
/// letters and hyphens, that depends on the time and on chance.
#[verifier::external_body]
fn timed_uuid() -> (r: String)
    ensures
        is_uuid(r@),
        is_plain_id(r@),
        r@.len() == 36,
{
    uuid::Uuid::now_v7().to_string()
}

/// An identity for a new round, critic or tool event.
pub fn new_round_id() -> (r: String)
    ensures
        is_uuid(r@),
        is_plain_id(r@),
        r@.len() == 36,
{
    timed_uuid()
}

/// Accepts an identity of a round only where it is a UUID, so that no path can
/// be smuggled in with it.
pub fn check_round_id(round_id: &str) -> (r: Result<(), String>)
    ensures
        r is Ok <==> is_uuid(round_id@),
        r is Ok ==> round_id@.len() > 0 && !has_char(round_id@, '/'),
        r is Err ==> r->Err_0@ == "verification round id is not a UUID"@,
{
    if parses_as_uuid(round_id) {
        Ok(())
    } else {
        Err("verification round id is not a UUID".to_owned())
    }
}

// ---------------------------------------------------------------------------
// Looking entries up

/// The first of the entries from `i` on with this path.
pub open spec fn lookup_from(entries: Seq<EntryView>, path: Seq<char>, i: int) -> Option<EntryView>
    decreases entries.len() - i,
{
    if i < 0 || i >= entries.len() {
        None
    } else if entries[i].path == path {
        Some(entries[i])
    } else {
        lookup_from(entries, path, i + 1)
    }
}

pub open spec fn lookup(entries: Seq<EntryView>, path: Seq<char>) -> Option<EntryView> {
    lookup_from(entries, path, 0)
}

pub proof fn lemma_lookup_from(entries: Seq<EntryView>, path: Seq<char>, i: int)
    requires
        0 <= i,
    ensures
        lookup_from(entries, path, i) is Some <==> exists|k: int|
            i <= k < entries.len() && (#[trigger] entries[k]).path == path,
        lookup_from(entries, path, i) is Some ==> lookup_from(entries, path, i)->0.path == path
            && entries.contains(lookup_from(entries, path, i)->0),
    decreases entries.len() - i,
{
    if i < entries.len() {
        lemma_lookup_from(entries, path, i + 1);
        if entries[i].path == path {
            assert(entries.contains(entries[i]));
        }
    }
}

pub(crate) fn find_entry(entries: &Vec<ArtifactEntry>, path: &str) -> (r: Option<usize>)
    ensures
        match r {
            Some(i) => i < entries@.len() && lookup(entry_views(entries@), path@) == Some(
                entries@[i as int]@,
            ),
            None => lookup(entry_views(entries@), path@) is None,
        },
{
    let ghost es = entry_views(entries@);
    let mut i: usize = 0;
    while i < entries.len()
        invariant
            i <= entries@.len(),
            es == entry_views(entries@),
            lookup(es, path@) == lookup_from(es, path@, i as int),
        decreases entries@.len() - i,
    {
        proof {
            assert(es[i as int] == entries@[i as int]@);
        }
        if same_str(entries[i].path.as_str(), path) {
            return Some(i);
        }
        i += 1;
    }
    None
}

fn has_entry(entries: &Vec<ArtifactEntry>, path: &str) -> (r: bool)
    ensures
        r == (lookup(entry_views(entries@), path@) is Some),
{
    find_entry(entries, path).is_some()
}

// ---------------------------------------------------------------------------
// What a manifest stands for

/// What keeps an artifact out of a manifest: a symlink that is absolute or leads
/// nowhere, a file of more than 64 mebibytes or one that takes the workspace past
/// one gibibyte, and whatever is neither a file nor a symlink. What is missing is
/// recorded as missing.
pub proof fn law_artifact_is_captured_within_bounds(
    path: Seq<char>,
    found: Found,
    total_bytes: u64,
)
    ensures
        capture_fault(path, found, total_bytes) is None <==> match found {
            Found::Missing => true,
            Found::Symlink { target } => target@.len() > 0 && target@[0] != '/',
            Found::File { len } => len <= 67108864 && total_bytes + len <= 1073741824,
            Found::Other => false,
        },
{
    reveal_strlit("/");
    if found is Symlink {
        let target = found->target@;
        if starts_with(target, "/"@) {
            assert(target.subrange(0, 1)[0] == '/');
        }
        if target.len() > 0 && target[0] == '/' {
            assert(target.subrange(0, 1) =~= "/"@);
        }
    }
}

/// A manifest holds together exactly where it is in the first schema, says how it
/// was scoped, is not oversized, names each of its paths once and safely, says of
/// each what fits its kind, and has the digest of what it says.
pub proof fn law_manifest_holds_together(m: ManifestView)
    ensures
        manifest_fault(m) is None <==> {
            &&& m.schema_version == 1
            &&& m.entries.len() <= 20016
            &&& trim(m.scope_policy).len() > 0
            &&& forall|i: int|
                0 <= i < m.entries.len() ==> !is_unsafe_relative((#[trigger] m.entries[i]).path)
                    && match m.entries[i].kind {
                    ArtifactKind::File => m.entries[i].sha256 is Some && is_digest(
                        m.entries[i].sha256->0,
                    ) && m.entries[i].symlink_target is None,
                    ArtifactKind::Symlink => m.entries[i].sha256 is None
                        && m.entries[i].symlink_target is Some
                        && m.entries[i].symlink_target->0.len() > 0,
                    ArtifactKind::Missing => m.entries[i].sha256 is None
                        && m.entries[i].symlink_target is None && m.entries[i].byte_len == 0,
                }
            &&& forall|i: int, j: int|
                0 <= i < j < m.entries.len() ==> (#[trigger] m.entries[i]).path != (
                #[trigger] m.entries[j]).path
            &&& is_digest(m.manifest_digest)
            &&& m.manifest_digest == digest_of_manifest(m)
        },
{
    if entries_fault_from(m.entries, 0) is None {
        lemma_faultless_is_sound(m.entries, 0);
    }
    if entries_sound(m.entries) {
        lemma_sound_from(m.entries, 0);
    }
    assert(entries_fault_from(m.entries, 0) is None <==> entries_sound(m.entries));
}

/// The digest of a manifest is taken over all that it says: each of its entries,
/// and of each entry its path, its kind, its digest, its length, whether it is
/// executable, and where it leads.
pub proof fn law_digest_covers_every_entry(m: ManifestView, k: int)
    requires
        0 <= k < m.entries.len(),
    ensures
        digest_of_manifest(m) == digest_text(encode_utf8(manifest_json(m))),
        contains(manifest_json(m), json_string_of(m.scope_policy)),
        contains(
            manifest_json(m),
            "{\"path\":"@ + json_string_of(m.entries[k].path) + ",\"kind\":\""@ + (
            match m.entries[k].kind {
                ArtifactKind::File => "file"@,
                ArtifactKind::Symlink => "symlink"@,
                ArtifactKind::Missing => "missing"@,
            }) + "\",\"sha256\":"@ + (match m.entries[k].sha256 {
                Some(digest) => json_string_of(digest),
                None => "null"@,
            }) + ",\"byte_len\":"@ + decimal(m.entries[k].byte_len as nat) + ",\"executable\":"@ + (
            if m.entries[k].executable {
                "true"@
            } else {
                "false"@
            }) + ",\"symlink_target\":"@ + (match m.entries[k].symlink_target {
                Some(target) => json_string_of(target),
                None => "null"@,
            }) + "}"@,
        ),
{
    let json = manifest_json(m);
    let parts = entries_json(m.entries);
    lemma_join_holds_its_parts(parts, ","@, k);
    let head = "{\"schema_version\":"@ + decimal(m.schema_version as nat) + ",\"scope_policy\":"@;
    let policy = json_string_of(m.scope_policy);
    let list = join(parts, ","@);
    let tail = "],\"manifest_digest\":\"\"}"@;
    assert(json =~= head + policy + (",\"entries\":["@ + list + tail));
    lemma_contains_itself(head, policy, ",\"entries\":["@ + list + tail);
    assert(json =~= (head + policy + ",\"entries\":["@) + list + tail);
    lemma_contains_in_whole(head + policy + ",\"entries\":["@, list, tail, parts[k]);
    assert(parts[k] == entry_json(m.entries[k]));
    lemma_entry_json(m.entries[k]);
}

proof fn lemma_entry_json(e: EntryView)
    ensures
        entry_json(e) == "{\"path\":"@ + json_string_of(e.path) + ",\"kind\":\""@ + (match e.kind {
            ArtifactKind::File => "file"@,
            ArtifactKind::Symlink => "symlink"@,
            ArtifactKind::Missing => "missing"@,
        }) + "\",\"sha256\":"@ + (match e.sha256 {
            Some(digest) => json_string_of(digest),
            None => "null"@,
        }) + ",\"byte_len\":"@ + decimal(e.byte_len as nat) + ",\"executable\":"@ + (
        if e.executable {
            "true"@
        } else {
            "false"@
        }) + ",\"symlink_target\":"@ + (match e.symlink_target {
            Some(target) => json_string_of(target),
            None => "null"@,
        }) + "}"@,
{
}

proof fn lemma_insert_members(s: Seq<EntryView>, e: EntryView, x: EntryView)
    ensures
        insert_entry(s, e).contains(x) <==> x == e || s.contains(x),
    decreases s.len(),
{
    let now = insert_entry(s, e);
    if s.len() > 0 && precedes(e.path, s.last().path) {
        let t = s.drop_last();
        lemma_insert_members(t, e, x);
        let u = insert_entry(t, e);
        if now.contains(x) {
            let k = choose|k: int| 0 <= k < now.len() && now[k] == x;
            if k < u.len() {
                assert(u[k] == x);
                if t.contains(x) {
                    let q = choose|q: int| 0 <= q < t.len() && t[q] == x;
                    assert(s[q] == x);
                }
            } else {
                assert(s[s.len() - 1] == x);
            }
        }
        if x == e || t.contains(x) {
            let k = choose|k: int| 0 <= k < u.len() && u[k] == x;
            assert(now[k] == x);
        }
        if s.contains(x) && !t.contains(x) {
            let q = choose|q: int| 0 <= q < s.len() && s[q] == x;
            if q < t.len() {
                assert(t[q] == x);
            }
            assert(now[u.len() as int] == x);
        }
    } else {
        assert(now[s.len() as int] == e);
        if s.contains(x) {
            let q = choose|q: int| 0 <= q < s.len() && s[q] == x;
            assert(now[q] == x);
        }
        if now.contains(x) && x != e {
            let k = choose|k: int| 0 <= k < now.len() && now[k] == x;
            assert(s[k] == x);
        }
    }
}

proof fn lemma_insert_ascends(s: Seq<EntryView>, e: EntryView)
    requires
        forall|i: int, j: int|
            0 <= i < j < s.len() ==> !precedes((#[trigger] s[j]).path, (#[trigger] s[i]).path),
    ensures
        forall|i: int, j: int|
            0 <= i < j < insert_entry(s, e).len() ==> !precedes(
                (#[trigger] insert_entry(s, e)[j]).path,
                (#[trigger] insert_entry(s, e)[i]).path,
            ),
    decreases s.len(),
{
    let now = insert_entry(s, e);
    lemma_insert_len(s, e);
    if s.len() > 0 && precedes(e.path, s.last().path) {
        let t = s.drop_last();
        assert forall|i: int, j: int| 0 <= i < j < t.len() implies !precedes(
            (#[trigger] t[j]).path,
            (#[trigger] t[i]).path,
        ) by {
            assert(!precedes(s[j].path, s[i].path));
        }
        lemma_insert_ascends(t, e);
        lemma_insert_len(t, e);
        let u = insert_entry(t, e);
        assert forall|i: int, j: int| 0 <= i < j < now.len() implies !precedes(
            (#[trigger] now[j]).path,
            (#[trigger] now[i]).path,
        ) by {
            if j < u.len() {
                assert(!precedes(u[j].path, u[i].path));
            } else {
                lemma_insert_members(t, e, u[i]);
                assert(u.contains(u[i]));
                let last = s.last().path;
                if u[i] == e {
                    if precedes(last, e.path) {
                        lemma_precedes_transitive(last, e.path, last);
                        lemma_precedes_irreflexive(last);
                    }
                } else {
                    let q = choose|q: int| 0 <= q < t.len() && t[q] == u[i];
                    assert(!precedes(s[s.len() - 1].path, s[q].path));
                }
            }
        }
    } else {
        assert forall|i: int, j: int| 0 <= i < j < now.len() implies !precedes(
            (#[trigger] now[j]).path,
            (#[trigger] now[i]).path,
        ) by {
            if j < s.len() {
                assert(!precedes(s[j].path, s[i].path));
            } else if s.len() > 0 {
                let last = s.last().path;
                if precedes(e.path, s[i].path) {
                    if i < s.len() - 1 {
                        assert(!precedes(s[s.len() - 1].path, s[i].path));
                        lemma_precedes_total(s[i].path, last);
                        if s[i].path != last {
                            lemma_precedes_transitive(e.path, s[i].path, last);
                        }
                    }
                }
            }
        }
    }
}

/// Sorting neither adds nor drops an entry, and puts them in the order of their
/// paths.
pub proof fn law_sorted_entries_are_the_entries_in_order(s: Seq<EntryView>, x: EntryView)
    ensures
        sorted_entries(s).len() == s.len(),
        sorted_entries(s).contains(x) <==> s.contains(x),
        forall|i: int, j: int|
            0 <= i < j < sorted_entries(s).len() ==> !precedes(
                (#[trigger] sorted_entries(s)[j]).path,
                (#[trigger] sorted_entries(s)[i]).path,
            ),
    decreases s.len(),
{
    if s.len() > 0 {
        let t = s.drop_last();
        law_sorted_entries_are_the_entries_in_order(t, x);
        lemma_insert_members(sorted_entries(t), s.last(), x);
        lemma_insert_ascends(sorted_entries(t), s.last());
        lemma_insert_len(sorted_entries(t), s.last());
        if s.contains(x) {
            let k = choose|k: int| 0 <= k < s.len() && s[k] == x;
            if k < t.len() {
                assert(t[k] == x);
            }
        }
        if t.contains(x) {
            let k = choose|k: int| 0 <= k < t.len() && t[k] == x;
            assert(s[k] == x);
        }
        assert(s[s.len() - 1] == s.last());
    }
}

/// An entry is found by its path exactly where there is one, and the first of
/// them is found.
pub proof fn law_entry_is_found_by_its_path(entries: Seq<EntryView>, path: Seq<char>, k: int)
    requires
        0 <= k < entries.len(),
        entries[k].path == path,
        forall|m: int| 0 <= m < k ==> (#[trigger] entries[m]).path != path,
    ensures
        lookup(entries, path) == Some(entries[k]),
{
    lemma_found_at(entries, path, 0, k);
}

proof fn lemma_found_at(entries: Seq<EntryView>, path: Seq<char>, i: int, k: int)
    requires
        0 <= i <= k < entries.len(),
        entries[k].path == path,
        forall|m: int| i <= m < k ==> (#[trigger] entries[m]).path != path,
    ensures
        lookup_from(entries, path, i) == Some(entries[k]),
    decreases k - i,
{
    if i < k {
        lemma_found_at(entries, path, i + 1, k);
    }
}

/// A document of a round is added exactly where its path is safe, is not that of
/// the manifest, and is not taken; it is recorded as a plain file with the digest
/// and the number of its bytes.
pub proof fn law_document_is_added_at_a_place_of_its_own(
    entries: Seq<EntryView>,
    path: Seq<char>,
    bytes: Seq<u8>,
    executable: bool,
)
    ensures
        virtual_fault(entries, path) is None <==> !is_unsafe_relative(path) && path
            != manifest_path() && forall|k: int|
            0 <= k < entries.len() ==> (#[trigger] entries[k]).path != path,
        file_entry(path, bytes, executable).path == path,
        file_entry(path, bytes, executable).kind == ArtifactKind::File,
        file_entry(path, bytes, executable).sha256 == Some(digest_text(bytes)),
        bytes.len() <= u64::MAX ==> file_entry(path, bytes, executable).byte_len == bytes.len(),
        file_entry(path, bytes, executable).executable == executable,
        file_entry(path, bytes, executable).symlink_target is None,
{
    lemma_lookup_from(entries, path, 0);
}

/// What is not there is recorded as missing, and a symlink with its target; neither
/// has bytes.
pub proof fn law_missing_artifacts_and_symlinks_are_recorded_as_such(
    path: Seq<char>,
    target: Seq<char>,
)
    ensures
        missing_entry(path).path == path && missing_entry(path).kind == ArtifactKind::Missing,
        missing_entry(path).sha256 is None && missing_entry(path).symlink_target is None,
        missing_entry(path).byte_len == 0 && !missing_entry(path).executable,
        symlink_entry(path, target).path == path && symlink_entry(path, target).kind
            == ArtifactKind::Symlink,
        symlink_entry(path, target).symlink_target == Some(target),
        symlink_entry(path, target).sha256 is None && symlink_entry(path, target).byte_len == 0,
{
}

/// Sealing a manifest keeps what it says: its schema, its scope and each of its
/// entries; and gives it the digest of that.
pub proof fn law_sealing_keeps_what_a_manifest_says(m: ManifestView, x: EntryView)
    ensures
        sealed(m).schema_version == m.schema_version,
        sealed(m).scope_policy == m.scope_policy,
        sealed(m).entries.len() == m.entries.len(),
        sealed(m).entries.contains(x) <==> m.entries.contains(x),
        sealed(m).manifest_digest == digest_of_manifest(sealed(m)),
        manifest_of(m.entries).schema_version == 1,
        manifest_of(m.entries).scope_policy
            == "git tracked+untracked (ignored/build caches and secret-like files excluded)"@,
{
    law_sorted_entries_are_the_entries_in_order(m.entries, x);
}

} // verus!
