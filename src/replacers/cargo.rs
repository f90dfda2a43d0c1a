//! Workspace propagation: bumps the lock file entries and the manifests of
//! the selected packages, and the version a workspace shares with its
//! members, editing each file at most once.
use super::file;
use super::VersionReplacement;
use crate::config::CargoReplaceMode;
use crate::documents::{
    lock_entries_of, lock_written, manifest_versions, manifest_written, opt_view, version_parses,
    DeclaredVersion, LockDoc, ManifestDoc, ParsedVersion,
};
use crate::error::BumpError;
use vstd::prelude::*;
use vstd::slice::slice_to_vec;
use vstd::utf8::encode_utf8;

verus! {

/// A workspace member and the current content of its manifest.
#[derive(Debug)]
pub struct WorkspacePackage {
    pub name: String,
    pub manifest_path: String,
    pub manifest: Vec<u8>,
}

/// A snapshot of a workspace: its members, its root manifest and its lock
/// file, with their current contents.
#[derive(Debug)]
pub struct Workspace {
    pub root_manifest_path: String,
    pub root_manifest: Vec<u8>,
    pub lock_path: String,
    pub lock: String,
    pub packages: Vec<WorkspacePackage>,
}

impl Workspace {
    /// Members have distinct manifest paths, and no manifest is the lock file.
    pub open spec fn wf(&self) -> bool {
        &&& self.root_manifest_path@ != self.lock_path@
        &&& forall|i: int|
            0 <= i < self.packages@.len() ==> (#[trigger] self.packages@[i]).manifest_path@
                != self.lock_path@
        &&& forall|i: int, j: int|
            0 <= i < j < self.packages@.len() ==> (#[trigger] self.packages@[i]).manifest_path@
                != (#[trigger] self.packages@[j]).manifest_path@
    }
}

/// The manifest parses and has a `[package]` table.
pub open spec fn has_package(bytes: Seq<u8>) -> bool {
    match manifest_versions(bytes) {
        Some((Some(_), _)) => true,
        _ => false,
    }
}

/// The manifest sets its package's own version to `old`.
pub open spec fn declares(bytes: Seq<u8>, old: Seq<char>) -> bool {
    match manifest_versions(bytes) {
        Some((Some(Some(v)), _)) => v == old,
        _ => false,
    }
}

/// The manifest shares the version `old` through `[workspace.package]`.
pub open spec fn shares(bytes: Seq<u8>, old: Seq<char>) -> bool {
    match manifest_versions(bytes) {
        Some((_, Some(v))) => v == old,
        _ => false,
    }
}

/// Some selected member is called `name`.
pub open spec fn selected_name(mode: CargoReplaceMode, pkgs: Seq<WorkspacePackage>, name: Seq<
    char,
>) -> bool {
    exists|j: int| 0 <= j < pkgs.len() && mode.targets(name) && (#[trigger] pkgs[j]).name@ == name
}

/// A lock entry that is bumped: a selected member at exactly `old`.
pub open spec fn entry_bumped(
    mode: CargoReplaceMode,
    pkgs: Seq<WorkspacePackage>,
    e: (Seq<char>, Seq<char>),
    old: Seq<char>,
) -> bool {
    selected_name(mode, pkgs, e.0) && e.1 == old
}

/// The lock file has an entry to bump.
pub open spec fn lock_changes(
    mode: CargoReplaceMode,
    pkgs: Seq<WorkspacePackage>,
    entries: Seq<(Seq<char>, Seq<char>)>,
    old: Seq<char>,
) -> bool {
    exists|k: int| 0 <= k < entries.len() && entry_bumped(mode, pkgs, #[trigger] entries[k], old)
}

/// The lock entries after the bump.
pub open spec fn bumped_entries(
    mode: CargoReplaceMode,
    pkgs: Seq<WorkspacePackage>,
    entries: Seq<(Seq<char>, Seq<char>)>,
    old: Seq<char>,
    new: Seq<char>,
) -> Seq<(Seq<char>, Seq<char>)> {
    entries.map_values(
        |e: (Seq<char>, Seq<char>)|
            if entry_bumped(mode, pkgs, e, old) {
                (e.0, new)
            } else {
                e
            },
    )
}

/// Member `p` is selected and declares `old` as its own version.
pub open spec fn package_bumped(mode: CargoReplaceMode, p: WorkspacePackage, old: Seq<char>) -> bool {
    mode.targets(p.name@) && declares(p.manifest@, old)
}

/// Some bumped member has the root manifest as its manifest.
pub open spec fn root_is_bumped_member(ws: Workspace, mode: CargoReplaceMode, old: Seq<char>) -> bool {
    exists|i: int|
        0 <= i < ws.packages@.len() && package_bumped(mode, #[trigger] ws.packages@[i], old)
            && ws.packages@[i].manifest_path@ == ws.root_manifest_path@
}

/// The failures that the inputs alone decide: a version that is no semantic
/// version, a lock file or a selected member's manifest that does not parse
/// or has no `[package]`, and a root manifest that must be read and does not
/// parse.
pub open spec fn planning_fails(ws: Workspace, mode: CargoReplaceMode, v: VersionReplacement) -> bool {
    ||| !version_parses(v.old_version@)
    ||| !version_parses(v.new_version@)
    ||| lock_entries_of(ws.lock@) is None
    ||| exists|i: int|
        0 <= i < ws.packages@.len() && mode.targets((#[trigger] ws.packages@[i]).name@)
            && !has_package(ws.packages@[i].manifest@)
    ||| (!root_is_bumped_member(ws, mode, v.old_version@) && manifest_versions(
        ws.root_manifest@,
    ) is None)
}

/// The entries of the workspace's lock file; none where it does not parse.
pub open spec fn lock_entries(ws: Workspace) -> Seq<(Seq<char>, Seq<char>)> {
    match lock_entries_of(ws.lock@) {
        Some(e) => e,
        None => Seq::empty(),
    }
}

/// The text a bumped member's manifest is written as: its own version set
/// to `new`, and, where it is the root manifest and shares `old`, the shared
/// version set to `new` as well.
pub open spec fn member_written(ws: Workspace, p: WorkspacePackage, old: Seq<char>, new: Seq<char>) -> Option<
    Seq<char>,
> {
    manifest_written(
        p.manifest@,
        Some(new),
        if p.manifest_path@ == ws.root_manifest_path@ && shares(p.manifest@, old) {
            Some(new)
        } else {
            None
        },
    )
}

/// The text the root manifest is written as: its shared version set to `new`.
pub open spec fn root_written(ws: Workspace, new: Seq<char>) -> Option<Seq<char>> {
    manifest_written(ws.root_manifest@, None, Some(new))
}

/// The text the lock file is written as: its entries bumped.
pub open spec fn lock_after(ws: Workspace, mode: CargoReplaceMode, old: Seq<char>, new: Seq<char>) -> Seq<char> {
    lock_written(ws.lock@, bumped_entries(mode, ws.packages@, lock_entries(ws), old, new))
}

/// Writing back every manifest to edit succeeds.
pub open spec fn writes_succeed(ws: Workspace, mode: CargoReplaceMode, old: Seq<char>, new: Seq<char>) -> bool {
    &&& forall|i: int|
        0 <= i < ws.packages@.len() && package_bumped(mode, #[trigger] ws.packages@[i], old)
            ==> member_written(ws, ws.packages@[i], old, new) is Some
    &&& (shares(ws.root_manifest@, old) && !root_is_bumped_member(ws, mode, old)) ==> root_written(
        ws,
        new,
    ) is Some
}

/// An edit that the propagation owes, with its exact content: the lock file
/// when an entry changes, a bumped member's manifest, or the root manifest
/// when it shares `old` and no member's edit covers it.
pub open spec fn edit_owed(
    ws: Workspace,
    mode: CargoReplaceMode,
    old: Seq<char>,
    new: Seq<char>,
    e: file::Replacer,
) -> bool {
    ||| (e.path@ == ws.lock_path@ && lock_changes(mode, ws.packages@, lock_entries(ws), old)
        && e.contents@ == encode_utf8(lock_after(ws, mode, old, new)))
    ||| exists|i: int|
        0 <= i < ws.packages@.len() && package_bumped(mode, #[trigger] ws.packages@[i], old)
            && e.path@ == ws.packages@[i].manifest_path@ && (member_written(
            ws,
            ws.packages@[i],
            old,
            new,
        ) matches Some(t) && e.contents@ == encode_utf8(t))
    ||| (e.path@ == ws.root_manifest_path@ && shares(ws.root_manifest@, old) && !root_is_bumped_member(
        ws,
        mode,
        old,
    ) && (root_written(ws, new) matches Some(t) && e.contents@ == encode_utf8(t)))
}

/// The error that propagation may end with: a planning failure, or a
/// manifest that toml refuses to write.
pub open spec fn propagation_fails_with(e: BumpError, ws: Workspace, mode: CargoReplaceMode, v: VersionReplacement) -> bool {
    planning_fails(ws, mode, v) || (e is TomlSerialize && !writes_succeed(
        ws,
        mode,
        v.old_version@,
        v.new_version@,
    ))
}

/// Some edit is for `path`.
pub open spec fn edits_path(edits: Seq<file::Replacer>, path: Seq<char>) -> bool {
    exists|k: int| 0 <= k < edits.len() && (#[trigger] edits[k]).path@ == path
}

/// The text as bytes.
fn text_bytes(text: String) -> (r: Vec<u8>)
    ensures
        r@ == vstd::utf8::encode_utf8(text@),
{
    slice_to_vec(text.as_str().as_bytes())
}

/// Tells whether some selected member is called `name`.
fn is_selected_name(mode: &CargoReplaceMode, pkgs: &Vec<WorkspacePackage>, name: &String) -> (r:
    bool)
    ensures
        r == selected_name(*mode, pkgs@, name@),
{
    if !mode.is_target(name) {
        return false;
    }
    let mut j: usize = 0;
    while j < pkgs.len()
        invariant
            j <= pkgs@.len(),
            mode.targets(name@),
            forall|k: int| 0 <= k < j ==> (#[trigger] pkgs@[k]).name@ != name@,
        decreases pkgs@.len() - j,
    {
        if pkgs[j].name == *name {
            assert(pkgs@[j as int].name@ == name@);
            return true;
        }
        j = j + 1;
    }
    false
}

/// Bumps, in the lock file, every selected member recorded at exactly `old`.
fn update_lock(
    lock: &mut LockDoc,
    mode: &CargoReplaceMode,
    pkgs: &Vec<WorkspacePackage>,
    old_version: &String,
    new_version: &ParsedVersion,
) -> (changed: bool)
    ensures
        final(lock).source() == old(lock).source(),
        final(lock).entries() == bumped_entries(
            *mode,
            pkgs@,
            old(lock).entries(),
            old_version@,
            new_version.text(),
        ),
        changed == lock_changes(*mode, pkgs@, old(lock).entries(), old_version@),
{
    let ghost orig = lock.entries();
    let ghost goal = bumped_entries(*mode, pkgs@, orig, old_version@, new_version.text());
    let n = lock.len();
    let mut changed = false;
    let mut i: usize = 0;
    while i < n
        invariant
            i <= n,
            n == orig.len(),
            goal == bumped_entries(*mode, pkgs@, orig, old_version@, new_version.text()),
            lock.source() == old(lock).source(),
            orig == old(lock).entries(),
            lock.entries().len() == n,
            forall|k: int| 0 <= k < i ==> #[trigger] lock.entries()[k] == goal[k],
            forall|k: int| i <= k < n ==> #[trigger] lock.entries()[k] == orig[k],
            changed == exists|k: int|
                0 <= k < i && entry_bumped(*mode, pkgs@, #[trigger] orig[k], old_version@),
        decreases n - i,
    {
        let (name, version) = lock.entry(i);
        assert(orig[i as int] == (name@, version@));
        if version == *old_version && is_selected_name(mode, pkgs, &name) {
            lock.set_version(i, new_version);
            changed = true;
        }
        assert(lock.entries()[i as int] == goal[i as int]);
        i = i + 1;
    }
    assert(lock.entries() =~= goal);
    changed
}

/// Sets the shared version to `new` where the manifest shares `old`.
fn modify_workspace_root(
    doc: &mut ManifestDoc,
    workspace: &Option<String>,
    old_version: &String,
    new_version: &String,
)
    ensures
        final(doc).source() == old(doc).source(),
        final(doc).package_set() == old(doc).package_set(),
        final(doc).shared_set() == if opt_view(*workspace) == Some(old_version@) {
            Some(new_version@)
        } else {
            old(doc).shared_set()
        },
{
    match workspace {
        Some(v) => {
            if *v == *old_version {
                doc.set_shared(new_version.as_str());
            }
        },
        None => {},
    }
}

/// The edit of member `p`'s manifest, where it declares `old` as its own
/// version: the manifest written with the new version, and, where it is the
/// root manifest and shares `old`, with the shared version bumped too.
fn update_package(p: &WorkspacePackage, ws: &Workspace, old_version: &String, new_version: &String) -> (r:
    Result<Option<file::Replacer>, BumpError>)
    ensures
        !has_package(p.manifest@) ==> (r matches Err(e) && (e is CargoToml || e is InvalidCargoToml)),
        has_package(p.manifest@) && !declares(p.manifest@, old_version@) ==> r matches Ok(None),
        declares(p.manifest@, old_version@) ==> match member_written(*ws, *p, old_version@, new_version@) {
            Some(t) => r matches Ok(Some(e)) && e.path@ == p.manifest_path@ && e.contents@ == encode_utf8(t),
            None => r matches Err(e) && e is TomlSerialize,
        },
{
    let (mut doc, versions) = match ManifestDoc::parse(p.manifest.as_slice()) {
        Ok(parsed) => parsed,
        Err(e) => return Err(BumpError::CargoToml(e)),
    };
    match &versions.package {
        None => Err(BumpError::InvalidCargoToml(p.manifest_path.clone())),
        Some(DeclaredVersion::Inherited) => Ok(None),
        Some(DeclaredVersion::Explicit(v)) => {
            if *v != *old_version {
                return Ok(None);
            }
            doc.set_package(new_version.as_str());
            if p.manifest_path == ws.root_manifest_path {
                modify_workspace_root(&mut doc, &versions.workspace, old_version, new_version);
            }
            match doc.text() {
                Ok(text) => Ok(Some(file::Replacer { path: p.manifest_path.clone(), contents: text_bytes(text) })),
                Err(e) => Err(BumpError::TomlSerialize(e)),
            }
        },
    }
}

/// The edit of the root manifest, where it shares `old` with its members:
/// the manifest written with the shared version bumped.
fn update_workspace_root(ws: &Workspace, old_version: &String, new_version: &String) -> (r: Result<
    Option<file::Replacer>,
    BumpError,
>)
    ensures
        manifest_versions(ws.root_manifest@) is None ==> (r matches Err(e) && e is CargoToml),
        manifest_versions(ws.root_manifest@) is Some && !shares(ws.root_manifest@, old_version@)
            ==> r matches Ok(None),
        shares(ws.root_manifest@, old_version@) ==> match root_written(*ws, new_version@) {
            Some(t) => r matches Ok(Some(e)) && e.path@ == ws.root_manifest_path@ && e.contents@
                == encode_utf8(t),
            None => r matches Err(e) && e is TomlSerialize,
        },
{
    let (mut doc, versions) = match ManifestDoc::parse(ws.root_manifest.as_slice()) {
        Ok(parsed) => parsed,
        Err(e) => return Err(BumpError::CargoToml(e)),
    };
    match &versions.workspace {
        Some(v) => {
            if *v != *old_version {
                return Ok(None);
            }
        },
        None => {
            return Ok(None);
        },
    }
    doc.set_shared(new_version.as_str());
    match doc.text() {
        Ok(text) => Ok(Some(file::Replacer { path: ws.root_manifest_path.clone(), contents: text_bytes(text) })),
        Err(e) => Err(BumpError::TomlSerialize(e)),
    }
}

/// Tells whether some edit is for `path`.
fn has_path(edits: &Vec<file::Replacer>, path: &String) -> (r: bool)
    ensures
        r == edits_path(edits@, path@),
{
    let mut k: usize = 0;
    while k < edits.len()
        invariant
            k <= edits@.len(),
            forall|j: int| 0 <= j < k ==> (#[trigger] edits@[j]).path@ != path@,
        decreases edits@.len() - k,
    {
        if edits[k].path == *path {
            assert(edits@[k as int].path@ == path@);
            return true;
        }
        k = k + 1;
    }
    false
}

/// What the propagation's edits satisfy: no path twice; each edit owed,
/// with its exact content; the lock file edited when an entry changes; each
/// bumped member's manifest edited; the root manifest edited when it shares
/// the old version.
pub open spec fn propagated(
    ws: Workspace,
    mode: CargoReplaceMode,
    old: Seq<char>,
    new: Seq<char>,
    edits: Seq<file::Replacer>,
) -> bool {
    &&& forall|a: int, b: int|
        0 <= a < b < edits.len() ==> (#[trigger] edits[a]).path@ != (#[trigger] edits[b]).path@
    &&& forall|k: int| 0 <= k < edits.len() ==> edit_owed(ws, mode, old, new, #[trigger] edits[k])
    &&& lock_changes(mode, ws.packages@, lock_entries(ws), old) ==> edits_path(edits, ws.lock_path@)
    &&& forall|i: int|
        0 <= i < ws.packages@.len() && package_bumped(mode, #[trigger] ws.packages@[i], old)
            ==> edits_path(edits, ws.packages@[i].manifest_path@)
    &&& shares(ws.root_manifest@, old) ==> edits_path(edits, ws.root_manifest_path@)
}

/// Bumps a workspace's lock file and manifests.
pub struct Replacer {
    versions: VersionReplacement,
    replace_mode: CargoReplaceMode,
}

impl Replacer {
    /// The versions bumped from and to.
    pub closed spec fn versions(&self) -> VersionReplacement {
        self.versions
    }

    /// Which members are bumped.
    pub closed spec fn replace_mode(&self) -> CargoReplaceMode {
        self.replace_mode
    }

    /// Bumps `versions` over the members that `replace_mode` selects.
    pub fn new(versions: VersionReplacement, replace_mode: CargoReplaceMode) -> (r: Self)
        ensures
            r.versions() == versions,
            r.replace_mode() == replace_mode,
    {
        Replacer { versions, replace_mode }
    }

    /// The edits that bump the workspace; see `propagate`.
    pub fn determine_replacements(&self, ws: &Workspace) -> (r: Result<Vec<file::Replacer>, BumpError>)
        requires
            ws.wf(),
        ensures
            planning_fails(*ws, self.replace_mode(), self.versions()) ==> r is Err,
            !planning_fails(*ws, self.replace_mode(), self.versions()) && writes_succeed(
                *ws,
                self.replace_mode(),
                self.versions().old_version@,
                self.versions().new_version@,
            ) ==> r is Ok,
            r matches Err(e) ==> propagation_fails_with(e, *ws, self.replace_mode(), self.versions()),
            r matches Ok(edits) ==> propagated(
                *ws,
                self.replace_mode(),
                self.versions().old_version@,
                self.versions().new_version@,
                edits@,
            ),
    {
        propagate(&self.versions, &self.replace_mode, ws)
    }
}

/// The edits that bump the workspace: one for the lock file when an entry
/// of a selected member is at the old version, one for each selected
/// member that declares the old version itself (members that inherit it
/// get none), and one for the root manifest when it shares the old
/// version and no member's edit already covers it. Each holds the file
/// written back with the new version. No path is edited twice. Succeeds
/// unless planning fails or toml refuses to write a manifest.
pub fn propagate(versions: &VersionReplacement, replace_mode: &CargoReplaceMode, ws: &Workspace) -> (r:
    Result<Vec<file::Replacer>, BumpError>)
    requires
        ws.wf(),
    ensures
        planning_fails(*ws, *replace_mode, *versions) ==> r is Err,
        !planning_fails(*ws, *replace_mode, *versions) && writes_succeed(
            *ws,
            *replace_mode,
            versions.old_version@,
            versions.new_version@,
        ) ==> r is Ok,
        r matches Err(e) ==> propagation_fails_with(e, *ws, *replace_mode, *versions),
        r matches Ok(edits) ==> propagated(
            *ws,
            *replace_mode,
            versions.old_version@,
            versions.new_version@,
            edits@,
        ),
{
    let ghost mode = *replace_mode;
    let ghost old = versions.old_version@;
    let ghost new = versions.new_version@;
    let old_version = &versions.old_version;
    let new_version = &versions.new_version;
    if let Err(e) = ParsedVersion::parse(old_version.as_str()) {
        return Err(BumpError::InvalidVersion(e));
    }
    let parsed_new = match ParsedVersion::parse(new_version.as_str()) {
        Ok(v) => v,
        Err(e) => return Err(BumpError::InvalidVersion(e)),
    };
    let mut lock = match LockDoc::parse(ws.lock.as_str()) {
        Ok(l) => l,
        Err(e) => return Err(BumpError::CargoLock(e)),
    };
    let mut edits: Vec<file::Replacer> = Vec::new();
    let changed = update_lock(&mut lock, replace_mode, &ws.packages, old_version, &parsed_new);
    // Which package each edit is for (-1: the lock file; -2: the root
    // manifest), and which edit each bumped package got.
    let ghost mut owner: Seq<int> = Seq::empty();
    let ghost mut slot: Seq<int> = Seq::empty();
    if changed {
        let text = lock.text();
        edits.push(file::Replacer { path: ws.lock_path.clone(), contents: text_bytes(text) });
        proof {
            owner = seq![-1int];
            assert(edits@[0].contents@ == encode_utf8(lock_after(*ws, mode, old, new)));
        }
    }
    let mut i: usize = 0;
    while i < ws.packages.len()
        invariant
            i <= ws.packages@.len(),
            ws.wf(),
            mode == *replace_mode,
            old == versions.old_version@,
            new == versions.new_version@,
            old_version@ == old,
            new_version@ == new,
            !planning_fails(*ws, mode, *versions) ==> lock_entries_of(ws.lock@) is Some,
            lock_entries_of(ws.lock@) is Some,
            version_parses(old) && version_parses(new),
            changed == lock_changes(mode, ws.packages@, lock_entries(*ws), old),
            changed ==> edits@.len() > 0 && edits@[0].path@ == ws.lock_path@,
            owner.len() == edits@.len(),
            slot.len() == i,
            forall|k: int|
                0 <= k < edits@.len() ==> {
                    let o = #[trigger] owner[k];
                    &&& (o == -1 ==> k == 0 && changed && edits@[k].path@ == ws.lock_path@
                        && edits@[k].contents@ == encode_utf8(lock_after(*ws, mode, old, new)))
                    &&& (o != -1 ==> 0 <= o < i && package_bumped(mode, ws.packages@[o], old)
                        && edits@[k].path@ == ws.packages@[o].manifest_path@ && (member_written(
                        *ws,
                        ws.packages@[o],
                        old,
                        new,
                    ) matches Some(t) && edits@[k].contents@ == encode_utf8(t)))
                },
            forall|a: int, b: int|
                0 <= a < b < edits@.len() ==> (#[trigger] edits@[a]).path@ != (
                #[trigger] edits@[b]).path@,
            forall|j: int|
                0 <= j < i && package_bumped(mode, #[trigger] ws.packages@[j], old) ==> {
                    &&& 0 <= slot[j] < edits@.len()
                    &&& edits@[slot[j]].path@ == ws.packages@[j].manifest_path@
                },
            forall|j: int|
                0 <= j < i && mode.targets((#[trigger] ws.packages@[j]).name@) ==> has_package(
                    ws.packages@[j].manifest@,
                ),
        decreases ws.packages@.len() - i,
    {
        let p = &ws.packages[i];
        if replace_mode.is_target(&p.name) {
            match update_package(p, ws, old_version, new_version) {
                Err(e) => {
                    proof {
                        if has_package(p.manifest@) {
                            assert(package_bumped(mode, ws.packages@[i as int], old));
                            assert(!writes_succeed(*ws, mode, old, new));
                        } else {
                            assert(planning_fails(*ws, mode, *versions));
                        }
                    }
                    return Err(e);
                },
                Ok(None) => {
                    proof {
                        slot = slot.push(-1);
                    }
                },
                Ok(Some(edit)) => {
                    let ghost before = edits@;
                    proof {
                        assert forall|k: int| 0 <= k < before.len() implies (#[trigger] before[k]).path@
                            != p.manifest_path@ by {
                            let o = owner[k];
                            if o != -1 {
                                assert(ws.packages@[o].manifest_path@ != ws.packages@[i as int].manifest_path@);
                            }
                        }
                    }
                    edits.push(edit);
                    proof {
                        let n = before.len() as int;
                        assert forall|k: int| 0 <= k < n implies edits@[k] == before[k] by {}
                        owner = owner.push(i as int);
                        slot = slot.push(n);
                    }
                },
            }
        } else {
            proof {
                slot = slot.push(-1);
            }
        }
        i = i + 1;
    }
    if !has_path(&edits, &ws.root_manifest_path) {
        proof {
            if root_is_bumped_member(*ws, mode, old) {
                let j = choose|j: int|
                    0 <= j < ws.packages@.len() && package_bumped(mode, #[trigger] ws.packages@[j], old)
                        && ws.packages@[j].manifest_path@ == ws.root_manifest_path@;
                assert(edits@[slot[j]].path@ == ws.root_manifest_path@);
            }
        }
        match update_workspace_root(ws, old_version, new_version) {
            Err(e) => {
                proof {
                    if manifest_versions(ws.root_manifest@) is None {
                        assert(planning_fails(*ws, mode, *versions));
                    } else {
                        assert(!writes_succeed(*ws, mode, old, new));
                    }
                }
                return Err(e);
            },
            Ok(None) => {},
            Ok(Some(edit)) => {
                let ghost before = edits@;
                edits.push(edit);
                proof {
                    let n = before.len() as int;
                    assert forall|k: int| 0 <= k < n implies edits@[k] == before[k] by {}
                    assert(edits@[n].path@ == ws.root_manifest_path@);
                    assert(shares(ws.root_manifest@, old));
                    assert forall|a: int, b: int|
                        0 <= a < b < edits@.len() implies (#[trigger] edits@[a]).path@ != (
                        #[trigger] edits@[b]).path@ by {
                        if b == n {
                            assert(before[a].path@ != ws.root_manifest_path@);
                        }
                    }
                    assert(edits_path(edits@, ws.root_manifest_path@));
                    assert(edit_owed(*ws, mode, old, new, edits@[n]));
                    owner = owner.push(-2);
                }
            },
        }
    } else {
        proof {
            let k0 = choose|k: int| 0 <= k < edits@.len() && (#[trigger] edits@[k]).path@ == ws.root_manifest_path@;
            let o = owner[k0];
            assert(o != -1);
            assert(root_is_bumped_member(*ws, mode, old));
        }
    }
    proof {
        assert forall|k: int| 0 <= k < edits@.len() implies edit_owed(*ws, mode, old, new, #[trigger] edits@[k]) by {
            let o = owner[k];
            if o >= 0 {
                assert(package_bumped(mode, ws.packages@[o], old));
            }
        }
        if changed {
            assert(edits@[0].path@ == ws.lock_path@);
        }
        assert forall|j: int|
            0 <= j < ws.packages@.len() && package_bumped(mode, #[trigger] ws.packages@[j], old)
                implies edits_path(edits@, ws.packages@[j].manifest_path@) by {
            assert(edits@[slot[j]].path@ == ws.packages@[j].manifest_path@);
        }
    }
    Ok(edits)
}

} // verus!
