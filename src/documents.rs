//! The lock file and package manifests, parsed and written by `cargo_lock`,
//! `cargo_toml` and `toml`. The propagation reads them through plain values.
use vstd::prelude::*;
use vstd::slice::slice_to_vec;

verus! {

/// A manifest as the `cargo_toml` crate holds it.
pub type CargoManifest = cargo_toml::Manifest<toml::Value>;

/// What the lock file text parses to, as (package name, version text) pairs
/// in file order; none when the text is no lock file.
pub uninterp spec fn lock_entries_of(text: Seq<char>) -> Option<Seq<(Seq<char>, Seq<char>)>>;

/// The (package name, version text) pairs that a lock file holds, in order.
pub uninterp spec fn lock_packages(lock: cargo_lock::Lockfile) -> Seq<(Seq<char>, Seq<char>)>;

/// Whether the text is a semantic version.
pub uninterp spec fn version_parses(text: Seq<char>) -> bool;

/// What a manifest's bytes parse to, as far as versions go: the `[package]`
/// version (absent table; inherited, as `None`; or set) and the
/// `[workspace.package]` version. None when the bytes are no manifest.
pub uninterp spec fn manifest_versions(bytes: Seq<u8>) -> Option<
    (Option<Option<Seq<char>>>, Option<Seq<char>>),
>;

/// A version text that parses as a semantic version, with its parsed value.
pub struct ParsedVersion {
    text: String,
    value: semver::Version,
}

/// Relies on semver::Version::parse: it accepts exactly the semantic
/// versions.
#[verifier::external_body]
fn parse_semver(text: &str) -> (r: Result<semver::Version, semver::Error>)
    ensures
        r is Ok <==> version_parses(text@),
{
    semver::Version::parse(text)
}

impl ParsedVersion {
    /// The version as written.
    pub closed spec fn text(&self) -> Seq<char> {
        self.text@
    }

    /// Parses `text` as a semantic version.
    pub fn parse(text: &str) -> (r: Result<ParsedVersion, semver::Error>)
        ensures
            r is Ok <==> version_parses(text@),
            r matches Ok(v) ==> v.text() == text@,
    {
        let value = parse_semver(text)?;
        Ok(ParsedVersion { text: text.to_owned(), value })
    }
}

/// Relies on cargo_lock::Lockfile's FromStr: whether the text parses, and the
/// packages it then lists, depend on the text alone.
#[verifier::external_body]
fn parse_lockfile(text: &str) -> (r: Result<cargo_lock::Lockfile, cargo_lock::Error>)
    ensures
        r is Ok <==> lock_entries_of(text@) is Some,
        r matches Ok(l) ==> lock_entries_of(text@) == Some(lock_packages(l)),
{
    text.parse::<cargo_lock::Lockfile>()
}

/// Relies on the `packages` field of cargo_lock::Lockfile.
#[verifier::external_body]
fn lock_package_count(lock: &cargo_lock::Lockfile) -> (r: usize)
    ensures
        r == lock_packages(*lock).len(),
{
    lock.packages.len()
}

/// Relies on the `packages` field of cargo_lock::Lockfile: the name of a
/// package and the text of its version.
#[verifier::external_body]
fn lock_package(lock: &cargo_lock::Lockfile, i: usize) -> (r: (String, String))
    requires
        i < lock_packages(*lock).len(),
    ensures
        (r.0@, r.1@) == lock_packages(*lock)[i as int],
{
    let p = &lock.packages[i];
    (p.name.as_str().to_string(), p.version.to_string())
}

/// Relies on the `packages` field of cargo_lock::Lockfile, and on
/// semver::Version's Display, which writes a parsed version back as the text
/// it was parsed from.
#[verifier::external_body]
fn set_lock_version(lock: &mut cargo_lock::Lockfile, i: usize, v: &ParsedVersion)
    requires
        i < lock_packages(*old(lock)).len(),
    ensures
        lock_packages(*final(lock)) == lock_packages(*old(lock)).update(
            i as int,
            (lock_packages(*old(lock))[i as int].0, v.text()),
        ),
{
    lock.packages[i].version = v.value.clone();
}

/// The text that cargo_lock writes for the lock file that `source` parses
/// to, once the (name, version) pairs of its packages are `entries`.
pub uninterp spec fn lock_written(source: Seq<char>, entries: Seq<(Seq<char>, Seq<char>)>) -> Seq<char>;

/// A lock file: the text it was read from, and the parsed file, whose
/// packages' versions may since have been set.
pub struct LockDoc {
    source: String,
    lock: cargo_lock::Lockfile,
}

impl LockDoc {
    /// The text the lock file was read from.
    pub closed spec fn source(&self) -> Seq<char> {
        self.source@
    }

    /// The (name, version) pairs of its packages, in order.
    pub closed spec fn entries(&self) -> Seq<(Seq<char>, Seq<char>)> {
        lock_packages(self.lock)
    }

    /// Parses `text` as a lock file.
    pub fn parse(text: &str) -> (r: Result<LockDoc, cargo_lock::Error>)
        ensures
            r is Ok <==> lock_entries_of(text@) is Some,
            r matches Ok(d) ==> d.source() == text@ && lock_entries_of(text@) == Some(d.entries()),
    {
        let lock = parse_lockfile(text)?;
        Ok(LockDoc { source: text.to_owned(), lock })
    }

    /// The number of packages.
    pub fn len(&self) -> (r: usize)
        ensures
            r == self.entries().len(),
    {
        lock_package_count(&self.lock)
    }

    /// The name and version text of package `i`.
    pub fn entry(&self, i: usize) -> (r: (String, String))
        requires
            i < self.entries().len(),
        ensures
            (r.0@, r.1@) == self.entries()[i as int],
    {
        lock_package(&self.lock, i)
    }

    /// Sets the version of package `i`.
    pub fn set_version(&mut self, i: usize, v: &ParsedVersion)
        requires
            i < old(self).entries().len(),
        ensures
            final(self).source() == old(self).source(),
            final(self).entries() == old(self).entries().update(
                i as int,
                (old(self).entries()[i as int].0, v.text()),
            ),
    {
        set_lock_version(&mut self.lock, i, v);
    }

    /// Relies on cargo_lock::Lockfile's ToString, which writes the lock file
    /// in Cargo's format; the file is the one parsed from `source`, with
    /// only its packages' versions set since.
    #[verifier::external_body]
    pub fn text(&self) -> (r: String)
        ensures
            r@ == lock_written(self.source(), self.entries()),
    {
        self.lock.to_string()
    }
}

/// The version a manifest gives its package.
#[derive(Debug)]
pub enum DeclaredVersion {
    Explicit(String),
    Inherited,
}

/// The versions a manifest declares.
#[derive(Debug)]
pub struct ManifestVersions {
    pub package: Option<DeclaredVersion>,
    pub workspace: Option<String>,
}

impl ManifestVersions {
    pub open spec fn view(&self) -> (Option<Option<Seq<char>>>, Option<Seq<char>>) {
        (
            match self.package {
                None => None,
                Some(DeclaredVersion::Inherited) => Some(None),
                Some(DeclaredVersion::Explicit(v)) => Some(Some(v@)),
            },
            match self.workspace {
                None => None,
                Some(v) => Some(v@),
            },
        )
    }
}

/// Relies on cargo_toml::CargoManifest::from_slice: whether the bytes parse, and
/// the versions they then declare, depend on the bytes alone.
#[verifier::external_body]
fn parse_manifest(bytes: &[u8]) -> (r: Result<(CargoManifest, ManifestVersions), cargo_toml::Error>)
    ensures
        r is Ok <==> manifest_versions(bytes@) is Some,
        r matches Ok((_, v)) ==> manifest_versions(bytes@) == Some(v@),
{
    let m = CargoManifest::from_slice(bytes)?;
    let package = m.package.as_ref().map(|p| match &p.version {
        cargo_toml::Inheritable::Set(v) => DeclaredVersion::Explicit(v.clone()),
        cargo_toml::Inheritable::Inherited { .. } => DeclaredVersion::Inherited,
    });
    let workspace = m.workspace.as_ref().and_then(|w| w.package.as_ref()).and_then(|p| p.version.clone());
    Ok((m, ManifestVersions { package, workspace }))
}

/// Relies on the `package` field of cargo_toml::Manifest: sets the package's
/// version, where the manifest has a `[package]` table.
#[verifier::external_body]
fn set_package_version(m: &mut CargoManifest, v: &str) {
    if let Some(p) = m.package.as_mut() {
        p.version = cargo_toml::Inheritable::Set(v.to_string());
    }
}

/// Relies on the `workspace` field of cargo_toml::Manifest: sets the version
/// shared through `[workspace.package]`, where there is one.
#[verifier::external_body]
fn set_workspace_version(m: &mut CargoManifest, v: &str) {
    if let Some(p) = m.workspace.as_mut().and_then(|w| w.package.as_mut()) {
        p.version = Some(v.to_string());
    }
}

/// The TOML that toml::to_string writes for the manifest that `source`
/// parses to, with its package's version set to `package` (where it has a
/// `[package]` table) and its shared `[workspace.package]` version set to
/// `shared` (where it has one), `None` leaving a version as it was. None
/// where toml refuses to write it.
pub uninterp spec fn manifest_written(
    source: Seq<u8>,
    package: Option<Seq<char>>,
    shared: Option<Seq<char>>,
) -> Option<Seq<char>>;

/// A manifest: the bytes it was read from, the versions set since, and the
/// parsed manifest.
pub struct ManifestDoc {
    source: Vec<u8>,
    package: Option<String>,
    shared: Option<String>,
    manifest: CargoManifest,
}

/// A text's view, if any.
pub open spec fn opt_view(v: Option<String>) -> Option<Seq<char>> {
    match v {
        Some(s) => Some(s@),
        None => None,
    }
}

impl ManifestDoc {
    /// The bytes the manifest was read from.
    pub closed spec fn source(&self) -> Seq<u8> {
        self.source@
    }

    /// The package version set since, if any.
    pub closed spec fn package_set(&self) -> Option<Seq<char>> {
        opt_view(self.package)
    }

    /// The shared version set since, if any.
    pub closed spec fn shared_set(&self) -> Option<Seq<char>> {
        opt_view(self.shared)
    }

    /// Parses `bytes` as a manifest, with the versions it declares.
    pub fn parse(bytes: &[u8]) -> (r: Result<(ManifestDoc, ManifestVersions), cargo_toml::Error>)
        ensures
            r is Ok <==> manifest_versions(bytes@) is Some,
            r matches Ok((d, v)) ==> {
                &&& manifest_versions(bytes@) == Some(v@)
                &&& d.source() == bytes@
                &&& d.package_set() is None
                &&& d.shared_set() is None
            },
    {
        let (manifest, versions) = parse_manifest(bytes)?;
        Ok((ManifestDoc { source: slice_to_vec(bytes), package: None, shared: None, manifest }, versions))
    }

    /// Sets the package's version.
    pub fn set_package(&mut self, v: &str)
        ensures
            final(self).source() == old(self).source(),
            final(self).package_set() == Some(v@),
            final(self).shared_set() == old(self).shared_set(),
    {
        set_package_version(&mut self.manifest, v);
        self.package = Some(v.to_owned());
    }

    /// Sets the shared version.
    pub fn set_shared(&mut self, v: &str)
        ensures
            final(self).source() == old(self).source(),
            final(self).package_set() == old(self).package_set(),
            final(self).shared_set() == Some(v@),
    {
        set_workspace_version(&mut self.manifest, v);
        self.shared = Some(v.to_owned());
    }

    /// Relies on toml::to_string, which writes the manifest as TOML or
    /// refuses; the manifest is the one parsed from `source`, with the
    /// versions recorded beside it set since.
    #[verifier::external_body]
    pub fn text(&self) -> (r: Result<String, toml::ser::Error>)
        ensures
            r is Ok <==> manifest_written(self.source(), self.package_set(), self.shared_set()) is Some,
            r matches Ok(t) ==> manifest_written(self.source(), self.package_set(), self.shared_set())
                == Some(t@),
    {
        toml::to_string(&self.manifest)
    }
}

} // verus!
