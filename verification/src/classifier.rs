//! Classification of a directory as the root of a recognized project.
//!
//! Two project kinds are recognized, each by a pair of required entries in
//! the candidate directory itself: a source checkout (the build-driver script
//! `x.py` as a regular file, plus a `build` directory) and a package checkout
//! (a `Cargo.toml` manifest as a regular file, plus a `target` directory).
//! Both conditions of a kind must hold for the directory to classify; the two
//! kinds are checked independently, with the source-checkout check first.

use vstd::prelude::*;

use crate::fs_model::{EntryKind, FsTree};

verus! {

/// The two recognized project kinds.
#[derive(Clone, Copy, Debug, PartialEq, Eq, Structural)]
pub enum ProjectMarker {
    /// A source-tree checkout: `x.py` plus a `build` directory.
    SourceCheckout,
    /// A package checkout: `Cargo.toml` plus a `target` directory.
    PackageCheckout,
}

/// Whether `t` has a direct child with the given name and kind.
pub open spec fn has_child(t: FsTree, name: Seq<char>, kind: EntryKind) -> bool {
    exists|i: int|
        0 <= i < t.children@.len() && (#[trigger] t.children@[i]).name@ == name
            && t.children@[i].kind == kind
}

/// Whether `t` is a source checkout: `x.py` present as a regular file and
/// `build` present as a directory.
pub open spec fn spec_is_rust_checkout(t: FsTree) -> bool {
    has_child(t, "x.py"@, EntryKind::File) && has_child(t, "build"@, EntryKind::Dir)
}

/// Whether `t` is a package checkout: `Cargo.toml` present as a regular file
/// and `target` present as a directory.
pub open spec fn spec_is_cargo_crate(t: FsTree) -> bool {
    has_child(t, "Cargo.toml"@, EntryKind::File) && has_child(t, "target"@, EntryKind::Dir)
}

/// The name of the artifact subdirectory that belongs to a project of the
/// given kind.
pub open spec fn artifact_dir_name(marker: ProjectMarker) -> Seq<char> {
    match marker {
        ProjectMarker::SourceCheckout => "build"@,
        ProjectMarker::PackageCheckout => "target"@,
    }
}

/// The kind under which a directory classifies, if any. The source-checkout
/// condition is evaluated first; each condition is checked independently of
/// the other.
pub open spec fn spec_classify(t: FsTree) -> Option<ProjectMarker> {
    if spec_is_rust_checkout(t) {
        Some(ProjectMarker::SourceCheckout)
    } else if spec_is_cargo_crate(t) {
        Some(ProjectMarker::PackageCheckout)
    } else {
        None
    }
}

/// The full classification result: the matched kind together with the name
/// of its artifact subdirectory.
pub open spec fn spec_classified(t: FsTree) -> Option<(ProjectMarker, Seq<char>)> {
    match spec_classify(t) {
        Some(m) => Some((m, artifact_dir_name(m))),
        None => None,
    }
}

/// Whether `t` has a direct child equal in name to `name` and of kind `kind`.
fn child_exists(t: &FsTree, name: &String, kind: EntryKind) -> (r: bool)
    ensures
        r == has_child(*t, name@, kind),
{
    let mut i: usize = 0;
    while i < t.children.len()
        invariant
            i <= t.children@.len(),
            forall|k: int|
                0 <= k < i ==> !((#[trigger] t.children@[k]).name@ == name@
                    && t.children@[k].kind == kind),
        decreases t.children@.len() - i,
    {
        if t.children[i].name == *name && t.children[i].kind == kind {
            return true;
        }
        i += 1;
    }
    false
}

/// Whether the directory is a source checkout: it contains the build-driver
/// script `x.py` as a regular file and a `build` directory.
pub fn is_rust_checkout(dir: &FsTree) -> (r: bool)
    ensures
        r == spec_is_rust_checkout(*dir),
{
    let marker: String = "x.py".to_owned();
    let artifact: String = "build".to_owned();
    child_exists(dir, &marker, EntryKind::File) && child_exists(dir, &artifact, EntryKind::Dir)
}

/// Whether the directory is a package checkout: it contains a `Cargo.toml`
/// manifest as a regular file and a `target` directory.
pub fn is_cargo_crate(dir: &FsTree) -> (r: bool)
    ensures
        r == spec_is_cargo_crate(*dir),
{
    let manifest: String = "Cargo.toml".to_owned();
    let artifact: String = "target".to_owned();
    child_exists(dir, &manifest, EntryKind::File) && child_exists(dir, &artifact, EntryKind::Dir)
}

/// Classifies a directory: returns the matched project kind and the name of
/// the artifact subdirectory that belongs to it, or `None` when neither
/// kind's full condition is satisfied.
pub fn classify(dir: &FsTree) -> (r: Option<(ProjectMarker, String)>)
    ensures
        match r {
            Some((m, a)) => spec_classified(*dir) == Some((m, a@)),
            None => spec_classified(*dir) is None,
        },
{
    if is_rust_checkout(dir) {
        Some((ProjectMarker::SourceCheckout, "build".to_owned()))
    } else if is_cargo_crate(dir) {
        Some((ProjectMarker::PackageCheckout, "target".to_owned()))
    } else {
        None
    }
}

/// Law: a directory classified as a source checkout contains the required
/// marker file `x.py` and the required `build` directory, and the artifact
/// subdirectory reported for it is exactly its `build` subdirectory.
pub proof fn lemma_source_checkout_classification(d: FsTree)
    requires
        spec_classify(d) == Some(ProjectMarker::SourceCheckout),
    ensures
        has_child(d, "x.py"@, EntryKind::File),
        has_child(d, "build"@, EntryKind::Dir),
        spec_classified(d) == Some((ProjectMarker::SourceCheckout, "build"@)),
{
}

/// Law: a directory classified as a package checkout contains the required
/// manifest file `Cargo.toml` and the required `target` directory, and the
/// artifact subdirectory reported for it is exactly its `target`
/// subdirectory.
pub proof fn lemma_package_checkout_classification(d: FsTree)
    requires
        spec_classify(d) == Some(ProjectMarker::PackageCheckout),
    ensures
        has_child(d, "Cargo.toml"@, EntryKind::File),
        has_child(d, "target"@, EntryKind::Dir),
        spec_classified(d) == Some((ProjectMarker::PackageCheckout, "target"@)),
{
}

/// Law: a partial match never classifies. A directory that lacks the full
/// entry pair of the source-checkout kind and lacks the full entry pair of
/// the package-checkout kind is not recognized as a project root.
pub proof fn lemma_partial_match_not_classified(d: FsTree)
    requires
        !(has_child(d, "x.py"@, EntryKind::File) && has_child(d, "build"@, EntryKind::Dir)),
        !(has_child(d, "Cargo.toml"@, EntryKind::File) && has_child(
            d,
            "target"@,
            EntryKind::Dir,
        )),
    ensures
        spec_classify(d) is None,
{
}

/// Law: classification is idempotent. `classify`'s contract pins its result,
/// up to the view of the returned artifact name, to `spec_classified` of the
/// directory alone, so any two runs on an unchanged directory agree.
pub proof fn lemma_classify_idempotent(
    d: FsTree,
    r1: Option<(ProjectMarker, Seq<char>)>,
    r2: Option<(ProjectMarker, Seq<char>)>,
)
    requires
        r1 == spec_classified(d),
        r2 == spec_classified(d),
    ensures
        r1 == r2,
{
}

} // verus!
