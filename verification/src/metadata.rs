//! What the checks and jobs read of a workspace's `cargo metadata`.

use crate::text::{list_has, text_eq, texts};
use vstd::prelude::*;

verus! {

/// A package that the metadata lists.
pub struct Package {
    /// The package id.
    pub id: String,
    /// The package name.
    pub name: String,
    /// The path of its `Cargo.toml`.
    pub manifest_path: String,
    /// Its edition, as it is written in the manifest.
    pub edition: String,
    /// Whether it comes from a registry or a git repository. A package without a source
    /// is a path dependency or a workspace member.
    pub has_source: bool,
}

/// The metadata of a workspace.
pub struct Metadata {
    /// The directory of the workspace.
    pub workspace_root: String,
    /// The ids of the packages that are members of the workspace.
    pub workspace_members: Vec<String>,
    /// The packages, members and dependencies.
    pub packages: Vec<Package>,
    /// The id of the root package of the resolved dependency graph, if there is one.
    pub resolve_root: Option<String>,
    /// The ids of the default members, if the metadata gives them.
    pub workspace_default_members: Vec<String>,
}

impl Metadata {
    /// A package id is that of a workspace member.
    pub open spec fn has_member(self, id: Seq<char>) -> bool {
        texts(self.workspace_members@).contains(id)
    }

    /// Whether a package id is that of a workspace member.
    pub fn is_member(&self, id: &str) -> (r: bool)
        ensures
            r == self.has_member(id@),
    {
        list_has(&self.workspace_members, id)
    }
}

/// The position of the first package with an id, or the number of packages.
pub open spec fn first_with_id(packages: Seq<Package>, id: Seq<char>) -> nat
    decreases packages.len(),
{
    if packages.len() == 0 || packages[0].id@ == id {
        0
    } else {
        1 + first_with_id(packages.drop_first(), id)
    }
}

/// Finds the first package with an id.
pub fn find_package(packages: &Vec<Package>, id: &str) -> (r: usize)
    ensures
        r == first_with_id(packages@, id@),
        r <= packages@.len(),
{
    let mut i: usize = 0;
    assert(packages@.skip(0) =~= packages@);
    while i < packages.len() && !text_eq(packages[i].id.as_str(), id)
        invariant
            i <= packages@.len(),
            first_with_id(packages@, id@) == i + first_with_id(packages@.skip(i as int), id@),
        decreases packages@.len() - i,
    {
        proof {
            assert(packages@.skip(i as int).drop_first() =~= packages@.skip(i + 1));
        }
        i = i + 1;
    }
    i
}

/// The first package with an id is found, and no package before it has the id; where no package
/// has it, none is found.
pub proof fn lemma_first_with_id(packages: Seq<Package>, id: Seq<char>)
    ensures
        first_with_id(packages, id) <= packages.len(),
        forall|i: int|
            0 <= i < first_with_id(packages, id) ==> (#[trigger] packages[i]).id@ != id,
        first_with_id(packages, id) < packages.len() ==> packages[first_with_id(
            packages,
            id,
        ) as int].id@ == id,
    decreases packages.len(),
{
    if packages.len() > 0 && packages[0].id@ != id {
        let rest = packages.drop_first();
        lemma_first_with_id(rest, id);
        assert forall|i: int| 0 <= i < first_with_id(packages, id) implies (
        #[trigger] packages[i]).id@ != id by {
            if i > 0 {
                assert(rest[i - 1] == packages[i]);
            }
        }
    }
}

} // verus!
