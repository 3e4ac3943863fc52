//! README.md generation from templates.

use crate::jobs::{
    as_list, bytes_copy, bytes_eq, content_copy, job_views, opt_bytes, Job, JobView,
};
use crate::metadata::{find_package, first_with_id, lemma_first_with_id, Metadata, Package};
use crate::paint::{bold, cyan, in_bold, in_cyan, in_red, in_yellow, red, yellow};
use crate::path::{
    are_plain_names, change_extension, common_prefix_len, components, components_of, file_name,
    file_name_of, is_plain_name, join_path, joined_path, lemma_joined_name,
    lemma_rooted_components, lemma_rooted_file_name, lemma_rooted_push, lemma_rooted_stripped,
    lemma_rooted_with_extension, rooted, slashed, strip_path, stripped, with_extension,
};
use crate::text::{
    begins_with, has_text, is_made_of, lemma_has_text, opt_text, push_text, result_text,
    starts_with, text_eq, texts,
};
use crate::toml::{
    document_root, item_bool_field, item_get, flag_field, parse_document, toml_parse, Toml,
};
use vstd::prelude::*;
use vstd::string::*;

verus! {

// ---- which directories ----

/// A directory by that name holds no crate with a README of its own: it is hidden, private or
/// one of those that are not published.
pub open spec fn is_passed_over(name: Seq<char>) -> bool {
    begins_with(name, "."@) || begins_with(name, "_"@) || name == "target"@ || name == "xtask"@
        || name == "examples"@ || name == "benches"@ || name == "tests"@ || name == "fuzz"@
}

/// Whether a directory by that name is passed over.
pub fn passes_over(name: &str) -> (r: bool)
    ensures
        r == is_passed_over(name@),
{
    starts_with(name, ".") || starts_with(name, "_") || text_eq(name, "target") || text_eq(
        name,
        "xtask",
    ) || text_eq(name, "examples") || text_eq(name, "benches") || text_eq(name, "tests")
        || text_eq(name, "fuzz")
}

/// The manifest of a crate says that its README is not to be generated:
/// `generate-readmes = false` in its `[package.metadata.captain]`.
pub open spec fn readme_is_disabled(manifest: Toml) -> bool {
    match manifest.get("package"@) {
        Some(package) => match package.get("metadata"@) {
            Some(metadata) => match metadata.get("captain"@) {
                Some(captain) => flag_field(captain, "generate-readmes"@) == Some(false),
                None => false,
            },
            None => false,
        },
        None => false,
    }
}

/// The text of a manifest says that the README is not to be generated. A text that is no TOML
/// does not.
pub open spec fn disables_readme(manifest: Option<Seq<char>>) -> bool {
    match manifest {
        Some(content) => match toml_parse(content) {
            Ok(tree) => readme_is_disabled(tree),
            Err(_) => false,
        },
        None => false,
    }
}

/// Check if a crate has `generate-readmes = false` in its `[package.metadata.captain]`, given
/// the text of its manifest if it could be read.
pub fn crate_has_readme_disabled(manifest: &Option<String>) -> (r: bool)
    ensures
        r == disables_readme(opt_text(*manifest)),
{
    let content = match manifest {
        Some(content) => content,
        None => {
            return false;
        },
    };
    let document = match parse_document(content.as_str()) {
        Ok(document) => document,
        Err(_) => {
            return false;
        },
    };
    let root = document_root(&document);
    let package = match item_get(root, "package") {
        Some(item) => item,
        None => {
            return false;
        },
    };
    let metadata = match item_get(package, "metadata") {
        Some(item) => item,
        None => {
            return false;
        },
    };
    let captain = match item_get(metadata, "captain") {
        Some(item) => item,
        None => {
            return false;
        },
    };
    match item_bool_field(captain, "generate-readmes") {
        Some(flag) => !flag,
        None => false,
    }
}

/// The paths of what a directory lists.
pub open spec fn listed_in(dir: Seq<char>, names: Seq<Seq<char>>) -> Seq<Seq<char>> {
    Seq::new(names.len(), |i: int| joined_path(dir, names[i]))
}

/// Where crates are looked for: what the workspace directory lists, then what its `crates`
/// directory lists.
pub open spec fn candidate_paths(
    workspace: Seq<char>,
    names: Seq<Seq<char>>,
    crates_names: Seq<Seq<char>>,
) -> Seq<Seq<char>> {
    listed_in(workspace, names) + listed_in(joined_path(workspace, "crates"@), crates_names)
}

/// Adds the paths of what a directory lists to the end of a list.
fn push_listed(list: &mut Vec<String>, dir: &str, names: &Vec<String>)
    ensures
        texts(final(list)@) == texts(old(list)@) + listed_in(dir@, texts(names@)),
{
    let ghost all = listed_in(dir@, texts(names@));
    let mut i: usize = 0;
    assert(texts(list@) =~= texts(old(list)@) + all.take(0));
    while i < names.len()
        invariant
            all == listed_in(dir@, texts(names@)),
            i <= names@.len(),
            texts(list@) == texts(old(list)@) + all.take(i as int),
        decreases names@.len() - i,
    {
        push_text(list, join_path(dir, names[i].as_str()).as_str());
        proof {
            assert(all[i as int] == joined_path(dir@, texts(names@)[i as int]));
            assert(texts(list@) =~= texts(old(list)@) + all.take(i + 1));
        }
        i = i + 1;
    }
    assert(all.take(i as int) =~= all);
}

/// Where crates are looked for, given the names that the workspace directory lists and those
/// that its `crates` directory lists; none where it has no such directory.
pub fn crate_dirs(workspace_dir: &str, names: &Vec<String>, crates_names: &Vec<String>) -> (r: Vec<
    String,
>)
    ensures
        texts(r@) == candidate_paths(workspace_dir@, texts(names@), texts(crates_names@)),
{
    let mut dirs: Vec<String> = Vec::new();
    assert(texts(dirs@) =~= Seq::empty());
    push_listed(&mut dirs, workspace_dir, names);
    push_listed(&mut dirs, join_path(workspace_dir, "crates").as_str(), crates_names);
    assert(texts(dirs@) =~= candidate_paths(
        workspace_dir@,
        texts(names@),
        texts(crates_names@),
    ));
    dirs
}

/// A template that was read, with what came of it.
pub enum Template {
    /// There is no such file.
    Missing,
    /// The file could not be read, for this reason.
    Unreadable(String),
    /// The README that was generated from it.
    Generated(Vec<u8>),
}

/// What was read for a README.
pub struct ReadmeFiles {
    /// What came of the template.
    pub template: Template,
    /// The staged content of the README, if git shows one.
    pub staged_content: Option<Vec<u8>>,
    /// The content of the README on disk, if there is one.
    pub old_content: Option<Vec<u8>>,
}

/// An entry of the workspace directory or of its `crates` directory.
pub struct DirCandidate {
    /// Its path.
    pub path: String,
    /// Whether it is a directory.
    pub is_dir: bool,
    /// Whether it holds a `Cargo.toml`.
    pub has_manifest: bool,
    /// The text of that file, if it could be read.
    pub manifest: Option<String>,
    /// Whether the directory with templates of one's own has one for the crate.
    pub custom_exists: bool,
    /// What was read for the README of the crate.
    pub files: ReadmeFiles,
}

/// The name of the crate in a directory; none where the directory is passed over, holds no
/// crate, or holds one whose README is not to be generated.
pub open spec fn readme_crate(dir: DirCandidate) -> Option<Seq<char>> {
    match file_name(dir.path@) {
        Some(name) => if dir.is_dir && !is_passed_over(name) && dir.has_manifest
            && !disables_readme(opt_text(dir.manifest)) {
            Some(name)
        } else {
            None
        },
        None => None,
    }
}

/// The name of the crate in a directory whose README is generated.
pub fn readme_crate_name(dir: &DirCandidate) -> (r: Option<String>)
    requires
        dir.is_dir ==> file_name(dir.path@) is Some,
    ensures
        opt_text(r) == readme_crate(*dir),
{
    match file_name_of(dir.path.as_str()) {
        Some(name) => {
            if dir.is_dir && !passes_over(name.as_str()) && dir.has_manifest
                && !crate_has_readme_disabled(&dir.manifest) {
                Some(name)
            } else {
                None
            }
        },
        None => None,
    }
}

/// The directories whose crates get a README, with the names of the crates.
pub open spec fn readme_targets_in(dirs: Seq<DirCandidate>) -> Seq<(Seq<char>, Seq<char>)>
    decreases dirs.len(),
{
    if dirs.len() == 0 {
        Seq::empty()
    } else {
        let before = readme_targets_in(dirs.drop_last());
        match readme_crate(dirs.last()) {
            Some(name) => before.push((dirs.last().path@, name)),
            None => before,
        }
    }
}

// ---- which template ----

/// The template of a crate under a directory with templates of one's own.
pub open spec fn custom_template(custom_dir: Seq<char>, name: Seq<char>) -> Seq<char> {
    with_extension(joined_path(custom_dir, name), "md.in"@)
}

/// The template of a crate under a directory with templates of one's own.
pub fn custom_template_path(custom_dir: &str, name: &str) -> (r: String)
    ensures
        r@ == custom_template(custom_dir@, name@),
{
    change_extension(join_path(custom_dir, name).as_str(), "md.in")
}

/// The template that a crate's README is generated from: the one under the directory with
/// templates of one's own, if there is such a directory and it has one; else its own.
pub open spec fn template(
    custom_dir: Option<Seq<char>>,
    custom_exists: bool,
    crate_path: Seq<char>,
    name: Seq<char>,
) -> Seq<char> {
    match custom_dir {
        Some(dir) => if custom_exists {
            custom_template(dir, name)
        } else {
            joined_path(crate_path, "README.md.in"@)
        },
        None => if name == "captain"@ {
            "README.md.in"@
        } else {
            joined_path(crate_path, "README.md.in"@)
        },
    }
}

/// The template that a crate's README is generated from. `custom_exists` tells whether the
/// directory with templates of one's own has one for the crate.
pub fn template_path(
    custom_dir: &Option<String>,
    custom_exists: bool,
    crate_path: &str,
    name: &str,
) -> (r: String)
    ensures
        r@ == template(opt_text(*custom_dir), custom_exists, crate_path@, name@),
{
    match custom_dir {
        Some(dir) => {
            if custom_exists {
                custom_template_path(dir.as_str(), name)
            } else {
                join_path(crate_path, "README.md.in")
            }
        },
        None => {
            if text_eq(name, "captain") {
                "README.md.in".to_owned()
            } else {
                join_path(crate_path, "README.md.in")
            }
        },
    }
}

// ---- paths ----

/// Two paths are the same: they have the same components.
pub open spec fn same_path(a: Seq<char>, b: Seq<char>) -> bool {
    components(a) == components(b)
}

/// Whether two paths are the same.
pub fn paths_eq(a: &str, b: &str) -> (r: bool)
    ensures
        r == same_path(a@, b@),
{
    let x = components_of(a);
    let y = components_of(b);
    let n = common_prefix_len(&x, &y);
    proof {
        if n == x.len() && n == y.len() {
            assert(components(a@) =~= components(b@));
        } else if x.len() == y.len() {
            assert(components(a@)[n as int] != components(b@)[n as int]);
        } else {
            assert(components(a@).len() != components(b@).len());
        }
    }
    n == x.len() && n == y.len()
}

/// A path is in a list.
pub open spec fn lists_path(list: Seq<Seq<char>>, path: Seq<char>) -> bool {
    exists|i: int| 0 <= i < list.len() && same_path(#[trigger] list[i], path)
}

/// Whether a path is in a list.
pub fn list_has_path(list: &Vec<String>, path: &str) -> (r: bool)
    ensures
        r == lists_path(texts(list@), path@),
{
    let ghost all = texts(list@);
    let mut i: usize = 0;
    while i < list.len()
        invariant
            all == texts(list@),
            i <= list@.len(),
            forall|k: int| 0 <= k < i ==> !same_path(#[trigger] all[k], path@),
        decreases list@.len() - i,
    {
        if paths_eq(list[i].as_str(), path) {
            assert(same_path(all[i as int], path@));
            return true;
        }
        i = i + 1;
    }
    false
}

// ---- the plan ----

/// The workspace's own directory.
pub struct WorkspaceDir {
    /// Its path.
    pub path: String,
    /// Whether it holds a `Cargo.toml`.
    pub has_manifest: bool,
    /// The name that its README is generated under.
    pub name: String,
    /// What was read for its README.
    pub files: ReadmeFiles,
}

/// A README that is to be generated.
pub struct ReadmePlan {
    /// The directory that the README belongs to.
    pub dir: String,
    /// The name that it is generated under.
    pub name: String,
    /// The path of the template.
    pub template_path: String,
    /// The position of the directory among the candidates; none for the workspace's own.
    pub entry: Option<usize>,
}

/// What a planned README says.
pub struct PlanView {
    pub dir: Seq<char>,
    pub name: Seq<char>,
    pub template_path: Seq<char>,
    pub entry: Option<int>,
}

impl View for ReadmePlan {
    type V = PlanView;

    open spec fn view(&self) -> PlanView {
        PlanView {
            dir: self.dir@,
            name: self.name@,
            template_path: self.template_path@,
            entry: match self.entry {
                Some(n) => Some(n as int),
                None => None,
            },
        }
    }
}

/// What the planned READMEs of a list say.
pub open spec fn plan_views(plans: Seq<ReadmePlan>) -> Seq<PlanView> {
    Seq::new(plans.len(), |i: int| plans[i]@)
}

/// The directories of planned READMEs, with the names that they are generated under.
pub open spec fn plan_targets(plans: Seq<PlanView>) -> Seq<(Seq<char>, Seq<char>)> {
    Seq::new(plans.len(), |i: int| (plans[i].dir, plans[i].name))
}

/// The README of the crate in the last of some directories.
pub open spec fn last_crate_plan(
    dirs: Seq<DirCandidate>,
    name: Seq<char>,
    custom_dir: Option<Seq<char>>,
) -> PlanView {
    PlanView {
        dir: dirs.last().path@,
        name,
        template_path: template(custom_dir, dirs.last().custom_exists, dirs.last().path@, name),
        entry: Some(dirs.len() - 1),
    }
}

/// The READMEs of the crates in some directories.
pub open spec fn planned_crates(
    dirs: Seq<DirCandidate>,
    custom_dir: Option<Seq<char>>,
) -> Seq<PlanView>
    decreases dirs.len(),
{
    if dirs.len() == 0 {
        Seq::empty()
    } else {
        let before = planned_crates(dirs.drop_last(), custom_dir);
        match readme_crate(dirs.last()) {
            Some(name) => before.push(last_crate_plan(dirs, name, custom_dir)),
            None => before,
        }
    }
}

/// The workspace's own README.
pub open spec fn workspace_plan(workspace: WorkspaceDir) -> PlanView {
    PlanView {
        dir: workspace.path@,
        name: workspace.name@,
        template_path: joined_path(workspace.path@, "README.md.in"@),
        entry: None,
    }
}

/// The READMEs that are generated: those of the crates, and then the workspace's own where
/// there is a top-level `Cargo.toml`.
pub open spec fn planned(
    workspace: WorkspaceDir,
    dirs: Seq<DirCandidate>,
    custom_dir: Option<Seq<char>>,
) -> Seq<PlanView> {
    if workspace.has_manifest {
        planned_crates(dirs, custom_dir).push(workspace_plan(workspace))
    } else {
        planned_crates(dirs, custom_dir)
    }
}

/// No two of the candidates are the same directory, and none is the workspace's own.
pub open spec fn are_apart(workspace: WorkspaceDir, dirs: Seq<DirCandidate>) -> bool {
    &&& forall|i: int, j: int|
        0 <= i < j < dirs.len() ==> !same_path(
            (#[trigger] dirs[i]).path@,
            (#[trigger] dirs[j]).path@,
        )
    &&& forall|i: int|
        0 <= i < dirs.len() ==> !same_path((#[trigger] dirs[i]).path@, workspace.path@)
}

/// No two of the planned READMEs belong to the same directory.
pub open spec fn plans_are_apart(plans: Seq<PlanView>) -> bool {
    forall|i: int, j: int|
        0 <= i < j < plans.len() ==> !same_path(
            (#[trigger] plans[i]).dir,
            (#[trigger] plans[j]).dir,
        )
}

/// A planned README of a crate belongs to a directory that passes the filters.
pub open spec fn is_crate_plan(
    plan: PlanView,
    dirs: Seq<DirCandidate>,
    custom_dir: Option<Seq<char>>,
) -> bool {
    plan.entry matches Some(n) && 0 <= n < dirs.len() && plan.dir == dirs[n].path@ && readme_crate(
        dirs[n],
    ) == Some(plan.name) && plan.template_path == template(
        custom_dir,
        dirs[n].custom_exists,
        plan.dir,
        plan.name,
    )
}

proof fn lemma_planned_crates(dirs: Seq<DirCandidate>, custom_dir: Option<Seq<char>>)
    ensures
        plan_targets(planned_crates(dirs, custom_dir)) == readme_targets_in(dirs),
        forall|i: int|
            0 <= i < planned_crates(dirs, custom_dir).len() ==> is_crate_plan(
                #[trigger] planned_crates(dirs, custom_dir)[i],
                dirs,
                custom_dir,
            ),
        forall|i: int, j: int|
            0 <= i < j < planned_crates(dirs, custom_dir).len()
                ==> (#[trigger] planned_crates(dirs, custom_dir)[i]).entry->0 < (
            #[trigger] planned_crates(dirs, custom_dir)[j]).entry->0,
        forall|n: int|
            0 <= n < dirs.len() && readme_crate(#[trigger] dirs[n]) is Some ==> exists|i: int|
                0 <= i < planned_crates(dirs, custom_dir).len() && (#[trigger] planned_crates(
                    dirs,
                    custom_dir,
                )[i]).entry == Some(n),
    decreases dirs.len(),
{
    let all = planned_crates(dirs, custom_dir);
    if dirs.len() == 0 {
        assert(plan_targets(all) =~= readme_targets_in(dirs));
    } else {
        let rest = dirs.drop_last();
        let before = planned_crates(rest, custom_dir);
        let n = dirs.len() - 1;
        lemma_planned_crates(rest, custom_dir);
        assert(plan_targets(all) =~= readme_targets_in(dirs));
        assert forall|i: int| 0 <= i < all.len() implies is_crate_plan(
            #[trigger] all[i],
            dirs,
            custom_dir,
        ) by {
            if i < before.len() {
                assert(all[i] == before[i]);
                assert(is_crate_plan(before[i], rest, custom_dir));
                assert(rest[before[i].entry->0] == dirs[before[i].entry->0]);
            }
        }
        assert forall|i: int, j: int| 0 <= i < j < all.len() implies (#[trigger] all[i]).entry->0
            < (#[trigger] all[j]).entry->0 by {
            assert(all[i] == before[i]);
            assert(is_crate_plan(before[i], rest, custom_dir));
            if j < before.len() {
                assert(all[j] == before[j]);
            }
        }
        assert forall|m: int|
            0 <= m < dirs.len() && readme_crate(#[trigger] dirs[m]) is Some implies exists|i: int|
            0 <= i < all.len() && (#[trigger] all[i]).entry == Some(m) by {
            if m < n {
                assert(rest[m] == dirs[m]);
                let i = choose|i: int|
                    0 <= i < before.len() && (#[trigger] before[i]).entry == Some(m);
                assert(all[i] == before[i]);
            } else {
                assert(all[before.len() as int].entry == Some(n));
            }
        }
    }
}

/// What is planned are the READMEs of the crates whose directories pass the filters, each
/// once and in their order, and behind them the workspace's own, if and only if there is a
/// top-level `Cargo.toml`.
pub proof fn lemma_planned(
    workspace: WorkspaceDir,
    dirs: Seq<DirCandidate>,
    custom_dir: Option<Seq<char>>,
)
    ensures
        plan_targets(planned(workspace, dirs, custom_dir)) == readme_targets_in(dirs) + (
        if workspace.has_manifest {
            seq![(workspace.path@, workspace.name@)]
        } else {
            Seq::empty()
        }),
        are_apart(workspace, dirs) ==> plans_are_apart(planned(workspace, dirs, custom_dir)),
        forall|i: int|
            0 <= i < planned(workspace, dirs, custom_dir).len() ==> {
                let plan = #[trigger] planned(workspace, dirs, custom_dir)[i];
                ||| is_crate_plan(plan, dirs, custom_dir)
                ||| workspace.has_manifest && plan == workspace_plan(workspace) && i == planned(
                    workspace,
                    dirs,
                    custom_dir,
                ).len() - 1
            },
{
    let crates = planned_crates(dirs, custom_dir);
    let all = planned(workspace, dirs, custom_dir);
    lemma_planned_crates(dirs, custom_dir);
    assert(plan_targets(all) =~= readme_targets_in(dirs) + (if workspace.has_manifest {
        seq![(workspace.path@, workspace.name@)]
    } else {
        Seq::empty()
    }));
    assert forall|i: int| 0 <= i < all.len() implies ({
        let plan = #[trigger] all[i];
        ||| is_crate_plan(plan, dirs, custom_dir)
        ||| workspace.has_manifest && plan == workspace_plan(workspace) && i == all.len() - 1
    }) by {
        if i < crates.len() {
            assert(all[i] == crates[i]);
        }
    }
    if are_apart(workspace, dirs) {
        assert forall|i: int, j: int| 0 <= i < j < all.len() implies !same_path(
            (#[trigger] all[i]).dir,
            (#[trigger] all[j]).dir,
        ) by {
            assert(all[i] == crates[i]);
            assert(is_crate_plan(crates[i], dirs, custom_dir));
            let n = crates[i].entry->0;
            assert(dirs[n].path@ == all[i].dir);
            if j < crates.len() {
                assert(all[j] == crates[j]);
                assert(is_crate_plan(crates[j], dirs, custom_dir));
                let m = crates[j].entry->0;
                assert(n < m);
                assert(dirs[m].path@ == all[j].dir);
            }
        }
    }
}

/// Plans the READMEs that are generated, given the entries of the workspace directory and of
/// its `crates` directory, and the directory with templates of one's own, if there is one.
pub fn plan_readmes(
    workspace: &WorkspaceDir,
    dirs: &Vec<DirCandidate>,
    custom_dir: &Option<String>,
) -> (r: Vec<ReadmePlan>)
    requires
        forall|i: int|
            0 <= i < dirs@.len() && (#[trigger] dirs@[i]).is_dir ==> file_name(dirs@[i].path@) is Some,
    ensures
        plan_views(r@) == planned(*workspace, dirs@, opt_text(*custom_dir)),
        plan_targets(plan_views(r@)) == readme_targets_in(dirs@) + (if workspace.has_manifest {
            seq![(workspace.path@, workspace.name@)]
        } else {
            Seq::empty()
        }),
        are_apart(*workspace, dirs@) ==> plans_are_apart(plan_views(r@)),
{
    let ghost custom = opt_text(*custom_dir);
    let mut plans: Vec<ReadmePlan> = Vec::new();
    let mut i: usize = 0;
    proof {
        assert(dirs@.take(0) =~= Seq::empty());
        assert(plan_views(plans@) =~= Seq::empty());
    }
    while i < dirs.len()
        invariant
            custom == opt_text(*custom_dir),
            i <= dirs@.len(),
            plan_views(plans@) == planned_crates(dirs@.take(i as int), custom),
            forall|i: int|
                0 <= i < dirs@.len() && (#[trigger] dirs@[i]).is_dir ==> file_name(
                    dirs@[i].path@,
                ) is Some,
        decreases dirs@.len() - i,
    {
        let ghost before = plans@;
        proof {
            assert(dirs@.take(i + 1).drop_last() =~= dirs@.take(i as int));
            assert(dirs@.take(i + 1).last() == dirs@[i as int]);
        }
        match readme_crate_name(&dirs[i]) {
            Some(name) => {
                let template_path = template_path(
                    custom_dir,
                    dirs[i].custom_exists,
                    dirs[i].path.as_str(),
                    name.as_str(),
                );
                let dir = dirs[i].path.clone();
                let ghost title = name@;
                plans.push(ReadmePlan { dir, name, template_path, entry: Some(i) });
                proof {
                    let plan = last_crate_plan(dirs@.take(i + 1), title, custom);
                    assert(plans@.last()@ == plan);
                    assert(plan_views(plans@) =~= plan_views(before).push(plan));
                }
            },
            None => {},
        }
        i = i + 1;
    }
    proof {
        assert(dirs@.take(i as int) =~= dirs@);
        lemma_planned(*workspace, dirs@, custom);
    }
    if workspace.has_manifest {
        let ghost before = plans@;
        plans.push(
            ReadmePlan {
                dir: workspace.path.clone(),
                name: workspace.name.clone(),
                template_path: join_path(workspace.path.as_str(), "README.md.in"),
                entry: None,
            },
        );
        proof {
            assert(plans@.last()@ == workspace_plan(*workspace));
            assert(plan_views(plans@) =~= plan_views(before).push(workspace_plan(*workspace)));
        }
    }
    plans
}

// ---- the jobs ----

/// What `git show` is asked for to see the staged content of a file: its path from the
/// workspace, after a colon.
pub open spec fn staged_object(workspace: Seq<char>, path: Seq<char>) -> Seq<char> {
    ":"@ + match stripped(path, workspace) {
        Some(relative) => relative,
        None => path,
    }
}

/// What `git show` is asked for to see the staged content of a file.
pub fn staged_object_name(workspace: &str, path: &str) -> (r: String)
    ensures
        r@ == staged_object(workspace@, path@),
{
    let mut name = ":".to_owned();
    match strip_path(path, workspace) {
        Some(relative) => name.append(relative.as_str()),
        None => name.append(path),
    }
    name
}

/// The path of the README of a directory.
pub open spec fn readme_path(dir: Seq<char>) -> Seq<char> {
    joined_path(dir, "README.md"@)
}

/// What was read for a planned README.
pub open spec fn plan_files(
    workspace: WorkspaceDir,
    dirs: Seq<DirCandidate>,
    plan: PlanView,
) -> ReadmeFiles {
    match plan.entry {
        Some(n) => dirs[n].files,
        None => workspace.files,
    }
}

/// A README that is to be generated, with what was read for it.
pub struct ReadmeSource {
    pub plan: PlanView,
    pub files: ReadmeFiles,
}

/// The planned READMEs, each with what was read for it.
pub open spec fn readme_sources(
    workspace: WorkspaceDir,
    dirs: Seq<DirCandidate>,
    custom_dir: Option<Seq<char>>,
) -> Seq<ReadmeSource> {
    let plans = planned(workspace, dirs, custom_dir);
    Seq::new(
        plans.len(),
        |i: int|
            ReadmeSource { plan: plans[i], files: plan_files(workspace, dirs, plans[i]) },
    )
}

/// A README was edited by hand: it is staged, not dirty, and its staged content is not what
/// is generated.
pub open spec fn is_conflict(
    staged: Seq<Seq<char>>,
    dir: Seq<char>,
    files: ReadmeFiles,
) -> bool {
    match (files.template, opt_bytes(files.staged_content)) {
        (Template::Generated(content), Some(bytes)) => lists_path(staged, readme_path(dir))
            && bytes != content@,
        _ => false,
    }
}

/// The job that writes the README of a directory; none where there is no template.
pub open spec fn readme_job(dir: Seq<char>, files: ReadmeFiles) -> Option<JobView> {
    match files.template {
        Template::Generated(content) => Some(
            JobView {
                path: readme_path(dir),
                old_content: opt_bytes(files.old_content),
                new_content: content@,
                executable: false,
            },
        ),
        _ => None,
    }
}

/// What is told about a template that is missing or cannot be read.
pub open spec fn template_problem(path: Seq<char>, template: Template) -> Seq<Seq<char>> {
    match template {
        Template::Missing => seq![
            "🚫 "@ + in_bold(in_red("Missing template!"@))
                + " Please add a README.md.in template here that describes what this crate is for:\n   "@
                + in_yellow(path),
        ],
        Template::Unreadable(message) => seq![
            "Failed to read template "@ + path + ": "@ + message@,
        ],
        Template::Generated(_) => Seq::empty(),
    }
}

/// What is told about a README that was edited by hand.
pub open spec fn conflict_lines(readme: Seq<char>, template: Seq<char>) -> Seq<Seq<char>> {
    seq![
        ""@,
        in_bold(in_red("❌ GENERATED FILE CONFLICT DETECTED"@)),
        ""@,
        "You modified "@ + in_yellow(readme) + " directly, but this file is auto-generated."@,
        "This pre-commit hook would overwrite your changes."@,
        ""@,
        in_cyan("→"@) + " Edit "@ + in_yellow(template) + " instead (the template source)"@,
        ""@,
        in_bold(in_cyan("To fix this:"@)),
        "  1. Undo changes to the generated file:"@,
        "     git restore --staged "@ + readme,
        "     git restore "@ + readme,
        ""@,
        "  2. OR edit the template and regenerate:"@,
        "     # Edit "@ + template,
        "     cargo run --release  # regenerate"@,
        "     git add "@ + readme + "  # stage the generated file"@,
        ""@,
        "Refusing to commit until this conflict is resolved."@,
    ]
}

fn with_text(before: &str, text: &str, after: &str) -> (r: String)
    ensures
        r@ == before@ + text@ + after@,
{
    let mut s = before.to_owned();
    s.append(text);
    s.append(after);
    s
}

/// What is told about a README that was edited by hand.
pub fn describe_conflict(readme: &str, template: &str) -> (r: Vec<String>)
    ensures
        texts(r@) == conflict_lines(readme@, template@),
{
    let mut lines: Vec<String> = Vec::new();
    push_text(&mut lines, "");
    push_text(&mut lines, bold(red("❌ GENERATED FILE CONFLICT DETECTED").as_str()).as_str());
    push_text(&mut lines, "");
    push_text(
        &mut lines,
        with_text(
            "You modified ",
            yellow(readme).as_str(),
            " directly, but this file is auto-generated.",
        ).as_str(),
    );
    push_text(&mut lines, "This pre-commit hook would overwrite your changes.");
    push_text(&mut lines, "");
    let mut edit = cyan("→");
    edit.append(" Edit ");
    edit.append(yellow(template).as_str());
    edit.append(" instead (the template source)");
    push_text(&mut lines, edit.as_str());
    push_text(&mut lines, "");
    push_text(&mut lines, bold(cyan("To fix this:").as_str()).as_str());
    push_text(&mut lines, "  1. Undo changes to the generated file:");
    let mut restore_staged = "     git restore --staged ".to_owned();
    restore_staged.append(readme);
    push_text(&mut lines, restore_staged.as_str());
    let mut restore = "     git restore ".to_owned();
    restore.append(readme);
    push_text(&mut lines, restore.as_str());
    push_text(&mut lines, "");
    push_text(&mut lines, "  2. OR edit the template and regenerate:");
    let mut edit_template = "     # Edit ".to_owned();
    edit_template.append(template);
    push_text(&mut lines, edit_template.as_str());
    push_text(&mut lines, "     cargo run --release  # regenerate");
    push_text(
        &mut lines,
        with_text("     git add ", readme, "  # stage the generated file").as_str(),
    );
    push_text(&mut lines, "");
    push_text(&mut lines, "Refusing to commit until this conflict is resolved.");
    proof {
        assert(texts(lines@) =~= conflict_lines(readme@, template@));
    }
    lines
}

/// What is told about a template that is missing or cannot be read.
pub fn describe_template_problem(path: &str, template: &Template) -> (r: Option<String>)
    ensures
        template_problem(path@, *template) == match r {
            Some(line) => seq![line@],
            None => Seq::empty(),
        },
{
    match template {
        Template::Missing => {
            let mut line = "🚫 ".to_owned();
            line.append(bold(red("Missing template!").as_str()).as_str());
            line.append(
                " Please add a README.md.in template here that describes what this crate is for:\n   ",
            );
            line.append(yellow(path).as_str());
            Some(line)
        },
        Template::Unreadable(message) => {
            let mut line = "Failed to read template ".to_owned();
            line.append(path);
            line.append(": ");
            line.append(message.as_str());
            Some(line)
        },
        Template::Generated(_) => None,
    }
}

/// The jobs that write READMEs.
pub open spec fn readme_jobs(sources: Seq<ReadmeSource>) -> Seq<JobView>
    decreases sources.len(),
{
    if sources.len() == 0 {
        Seq::empty()
    } else {
        let last = sources.last();
        readme_jobs(sources.drop_last()) + as_list(readme_job(last.plan.dir, last.files))
    }
}

/// The position of the first README that was edited by hand, or the number of READMEs.
pub open spec fn first_conflict(staged: Seq<Seq<char>>, sources: Seq<ReadmeSource>) -> nat
    decreases sources.len(),
{
    if sources.len() == 0 || is_conflict(staged, sources[0].plan.dir, sources[0].files) {
        0
    } else {
        1 + first_conflict(staged, sources.drop_first())
    }
}

fn conflicts(staged: &Vec<String>, dir: &str, path: &str, files: &ReadmeFiles) -> (r: bool)
    requires
        path@ == readme_path(dir@),
    ensures
        r == is_conflict(texts(staged@), dir@, *files),
{
    match (&files.template, &files.staged_content) {
        (Template::Generated(content), Some(bytes)) => list_has_path(staged, path) && !bytes_eq(
            bytes,
            content,
        ),
        _ => false,
    }
}

/// Collects the jobs that write READMEs, given the staged files, the workspace's own
/// directory, the entries of it and of its `crates` directory, and the directory with
/// templates of one's own, if there is one. The first README that was edited by hand stops
/// it: then the result is what is to be told about it.
pub fn collect_readme_jobs(
    staged: &Vec<String>,
    workspace: &WorkspaceDir,
    dirs: &Vec<DirCandidate>,
    custom_dir: &Option<String>,
) -> (r: Result<Vec<Job>, Vec<String>>)
    requires
        forall|i: int|
            0 <= i < dirs@.len() && (#[trigger] dirs@[i]).is_dir ==> file_name(dirs@[i].path@) is Some,
    ensures
        ({
            let sources = readme_sources(*workspace, dirs@, opt_text(*custom_dir));
            let at = first_conflict(texts(staged@), sources);
            match r {
                Ok(jobs) => at == sources.len() && job_views(jobs@) == readme_jobs(sources),
                Err(lines) => at < sources.len() && texts(lines@) == conflict_lines(
                    readme_path(sources[at as int].plan.dir),
                    sources[at as int].plan.template_path,
                ),
            }
        }),
{
    let ghost clean = texts(staged@);
    let ghost sources = readme_sources(*workspace, dirs@, opt_text(*custom_dir));
    let plans = plan_readmes(workspace, dirs, custom_dir);
    let mut jobs: Vec<Job> = Vec::new();
    let mut i: usize = 0;
    proof {
        lemma_planned(*workspace, dirs@, opt_text(*custom_dir));
        assert forall|k: int| 0 <= k < plans@.len() implies ((#[trigger] plans@[k]).entry matches Some(
            n,
        ) ==> n < dirs@.len()) by {
            assert(plan_views(plans@)[k] == plans@[k]@);
        }
        assert(sources.take(0) =~= Seq::empty());
        assert(sources.skip(0) =~= sources);
        assert(job_views(jobs@) =~= Seq::empty());
    }
    while i < plans.len()
        invariant
            clean == texts(staged@),
            sources == readme_sources(*workspace, dirs@, opt_text(*custom_dir)),
            plan_views(plans@) == planned(*workspace, dirs@, opt_text(*custom_dir)),
            plans@.len() == sources.len(),
            forall|k: int|
                0 <= k < plans@.len() ==> ((#[trigger] plans@[k]).entry matches Some(n) ==> n
                    < dirs@.len()),
            i <= plans@.len(),
            job_views(jobs@) == readme_jobs(sources.take(i as int)),
            first_conflict(clean, sources) == i + first_conflict(clean, sources.skip(i as int)),
        decreases plans@.len() - i,
    {
        let plan = &plans[i];
        proof {
            assert(plan_views(plans@)[i as int] == plan@);
        }
        let files = match plan.entry {
            Some(n) => &dirs[n].files,
            None => &workspace.files,
        };
        let ghost source = sources[i as int];
        let ghost before = jobs@;
        let path = join_path(plan.dir.as_str(), "README.md");
        proof {
            assert(source.plan == plan@ && source.files == *files);
            assert(sources.skip(i as int)[0] == source);
            assert(sources.skip(i as int).drop_first() =~= sources.skip(i + 1));
            assert(sources.take(i + 1).drop_last() =~= sources.take(i as int));
            assert(sources.take(i + 1).last() == source);
        }
        if conflicts(staged, plan.dir.as_str(), path.as_str(), files) {
            return Err(describe_conflict(path.as_str(), plan.template_path.as_str()));
        }
        match &files.template {
            Template::Generated(content) => {
                jobs.push(
                    Job {
                        path,
                        old_content: content_copy(&files.old_content),
                        new_content: bytes_copy(content),
                        executable: false,
                    },
                );
            },
            _ => {},
        }
        proof {
            assert(job_views(jobs@) =~= job_views(before) + as_list(
                readme_job(source.plan.dir, source.files),
            ));
        }
        i = i + 1;
    }
    proof {
        assert(sources.take(i as int) =~= sources);
        assert(sources.skip(i as int) =~= Seq::empty());
    }
    Ok(jobs)
}

// ---- laws ----

proof fn lemma_readme_jobs(sources: Seq<ReadmeSource>, job: JobView)
    ensures
        readme_jobs(sources).contains(job) <==> exists|i: int|
            0 <= i < sources.len() && readme_job(
                (#[trigger] sources[i]).plan.dir,
                sources[i].files,
            ) == Some(job),
    decreases sources.len(),
{
    if sources.len() > 0 {
        let rest = sources.drop_last();
        let before = readme_jobs(rest);
        let all = readme_jobs(sources);
        let last = readme_job(sources.last().plan.dir, sources.last().files);
        lemma_readme_jobs(rest, job);
        if all.contains(job) {
            let k = all.index_of(job);
            if k < before.len() {
                assert(before[k] == job);
                let i = choose|i: int|
                    0 <= i < rest.len() && readme_job(
                        (#[trigger] rest[i]).plan.dir,
                        rest[i].files,
                    ) == Some(job);
                assert(sources[i] == rest[i]);
            } else {
                assert(all[k] == as_list(last)[k - before.len()]);
                assert(sources[sources.len() - 1] == sources.last());
            }
        }
        if exists|i: int|
            0 <= i < sources.len() && readme_job(
                (#[trigger] sources[i]).plan.dir,
                sources[i].files,
            ) == Some(job) {
            let i = choose|i: int|
                0 <= i < sources.len() && readme_job(
                    (#[trigger] sources[i]).plan.dir,
                    sources[i].files,
                ) == Some(job);
            if i < rest.len() {
                assert(rest[i] == sources[i]);
                let k = before.index_of(job);
                assert(all[k] == job);
            } else {
                assert(all[before.len() as int] == job);
            }
        }
    }
}

/// Each job writes the README of the workspace's own directory, where that has a `Cargo.toml`,
/// or of a candidate that passes the filters, with the content that was generated for it over
/// the content that it had; and each of these whose template gave a content has a job.
pub proof fn lemma_readme_jobs_are_of_planned_dirs(
    workspace: WorkspaceDir,
    dirs: Seq<DirCandidate>,
    custom_dir: Option<Seq<char>>,
    job: JobView,
)
    ensures
        readme_jobs(readme_sources(workspace, dirs, custom_dir)).contains(job) <==> {
            ||| workspace.has_manifest && readme_job(workspace.path@, workspace.files) == Some(job)
            ||| exists|n: int|
                0 <= n < dirs.len() && readme_crate(#[trigger] dirs[n]) is Some && readme_job(
                    dirs[n].path@,
                    dirs[n].files,
                ) == Some(job)
        },
        workspace.has_manifest && readme_job(workspace.path@, workspace.files) == Some(job)
            ==> readme_jobs(readme_sources(workspace, dirs, custom_dir)).last() == job,
{
    let plans = planned(workspace, dirs, custom_dir);
    let crates = planned_crates(dirs, custom_dir);
    let sources = readme_sources(workspace, dirs, custom_dir);
    lemma_planned_crates(dirs, custom_dir);
    lemma_planned(workspace, dirs, custom_dir);
    lemma_readme_jobs(sources, job);
    if readme_jobs(sources).contains(job) {
        let i = choose|i: int|
            0 <= i < sources.len() && readme_job(
                (#[trigger] sources[i]).plan.dir,
                sources[i].files,
            ) == Some(job);
        assert(sources[i].plan == plans[i]);
        if is_crate_plan(plans[i], dirs, custom_dir) {
            let n = plans[i].entry->0;
            assert(readme_crate(dirs[n]) is Some);
        }
    }
    if workspace.has_manifest {
        assert(sources.last().plan == workspace_plan(workspace));
        assert(sources[sources.len() - 1] == sources.last());
    }
    if exists|n: int|
        0 <= n < dirs.len() && readme_crate(#[trigger] dirs[n]) is Some && readme_job(
            dirs[n].path@,
            dirs[n].files,
        ) == Some(job) {
        let n = choose|n: int|
            0 <= n < dirs.len() && readme_crate(#[trigger] dirs[n]) is Some && readme_job(
                dirs[n].path@,
                dirs[n].files,
            ) == Some(job);
        let i = choose|i: int| 0 <= i < crates.len() && (#[trigger] crates[i]).entry == Some(n);
        assert(is_crate_plan(crates[i], dirs, custom_dir));
        assert(plans[i] == crates[i]);
        assert(sources[i].plan == plans[i]);
    }
}

/// The READMEs of two directories are two files.
proof fn lemma_readme_paths_differ(a: Seq<char>, b: Seq<char>)
    requires
        a.len() > 0 && a[0] == '/',
        b.len() > 0 && b[0] == '/',
        !same_path(a, b),
    ensures
        !same_path(readme_path(a), readme_path(b)),
{
    let file = "README.md"@;
    reveal_strlit("README.md");
    lemma_joined_name(a, file);
    lemma_joined_name(b, file);
    assert(components(a) =~= components(readme_path(a)).drop_last());
    assert(components(b) =~= components(readme_path(b)).drop_last());
}

proof fn lemma_jobs_apart(sources: Seq<ReadmeSource>)
    requires
        forall|i: int|
            0 <= i < sources.len() ==> (#[trigger] sources[i]).plan.dir.len() > 0
                && sources[i].plan.dir[0] == '/',
        forall|i: int, j: int|
            0 <= i < j < sources.len() ==> !same_path(
                (#[trigger] sources[i]).plan.dir,
                (#[trigger] sources[j]).plan.dir,
            ),
    ensures
        forall|i: int, j: int|
            0 <= i < j < readme_jobs(sources).len() ==> !same_path(
                (#[trigger] readme_jobs(sources)[i]).path,
                (#[trigger] readme_jobs(sources)[j]).path,
            ),
    decreases sources.len(),
{
    if sources.len() > 0 {
        let rest = sources.drop_last();
        let before = readme_jobs(rest);
        let all = readme_jobs(sources);
        let last = sources.last();
        lemma_jobs_apart(rest);
        assert forall|i: int, j: int| 0 <= i < j < all.len() implies !same_path(
            (#[trigger] all[i]).path,
            (#[trigger] all[j]).path,
        ) by {
            assert(all[i] == before[i]);
            if j < before.len() {
                assert(all[j] == before[j]);
            } else {
                assert(before.contains(before[i]));
                lemma_readme_jobs(rest, before[i]);
                let k = choose|k: int|
                    0 <= k < rest.len() && readme_job(
                        (#[trigger] rest[k]).plan.dir,
                        rest[k].files,
                    ) == Some(before[i]);
                assert(rest[k] == sources[k]);
                assert(sources[sources.len() - 1] == last);
                lemma_readme_paths_differ(sources[k].plan.dir, last.plan.dir);
            }
        }
    }
}

/// No README is written twice: where the candidates and the workspace's own directory are
/// all different, so are the files that the jobs write.
pub proof fn lemma_no_readme_is_written_twice(
    workspace: WorkspaceDir,
    dirs: Seq<DirCandidate>,
    custom_dir: Option<Seq<char>>,
)
    requires
        are_apart(workspace, dirs),
        workspace.path@.len() > 0 && workspace.path@[0] == '/',
        forall|i: int|
            0 <= i < dirs.len() ==> (#[trigger] dirs[i]).path@.len() > 0 && dirs[i].path@[0] == '/',
    ensures
        forall|i: int, j: int|
            0 <= i < j < readme_jobs(readme_sources(workspace, dirs, custom_dir)).len()
                ==> !same_path(
                (#[trigger] readme_jobs(readme_sources(workspace, dirs, custom_dir))[i]).path,
                (#[trigger] readme_jobs(readme_sources(workspace, dirs, custom_dir))[j]).path,
            ),
{
    let plans = planned(workspace, dirs, custom_dir);
    let sources = readme_sources(workspace, dirs, custom_dir);
    lemma_planned(workspace, dirs, custom_dir);
    assert forall|i: int| 0 <= i < sources.len() implies (#[trigger] sources[i]).plan.dir.len() > 0
        && sources[i].plan.dir[0] == '/' by {
        assert(sources[i].plan == plans[i]);
        if is_crate_plan(plans[i], dirs, custom_dir) {
            assert(dirs[plans[i].entry->0].path@ == plans[i].dir);
        }
    }
    assert forall|i: int, j: int| 0 <= i < j < sources.len() implies !same_path(
        (#[trigger] sources[i]).plan.dir,
        (#[trigger] sources[j]).plan.dir,
    ) by {
        assert(sources[i].plan == plans[i] && sources[j].plan == plans[j]);
    }
    lemma_jobs_apart(sources);
}

/// The directories where crates are looked for are all different and none is the workspace's
/// own, since no directory lists a name twice.
pub proof fn lemma_candidates_are_apart(
    workspace: WorkspaceDir,
    dirs: Seq<DirCandidate>,
    names: Seq<Seq<char>>,
    crates_names: Seq<Seq<char>>,
)
    requires
        workspace.path@.len() > 0 && workspace.path@[0] == '/',
        forall|i: int| 0 <= i < names.len() ==> is_plain_name(#[trigger] names[i]),
        forall|i: int| 0 <= i < crates_names.len() ==> is_plain_name(#[trigger] crates_names[i]),
        names.no_duplicates(),
        crates_names.no_duplicates(),
        dirs.len() == names.len() + crates_names.len(),
        forall|i: int|
            0 <= i < dirs.len() ==> (#[trigger] dirs[i]).path@ == candidate_paths(
                workspace.path@,
                names,
                crates_names,
            )[i],
    ensures
        are_apart(workspace, dirs),
        forall|i: int|
            0 <= i < dirs.len() ==> (#[trigger] dirs[i]).path@.len() > 0 && dirs[i].path@[0] == '/',
{
    let root = workspace.path@;
    let inner = joined_path(root, "crates"@);
    let n = names.len() as int;
    reveal_strlit("crates");
    lemma_joined_name(root, "crates"@);
    assert forall|i: int| 0 <= i < dirs.len() implies ({
        &&& (#[trigger] dirs[i]).path@.len() > 0 && dirs[i].path@[0] == '/'
        &&& components(dirs[i].path@) == if i < n {
            components(root).push(names[i])
        } else {
            components(root).push("crates"@).push(crates_names[i - n])
        }
    }) by {
        if i < n {
            assert(dirs[i].path@ == joined_path(root, names[i]));
            lemma_joined_name(root, names[i]);
        } else {
            assert(dirs[i].path@ == joined_path(inner, crates_names[i - n]));
            lemma_joined_name(inner, crates_names[i - n]);
        }
    }
    assert forall|i: int, j: int| 0 <= i < j < dirs.len() implies !same_path(
        (#[trigger] dirs[i]).path@,
        (#[trigger] dirs[j]).path@,
    ) by {
        let (a, b) = (components(dirs[i].path@), components(dirs[j].path@));
        if j < n {
            assert(a.last() == names[i] && b.last() == names[j]);
        } else if i >= n {
            assert(a.last() == crates_names[i - n] && b.last() == crates_names[j - n]);
        } else {
            assert(a.len() != b.len());
        }
    }
    assert forall|i: int| 0 <= i < dirs.len() implies !same_path(
        (#[trigger] dirs[i]).path@,
        root,
    ) by {
        assert(components(dirs[i].path@).len() > components(root).len());
    }
}

// ---- the name of the workspace ----

/// The name of the first package with an id.
pub open spec fn name_by_id(packages: Seq<Package>, id: Seq<char>) -> Option<Seq<char>> {
    let at = first_with_id(packages, id);
    if at < packages.len() {
        Some(packages[at as int].name@)
    } else {
        None
    }
}

/// The name of the first package with an id.
pub fn package_name_by_id(metadata: &Metadata, package_id: &str) -> (r: Option<String>)
    ensures
        opt_text(r) == name_by_id(metadata.packages@, package_id@),
{
    let at = find_package(&metadata.packages, package_id);
    if at < metadata.packages.len() {
        Some(metadata.packages[at].name.clone())
    } else {
        None
    }
}

/// The name of the first package in a list of ids that is there.
pub open spec fn first_name(packages: Seq<Package>, ids: Seq<Seq<char>>) -> Option<Seq<char>>
    decreases ids.len(),
{
    if ids.len() == 0 {
        None
    } else {
        match name_by_id(packages, ids[0]) {
            Some(name) => Some(name),
            None => first_name(packages, ids.drop_first()),
        }
    }
}

/// The name of the first package whose manifest is the one at a path. `manifests` holds the
/// canonical paths of the manifests, as far as there are any.
pub open spec fn name_by_manifest(
    packages: Seq<Package>,
    manifests: Seq<Option<String>>,
    path: Seq<char>,
) -> Option<Seq<char>>
    decreases packages.len(),
{
    if packages.len() == 0 || manifests.len() == 0 {
        None
    } else if manifests[0] matches Some(manifest) && same_path(manifest@, path) {
        Some(packages[0].name@)
    } else {
        name_by_manifest(packages.drop_first(), manifests.drop_first(), path)
    }
}

/// The name of a workspace: that of the root package, else of the first default member, else
/// of the package whose manifest is the workspace's own.
pub open spec fn workspace_name(
    metadata: Metadata,
    root_manifest: Result<Seq<char>, Seq<char>>,
    manifests: Seq<Option<String>>,
) -> Result<Seq<char>, Seq<char>> {
    let root_name = match metadata.resolve_root {
        Some(id) => name_by_id(metadata.packages@, id@),
        None => None,
    };
    match root_name {
        Some(name) => Ok(name),
        None => match first_name(metadata.packages@, texts(metadata.workspace_default_members@)) {
            Some(name) => Ok(name),
            None => match root_manifest {
                Err(message) => Err(
                    "Failed to canonicalize workspace manifest: "@ + message,
                ),
                Ok(path) => match name_by_manifest(metadata.packages@, manifests, path) {
                    Some(name) => Ok(name),
                    None => Err("Unable to match workspace manifest to any package"@),
                },
            },
        },
    }
}

/// Get the workspace name from cargo metadata (the root package name or first default member).
/// `root_manifest` is the canonical path of the workspace's own manifest, or the error met
/// when looking for it; `manifests` gives that of each package, as far as there is one.
pub fn workspace_name_from_metadata_object(
    metadata: &Metadata,
    root_manifest: &Result<String, String>,
    manifests: &Vec<Option<String>>,
) -> (r: Result<String, String>)
    requires
        manifests@.len() == metadata.packages@.len(),
    ensures
        result_text(r) == workspace_name(*metadata, result_text(*root_manifest), manifests@),
{
    match &metadata.resolve_root {
        Some(root_id) => {
            match package_name_by_id(metadata, root_id.as_str()) {
                Some(name) => {
                    return Ok(name);
                },
                None => {},
            }
        },
        None => {},
    }
    let ids = &metadata.workspace_default_members;
    let ghost all = texts(ids@);
    let mut i: usize = 0;
    assert(all.skip(0) =~= all);
    while i < ids.len()
        invariant
            ids@ == metadata.workspace_default_members@,
            all == texts(ids@),
            i <= ids@.len(),
            first_name(metadata.packages@, all) == first_name(
                metadata.packages@,
                all.skip(i as int),
            ),
            metadata.resolve_root matches Some(id) ==> name_by_id(metadata.packages@, id@) is None,
        decreases ids@.len() - i,
    {
        proof {
            assert(all.skip(i as int).drop_first() =~= all.skip(i + 1));
            assert(all.skip(i as int)[0] == ids@[i as int]@);
        }
        match package_name_by_id(metadata, ids[i].as_str()) {
            Some(name) => {
                return Ok(name);
            },
            None => {},
        }
        i = i + 1;
    }
    let path = match root_manifest {
        Ok(path) => path,
        Err(message) => {
            let mut text = "Failed to canonicalize workspace manifest: ".to_owned();
            text.append(message.as_str());
            return Err(text);
        },
    };
    let ghost packages = metadata.packages@;
    let mut k: usize = 0;
    assert(packages.skip(0) =~= packages);
    assert(manifests@.skip(0) =~= manifests@);
    while k < metadata.packages.len()
        invariant
            packages == metadata.packages@,
            manifests@.len() == packages.len(),
            k <= packages.len(),
            name_by_manifest(packages, manifests@, path@) == name_by_manifest(
                packages.skip(k as int),
                manifests@.skip(k as int),
                path@,
            ),
            *root_manifest == Ok::<String, String>(*path),
            metadata.resolve_root matches Some(id) ==> name_by_id(packages, id@) is None,
            first_name(packages, texts(metadata.workspace_default_members@)) is None,
        decreases packages.len() - k,
    {
        proof {
            assert(packages.skip(k as int).drop_first() =~= packages.skip(k + 1));
            assert(manifests@.skip(k as int).drop_first() =~= manifests@.skip(k + 1));
            assert(manifests@.skip(k as int)[0] == manifests@[k as int]);
        }
        match &manifests[k] {
            Some(manifest) => {
                if paths_eq(manifest.as_str(), path.as_str()) {
                    return Ok(metadata.packages[k].name.clone());
                }
            },
            None => {},
        }
        k = k + 1;
    }
    Err("Unable to match workspace manifest to any package".to_owned())
}

/// The name that the workspace's README is generated under: that of the workspace, else that
/// of its directory.
pub open spec fn readme_name(name: Result<Seq<char>, Seq<char>>, workspace_dir: Seq<char>) -> Seq<
    char,
> {
    match name {
        Ok(n) => n,
        Err(_) => match file_name(workspace_dir) {
            Some(n) => n,
            None => "workspace"@,
        },
    }
}

/// The name that the workspace's README is generated under.
pub fn workspace_readme_name(name: Result<String, String>, workspace_dir: &str) -> (r: String)
    ensures
        r@ == readme_name(result_text(name), workspace_dir@),
{
    match name {
        Ok(n) => n,
        Err(_) => match file_name_of(workspace_dir) {
            Some(n) => n,
            None => "workspace".to_owned(),
        },
    }
}

impl WorkspaceDir {
    /// The workspace's own directory, with the name that its README is generated under: that
    /// of the workspace, if it was found, else that of the directory.
    pub fn new(
        path: String,
        has_manifest: bool,
        name: Result<String, String>,
        files: ReadmeFiles,
    ) -> (r: Self)
        ensures
            r.path == path,
            r.has_manifest == has_manifest,
            r.name@ == readme_name(result_text(name), path@),
            r.files == files,
    {
        let name = workspace_readme_name(name, path.as_str());
        WorkspaceDir { path, has_manifest, name, files }
    }
}

// ---- laws of the READMEs ----

/// The directories that are passed over are the hidden and the private ones and six others.
pub proof fn lemma_passed_over(name: Seq<char>)
    requires
        name.len() > 0,
    ensures
        is_passed_over(name) <==> name[0] == '.' || name[0] == '_' || name == "target"@ || name
            == "xtask"@ || name == "examples"@ || name == "benches"@ || name == "tests"@ || name
            == "fuzz"@,
{
    reveal_strlit(".");
    reveal_strlit("_");
    assert(name.subrange(0, 1)[0] == name[0]);
    if name[0] == '.' {
        assert(name.subrange(0, 1) =~= "."@);
    }
    if name[0] == '_' {
        assert(name.subrange(0, 1) =~= "_"@);
    }
}

/// A manifest has `generate-readmes = false` under `package.metadata.captain`.
pub open spec fn says_no_readme(manifest: Toml) -> bool {
    &&& manifest.get("package"@) matches Some(package)
    &&& package.get("metadata"@) matches Some(metadata)
    &&& metadata.get("captain"@) matches Some(captain)
    &&& captain.get("generate-readmes"@) == Some(Toml::Flag(false))
}

/// A crate gets a README exactly if it lies in a directory with a manifest that is not passed
/// over, and the manifest does not say that it is to have none.
pub proof fn lemma_crate_gets_readme(dir: DirCandidate, parents: Seq<Seq<char>>, name: Seq<char>)
    requires
        are_plain_names(parents),
        is_plain_name(name),
        name != seq!['.', '.'],
        dir.path@ == rooted(parents.push(name)),
    ensures
        readme_crate(dir) is Some ==> readme_crate(dir) == Some(name),
        readme_crate(dir) is Some <==> dir.is_dir && dir.has_manifest && !is_passed_over(name)
            && !(dir.manifest matches Some(text) && toml_parse(text@) matches Ok(manifest)
            && says_no_readme(manifest)),
{
    lemma_rooted_push(parents, name);
    lemma_rooted_file_name(parents.push(name));
    assert(parents.push(name).last() == name);
}

/// The crates of two lists of directories that get a README are those of each, one after the
/// other; a single directory gives its path and the name of its crate, or nothing.
pub proof fn lemma_targets_of_two_lists(a: Seq<DirCandidate>, b: Seq<DirCandidate>)
    ensures
        readme_targets_in(a + b) == readme_targets_in(a) + readme_targets_in(b),
        a.len() == 1 ==> readme_targets_in(a) == match readme_crate(a[0]) {
            Some(name) => seq![(a[0].path@, name)],
            None => Seq::empty(),
        },
    decreases b.len(),
{
    if a.len() == 1 {
        assert(a.drop_last() =~= Seq::empty());
        assert(readme_targets_in(a.drop_last()) =~= Seq::empty());
        assert(readme_targets_in(a) =~= match readme_crate(a[0]) {
            Some(name) => seq![(a[0].path@, name)],
            None => Seq::empty(),
        });
    }
    if b.len() == 0 {
        assert(a + b =~= a);
    } else {
        lemma_targets_of_two_lists(a, b.drop_last());
        assert((a + b).drop_last() =~= a + b.drop_last());
        assert((a + b).last() == b.last());
    }
    assert(readme_targets_in(a + b) =~= readme_targets_in(a) + readme_targets_in(b));
}

/// A crate's template lies beside its manifest, or under its name in the directory with
/// templates of one's own where it is there; only without such a directory is that of
/// `captain` the one in the current directory.
pub proof fn lemma_template(
    custom: Seq<Seq<char>>,
    dir: Seq<Seq<char>>,
    name: Seq<char>,
)
    requires
        are_plain_names(custom),
        are_plain_names(dir),
        is_plain_name(name),
        forall|i: int| 0 < i < name.len() ==> name[i] != '.',
    ensures
        template(Some(rooted(custom)), true, rooted(dir), name) == rooted(
            custom.push(name + ".md.in"@),
        ),
        template(Some(rooted(custom)), false, rooted(dir), name) == rooted(
            dir.push("README.md.in"@),
        ),
        forall|custom_exists: bool|
            name != "captain"@ ==> #[trigger] template(None, custom_exists, rooted(dir), name)
                == rooted(dir.push("README.md.in"@)),
        forall|custom_exists: bool|
            name == "captain"@ ==> #[trigger] template(None, custom_exists, rooted(dir), name)
                == "README.md.in"@,
{
    reveal_strlit("md.in");
    reveal_strlit(".md.in");
    reveal_strlit("README.md.in");
    assert("README.md.in"@[0] == 'R');
    lemma_rooted_push(dir, "README.md.in"@);
    lemma_rooted_push(custom, name);
    lemma_rooted_with_extension(custom, name, Seq::empty(), "md.in"@);
    assert(name + seq!['.'] + "md.in"@ =~= name + ".md.in"@);
}

/// Of a crate with a dot in its name the template of one's own stands under the name up to the
/// last dot.
pub proof fn lemma_template_of_dotted_name(
    custom: Seq<Seq<char>>,
    crate_path: Seq<char>,
    stem: Seq<char>,
    end: Seq<char>,
)
    requires
        are_plain_names(custom),
        is_plain_name(stem),
        is_plain_name(stem + seq!['.'] + end),
        !end.contains('.') && !end.contains('/'),
    ensures
        template(Some(rooted(custom)), true, crate_path, stem + seq!['.'] + end) == rooted(
            custom.push(stem + ".md.in"@),
        ),
{
    reveal_strlit("md.in");
    reveal_strlit(".md.in");
    lemma_rooted_push(custom, stem + seq!['.'] + end);
    lemma_rooted_with_extension(custom, stem, end, "md.in"@);
    assert(stem + seq!['.'] + "md.in"@ =~= stem + ".md.in"@);
}

/// Crates are looked for under the workspace and under its `crates` directory.
pub proof fn lemma_candidates(
    workspace: Seq<Seq<char>>,
    names: Seq<Seq<char>>,
    crates_names: Seq<Seq<char>>,
)
    requires
        are_plain_names(workspace),
        are_plain_names(names),
        are_plain_names(crates_names),
    ensures
        candidate_paths(rooted(workspace), names, crates_names).len() == names.len()
            + crates_names.len(),
        forall|i: int|
            0 <= i < names.len() ==> candidate_paths(rooted(workspace), names, crates_names)[i]
                == rooted(workspace.push(#[trigger] names[i])),
        forall|i: int|
            0 <= i < crates_names.len() ==> candidate_paths(
                rooted(workspace),
                names,
                crates_names,
            )[names.len() + i] == rooted(
                workspace.push("crates"@).push(#[trigger] crates_names[i]),
            ),
{
    reveal_strlit("crates");
    assert("crates"@[0] == 'c');
    lemma_rooted_push(workspace, "crates"@);
    let all = candidate_paths(rooted(workspace), names, crates_names);
    assert forall|i: int| 0 <= i < names.len() implies all[i] == rooted(
        workspace.push(#[trigger] names[i]),
    ) by {
        lemma_rooted_push(workspace, names[i]);
    }
    assert forall|i: int| 0 <= i < crates_names.len() implies all[names.len() + i] == rooted(
        workspace.push("crates"@).push(#[trigger] crates_names[i]),
    ) by {
        lemma_rooted_push(workspace.push("crates"@), crates_names[i]);
    }
}

/// A README was edited by hand exactly if it is among the staged files and git has something
/// else staged for it than what comes of its template.
pub proof fn lemma_conflict(
    staged: Seq<Seq<char>>,
    paths: Seq<Seq<Seq<char>>>,
    dir: Seq<Seq<char>>,
    files: ReadmeFiles,
)
    requires
        are_plain_names(dir),
        staged.len() == paths.len(),
        forall|i: int|
            0 <= i < staged.len() ==> are_plain_names(#[trigger] paths[i]) && staged[i] == rooted(
                paths[i],
            ),
    ensures
        is_conflict(staged, rooted(dir), files) <==> paths.contains(dir.push("README.md"@)) && (
        files.template matches Template::Generated(content) && files.staged_content matches Some(
            bytes,
        ) && bytes@ != content@),
{
    let wanted = dir.push("README.md"@);
    reveal_strlit("README.md");
    assert("README.md"@[0] == 'R');
    lemma_rooted_push(dir, "README.md"@);
    assert(readme_path(rooted(dir)) == rooted(wanted));
    if paths.contains(wanted) {
        let i = paths.index_of(wanted);
        assert(staged[i] == rooted(wanted));
        assert(same_path(staged[i], readme_path(rooted(dir))));
    }
    if lists_path(staged, rooted(wanted)) {
        let i = choose|i: int| 0 <= i < staged.len() && same_path(#[trigger] staged[i], rooted(wanted));
        assert(are_plain_names(paths[i]));
        lemma_rooted_components(paths[i]);
        lemma_rooted_components(wanted);
        let (x, y) = (components(staged[i]), components(rooted(wanted)));
        assert(x.skip(1) =~= paths[i]);
        assert(y.skip(1) =~= wanted);
        assert(paths[i] == wanted);
    }
}

/// The first README that was edited by hand is one, and none before it is.
pub proof fn lemma_first_conflict(staged: Seq<Seq<char>>, sources: Seq<ReadmeSource>)
    ensures
        first_conflict(staged, sources) <= sources.len(),
        forall|i: int|
            0 <= i < first_conflict(staged, sources) ==> !is_conflict(
                staged,
                (#[trigger] sources[i]).plan.dir,
                sources[i].files,
            ),
        first_conflict(staged, sources) < sources.len() ==> is_conflict(
            staged,
            sources[first_conflict(staged, sources) as int].plan.dir,
            sources[first_conflict(staged, sources) as int].files,
        ),
    decreases sources.len(),
{
    if sources.len() > 0 && !is_conflict(staged, sources[0].plan.dir, sources[0].files) {
        let rest = sources.drop_first();
        lemma_first_conflict(staged, rest);
        assert forall|i: int| 0 <= i < first_conflict(staged, sources) implies !is_conflict(
            staged,
            (#[trigger] sources[i]).plan.dir,
            sources[i].files,
        ) by {
            if i > 0 {
                assert(rest[i - 1] == sources[i]);
            }
        }
    }
}

/// A README is written into its directory with what comes of its template, where there is one.
pub proof fn lemma_readme_is_written(dir: Seq<Seq<char>>, files: ReadmeFiles)
    requires
        are_plain_names(dir),
    ensures
        readme_job(rooted(dir), files) is Some <==> files.template is Generated,
        readme_job(rooted(dir), files) matches Some(job) ==> job.path == rooted(
            dir.push("README.md"@),
        ) && !job.executable && job.old_content == opt_bytes(files.old_content) && (
        files.template matches Template::Generated(content) && job.new_content == content@),
{
    reveal_strlit("README.md");
    assert("README.md"@[0] == 'R');
    lemma_rooted_push(dir, "README.md"@);
}

/// The READMEs of two lists are written one list after the other, each of them by its own job.
pub proof fn lemma_jobs_of_two_lists(a: Seq<ReadmeSource>, b: Seq<ReadmeSource>)
    ensures
        readme_jobs(a + b) == readme_jobs(a) + readme_jobs(b),
        a.len() == 1 ==> readme_jobs(a) == match readme_job(a[0].plan.dir, a[0].files) {
            Some(job) => seq![job],
            None => Seq::empty(),
        },
    decreases b.len(),
{
    if a.len() == 1 {
        assert(a.drop_last() =~= Seq::empty());
        assert(readme_jobs(a.drop_last()) =~= Seq::empty());
        assert(readme_jobs(a) =~= match readme_job(a[0].plan.dir, a[0].files) {
            Some(job) => seq![job],
            None => Seq::empty(),
        });
    }
    if b.len() == 0 {
        assert(a + b =~= a);
    } else {
        lemma_jobs_of_two_lists(a, b.drop_last());
        assert((a + b).drop_last() =~= a + b.drop_last());
        assert((a + b).last() == b.last());
    }
    assert(readme_jobs(a + b) =~= readme_jobs(a) + readme_jobs(b));
}

/// Git is asked for a staged file by its path below the workspace, or by the path itself where
/// it lies elsewhere.
pub proof fn lemma_staged_object(workspace: Seq<Seq<char>>, rest: Seq<Seq<char>>)
    requires
        are_plain_names(workspace),
        are_plain_names(rest),
    ensures
        staged_object(rooted(workspace), rooted(workspace + rest)) == ":"@ + slashed(rest),
        !workspace.is_prefix_of(rest) ==> staged_object(rooted(workspace), rooted(rest)) == ":"@
            + rooted(rest),
{
    lemma_rooted_stripped(workspace, rest);
}

/// The name of a workspace is that of its root package; where there is none, of the first of
/// its default members that is a package; where none is, of the first package whose manifest
/// is the workspace's own. `p` is the first package with the id that counts, or the first with
/// the manifest.
pub proof fn lemma_workspace_name(
    metadata: Metadata,
    root_manifest: Result<Seq<char>, Seq<char>>,
    manifests: Seq<Option<String>>,
    m: int,
    p: int,
)
    requires
        0 <= p < metadata.packages@.len(),
    ensures
        (metadata.resolve_root matches Some(id) && is_first_with(metadata.packages@, id@, p))
            ==> workspace_name(metadata, root_manifest, manifests) == Ok::<Seq<char>, Seq<char>>(
            metadata.packages@[p].name@,
        ),
        (metadata.resolve_root matches Some(id) ==> has_no_id(metadata.packages@, id@)) && 0 <= m
            < metadata.workspace_default_members@.len() && is_first_with(
            metadata.packages@,
            metadata.workspace_default_members@[m]@,
            p,
        ) && (forall|k: int|
            0 <= k < m ==> has_no_id(
                metadata.packages@,
                (#[trigger] metadata.workspace_default_members@[k])@,
            )) ==> workspace_name(metadata, root_manifest, manifests) == Ok::<Seq<char>, Seq<char>>(
            metadata.packages@[p].name@,
        ),
        (metadata.resolve_root matches Some(id) ==> has_no_id(metadata.packages@, id@)) && (forall|
            k: int,
        |
            0 <= k < metadata.workspace_default_members@.len() ==> has_no_id(
                metadata.packages@,
                (#[trigger] metadata.workspace_default_members@[k])@,
            )) ==> match root_manifest {
            Ok(path) => match name_by_manifest(metadata.packages@, manifests, path) {
                Some(name) => workspace_name(metadata, root_manifest, manifests) == Ok::<
                    Seq<char>,
                    Seq<char>,
                >(name),
                None => workspace_name(metadata, root_manifest, manifests) is Err,
            },
            Err(_) => workspace_name(metadata, root_manifest, manifests) is Err,
        },
{
    let packages = metadata.packages@;
    let ids = texts(metadata.workspace_default_members@);
    if metadata.resolve_root is Some {
        lemma_name_by_id(packages, metadata.resolve_root->0@, p);
    }
    if 0 <= m < ids.len() && is_first_with(packages, ids[m], p) && (forall|k: int|
        0 <= k < m ==> has_no_id(
            packages,
            (#[trigger] metadata.workspace_default_members@[k])@,
        )) {
        assert forall|k: int| 0 <= k < m implies has_no_id(packages, #[trigger] ids[k]) by {
            assert(ids[k] == metadata.workspace_default_members@[k]@);
        }
        lemma_first_name(packages, ids, m, p);
    }
    if forall|k: int|
        0 <= k < metadata.workspace_default_members@.len() ==> has_no_id(
            packages,
            (#[trigger] metadata.workspace_default_members@[k])@,
        ) {
        assert forall|k: int| 0 <= k < ids.len() implies has_no_id(packages, #[trigger] ids[k]) by {
            assert(ids[k] == metadata.workspace_default_members@[k]@);
        }
        lemma_no_first_name(packages, ids);
    }
}

/// A package has an id, and none before it does.
pub open spec fn is_first_with(packages: Seq<Package>, id: Seq<char>, p: int) -> bool {
    &&& 0 <= p < packages.len()
    &&& packages[p].id@ == id
    &&& forall|q: int| 0 <= q < p ==> (#[trigger] packages[q]).id@ != id
}

/// No package has an id.
pub open spec fn has_no_id(packages: Seq<Package>, id: Seq<char>) -> bool {
    forall|q: int| 0 <= q < packages.len() ==> (#[trigger] packages[q]).id@ != id
}

/// A package is found by its id: the first that has it.
pub proof fn lemma_name_by_id(packages: Seq<Package>, id: Seq<char>, p: int)
    ensures
        is_first_with(packages, id, p) ==> name_by_id(packages, id) == Some(packages[p].name@),
        has_no_id(packages, id) <==> name_by_id(packages, id) is None,
{
    lemma_first_with_id(packages, id);
    let at = first_with_id(packages, id) as int;
    if is_first_with(packages, id, p) {
        assert(packages[p].id@ == id);
        if at > p {
            assert(packages[p].id@ != id);
        }
        if at < p {
            assert(packages[at].id@ != id);
        }
    }
}

proof fn lemma_first_name(packages: Seq<Package>, ids: Seq<Seq<char>>, m: int, p: int)
    requires
        0 <= m < ids.len(),
        is_first_with(packages, ids[m], p),
        forall|k: int| 0 <= k < m ==> has_no_id(packages, #[trigger] ids[k]),
    ensures
        first_name(packages, ids) == Some(packages[p].name@),
    decreases ids.len(),
{
    lemma_name_by_id(packages, ids[0], p);
    if m > 0 {
        assert(has_no_id(packages, ids[0]));
        let rest = ids.drop_first();
        assert forall|k: int| 0 <= k < m - 1 implies has_no_id(packages, #[trigger] rest[k]) by {
            assert(rest[k] == ids[k + 1]);
        }
        lemma_first_name(packages, rest, m - 1, p);
    }
}

proof fn lemma_no_first_name(packages: Seq<Package>, ids: Seq<Seq<char>>)
    requires
        forall|k: int| 0 <= k < ids.len() ==> has_no_id(packages, #[trigger] ids[k]),
    ensures
        first_name(packages, ids) is None,
    decreases ids.len(),
{
    if ids.len() > 0 {
        lemma_name_by_id(packages, ids[0], 0);
        assert(has_no_id(packages, ids[0]));
        let rest = ids.drop_first();
        assert forall|k: int| 0 <= k < rest.len() implies has_no_id(packages, #[trigger] rest[k]) by {
            assert(rest[k] == ids[k + 1]);
        }
        lemma_no_first_name(packages, rest);
    }
}

/// The package whose manifest is at a path gives its name: the first whose manifest has the
/// same components.
pub proof fn lemma_name_by_manifest(
    packages: Seq<Package>,
    manifests: Seq<Option<String>>,
    path: Seq<char>,
    p: int,
)
    requires
        manifests.len() == packages.len(),
        0 <= p < packages.len(),
        manifests[p] matches Some(manifest) && components(manifest@) == components(path),
        forall|q: int|
            0 <= q < p ==> ((#[trigger] manifests[q]) matches Some(manifest) ==> components(
                manifest@,
            ) != components(path)),
    ensures
        name_by_manifest(packages, manifests, path) == Some(packages[p].name@),
    decreases packages.len(),
{
    if p > 0 {
        let (rest, others) = (packages.drop_first(), manifests.drop_first());
        assert(manifests[0] matches Some(manifest) ==> components(manifest@) != components(path));
        assert forall|q: int| 0 <= q < p - 1 implies ((#[trigger] others[q]) matches Some(manifest)
            ==> components(manifest@) != components(path)) by {
            assert(others[q] == manifests[q + 1]);
        }
        lemma_name_by_manifest(rest, others, path, p - 1);
    }
}

/// Where no package has its manifest at a path, none gives its name.
pub proof fn lemma_no_name_by_manifest(
    packages: Seq<Package>,
    manifests: Seq<Option<String>>,
    path: Seq<char>,
)
    requires
        manifests.len() == packages.len(),
        forall|q: int|
            0 <= q < manifests.len() ==> ((#[trigger] manifests[q]) matches Some(manifest)
                ==> components(manifest@) != components(path)),
    ensures
        name_by_manifest(packages, manifests, path) is None,
    decreases packages.len(),
{
    if packages.len() > 0 {
        let (rest, others) = (packages.drop_first(), manifests.drop_first());
        assert(manifests[0] matches Some(manifest) ==> components(manifest@) != components(path));
        assert forall|q: int| 0 <= q < others.len() implies ((
        #[trigger] others[q]) matches Some(manifest) ==> components(manifest@) != components(
            path,
        )) by {
            assert(others[q] == manifests[q + 1]);
        }
        lemma_no_name_by_manifest(rest, others, path);
    }
}

/// The workspace's README is generated under its name, or under that of its directory where it
/// has none.
pub proof fn lemma_readme_name(
    name: Seq<char>,
    message: Seq<char>,
    parents: Seq<Seq<char>>,
    dir: Seq<char>,
)
    requires
        are_plain_names(parents),
        is_plain_name(dir),
        dir != seq!['.', '.'],
    ensures
        readme_name(Ok(name), rooted(parents.push(dir))) == name,
        readme_name(Err(message), rooted(parents.push(dir))) == dir,
        readme_name(Err(message), rooted(Seq::empty())) == "workspace"@,
{
    lemma_rooted_push(parents, dir);
    lemma_rooted_file_name(parents.push(dir));
    lemma_rooted_file_name(Seq::empty());
    assert(parents.push(dir).last() == dir);
}

/// A template that is missing or cannot be read is told of by its path, with the reason where
/// there is one; one from which a README was generated is not.
pub proof fn lemma_template_problem(path: Seq<char>, message: String, content: Vec<u8>)
    ensures
        template_problem(path, Template::Missing).len() == 1,
        has_text(template_problem(path, Template::Missing)[0], in_yellow(path)),
        template_problem(path, Template::Unreadable(message)) == seq![
            "Failed to read template "@ + path + ": "@ + message@,
        ],
        template_problem(path, Template::Generated(content)).len() == 0,
{
    let line = template_problem(path, Template::Missing)[0];
    let before = line.take(line.len() - in_yellow(path).len());
    assert(line =~= before + in_yellow(path) + Seq::empty());
    assert(is_made_of(line, before, in_yellow(path), Seq::empty()));
    lemma_has_text(line, in_yellow(path));
}

/// What is told of a README that was edited by hand says how to undo that, and which template
/// to edit instead.
pub proof fn lemma_conflict_is_told(readme: Seq<char>, template: Seq<char>)
    ensures
        conflict_lines(readme, template).contains("     git restore --staged "@ + readme),
        conflict_lines(readme, template).contains("     git restore "@ + readme),
        conflict_lines(readme, template).contains("     # Edit "@ + template),
        conflict_lines(readme, template).contains(
            "You modified "@ + in_yellow(readme)
                + " directly, but this file is auto-generated."@,
        ),
{
    let lines = conflict_lines(readme, template);
    assert(lines[10] == "     git restore --staged "@ + readme);
    assert(lines[11] == "     git restore "@ + readme);
    assert(lines[14] == "     # Edit "@ + template);
    assert(lines[3] == "You modified "@ + in_yellow(readme)
        + " directly, but this file is auto-generated."@);
}

/// Each README is generated from what was read for its own directory.
pub proof fn lemma_sources(
    workspace: WorkspaceDir,
    dirs: Seq<DirCandidate>,
    custom_dir: Option<Seq<char>>,
)
    ensures
        ({
            let sources = readme_sources(workspace, dirs, custom_dir);
            &&& sources.len() == readme_targets_in(dirs).len() + (if workspace.has_manifest {
                1int
            } else {
                0int
            })
            &&& forall|i: int|
                0 <= i < sources.len() ==> match (#[trigger] sources[i]).plan.entry {
                    Some(n) => 0 <= n < dirs.len() && sources[i].plan.dir == dirs[n].path@
                        && sources[i].files == dirs[n].files,
                    None => i == sources.len() - 1 && sources[i].plan.dir == workspace.path@
                        && sources[i].files == workspace.files,
                }
        }),
{
    let plans = planned(workspace, dirs, custom_dir);
    lemma_planned(workspace, dirs, custom_dir);
    assert(plan_targets(plans).len() == plans.len());
    assert forall|i: int| 0 <= i < plans.len() implies match (#[trigger] plans[i]).entry {
        Some(n) => 0 <= n < dirs.len() && plans[i].dir == dirs[n].path@,
        None => i == plans.len() - 1 && plans[i].dir == workspace.path@,
    } by {
        assert(is_crate_plan(plans[i], dirs, custom_dir) || plans[i] == workspace_plan(workspace));
    }
    let sources = readme_sources(workspace, dirs, custom_dir);
    assert forall|i: int| 0 <= i < sources.len() implies match (#[trigger] sources[i]).plan.entry {
        Some(n) => 0 <= n < dirs.len() && sources[i].plan.dir == dirs[n].path@
            && sources[i].files == dirs[n].files,
        None => i == sources.len() - 1 && sources[i].plan.dir == workspace.path@
            && sources[i].files == workspace.files,
    } by {
        assert(sources[i].plan == plans[i]);
    }
}

} // verus!
