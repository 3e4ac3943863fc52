//! Arborium header and docs.rs metadata jobs.

use crate::jobs::{as_list, bytes_eq, content_copy, job_views, opt_bytes, opt_job, Job, JobView};
use crate::metadata::{Metadata, Package};
use crate::path::{
    are_plain_names, join_path, joined_path, lemma_rooted_push, parent, parent_of, rooted,
};
use crate::text::{
    bytes_of, contains, has_text, is_made_of, lemma_has_text, opt_text, text_eq, texts,
};
use crate::toml::{
    document_root_mut, document_text, document_tree, empty_table, ensure_table, item_entry, item_get,
    item_get_mut, item_insert, item_is_table, item_strings, item_tree, list_texts,
    new_string_array, optional_texts, parse_document, same_but, table_or_empty, text_list,
    toml_parse, write_document, Toml,
};
use vstd::prelude::*;
use vstd::string::*;
use vstd::utf8::{encode_utf8, encode_utf8_decode_utf8};

verus! {

/// The header that loads arborium on the pages of a crate's documentation.
pub const ARBORIUM_HEADER: &'static str = r#"<!-- Rustdoc doesn't highlight some languages natively -- let's do it ourselves: https://github.com/bearcove/arborium -->
<script defer src="https://cdn.jsdelivr.net/npm/@arborium/arborium@2/dist/arborium.iife.js"></script>"#;

// ---- the header ----

/// The job that writes the header into a directory: none where the file is right already.
pub open spec fn header_job(dir: Seq<char>, old: Option<Seq<u8>>) -> Option<JobView> {
    if old == Some(encode_utf8(ARBORIUM_HEADER@)) {
        None
    } else {
        Some(
            JobView {
                path: joined_path(dir, "arborium-header.html"@),
                old_content: old,
                new_content: encode_utf8(ARBORIUM_HEADER@),
                executable: false,
            },
        )
    }
}

/// The job that writes the header into a directory, given what the file holds.
pub fn arborium_header_job(dir: &str, old: &Option<Vec<u8>>) -> (r: Option<Job>)
    ensures
        opt_job(r) == header_job(dir@, opt_bytes(*old)),
{
    let new_content = bytes_of(ARBORIUM_HEADER);
    let up_to_date = match old {
        Some(bytes) => bytes_eq(bytes, &new_content),
        None => false,
    };
    if up_to_date {
        return None;
    }
    Some(
        Job {
            path: join_path(dir, "arborium-header.html"),
            old_content: content_copy(old),
            new_content,
            executable: false,
        },
    )
}

// ---- the metadata for docs.rs ----

/// The arguments that make rustdoc put the header on its pages.
pub open spec fn desired_args() -> Seq<Seq<char>> {
    seq!["--html-in-header"@, "arborium-header.html"@]
}

/// The metadata for docs.rs in a package table.
pub open spec fn docs_table(package: Toml) -> Toml {
    table_or_empty(table_or_empty(package.get("metadata"@)).get("docs.rs"@))
}

/// The metadata for docs.rs has the arguments that are wanted.
pub open spec fn has_args(docs: Toml) -> bool {
    match docs.get("rustdoc-args"@) {
        Some(Toml::List(list)) => list_texts(list) == Seq::new(
            desired_args().len(),
            |i: int| Some(desired_args()[i]),
        ),
        _ => false,
    }
}

/// A manifest has a package table whose metadata for docs.rs lacks the arguments.
pub open spec fn lacks_args(manifest: Toml) -> bool {
    match manifest.section("package"@) {
        Some(package) => !has_args(docs_table(package)),
        None => false,
    }
}

/// `after` is the manifest `before` with the arguments set. All else is as it was, but for
/// what stood in the place of the tables that lead to them.
pub open spec fn args_set(before: Toml, after: Toml) -> bool {
    &&& same_but(before, after, "package"@)
    &&& after.get("package"@) matches Some(package)
    &&& same_but(before.get("package"@)->0, package, "metadata"@)
    &&& package.get("metadata"@) matches Some(metadata)
    &&& same_but(
        table_or_empty(before.get("package"@)->0.get("metadata"@)),
        metadata,
        "docs.rs"@,
    )
    &&& metadata.get("docs.rs"@) matches Some(docs)
    &&& same_but(docs_table(before.get("package"@)->0), docs, "rustdoc-args"@)
    &&& docs.get("rustdoc-args"@) == Some(text_list(desired_args()))
}

/// Whether the values of an array are the expected strings.
pub fn array_matches(array: &Vec<Option<String>>, expected: &Vec<String>) -> (r: bool)
    ensures
        r == (optional_texts(array@) == Seq::new(
            expected@.len(),
            |i: int| Some(texts(expected@)[i]),
        )),
{
    let ghost have = optional_texts(array@);
    let ghost want = Seq::new(expected@.len(), |i: int| Some(texts(expected@)[i]));
    if array.len() != expected.len() {
        assert(have.len() != want.len());
        return false;
    }
    let mut i: usize = 0;
    while i < array.len()
        invariant
            i <= array@.len(),
            array@.len() == expected@.len(),
            have == optional_texts(array@),
            want == Seq::new(expected@.len(), |i: int| Some(texts(expected@)[i])),
            forall|k: int| 0 <= k < i ==> have[k] == want[k],
        decreases array@.len() - i,
    {
        let same = match &array[i] {
            Some(value) => text_eq(value.as_str(), expected[i].as_str()),
            None => false,
        };
        if !same {
            assert(have[i as int] != want[i as int]);
            return false;
        }
        i = i + 1;
    }
    assert(have =~= want);
    true
}

/// Sets the arguments that make docs.rs use the header, where a manifest has a package and
/// lacks them. Says whether it changed anything.
pub fn ensure_docsrs_metadata(document: &mut toml_edit::DocumentMut) -> (r: bool)
    requires
        document_tree(*old(document)) is Section,
    ensures
        document_tree(*final(document)) is Section,
        r == lacks_args(document_tree(*old(document))),
        r ==> args_set(document_tree(*old(document)), document_tree(*final(document))),
        !r ==> document_tree(*final(document)) == document_tree(*old(document)),
{
    let ghost before = document_tree(*document);
    let root = document_root_mut(document);
    let package = match item_get_mut(root, "package") {
        Some(item) => item,
        None => {
            return false;
        },
    };
    if !item_is_table(package) {
        return false;
    }
    let ghost package_before = item_tree(*package);
    let metadata = ensure_table(item_entry(package, "metadata"));
    let ghost metadata_before = item_tree(*metadata);
    let docs = ensure_table(item_entry(metadata, "docs.rs"));
    let mut desired: Vec<String> = Vec::new();
    desired.push("--html-in-header".to_owned());
    desired.push("arborium-header.html".to_owned());
    proof {
        assert(texts(desired@) =~= desired_args());
        assert(item_tree(*docs) == docs_table(package_before));
    }
    let already_correct = match item_get(docs, "rustdoc-args") {
        Some(item) => match item_strings(item) {
            Some(array) => array_matches(&array, &desired),
            None => false,
        },
        None => false,
    };
    proof {
        let want = Seq::new(desired_args().len(), |i: int| Some(desired_args()[i]));
        assert(Seq::new(desired@.len(), |i: int| Some(texts(desired@)[i])) =~= want);
    }
    if already_correct {
        return false;
    }
    item_insert(docs, "rustdoc-args", new_string_array(&desired));
    true
}

/// Setting the arguments leaves nothing to do: a second time nothing is lacking.
pub proof fn lemma_args_are_set_once(before: Toml, after: Toml)
    requires
        lacks_args(before),
        args_set(before, after),
    ensures
        !lacks_args(after),
{
    let docs = docs_table(after.get("package"@)->0);
    let list = Seq::new(desired_args().len(), |i: int| Toml::Text(desired_args()[i]));
    assert(docs.get("rustdoc-args"@) == Some(Toml::List(list)));
    assert(list_texts(list) =~= Seq::new(desired_args().len(), |i: int| Some(desired_args()[i])));
}

// ---- the jobs ----

/// `after` is a document that holds what the manifest `content` holds, with the arguments
/// set.
pub open spec fn is_edit(content: Seq<char>, after: toml_edit::DocumentMut) -> bool {
    match toml_parse(content) {
        Ok(before) => lacks_args(before) && args_set(before, document_tree(after)),
        Err(_) => false,
    }
}

/// `text` is the manifest `content` with the arguments set.
pub open spec fn is_rewrite(content: Seq<char>, text: Seq<char>) -> bool {
    exists|after: toml_edit::DocumentMut| #[trigger]
        is_edit(content, after) && document_text(after) == text
}

/// A manifest is TOML and lacks the arguments.
pub open spec fn wants_rewrite(content: Seq<char>) -> bool {
    match toml_parse(content) {
        Ok(manifest) => lacks_args(manifest),
        Err(_) => false,
    }
}

/// `job` is what rewriting a manifest comes to: nothing where it is no TOML, lacks nothing
/// or comes out as it was; else the job that writes it with the arguments set.
pub open spec fn rewrite_result(
    path: Seq<char>,
    content: Seq<char>,
    job: Option<JobView>,
) -> bool {
    match job {
        Some(j) => {
            &&& wants_rewrite(content)
            &&& j.path == path
            &&& j.old_content == Some(encode_utf8(content))
            &&& !j.executable
            &&& exists|text: Seq<char>| #[trigger]
                is_rewrite(content, text) && text != content && j.new_content == encode_utf8(text)
        },
        None => wants_rewrite(content) ==> is_rewrite(content, content),
    }
}

/// The job that sets the arguments in a manifest.
pub fn rewrite_cargo_toml(cargo_toml_path: &str, content: &str) -> (r: Option<Job>)
    ensures
        rewrite_result(cargo_toml_path@, content@, opt_job(r)),
{
    let mut document = match parse_document(content) {
        Ok(document) => document,
        Err(_) => {
            return None;
        },
    };
    if !ensure_docsrs_metadata(&mut document) {
        return None;
    }
    let new_content = write_document(&document);
    proof {
        assert(is_edit(content@, document));
        assert(is_rewrite(content@, new_content@));
    }
    if text_eq(new_content.as_str(), content) {
        return None;
    }
    Some(
        Job {
            path: cargo_toml_path.to_owned(),
            old_content: Some(bytes_of(content)),
            new_content: bytes_of(new_content.as_str()),
            executable: false,
        },
    )
}

/// What is on disk of a package.
pub struct CrateFiles {
    /// The arborium header, if it could be read.
    pub header: Option<Vec<u8>>,
    /// The manifest, if it exists and could be read.
    pub manifest: Option<String>,
}

/// The directory of a package that gets the header: a workspace member, by its name neither
/// a test crate nor an example.
pub open spec fn documented_dir(metadata: Metadata, package: Package) -> Option<Seq<char>> {
    if metadata.has_member(package.id@) && !has_text(package.name@, "test"@) && !has_text(
        package.name@,
        "example"@,
    ) {
        parent(package.manifest_path@)
    } else {
        None
    }
}

/// The jobs for the first packages of a workspace: for each the header, then the manifest.
/// `rewrites` gives what rewriting their manifests comes to.
pub open spec fn arborium_jobs(
    metadata: Metadata,
    packages: Seq<Package>,
    files: Seq<CrateFiles>,
    rewrites: Seq<Option<JobView>>,
) -> Seq<JobView>
    decreases packages.len(),
{
    if packages.len() == 0 {
        Seq::empty()
    } else {
        let before = arborium_jobs(
            metadata,
            packages.drop_last(),
            files.drop_last(),
            rewrites.drop_last(),
        );
        match documented_dir(metadata, packages.last()) {
            Some(dir) => before + as_list(header_job(dir, opt_bytes(files.last().header)))
                + as_list(rewrites.last()),
            None => before,
        }
    }
}

/// `rewrites` gives for each package that gets the header what rewriting its manifest comes
/// to; nothing where there is none.
pub open spec fn are_rewrites(
    metadata: Metadata,
    packages: Seq<Package>,
    files: Seq<CrateFiles>,
    rewrites: Seq<Option<JobView>>,
) -> bool {
    &&& rewrites.len() == packages.len()
    &&& forall|i: int|
        0 <= i < packages.len() ==> match (
            documented_dir(metadata, packages[i]),
            opt_text(files[i].manifest),
        ) {
            (Some(dir), Some(content)) => rewrite_result(
                joined_path(dir, "Cargo.toml"@),
                content,
                #[trigger] rewrites[i],
            ),
            _ => rewrites[i] is None,
        }
}

/// Collects the jobs for a workspace, given what is on disk of its packages.
pub fn collect_arborium_jobs(metadata: &Metadata, files: &Vec<CrateFiles>) -> (r: Vec<Job>)
    requires
        files@.len() == metadata.packages@.len(),
    ensures
        exists|rewrites: Seq<Option<JobView>>| #[trigger]
            are_rewrites(*metadata, metadata.packages@, files@, rewrites) && job_views(r@) == arborium_jobs(
                *metadata,
                metadata.packages@,
                files@,
                rewrites,
            ),
{
    let mut jobs: Vec<Job> = Vec::new();
    let mut i: usize = 0;
    let ghost mut rewrites: Seq<Option<JobView>> = Seq::empty();
    let ghost packages = metadata.packages@;
    proof {
        assert(job_views(jobs@) =~= Seq::empty());
    }
    while i < metadata.packages.len()
        invariant
            packages == metadata.packages@,
            i <= packages.len(),
            files@.len() == packages.len(),
            rewrites.len() == i,
            are_rewrites(*metadata, packages.take(i as int), files@.take(i as int), rewrites),
            job_views(jobs@) == arborium_jobs(
                *metadata,
                packages.take(i as int),
                files@.take(i as int),
                rewrites,
            ),
        decreases packages.len() - i,
    {
        let package = &metadata.packages[i];
        let ghost before = jobs@;
        let skipped = !metadata.is_member(package.id.as_str()) || contains(
            package.name.as_str(),
            "test",
        ) || contains(package.name.as_str(), "example");
        let ghost mut rewrite: Option<JobView> = None;
        let crate_dir = if skipped {
            None
        } else {
            parent_of(package.manifest_path.as_str())
        };
        match crate_dir {
            Some(dir) => {
                let job = match &files[i].manifest {
                    Some(content) => rewrite_cargo_toml(
                        join_path(dir.as_str(), "Cargo.toml").as_str(),
                        content.as_str(),
                    ),
                    None => None,
                };
                proof {
                    rewrite = opt_job(job);
                }
                match arborium_header_job(dir.as_str(), &files[i].header) {
                    Some(header) => jobs.push(header),
                    None => {},
                }
                match job {
                    Some(manifest) => jobs.push(manifest),
                    None => {},
                }
            },
            None => {},
        }
        proof {
            let seen = packages.take(i + 1);
            let seen_files = files@.take(i + 1);
            let seen_rewrites = rewrites.push(rewrite);
            assert(seen.drop_last() =~= packages.take(i as int));
            assert(seen_files.drop_last() =~= files@.take(i as int));
            assert(seen_rewrites.drop_last() =~= rewrites);
            assert forall|k: int| 0 <= k < seen.len() implies match (
                documented_dir(*metadata, seen[k]),
                opt_text(seen_files[k].manifest),
            ) {
                (Some(dir), Some(content)) => rewrite_result(
                    joined_path(dir, "Cargo.toml"@),
                    content,
                    #[trigger] seen_rewrites[k],
                ),
                _ => seen_rewrites[k] is None,
            } by {
                if k < i {
                    assert(rewrites[k] == seen_rewrites[k]);
                    assert(seen[k] == packages.take(i as int)[k]);
                    assert(seen_files[k] == files@.take(i as int)[k]);
                }
            }
            match documented_dir(*metadata, packages[i as int]) {
                Some(dir) => {
                    assert(job_views(jobs@) =~= job_views(before) + as_list(
                        header_job(dir, opt_bytes(files@[i as int].header)),
                    ) + as_list(rewrite));
                },
                None => {
                    assert(job_views(jobs@) =~= job_views(before));
                },
            }
            rewrites = seen_rewrites;
        }
        i = i + 1;
    }
    proof {
        assert(packages.take(i as int) =~= packages);
        assert(files@.take(i as int) =~= files@);
        assert(are_rewrites(*metadata, metadata.packages@, files@, rewrites));
    }
    jobs
}

/// A package needs nothing: it gets no header, or has the right one and a manifest that
/// lacks nothing.
pub open spec fn is_set_up(metadata: Metadata, package: Package, files: CrateFiles) -> bool {
    documented_dir(metadata, package) is Some ==> {
        &&& opt_bytes(files.header) == Some(encode_utf8(ARBORIUM_HEADER@))
        &&& opt_text(files.manifest) matches Some(content) ==> !wants_rewrite(content)
    }
}

/// There are no jobs for a workspace that is set up.
pub proof fn lemma_nothing_to_set_up(
    metadata: Metadata,
    packages: Seq<Package>,
    files: Seq<CrateFiles>,
    rewrites: Seq<Option<JobView>>,
)
    requires
        files.len() == packages.len(),
        are_rewrites(metadata, packages, files, rewrites),
        forall|i: int|
            0 <= i < packages.len() ==> is_set_up(metadata, #[trigger] packages[i], files[i]),
    ensures
        arborium_jobs(metadata, packages, files, rewrites) == Seq::<JobView>::empty(),
    decreases packages.len(),
{
    if packages.len() > 0 {
        let n = packages.len() - 1;
        let (p, f, w) = (packages.drop_last(), files.drop_last(), rewrites.drop_last());
        lemma_rewrites_of_first(metadata, packages, files, rewrites);
        assert forall|i: int| 0 <= i < p.len() implies is_set_up(
            metadata,
            #[trigger] p[i],
            f[i],
        ) by {
            assert(p[i] == packages[i] && f[i] == files[i]);
        }
        lemma_nothing_to_set_up(metadata, p, f, w);
        assert(is_set_up(metadata, packages[n], files[n]));
        assert(rewrites[n] == rewrites.last());
        assert(arborium_jobs(metadata, packages, files, rewrites) =~= Seq::empty());
    }
}

// ---- laws of the jobs ----

/// What a job says that is for a package that gets the header: it writes the header or the
/// manifest in the directory of the package, changes what the file holds, and does not make
/// it executable.
pub open spec fn is_set_up_job(metadata: Metadata, package: Package, job: JobView) -> bool {
    &&& documented_dir(metadata, package) matches Some(dir)
    &&& job.path == joined_path(dir, "arborium-header.html"@) || job.path == joined_path(
        dir,
        "Cargo.toml"@,
    )
    &&& job.old_content != Some(job.new_content)
    &&& !job.executable
}

/// A manifest that is rewritten is changed.
proof fn lemma_rewrite_changes(path: Seq<char>, content: Seq<char>, job: JobView)
    requires
        rewrite_result(path, content, Some(job)),
    ensures
        job.old_content != Some(job.new_content),
{
    let text = choose|text: Seq<char>| #[trigger]
        is_rewrite(content, text) && text != content && job.new_content == encode_utf8(text);
    encode_utf8_decode_utf8(text);
    encode_utf8_decode_utf8(content);
}

proof fn lemma_rewrites_of_first(
    metadata: Metadata,
    packages: Seq<Package>,
    files: Seq<CrateFiles>,
    rewrites: Seq<Option<JobView>>,
)
    requires
        packages.len() > 0,
        files.len() == packages.len(),
        are_rewrites(metadata, packages, files, rewrites),
    ensures
        are_rewrites(
            metadata,
            packages.drop_last(),
            files.drop_last(),
            rewrites.drop_last(),
        ),
{
    let (p, f, w) = (packages.drop_last(), files.drop_last(), rewrites.drop_last());
    assert forall|i: int| 0 <= i < p.len() implies match (
        documented_dir(metadata, p[i]),
        opt_text(f[i].manifest),
    ) {
        (Some(dir), Some(content)) => rewrite_result(
            joined_path(dir, "Cargo.toml"@),
            content,
            #[trigger] w[i],
        ),
        _ => w[i] is None,
    } by {
        assert(w[i] == rewrites[i]);
        assert(p[i] == packages[i] && f[i] == files[i]);
    }
}

/// Each job is for the header or the manifest of a workspace member that is, by its name,
/// neither a test crate nor an example; it changes the file and does not make it executable.
pub proof fn lemma_arborium_jobs_change_something(
    metadata: Metadata,
    packages: Seq<Package>,
    files: Seq<CrateFiles>,
    rewrites: Seq<Option<JobView>>,
    job: JobView,
)
    requires
        files.len() == packages.len(),
        are_rewrites(metadata, packages, files, rewrites),
        arborium_jobs(metadata, packages, files, rewrites).contains(job),
    ensures
        exists|i: int|
            0 <= i < packages.len() && is_set_up_job(metadata, #[trigger] packages[i], job),
    decreases packages.len(),
{
    let all = arborium_jobs(metadata, packages, files, rewrites);
    let k = all.index_of(job);
    assert(all[k] == job);
    let n = packages.len() - 1;
    let (p, f, w) = (packages.drop_last(), files.drop_last(), rewrites.drop_last());
    let before = arborium_jobs(metadata, p, f, w);
    assert(packages[n] == packages.last());
    if k < before.len() {
        assert(before[k] == job);
        lemma_rewrites_of_first(metadata, packages, files, rewrites);
        lemma_arborium_jobs_change_something(metadata, p, f, w, job);
        let i = choose|i: int|
            0 <= i < p.len() && is_set_up_job(metadata, #[trigger] p[i], job);
        assert(packages[i] == p[i]);
    } else {
        let dir = documented_dir(metadata, packages[n])->0;
        let header = header_job(dir, opt_bytes(files[n].header));
        assert(rewrites[n] == rewrites.last());
        if k < before.len() + as_list(header).len() {
            assert(job == header->0);
        } else {
            assert(job == rewrites[n]->0);
            lemma_rewrite_changes(
                joined_path(dir, "Cargo.toml"@),
                opt_text(files[n].manifest)->0,
                job,
            );
        }
        assert(is_set_up_job(metadata, packages[n], job));
    }
}

/// What stands at the end of a path of keys.
pub open spec fn item_at(tree: Toml, keys: Seq<Seq<char>>) -> Option<Toml>
    decreases keys.len(),
{
    if keys.len() == 0 {
        Some(tree)
    } else {
        match tree.get(keys[0]) {
            Some(item) => item_at(item, keys.drop_first()),
            None => None,
        }
    }
}

/// Two items are the same, or both are tables.
pub open spec fn same_item(a: Option<Toml>, b: Option<Toml>) -> bool {
    a == b || (a matches Some(Toml::Section(_)) && b matches Some(Toml::Section(_)))
}

/// The text of a document is TOML and gives back what the document holds: the same under
/// every path of keys, whatever their order in a table.
pub open spec fn reads_back(document: toml_edit::DocumentMut) -> bool {
    match toml_parse(document_text(document)) {
        Ok(tree) => forall|keys: Seq<Seq<char>>| #[trigger]
            same_item(item_at(tree, keys), item_at(document_tree(document), keys)),
        Err(_) => false,
    }
}

/// Reading a manifest back in which the arguments are set, they are found.
proof fn lemma_args_read_back(content: Seq<char>, document: toml_edit::DocumentMut)
    requires
        is_edit(content, document),
        reads_back(document),
    ensures
        !wants_rewrite(document_text(document)),
{
    let before = toml_parse(content)->Ok_0;
    let written = document_tree(document);
    let tree = toml_parse(document_text(document))->Ok_0;
    let path1 = seq!["package"@];
    let path2 = seq!["package"@, "metadata"@];
    let path3 = seq!["package"@, "metadata"@, "docs.rs"@];
    let path4 = seq!["package"@, "metadata"@, "docs.rs"@, "rustdoc-args"@];
    let rest2 = seq!["metadata"@];
    let rest3 = seq!["metadata"@, "docs.rs"@];
    let rest4 = seq!["metadata"@, "docs.rs"@, "rustdoc-args"@];
    assert(path1.drop_first() =~= Seq::empty());
    assert(path2.drop_first() =~= rest2);
    assert(path3.drop_first() =~= rest3);
    assert(path4.drop_first() =~= rest4);
    assert(rest2.drop_first() =~= Seq::empty());
    assert(rest3.drop_first() =~= seq!["docs.rs"@]);
    assert(rest4.drop_first() =~= seq!["docs.rs"@, "rustdoc-args"@]);
    assert(seq!["docs.rs"@].drop_first() =~= Seq::empty());
    assert(seq!["docs.rs"@, "rustdoc-args"@].drop_first() =~= seq!["rustdoc-args"@]);
    assert(seq!["rustdoc-args"@].drop_first() =~= Seq::empty());
    reveal_with_fuel(item_at, 6);
    let package = written.get("package"@)->0;
    let metadata = package.get("metadata"@)->0;
    let docs = metadata.get("docs.rs"@)->0;
    assert(same_item(item_at(tree, path1), item_at(written, path1)));
    assert(same_item(item_at(tree, path2), item_at(written, path2)));
    assert(same_item(item_at(tree, path3), item_at(written, path3)));
    assert(same_item(item_at(tree, path4), item_at(written, path4)));
    assert(item_at(written, path1) == Some(package));
    assert(item_at(written, path2) == Some(metadata));
    assert(item_at(written, path3) == Some(docs));
    assert(item_at(written, path4) == docs.get("rustdoc-args"@));
    let list = Seq::new(desired_args().len(), |i: int| Toml::Text(desired_args()[i]));
    assert(docs.get("rustdoc-args"@) == Some(Toml::List(list)));
    assert(list_texts(list) =~= Seq::new(desired_args().len(), |i: int| Some(desired_args()[i])));
    assert(item_at(tree, path4) == Some(Toml::List(list)));
    assert(docs_table(tree.get("package"@)->0).get("rustdoc-args"@) == Some(Toml::List(list)));
}

/// What is on disk of a package once the jobs for it are applied: the header and the manifest
/// hold what the jobs wrote, and without a job what they held.
pub open spec fn is_applied(
    dir: Seq<char>,
    before: CrateFiles,
    rewrite: Option<JobView>,
    after: CrateFiles,
) -> bool {
    &&& opt_bytes(after.header) == match header_job(dir, opt_bytes(before.header)) {
        Some(job) => Some(job.new_content),
        None => opt_bytes(before.header),
    }
    &&& match rewrite {
        Some(job) => opt_text(after.manifest) matches Some(text) && encode_utf8(text)
            == job.new_content,
        None => opt_text(after.manifest) == opt_text(before.manifest),
    }
}

/// Whatever document comes of setting the arguments in the manifest `before` and has the text
/// `after`, that text reads back as the document.
pub open spec fn edits_read_back(before: Option<Seq<char>>, after: Option<Seq<char>>) -> bool {
    match (before, after) {
        (Some(content), Some(text)) => forall|document: toml_edit::DocumentMut| #[trigger]
            is_edit(content, document) && document_text(document) == text ==> reads_back(document),
        _ => true,
    }
}

proof fn lemma_applied_package_is_set_up(
    metadata: Metadata,
    package: Package,
    before: CrateFiles,
    rewrite: Option<JobView>,
    after: CrateFiles,
)
    requires
        documented_dir(metadata, package) matches Some(dir) ==> {
            &&& is_applied(dir, before, rewrite, after)
            &&& edits_read_back(opt_text(before.manifest), opt_text(after.manifest))
            &&& match opt_text(before.manifest) {
                Some(content) => rewrite_result(joined_path(dir, "Cargo.toml"@), content, rewrite),
                None => rewrite is None,
            }
        },
    ensures
        is_set_up(metadata, package, after),
{
    if documented_dir(metadata, package) is Some && opt_text(after.manifest) is Some {
        let content = opt_text(before.manifest)->0;
        let text = opt_text(after.manifest)->0;
        if rewrite is Some {
            let written = choose|written: Seq<char>| #[trigger]
                is_rewrite(content, written) && written != content && rewrite->0.new_content
                    == encode_utf8(written);
            encode_utf8_decode_utf8(written);
            encode_utf8_decode_utf8(text);
            assert(written == text);
        }
        if wants_rewrite(text) {
            assert(is_rewrite(content, text));
            let document = choose|document: toml_edit::DocumentMut| #[trigger]
                is_edit(content, document) && document_text(document) == text;
            lemma_args_read_back(content, document);
        }
    }
}

/// A second run finds nothing to do: once the jobs of the first run are applied, there are
/// none, provided that the manifests that were written read back as what was written.
pub proof fn lemma_second_run_finds_nothing(
    metadata: Metadata,
    packages: Seq<Package>,
    before: Seq<CrateFiles>,
    rewrites: Seq<Option<JobView>>,
    after: Seq<CrateFiles>,
    second: Seq<Option<JobView>>,
)
    requires
        before.len() == packages.len(),
        after.len() == packages.len(),
        are_rewrites(metadata, packages, before, rewrites),
        are_rewrites(metadata, packages, after, second),
        forall|i: int|
            0 <= i < packages.len() ==> (documented_dir(metadata, #[trigger] packages[i]) matches Some(
                dir,
            ) ==> is_applied(dir, before[i], rewrites[i], after[i]) && edits_read_back(
                opt_text(before[i].manifest),
                opt_text(after[i].manifest),
            )),
    ensures
        arborium_jobs(metadata, packages, after, second) == Seq::<JobView>::empty(),
{
    assert forall|i: int| 0 <= i < packages.len() implies is_set_up(
        metadata,
        #[trigger] packages[i],
        after[i],
    ) by {
        let rewrite = rewrites[i];
        lemma_applied_package_is_set_up(metadata, packages[i], before[i], rewrite, after[i]);
    }
    lemma_nothing_to_set_up(metadata, packages, after, second);
}

// ---- what is set up ----

/// The header is written into the directory, where it is not there as it should be.
pub proof fn lemma_header_is_written(dir: Seq<Seq<char>>, old: Option<Seq<u8>>)
    requires
        are_plain_names(dir),
    ensures
        old == Some(encode_utf8(ARBORIUM_HEADER@)) <==> header_job(rooted(dir), old) is None,
        header_job(rooted(dir), old) matches Some(job) ==> job.path == rooted(
            dir.push("arborium-header.html"@),
        ) && job.old_content == old && job.new_content == encode_utf8(ARBORIUM_HEADER@)
            && !job.executable,
{
    reveal_strlit("arborium-header.html");
    assert("arborium-header.html"@[0] == 'a');
    lemma_rooted_push(dir, "arborium-header.html"@);
}

/// The list that makes rustdoc put the header on its pages stands in a manifest, under the
/// metadata for docs.rs of its package.
pub open spec fn is_configured(manifest: Toml) -> bool {
    &&& manifest.get("package"@) matches Some(package)
    &&& package.get("metadata"@) matches Some(metadata)
    &&& metadata is Section
    &&& metadata.get("docs.rs"@) matches Some(docs)
    &&& docs is Section
    &&& docs.get("rustdoc-args"@) == Some(
        Toml::List(seq![Toml::Text("--html-in-header"@), Toml::Text("arborium-header.html"@)]),
    )
}

/// A manifest is to be rewritten exactly if it has a package table and is not configured.
pub proof fn lemma_unconfigured_is_rewritten(content: Seq<char>)
    ensures
        wants_rewrite(content) <==> (toml_parse(content) matches Ok(manifest) && manifest.get(
            "package"@,
        ) matches Some(package) && package is Section && !is_configured(manifest)),
{
    if toml_parse(content) is Ok {
        let manifest = toml_parse(content)->Ok_0;
        if manifest.get("package"@) is Some && manifest.get("package"@)->0 is Section {
            lemma_args_are_there(manifest);
        }
    }
}

proof fn lemma_args_are_there(manifest: Toml)
    requires
        manifest.get("package"@) matches Some(package) && package is Section,
    ensures
        has_args(docs_table(manifest.get("package"@)->0)) <==> is_configured(manifest),
{
    let package = manifest.get("package"@)->0;
    let metadata = table_or_empty(package.get("metadata"@));
    let docs = docs_table(package);
    let want = Seq::new(desired_args().len(), |i: int| Some(desired_args()[i]));
    let list = seq![Toml::Text("--html-in-header"@), Toml::Text("arborium-header.html"@)];
    assert(list_texts(list) =~= want);
    assert(empty_table().get("docs.rs"@) is None);
    assert(empty_table().get("rustdoc-args"@) is None);
    if let Some(Toml::List(have)) = docs.get("rustdoc-args"@) {
        if list_texts(have) == want {
            assert(have.len() == want.len());
            assert(list_texts(have)[0] == want[0] && list_texts(have)[1] == want[1]);
            assert(want[0] == Some("--html-in-header"@) && want[1] == Some(
                "arborium-header.html"@,
            ));
            assert(have =~= list);
        }
    }
}

/// A rewritten manifest is configured, and has under every key but `package` what it had, and
/// in the package under every key but `metadata`.
pub proof fn lemma_rewrite_configures(before: Toml, after: Toml, key: Seq<char>)
    requires
        lacks_args(before),
        args_set(before, after),
    ensures
        is_configured(after),
        key != "package"@ ==> after.get(key) == before.get(key),
        key != "metadata"@ ==> after.get("package"@)->0.get(key) == before.get("package"@)->0.get(
            key,
        ),
{
    let list = seq![Toml::Text("--html-in-header"@), Toml::Text("arborium-header.html"@)];
    assert(Seq::new(desired_args().len(), |i: int| Toml::Text(desired_args()[i])) =~= list);
}

/// A crate is one whose documentation is set up: it is a member of the workspace, and neither
/// `test` nor `example` stands in its name.
pub open spec fn is_documented(metadata: Metadata, package: Package) -> bool {
    &&& exists|m: int|
        0 <= m < metadata.workspace_members@.len() && (#[trigger] metadata.workspace_members@[m])@
            == package.id@
    &&& forall|before: Seq<char>, after: Seq<char>|
        !(#[trigger] is_made_of(package.name@, before, "test"@, after))
    &&& forall|before: Seq<char>, after: Seq<char>|
        !(#[trigger] is_made_of(package.name@, before, "example"@, after))
}

/// The documentation of a crate is set up in its directory exactly if it is one whose
/// documentation is.
pub proof fn lemma_documented_crates(metadata: Metadata, package: Package)
    ensures
        is_documented(metadata, package) ==> documented_dir(metadata, package) == parent(
            package.manifest_path@,
        ),
        !is_documented(metadata, package) ==> documented_dir(metadata, package) is None,
{
    let (name, ids) = (package.name@, texts(metadata.workspace_members@));
    lemma_has_text(name, "test"@);
    lemma_has_text(name, "example"@);
    if metadata.has_member(package.id@) {
        let m = ids.index_of(package.id@);
        assert(metadata.workspace_members@[m]@ == package.id@);
    }
    if exists|m: int|
        0 <= m < metadata.workspace_members@.len() && (#[trigger] metadata.workspace_members@[m])@
            == package.id@ {
        let m = choose|m: int|
            0 <= m < metadata.workspace_members@.len() && (
            #[trigger] metadata.workspace_members@[m])@ == package.id@;
        assert(ids[m] == package.id@);
    }
}

/// For each crate whose documentation is set up the header is written if it is not there, and
/// its manifest rewritten if it comes to that.
pub proof fn lemma_every_crate_is_set_up(
    metadata: Metadata,
    packages: Seq<Package>,
    files: Seq<CrateFiles>,
    rewrites: Seq<Option<JobView>>,
    i: int,
    job: JobView,
)
    requires
        files.len() == packages.len(),
        rewrites.len() == packages.len(),
        0 <= i < packages.len(),
        is_documented(metadata, packages[i]),
        parent(packages[i].manifest_path@) is Some,
        rewrites[i] == Some(job) || header_job(
            parent(packages[i].manifest_path@)->0,
            opt_bytes(files[i].header),
        ) == Some(job),
    ensures
        arborium_jobs(metadata, packages, files, rewrites).contains(job),
    decreases packages.len(),
{
    let n = packages.len() - 1;
    let (p, f, w) = (packages.drop_last(), files.drop_last(), rewrites.drop_last());
    let before = arborium_jobs(metadata, p, f, w);
    let all = arborium_jobs(metadata, packages, files, rewrites);
    if i < n {
        assert(p[i] == packages[i] && f[i] == files[i] && w[i] == rewrites[i]);
        lemma_every_crate_is_set_up(metadata, p, f, w, i, job);
        let k = before.index_of(job);
        assert(all[k] == job);
    } else {
        lemma_documented_crates(metadata, packages[i]);
        assert(packages.last() == packages[i] && files.last() == files[i]);
        let dir = parent(packages[i].manifest_path@)->0;
        let header = as_list(header_job(dir, opt_bytes(files[i].header)));
        assert(all == before + header + as_list(rewrites[i]));
        if rewrites[i] == Some(job) {
            assert(all[(before.len() + header.len()) as int] == job);
        } else {
            assert(all[before.len() as int] == job);
        }
    }
}

/// What comes of rewriting a manifest: a job that writes over what it holds a text that is
/// another, that of a document which is configured; or nothing where it was no TOML, had no
/// package, was configured already, or came out as it was.
pub proof fn lemma_rewritten_manifest(path: Seq<char>, content: Seq<char>, job: Option<JobView>)
    requires
        rewrite_result(path, content, job),
    ensures
        job matches Some(j) ==> {
            &&& wants_rewrite(content)
            &&& j.path == path
            &&& j.old_content == Some(encode_utf8(content))
            &&& j.new_content != encode_utf8(content)
            &&& !j.executable
            &&& exists|after: toml_edit::DocumentMut| #[trigger]
                is_configured(document_tree(after)) && j.new_content == encode_utf8(
                    document_text(after),
                )
        },
        job is None && wants_rewrite(content) ==> exists|after: toml_edit::DocumentMut| #[trigger]
            is_configured(document_tree(after)) && document_text(after) == content,
{
    if let Some(j) = job {
        lemma_rewrite_changes(path, content, j);
        let text = choose|text: Seq<char>| #[trigger]
            is_rewrite(content, text) && text != content && j.new_content == encode_utf8(text);
        let after = choose|after: toml_edit::DocumentMut| #[trigger]
            is_edit(content, after) && document_text(after) == text;
        lemma_rewrite_configures(toml_parse(content)->Ok_0, document_tree(after), Seq::empty());
        assert(is_configured(document_tree(after)));
    } else if wants_rewrite(content) {
        let after = choose|after: toml_edit::DocumentMut| #[trigger]
            is_edit(content, after) && document_text(after) == content;
        lemma_rewrite_configures(toml_parse(content)->Ok_0, document_tree(after), Seq::empty());
        assert(is_configured(document_tree(after)));
    }
}

} // verus!
