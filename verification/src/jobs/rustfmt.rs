//! Jobs that format staged Rust files.

use crate::jobs::{as_list, bytes_copy, bytes_eq, job_views, opt_bytes, Job, JobView};
use crate::path::{
    are_plain_names, extension, extension_of, is_plain_name, lemma_rooted_extension, rooted,
};
use crate::text::{push_text, text_eq, texts};
use vstd::prelude::*;

verus! {

/// The path is that of a Rust file.
pub open spec fn is_rust_file(path: Seq<char>) -> bool {
    extension(path) == Some("rs"@)
}

/// The Rust files of a list, in their order.
pub open spec fn rust_files_in(paths: Seq<Seq<char>>) -> Seq<Seq<char>>
    decreases paths.len(),
{
    if paths.len() == 0 {
        Seq::empty()
    } else if is_rust_file(paths.last()) {
        rust_files_in(paths.drop_last()).push(paths.last())
    } else {
        rust_files_in(paths.drop_last())
    }
}

/// The Rust files among the staged ones.
pub fn rust_files(staged: &Vec<String>) -> (r: Vec<String>)
    ensures
        texts(r@) == rust_files_in(texts(staged@)),
{
    let mut list: Vec<String> = Vec::new();
    let ghost all = texts(staged@);
    let mut i: usize = 0;
    proof {
        assert(all.take(0) =~= Seq::empty());
        assert(texts(list@) =~= Seq::empty());
    }
    while i < staged.len()
        invariant
            all == texts(staged@),
            i <= staged@.len(),
            texts(list@) == rust_files_in(all.take(i as int)),
        decreases staged@.len() - i,
    {
        proof {
            assert(all.take(i + 1).drop_last() =~= all.take(i as int));
            assert(all.take(i + 1).last() == staged@[i as int]@);
        }
        match extension_of(staged[i].as_str()) {
            Some(ext) => {
                if text_eq(ext.as_str(), "rs") {
                    push_text(&mut list, staged[i].as_str());
                }
            },
            None => {},
        }
        i = i + 1;
    }
    proof {
        assert(all.take(i as int) =~= all);
    }
    list
}

/// The arguments with which `rustfmt` formats what it reads from its standard input.
pub fn rustfmt_args() -> (r: Vec<String>)
    ensures
        texts(r@) == seq!["--edition"@, "2024"@, "--emit"@, "stdout"@],
{
    let mut args: Vec<String> = Vec::new();
    push_text(&mut args, "--edition");
    push_text(&mut args, "2024");
    push_text(&mut args, "--emit");
    push_text(&mut args, "stdout");
    proof {
        assert(texts(args@) =~= seq!["--edition"@, "2024"@, "--emit"@, "stdout"@]);
    }
    args
}

/// A Rust file, with what it holds and what `rustfmt` makes of it, as far as both are there.
pub struct Formatted {
    pub path: String,
    pub content: Option<Vec<u8>>,
    pub formatted: Option<Vec<u8>>,
}

/// The job that formats a file; none where it is formatted already or could not be.
pub open spec fn format_job(file: Formatted) -> Option<JobView> {
    match (opt_bytes(file.content), opt_bytes(file.formatted)) {
        (Some(content), Some(formatted)) => if content != formatted {
            Some(
                JobView {
                    path: file.path@,
                    old_content: Some(content),
                    new_content: formatted,
                    executable: false,
                },
            )
        } else {
            None
        },
        _ => None,
    }
}

/// The jobs that format some files.
pub open spec fn format_jobs(files: Seq<Formatted>) -> Seq<JobView>
    decreases files.len(),
{
    if files.len() == 0 {
        Seq::empty()
    } else {
        format_jobs(files.drop_last()) + as_list(format_job(files.last()))
    }
}

/// Collects the jobs that format some files.
pub fn collect_rustfmt_jobs(files: &Vec<Formatted>) -> (r: Vec<Job>)
    ensures
        job_views(r@) == format_jobs(files@),
{
    let mut jobs: Vec<Job> = Vec::new();
    let mut i: usize = 0;
    proof {
        assert(files@.take(0) =~= Seq::empty());
        assert(job_views(jobs@) =~= Seq::empty());
    }
    while i < files.len()
        invariant
            i <= files@.len(),
            job_views(jobs@) == format_jobs(files@.take(i as int)),
        decreases files@.len() - i,
    {
        let ghost before = jobs@;
        proof {
            assert(files@.take(i + 1).drop_last() =~= files@.take(i as int));
            assert(files@.take(i + 1).last() == files@[i as int]);
        }
        let file = &files[i];
        match (&file.content, &file.formatted) {
            (Some(content), Some(formatted)) => {
                if !bytes_eq(content, formatted) {
                    jobs.push(
                        Job {
                            path: file.path.clone(),
                            old_content: Some(bytes_copy(content)),
                            new_content: bytes_copy(formatted),
                            executable: false,
                        },
                    );
                }
            },
            _ => {},
        }
        proof {
            assert(job_views(jobs@) =~= job_views(before) + as_list(
                format_job(files@[i as int]),
            ));
        }
        i = i + 1;
    }
    proof {
        assert(files@.take(i as int) =~= files@);
    }
    jobs
}

// ---- laws ----

/// A file is a Rust file exactly if its name ends in `.rs` behind something: by the names that
/// lead to it.
pub proof fn lemma_rust_files(dir: Seq<Seq<char>>, stem: Seq<char>, ext: Seq<char>)
    requires
        are_plain_names(dir),
        is_plain_name(stem + seq!['.'] + ext),
        stem.len() > 0,
        !ext.contains('.'),
        stem + seq!['.'] + ext != seq!['.', '.'],
    ensures
        is_rust_file(rooted(dir.push(stem + seq!['.'] + ext))) <==> ext == "rs"@,
{
    lemma_rooted_extension(dir, stem, ext);
}

/// A name without a dot behind its first character is that of no Rust file.
pub proof fn lemma_no_rust_file(dir: Seq<Seq<char>>, name: Seq<char>)
    requires
        are_plain_names(dir),
        is_plain_name(name),
        forall|i: int| 0 < i < name.len() ==> name[i] != '.',
    ensures
        !is_rust_file(rooted(dir.push(name))),
{
    lemma_rooted_extension(dir, name, Seq::empty());
}

/// Of two lists the Rust files are those of each, one after the other; of a single path it is
/// the path itself or nothing.
pub proof fn lemma_rust_files_of_two_lists(a: Seq<Seq<char>>, b: Seq<Seq<char>>)
    ensures
        rust_files_in(a + b) == rust_files_in(a) + rust_files_in(b),
        a.len() == 1 ==> rust_files_in(a) == if is_rust_file(a[0]) {
            a
        } else {
            Seq::empty()
        },
        a.len() == 0 ==> rust_files_in(a).len() == 0,
    decreases b.len(),
{
    if a.len() == 1 {
        assert(a.drop_last() =~= Seq::empty());
        assert(rust_files_in(a.drop_last()) =~= Seq::empty());
        assert(rust_files_in(a) =~= if is_rust_file(a[0]) {
            a
        } else {
            Seq::empty()
        });
    }
    if b.len() == 0 {
        assert(a + b =~= a);
    } else {
        lemma_rust_files_of_two_lists(a, b.drop_last());
        assert((a + b).drop_last() =~= a + b.drop_last());
        assert((a + b).last() == b.last());
    }
    assert(rust_files_in(a + b) =~= rust_files_in(a) + rust_files_in(b));
}

/// A file has a job exactly if it was read and formatted to something else: the job writes
/// what `rustfmt` gave over what the file holds.
pub proof fn lemma_format_jobs(files: Seq<Formatted>, job: JobView)
    ensures
        format_jobs(files).contains(job) <==> exists|i: int|
            0 <= i < files.len() && is_reformatted(#[trigger] files[i], job),
    decreases files.len(),
{
    if files.len() > 0 {
        let rest = files.drop_last();
        let n = files.len() - 1;
        let before = format_jobs(rest);
        let all = format_jobs(files);
        let last = format_job(files.last());
        lemma_format_jobs(rest, job);
        assert(files[n] == files.last());
        if all.contains(job) {
            let k = all.index_of(job);
            if k < before.len() {
                assert(before[k] == job);
                let i = choose|i: int|
                    0 <= i < rest.len() && is_reformatted(#[trigger] rest[i], job);
                assert(files[i] == rest[i]);
            } else {
                assert(all[k] == as_list(last)[k - before.len()]);
                assert(is_reformatted(files[n], job));
            }
        }
        if exists|i: int| 0 <= i < files.len() && is_reformatted(#[trigger] files[i], job) {
            let i = choose|i: int| 0 <= i < files.len() && is_reformatted(#[trigger] files[i], job);
            if i < n {
                assert(rest[i] == files[i]);
                let k = before.index_of(job);
                assert(all[k] == job);
            } else {
                assert(last == Some(job));
                assert(all[before.len() as int] == job);
            }
        }
    }
}

/// A job writes what `rustfmt` gave for a file that held something else.
pub open spec fn is_reformatted(file: Formatted, job: JobView) -> bool {
    &&& file.content matches Some(content)
    &&& file.formatted matches Some(formatted)
    &&& content@ != formatted@
    &&& job.path == file.path@
    &&& job.old_content == Some(content@)
    &&& job.new_content == formatted@
    &&& !job.executable
}

} // verus!
