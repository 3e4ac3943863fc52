use capn::jobs::Job;
use capn::task::{
    finalize_spinner, Action, Ending, Event, TaskHandle, TaskId, TaskIds, TaskResult,
    TaskResults, TaskRunner,
};
use capn::utils::progress::{message_can_be_shown, pad, shorten, TaskProgress, TaskSpinner};

fn job(path: &str) -> Job {
    Job {
        path: path.to_string(),
        old_content: None,
        new_content: vec![1],
        executable: false,
    }
}

#[test]
fn tasks_run_until_none_is_pending() {
    let mut runner = TaskRunner::new(TaskIds::new());
    let a = runner.add("a".to_string());
    let b = runner.add("b".to_string());
    assert_eq!((a, b), (TaskId(0), TaskId(1)));
    assert_eq!(runner.pending(), 2);

    let handle = TaskHandle { id: a };
    match runner.handle(handle.set_message("half".to_string())) {
        Action::ShowMessage(id, msg) => assert_eq!((id, msg.as_str()), (a, "half")),
        _ => panic!("a message is shown"),
    }
    let c = match runner.handle(handle.spawn("c".to_string())) {
        Action::Start(id, name) => {
            assert_eq!(name, "c");
            id
        }
        _ => panic!("a child is started"),
    };
    assert_eq!(c, TaskId(2));
    assert_eq!(runner.pending(), 3);

    match runner.handle(Event::Complete(a, "a".to_string(), TaskResult::success())) {
        Action::Finish(id, Ending::Succeeded(None)) => assert_eq!(id, a),
        _ => panic!("a task is finished"),
    }
    // What comes twice is ignored.
    assert!(matches!(
        runner.handle(Event::Complete(a, "a".to_string(), TaskResult::success())),
        Action::Ignore
    ));
    assert!(matches!(
        runner.handle(handle.set_message("late".to_string())),
        Action::Ignore
    ));
    assert_eq!(runner.pending(), 2);

    runner.handle(Event::Complete(
        c,
        "c".to_string(),
        TaskResult::skipped("nothing to do".to_string()),
    ));
    runner.handle(Event::Complete(
        b,
        "b".to_string(),
        TaskResult::success_with_jobs(vec![job("x")]),
    ));
    assert_eq!(runner.pending(), 0);
    let results = runner.into_results().0;
    assert!(!results.has_failures());
    assert!(results.print_failures().is_empty());
    let names: Vec<&str> = results.results.iter().map(|(n, _)| n.as_str()).collect();
    assert_eq!(names, vec!["a", "c", "b"]);
    let jobs = results.collect_jobs();
    assert_eq!(jobs.len(), 1);
    assert_eq!(jobs[0].path, "x");
}

#[test]
fn ids_are_unique_over_all_runners() {
    let mut ids = TaskIds::new();
    assert_eq!(TaskId::new(&mut ids), TaskId(0));
    assert_eq!(TaskId::new(&mut ids), TaskId(1));
    let mut first = TaskRunner::new(ids);
    assert_eq!(first.add("a".to_string()), TaskId(2));
    assert_eq!(first.add("b".to_string()), TaskId(3));
    let (_, ids) = first.into_results();
    let mut second = TaskRunner::new(ids);
    assert_eq!(second.add("a".to_string()), TaskId(4));
    // The number of a task of another runner means nothing here.
    assert!(matches!(
        second.handle(Event::Complete(TaskId(2), "a".to_string(), TaskResult::success())),
        Action::Ignore
    ));
    assert_eq!(second.pending(), 1);
}

#[test]
fn tasks_of_one_name_each_have_a_result() {
    let mut runner = TaskRunner::new(TaskIds::new());
    let ids: Vec<TaskId> =
        ["x", "y", "x"].iter().map(|name| runner.add(name.to_string())).collect();
    for i in [2, 1, 0] {
        let name = ["x", "y", "x"][i].to_string();
        runner.handle(Event::Complete(ids[i], name, TaskResult::success()));
    }
    let (results, _) = runner.into_results();
    let names: Vec<&str> = results.results.iter().map(|(n, _)| n.as_str()).collect();
    assert_eq!(names, vec!["x", "y", "x"]);
}

#[test]
fn a_failure_cancels_the_rest() {
    let mut runner = TaskRunner::new(TaskIds::new());
    let a = runner.add("a".to_string());
    let b = runner.add("b".to_string());
    let failed = TaskResult::failed("broken".to_string(), "line 1\nline 2".to_string());
    match runner.handle(Event::Complete(a, "a".to_string(), failed)) {
        Action::Finish(id, Ending::Failed) => assert_eq!(id, a),
        _ => panic!("the failure is shown"),
    }
    assert_eq!(runner.pending(), 0);
    assert!(matches!(
        runner.handle(Event::Complete(b, "b".to_string(), TaskResult::success())),
        Action::Ignore
    ));
    assert!(matches!(runner.handle(Event::Spawn("c".to_string())), Action::Ignore));
    let results = runner.into_results().0;
    assert!(results.has_failures());
    assert_eq!(
        results.print_failures(),
        vec![
            "\n\u{1b}[31m✗\u{1b}[39m \u{1b}[33ma\u{1b}[39m: broken".to_string(),
            "line 1\nline 2".to_string()
        ]
    );
}

#[test]
fn a_failure_without_details_takes_one_line() {
    let results = TaskResults {
        results: vec![
            ("ok".to_string(), TaskResult::success()),
            ("bad".to_string(), TaskResult::failed("why".to_string(), String::new())),
        ],
    };
    assert_eq!(
        results.print_failures(),
        vec!["\n\u{1b}[31m✗\u{1b}[39m \u{1b}[33mbad\u{1b}[39m: why".to_string()]
    );
}

#[test]
fn jobs_of_successful_tasks_are_collected_in_order() {
    let results = TaskResults {
        results: vec![
            ("a".to_string(), TaskResult::success_with_jobs(vec![job("1"), job("2")])),
            ("b".to_string(), TaskResult::skipped("no".to_string())),
            (
                "c".to_string(),
                TaskResult::success_with_jobs_and_message("done".to_string(), vec![job("3")]),
            ),
            ("d".to_string(), TaskResult::success_with("fine".to_string())),
        ],
    };
    let paths: Vec<String> = results.collect_jobs().into_iter().map(|j| j.path).collect();
    assert_eq!(paths, vec!["1", "2", "3"]);
}

#[test]
fn spinners_end_as_their_tasks_do() {
    assert!(matches!(
        finalize_spinner(&TaskResult::success_with("3 files".to_string())),
        Ending::Succeeded(Some(m)) if m == "3 files"
    ));
    assert!(matches!(
        finalize_spinner(&TaskResult::skipped("why".to_string())),
        Ending::Skipped(m) if m == "why"
    ));
    let finished_line = |name: &str, ending: &Ending, elapsed: &str, tty: bool| {
        TaskSpinner { name: name.to_string(), tty }.finish(ending, elapsed)
    };
    assert_eq!(
        finished_line("clippy", &Ending::Succeeded(None), "1.5s", true),
        "  \u{1b}[32m✓\u{1b}[39m clippy         \u{1b}[2m1.5s\u{1b}[0m"
    );
    assert_eq!(
        finished_line("clippy", &Ending::Succeeded(None), "1.5s", false),
        "  \u{1b}[32m✓\u{1b}[39m clippy         1.5s"
    );
    assert_eq!(
        finished_line("rustfmt", &Ending::Succeeded(Some("3 files".to_string())), "0.1s", true),
        "  \u{1b}[32m✓\u{1b}[39m rustfmt        \u{1b}[2m0.1s\u{1b}[0m \u{1b}[2m3 files\u{1b}[0m"
    );
    assert_eq!(
        finished_line("cargo-shear", &Ending::Skipped("not installed".to_string()), "", false),
        "  \u{1b}[33m⊘\u{1b}[39m cargo-shear    not installed"
    );
    assert_eq!(
        finished_line("docs", &Ending::Failed, "2.0s", true),
        "  \u{1b}[31m✗\u{1b}[39m docs           \u{1b}[2m2.0s\u{1b}[0m"
    );
}

#[test]
fn names_are_padded_as_std_pads() {
    for name in ["", "a", "metadata", "a name of 14 c", "a name longer than that", "é"] {
        assert_eq!(pad(name), format!("{:<14}", name));
    }
}

#[test]
fn long_messages_are_shortened() {
    let short = "x".repeat(50);
    assert_eq!(shorten(&short), short);
    let long = format!("{}{}", "a".repeat(10), "b".repeat(50));
    assert_eq!(shorten(&long), format!("…{}", "b".repeat(49)));
    assert!(message_can_be_shown(&long));
    // The cut would fall into a character.
    let unlucky = format!("{}é{}", "a".repeat(20), "b".repeat(48));
    assert!(!message_can_be_shown(&unlucky));
    let (spinner, first) = TaskProgress::new(true).add_task("git");
    assert_eq!(first, "git           ");
    assert_eq!(
        spinner.set_message("fetching"),
        Some("git            \u{1b}[2mfetching\u{1b}[0m".to_string())
    );
    let (plain, _) = TaskProgress::new(false).add_task("git");
    assert_eq!(plain.set_message(&unlucky), None);
    assert_eq!(plain.succeed("1.0s"), "  \u{1b}[32m✓\u{1b}[39m git            1.0s");
    assert_eq!(plain.fail("1.0s"), "  \u{1b}[31m✗\u{1b}[39m git            1.0s");
    assert_eq!(plain.skip("no"), "  \u{1b}[33m⊘\u{1b}[39m git            no");
    assert_eq!(
        plain.succeed_with_message("1.0s", &"m".to_string()),
        "  \u{1b}[32m✓\u{1b}[39m git            \u{1b}[2m1.0s\u{1b}[0m \u{1b}[2mm\u{1b}[0m"
    );
}
