use canvas_downloader::canvas::{File, ProcessOptions};
use canvas_downloader::path::{FilePath, PathStep};
use canvas_downloader::plan::{Effect, Report, Task};
use canvas_downloader::runner::{Run, Stage, Step};
use canvas_downloader::screening::DiskState;

fn here() -> FilePath {
    FilePath::destination().join("CS1010")
}

fn task(url: &str) -> Task {
    Task::Files { url: url.to_string(), path: here() }
}

fn options(download_newer: bool) -> ProcessOptions {
    ProcessOptions {
        canvas_token: "token".to_string(),
        canvas_url: "https://canvas.example".to_string(),
        download_newer,
    }
}

fn file(name: &str, updated_at: &str) -> File {
    File {
        id: 1,
        folder_id: 2,
        display_name: name.to_string(),
        size: 3,
        url: "https://canvas.example/download".to_string(),
        updated_at: updated_at.to_string(),
        locked_for_user: false,
        filepath: FilePath::destination(),
    }
}

fn broken() -> Option<String> {
    Some("broken".to_string())
}

#[test]
fn a_run_without_effects_is_over_at_once() {
    let mut run = Run::start(vec![]);
    assert_eq!(run.next_step(), Step::Finish);
    assert_eq!(run.stage, Stage::Over);
    assert_eq!(run.next_step(), Step::Finish);
}

#[test]
fn a_folder_that_exists_is_not_created() {
    let mut run = Run::start(vec![
        Effect::EnsureFolder { path: here() },
        Effect::Fork { task: task("a") },
    ]);
    assert_eq!(run.next_step(), Step::CheckExists(here()));
    run.folder_exists(true);
    assert_eq!(run.next_step(), Step::Spawn(task("a")));
    assert_eq!(run.next_step(), Step::Finish);
}

#[test]
fn a_missing_folder_is_created_first() {
    let mut run = Run::start(vec![
        Effect::EnterFolder { path: here(), tasks: vec![task("a"), task("b")] },
        Effect::Fork { task: task("c") },
    ]);
    assert_eq!(run.next_step(), Step::CheckExists(here()));
    run.folder_exists(false);
    assert_eq!(run.next_step(), Step::CreateFolder(here()));
    run.performed(None);
    assert_eq!(run.next_step(), Step::Spawn(task("a")));
    assert_eq!(run.next_step(), Step::Spawn(task("b")));
    assert_eq!(run.next_step(), Step::Spawn(task("c")));
    assert_eq!(run.next_step(), Step::Finish);
}

#[test]
fn a_folder_that_cannot_be_entered_is_left_out() {
    let mut run = Run::start(vec![
        Effect::EnterFolder { path: here(), tasks: vec![task("a"), task("b")] },
        Effect::Fork { task: task("c") },
    ]);
    run.next_step();
    run.folder_exists(false);
    run.next_step();
    run.performed(broken());
    assert_eq!(
        run.next_step(),
        Step::Tell(Report::FolderNotCreated { path: here(), error: "broken".to_string() })
    );
    assert_eq!(run.next_step(), Step::Spawn(task("c")));
    assert_eq!(run.next_step(), Step::Finish);
}

#[test]
fn a_folder_that_is_needed_fails_the_task() {
    let mut run = Run::start(vec![
        Effect::Fork { task: task("a") },
        Effect::EnsureFolder { path: here() },
        Effect::Fork { task: task("b") },
    ]);
    assert_eq!(run.next_step(), Step::Spawn(task("a")));
    run.next_step();
    run.folder_exists(false);
    run.next_step();
    run.performed(broken());
    assert_eq!(run.next_step(), Step::Fail(here(), "broken".to_string()));
    assert_eq!(run.stage, Stage::Over);
    assert!(run.pending.is_empty());
}

#[test]
fn files_are_created_and_written_in_turn() {
    let mut run = Run::start(vec![
        Effect::CreateFile { path: here() },
        Effect::AppendFile { path: here(), text: "one".to_string() },
        Effect::AppendFile { path: here(), text: "two".to_string() },
    ]);
    assert_eq!(run.next_step(), Step::CreateFile(here()));
    run.performed(None);
    assert_eq!(run.next_step(), Step::AppendFile(here(), "one".to_string()));
    run.performed(None);
    assert_eq!(run.next_step(), Step::AppendFile(here(), "two".to_string()));
    run.performed(None);
    assert_eq!(run.next_step(), Step::Finish);
}

#[test]
fn a_file_that_cannot_be_written_fails_the_task() {
    let mut run = Run::start(vec![
        Effect::AppendFile { path: here(), text: "one".to_string() },
        Effect::Fork { task: task("a") },
    ]);
    run.next_step();
    run.performed(broken());
    assert_eq!(run.next_step(), Step::Fail(here(), "broken".to_string()));
    assert_eq!(run.next_step(), Step::Finish);
}

#[test]
fn files_are_screened_against_the_disk() {
    let time = "2023-01-02T03:04:05Z";
    let files = vec![
        file("new?.pdf", time),
        file("old.pdf", time),
        file("current.pdf", time),
        file("timeless.pdf", "yesterday"),
    ];
    let mut run = Run::start(vec![
        Effect::Screen { path: here(), files },
        Effect::Fork { task: task("a") },
    ]);
    assert_eq!(
        run.next_step(),
        Step::Inspect(vec![
            here().join("new.pdf"),
            here().join("old.pdf"),
            here().join("current.pdf"),
        ])
    );
    run.inspected(
        &options(true),
        &vec![
            DiskState::Absent,
            DiskState::Present { modified: Some((1672628644, 999_999_999)) },
            DiskState::Present { modified: Some((1672628645, 0)) },
        ],
    );
    assert_eq!(
        run.next_step(),
        Step::Tell(Report::BadTimestamp {
            display_name: "timeless.pdf".to_string(),
            updated_at: "yesterday".to_string(),
        })
    );
    assert_eq!(
        run.next_step(),
        Step::Tell(Report::UpdateFound { path: here().join("old.pdf") })
    );
    match run.next_step() {
        Step::Queue(queued) => {
            let paths: Vec<FilePath> = queued.into_iter().map(|f| f.filepath).collect();
            assert_eq!(paths, vec![here().join("new.pdf"), here().join("old.pdf")]);
        }
        other => panic!("{:?}", other),
    }
    assert_eq!(run.next_step(), Step::Spawn(task("a")));
    assert_eq!(run.next_step(), Step::Finish);
}

#[test]
fn queued_files_and_reports_go_through() {
    let report = || Report::UpdateFound { path: here() };
    let mut run = Run::start(vec![
        Effect::Queue { files: vec![file("a", "t")] },
        Effect::Tell { report: report() },
    ]);
    assert_eq!(run.next_step(), Step::Queue(vec![file("a", "t")]));
    assert_eq!(run.next_step(), Step::Tell(report()));
    assert_eq!(run.next_step(), Step::Finish);
}

#[test]
fn whatever_is_queued_lies_below_the_folder() {
    let mut run = Run::start(vec![Effect::Screen {
        path: here(),
        files: vec![file("../../etc/passwd", "2023-01-02T03:04:05Z")],
    }]);
    match run.next_step() {
        Step::Inspect(paths) => {
            assert_eq!(paths.len(), 1);
            assert_eq!(paths[0].steps.len(), 2);
            assert_eq!(paths[0].steps[0], here().steps[0]);
            assert_eq!(paths[0].steps[1], PathStep::Join("....etcpasswd".to_string()));
        }
        other => panic!("{:?}", other),
    }
}

#[test]
fn every_folder_that_can_be_had_starts_two_tasks() {
    let folder = |name: &str| Effect::EnterFolder {
        path: here().join(name),
        tasks: vec![task("files"), task("folders")],
    };
    let names = ["there", "new", "refused", "there too"];
    let mut run = Run::start(names.iter().map(|name| folder(name)).collect());
    let mut started = 0;
    loop {
        match run.next_step() {
            Step::CheckExists(path) => {
                run.folder_exists(path == here().join("there") || path == here().join("there too"));
            }
            Step::CreateFolder(path) => {
                run.performed(if path == here().join("refused") { broken() } else { None });
            }
            Step::Spawn(_) => started += 1,
            Step::Tell(_) => {}
            Step::Finish => break,
            other => panic!("{:?}", other),
        }
    }
    assert_eq!(started, 2 * 3);
}
