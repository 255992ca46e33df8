use canvas_downloader::canvas::{File, ProcessOptions};
use canvas_downloader::path::{FilePath, PathStep};
use canvas_downloader::plan::Report;
use canvas_downloader::screening::{
    candidate_files, clean_names, comes_before, filter_files, place_files, read_time, standing,
    updated, DiskState, Standing,
};

const OCTOBER: &str = "2023-10-01T12:00:00Z";
const OCTOBER_SECONDS: i64 = 1_696_161_600;

fn file(name: &str) -> File {
    File {
        id: 7,
        folder_id: 3,
        display_name: name.to_string(),
        size: 12,
        url: format!("https://canvas.example/{name}"),
        updated_at: OCTOBER.to_string(),
        locked_for_user: false,
        filepath: FilePath::destination(),
    }
}

fn folder() -> FilePath {
    FilePath::destination().join("CS1101S").join("files")
}

fn options(download_newer: bool) -> ProcessOptions {
    ProcessOptions {
        canvas_token: "token".to_string(),
        canvas_url: "https://canvas.example".to_string(),
        download_newer,
    }
}

fn last_name(path: &FilePath) -> String {
    match path.steps.last() {
        Some(PathStep::Join(name)) => name.clone(),
        _ => panic!("the path has no last name"),
    }
}

#[test]
fn names_lose_reserved_characters() {
    let names = clean_names(&vec![
        file("lecture 1/2: \"intro\".pdf"),
        file("a\\b?c<d>e*f|g"),
        file("bell\u{7}\u{85}.txt"),
        file("résumé.pdf"),
    ]);
    assert_eq!(names, vec!["lecture 12 intro.pdf", "abcdefg", "bell.txt", "résumé.pdf"]);
}

#[test]
fn names_of_dots_vanish() {
    let names = clean_names(&vec![file("."), file(".."), file("../.."), file("..."), file(".git")]);
    assert_eq!(names, vec!["", "", "", "", ".git"]);
}

#[test]
fn long_names_are_cut_between_characters() {
    let long = "a".repeat(300);
    let wide = format!("{}é", "a".repeat(254));
    let names = clean_names(&vec![file(&long), file(&wide)]);
    assert_eq!(names[0], "a".repeat(255));
    assert_eq!(names[1], "a".repeat(254));
}

#[test]
fn candidates_are_placed_under_their_clean_names() {
    let screened = candidate_files(&folder(), vec![file("notes: 1.pdf"), file("b.pdf")]);
    assert_eq!(screened.files.len(), 2);
    assert_eq!(screened.files[0].filepath, folder().join("notes 1.pdf"));
    assert_eq!(screened.files[0].display_name, "notes: 1.pdf");
    assert_eq!(screened.files[1].filepath, folder().join("b.pdf"));
    assert!(screened.reports.is_empty());
}

#[test]
fn candidates_stay_in_their_folder() {
    let screened = candidate_files(&folder(), vec![file("../../etc/passwd"), file("/abs")]);
    for file in &screened.files {
        let name = last_name(&file.filepath);
        assert!(!name.contains('/') && name != "." && name != "..");
        assert_eq!(file.filepath.steps.len(), folder().steps.len() + 1);
    }
}

#[test]
fn locked_files_are_left_out_silently() {
    let mut locked = file("a");
    locked.locked_for_user = true;
    locked.updated_at = "never".to_string();
    let screened = candidate_files(&folder(), vec![locked, file("b")]);
    assert_eq!(screened.files.len(), 1);
    assert_eq!(screened.files[0].display_name, "b");
    assert!(screened.reports.is_empty());
}

#[test]
fn unreadable_times_are_reported() {
    let mut bad = file("a");
    bad.updated_at = "2023-10-01".to_string();
    let screened = candidate_files(&folder(), vec![bad, file("b")]);
    assert_eq!(screened.files.len(), 1);
    assert_eq!(
        screened.reports,
        vec![Report::BadTimestamp {
            display_name: "a".to_string(),
            updated_at: "2023-10-01".to_string(),
        }]
    );
}

#[test]
fn files_are_placed_under_given_names() {
    let names = vec!["one".to_string(), "two".to_string()];
    let screened = place_files(&folder(), vec![file("x"), file("y")], &names);
    assert_eq!(screened.files[0].filepath, folder().join("one"));
    assert_eq!(screened.files[1].filepath, folder().join("two"));
}

#[test]
fn absent_files_are_wanted() {
    let kept = filter_files(&options(false), vec![file("a")], &vec![DiskState::Absent]);
    assert_eq!(kept.files, vec![file("a")]);
    assert!(kept.reports.is_empty());
}

#[test]
fn by_default_nothing_on_disk_is_overwritten() {
    let older = DiskState::Present { modified: Some((OCTOBER_SECONDS - 1, 0)) };
    let on_disk = vec![older, DiskState::Absent];
    let kept = filter_files(&options(false), vec![file("a"), file("b")], &on_disk);
    assert_eq!(kept.files, vec![file("b")]);
    assert_eq!(kept.reports, vec![Report::UpdateFound { path: FilePath::destination() }]);
}

#[test]
fn newer_files_are_downloaded_if_asked_for() {
    let older = DiskState::Present { modified: Some((OCTOBER_SECONDS - 1, 999_999_999)) };
    let same = DiskState::Present { modified: Some((OCTOBER_SECONDS, 0)) };
    let unknown = DiskState::Present { modified: None };
    let kept = filter_files(
        &options(true),
        vec![file("a"), file("b"), file("c")],
        &vec![older, same, unknown],
    );
    assert_eq!(kept.files, vec![file("a")]);
    assert_eq!(kept.reports.len(), 1);
}

#[test]
fn times_are_compared_to_the_nanosecond() {
    assert!(updated(Some((OCTOBER_SECONDS - 1, 999_999_999)), OCTOBER));
    assert!(!updated(Some((OCTOBER_SECONDS, 0)), OCTOBER));
    assert!(updated(Some((OCTOBER_SECONDS, 499_999_999)), "2023-10-01T12:00:00.5Z"));
    assert!(!updated(Some((OCTOBER_SECONDS, 500_000_000)), "2023-10-01T12:00:00.5Z"));
    assert!(updated(Some((OCTOBER_SECONDS - 1, 0)), "2023-10-01T20:00:00+08:00"));
    assert!(!updated(Some((0, 0)), "not a time"));
    assert!(!updated(None, OCTOBER));
    assert!(updated(Some((-5, 0)), "1969-12-31T23:59:56Z"));
    assert!(!updated(Some((-4, 0)), "1969-12-31T23:59:56Z"));
}

#[test]
fn locked_files_are_locked_whatever_their_time() {
    assert_eq!(standing(true, None), Standing::Locked);
    assert_eq!(standing(true, Some((0, 0))), Standing::Locked);
    assert_eq!(standing(false, None), Standing::Untimed);
    assert_eq!(standing(false, Some((0, 0))), Standing::Candidate);
}

#[test]
fn times_before_the_epoch_are_ordered() {
    assert!(comes_before(Some((-2, 999_999_999)), Some((-1, 0))));
    assert!(!comes_before(Some((-1, 0)), Some((-1, 0))));
    assert!(!comes_before(Some((1, 0)), Some((0, 999_999_999))));
    assert!(!comes_before(None, Some((0, 0))));
    assert!(!comes_before(Some((0, 0)), None));
    assert!(comes_before(Some((i64::MIN, 0)), Some((i64::MAX, u32::MAX))));
}

/// Screens `files` where everything is absent but `b`, which is older.
fn screen(files: Vec<File>) -> Vec<File> {
    let kept = candidate_files(&folder(), files).files;
    let on_disk: Vec<DiskState> = kept
        .iter()
        .map(|file| match file.display_name.as_str() {
            "b" => DiskState::Present { modified: Some((0, 0)) },
            _ => DiskState::Absent,
        })
        .collect();
    filter_files(&options(false), kept, &on_disk).files
}

#[test]
fn screening_adds_up_and_settles() {
    let mut locked = file("d");
    locked.locked_for_user = true;
    let first = || vec![file("a?"), file("b")];
    let second = || vec![locked.clone(), file("c"), file("a?")];
    let both: Vec<File> = first().into_iter().chain(second()).collect();
    let apart: Vec<File> = screen(first()).into_iter().chain(screen(second())).collect();
    assert_eq!(screen(both), apart);
    assert_eq!(apart.len(), 3);
    assert_eq!(screen(apart.clone()), apart);
}

#[test]
fn times_are_read_or_refused() {
    assert_eq!(read_time("2015-10-21T07:28:00.5Z"), Some((1445412480, 500_000_000)));
    assert_eq!(read_time("21 Oct 2015"), None);
}
