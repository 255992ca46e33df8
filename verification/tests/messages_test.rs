use canvas_downloader::canvas::{Course, File};
use canvas_downloader::download::DownloadError;
use canvas_downloader::messages::{
    course_line, download_failure, report_message, term_table, write_trouble,
};
use canvas_downloader::path::FilePath;
use canvas_downloader::plan::{Report, Subject, Task};

fn denied(subject: Subject) -> Report {
    Report::Denied {
        subject,
        uri: "U".to_string(),
        path: FilePath::destination(),
        status: "S".to_string(),
    }
}

fn unreadable(subject: Subject) -> Report {
    Report::Unreadable {
        subject,
        uri: "U".to_string(),
        path: FilePath::destination(),
        error: "E".to_string(),
    }
}

#[test]
fn refusals_are_worded_by_subject() {
    assert_eq!(
        report_message(&denied(Subject::Folders), "\"P\""),
        "Failed to access folders at link:U, path:\"P\", status:S"
    );
    assert_eq!(
        report_message(&denied(Subject::Files), "P"),
        "Failed to access files at link:U, path:P, status:S"
    );
    assert_eq!(
        report_message(&denied(Subject::Discussions), "P"),
        "Failed to access discussions at link:U, path:P, status:S"
    );
    assert_eq!(
        report_message(&denied(Subject::Pages), "P"),
        "No pages found for url U status: S"
    );
}

#[test]
fn unreadable_answers_are_worded_by_subject() {
    for (subject, words) in [
        (Subject::Folders, "getting folders"),
        (Subject::Files, "getting files"),
        (Subject::PageBody, "parsing page body"),
        (Subject::Discussions, "getting discussions"),
        (Subject::DiscussionView, "getting submissions"),
        (Subject::FileInfo, "getting file info"),
    ] {
        assert_eq!(
            report_message(&unreadable(subject), "P"),
            format!("Error when {} at link:U, path:P\nE", words)
        );
    }
    assert_eq!(
        report_message(&unreadable(Subject::Pages), "P"),
        "No pages found for url U error: E"
    );
}

#[test]
fn the_other_reports_are_worded() {
    let path = FilePath::destination();
    assert_eq!(
        report_message(
            &Report::FolderNotCreated { path: path.clone(), error: "E".to_string() },
            "P"
        ),
        "Failed to create directory: P, err=E"
    );
    assert_eq!(
        report_message(
            &Report::BadTimestamp { display_name: "N".to_string(), updated_at: "T".to_string() },
            "P"
        ),
        "Failed to parse updated_at time for N, T"
    );
    assert_eq!(
        report_message(&Report::UpdateFound { path }, "\"P\""),
        "Found update for \"P\". Use -n to download updated files."
    );
}

#[test]
fn courses_are_listed_by_their_codes() {
    let course = Course {
        id: 1,
        name: "Programming Methodology".to_string(),
        course_code: "CS1101S".to_string(),
        enrollment_term_id: 115,
    };
    assert_eq!(course_line(&course), "  * CS1101S");
}

#[test]
fn failed_downloads_are_worded_by_reason() {
    let file = File {
        id: 1,
        folder_id: 2,
        display_name: "a.pdf".to_string(),
        size: 3,
        url: "U".to_string(),
        updated_at: "T".to_string(),
        locked_for_user: false,
        filepath: FilePath::destination().join("a.pdf"),
    };
    let error = || "E".to_string();
    for (reason, message, cause) in [
        (DownloadError::Request(error()), "Something went wrong when reaching U", Some("E")),
        (DownloadError::Status(404), "Failed to download a.pdf, got R", None),
        (DownloadError::Create(error()), "Unable to create tmp file for P", Some("E")),
        (DownloadError::Write(error()), "Could not write to file P", Some("E")),
        (DownloadError::Read(error()), "E", None),
        (DownloadError::Rename(error()), "E", None),
        (DownloadError::Timestamp(error()), "E", None),
    ] {
        let text = download_failure(&reason, &file, "P", "R");
        assert_eq!(text.message, message);
        assert_eq!(text.cause, cause.map(|c: &str| c.to_string()));
    }
}

fn course(code: &str, term: u32) -> Course {
    Course {
        id: 1,
        name: "N".to_string(),
        course_code: code.to_string(),
        enrollment_term_id: term,
    }
}

#[test]
fn the_terms_are_shown_as_a_table() {
    let courses = vec![
        course("CS1101S", 115),
        course("CS1231S", 115),
        course("CS2040S", 120),
        course("CS2030", 120),
        course("CS3230", 125),
    ];
    assert_eq!(
        term_table(&courses),
        vec![
            "Term IDs  | Courses",
            "115       | [\"CS1101S\", \"CS1231S\"]",
            "120       | [\"CS2040S\", \"CS2030\"]",
            "125       | [\"CS3230\"]",
        ]
    );
    assert_eq!(term_table(&vec![]), vec!["Term IDs  | Courses"]);
}

#[test]
fn codes_in_the_table_are_escaped_and_wide_terms_fill_the_column() {
    let courses = vec![course("say \"hi\"\n", u32::MAX)];
    assert_eq!(
        term_table(&courses)[1],
        "4294967295| [\"say \\\"hi\\\"\\n\"]"
    );
}

#[test]
fn files_that_cannot_be_written_are_worded_by_task() {
    let url = || "U".to_string();
    let path = FilePath::destination;
    for task in [
        Task::Users { url: url(), path: path() },
        Task::Discussions { url: url(), announcement: true, path: path() },
        Task::DiscussionView { url: url(), path: path() },
    ] {
        assert_eq!(write_trouble(&task), "Unable to write to file for ");
    }
    for task in [
        Task::Pages { url: url(), path: path() },
        Task::PageBody { url: url(), title: "t".to_string(), path: path() },
    ] {
        assert_eq!(write_trouble(&task), "Could not write to file ");
    }
}
