use canvas_downloader::canvas::{
    Comments, Discussion, DiscussionResult, DiscussionView, File, FileResult, Folder, FolderResult,
    Page, PageBody, PageResult,
};
use canvas_downloader::path::FilePath;
use canvas_downloader::plan::{Effect, Report, Subject, Task};
use canvas_downloader::process::{
    create_record, enter_discussions, enter_folders, name_attachments, opening, process_data,
    process_discussion_view, process_discussions, process_files, process_folders,
    process_page_body, process_pages, process_users, record_file, Opening,
};

const COURSE: &str = "https://canvas.example/api/v1/courses/7";
const URI: &str = "https://canvas.example/api/v1/somewhere?page=2";

fn here() -> FilePath {
    FilePath::destination().join("CS1010")
}

fn folder(name: &str, parent: Option<u32>) -> Folder {
    Folder {
        id: 1,
        name: name.to_string(),
        folders_url: format!("folders of {}", name),
        files_url: format!("files of {}", name),
        for_submissions: false,
        can_upload: false,
        parent_folder_id: parent,
    }
}

fn file(id: u32, name: &str) -> File {
    File {
        id,
        folder_id: 2,
        display_name: name.to_string(),
        size: 3,
        url: "https://canvas.example/download".to_string(),
        updated_at: "2023-01-02T03:04:05Z".to_string(),
        locked_for_user: false,
        filepath: FilePath::destination(),
    }
}

fn page(url: &str) -> Page {
    Page {
        page_id: 1,
        url: url.to_string(),
        title: "A title".to_string(),
        updated_at: "2023-01-02T03:04:05Z".to_string(),
        locked_for_user: false,
    }
}

fn denied(subject: Subject, status: &str) -> Effect {
    Effect::Tell {
        report: Report::Denied {
            subject,
            uri: URI.to_string(),
            path: here(),
            status: status.to_string(),
        },
    }
}

fn unreadable(subject: Subject, uri: &str, path: FilePath) -> Effect {
    Effect::Tell {
        report: Report::Unreadable {
            subject,
            uri: uri.to_string(),
            path,
            error: "bad json".to_string(),
        },
    }
}

fn append(name: &str, text: &str) -> Effect {
    Effect::AppendFile { path: here().join(name), text: text.to_string() }
}

#[test]
fn every_task_begins_at_its_address() {
    let url = || COURSE.to_string();
    assert_eq!(
        opening(&Task::Folders { url: url(), path: here() }),
        Opening::AllPages(url())
    );
    assert_eq!(opening(&Task::Files { url: url(), path: here() }), Opening::AllPages(url()));
    assert_eq!(opening(&Task::Data { url: url(), path: here() }), Opening::Nothing);
    assert_eq!(
        opening(&Task::HtmlLinks { html: "<a>".to_string(), path: here() }),
        Opening::Nothing
    );
    assert_eq!(
        opening(&Task::Users { url: url(), path: here() }),
        Opening::AllPages(format!(
            "{}users?include_inactive=true&include[]=avatar_url&include[]=enrollments&include[]=email&include[]=observed_users&include[]=can_be_removed&include[]=custom_links",
            COURSE
        ))
    );
    assert_eq!(
        opening(&Task::Discussions { url: url(), announcement: false, path: here() }),
        Opening::AllPages(format!("{}discussion_topics", COURSE))
    );
    assert_eq!(
        opening(&Task::Discussions { url: url(), announcement: true, path: here() }),
        Opening::AllPages(format!("{}discussion_topics?only_announcements=true", COURSE))
    );
    assert_eq!(
        opening(&Task::Pages { url: url(), path: here() }),
        Opening::AllPages(format!("{}pages", COURSE))
    );
    assert_eq!(
        opening(&Task::PageBody { url: url(), title: "t".to_string(), path: here() }),
        Opening::One(url())
    );
    assert_eq!(
        opening(&Task::DiscussionView { url: url(), path: here() }),
        Opening::One(url())
    );
}

#[test]
fn answers_are_kept_in_record_files() {
    let url = || COURSE.to_string();
    assert_eq!(record_file(&Task::Users { url: url(), path: here() }), Some(here()));
    assert_eq!(
        record_file(&Task::Discussions { url: url(), announcement: true, path: here() }),
        Some(here().join("discussions.json"))
    );
    assert_eq!(
        record_file(&Task::Pages { url: url(), path: here() }),
        Some(here().join("pages.json"))
    );
    assert_eq!(
        record_file(&Task::PageBody { url: url(), title: "intro".to_string(), path: here() }),
        Some(here().join("intro.json"))
    );
    assert_eq!(record_file(&Task::DiscussionView { url: url(), path: here() }), None);
    assert_eq!(record_file(&Task::Files { url: url(), path: here() }), None);
    assert_eq!(
        create_record(&Task::Pages { url: url(), path: here() }),
        vec![Effect::CreateFile { path: here().join("pages.json") }]
    );
    assert_eq!(create_record(&Task::Folders { url: url(), path: here() }), vec![]);
}

#[test]
fn folders_are_entered_and_the_root_adds_no_level() {
    let listed = FolderResult::Listed(vec![
        folder("course files", None),
        folder("Week: 1/2", Some(9)),
    ]);
    let inner = here().join("Week 12");
    assert_eq!(
        process_folders(URI, &here(), Ok(listed)),
        vec![
            Effect::EnterFolder {
                path: here(),
                tasks: vec![
                    Task::Files { url: "files of course files".to_string(), path: here() },
                    Task::Folders { url: "folders of course files".to_string(), path: here() },
                ],
            },
            Effect::EnterFolder {
                path: inner.clone(),
                tasks: vec![
                    Task::Files { url: "files of Week: 1/2".to_string(), path: inner.clone() },
                    Task::Folders { url: "folders of Week: 1/2".to_string(), path: inner },
                ],
            },
        ]
    );
}

#[test]
fn folders_are_entered_under_given_names() {
    let names = vec!["x".to_string()];
    match &enter_folders(vec![folder("a", Some(1))], &here(), &names)[0] {
        Effect::EnterFolder { path, .. } => assert_eq!(*path, here().join("x")),
        other => panic!("{:?}", other),
    }
}

#[test]
fn refused_folders_are_reported_unless_there_are_none() {
    let status = |status: &str| Ok(FolderResult::Denied { status: status.to_string() });
    assert_eq!(process_folders(URI, &here(), status("unauthorized")), vec![]);
    assert_eq!(
        process_folders(URI, &here(), status("unauthenticated")),
        vec![denied(Subject::Folders, "unauthenticated")]
    );
    assert_eq!(
        process_folders(URI, &here(), Err("bad json".to_string())),
        vec![unreadable(Subject::Folders, URI, here())]
    );
}

#[test]
fn the_data_of_a_course_has_four_parts() {
    let url = || COURSE.to_string();
    let discussions = here().join("discussions");
    let announcements = here().join("announcements");
    let pages = here().join("pages");
    assert_eq!(
        process_data(COURSE, &here()),
        vec![
            Effect::Fork { task: Task::Users { url: url(), path: here().join("users.json") } },
            Effect::EnsureFolder { path: discussions.clone() },
            Effect::Fork {
                task: Task::Discussions { url: url(), announcement: false, path: discussions },
            },
            Effect::EnsureFolder { path: announcements.clone() },
            Effect::Fork {
                task: Task::Discussions { url: url(), announcement: true, path: announcements },
            },
            Effect::EnsureFolder { path: pages.clone() },
            Effect::Fork { task: Task::Pages { url: url(), path: pages } },
        ]
    );
}

#[test]
fn pages_are_recorded_and_gone_through() {
    let listed = PageResult::Listed(vec![page("intro"), page("week-1")]);
    assert_eq!(
        process_pages(COURSE, &here(), URI, "[..]".to_string(), Ok(listed)),
        vec![
            append("pages.json", "[..]"),
            Effect::EnsureFolder { path: here().join("intro") },
            Effect::Fork {
                task: Task::PageBody {
                    url: format!("{}pages/intro", COURSE),
                    title: "intro".to_string(),
                    path: here().join("intro"),
                },
            },
            Effect::EnsureFolder { path: here().join("week-1") },
            Effect::Fork {
                task: Task::PageBody {
                    url: format!("{}pages/week-1", COURSE),
                    title: "week-1".to_string(),
                    path: here().join("week-1"),
                },
            },
        ]
    );
}

#[test]
fn refused_and_unreadable_pages_are_recorded_and_reported() {
    let refused = PageResult::Denied { status: "unauthorized".to_string() };
    assert_eq!(
        process_pages(COURSE, &here(), URI, "{..}".to_string(), Ok(refused)),
        vec![append("pages.json", "{..}"), denied(Subject::Pages, "unauthorized")]
    );
    assert_eq!(
        process_pages(COURSE, &here(), URI, "??".to_string(), Err("bad json".to_string())),
        vec![append("pages.json", "??"), unreadable(Subject::Pages, URI, here())]
    );
}

#[test]
fn a_page_becomes_a_document() {
    let body = PageBody {
        page_id: 1,
        url: "intro-2".to_string(),
        title: "Introduction".to_string(),
        body: "<p>Hello</p>".to_string(),
        updated_at: "2023-01-02T03:04:05Z".to_string(),
        locked_for_user: false,
    };
    let html = "<html><head><title>Introduction</title></head><body><p>Hello</p></body></html>";
    let html = html.to_string();
    assert_eq!(
        process_page_body(COURSE, "intro", &here(), "{..}".to_string(), Ok(body)),
        vec![
            append("intro.json", "{..}"),
            Effect::CreateFile { path: here().join("intro-2.html") },
            Effect::AppendFile { path: here().join("intro-2.html"), text: html.clone() },
            Effect::Fork { task: Task::HtmlLinks { html, path: here() } },
        ]
    );
}

#[test]
fn an_unreadable_page_is_recorded_and_reported() {
    assert_eq!(
        process_page_body(
            COURSE,
            "intro",
            &here(),
            "??".to_string(),
            Err("bad json".to_string())
        ),
        vec![
            append("intro.json", "??"),
            unreadable(Subject::PageBody, COURSE, here().join("intro.json")),
        ]
    );
}

#[test]
fn users_are_recorded() {
    let path = here().join("users.json");
    assert_eq!(
        process_users(&path, "[..]".to_string()),
        vec![append("users.json", "[..]")]
    );
}

#[test]
fn attachments_are_named_by_their_numbers() {
    let named = name_attachments(vec![file(12, "a.pdf"), file(3, "a.pdf")]);
    assert_eq!(named, vec![file(12, "12_a.pdf"), file(3, "3_a.pdf")]);
    assert_ne!(named[0].display_name, named[1].display_name);
}

#[test]
fn files_are_screened() {
    assert_eq!(
        process_files(URI, &here(), Ok(FileResult::Listed(vec![file(1, "a")]))),
        vec![Effect::Screen { path: here(), files: vec![file(1, "a")] }]
    );
    let status = |status: &str| Ok(FileResult::Denied { status: status.to_string() });
    assert_eq!(process_files(URI, &here(), status("unauthorized")), vec![]);
    assert_eq!(
        process_files(URI, &here(), status("not_found")),
        vec![denied(Subject::Files, "not_found")]
    );
    assert_eq!(
        process_files(URI, &here(), Err("bad json".to_string())),
        vec![unreadable(Subject::Files, URI, here())]
    );
}

fn discussion() -> Discussion {
    Discussion {
        id: 42,
        title: "What? Why!".to_string(),
        message: "<p>Read this</p>".to_string(),
        attachments: vec![file(5, "slides.pdf")],
    }
}

#[test]
fn discussions_are_recorded_and_gone_through() {
    let place = here().join("42_What Why!");
    assert_eq!(
        process_discussions(
            COURSE,
            &here(),
            URI,
            "[..]".to_string(),
            Ok(DiscussionResult::Listed(vec![discussion()]))
        ),
        vec![
            append("discussions.json", "[..]"),
            Effect::EnsureFolder { path: place.clone() },
            Effect::Screen { path: here(), files: vec![file(5, "5_slides.pdf")] },
            Effect::Fork {
                task: Task::HtmlLinks { html: "<p>Read this</p>".to_string(), path: place.clone() },
            },
            Effect::Fork {
                task: Task::DiscussionView {
                    url: format!("{}discussion_topics/42/view", COURSE),
                    path: place,
                },
            },
        ]
    );
}

#[test]
fn discussions_are_entered_under_given_names() {
    let effects =
        enter_discussions(vec![discussion()], COURSE, &here(), &vec!["topic".to_string()]);
    assert_eq!(effects.len(), 4);
    assert_eq!(effects[0], Effect::EnsureFolder { path: here().join("42_topic") });
}

#[test]
fn refused_and_unreadable_discussions_are_recorded_and_reported() {
    let refused = DiscussionResult::Denied { status: "unauthorized".to_string() };
    assert_eq!(
        process_discussions(COURSE, &here(), URI, "{..}".to_string(), Ok(refused)),
        vec![append("discussions.json", "{..}"), denied(Subject::Discussions, "unauthorized")]
    );
    assert_eq!(
        process_discussions(COURSE, &here(), URI, "??".to_string(), Err("bad json".to_string())),
        vec![
            append("discussions.json", "??"),
            unreadable(Subject::Discussions, URI, here()),
        ]
    );
}

#[test]
fn the_entries_of_a_discussion_are_gone_through() {
    let comment = |message: Option<&str>, one: Option<File>, many: Option<Vec<File>>| Comments {
        id: 1,
        message: message.map(|m| m.to_string()),
        attachment: one,
        attachments: many,
    };
    let view = DiscussionView {
        unread_entries: vec![],
        view: vec![
            comment(Some("first"), Some(file(2, "b")), Some(vec![file(1, "a")])),
            comment(None, None, None),
            comment(Some("third"), Some(file(3, "c")), None),
        ],
    };
    let links = |html: &str| Effect::Fork {
        task: Task::HtmlLinks { html: html.to_string(), path: here() },
    };
    assert_eq!(
        process_discussion_view(COURSE, &here(), "{..}".to_string(), Ok(view)),
        vec![
            Effect::CreateFile { path: here().join("discussion.json") },
            append("discussion.json", "{..}"),
            links("first"),
            links("third"),
            Effect::Screen {
                path: here(),
                files: vec![file(1, "1_a"), file(2, "2_b"), file(3, "3_c")],
            },
        ]
    );
}

#[test]
fn unreadable_entries_are_recorded_and_reported() {
    assert_eq!(
        process_discussion_view(COURSE, &here(), "??".to_string(), Err("bad json".to_string())),
        vec![
            Effect::CreateFile { path: here().join("discussion.json") },
            append("discussion.json", "??"),
            unreadable(Subject::DiscussionView, COURSE, here()),
            Effect::Screen { path: here(), files: vec![] },
        ]
    );
}

fn rank(task: &Task) -> u32 {
    match task {
        Task::Data { .. } => 4,
        Task::Discussions { .. } | Task::Pages { .. } => 3,
        Task::DiscussionView { .. } | Task::PageBody { .. } | Task::Folders { .. } => 2,
        _ => 1,
    }
}

fn started(effects: &[Effect]) -> Vec<u32> {
    effects
        .iter()
        .filter_map(|effect| match effect {
            Effect::Fork { task } => Some(rank(task)),
            _ => None,
        })
        .collect()
}

#[test]
fn tasks_start_only_tasks_of_a_lower_rank() {
    assert_eq!(started(&process_data(COURSE, &here())), vec![1, 3, 3, 3]);
    let discussions = Ok(DiscussionResult::Listed(vec![discussion()]));
    assert_eq!(
        started(&process_discussions(COURSE, &here(), URI, String::new(), discussions)),
        vec![1, 2]
    );
    let pages = Ok(PageResult::Listed(vec![page("a")]));
    assert_eq!(started(&process_pages(COURSE, &here(), URI, String::new(), pages)), vec![2]);
}
