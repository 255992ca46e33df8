//! What each task makes of the answers of Canvas.

use vstd::prelude::*;

use crate::canvas::{
    Comments, Discussion, DiscussionResult, DiscussionView, File, FileModel, FileResult, Folder,
    FolderResult, Page, PageBody, PageResult,
};
use crate::list;
use crate::naming::is_sanitized_form;
use crate::outside::sanitize;
use crate::path::{joined, FilePath, PathModel, PathStepModel};
use crate::plan::{Effect, EffectModel, Report, ReportModel, Subject, Task, TaskModel};
use crate::text::{concat, decimal, decimal_string, law_numbered_texts_differ};

verus! {

/// How a task begins.
#[derive(Debug, PartialEq, Eq)]
pub enum Opening {
    /// By asking for every page of the answer at the address.
    AllPages(String),
    /// By asking for the answer at the address.
    One(String),
    /// Without asking for anything.
    Nothing,
}

/// How a task begins, as a mathematical value.
pub enum OpeningModel {
    AllPages(Seq<char>),
    One(Seq<char>),
    Nothing,
}

impl DeepView for Opening {
    type V = OpeningModel;

    open spec fn deep_view(&self) -> OpeningModel {
        match self {
            Opening::AllPages(url) => OpeningModel::AllPages(url@),
            Opening::One(url) => OpeningModel::One(url@),
            Opening::Nothing => OpeningModel::Nothing,
        }
    }
}

/// What is asked of Canvas about users, after the address of the course.
pub const USERS_QUERY: &'static str =
    "users?include_inactive=true&include[]=avatar_url&include[]=enrollments&include[]=email&include[]=observed_users&include[]=can_be_removed&include[]=custom_links";

/// Where the discussions, or the announcements, of the course at `url` are.
pub open spec fn discussions_address(url: Seq<char>, announcement: bool) -> Seq<char> {
    url + "discussion_topics"@ + if announcement {
        "?only_announcements=true"@
    } else {
        ""@
    }
}

/// How `task` begins.
pub open spec fn opening_of(task: TaskModel) -> OpeningModel {
    match task {
        TaskModel::Folders { url, path } => OpeningModel::AllPages(url),
        TaskModel::Data { url, path } => OpeningModel::Nothing,
        TaskModel::Users { url, path } => OpeningModel::AllPages(url + USERS_QUERY@),
        TaskModel::Discussions { url, announcement, path } => OpeningModel::AllPages(
            discussions_address(url, announcement),
        ),
        TaskModel::DiscussionView { url, path } => OpeningModel::One(url),
        TaskModel::Pages { url, path } => OpeningModel::AllPages(url + "pages"@),
        TaskModel::PageBody { url, title, path } => OpeningModel::One(url),
        TaskModel::Files { url, path } => OpeningModel::AllPages(url),
        TaskModel::HtmlLinks { html, path } => OpeningModel::Nothing,
    }
}

/// How `task` begins.
pub fn opening(task: &Task) -> (res: Opening)
    ensures
        res.deep_view() == opening_of(task.deep_view()),
{
    match task {
        Task::Folders { url, path: _ } => Opening::AllPages(url.clone()),
        Task::Data { url: _, path: _ } => Opening::Nothing,
        Task::Users { url, path: _ } => Opening::AllPages(concat(url.as_str(), USERS_QUERY)),
        Task::Discussions { url, announcement, path: _ } => {
            let topics: String = concat(url.as_str(), "discussion_topics");
            let which: &str = if *announcement {
                "?only_announcements=true"
            } else {
                ""
            };
            Opening::AllPages(concat(topics.as_str(), which))
        },
        Task::DiscussionView { url, path: _ } => Opening::One(url.clone()),
        Task::Pages { url, path: _ } => Opening::AllPages(concat(url.as_str(), "pages")),
        Task::PageBody { url, title: _, path: _ } => Opening::One(url.clone()),
        Task::Files { url, path: _ } => Opening::AllPages(url.clone()),
        Task::HtmlLinks { html: _, path: _ } => Opening::Nothing,
    }
}

/// The file that keeps the answers to `task` as they came, if one is created
/// before they are read.
pub open spec fn record_of(task: TaskModel) -> Option<PathModel> {
    match task {
        TaskModel::Users { url, path } => Some(path),
        TaskModel::Discussions { url, announcement, path } => Some(
            joined(path, "discussions.json"@),
        ),
        TaskModel::Pages { url, path } => Some(joined(path, "pages.json"@)),
        TaskModel::PageBody { url, title, path } => Some(joined(path, title + ".json"@)),
        _ => None,
    }
}

/// The file that keeps the answers to `task` as they came, if one is created
/// before they are read.
pub fn record_file(task: &Task) -> (res: Option<FilePath>)
    ensures
        res.deep_view() == record_of(task.deep_view()),
{
    match task {
        Task::Users { url: _, path } => Some(path.clone()),
        Task::Discussions { url: _, announcement: _, path } => Some(path.join("discussions.json")),
        Task::Pages { url: _, path } => Some(path.join("pages.json")),
        Task::PageBody { url: _, title, path } => Some(
            path.join(concat(title.as_str(), ".json").as_str()),
        ),
        _ => None,
    }
}

/// Creating the record file of `task`, if it has one.
pub open spec fn record_created(task: TaskModel) -> Seq<EffectModel> {
    match record_of(task) {
        Some(path) => seq![EffectModel::CreateFile { path }],
        None => Seq::empty(),
    }
}

/// Creates the record file of `task`, if it has one.
pub fn create_record(task: &Task) -> (res: Vec<Effect>)
    ensures
        res.deep_view() == record_created(task.deep_view()),
{
    let mut res: Vec<Effect> = list::empty();
    if let Some(path) = record_file(task) {
        list::push(&mut res, Effect::CreateFile { path });
    }
    res
}

/// Telling the user that Canvas answered with `status`.
pub open spec fn told_denied(
    subject: Subject,
    uri: Seq<char>,
    path: PathModel,
    status: Seq<char>,
) -> EffectModel {
    EffectModel::Tell { report: ReportModel::Denied { subject, uri, path, status } }
}

/// Telling the user that an answer cannot be read.
pub open spec fn told_unreadable(
    subject: Subject,
    uri: Seq<char>,
    path: PathModel,
    error: Seq<char>,
) -> EffectModel {
    EffectModel::Tell { report: ReportModel::Unreadable { subject, uri, path, error } }
}

/// Tells the user that Canvas answered with `status`.
fn tell_denied(subject: Subject, uri: &str, path: &FilePath, status: String) -> (res: Effect)
    ensures
        res.deep_view() == told_denied(subject, uri@, path.deep_view(), status@),
{
    Effect::Tell {
        report: Report::Denied { subject, uri: uri.to_owned(), path: path.clone(), status },
    }
}

/// Tells the user that an answer cannot be read.
fn tell_unreadable(subject: Subject, uri: &str, path: &FilePath, error: String) -> (res: Effect)
    ensures
        res.deep_view() == told_unreadable(subject, uri@, path.deep_view(), error@),
{
    Effect::Tell {
        report: Report::Unreadable { subject, uri: uri.to_owned(), path: path.clone(), error },
    }
}

/// Telling the user that a list was refused, unless it was refused because the
/// course has none: that is not worth mentioning.
pub open spec fn told_if_unexpected(
    subject: Subject,
    uri: Seq<char>,
    path: PathModel,
    status: Seq<char>,
) -> Seq<EffectModel> {
    if status == "unauthorized"@ {
        Seq::empty()
    } else {
        seq![told_denied(subject, uri, path, status)]
    }
}

/// Tells the user that a list was refused, unless the course has none.
fn tell_if_unexpected(subject: Subject, uri: &str, path: &FilePath, status: String) -> (res: Vec<
    Effect,
>)
    ensures
        res.deep_view() == told_if_unexpected(subject, uri@, path.deep_view(), status@),
{
    let mut res: Vec<Effect> = list::empty();
    let nothing_there: bool = status == "unauthorized".to_owned();
    if !nothing_there {
        list::push(&mut res, tell_denied(subject, uri, path, status));
    }
    res
}

/// Where `folder` goes below `path` under the name `name`. The root folder of a
/// course has no parent; it adds no level of its own.
pub open spec fn folder_place(folder: Folder, path: PathModel, name: Seq<char>) -> PathModel {
    if folder.parent_folder_id is Some {
        joined(path, name)
    } else {
        path
    }
}

/// Entering a folder: its files and its folders come next.
pub open spec fn folder_entered(folder: Folder, path: PathModel, name: Seq<char>) -> EffectModel {
    let place = folder_place(folder, path, name);
    EffectModel::EnterFolder {
        path: place,
        tasks: seq![
            TaskModel::Files { url: folder.files_url@, path: place },
            TaskModel::Folders { url: folder.folders_url@, path: place },
        ],
    }
}

/// Entering each of `folders` in turn.
pub open spec fn folders_entered(
    folders: Seq<Folder>,
    path: PathModel,
    names: Seq<Seq<char>>,
) -> Seq<EffectModel> {
    Seq::new(folders.len(), |i: int| folder_entered(folders[i], path, names[i]))
}

/// The sanitized names of `folders`.
pub open spec fn are_folder_names(folders: Seq<Folder>, names: Seq<Seq<char>>) -> bool {
    &&& names.len() == folders.len()
    &&& forall|i: int|
        0 <= i < folders.len() ==> is_sanitized_form(folders[i].name@, #[trigger] names[i])
}

/// The sanitized names of `folders`, in their order.
pub fn folder_names(folders: &Vec<Folder>) -> (res: Vec<String>)
    ensures
        are_folder_names(folders@, res.deep_view()),
{
    let mut names: Vec<String> = Vec::new();
    let mut i: usize = 0;
    while i < folders.len()
        invariant
            i <= folders.len(),
            names.len() == i,
            forall|k: int|
                0 <= k < i ==> is_sanitized_form(folders[k].name@, (#[trigger] names[k])@),
        decreases folders.len() - i,
    {
        names.push(sanitize(folders[i].name.as_str()));
        i += 1;
    }
    names
}

/// Enters each of `folders` below `path`, under the name that `names` gives it.
pub fn enter_folders(folders: Vec<Folder>, path: &FilePath, names: &Vec<String>) -> (res: Vec<
    Effect,
>)
    requires
        names.len() == folders.len(),
    ensures
        res.deep_view() == folders_entered(folders@, path.deep_view(), names.deep_view()),
{
    let ghost all = folders_entered(folders@, path.deep_view(), names.deep_view());
    let mut res: Vec<Effect> = list::empty();
    let mut i: usize = 0;
    for folder in it: folders
        invariant
            it.seq() == folders@,
            i == it.index(),
            names.len() == folders.len(),
            all == folders_entered(folders@, path.deep_view(), names.deep_view()),
            res.deep_view() == all.take(i as int),
    {
        assert(all.take(i + 1) == all.take(i as int).push(all[i as int]));
        let place: FilePath = if folder.parent_folder_id.is_some() {
            path.join(names[i].as_str())
        } else {
            path.clone()
        };
        let mut tasks: Vec<Task> = list::empty();
        list::push(&mut tasks, Task::Files { url: folder.files_url, path: place.clone() });
        list::push(&mut tasks, Task::Folders { url: folder.folders_url, path: place.clone() });
        assert(tasks.deep_view() == all[i as int]->EnterFolder_tasks);
        list::push(&mut res, Effect::EnterFolder { path: place, tasks });
        i += 1;
    }
    assert(all.take(i as int) == all);
    res
}

/// Whether `res` is what becomes of one page of folders.
pub open spec fn is_folders_outcome(
    uri: Seq<char>,
    path: PathModel,
    parsed: Result<FolderResult, String>,
    res: Seq<EffectModel>,
) -> bool {
    match parsed {
        Ok(FolderResult::Listed(folders)) => exists|names: Seq<Seq<char>>| #[trigger]
            are_folder_names(folders@, names) && res == folders_entered(folders@, path, names),
        Ok(FolderResult::Denied { status }) => res == told_if_unexpected(
            Subject::Folders,
            uri,
            path,
            status@,
        ),
        Err(error) => res == seq![told_unreadable(Subject::Folders, uri, path, error@)],
    }
}

/// What becomes of one page of folders, which came from `uri`.
pub fn process_folders(uri: &str, path: &FilePath, parsed: Result<FolderResult, String>) -> (res:
    Vec<Effect>)
    ensures
        is_folders_outcome(uri@, path.deep_view(), parsed, res.deep_view()),
{
    match parsed {
        Ok(FolderResult::Listed(folders)) => {
            let names: Vec<String> = folder_names(&folders);
            enter_folders(folders, path, &names)
        },
        Ok(FolderResult::Denied { status }) => tell_if_unexpected(
            Subject::Folders,
            uri,
            path,
            status,
        ),
        Err(error) => {
            let mut res: Vec<Effect> = list::empty();
            list::push(&mut res, tell_unreadable(Subject::Folders, uri, path, error));
            res
        },
    }
}

/// What becomes of a course besides its files: its users, its discussions, its
/// announcements and its pages, each but the first in a folder of its own.
pub open spec fn data_effects(url: Seq<char>, path: PathModel) -> Seq<EffectModel> {
    let discussions = joined(path, "discussions"@);
    let announcements = joined(path, "announcements"@);
    let pages = joined(path, "pages"@);
    seq![
        EffectModel::Fork { task: TaskModel::Users { url, path: joined(path, "users.json"@) } },
        EffectModel::EnsureFolder { path: discussions },
        EffectModel::Fork {
            task: TaskModel::Discussions { url, announcement: false, path: discussions },
        },
        EffectModel::EnsureFolder { path: announcements },
        EffectModel::Fork {
            task: TaskModel::Discussions { url, announcement: true, path: announcements },
        },
        EffectModel::EnsureFolder { path: pages },
        EffectModel::Fork { task: TaskModel::Pages { url, path: pages } },
    ]
}

/// What becomes of the course at `url` besides its files.
pub fn process_data(url: &str, path: &FilePath) -> (res: Vec<Effect>)
    ensures
        res.deep_view() == data_effects(url@, path.deep_view()),
{
    let mut res: Vec<Effect> = list::empty();
    let users: Task = Task::Users { url: url.to_owned(), path: path.join("users.json") };
    list::push(&mut res, Effect::Fork { task: users });
    let discussions: FilePath = path.join("discussions");
    list::push(&mut res, Effect::EnsureFolder { path: discussions.clone() });
    let task: Task = Task::Discussions {
        url: url.to_owned(),
        announcement: false,
        path: discussions,
    };
    list::push(&mut res, Effect::Fork { task });
    let announcements: FilePath = path.join("announcements");
    list::push(&mut res, Effect::EnsureFolder { path: announcements.clone() });
    let task: Task = Task::Discussions {
        url: url.to_owned(),
        announcement: true,
        path: announcements,
    };
    list::push(&mut res, Effect::Fork { task });
    let pages: FilePath = path.join("pages");
    list::push(&mut res, Effect::EnsureFolder { path: pages.clone() });
    list::push(&mut res, Effect::Fork { task: Task::Pages { url: url.to_owned(), path: pages } });
    res
}

/// Having a folder for `page`, and saving the page there.
pub open spec fn page_effects(page: Page, url: Seq<char>, path: PathModel) -> Seq<EffectModel> {
    let place = joined(path, page.url@);
    seq![
        EffectModel::EnsureFolder { path: place },
        EffectModel::Fork {
            task: TaskModel::PageBody {
                url: url + "pages/"@ + page.url@,
                title: page.url@,
                path: place,
            },
        },
    ]
}

/// What becomes of each of `pages` in turn.
pub open spec fn pages_effects(pages: Seq<Page>, url: Seq<char>, path: PathModel) -> Seq<
    EffectModel,
>
    decreases pages.len(),
{
    if pages.len() == 0 {
        Seq::empty()
    } else {
        pages_effects(pages.drop_last(), url, path) + page_effects(pages.last(), url, path)
    }
}

/// What becomes of one page of pages: it is written to the record file, then
/// every page in it is gone through.
pub open spec fn pages_outcome(
    url: Seq<char>,
    path: PathModel,
    uri: Seq<char>,
    body: Seq<char>,
    parsed: Result<PageResult, String>,
) -> Seq<EffectModel> {
    seq![EffectModel::AppendFile { path: joined(path, "pages.json"@), text: body }] + match parsed {
        Ok(PageResult::Listed(pages)) => pages_effects(pages@, url, path),
        Ok(PageResult::Denied { status }) => seq![
            told_denied(Subject::Pages, uri, path, status@),
        ],
        Err(error) => seq![told_unreadable(Subject::Pages, uri, path, error@)],
    }
}

/// What becomes of one page of the pages of the course at `url`: it came from
/// `uri`, and `body` is its text.
pub fn process_pages(
    url: &str,
    path: &FilePath,
    uri: &str,
    body: String,
    parsed: Result<PageResult, String>,
) -> (res: Vec<Effect>)
    ensures
        res.deep_view() == pages_outcome(url@, path.deep_view(), uri@, body@, parsed),
{
    let mut res: Vec<Effect> = list::empty();
    list::push(&mut res, Effect::AppendFile { path: path.join("pages.json"), text: body });
    let ghost written = res.deep_view();
    match parsed {
        Ok(PageResult::Listed(pages)) => {
            let ghost all = pages@;
            assert(written + Seq::empty() == written);
            for page in it: pages
                invariant
                    it.seq() == all,
                    res.deep_view() == written + pages_effects(
                        all.take(it.index()),
                        url@,
                        path.deep_view(),
                    ),
            {
                let ghost before = pages_effects(all.take(it.index()), url@, path.deep_view());
                assert(all.take(it.index() + 1).drop_last() == all.take(it.index()));
                let place: FilePath = path.join(page.url.as_str());
                let address: String = concat(
                    concat(url, "pages/").as_str(),
                    page.url.as_str(),
                );
                list::push(&mut res, Effect::EnsureFolder { path: place.clone() });
                list::push(
                    &mut res,
                    Effect::Fork {
                        task: Task::PageBody { url: address, title: page.url, path: place },
                    },
                );
                assert(res.deep_view() == written + (before + page_effects(
                    page,
                    url@,
                    path.deep_view(),
                )));
            }
            assert(all.take(all.len() as int) == all);
        },
        Ok(PageResult::Denied { status }) => {
            list::push(&mut res, tell_denied(Subject::Pages, uri, path, status));
            assert(res.deep_view() == pages_outcome(url@, path.deep_view(), uri@, body@, parsed));
        },
        Err(error) => {
            list::push(&mut res, tell_unreadable(Subject::Pages, uri, path, error));
            assert(res.deep_view() == pages_outcome(url@, path.deep_view(), uri@, body@, parsed));
        },
    }
    res
}

/// The document that a page is saved as.
pub open spec fn page_document(title: Seq<char>, body: Seq<char>) -> Seq<char> {
    "<html><head><title>"@ + title + "</title></head><body>"@ + body + "</body></html>"@
}

/// What becomes of a page: its answer is written to the record file, its
/// contents to a document, and the links of the document are gone through.
pub open spec fn page_body_outcome(
    url: Seq<char>,
    title: Seq<char>,
    path: PathModel,
    text: Seq<char>,
    parsed: Result<PageBody, String>,
) -> Seq<EffectModel> {
    let record = joined(path, title + ".json"@);
    seq![EffectModel::AppendFile { path: record, text }] + match parsed {
        Ok(page) => {
            let document = joined(path, page.url@ + ".html"@);
            let html = page_document(page.title@, page.body@);
            seq![
                EffectModel::CreateFile { path: document },
                EffectModel::AppendFile { path: document, text: html },
                EffectModel::Fork { task: TaskModel::HtmlLinks { html, path } },
            ]
        },
        Err(error) => seq![told_unreadable(Subject::PageBody, url, record, error@)],
    }
}

/// What becomes of the page at `url`, whose answer is `text`.
pub fn process_page_body(
    url: &str,
    title: &str,
    path: &FilePath,
    text: String,
    parsed: Result<PageBody, String>,
) -> (res: Vec<Effect>)
    ensures
        res.deep_view() == page_body_outcome(url@, title@, path.deep_view(), text@, parsed),
{
    let record: FilePath = path.join(concat(title, ".json").as_str());
    let mut res: Vec<Effect> = list::empty();
    list::push(&mut res, Effect::AppendFile { path: record.clone(), text });
    match parsed {
        Ok(page) => {
            let mut html: String = concat("<html><head><title>", page.title.as_str());
            html.append("</title></head><body>");
            html.append(page.body.as_str());
            html.append("</body></html>");
            let document: FilePath = path.join(concat(page.url.as_str(), ".html").as_str());
            list::push(&mut res, Effect::CreateFile { path: document.clone() });
            list::push(&mut res, Effect::AppendFile { path: document, text: html.clone() });
            list::push(
                &mut res,
                Effect::Fork { task: Task::HtmlLinks { html, path: path.clone() } },
            );
        },
        Err(error) => {
            list::push(&mut res, tell_unreadable(Subject::PageBody, url, &record, error));
        },
    }
    assert(res.deep_view() =~= page_body_outcome(url@, title@, path.deep_view(), text@, parsed));
    res
}

/// What becomes of one page of users: `body` is written to the file `path`.
pub fn process_users(path: &FilePath, body: String) -> (res: Vec<Effect>)
    ensures
        res.deep_view() == seq![
            EffectModel::AppendFile { path: path.deep_view(), text: body@ },
        ],
{
    let mut res: Vec<Effect> = list::empty();
    list::push(&mut res, Effect::AppendFile { path: path.clone(), text: body });
    res
}

/// `file` under a name that begins with its number.
pub open spec fn attachment(file: FileModel) -> FileModel {
    FileModel { display_name: decimal(file.id as nat) + "_"@ + file.display_name, ..file }
}

/// Each of `files` under a name that begins with its number.
pub open spec fn attachments(files: Seq<FileModel>) -> Seq<FileModel> {
    Seq::new(files.len(), |i: int| attachment(files[i]))
}

/// Gives each of `files` a name that begins with its number.
pub fn name_attachments(files: Vec<File>) -> (res: Vec<File>)
    ensures
        res.deep_view() == attachments(files.deep_view()),
{
    let ghost all = attachments(files.deep_view());
    let mut res: Vec<File> = list::empty();
    for file in it: files
        invariant
            it.seq() == files@,
            all == attachments(files.deep_view()),
            res.deep_view() == all.take(it.index()),
    {
        let mut file: File = file;
        assert(file.deep_view() == files.deep_view()[it.index()]);
        assert(all.take(it.index() + 1) == all.take(it.index()).push(all[it.index()]));
        let mut name: String = concat(decimal_string(file.id as u64).as_str(), "_");
        name.append(file.display_name.as_str());
        file.display_name = name;
        list::push(&mut res, file);
    }
    assert(all.take(all.len() as int) == all);
    res
}

/// What becomes of one page of files.
pub open spec fn files_outcome(
    uri: Seq<char>,
    path: PathModel,
    parsed: Result<FileResult, String>,
) -> Seq<EffectModel> {
    match parsed {
        Ok(FileResult::Listed(files)) => seq![
            EffectModel::Screen { path, files: files.deep_view() },
        ],
        Ok(FileResult::Denied { status }) => told_if_unexpected(Subject::Files, uri, path, status@),
        Err(error) => seq![told_unreadable(Subject::Files, uri, path, error@)],
    }
}

/// What becomes of one page of files, which came from `uri`.
pub fn process_files(uri: &str, path: &FilePath, parsed: Result<FileResult, String>) -> (res: Vec<
    Effect,
>)
    ensures
        res.deep_view() == files_outcome(uri@, path.deep_view(), parsed),
{
    let mut res: Vec<Effect> = list::empty();
    match parsed {
        Ok(FileResult::Listed(files)) => {
            list::push(&mut res, Effect::Screen { path: path.clone(), files });
            res
        },
        Ok(FileResult::Denied { status }) => tell_if_unexpected(Subject::Files, uri, path, status),
        Err(error) => {
            list::push(&mut res, tell_unreadable(Subject::Files, uri, path, error));
            res
        },
    }
}

/// The sanitized titles of `discussions`.
pub open spec fn are_discussion_names(
    discussions: Seq<Discussion>,
    names: Seq<Seq<char>>,
) -> bool {
    &&& names.len() == discussions.len()
    &&& forall|i: int|
        0 <= i < discussions.len() ==> is_sanitized_form(
            discussions[i].title@,
            #[trigger] names[i],
        )
}

/// What becomes of a discussion: it has a folder of its own, its attachments
/// are wanted in the folder of all discussions, and the links of its message
/// and its entries are gone through.
pub open spec fn discussion_effects(
    discussion: Discussion,
    url: Seq<char>,
    path: PathModel,
    name: Seq<char>,
) -> Seq<EffectModel> {
    let number = decimal(discussion.id as nat);
    let place = joined(path, number + "_"@ + name);
    seq![
        EffectModel::EnsureFolder { path: place },
        EffectModel::Screen {
            path,
            files: attachments(discussion.attachments.deep_view()),
        },
        EffectModel::Fork {
            task: TaskModel::HtmlLinks { html: discussion.message@, path: place },
        },
        EffectModel::Fork {
            task: TaskModel::DiscussionView {
                url: url + "discussion_topics/"@ + number + "/view"@,
                path: place,
            },
        },
    ]
}

/// What becomes of each of `discussions` in turn.
pub open spec fn discussions_effects(
    discussions: Seq<Discussion>,
    url: Seq<char>,
    path: PathModel,
    names: Seq<Seq<char>>,
) -> Seq<EffectModel>
    decreases discussions.len(),
{
    if discussions.len() == 0 {
        Seq::empty()
    } else {
        discussions_effects(discussions.drop_last(), url, path, names) + discussion_effects(
            discussions.last(),
            url,
            path,
            names[discussions.len() - 1],
        )
    }
}

/// The sanitized titles of `discussions`, in their order.
pub fn discussion_names(discussions: &Vec<Discussion>) -> (res: Vec<String>)
    ensures
        are_discussion_names(discussions@, res.deep_view()),
{
    let mut names: Vec<String> = Vec::new();
    let mut i: usize = 0;
    while i < discussions.len()
        invariant
            i <= discussions.len(),
            names.len() == i,
            forall|k: int|
                0 <= k < i ==> is_sanitized_form(discussions[k].title@, (#[trigger] names[k])@),
        decreases discussions.len() - i,
    {
        names.push(sanitize(discussions[i].title.as_str()));
        i += 1;
    }
    names
}

/// Goes through `discussions`, each with a folder that has its number and the
/// name that `names` gives it.
pub fn enter_discussions(
    discussions: Vec<Discussion>,
    url: &str,
    path: &FilePath,
    names: &Vec<String>,
) -> (res: Vec<Effect>)
    requires
        names.len() == discussions.len(),
    ensures
        res.deep_view() == discussions_effects(
            discussions@,
            url@,
            path.deep_view(),
            names.deep_view(),
        ),
{
    let ghost all = discussions@;
    let mut res: Vec<Effect> = list::empty();
    let mut i: usize = 0;
    for discussion in it: discussions
        invariant
            it.seq() == all,
            i == it.index(),
            all.len() == names.len(),
            res.deep_view() == discussions_effects(
                all.take(i as int),
                url@,
                path.deep_view(),
                names.deep_view(),
            ),
    {
        let ghost before = res.deep_view();
        assert(all.take(i + 1).drop_last() == all.take(i as int));
        let number: String = decimal_string(discussion.id as u64);
        let mut folder: String = concat(number.as_str(), "_");
        folder.append(names[i].as_str());
        let place: FilePath = path.join(folder.as_str());
        let mut address: String = concat(url, "discussion_topics/");
        address.append(number.as_str());
        address.append("/view");
        let files: Vec<File> = name_attachments(discussion.attachments);
        list::push(&mut res, Effect::EnsureFolder { path: place.clone() });
        list::push(&mut res, Effect::Screen { path: path.clone(), files });
        list::push(
            &mut res,
            Effect::Fork {
                task: Task::HtmlLinks { html: discussion.message, path: place.clone() },
            },
        );
        list::push(
            &mut res,
            Effect::Fork { task: Task::DiscussionView { url: address, path: place } },
        );
        assert(res.deep_view() == before + discussion_effects(
            discussion,
            url@,
            path.deep_view(),
            names.deep_view()[i as int],
        ));
        i += 1;
    }
    assert(all.take(i as int) == all);
    res
}

/// Whether `res` is what becomes of one page of discussions: it is written to
/// the record file, then every discussion in it is gone through.
pub open spec fn is_discussions_outcome(
    url: Seq<char>,
    path: PathModel,
    uri: Seq<char>,
    body: Seq<char>,
    parsed: Result<DiscussionResult, String>,
    res: Seq<EffectModel>,
) -> bool {
    let record = EffectModel::AppendFile { path: joined(path, "discussions.json"@), text: body };
    match parsed {
        Ok(DiscussionResult::Listed(discussions)) => exists|names: Seq<Seq<char>>| #[trigger]
            are_discussion_names(discussions@, names) && res == seq![record] + discussions_effects(
                discussions@,
                url,
                path,
                names,
            ),
        Ok(DiscussionResult::Denied { status }) => res == seq![record].push(
            told_denied(Subject::Discussions, uri, path, status@),
        ),
        Err(error) => res == seq![record].push(
            told_unreadable(Subject::Discussions, uri, path, error@),
        ),
    }
}

/// What becomes of one page of the discussions of the course at `url`: it came
/// from `uri`, and `body` is its text.
pub fn process_discussions(
    url: &str,
    path: &FilePath,
    uri: &str,
    body: String,
    parsed: Result<DiscussionResult, String>,
) -> (res: Vec<Effect>)
    ensures
        is_discussions_outcome(url@, path.deep_view(), uri@, body@, parsed, res.deep_view()),
{
    let mut res: Vec<Effect> = list::empty();
    list::push(&mut res, Effect::AppendFile { path: path.join("discussions.json"), text: body });
    match parsed {
        Ok(DiscussionResult::Listed(discussions)) => {
            let names: Vec<String> = discussion_names(&discussions);
            let effects: Vec<Effect> = enter_discussions(discussions, url, path, &names);
            list::append(&mut res, effects);
        },
        Ok(DiscussionResult::Denied { status }) => {
            list::push(&mut res, tell_denied(Subject::Discussions, uri, path, status));
        },
        Err(error) => {
            list::push(&mut res, tell_unreadable(Subject::Discussions, uri, path, error));
        },
    }
    res
}

/// Going through the links of every message among `comments`.
pub open spec fn messages_entered(comments: Seq<Comments>, path: PathModel) -> Seq<EffectModel>
    decreases comments.len(),
{
    if comments.len() == 0 {
        Seq::empty()
    } else {
        let before = messages_entered(comments.drop_last(), path);
        match comments.last().message {
            Some(message) => before.push(
                EffectModel::Fork { task: TaskModel::HtmlLinks { html: message@, path } },
            ),
            None => before,
        }
    }
}

/// The files that are attached to `comments`: those of each in turn, the list
/// before the single one.
pub open spec fn attached(comments: Seq<Comments>) -> Seq<FileModel>
    decreases comments.len(),
{
    if comments.len() == 0 {
        Seq::empty()
    } else {
        let listed = match comments.last().attachments {
            Some(files) => attached(comments.drop_last()) + files.deep_view(),
            None => attached(comments.drop_last()),
        };
        match comments.last().attachment {
            Some(file) => listed.push(file.deep_view()),
            None => listed,
        }
    }
}

/// What becomes of the entries of a discussion: the answer is written to a file,
/// the links of every message are gone through, and all attachments are wanted.
pub open spec fn discussion_view_outcome(
    url: Seq<char>,
    path: PathModel,
    body: Seq<char>,
    parsed: Result<DiscussionView, String>,
) -> Seq<EffectModel> {
    let record = joined(path, "discussion.json"@);
    let written = seq![
        EffectModel::CreateFile { path: record },
        EffectModel::AppendFile { path: record, text: body },
    ];
    match parsed {
        Ok(discussion) => (written + messages_entered(discussion.view@, path)).push(
            EffectModel::Screen { path, files: attachments(attached(discussion.view@)) },
        ),
        Err(error) => written.push(
            told_unreadable(Subject::DiscussionView, url, path, error@),
        ).push(EffectModel::Screen { path, files: Seq::empty() }),
    }
}

/// What becomes of the entries of the discussion at `url`, whose answer is
/// `body`.
pub fn process_discussion_view(
    url: &str,
    path: &FilePath,
    body: String,
    parsed: Result<DiscussionView, String>,
) -> (res: Vec<Effect>)
    ensures
        res.deep_view() == discussion_view_outcome(url@, path.deep_view(), body@, parsed),
{
    let record: FilePath = path.join("discussion.json");
    let mut res: Vec<Effect> = list::empty();
    list::push(&mut res, Effect::CreateFile { path: record.clone() });
    list::push(&mut res, Effect::AppendFile { path: record, text: body });
    let ghost written = res.deep_view();
    let mut attachments_all: Vec<File> = list::empty();
    match parsed {
        Ok(discussion) => {
            let ghost all = discussion.view@;
            assert(written + Seq::empty() == written);
            for comment in it: discussion.view
                invariant
                    it.seq() == all,
                    res.deep_view() == written + messages_entered(
                        all.take(it.index()),
                        path.deep_view(),
                    ),
                    attachments_all.deep_view() == attached(all.take(it.index())),
            {
                assert(all.take(it.index() + 1).drop_last() == all.take(it.index()));
                assert(all.take(it.index() + 1).last() == comment);
                let ghost before = messages_entered(all.take(it.index()), path.deep_view());
                if let Some(message) = comment.message {
                    let task: Task = Task::HtmlLinks { html: message, path: path.clone() };
                    let ghost fork = EffectModel::Fork { task: task.deep_view() };
                    list::push(&mut res, Effect::Fork { task });
                    assert(res.deep_view() == written + before.push(fork));
                }
                if let Some(files) = comment.attachments {
                    list::append(&mut attachments_all, files);
                }
                if let Some(file) = comment.attachment {
                    list::push(&mut attachments_all, file);
                }
            }
            assert(all.take(all.len() as int) == all);
        },
        Err(error) => {
            list::push(&mut res, tell_unreadable(Subject::DiscussionView, url, path, error));
        },
    }
    let files: Vec<File> = name_attachments(attachments_all);
    proof {
        if parsed is Err {
            assert(files.deep_view() == Seq::<FileModel>::empty());
        }
    }
    list::push(&mut res, Effect::Screen { path: path.clone(), files });
    res
}

/// Two attachments with different numbers have different names, also where both
/// have one name on Canvas.
pub proof fn law_attachments_do_not_meet(a: FileModel, b: FileModel)
    requires
        a.id != b.id,
    ensures
        attachment(a).display_name != attachment(b).display_name,
{
    reveal_strlit("_");
    law_numbered_texts_differ(a.id as nat, b.id as nat, '_', a.display_name, b.display_name);
    assert(decimal(a.id as nat) + "_"@ =~= decimal(a.id as nat).push('_'));
    assert(decimal(b.id as nat) + "_"@ =~= decimal(b.id as nat).push('_'));
}

/// Where each task begins, and which file keeps its answers.
pub proof fn law_tasks_begin(
    url: Seq<char>,
    title: Seq<char>,
    html: Seq<char>,
    path: PathModel,
    announcement: bool,
)
    ensures
        opening_of(TaskModel::Folders { url, path }) == OpeningModel::AllPages(url),
        opening_of(TaskModel::Files { url, path }) == OpeningModel::AllPages(url),
        opening_of(TaskModel::Data { url, path }) == OpeningModel::Nothing,
        opening_of(TaskModel::HtmlLinks { html, path }) == OpeningModel::Nothing,
        opening_of(TaskModel::PageBody { url, title, path }) == OpeningModel::One(url),
        opening_of(TaskModel::DiscussionView { url, path }) == OpeningModel::One(url),
        opening_of(TaskModel::Pages { url, path }) == OpeningModel::AllPages(url + "pages"@),
        opening_of(TaskModel::Discussions { url, announcement: false, path })
            == OpeningModel::AllPages(url + "discussion_topics"@),
        opening_of(TaskModel::Discussions { url, announcement: true, path })
            == OpeningModel::AllPages(
            url + "discussion_topics"@ + "?only_announcements=true"@,
        ),
        opening_of(TaskModel::Users { url, path }) == OpeningModel::AllPages(
            url
                + "users?include_inactive=true&include[]=avatar_url&include[]=enrollments&include[]=email&include[]=observed_users&include[]=can_be_removed&include[]=custom_links"@,
        ),
        record_of(TaskModel::Users { url, path }) == Some(path),
        record_of(TaskModel::Discussions { url, announcement, path }) == Some(
            path.push(PathStepModel::Join("discussions.json"@)),
        ),
        record_of(TaskModel::Pages { url, path }) == Some(
            path.push(PathStepModel::Join("pages.json"@)),
        ),
        record_of(TaskModel::PageBody { url, title, path }) == Some(
            path.push(PathStepModel::Join(title + ".json"@)),
        ),
        record_of(TaskModel::Folders { url, path }) is None,
        record_of(TaskModel::Files { url, path }) is None,
        record_of(TaskModel::Data { url, path }) is None,
        record_of(TaskModel::HtmlLinks { html, path }) is None,
        record_of(TaskModel::DiscussionView { url, path }) is None,
{
    reveal_strlit("");
    assert(url + "discussion_topics"@ + ""@ =~= url + "discussion_topics"@);
}

/// A record file is created exactly for those tasks that have one.
pub proof fn law_record_is_created(task: TaskModel)
    ensures
        record_of(task) is None ==> record_created(task) == Seq::<EffectModel>::empty(),
        record_of(task) matches Some(path) ==> record_created(task).len() == 1
            && record_created(task)[0] == (EffectModel::CreateFile { path }),
{
}

/// Every folder of a page of folders is entered, in its order: its files and its
/// folders are gone through in it. It lies below the path under a sanitized form
/// of its name if it has a parent, and is the path itself if not.
pub proof fn law_every_folder_is_entered(
    uri: Seq<char>,
    path: PathModel,
    folders: Vec<Folder>,
    res: Seq<EffectModel>,
    i: int,
)
    requires
        is_folders_outcome(uri, path, Ok(FolderResult::Listed(folders)), res),
        0 <= i < folders@.len(),
    ensures
        res.len() == folders@.len(),
        res[i] matches EffectModel::EnterFolder { path: place, tasks } && {
            &&& tasks.len() == 2
            &&& tasks[0] == (TaskModel::Files { url: folders@[i].files_url@, path: place })
            &&& tasks[1] == (TaskModel::Folders { url: folders@[i].folders_url@, path: place })
            &&& folders@[i].parent_folder_id is None ==> place == path
            &&& folders@[i].parent_folder_id is Some ==> exists|name: Seq<char>|
                is_sanitized_form(folders@[i].name@, name) && place == #[trigger] path.push(
                    PathStepModel::Join(name),
                )
        },
{
    let names = choose|names: Seq<Seq<char>>| #[trigger]
        are_folder_names(folders@, names) && res == folders_entered(folders@, path, names);
    assert(is_sanitized_form(folders@[i].name@, names[i]));
    assert(res[i] == folder_entered(folders@[i], path, names[i]));
    if folders@[i].parent_folder_id is Some {
        assert(res[i]->EnterFolder_path == path.push(PathStepModel::Join(names[i])));
    }
}

/// A list of folders or files that is refused is told with its status, unless that
/// is `unauthorized`; one that cannot be read is told with the reason. Nothing else
/// comes of either.
pub proof fn law_refused_lists_are_told(
    uri: Seq<char>,
    path: PathModel,
    status: String,
    error: String,
    refused: Seq<EffectModel>,
    unread: Seq<EffectModel>,
)
    requires
        is_folders_outcome(uri, path, Ok(FolderResult::Denied { status }), refused),
        is_folders_outcome(uri, path, Err(error), unread),
    ensures
        status@ == "unauthorized"@ ==> refused == Seq::<EffectModel>::empty() && files_outcome(
            uri,
            path,
            Ok(FileResult::Denied { status }),
        ) == Seq::<EffectModel>::empty(),
        status@ != "unauthorized"@ ==> {
            let files = files_outcome(uri, path, Ok(FileResult::Denied { status }));
            &&& refused.len() == 1
            &&& refused[0] == (EffectModel::Tell {
                report: ReportModel::Denied {
                    subject: Subject::Folders,
                    uri,
                    path,
                    status: status@,
                },
            })
            &&& files.len() == 1
            &&& files[0] == (EffectModel::Tell {
                report: ReportModel::Denied { subject: Subject::Files, uri, path, status: status@ },
            })
        },
        unread.len() == 1,
        unread[0] == (EffectModel::Tell {
            report: ReportModel::Unreadable {
                subject: Subject::Folders,
                uri,
                path,
                error: error@,
            },
        }),
        files_outcome(uri, path, Err(error)).len() == 1,
        files_outcome(uri, path, Err(error))[0] == (EffectModel::Tell {
            report: ReportModel::Unreadable { subject: Subject::Files, uri, path, error: error@ },
        }),
{
}

/// A page of files is screened for its folder, with every file in it.
pub proof fn law_listed_files_are_screened(uri: Seq<char>, path: PathModel, files: Vec<File>)
    ensures
        ({
            let res = files_outcome(uri, path, Ok(FileResult::Listed(files)));
            &&& res.len() == 1
            &&& res[0] == (EffectModel::Screen { path, files: files.deep_view() })
        }),
{
}

/// The data of a course are its users, its discussions, its announcements and its
/// pages. Each of the last three has a folder, which is there before its task
/// starts.
pub proof fn law_data_of_a_course(url: Seq<char>, path: PathModel)
    ensures
        ({
            let res = data_effects(url, path);
            let discussions = path.push(PathStepModel::Join("discussions"@));
            let announcements = path.push(PathStepModel::Join("announcements"@));
            let pages = path.push(PathStepModel::Join("pages"@));
            let users = path.push(PathStepModel::Join("users.json"@));
            &&& res.len() == 7
            &&& res.contains(EffectModel::Fork { task: TaskModel::Users { url, path: users } })
            &&& exists|i: int|
                0 <= i < 6 && #[trigger] res[i] == (EffectModel::EnsureFolder { path: discussions })
                    && res[i + 1] == (EffectModel::Fork {
                    task: TaskModel::Discussions { url, announcement: false, path: discussions },
                })
            &&& exists|i: int|
                0 <= i < 6 && #[trigger] res[i] == (EffectModel::EnsureFolder {
                    path: announcements,
                }) && res[i + 1] == (EffectModel::Fork {
                    task: TaskModel::Discussions { url, announcement: true, path: announcements },
                })
            &&& exists|i: int|
                0 <= i < 6 && #[trigger] res[i] == (EffectModel::EnsureFolder { path: pages })
                    && res[i + 1] == (EffectModel::Fork { task: TaskModel::Pages { url, path: pages }
                })
        }),
{
    let res = data_effects(url, path);
    assert(res[0] is Fork);
    assert(res[1] is EnsureFolder);
    assert(res[3] is EnsureFolder);
    assert(res[5] is EnsureFolder);
    assert(res[2] is Fork);
    assert(res[4] is Fork);
    assert(res[6] is Fork);
}

proof fn lemma_pages_at(pages: Seq<Page>, url: Seq<char>, path: PathModel, i: int)
    requires
        0 <= i < pages.len(),
    ensures
        pages_effects(pages, url, path).len() == 2 * pages.len(),
        pages_effects(pages, url, path)[2 * i] == page_effects(pages[i], url, path)[0],
        pages_effects(pages, url, path)[2 * i + 1] == page_effects(pages[i], url, path)[1],
    decreases pages.len(),
{
    let rest = pages.drop_last();
    if rest.len() > 0 {
        if i < rest.len() {
            lemma_pages_at(rest, url, path, i);
        } else {
            lemma_pages_at(rest, url, path, 0);
        }
    } else {
        assert(pages_effects(rest, url, path) =~= Seq::<EffectModel>::empty());
    }
}

/// A page of pages is written to `pages.json`. Then every page in it has a folder
/// of its own, and is saved there, from its address below that of the course.
pub proof fn law_every_page_is_saved(
    url: Seq<char>,
    path: PathModel,
    uri: Seq<char>,
    body: Seq<char>,
    pages: Vec<Page>,
    i: int,
)
    requires
        0 <= i < pages@.len(),
    ensures
        ({
            let res = pages_outcome(url, path, uri, body, Ok(PageResult::Listed(pages)));
            let place = path.push(PathStepModel::Join(pages@[i].url@));
            &&& res.len() == 1 + 2 * pages@.len()
            &&& res[0] == (EffectModel::AppendFile {
                path: path.push(PathStepModel::Join("pages.json"@)),
                text: body,
            })
            &&& res[1 + 2 * i] == (EffectModel::EnsureFolder { path: place })
            &&& res[2 + 2 * i] == (EffectModel::Fork {
                task: TaskModel::PageBody {
                    url: url + "pages/"@ + pages@[i].url@,
                    title: pages@[i].url@,
                    path: place,
                },
            })
        }),
{
    lemma_pages_at(pages@, url, path, i);
}

/// Pages and discussions that are refused or cannot be read are written to their
/// record file all the same, and told, whatever the status.
pub proof fn law_other_answers_are_recorded(
    url: Seq<char>,
    path: PathModel,
    uri: Seq<char>,
    body: Seq<char>,
    status: String,
    error: String,
    refused: Seq<EffectModel>,
    unread: Seq<EffectModel>,
)
    requires
        is_discussions_outcome(
            url,
            path,
            uri,
            body,
            Ok(DiscussionResult::Denied { status }),
            refused,
        ),
        is_discussions_outcome(url, path, uri, body, Err(error), unread),
    ensures
        ({
            let pages = EffectModel::AppendFile {
                path: path.push(PathStepModel::Join("pages.json"@)),
                text: body,
            };
            let discussions = EffectModel::AppendFile {
                path: path.push(PathStepModel::Join("discussions.json"@)),
                text: body,
            };
            &&& pages_outcome(url, path, uri, body, Ok(PageResult::Denied { status })) =~= seq![
                pages,
                EffectModel::Tell {
                    report: ReportModel::Denied {
                        subject: Subject::Pages,
                        uri,
                        path,
                        status: status@,
                    },
                },
            ]
            &&& pages_outcome(url, path, uri, body, Err(error)) =~= seq![
                pages,
                EffectModel::Tell {
                    report: ReportModel::Unreadable {
                        subject: Subject::Pages,
                        uri,
                        path,
                        error: error@,
                    },
                },
            ]
            &&& refused =~= seq![
                discussions,
                EffectModel::Tell {
                    report: ReportModel::Denied {
                        subject: Subject::Discussions,
                        uri,
                        path,
                        status: status@,
                    },
                },
            ]
            &&& unread =~= seq![
                discussions,
                EffectModel::Tell {
                    report: ReportModel::Unreadable {
                        subject: Subject::Discussions,
                        uri,
                        path,
                        error: error@,
                    },
                },
            ]
        }),
{
}

/// A page that can be read is saved, whatever address it is listed with. Its answer
/// is written to the record file. A document with its title and its body is
/// created under the address that it gives itself, and written. The links of that
/// same document are gone through, in the same folder.
pub proof fn law_page_is_saved(
    url: Seq<char>,
    title: Seq<char>,
    path: PathModel,
    text: Seq<char>,
    page: PageBody,
)
    ensures
        ({
            let res = page_body_outcome(url, title, path, text, Ok(page));
            let document = path.push(PathStepModel::Join(page.url@ + ".html"@));
            let html = "<html><head><title>"@ + page.title@ + "</title></head><body>"@ + page.body@
                + "</body></html>"@;
            &&& res.len() == 4
            &&& res[0] == (EffectModel::AppendFile {
                path: path.push(PathStepModel::Join(title + ".json"@)),
                text,
            })
            &&& res[1] == (EffectModel::CreateFile { path: document })
            &&& res[2] == (EffectModel::AppendFile { path: document, text: html })
            &&& res[3] == (EffectModel::Fork { task: TaskModel::HtmlLinks { html, path } })
        }),
{
}

/// A page that cannot be read is written to the record file, and told.
pub proof fn law_unreadable_page_is_told(
    url: Seq<char>,
    title: Seq<char>,
    path: PathModel,
    text: Seq<char>,
    error: String,
)
    ensures
        ({
            let res = page_body_outcome(url, title, path, text, Err(error));
            let record = path.push(PathStepModel::Join(title + ".json"@));
            &&& res.len() == 2
            &&& res[0] == (EffectModel::AppendFile { path: record, text })
            &&& res[1] == (EffectModel::Tell {
                report: ReportModel::Unreadable {
                    subject: Subject::PageBody,
                    uri: url,
                    path: record,
                    error: error@,
                },
            })
        }),
{
}

/// An attachment has its number and an underscore before its name, and is otherwise
/// as it was; none is lost.
pub proof fn law_attachments_are_numbered(files: Seq<FileModel>, i: int)
    requires
        0 <= i < files.len(),
    ensures
        attachments(files).len() == files.len(),
        ({
            let file = attachments(files)[i];
            &&& file.display_name == decimal(files[i].id as nat) + "_"@ + files[i].display_name
            &&& file.id == files[i].id && file.folder_id == files[i].folder_id
            &&& file.size == files[i].size && file.url == files[i].url
            &&& file.updated_at == files[i].updated_at
            &&& file.locked_for_user == files[i].locked_for_user
            &&& file.filepath == files[i].filepath
        }),
{
}

proof fn lemma_discussions_at(
    discussions: Seq<Discussion>,
    url: Seq<char>,
    path: PathModel,
    names: Seq<Seq<char>>,
    i: int,
    k: int,
)
    requires
        0 <= i < discussions.len(),
        0 <= k < 4,
    ensures
        discussions_effects(discussions, url, path, names).len() == 4 * discussions.len(),
        discussions_effects(discussions, url, path, names)[4 * i + k] == discussion_effects(
            discussions[i],
            url,
            path,
            names[i],
        )[k],
    decreases discussions.len(),
{
    let rest = discussions.drop_last();
    if rest.len() > 0 {
        if i < rest.len() {
            lemma_discussions_at(rest, url, path, names, i, k);
        } else {
            lemma_discussions_at(rest, url, path, names, 0, k);
        }
    } else {
        assert(discussions_effects(rest, url, path, names) =~= Seq::<EffectModel>::empty());
    }
}

/// A page of discussions is written to `discussions.json`. Then every discussion in
/// it has a folder with its number and a sanitized form of its title; all its
/// attachments are screened, numbered; and the links of its message and its entries
/// are gone through in its folder.
pub proof fn law_every_discussion_is_gone_through(
    url: Seq<char>,
    path: PathModel,
    uri: Seq<char>,
    body: Seq<char>,
    discussions: Vec<Discussion>,
    res: Seq<EffectModel>,
    i: int,
)
    requires
        is_discussions_outcome(
            url,
            path,
            uri,
            body,
            Ok(DiscussionResult::Listed(discussions)),
            res,
        ),
        0 <= i < discussions@.len(),
    ensures
        res.len() == 1 + 4 * discussions@.len(),
        res[0] == (EffectModel::AppendFile {
            path: path.push(PathStepModel::Join("discussions.json"@)),
            text: body,
        }),
        ({
            let discussion = discussions@[i];
            let number = decimal(discussion.id as nat);
            &&& res[1 + 4 * i] matches EffectModel::EnsureFolder { path: place }
            &&& exists|name: Seq<char>|
                is_sanitized_form(discussion.title@, name) && place == #[trigger] path.push(
                    PathStepModel::Join(number + "_"@ + name),
                )
            &&& res[2 + 4 * i] == (EffectModel::Screen {
                path,
                files: attachments(discussion.attachments.deep_view()),
            })
            &&& res[3 + 4 * i] == (EffectModel::Fork {
                task: TaskModel::HtmlLinks { html: discussion.message@, path: place },
            })
            &&& res[4 + 4 * i] == (EffectModel::Fork {
                task: TaskModel::DiscussionView {
                    url: url + "discussion_topics/"@ + number + "/view"@,
                    path: place,
                },
            })
        }),
{
    let record = EffectModel::AppendFile { path: joined(path, "discussions.json"@), text: body };
    let names = choose|names: Seq<Seq<char>>| #[trigger]
        are_discussion_names(discussions@, names) && res == seq![record] + discussions_effects(
            discussions@,
            url,
            path,
            names,
        );
    lemma_discussions_at(discussions@, url, path, names, i, 0);
    lemma_discussions_at(discussions@, url, path, names, i, 1);
    lemma_discussions_at(discussions@, url, path, names, i, 2);
    lemma_discussions_at(discussions@, url, path, names, i, 3);
    let name = names[i];
    assert(is_sanitized_form(discussions@[i].title@, name));
    let number = decimal(discussions@[i].id as nat);
    assert(res[1 + 4 * i]->EnsureFolder_path == path.push(
        PathStepModel::Join(number + "_"@ + name),
    ));
}

/// Entries of a discussion are gone through one by one: a message has its links gone
/// through, the attachments that are listed come before the single one, and what an
/// entry does not have leaves no trace.
pub proof fn law_entries_one_by_one(comments: Seq<Comments>, path: PathModel, comment: Comments)
    ensures
        messages_entered(Seq::empty(), path) == Seq::<EffectModel>::empty(),
        attached(Seq::empty()) == Seq::<FileModel>::empty(),
        comment.message is None ==> messages_entered(comments.push(comment), path)
            == messages_entered(comments, path),
        comment.message matches Some(message) ==> messages_entered(comments.push(comment), path)
            == messages_entered(comments, path).push(
            EffectModel::Fork { task: TaskModel::HtmlLinks { html: message@, path } },
        ),
        ({
            let listed = match comment.attachments {
                Some(files) => files.deep_view(),
                None => Seq::empty(),
            };
            let single = match comment.attachment {
                Some(file) => seq![file.deep_view()],
                None => Seq::empty(),
            };
            attached(comments.push(comment)) == attached(comments) + listed + single
        }),
{
    assert(comments.push(comment).drop_last() =~= comments);
    let listed = match comment.attachments {
        Some(files) => files.deep_view(),
        None => Seq::empty(),
    };
    let single = match comment.attachment {
        Some(file) => seq![file.deep_view()],
        None => Seq::empty(),
    };
    assert(attached(comments.push(comment)) =~= attached(comments) + listed + single);
}

proof fn lemma_message_is_entered(comments: Seq<Comments>, path: PathModel, i: int)
    requires
        0 <= i < comments.len(),
    ensures
        comments[i].message matches Some(message) ==> messages_entered(comments, path).contains(
            EffectModel::Fork { task: TaskModel::HtmlLinks { html: message@, path } },
        ),
    decreases comments.len(),
{
    if comments[i].message is Some {
        let all = messages_entered(comments, path);
        let before = messages_entered(comments.drop_last(), path);
        let fork = EffectModel::Fork {
            task: TaskModel::HtmlLinks { html: comments[i].message->0@, path },
        };
        if i < comments.len() - 1 {
            lemma_message_is_entered(comments.drop_last(), path, i);
            let k = choose|k: int| 0 <= k < before.len() && before[k] == fork;
            assert(all[k] == fork);
        } else {
            assert(all.last() == fork);
        }
    }
}

proof fn lemma_file_is_attached(comments: Seq<Comments>, i: int, file: FileModel)
    requires
        0 <= i < comments.len(),
        (comments[i].attachment matches Some(one) && one.deep_view() == file) || (
        comments[i].attachments matches Some(many) && many.deep_view().contains(file)),
    ensures
        attached(comments).contains(file),
    decreases comments.len(),
{
    let all = attached(comments);
    let before = attached(comments.drop_last());
    if i < comments.len() - 1 {
        lemma_file_is_attached(comments.drop_last(), i, file);
        let k = choose|k: int| 0 <= k < before.len() && before[k] == file;
        assert(all[k] == file);
    } else {
        if comments[i].attachment matches Some(one) && one.deep_view() == file {
            assert(all.last() == file);
        } else {
            let many = comments[i].attachments->0.deep_view();
            let k = choose|k: int| 0 <= k < many.len() && many[k] == file;
            assert(all[before.len() + k] == file);
        }
    }
}

/// The entries of a discussion that can be read are written to `discussion.json`.
/// The links of every message in them are gone through, and all attachments of
/// all of them are screened, numbered, at the end.
pub proof fn law_every_entry_is_gone_through(
    url: Seq<char>,
    path: PathModel,
    body: Seq<char>,
    discussion: DiscussionView,
    i: int,
    file: FileModel,
)
    requires
        0 <= i < discussion.view@.len(),
    ensures
        ({
            let res = discussion_view_outcome(url, path, body, Ok(discussion));
            let record = path.push(PathStepModel::Join("discussion.json"@));
            let comment = discussion.view@[i];
            &&& res.len() >= 3
            &&& res[0] == (EffectModel::CreateFile { path: record })
            &&& res[1] == (EffectModel::AppendFile { path: record, text: body })
            &&& comment.message matches Some(message) ==> res.contains(
                EffectModel::Fork { task: TaskModel::HtmlLinks { html: message@, path } },
            )
            &&& res.last() == (EffectModel::Screen {
                path,
                files: attachments(attached(discussion.view@)),
            })
            &&& (comment.attachment matches Some(one) && one.deep_view() == file) || (
            comment.attachments matches Some(many) && many.deep_view().contains(file))
                ==> attached(discussion.view@).contains(file)
        }),
{
    let res = discussion_view_outcome(url, path, body, Ok(discussion));
    let entered = messages_entered(discussion.view@, path);
    let comment = discussion.view@[i];
    if comment.message is Some {
        lemma_message_is_entered(discussion.view@, path, i);
        let fork = EffectModel::Fork {
            task: TaskModel::HtmlLinks { html: comment.message->0@, path },
        };
        let k = choose|k: int| 0 <= k < entered.len() && entered[k] == fork;
        assert(res[2 + k] == fork);
    }
    if (comment.attachment matches Some(one) && one.deep_view() == file) || (
    comment.attachments matches Some(many) && many.deep_view().contains(file)) {
        lemma_file_is_attached(discussion.view@, i, file);
    }
}

/// Entries that cannot be read are written to `discussion.json` and told, and nothing
/// is screened.
pub proof fn law_unreadable_entries_are_told(
    url: Seq<char>,
    path: PathModel,
    body: Seq<char>,
    error: String,
)
    ensures
        ({
            let res = discussion_view_outcome(url, path, body, Err(error));
            let record = path.push(PathStepModel::Join("discussion.json"@));
            &&& res.len() == 4
            &&& res[0] == (EffectModel::CreateFile { path: record })
            &&& res[1] == (EffectModel::AppendFile { path: record, text: body })
            &&& res[2] == (EffectModel::Tell {
                report: ReportModel::Unreadable {
                    subject: Subject::DiscussionView,
                    uri: url,
                    path,
                    error: error@,
                },
            })
            &&& res[3] matches EffectModel::Screen { path: place, files }
            &&& place == path
            &&& files.len() == 0
        }),
{
}

} // verus!
