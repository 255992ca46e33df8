//! What there is to do: the tasks of a run, and the effects that a task asks
//! for.

use vstd::prelude::*;

use crate::canvas::{File, FileModel};
use crate::path::{FilePath, PathModel};

verus! {

/// A task of a run.
#[derive(Debug, PartialEq, Eq)]
pub enum Task {
    /// Go through the folders that are listed at `url`.
    Folders { url: String, path: FilePath },
    /// Go through everything else that the course at `url` has.
    Data { url: String, path: FilePath },
    /// Save the users of the course at `url`.
    Users { url: String, path: FilePath },
    /// Go through the discussions, or the announcements, of the course at `url`.
    Discussions { url: String, announcement: bool, path: FilePath },
    /// Go through the entries of the discussion at `url`.
    DiscussionView { url: String, path: FilePath },
    /// Go through the pages of the course at `url`.
    Pages { url: String, path: FilePath },
    /// Save the page at `url`.
    PageBody { url: String, title: String, path: FilePath },
    /// Go through the files that are listed at `url`.
    Files { url: String, path: FilePath },
    /// Go through the files and images that `html` links to.
    HtmlLinks { html: String, path: FilePath },
}

/// A task as a mathematical value.
pub enum TaskModel {
    Folders { url: Seq<char>, path: PathModel },
    Data { url: Seq<char>, path: PathModel },
    Users { url: Seq<char>, path: PathModel },
    Discussions { url: Seq<char>, announcement: bool, path: PathModel },
    DiscussionView { url: Seq<char>, path: PathModel },
    Pages { url: Seq<char>, path: PathModel },
    PageBody { url: Seq<char>, title: Seq<char>, path: PathModel },
    Files { url: Seq<char>, path: PathModel },
    HtmlLinks { html: Seq<char>, path: PathModel },
}

impl DeepView for Task {
    type V = TaskModel;

    open spec fn deep_view(&self) -> TaskModel {
        match self {
            Task::Folders { url, path } => TaskModel::Folders { url: url@, path: path.deep_view() },
            Task::Data { url, path } => TaskModel::Data { url: url@, path: path.deep_view() },
            Task::Users { url, path } => TaskModel::Users { url: url@, path: path.deep_view() },
            Task::Discussions { url, announcement, path } => TaskModel::Discussions {
                url: url@,
                announcement: *announcement,
                path: path.deep_view(),
            },
            Task::DiscussionView { url, path } => TaskModel::DiscussionView {
                url: url@,
                path: path.deep_view(),
            },
            Task::Pages { url, path } => TaskModel::Pages { url: url@, path: path.deep_view() },
            Task::PageBody { url, title, path } => TaskModel::PageBody {
                url: url@,
                title: title@,
                path: path.deep_view(),
            },
            Task::Files { url, path } => TaskModel::Files { url: url@, path: path.deep_view() },
            Task::HtmlLinks { html, path } => TaskModel::HtmlLinks {
                html: html@,
                path: path.deep_view(),
            },
        }
    }
}

/// What was asked for when something went wrong.
#[derive(Clone, Copy, Debug, PartialEq, Eq)]
pub enum Subject {
    Folders,
    Files,
    Pages,
    PageBody,
    Discussions,
    DiscussionView,
    FileInfo,
}

/// What the user is told.
#[derive(Debug, PartialEq, Eq)]
pub enum Report {
    /// Canvas answered with a status in place of a list.
    Denied { subject: Subject, uri: String, path: FilePath, status: String },
    /// The answer of Canvas cannot be read.
    Unreadable { subject: Subject, uri: String, path: FilePath, error: String },
    /// A folder cannot be created.
    FolderNotCreated { path: FilePath, error: String },
    /// The time of the last change of a file cannot be read.
    BadTimestamp { display_name: String, updated_at: String },
    /// The file on disk is older than the one on Canvas.
    UpdateFound { path: FilePath },
}

/// A report as a mathematical value.
pub enum ReportModel {
    Denied { subject: Subject, uri: Seq<char>, path: PathModel, status: Seq<char> },
    Unreadable { subject: Subject, uri: Seq<char>, path: PathModel, error: Seq<char> },
    FolderNotCreated { path: PathModel, error: Seq<char> },
    BadTimestamp { display_name: Seq<char>, updated_at: Seq<char> },
    UpdateFound { path: PathModel },
}

impl DeepView for Report {
    type V = ReportModel;

    open spec fn deep_view(&self) -> ReportModel {
        match self {
            Report::Denied { subject, uri, path, status } => ReportModel::Denied {
                subject: *subject,
                uri: uri@,
                path: path.deep_view(),
                status: status@,
            },
            Report::Unreadable { subject, uri, path, error } => ReportModel::Unreadable {
                subject: *subject,
                uri: uri@,
                path: path.deep_view(),
                error: error@,
            },
            Report::FolderNotCreated { path, error } => ReportModel::FolderNotCreated {
                path: path.deep_view(),
                error: error@,
            },
            Report::BadTimestamp { display_name, updated_at } => ReportModel::BadTimestamp {
                display_name: display_name@,
                updated_at: updated_at@,
            },
            Report::UpdateFound { path } => ReportModel::UpdateFound { path: path.deep_view() },
        }
    }
}

/// Something that a task asks for.
#[derive(Debug, PartialEq, Eq)]
pub enum Effect {
    /// Have the folder `path`. If it cannot be had, the task fails.
    EnsureFolder { path: FilePath },
    /// Have the folder `path` and start the tasks. If it cannot be had, report
    /// that and start none of them.
    EnterFolder { path: FilePath, tasks: Vec<Task> },
    /// Create the file `path`, empty. If that fails, the task fails.
    CreateFile { path: FilePath },
    /// Write `text` at the end of the file `path`. If that fails, the task fails.
    AppendFile { path: FilePath, text: String },
    /// Start a task.
    Fork { task: Task },
    /// Queue those of `files` for download that are wanted in the folder `path`.
    Screen { path: FilePath, files: Vec<File> },
    /// Queue `files` for download.
    Queue { files: Vec<File> },
    /// Tell the user.
    Tell { report: Report },
}

/// An effect as a mathematical value.
pub enum EffectModel {
    EnsureFolder { path: PathModel },
    EnterFolder { path: PathModel, tasks: Seq<TaskModel> },
    CreateFile { path: PathModel },
    AppendFile { path: PathModel, text: Seq<char> },
    Fork { task: TaskModel },
    Screen { path: PathModel, files: Seq<FileModel> },
    Queue { files: Seq<FileModel> },
    Tell { report: ReportModel },
}

impl DeepView for Effect {
    type V = EffectModel;

    open spec fn deep_view(&self) -> EffectModel {
        match self {
            Effect::EnsureFolder { path } => EffectModel::EnsureFolder { path: path.deep_view() },
            Effect::EnterFolder { path, tasks } => EffectModel::EnterFolder {
                path: path.deep_view(),
                tasks: tasks.deep_view(),
            },
            Effect::CreateFile { path } => EffectModel::CreateFile { path: path.deep_view() },
            Effect::AppendFile { path, text } => EffectModel::AppendFile {
                path: path.deep_view(),
                text: text@,
            },
            Effect::Fork { task } => EffectModel::Fork { task: task.deep_view() },
            Effect::Screen { path, files } => EffectModel::Screen {
                path: path.deep_view(),
                files: files.deep_view(),
            },
            Effect::Queue { files } => EffectModel::Queue { files: files.deep_view() },
            Effect::Tell { report } => EffectModel::Tell { report: report.deep_view() },
        }
    }
}

/// Two tasks that are seen alike are of one kind, for one address or text, and for
/// one path.
pub proof fn law_task_is_seen_whole(a: Task, b: Task)
    requires
        a.deep_view() == b.deep_view(),
    ensures
        match (a, b) {
            (Task::Folders { url: u, path: p }, Task::Folders { url: v, path: q }) => u@ == v@
                && p.deep_view() == q.deep_view(),
            (Task::Data { url: u, path: p }, Task::Data { url: v, path: q }) => u@ == v@
                && p.deep_view() == q.deep_view(),
            (Task::Users { url: u, path: p }, Task::Users { url: v, path: q }) => u@ == v@
                && p.deep_view() == q.deep_view(),
            (
                Task::Discussions { url: u, announcement: x, path: p },
                Task::Discussions { url: v, announcement: y, path: q },
            ) => u@ == v@ && x == y && p.deep_view() == q.deep_view(),
            (Task::DiscussionView { url: u, path: p }, Task::DiscussionView { url: v, path: q })
                => u@ == v@ && p.deep_view() == q.deep_view(),
            (Task::Pages { url: u, path: p }, Task::Pages { url: v, path: q }) => u@ == v@
                && p.deep_view() == q.deep_view(),
            (
                Task::PageBody { url: u, title: x, path: p },
                Task::PageBody { url: v, title: y, path: q },
            ) => u@ == v@ && x@ == y@ && p.deep_view() == q.deep_view(),
            (Task::Files { url: u, path: p }, Task::Files { url: v, path: q }) => u@ == v@
                && p.deep_view() == q.deep_view(),
            (Task::HtmlLinks { html: u, path: p }, Task::HtmlLinks { html: v, path: q }) => u@ == v@
                && p.deep_view() == q.deep_view(),
            _ => false,
        },
{
}

/// Two reports that are seen alike tell the same.
pub proof fn law_report_is_seen_whole(a: Report, b: Report)
    requires
        a.deep_view() == b.deep_view(),
    ensures
        match (a, b) {
            (
                Report::Denied { subject: s, uri: u, path: p, status: x },
                Report::Denied { subject: t, uri: v, path: q, status: y },
            ) => s == t && u@ == v@ && p.deep_view() == q.deep_view() && x@ == y@,
            (
                Report::Unreadable { subject: s, uri: u, path: p, error: x },
                Report::Unreadable { subject: t, uri: v, path: q, error: y },
            ) => s == t && u@ == v@ && p.deep_view() == q.deep_view() && x@ == y@,
            (
                Report::FolderNotCreated { path: p, error: x },
                Report::FolderNotCreated { path: q, error: y },
            ) => p.deep_view() == q.deep_view() && x@ == y@,
            (
                Report::BadTimestamp { display_name: x, updated_at: u },
                Report::BadTimestamp { display_name: y, updated_at: v },
            ) => x@ == y@ && u@ == v@,
            (Report::UpdateFound { path: p }, Report::UpdateFound { path: q }) => p.deep_view()
                == q.deep_view(),
            _ => false,
        },
{
}

/// Two effects that are seen alike ask for the same.
pub proof fn law_effect_is_seen_whole(a: Effect, b: Effect)
    requires
        a.deep_view() == b.deep_view(),
    ensures
        match (a, b) {
            (Effect::EnsureFolder { path: p }, Effect::EnsureFolder { path: q }) => p.deep_view()
                == q.deep_view(),
            (
                Effect::EnterFolder { path: p, tasks: x },
                Effect::EnterFolder { path: q, tasks: y },
            ) => p.deep_view() == q.deep_view() && x.deep_view() == y.deep_view(),
            (Effect::CreateFile { path: p }, Effect::CreateFile { path: q }) => p.deep_view()
                == q.deep_view(),
            (Effect::AppendFile { path: p, text: x }, Effect::AppendFile { path: q, text: y })
                => p.deep_view() == q.deep_view() && x@ == y@,
            (Effect::Fork { task: x }, Effect::Fork { task: y }) => x.deep_view() == y.deep_view(),
            (Effect::Screen { path: p, files: x }, Effect::Screen { path: q, files: y })
                => p.deep_view() == q.deep_view() && x.deep_view() == y.deep_view(),
            (Effect::Queue { files: x }, Effect::Queue { files: y }) => x.deep_view()
                == y.deep_view(),
            (Effect::Tell { report: x }, Effect::Tell { report: y }) => x.deep_view()
                == y.deep_view(),
            _ => false,
        },
{
}

} // verus!
