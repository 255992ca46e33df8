//! The records of Canvas.

use vstd::prelude::*;

use crate::path::{FilePath, PathModel};

verus! {

/// How to reach Canvas.
#[derive(Clone, Debug, PartialEq, Eq)]
pub struct Credentials {
    pub canvas_url: String,
    pub canvas_token: String,
}

/// A course.
#[derive(Debug, PartialEq, Eq)]
pub struct Course {
    pub id: u32,
    pub name: String,
    pub course_code: String,
    pub enrollment_term_id: u32,
}

/// What Canvas answers when asked for folders.
#[derive(Debug, PartialEq, Eq)]
pub enum FolderResult {
    Denied { status: String },
    Listed(Vec<Folder>),
}

/// A folder of a course. The root folder has no parent.
#[derive(Debug, PartialEq, Eq)]
pub struct Folder {
    pub id: u32,
    pub name: String,
    pub folders_url: String,
    pub files_url: String,
    pub for_submissions: bool,
    pub can_upload: bool,
    pub parent_folder_id: Option<u32>,
}

/// What Canvas answers when asked for files.
#[derive(Debug, PartialEq, Eq)]
pub enum FileResult {
    Denied { status: String },
    Listed(Vec<File>),
}

/// What Canvas answers when asked for pages.
#[derive(Debug, PartialEq, Eq)]
pub enum PageResult {
    Denied { status: String },
    Listed(Vec<Page>),
}

/// A page, as it is listed.
#[derive(Clone, Debug, PartialEq, Eq)]
pub struct Page {
    pub page_id: u32,
    pub url: String,
    pub title: String,
    pub updated_at: String,
    pub locked_for_user: bool,
}

/// A page with its contents.
#[derive(Clone, Debug, PartialEq, Eq)]
pub struct PageBody {
    pub page_id: u32,
    pub url: String,
    pub title: String,
    pub body: String,
    pub updated_at: String,
    pub locked_for_user: bool,
}

/// What Canvas answers when asked for discussions or announcements.
#[derive(Debug, PartialEq, Eq)]
pub enum DiscussionResult {
    Denied { status: String },
    Listed(Vec<Discussion>),
}

/// A discussion or an announcement.
#[derive(Clone, Debug, PartialEq, Eq)]
pub struct Discussion {
    pub id: u32,
    pub title: String,
    pub message: String,
    pub attachments: Vec<File>,
}

/// The entries of a discussion.
#[derive(Clone, Debug, PartialEq, Eq)]
pub struct DiscussionView {
    pub unread_entries: Vec<u32>,
    pub view: Vec<Comments>,
}

/// One entry of a discussion.
#[derive(Clone, Debug, PartialEq, Eq)]
pub struct Comments {
    pub id: u32,
    pub message: Option<String>,
    pub attachment: Option<File>,
    pub attachments: Option<Vec<File>>,
}

/// A file, with the path that it is downloaded to.
#[derive(Clone, Debug, PartialEq, Eq)]
pub struct File {
    pub id: u32,
    pub folder_id: u32,
    pub display_name: String,
    pub size: u64,
    pub url: String,
    pub updated_at: String,
    pub locked_for_user: bool,
    pub filepath: FilePath,
}

/// A file as a mathematical value.
pub struct FileModel {
    pub id: u32,
    pub folder_id: u32,
    pub display_name: Seq<char>,
    pub size: u64,
    pub url: Seq<char>,
    pub updated_at: Seq<char>,
    pub locked_for_user: bool,
    pub filepath: PathModel,
}

impl DeepView for File {
    type V = FileModel;

    open spec fn deep_view(&self) -> FileModel {
        FileModel {
            id: self.id,
            folder_id: self.folder_id,
            display_name: self.display_name@,
            size: self.size,
            url: self.url@,
            updated_at: self.updated_at@,
            locked_for_user: self.locked_for_user,
            filepath: self.filepath.deep_view(),
        }
    }
}

/// What every part of a run goes by.
#[derive(Clone, Debug, PartialEq, Eq)]
pub struct ProcessOptions {
    pub canvas_token: String,
    pub canvas_url: String,
    pub download_newer: bool,
}

/// A file is seen with all that it has.
pub proof fn law_file_is_seen_whole(file: File)
    ensures
        file.deep_view().id == file.id,
        file.deep_view().folder_id == file.folder_id,
        file.deep_view().display_name == file.display_name@,
        file.deep_view().size == file.size,
        file.deep_view().url == file.url@,
        file.deep_view().updated_at == file.updated_at@,
        file.deep_view().locked_for_user == file.locked_for_user,
        file.deep_view().filepath == file.filepath.deep_view(),
{
}

} // verus!
