//! Tasks start other tasks without going round in circles.

use vstd::prelude::*;

use crate::canvas::{
    Comments, Course, Discussion, DiscussionResult, DiscussionView, FileResult, FolderResult, Page,
    PageBody, PageResult,
};
use crate::courses::course_plan;
use crate::path::PathModel;
use crate::plan::{EffectModel, TaskModel};
use crate::process::{
    data_effects, discussion_effects, discussion_view_outcome, discussions_effects, files_outcome,
    is_discussions_outcome, is_folders_outcome, messages_entered, page_body_outcome, page_effects,
    pages_effects, pages_outcome,
};
use crate::runner::tasks_of;

verus! {

/// How many tasks can follow one another from `task` on, each started by the one
/// before it, if folders are not counted.
pub open spec fn rank(task: TaskModel) -> nat {
    match task {
        TaskModel::Data { .. } => 4,
        TaskModel::Discussions { .. } => 3,
        TaskModel::Pages { .. } => 3,
        TaskModel::DiscussionView { .. } => 2,
        TaskModel::PageBody { .. } => 2,
        TaskModel::Folders { .. } => 2,
        TaskModel::Users { .. } => 1,
        TaskModel::Files { .. } => 1,
        TaskModel::HtmlLinks { .. } => 1,
    }
}

/// Whether every task that `effect` starts has a rank below `bound`.
pub open spec fn starts_below(effect: EffectModel, bound: nat) -> bool {
    forall|i: int| 0 <= i < tasks_of(effect).len() ==> rank(#[trigger] tasks_of(effect)[i]) < bound
}

/// Whether every task that `effects` start has a rank below `bound`.
pub open spec fn all_start_below(effects: Seq<EffectModel>, bound: nat) -> bool {
    forall|i: int| 0 <= i < effects.len() ==> starts_below(#[trigger] effects[i], bound)
}

/// What is started for a course has a rank of at most four.
pub proof fn law_course_ranks(canvas_url: Seq<char>, course: Course)
    ensures
        all_start_below(course_plan(canvas_url, course), 5),
{
}

/// Folders start only tasks of a lower rank and, for the folders in them, tasks
/// like themselves: how deep these go is for Canvas to say.
pub proof fn law_folders_rank(
    uri: Seq<char>,
    path: PathModel,
    parsed: Result<FolderResult, String>,
    res: Seq<EffectModel>,
    task: TaskModel,
)
    requires
        is_folders_outcome(uri, path, parsed, res),
        exists|i: int|
            0 <= i < res.len() && (#[trigger] tasks_of(res[i])).contains(task),
    ensures
        task is Folders || rank(task) < rank(TaskModel::Folders { url: uri, path }),
{
}

/// The data of a course starts only tasks of a lower rank.
pub proof fn law_data_ranks(url: Seq<char>, path: PathModel)
    ensures
        all_start_below(data_effects(url, path), rank(TaskModel::Data { url, path })),
{
}

/// A list of files starts no task.
pub proof fn law_files_start_nothing(
    uri: Seq<char>,
    path: PathModel,
    parsed: Result<FileResult, String>,
)
    ensures
        all_start_below(files_outcome(uri, path, parsed), 0),
{
}

proof fn lemma_pages(pages: Seq<Page>, url: Seq<char>, path: PathModel)
    ensures
        all_start_below(pages_effects(pages, url, path), 3),
    decreases pages.len(),
{
    if pages.len() > 0 {
        lemma_pages(pages.drop_last(), url, path);
        let last = page_effects(pages.last(), url, path);
        assert(all_start_below(last, 3));
    }
}

/// Pages start only tasks of a lower rank.
pub proof fn law_pages_rank(
    url: Seq<char>,
    path: PathModel,
    uri: Seq<char>,
    body: Seq<char>,
    parsed: Result<PageResult, String>,
)
    ensures
        all_start_below(
            pages_outcome(url, path, uri, body, parsed),
            rank(TaskModel::Pages { url, path }),
        ),
{
    if let Ok(PageResult::Listed(pages)) = parsed {
        lemma_pages(pages@, url, path);
    }
}

/// A page starts only tasks of a lower rank.
pub proof fn law_page_body_ranks(
    url: Seq<char>,
    title: Seq<char>,
    path: PathModel,
    text: Seq<char>,
    parsed: Result<PageBody, String>,
)
    ensures
        all_start_below(
            page_body_outcome(url, title, path, text, parsed),
            rank(TaskModel::PageBody { url, title, path }),
        ),
{
}

proof fn lemma_discussions(
    discussions: Seq<Discussion>,
    url: Seq<char>,
    path: PathModel,
    names: Seq<Seq<char>>,
)
    ensures
        all_start_below(discussions_effects(discussions, url, path, names), 3),
    decreases discussions.len(),
{
    if discussions.len() > 0 {
        lemma_discussions(discussions.drop_last(), url, path, names);
        let last = discussion_effects(
            discussions.last(),
            url,
            path,
            names[discussions.len() - 1],
        );
        assert(all_start_below(last, 3));
    }
}

/// Discussions start only tasks of a lower rank.
pub proof fn law_discussions_rank(
    url: Seq<char>,
    announcement: bool,
    path: PathModel,
    uri: Seq<char>,
    body: Seq<char>,
    parsed: Result<DiscussionResult, String>,
    res: Seq<EffectModel>,
)
    requires
        is_discussions_outcome(url, path, uri, body, parsed, res),
    ensures
        all_start_below(res, rank(TaskModel::Discussions { url, announcement, path })),
{
    if let Ok(DiscussionResult::Listed(discussions)) = parsed {
        assert forall|names: Seq<Seq<char>>| all_start_below(
            #[trigger] discussions_effects(discussions@, url, path, names),
            3,
        ) by {
            lemma_discussions(discussions@, url, path, names);
        }
    }
}

proof fn lemma_messages(comments: Seq<Comments>, path: PathModel)
    ensures
        all_start_below(messages_entered(comments, path), 2),
    decreases comments.len(),
{
    if comments.len() > 0 {
        lemma_messages(comments.drop_last(), path);
    }
}

/// The entries of a discussion start only tasks of a lower rank.
pub proof fn law_discussion_view_ranks(
    url: Seq<char>,
    path: PathModel,
    body: Seq<char>,
    parsed: Result<DiscussionView, String>,
)
    ensures
        all_start_below(
            discussion_view_outcome(url, path, body, parsed),
            rank(TaskModel::DiscussionView { url, path }),
        ),
{
    if let Ok(discussion) = parsed {
        lemma_messages(discussion.view@, path);
    }
}

} // verus!
