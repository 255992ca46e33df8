//! Everything that a task leads to lies below its own path, as long as the names
//! that Canvas gives, and that are joined as they are, do not lead out of it: the
//! code of a course and the address of a page.

use vstd::prelude::*;

use crate::canvas::{
    Comments, Course, Discussion, DiscussionResult, DiscussionView, FileModel, FileResult,
    FolderResult, Page, PageBody, PageResult,
};
use crate::courses::{course_place, course_plan};
use crate::links::links_screened;
use crate::naming::{law_sanitized_name_stays_in_folder, stays_in_folder};
use crate::path::{
    components, joined, law_plain_name_is_entry, lemma_one_segment, place_of, segments, PathModel,
    PathStepModel,
};
use crate::plan::{EffectModel, TaskModel};
use crate::process::{
    are_discussion_names, are_folder_names, data_effects, discussion_effects,
    discussion_view_outcome, discussions_effects, files_outcome, folders_entered,
    is_discussions_outcome, is_folders_outcome, messages_entered, page_body_outcome, page_effects,
    pages_effects, pages_outcome,
};
use crate::runner::{begun_in_folder, paths_of, tells, RunModel, StageModel, StepModel};
use crate::screening::{
    are_candidates, are_clean_names, candidates, law_candidates, placed, update_reports, wanted,
    DiskState,
};
use crate::text::{decimal, law_decimal_is_read_back, replaced};

verus! {

/// Whether `step` joins a name that does not lead out of the folder.
pub open spec fn goes_down(step: PathStepModel) -> bool {
    step matches PathStepModel::Join(name) && stays_in_folder(name)
}

/// Whether `path` is reached from `folder` by joining names that do not lead out
/// of it.
pub open spec fn is_below(path: PathModel, folder: PathModel) -> bool {
    &&& folder.is_prefix_of(path)
    &&& forall|i: int| folder.len() <= i < path.len() ==> goes_down(#[trigger] path[i])
}

/// A path below a folder leads to a place below that of the folder: the
/// components of the folder, then others, none of which is that of a parent.
pub proof fn law_below_on_disk(path: PathModel, folder: PathModel)
    requires
        is_below(path, folder),
    ensures
        place_of(path).base == place_of(folder).base,
        place_of(folder).parts.is_prefix_of(place_of(path).parts),
        forall|i: int|
            place_of(folder).parts.len() <= i < place_of(path).parts.len() ==> stays_in_folder(
                #[trigger] place_of(path).parts[i],
            ),
    decreases path.len(),
{
    if path.len() == folder.len() {
        assert(path == folder);
    } else {
        let rest = path.drop_last();
        assert(folder.is_prefix_of(rest));
        assert forall|i: int| folder.len() <= i < rest.len() implies goes_down(
            #[trigger] rest[i],
        ) by {
            assert(rest[i] == path[i]);
        }
        law_below_on_disk(rest, folder);
        assert(goes_down(path[path.len() - 1]));
        let name = path.last()->Join_0;
        assert(!name.contains('/'));
        if name.len() == 0 {
            lemma_one_segment(name);
            reveal(Seq::filter);
            reveal_with_fuel(Seq::filter, 3);
            assert(segments(name).drop_last() =~= Seq::empty());
            assert(components(name) =~= Seq::empty());
            assert(place_of(rest).parts + components(name) =~= place_of(rest).parts);
        } else {
            law_plain_name_is_entry(place_of(rest), name);
        }
    }
}

/// The path of `task`.
pub open spec fn task_path(task: TaskModel) -> PathModel {
    match task {
        TaskModel::Folders { url, path } => path,
        TaskModel::Data { url, path } => path,
        TaskModel::Users { url, path } => path,
        TaskModel::Discussions { url, announcement, path } => path,
        TaskModel::DiscussionView { url, path } => path,
        TaskModel::Pages { url, path } => path,
        TaskModel::PageBody { url, title, path } => path,
        TaskModel::Files { url, path } => path,
        TaskModel::HtmlLinks { html, path } => path,
    }
}

/// Whether whatever `effect` creates, writes, starts or queues lies below
/// `folder`.
pub open spec fn effect_is_below(effect: EffectModel, folder: PathModel) -> bool {
    match effect {
        EffectModel::EnsureFolder { path } => is_below(path, folder),
        EffectModel::EnterFolder { path, tasks } => {
            &&& is_below(path, folder)
            &&& forall|i: int|
                0 <= i < tasks.len() ==> is_below(task_path(#[trigger] tasks[i]), folder)
        },
        EffectModel::CreateFile { path } => is_below(path, folder),
        EffectModel::AppendFile { path, text } => is_below(path, folder),
        EffectModel::Fork { task } => is_below(task_path(task), folder),
        EffectModel::Screen { path, files } => is_below(path, folder),
        EffectModel::Queue { files } => forall|i: int|
            0 <= i < files.len() ==> is_below((#[trigger] files[i]).filepath, folder),
        EffectModel::Tell { report } => true,
    }
}

/// Whether whatever `effects` create, write, start or queue lies below `folder`.
pub open spec fn are_below(effects: Seq<EffectModel>, folder: PathModel) -> bool {
    forall|i: int| 0 <= i < effects.len() ==> effect_is_below(#[trigger] effects[i], folder)
}

/// A name joined to a path below a folder is below that folder, if it does not
/// lead out of it.
pub proof fn law_joining_stays_below(path: PathModel, folder: PathModel, name: Seq<char>)
    requires
        is_below(path, folder),
        stays_in_folder(name),
    ensures
        is_below(joined(path, name), folder),
{
}

/// Being below is transitive.
pub proof fn law_below_is_transitive(path: PathModel, middle: PathModel, folder: PathModel)
    requires
        is_below(path, middle),
        is_below(middle, folder),
    ensures
        is_below(path, folder),
{
    assert forall|i: int| folder.len() <= i < path.len() implies goes_down(#[trigger] path[i]) by {
        if i < middle.len() {
            assert(path[i] == middle[i]);
        }
    }
}

/// Everything of a course goes below the folder of the course, and that below the
/// destination folder, unless the code of the course leads out of it.
pub proof fn law_course_stays_below(canvas_url: Seq<char>, course: Course)
    ensures
        are_below(course_plan(canvas_url, course), course_place(course)),
        stays_in_folder(replaced(course.course_code@, '/', '_')) ==> is_below(
            course_place(course),
            PathModel::empty(),
        ),
{
    lemma_own_names();
}

/// The names that every course has do not lead out of a folder.
proof fn lemma_own_names()
    ensures
        stays_in_folder("files"@),
        stays_in_folder("users.json"@),
        stays_in_folder("discussions"@),
        stays_in_folder("announcements"@),
        stays_in_folder("pages"@),
        stays_in_folder("pages.json"@),
        stays_in_folder("discussions.json"@),
        stays_in_folder("discussion.json"@),
{
    reveal_strlit("files");
    reveal_strlit("users.json");
    reveal_strlit("discussions");
    reveal_strlit("announcements");
    reveal_strlit("pages");
    reveal_strlit("pages.json");
    reveal_strlit("discussions.json");
    reveal_strlit("discussion.json");
    assert("files"@.len() == 5);
    assert("users.json"@.len() == 10);
    assert("discussions"@.len() == 11);
    assert("announcements"@.len() == 13);
    assert("pages"@.len() == 5);
    assert("pages.json"@.len() == 10);
    assert("discussions.json"@.len() == 16);
    assert("discussion.json"@.len() == 15);
}

/// A name that does not lead out of a folder does not with `suffix` behind it
/// either, if that has no separator and more than two characters.
proof fn lemma_suffixed(name: Seq<char>, suffix: Seq<char>)
    requires
        stays_in_folder(name),
        stays_in_folder(suffix),
        suffix.len() > 2,
    ensures
        stays_in_folder(name + suffix),
{
    let whole = name + suffix;
    assert forall|i: int| 0 <= i < whole.len() implies #[trigger] whole[i] != '/' && whole[i]
        != '\\' by {
        if i < name.len() {
            assert(whole[i] == name[i]);
        } else {
            assert(whole[i] == suffix[i - name.len()]);
        }
    }
    assert(whole.len() > 2);
}

/// Folders lead only to what is below their parent.
pub proof fn law_folders_stay_below(
    uri: Seq<char>,
    path: PathModel,
    parsed: Result<FolderResult, String>,
    res: Seq<EffectModel>,
)
    requires
        is_folders_outcome(uri, path, parsed, res),
    ensures
        are_below(res, path),
{
    if let Ok(FolderResult::Listed(folders)) = parsed {
        let names = choose|names: Seq<Seq<char>>| #[trigger]
            are_folder_names(folders@, names) && res == folders_entered(folders@, path, names);
        assert forall|i: int| 0 <= i < res.len() implies effect_is_below(
            #[trigger] res[i],
            path,
        ) by {
            law_sanitized_name_stays_in_folder(folders@[i].name@, names[i]);
        }
    }
}

/// The data of a course leads only to what is below the folder of the course.
pub proof fn law_data_stays_below(url: Seq<char>, path: PathModel)
    ensures
        are_below(data_effects(url, path), path),
{
    lemma_own_names();
}

/// The links of a text lead only to the folder of the text.
pub proof fn law_links_stay_below(path: PathModel, files: Seq<FileModel>)
    ensures
        are_below(links_screened(path, files), path),
{
}

/// A list of files leads only to its own folder.
pub proof fn law_files_stay_below(
    uri: Seq<char>,
    path: PathModel,
    parsed: Result<FileResult, String>,
)
    ensures
        are_below(files_outcome(uri, path, parsed), path),
{
}

/// Two lists of effects that stay below a folder do so together.
proof fn lemma_together(a: Seq<EffectModel>, b: Seq<EffectModel>, folder: PathModel)
    requires
        are_below(a, folder),
        are_below(b, folder),
    ensures
        are_below(a + b, folder),
{
    assert forall|i: int| 0 <= i < (a + b).len() implies effect_is_below(
        #[trigger] (a + b)[i],
        folder,
    ) by {
        if i < a.len() {
            assert((a + b)[i] == a[i]);
        } else {
            assert((a + b)[i] == b[i - a.len()]);
        }
    }
}

/// Whether no address of `pages` leads out of the folder that it names an entry of.
pub open spec fn pages_stay(pages: Seq<Page>) -> bool {
    forall|i: int| 0 <= i < pages.len() ==> stays_in_folder((#[trigger] pages[i]).url@)
}

proof fn lemma_pages(pages: Seq<Page>, url: Seq<char>, path: PathModel)
    requires
        pages_stay(pages),
    ensures
        are_below(pages_effects(pages, url, path), path),
    decreases pages.len(),
{
    if pages.len() > 0 {
        assert forall|i: int| 0 <= i < pages.len() - 1 implies stays_in_folder(
            (#[trigger] pages.drop_last()[i]).url@,
        ) by {
            assert(pages.drop_last()[i] == pages[i]);
        }
        lemma_pages(pages.drop_last(), url, path);
        assert(stays_in_folder(pages[pages.len() - 1].url@));
        assert(are_below(page_effects(pages.last(), url, path), path));
        lemma_together(
            pages_effects(pages.drop_last(), url, path),
            page_effects(pages.last(), url, path),
            path,
        );
    }
}

/// Pages lead only to what is below their folder, unless their addresses lead out
/// of it.
pub proof fn law_pages_stay_below(
    url: Seq<char>,
    path: PathModel,
    uri: Seq<char>,
    body: Seq<char>,
    parsed: Result<PageResult, String>,
)
    requires
        parsed matches Ok(PageResult::Listed(pages)) ==> pages_stay(pages@),
    ensures
        are_below(pages_outcome(url, path, uri, body, parsed), path),
{
    lemma_own_names();
    if let Ok(PageResult::Listed(pages)) = parsed {
        lemma_pages(pages@, url, path);
    }
}

/// A page leads only to what is below its folder, unless its addresses, the one
/// it is listed with and the one it gives itself, lead out of it.
pub proof fn law_page_body_stays_below(
    url: Seq<char>,
    title: Seq<char>,
    path: PathModel,
    text: Seq<char>,
    parsed: Result<PageBody, String>,
)
    requires
        stays_in_folder(title),
        parsed matches Ok(page) ==> stays_in_folder(page.url@),
    ensures
        are_below(page_body_outcome(url, title, path, text, parsed), path),
{
    reveal_strlit(".json");
    reveal_strlit(".html");
    assert(".json"@.len() == 5);
    assert(".html"@.len() == 5);
    lemma_suffixed(title, ".json"@);
    if let Ok(page) = parsed {
        lemma_suffixed(page.url@, ".html"@);
    }
}

proof fn lemma_discussions(
    discussions: Seq<Discussion>,
    url: Seq<char>,
    path: PathModel,
    names: Seq<Seq<char>>,
)
    requires
        discussions.len() <= names.len(),
        forall|i: int| 0 <= i < discussions.len() ==> stays_in_folder(#[trigger] names[i]),
    ensures
        are_below(discussions_effects(discussions, url, path, names), path),
    decreases discussions.len(),
{
    if discussions.len() > 0 {
        let last = discussion_effects(
            discussions.last(),
            url,
            path,
            names[discussions.len() - 1],
        );
        lemma_discussions(discussions.drop_last(), url, path, names);
        lemma_numbered(discussions.last().id, names[discussions.len() - 1]);
        assert(are_below(last, path));
        lemma_together(
            discussions_effects(discussions.drop_last(), url, path, names),
            last,
            path,
        );
    }
}

/// A name that does not lead out of a folder does not with a number before it
/// either.
proof fn lemma_numbered(id: u32, name: Seq<char>)
    requires
        stays_in_folder(name),
    ensures
        stays_in_folder(decimal(id as nat) + "_"@ + name),
{
    reveal_strlit("_");
    law_decimal_is_read_back(id as nat);
    let number = decimal(id as nat);
    let whole = number + "_"@ + name;
    assert forall|i: int| 0 <= i < whole.len() implies #[trigger] whole[i] != '/' && whole[i]
        != '\\' by {
        if i < number.len() {
            assert(whole[i] == number[i]);
        } else if i > number.len() {
            assert(whole[i] == name[i - number.len() - 1]);
        }
    }
    assert(whole[0] == number[0]);
}

/// Discussions lead only to what is below their folder.
pub proof fn law_discussions_stay_below(
    url: Seq<char>,
    path: PathModel,
    uri: Seq<char>,
    body: Seq<char>,
    parsed: Result<DiscussionResult, String>,
    res: Seq<EffectModel>,
)
    requires
        is_discussions_outcome(url, path, uri, body, parsed, res),
    ensures
        are_below(res, path),
{
    lemma_own_names();
    if let Ok(DiscussionResult::Listed(discussions)) = parsed {
        assert forall|names: Seq<Seq<char>>| #[trigger]
            are_discussion_names(discussions@, names) implies are_below(
            discussions_effects(discussions@, url, path, names),
            path,
        ) by {
            assert forall|i: int| 0 <= i < discussions@.len() implies stays_in_folder(
                #[trigger] names[i],
            ) by {
                law_sanitized_name_stays_in_folder(discussions@[i].title@, names[i]);
            }
            lemma_discussions(discussions@, url, path, names);
        }
    }
}

proof fn lemma_messages(comments: Seq<Comments>, path: PathModel)
    ensures
        are_below(messages_entered(comments, path), path),
    decreases comments.len(),
{
    if comments.len() > 0 {
        lemma_messages(comments.drop_last(), path);
    }
}

/// The entries of a discussion lead only to what is below its folder.
pub proof fn law_discussion_view_stays_below(
    url: Seq<char>,
    path: PathModel,
    body: Seq<char>,
    parsed: Result<DiscussionView, String>,
)
    ensures
        are_below(discussion_view_outcome(url, path, body, parsed), path),
{
    lemma_own_names();
    if let Ok(discussion) = parsed {
        lemma_messages(discussion.view@, path);
    }
}

/// Whether every one of `tasks` has its path below `folder`.
pub open spec fn tasks_are_below(tasks: Seq<TaskModel>, folder: PathModel) -> bool {
    forall|i: int| 0 <= i < tasks.len() ==> is_below(task_path(#[trigger] tasks[i]), folder)
}

/// Whether every one of `files` has its path below `folder`.
pub open spec fn files_are_below(files: Seq<FileModel>, folder: PathModel) -> bool {
    forall|i: int| 0 <= i < files.len() ==> is_below((#[trigger] files[i]).filepath, folder)
}

/// Whether all that `run` still does lies below `folder`.
pub open spec fn run_is_below(run: RunModel, folder: PathModel) -> bool {
    &&& are_below(run.pending, folder)
    &&& tasks_are_below(run.held_tasks(), folder)
    &&& match run.stage {
        StageModel::Checking { path, tasks } => is_below(path, folder),
        StageModel::Missing { path, tasks } => is_below(path, folder),
        StageModel::Creating { path, tasks } => is_below(path, folder),
        StageModel::Writing { path } => is_below(path, folder),
        StageModel::Inspecting { files, reports } => files_are_below(files, folder),
        _ => true,
    }
}

/// Whether what `step` creates, writes, starts or queues lies below `folder`.
pub open spec fn step_is_below(step: StepModel, folder: PathModel) -> bool {
    match step {
        StepModel::CreateFolder(path) => is_below(path, folder),
        StepModel::CreateFile(path) => is_below(path, folder),
        StepModel::AppendFile(path, text) => is_below(path, folder),
        StepModel::Spawn(task) => is_below(task_path(task), folder),
        StepModel::Queue(files) => files_are_below(files, folder),
        _ => true,
    }
}

proof fn lemma_candidates_stay_below(
    files: Seq<FileModel>,
    path: PathModel,
    kept: Seq<FileModel>,
    folder: PathModel,
)
    requires
        are_candidates(files, path, kept),
        is_below(path, folder),
    ensures
        files_are_below(kept, folder),
{
    let names = choose|names: Seq<Seq<char>>| #[trigger]
        are_clean_names(files, names) && kept == candidates(files, path, names);
    assert forall|k: int| 0 <= k < kept.len() implies is_below(
        (#[trigger] kept[k]).filepath,
        folder,
    ) by {
        law_candidates(files, path, names, k);
        let i = choose|i: int|
            0 <= i < files.len() && kept[k] == placed(#[trigger] files[i], path, names[i]);
        law_sanitized_name_stays_in_folder(files[i].display_name, names[i]);
        law_joining_stays_below(path, folder, names[i]);
    }
}

proof fn lemma_wanted_stay_below(
    files: Seq<FileModel>,
    on_disk: Seq<DiskState>,
    download_newer: bool,
    folder: PathModel,
)
    requires
        files_are_below(files, folder),
    ensures
        files_are_below(wanted(files, on_disk, download_newer), folder),
    decreases files.len(),
{
    if files.len() > 0 {
        assert(files_are_below(files.drop_last(), folder)) by {
            assert forall|i: int| 0 <= i < files.len() - 1 implies is_below(
                (#[trigger] files.drop_last()[i]).filepath,
                folder,
            ) by {
                assert(files.drop_last()[i] == files[i]);
            }
        }
        lemma_wanted_stay_below(files.drop_last(), on_disk, download_newer, folder);
        assert(files[files.len() - 1] == files.last());
    }
}

/// A run that begins with effects below a folder never leaves it: neither do its
/// steps, nor what is left to do after them.
pub proof fn law_step_stays_below(
    run: RunModel,
    step: StepModel,
    next: RunModel,
    folder: PathModel,
)
    requires
        run.is_idle(),
        run.leads_to(step, next),
        run_is_below(run, folder),
    ensures
        step_is_below(step, folder),
        run_is_below(next, folder),
{
    if run.stage is Ready && run.pending.len() > 0 {
        let rest = run.pending.skip(1);
        assert(are_below(rest, folder)) by {
            assert forall|i: int| 0 <= i < rest.len() implies effect_is_below(
                #[trigger] rest[i],
                folder,
            ) by {
                assert(rest[i] == run.pending[i + 1]);
            }
        }
        assert(effect_is_below(run.pending[0], folder));
        if let EffectModel::Screen { path, files } = run.pending[0] {
            let kept = choose|kept: Seq<FileModel>|
                {
                    &&& #[trigger] are_candidates(files, path, kept)
                    &&& step == StepModel::Inspect(paths_of(kept))
                    &&& next == run.begun(next.stage)
                    &&& next.stage->Inspecting_files == kept
                };
            lemma_candidates_stay_below(files, path, kept, folder);
        }
    }
}

/// What a run hears does not lead it out of the folder either.
pub proof fn law_answer_stays_below(
    run: RunModel,
    folder: PathModel,
    exists: bool,
    failure: Option<Seq<char>>,
    on_disk: Seq<DiskState>,
    download_newer: bool,
)
    requires
        run_is_below(run, folder),
    ensures
        run.stage is Checking ==> run_is_below(run.after_check(exists), folder),
        run.stage is Creating || run.stage is Writing ==> run_is_below(
            run.after_attempt(failure),
            folder,
        ),
        run.stage is Inspecting ==> run_is_below(
            run.after_inspection(on_disk, download_newer),
            folder,
        ),
{
    match run.stage {
        StageModel::Checking { path, tasks } => {
            assert(are_below(begun_in_folder(tasks), folder));
            lemma_together(begun_in_folder(tasks), run.pending, folder);
        },
        StageModel::Creating { path, tasks } => {
            assert(are_below(begun_in_folder(tasks), folder));
            lemma_together(begun_in_folder(tasks), run.pending, folder);
        },
        StageModel::Writing { path } => {
            lemma_together(Seq::empty(), run.pending, folder);
        },
        StageModel::Inspecting { files, reports } => {
            let told = tells(reports) + tells(update_reports(files, on_disk));
            let queue = EffectModel::Queue { files: wanted(files, on_disk, download_newer) };
            lemma_wanted_stay_below(files, on_disk, download_newer, folder);
            assert(are_below(told.push(queue), folder));
            lemma_together(told.push(queue), run.pending, folder);
        },
        _ => {},
    }
}

} // verus!
