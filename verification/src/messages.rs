//! What the user reads.

use vstd::prelude::*;

use crate::canvas::{Course, File, FileModel};
use crate::courses::{are_terms, codes_of_term, term_courses, term_ids};
use crate::download::{DownloadError, DownloadErrorModel};
use crate::list;
use crate::outside::{debug_text, write_debug};
use crate::path::PathModel;
use crate::plan::{Report, ReportModel, Subject, Task, TaskModel};
use crate::text::{all_alphanumeric, concat, decimal, decimal_string, law_occurs, occurs_in};

verus! {

/// What `subject` is called.
pub open spec fn noun(subject: Subject) -> Seq<char> {
    match subject {
        Subject::Folders => "folders"@,
        Subject::Files => "files"@,
        Subject::Pages => "pages"@,
        Subject::PageBody => "page body"@,
        Subject::Discussions => "discussions"@,
        Subject::DiscussionView => "submissions"@,
        Subject::FileInfo => "file info"@,
    }
}

/// What `subject` is called.
fn subject_noun(subject: Subject) -> (res: &'static str)
    ensures
        res@ == noun(subject),
{
    match subject {
        Subject::Folders => "folders",
        Subject::Files => "files",
        Subject::Pages => "pages",
        Subject::PageBody => "page body",
        Subject::Discussions => "discussions",
        Subject::DiscussionView => "submissions",
        Subject::FileInfo => "file info",
    }
}

/// What went wrong with `subject` when its answer cannot be read.
pub open spec fn trouble(subject: Subject) -> Seq<char> {
    if subject is PageBody {
        "Error when parsing "@
    } else {
        "Error when getting "@
    }
}

/// What the user reads of `report`, if its path is shown as `shown`.
pub open spec fn message_of(report: ReportModel, shown: Seq<char>) -> Seq<char> {
    match report {
        ReportModel::Denied { subject, uri, path, status } => if subject is Pages {
            "No pages found for url "@ + uri + " status: "@ + status
        } else {
            "Failed to access "@ + noun(subject) + " at link:"@ + uri + ", path:"@ + shown
                + ", status:"@ + status
        },
        ReportModel::Unreadable { subject, uri, path, error } => if subject is Pages {
            "No pages found for url "@ + uri + " error: "@ + error
        } else {
            trouble(subject) + noun(subject) + " at link:"@ + uri + ", path:"@ + shown + "\n"@
                + error
        },
        ReportModel::FolderNotCreated { path, error } => "Failed to create directory: "@ + shown
            + ", err="@ + error,
        ReportModel::BadTimestamp { display_name, updated_at } =>
            "Failed to parse updated_at time for "@ + display_name + ", "@ + updated_at,
        ReportModel::UpdateFound { path } => "Found update for "@ + shown
            + ". Use -n to download updated files."@,
    }
}

/// What the user reads of `report`, if its path is shown as `shown`.
pub fn report_message(report: &Report, shown: &str) -> (res: String)
    ensures
        res@ == message_of(report.deep_view(), shown@),
{
    match report {
        Report::Denied { subject, uri, path: _, status } => match subject {
            Subject::Pages => {
                let mut res: String = concat("No pages found for url ", uri.as_str());
                res.append(" status: ");
                res.append(status.as_str());
                res
            },
            _ => {
                let mut res: String = concat("Failed to access ", subject_noun(*subject));
                res.append(" at link:");
                res.append(uri.as_str());
                res.append(", path:");
                res.append(shown);
                res.append(", status:");
                res.append(status.as_str());
                res
            },
        },
        Report::Unreadable { subject, uri, path: _, error } => match subject {
            Subject::Pages => {
                let mut res: String = concat("No pages found for url ", uri.as_str());
                res.append(" error: ");
                res.append(error.as_str());
                res
            },
            _ => {
                let lead: &str = match subject {
                    Subject::PageBody => "Error when parsing ",
                    _ => "Error when getting ",
                };
                let mut res: String = concat(lead, subject_noun(*subject));
                res.append(" at link:");
                res.append(uri.as_str());
                res.append(", path:");
                res.append(shown);
                res.append("\n");
                res.append(error.as_str());
                res
            },
        },
        Report::FolderNotCreated { path: _, error } => {
            let mut res: String = concat("Failed to create directory: ", shown);
            res.append(", err=");
            res.append(error.as_str());
            res
        },
        Report::BadTimestamp { display_name, updated_at } => {
            let mut res: String = concat(
                "Failed to parse updated_at time for ",
                display_name.as_str(),
            );
            res.append(", ");
            res.append(updated_at.as_str());
            res
        },
        Report::UpdateFound { path: _ } => {
            let mut res: String = concat("Found update for ", shown);
            res.append(". Use -n to download updated files.");
            res
        },
    }
}

/// What the user reads, before the path, of a file of `task` that cannot be written.
pub open spec fn write_trouble_of(task: TaskModel) -> Seq<char> {
    match task {
        TaskModel::Users { .. } => "Unable to write to file for "@,
        TaskModel::Discussions { .. } => "Unable to write to file for "@,
        TaskModel::DiscussionView { .. } => "Unable to write to file for "@,
        _ => "Could not write to file "@,
    }
}

/// What the user reads, before the path, of a file of `task` that cannot be written.
pub fn write_trouble(task: &Task) -> (res: &'static str)
    ensures
        res@ == write_trouble_of(task.deep_view()),
{
    match task {
        Task::Users { url: _, path: _ } => "Unable to write to file for ",
        Task::Discussions { url: _, announcement: _, path: _ } => "Unable to write to file for ",
        Task::DiscussionView { url: _, path: _ } => "Unable to write to file for ",
        _ => "Could not write to file ",
    }
}

/// How a course that is downloaded is listed.
pub fn course_line(course: &Course) -> (res: String)
    ensures
        res@ == "  * "@ + course.course_code@,
{
    concat("  * ", course.course_code.as_str())
}

/// Why a download failed, in words, and what it was that failed.
#[derive(Debug, PartialEq, Eq)]
pub struct FailureText {
    pub message: String,
    pub cause: Option<String>,
}

/// What the user reads of the download of `file` that failed for `reason`, if the
/// target is shown as `shown` and the response as `response`.
pub open spec fn failure_message(
    reason: DownloadErrorModel,
    file: FileModel,
    shown: Seq<char>,
    response: Seq<char>,
) -> Seq<char> {
    match reason {
        DownloadErrorModel::Request(_) => "Something went wrong when reaching "@ + file.url,
        DownloadErrorModel::Status(_) => "Failed to download "@ + file.display_name + ", got "@
            + response,
        DownloadErrorModel::Create(_) => "Unable to create tmp file for "@ + shown,
        DownloadErrorModel::Write(_) => "Could not write to file "@ + shown,
        DownloadErrorModel::Read(error) => error,
        DownloadErrorModel::Rename(error) => error,
        DownloadErrorModel::Timestamp(error) => error,
    }
}

/// What it was that failed, where the message does not say it.
pub open spec fn failure_cause(reason: DownloadErrorModel) -> Option<Seq<char>> {
    match reason {
        DownloadErrorModel::Request(error) => Some(error),
        DownloadErrorModel::Create(error) => Some(error),
        DownloadErrorModel::Write(error) => Some(error),
        _ => None,
    }
}

/// What the user reads of the download of `file` that failed for `reason`.
pub fn download_failure(reason: &DownloadError, file: &File, shown: &str, response: &str) -> (res:
    FailureText)
    ensures
        res.message@ == failure_message(
            reason.deep_view(),
            file.deep_view(),
            shown@,
            response@,
        ),
        res.cause.deep_view() == failure_cause(reason.deep_view()),
{
    match reason {
        DownloadError::Request(error) => FailureText {
            message: concat("Something went wrong when reaching ", file.url.as_str()),
            cause: Some(error.clone()),
        },
        DownloadError::Status(_) => {
            let mut message: String = concat("Failed to download ", file.display_name.as_str());
            message.append(", got ");
            message.append(response);
            FailureText { message, cause: None }
        },
        DownloadError::Create(error) => FailureText {
            message: concat("Unable to create tmp file for ", shown),
            cause: Some(error.clone()),
        },
        DownloadError::Write(error) => FailureText {
            message: concat("Could not write to file ", shown),
            cause: Some(error.clone()),
        },
        DownloadError::Read(error) => FailureText { message: error.clone(), cause: None },
        DownloadError::Rename(error) => FailureText { message: error.clone(), cause: None },
        DownloadError::Timestamp(error) => FailureText { message: error.clone(), cause: None },
    }
}

/// The width of the first column of the table of terms.
pub const TERM_COLUMN: usize = 10;

/// `text`, followed by as many spaces as it takes to fill `width` characters.
pub open spec fn padded(text: Seq<char>, width: int) -> Seq<char>
    decreases width - text.len(),
{
    if text.len() >= width {
        text
    } else {
        padded(text.push(' '), width)
    }
}

/// Appends spaces to `text` until it fills `width` characters.
fn pad(text: String, width: usize) -> (res: String)
    ensures
        res@ == padded(text@, width as int),
{
    let mut res: String = text;
    let mut length: usize = res.as_str().unicode_len();
    while length < width
        invariant
            length == res@.len(),
            padded(res@, width as int) == padded(text@, width as int),
        decreases width - length,
    {
        res.push(' ');
        length += 1;
    }
    res
}

/// `items` in quotation marks, with commas between them.
pub open spec fn listed(items: Seq<Seq<char>>) -> Seq<char>
    decreases items.len(),
{
    if items.len() == 0 {
        Seq::empty()
    } else if items.len() == 1 {
        debug_text(items[0])
    } else {
        listed(items.drop_last()) + ", "@ + debug_text(items.last())
    }
}

/// Whether a text of ASCII letters and digits alone is quoted as it is.
pub open spec fn quoted_if_plain(text: Seq<char>) -> bool {
    all_alphanumeric(text) ==> debug_text(text) == seq!['"'] + text + seq!['"']
}

/// `items` in quotation marks, with commas between them.
fn list_items(items: &Vec<String>) -> (res: String)
    ensures
        res@ == listed(items.deep_view()),
        forall|i: int|
            0 <= i < items.len() ==> quoted_if_plain(#[trigger] items.deep_view()[i]),
{
    let ghost all = items.deep_view();
    let mut res: String = String::new();
    let mut i: usize = 0;
    while i < items.len()
        invariant
            i <= items.len(),
            all == items.deep_view(),
            res@ == listed(all.take(i as int)),
            forall|k: int| 0 <= k < i ==> quoted_if_plain(#[trigger] all[k]),
        decreases items.len() - i,
    {
        assert(all.take(i + 1).drop_last() == all.take(i as int));
        let item: String = write_debug(items[i].as_str());
        if i > 0 {
            res.append(", ");
        }
        res.append(item.as_str());
        assert(res@ == listed(all.take(i + 1)));
        i += 1;
    }
    assert(all.take(i as int) == all);
    res
}

/// The row of the term `id` in the table of terms.
pub open spec fn term_row(courses: Seq<Course>, id: u32) -> Seq<char> {
    padded(decimal(id as nat), TERM_COLUMN as int) + "| ["@ + listed(codes_of_term(courses, id))
        + "]"@
}

/// The table of the terms `ids` of `courses`: a header, then a row for each.
pub open spec fn table_of(courses: Seq<Course>, ids: Seq<u32>) -> Seq<Seq<char>> {
    seq![padded("Term IDs"@, TERM_COLUMN as int) + "| Courses"@] + Seq::new(
        ids.len(),
        |i: int| term_row(courses, ids[i]),
    )
}

/// Whether `lines` is the table of the terms of `courses`, in ascending order.
pub open spec fn is_term_table(courses: Seq<Course>, lines: Seq<Seq<char>>) -> bool {
    exists|ids: Seq<u32>| #[trigger] are_terms(courses, ids) && lines == table_of(courses, ids)
}

/// The table of the terms of `courses`, line by line.
pub fn term_table(courses: &Vec<Course>) -> (res: Vec<String>)
    ensures
        is_term_table(courses@, res.deep_view()),
        forall|k: int|
            0 <= k < courses.len() ==> quoted_if_plain((#[trigger] courses[k]).course_code@),
{
    let ids: Vec<u32> = term_ids(courses);
    let ghost all = table_of(courses@, ids@);
    let mut res: Vec<String> = list::empty();
    let mut header: String = pad("Term IDs".to_owned(), TERM_COLUMN);
    header.append("| Courses");
    list::push(&mut res, header);
    let mut i: usize = 0;
    assert(res.deep_view() == all.take(1));
    while i < ids.len()
        invariant
            i <= ids.len(),
            all == table_of(courses@, ids@),
            res.deep_view() == all.take(i + 1),
            forall|m: int, n: int|
                0 <= m < i && 0 <= n < codes_of_term(courses@, ids[m]).len() ==> quoted_if_plain(
                    #[trigger] codes_of_term(courses@, ids[m])[n],
                ),
        decreases ids.len() - i,
    {
        assert(all.take(i + 2) == all.take(i + 1).push(all[i + 1]));
        let mut row: String = pad(decimal_string(ids[i] as u64), TERM_COLUMN);
        row.append("| [");
        let codes: Vec<String> = term_courses(courses, ids[i]);
        row.append(list_items(&codes).as_str());
        row.append("]");
        list::push(&mut res, row);
        i += 1;
    }
    assert(all.take(i + 1) == all);
    proof {
        assert forall|k: int| 0 <= k < courses.len() implies quoted_if_plain(
            (#[trigger] courses[k]).course_code@,
        ) by {
            let id = courses[k].enrollment_term_id;
            let m = choose|m: int| 0 <= m < ids@.len() && ids@[m] == id;
            lemma_code_is_listed(courses@, k);
            let codes = codes_of_term(courses@, id);
            let n = choose|n: int| 0 <= n < codes.len() && codes[n] == courses[k].course_code@;
            assert(quoted_if_plain(codes_of_term(courses@, ids[m])[n]));
        }
    }
    res
}

/// The code of every course is among those of its term.
proof fn lemma_code_is_listed(courses: Seq<Course>, k: int)
    requires
        0 <= k < courses.len(),
    ensures
        codes_of_term(courses, courses[k].enrollment_term_id).contains(courses[k].course_code@),
    decreases courses.len(),
{
    let id = courses[k].enrollment_term_id;
    let all = codes_of_term(courses, id);
    if k < courses.len() - 1 {
        let before = codes_of_term(courses.drop_last(), id);
        lemma_code_is_listed(courses.drop_last(), k);
        let n = choose|n: int| 0 <= n < before.len() && before[n] == courses[k].course_code@;
        assert(all[n] == before[n]);
    } else {
        assert(all.last() == courses[k].course_code@);
    }
}

/// What is told of a refusal: what was refused, where, and the status.
pub proof fn law_refusals_are_worded(
    uri: Seq<char>,
    path: PathModel,
    status: Seq<char>,
    shown: Seq<char>,
)
    ensures
        message_of(
            ReportModel::Denied { subject: Subject::Folders, uri, path, status },
            shown,
        ) == "Failed to access "@ + "folders"@ + " at link:"@ + uri + ", path:"@ + shown
            + ", status:"@ + status,
        message_of(
            ReportModel::Denied { subject: Subject::Files, uri, path, status },
            shown,
        ) == "Failed to access "@ + "files"@ + " at link:"@ + uri + ", path:"@ + shown
            + ", status:"@ + status,
        message_of(
            ReportModel::Denied { subject: Subject::Discussions, uri, path, status },
            shown,
        ) == "Failed to access "@ + "discussions"@ + " at link:"@ + uri + ", path:"@ + shown
            + ", status:"@ + status,
        message_of(
            ReportModel::Denied { subject: Subject::Pages, uri, path, status },
            shown,
        ) == "No pages found for url "@ + uri + " status: "@ + status,
{
}

/// What is told of an answer that cannot be read: what it was, where, and why.
pub proof fn law_unreadable_answers_are_worded(
    subject: Subject,
    uri: Seq<char>,
    path: PathModel,
    error: Seq<char>,
    shown: Seq<char>,
)
    ensures
        ({
            let message = message_of(ReportModel::Unreadable { subject, uri, path, error }, shown);
            let words = match subject {
                Subject::Folders => "Error when getting "@ + "folders"@,
                Subject::Files => "Error when getting "@ + "files"@,
                Subject::PageBody => "Error when parsing "@ + "page body"@,
                Subject::Discussions => "Error when getting "@ + "discussions"@,
                Subject::DiscussionView => "Error when getting "@ + "submissions"@,
                _ => "Error when getting "@ + "file info"@,
            };
            if subject is Pages {
                message == "No pages found for url "@ + uri + " error: "@ + error
            } else {
                message == words + " at link:"@ + uri + ", path:"@ + shown + "\n"@ + error
            }
        }),
{
}

/// What is told of folders that cannot be created, of times that cannot be read, and
/// of updates.
pub proof fn law_other_reports_are_worded(
    path: PathModel,
    error: Seq<char>,
    display_name: Seq<char>,
    updated_at: Seq<char>,
    shown: Seq<char>,
)
    ensures
        message_of(ReportModel::FolderNotCreated { path, error }, shown)
            == "Failed to create directory: "@ + shown + ", err="@ + error,
        message_of(ReportModel::BadTimestamp { display_name, updated_at }, shown)
            == "Failed to parse updated_at time for "@ + display_name + ", "@ + updated_at,
        message_of(ReportModel::UpdateFound { path }, shown) == "Found update for "@ + shown
            + ". Use -n to download updated files."@,
{
}

/// A failed download is told with what failed: the address, the name and the
/// response, the place, or the error itself. Where the error is not in the message,
/// it is the cause.
pub proof fn law_failures_are_worded(
    file: FileModel,
    status: u16,
    error: Seq<char>,
    shown: Seq<char>,
    response: Seq<char>,
)
    ensures
        failure_message(DownloadErrorModel::Request(error), file, shown, response)
            == "Something went wrong when reaching "@ + file.url,
        failure_message(DownloadErrorModel::Status(status), file, shown, response)
            == "Failed to download "@ + file.display_name + ", got "@ + response,
        failure_message(DownloadErrorModel::Create(error), file, shown, response)
            == "Unable to create tmp file for "@ + shown,
        failure_message(DownloadErrorModel::Write(error), file, shown, response)
            == "Could not write to file "@ + shown,
        failure_message(DownloadErrorModel::Read(error), file, shown, response) == error,
        failure_message(DownloadErrorModel::Rename(error), file, shown, response) == error,
        failure_message(DownloadErrorModel::Timestamp(error), file, shown, response) == error,
        failure_cause(DownloadErrorModel::Request(error)) == Some(error),
        failure_cause(DownloadErrorModel::Create(error)) == Some(error),
        failure_cause(DownloadErrorModel::Write(error)) == Some(error),
        failure_cause(DownloadErrorModel::Status(status)) is None,
        failure_cause(DownloadErrorModel::Read(error)) is None,
        failure_cause(DownloadErrorModel::Rename(error)) is None,
        failure_cause(DownloadErrorModel::Timestamp(error)) is None,
{
}

/// Padding keeps the text and adds spaces behind it, up to the width.
pub proof fn law_padding(text: Seq<char>, width: int)
    ensures
        text.is_prefix_of(padded(text, width)),
        padded(text, width).len() == if text.len() >= width {
            text.len() as int
        } else {
            width
        },
        forall|i: int| text.len() <= i < padded(text, width).len() ==> #[trigger] padded(
            text,
            width,
        )[i] == ' ',
    decreases width - text.len(),
{
    if text.len() < width {
        let more = text.push(' ');
        law_padding(more, width);
        assert forall|i: int| text.len() <= i < padded(text, width).len() implies #[trigger] padded(
            text,
            width,
        )[i] == ' ' by {
            if i == text.len() {
                assert(more[i] == ' ');
                assert(padded(more, width).take(more.len() as int)[i] == padded(more, width)[i]);
            }
        }
        assert forall|i: int| 0 <= i < text.len() implies text[i] == padded(text, width)[i] by {
            assert(more[i] == text[i]);
            assert(more[i] == padded(more, width)[i]);
        }
    }
}

/// Items are listed one by one, in quotation marks, with a comma and a space between
/// them.
pub proof fn law_listing_one_by_one(items: Seq<Seq<char>>, item: Seq<char>)
    ensures
        listed(Seq::empty()) == Seq::<char>::empty(),
        listed(seq![item]) == debug_text(item),
        items.len() > 0 ==> listed(items.push(item)) == listed(items) + ", "@ + debug_text(item),
{
    assert(items.push(item).drop_last() =~= items);
}

/// Every item that is listed can be read in the list.
proof fn lemma_listed(items: Seq<Seq<char>>, i: int)
    requires
        0 <= i < items.len(),
    ensures
        occurs_in(debug_text(items[i]), listed(items)),
    decreases items.len(),
{
    let item = debug_text(items[i]);
    if items.len() == 1 {
        assert(listed(items) =~= (Seq::<char>::empty() + item) + Seq::<char>::empty());
    } else if i < items.len() - 1 {
        let rest = items.drop_last();
        lemma_listed(rest, i);
        law_occurs(item, listed(rest));
        let (a, b) = choose|a: Seq<char>, b: Seq<char>| listed(rest) == #[trigger] ((a + item) + b);
        let tail = b + ", "@ + debug_text(items.last());
        assert(listed(items) =~= (a + item) + tail);
    } else {
        let front = listed(items.drop_last()) + ", "@;
        assert(listed(items) =~= (front + item) + Seq::<char>::empty());
    }
    law_occurs(item, listed(items));
}

/// The table of terms has a header, and a row for each term. Every course can be
/// read in a row that begins with its term.
pub proof fn law_every_course_is_in_the_table(courses: Seq<Course>, lines: Seq<Seq<char>>, k: int)
    requires
        is_term_table(courses, lines),
        0 <= k < courses.len(),
    ensures
        lines.len() > 1,
        lines[0] == padded("Term IDs"@, 10) + "| Courses"@,
        exists|i: int|
            1 <= i < lines.len() && decimal(courses[k].enrollment_term_id as nat).is_prefix_of(
                #[trigger] lines[i],
            ) && occurs_in(debug_text(courses[k].course_code@), lines[i]),
{
    let ids = choose|ids: Seq<u32>| #[trigger]
        are_terms(courses, ids) && lines == table_of(courses, ids);
    let id = courses[k].enrollment_term_id;
    assert(ids.contains(id));
    let m = choose|m: int| 0 <= m < ids.len() && ids[m] == id;
    let codes = codes_of_term(courses, id);
    lemma_code_is_listed(courses, k);
    let n = choose|n: int| 0 <= n < codes.len() && codes[n] == courses[k].course_code@;
    lemma_listed(codes, n);
    let code = debug_text(codes[n]);
    law_occurs(code, listed(codes));
    let (a, b) = choose|a: Seq<char>, b: Seq<char>| listed(codes) == #[trigger] ((a + code) + b);
    let number = padded(decimal(id as nat), 10);
    law_padding(decimal(id as nat), 10);
    let line = lines[m + 1];
    assert(line == term_row(courses, id));
    let front = number + "| ["@ + a;
    let tail = b + "]"@;
    assert(line =~= (front + code) + tail);
    law_occurs(code, line);
    assert(decimal(id as nat).is_prefix_of(line)) by {
        assert forall|i: int| 0 <= i < decimal(id as nat).len() implies decimal(id as nat)[i]
            == line[i] by {
            assert(number[i] == decimal(id as nat)[i]);
            assert(line[i] == number[i]);
        }
    }
}

/// A row of the table is the term, padded to ten characters, then a bar and the list
/// of the codes of its courses.
pub proof fn law_row(courses: Seq<Course>, id: u32)
    ensures
        term_row(courses, id) == padded(decimal(id as nat), 10) + "| ["@ + listed(
            codes_of_term(courses, id),
        ) + "]"@,
{
}

/// Users, discussions and entries have their own words for a file that cannot be
/// written; all other tasks have the same.
pub proof fn law_write_trouble(task: TaskModel)
    ensures
        task is Users || task is Discussions || task is DiscussionView ==> write_trouble_of(task)
            == "Unable to write to file for "@,
        !(task is Users || task is Discussions || task is DiscussionView) ==> write_trouble_of(task)
            == "Could not write to file "@,
{
}

} // verus!
