//! Which of the files on offer are downloaded, and where to.

use vstd::prelude::*;

use crate::canvas::{File, FileModel, ProcessOptions};
use crate::list;
use crate::naming::{is_sanitized_form, law_sanitized_name_stays_in_folder, stays_in_folder};
use crate::outside::{parse_rfc3339, rfc3339_instant, sanitize};
use crate::path::{joined, FilePath, PathModel, PathStepModel};
use crate::plan::{Report, ReportModel};

verus! {

/// What is on disk where a file would go.
#[derive(Clone, Copy, Debug, PartialEq, Eq)]
pub enum DiskState {
    /// Nothing.
    Absent,
    /// Something, with the time of its last change, if that can be had: seconds
    /// since the Unix epoch and nanoseconds on top.
    Present { modified: Option<(i64, u32)> },
}

/// Whether a file can be downloaded at all.
#[derive(Clone, Copy, Debug, PartialEq, Eq)]
pub enum Standing {
    /// It can.
    Candidate,
    /// It cannot: its time of change cannot be read.
    Untimed,
    /// It cannot: it is locked.
    Locked,
}

/// Whether a file can be downloaded at all, if `at` is its time of change.
pub open spec fn standing_of(locked_for_user: bool, at: Option<(i64, u32)>) -> Standing {
    if locked_for_user {
        Standing::Locked
    } else if at is None {
        Standing::Untimed
    } else {
        Standing::Candidate
    }
}

/// The standing of `file`.
pub open spec fn file_standing(file: FileModel) -> Standing {
    standing_of(file.locked_for_user, rfc3339_instant(file.updated_at))
}

/// Files, and what the user is told about those that are not among them.
#[derive(Debug, PartialEq, Eq)]
pub struct Screened {
    pub files: Vec<File>,
    pub reports: Vec<Report>,
}

/// The sanitized names of `files`.
pub open spec fn are_clean_names(files: Seq<FileModel>, names: Seq<Seq<char>>) -> bool {
    &&& names.len() == files.len()
    &&& forall|i: int|
        0 <= i < files.len() ==> is_sanitized_form(files[i].display_name, #[trigger] names[i])
}

/// `file` with the path of `name` in the folder `path`.
pub open spec fn placed(file: FileModel, path: PathModel, name: Seq<char>) -> FileModel {
    FileModel { filepath: joined(path, name), ..file }
}

/// The files, each placed in the folder `path` under its name, that are neither
/// locked nor without a readable time of change.
pub open spec fn candidates(
    files: Seq<FileModel>,
    path: PathModel,
    names: Seq<Seq<char>>,
) -> Seq<FileModel>
    decreases files.len(),
{
    if files.len() == 0 {
        Seq::empty()
    } else {
        let before = candidates(files.drop_last(), path, names);
        let file = files.last();
        if file_standing(file) is Candidate {
            before.push(placed(file, path, names[files.len() - 1]))
        } else {
            before
        }
    }
}

/// The reports on files that are not locked but have no readable time of change.
pub open spec fn timestamp_reports(files: Seq<FileModel>) -> Seq<ReportModel>
    decreases files.len(),
{
    if files.len() == 0 {
        Seq::empty()
    } else {
        let before = timestamp_reports(files.drop_last());
        let file = files.last();
        if file_standing(file) is Untimed {
            before.push(
                ReportModel::BadTimestamp {
                    display_name: file.display_name,
                    updated_at: file.updated_at,
                },
            )
        } else {
            before
        }
    }
}

/// An instant in nanoseconds since the Unix epoch.
pub open spec fn nanoseconds(at: (i64, u32)) -> int {
    at.0 * 1_000_000_000 + at.1
}

/// Whether the time `old` is before the time `new`. Without both it counts as not
/// before.
pub open spec fn is_before(old: Option<(i64, u32)>, new: Option<(i64, u32)>) -> bool {
    match (old, new) {
        (Some(old), Some(new)) => nanoseconds(old) < nanoseconds(new),
        _ => false,
    }
}

/// Whether a file on disk is older than the change at `updated_at`.
pub open spec fn is_outdated(modified: Option<(i64, u32)>, updated_at: Seq<char>) -> bool {
    is_before(modified, rfc3339_instant(updated_at))
}

/// Whether there is something on disk that is older than `file`.
pub open spec fn has_update(file: FileModel, disk: DiskState) -> bool {
    disk matches DiskState::Present { modified } && is_outdated(modified, file.updated_at)
}

/// Whether `file` is downloaded: if there is nothing in its place, or if what is
/// there is older and newer files are asked for.
pub open spec fn is_wanted(file: FileModel, disk: DiskState, download_newer: bool) -> bool {
    disk is Absent || (has_update(file, disk) && download_newer)
}

/// Those of `files` that are downloaded.
pub open spec fn wanted(
    files: Seq<FileModel>,
    on_disk: Seq<DiskState>,
    download_newer: bool,
) -> Seq<FileModel>
    decreases files.len(),
{
    if files.len() == 0 {
        Seq::empty()
    } else {
        let before = wanted(files.drop_last(), on_disk, download_newer);
        if is_wanted(files.last(), on_disk[files.len() - 1], download_newer) {
            before.push(files.last())
        } else {
            before
        }
    }
}

/// The reports on files that have an update, downloaded or not.
pub open spec fn update_reports(files: Seq<FileModel>, on_disk: Seq<DiskState>) -> Seq<ReportModel>
    decreases files.len(),
{
    if files.len() == 0 {
        Seq::empty()
    } else {
        let before = update_reports(files.drop_last(), on_disk);
        if has_update(files.last(), on_disk[files.len() - 1]) {
            before.push(ReportModel::UpdateFound { path: files.last().filepath })
        } else {
            before
        }
    }
}

/// The sanitized names of `files`, in their order.
pub fn clean_names(files: &Vec<File>) -> (res: Vec<String>)
    ensures
        are_clean_names(files.deep_view(), res.deep_view()),
{
    let mut names: Vec<String> = Vec::new();
    let mut i: usize = 0;
    while i < files.len()
        invariant
            i <= files.len(),
            names.len() == i,
            forall|k: int|
                0 <= k < i ==> is_sanitized_form(
                    files[k].display_name@,
                    (#[trigger] names[k])@,
                ),
        decreases files.len() - i,
    {
        names.push(sanitize(files[i].display_name.as_str()));
        i += 1;
    }
    names
}

/// The instant that `text` gives, if it can be read.
pub fn read_time(text: &str) -> (res: Option<(i64, u32)>)
    ensures
        res == rfc3339_instant(text@),
{
    match parse_rfc3339(text) {
        Ok(at) => Some(at),
        Err(_) => None,
    }
}

/// Whether a file can be downloaded at all, if `at` is its time of change.
pub fn standing(locked_for_user: bool, at: Option<(i64, u32)>) -> (res: Standing)
    ensures
        res == standing_of(locked_for_user, at),
{
    if locked_for_user {
        Standing::Locked
    } else if at.is_none() {
        Standing::Untimed
    } else {
        Standing::Candidate
    }
}

/// Places `files` in the folder `path` under the names `names`, and leaves out
/// those that are locked or have no readable time of change.
pub fn place_files(path: &FilePath, files: Vec<File>, names: &Vec<String>) -> (res: Screened)
    requires
        names.len() == files.len(),
    ensures
        res.files.deep_view() == candidates(
            files.deep_view(),
            path.deep_view(),
            names.deep_view(),
        ),
        res.reports.deep_view() == timestamp_reports(files.deep_view()),
{
    let ghost all = files.deep_view();
    let mut kept: Vec<File> = list::empty();
    let mut reports: Vec<Report> = list::empty();
    let mut i: usize = 0;
    for file in it: files
        invariant
            it.seq() == files@,
            all == files.deep_view(),
            names.len() == files.len(),
            i == it.index(),
            kept.deep_view() == candidates(all.take(i as int), path.deep_view(), names.deep_view()),
            reports.deep_view() == timestamp_reports(all.take(i as int)),
    {
        let mut file: File = file;
        assert(all.take(i + 1).drop_last() == all.take(i as int));
        assert(all.take(i + 1).last() == file.deep_view());
        let name: &String = &names[i];
        file.filepath = path.join(name.as_str());
        i += 1;
        match standing(file.locked_for_user, read_time(file.updated_at.as_str())) {
            Standing::Candidate => {
                list::push(&mut kept, file);
            },
            Standing::Untimed => {
                list::push(
                    &mut reports,
                    Report::BadTimestamp {
                        display_name: file.display_name,
                        updated_at: file.updated_at,
                    },
                );
            },
            Standing::Locked => {},
        }
    }
    assert(all.take(i as int) == all);
    Screened { files: kept, reports }
}

/// Whether `res` is what becomes of `files` in the folder `path` before the disk
/// is looked at, under the sanitized names of the files.
pub open spec fn are_candidates(
    files: Seq<FileModel>,
    path: PathModel,
    res: Seq<FileModel>,
) -> bool {
    exists|names: Seq<Seq<char>>| #[trigger]
        are_clean_names(files, names) && res == candidates(files, path, names)
}

/// Places `files` in the folder `path` under their sanitized names, and leaves
/// out those that are locked or have no readable time of change.
pub fn candidate_files(path: &FilePath, files: Vec<File>) -> (res: Screened)
    ensures
        are_candidates(files.deep_view(), path.deep_view(), res.files.deep_view()),
        res.reports.deep_view() == timestamp_reports(files.deep_view()),
{
    let names: Vec<String> = clean_names(&files);
    place_files(path, files, &names)
}

/// Whether a file on disk is older than the change at `updated_at`.
pub fn updated(modified: Option<(i64, u32)>, updated_at: &str) -> (res: bool)
    ensures
        res == is_outdated(modified, updated_at@),
{
    comes_before(modified, read_time(updated_at))
}

/// Whether the time `old` is before the time `new`.
pub fn comes_before(old: Option<(i64, u32)>, new: Option<(i64, u32)>) -> (res: bool)
    ensures
        res == is_before(old, new),
{
    match (old, new) {
        (Some(old), Some(new)) => {
            let old_nanoseconds: i128 = old.0 as i128 * 1_000_000_000 + old.1 as i128;
            let new_nanoseconds: i128 = new.0 as i128 * 1_000_000_000 + new.1 as i128;
            old_nanoseconds < new_nanoseconds
        },
        _ => false,
    }
}

/// Those of the candidates that are downloaded, given what is on disk in the
/// place of each.
pub fn filter_files(
    options: &ProcessOptions,
    files: Vec<File>,
    on_disk: &Vec<DiskState>,
) -> (res: Screened)
    requires
        on_disk.len() == files.len(),
    ensures
        res.files.deep_view() == wanted(files.deep_view(), on_disk@, options.download_newer),
        res.reports.deep_view() == update_reports(files.deep_view(), on_disk@),
{
    let ghost all = files.deep_view();
    let mut kept: Vec<File> = list::empty();
    let mut reports: Vec<Report> = list::empty();
    let mut i: usize = 0;
    for file in it: files
        invariant
            it.seq() == files@,
            all == files.deep_view(),
            on_disk.len() == files.len(),
            i == it.index(),
            kept.deep_view() == wanted(all.take(i as int), on_disk@, options.download_newer),
            reports.deep_view() == update_reports(all.take(i as int), on_disk@),
    {
        assert(all.take(i + 1).drop_last() == all.take(i as int));
        assert(all.take(i + 1).last() == file.deep_view());
        let mut keep: bool = true;
        if let DiskState::Present { modified } = on_disk[i] {
            let newer: bool = updated(modified, file.updated_at.as_str());
            if newer {
                list::push(&mut reports, Report::UpdateFound { path: file.filepath.clone() });
            }
            keep = newer && options.download_newer;
        }
        i += 1;
        if keep {
            list::push(&mut kept, file);
        }
    }
    assert(all.take(i as int) == all);
    Screened { files: kept, reports }
}

/// Every candidate is one of the files, placed under its own name; it is not
/// locked, and its time of change is readable.
pub proof fn law_candidates(files: Seq<FileModel>, path: PathModel, names: Seq<Seq<char>>, k: int)
    requires
        0 <= k < candidates(files, path, names).len(),
    ensures
        exists|i: int|
            {
                &&& 0 <= i < files.len()
                &&& candidates(files, path, names)[k] == placed(
                    #[trigger] files[i],
                    path,
                    names[i],
                )
                &&& !files[i].locked_for_user
                &&& rfc3339_instant(files[i].updated_at) is Some
            },
    decreases files.len(),
{
    let before = candidates(files.drop_last(), path, names);
    if k < before.len() {
        law_candidates(files.drop_last(), path, names, k);
        let i = choose|i: int|
            {
                &&& 0 <= i < files.len() - 1
                &&& before[k] == placed(#[trigger] files.drop_last()[i], path, names[i])
                &&& !files.drop_last()[i].locked_for_user
                &&& rfc3339_instant(files.drop_last()[i].updated_at) is Some
            };
        assert(files[i] == files.drop_last()[i]);
    } else {
        assert(files[files.len() - 1] == files.last());
    }
}

/// No file that is neither locked nor without a readable time of change is
/// missing among the candidates.
pub proof fn law_candidates_complete(
    files: Seq<FileModel>,
    path: PathModel,
    names: Seq<Seq<char>>,
    i: int,
)
    requires
        0 <= i < files.len(),
        !files[i].locked_for_user,
        rfc3339_instant(files[i].updated_at) is Some,
    ensures
        candidates(files, path, names).contains(placed(files[i], path, names[i])),
    decreases files.len(),
{
    let all = candidates(files, path, names);
    let before = candidates(files.drop_last(), path, names);
    if i < files.len() - 1 {
        law_candidates_complete(files.drop_last(), path, names, i);
        let k = choose|k: int|
            0 <= k < before.len() && before[k] == placed(files.drop_last()[i], path, names[i]);
        assert(all[k] == before[k]);
    } else {
        assert(all.last() == placed(files[i], path, names[i]));
    }
}

/// Every file that is downloaded goes straight into the folder: its path is the
/// folder's, joined with a name that cannot lead out of it.
pub proof fn law_candidates_stay_in_folder(
    files: Seq<FileModel>,
    path: PathModel,
    res: Seq<FileModel>,
    k: int,
)
    requires
        are_candidates(files, path, res),
        0 <= k < res.len(),
    ensures
        exists|name: Seq<char>|
            res[k].filepath == joined(path, name) && #[trigger] stays_in_folder(name),
{
    let names = choose|names: Seq<Seq<char>>| #[trigger]
        are_clean_names(files, names) && res == candidates(files, path, names);
    law_candidates(files, path, names, k);
    let i = choose|i: int|
        0 <= i < files.len() && res[k] == placed(#[trigger] files[i], path, names[i]);
    law_sanitized_name_stays_in_folder(files[i].display_name, names[i]);
    assert(stays_in_folder(names[i]));
}

/// A file is downloaded exactly if it is wanted.
pub proof fn law_wanted(
    files: Seq<FileModel>,
    on_disk: Seq<DiskState>,
    download_newer: bool,
    file: FileModel,
)
    requires
        on_disk.len() == files.len(),
    ensures
        wanted(files, on_disk, download_newer).contains(file) <==> exists|i: int|
            0 <= i < files.len() && #[trigger] files[i] == file && is_wanted(
                file,
                on_disk[i],
                download_newer,
            ),
    decreases files.len(),
{
    if files.len() > 0 {
        let before = wanted(files.drop_last(), on_disk, download_newer);
        let all = wanted(files, on_disk, download_newer);
        let last = files.len() - 1;
        lemma_wanted_ignores_rest(files.drop_last(), on_disk, download_newer);
        law_wanted(files.drop_last(), on_disk.drop_last(), download_newer, file);
        if all.contains(file) {
            let k = choose|k: int| 0 <= k < all.len() && all[k] == file;
            if k < before.len() {
                assert(before.contains(file)) by {
                    assert(before[k] == file);
                }
                let i = choose|i: int|
                    0 <= i < last && #[trigger] files.drop_last()[i] == file && is_wanted(
                        file,
                        on_disk.drop_last()[i],
                        download_newer,
                    );
                assert(files[i] == file);
            } else {
                assert(files[last] == file);
            }
        }
        if exists|i: int|
            0 <= i < files.len() && #[trigger] files[i] == file && is_wanted(
                file,
                on_disk[i],
                download_newer,
            ) {
            let i = choose|i: int|
                0 <= i < files.len() && #[trigger] files[i] == file && is_wanted(
                    file,
                    on_disk[i],
                    download_newer,
                );
            if i < last {
                assert(files.drop_last()[i] == file);
                let k = choose|k: int| 0 <= k < before.len() && before[k] == file;
                assert(all[k] == file);
            } else {
                assert(all.last() == file);
            }
        }
    }
}

/// What is on disk beyond the files in question makes no difference.
proof fn lemma_wanted_ignores_rest(
    files: Seq<FileModel>,
    on_disk: Seq<DiskState>,
    download_newer: bool,
)
    requires
        on_disk.len() >= files.len(),
    ensures
        wanted(files, on_disk, download_newer) == wanted(
            files,
            on_disk.take(files.len() as int),
            download_newer,
        ),
    decreases files.len(),
{
    if files.len() > 0 {
        let rest = files.drop_last();
        let short = on_disk.take(files.len() as int);
        lemma_wanted_ignores_rest(rest, on_disk, download_newer);
        lemma_wanted_ignores_rest(rest, short, download_newer);
        assert(short.take(rest.len() as int) == on_disk.take(rest.len() as int));
    }
}

/// Unless newer files are asked for, nothing that is on disk is downloaded
/// again, whatever has changed on Canvas.
pub proof fn law_default_never_overwrites(
    files: Seq<FileModel>,
    on_disk: Seq<DiskState>,
    file: FileModel,
)
    requires
        on_disk.len() == files.len(),
        wanted(files, on_disk, false).contains(file),
    ensures
        exists|i: int|
            0 <= i < files.len() && #[trigger] files[i] == file && on_disk[i] is Absent,
{
    law_wanted(files, on_disk, false, file);
}

/// A file whose time of change on disk is that of Canvas is not downloaded
/// again, even if newer files are asked for.
pub proof fn law_current_file_is_left(file: FileModel, at: (i64, u32), download_newer: bool)
    requires
        rfc3339_instant(file.updated_at) == Some(at),
    ensures
        !is_wanted(file, DiskState::Present { modified: Some(at) }, download_newer),
{
}

/// The names of `files`, if `clean` gives the sanitized form of every name.
pub open spec fn names_by(
    files: Seq<FileModel>,
    clean: spec_fn(Seq<char>) -> Seq<char>,
) -> Seq<Seq<char>> {
    Seq::new(files.len(), |i: int| clean(files[i].display_name))
}

/// What is on disk in the place of each of `files`, if `disk` gives what is at every
/// path.
pub open spec fn disk_by(
    files: Seq<FileModel>,
    disk: spec_fn(PathModel) -> DiskState,
) -> Seq<DiskState> {
    Seq::new(files.len(), |i: int| disk(files[i].filepath))
}

/// Those of `files` that are downloaded to the folder `path`: the candidates, under
/// the names that `clean` gives them, that are wanted where `disk` is on disk.
pub open spec fn screened(
    files: Seq<FileModel>,
    path: PathModel,
    clean: spec_fn(Seq<char>) -> Seq<char>,
    disk: spec_fn(PathModel) -> DiskState,
    download_newer: bool,
) -> Seq<FileModel> {
    let kept = candidates(files, path, names_by(files, clean));
    wanted(kept, disk_by(kept, disk), download_newer)
}

/// Names beyond the files in question make no difference.
proof fn lemma_candidates_ignore_rest(
    files: Seq<FileModel>,
    path: PathModel,
    names: Seq<Seq<char>>,
    others: Seq<Seq<char>>,
)
    requires
        forall|i: int| 0 <= i < files.len() ==> #[trigger] names[i] == others[i],
    ensures
        candidates(files, path, names) == candidates(files, path, others),
    decreases files.len(),
{
    if files.len() > 0 {
        lemma_candidates_ignore_rest(files.drop_last(), path, names, others);
        assert(names[files.len() - 1] == others[files.len() - 1]);
    }
}

/// The candidates among two lists are those among the first, then those among the
/// second.
pub proof fn law_candidates_add_up(
    a: Seq<FileModel>,
    b: Seq<FileModel>,
    path: PathModel,
    clean: spec_fn(Seq<char>) -> Seq<char>,
)
    ensures
        candidates(a + b, path, names_by(a + b, clean)) == candidates(a, path, names_by(a, clean))
            + candidates(b, path, names_by(b, clean)),
    decreases b.len(),
{
    if b.len() == 0 {
        assert(a + b == a);
        assert(candidates(a, path, names_by(a, clean)) + Seq::empty() == candidates(
            a,
            path,
            names_by(a, clean),
        ));
    } else {
        let rest = b.drop_last();
        law_candidates_add_up(a, rest, path, clean);
        assert((a + b).drop_last() == a + rest);
        lemma_candidates_ignore_rest(
            a + rest,
            path,
            names_by(a + b, clean),
            names_by(a + rest, clean),
        );
        lemma_candidates_ignore_rest(rest, path, names_by(b, clean), names_by(rest, clean));
        assert(candidates(a + b, path, names_by(a + b, clean)) =~= candidates(
            a,
            path,
            names_by(a, clean),
        ) + candidates(b, path, names_by(b, clean)));
    }
}

/// The files among two lists that are wanted are those among the first, then those
/// among the second.
pub proof fn law_wanted_add_up(
    a: Seq<FileModel>,
    b: Seq<FileModel>,
    disk: spec_fn(PathModel) -> DiskState,
    download_newer: bool,
)
    ensures
        wanted(a + b, disk_by(a + b, disk), download_newer) == wanted(
            a,
            disk_by(a, disk),
            download_newer,
        ) + wanted(b, disk_by(b, disk), download_newer),
    decreases b.len(),
{
    if b.len() == 0 {
        assert(a + b == a);
        assert(wanted(a, disk_by(a, disk), download_newer) + Seq::empty() == wanted(
            a,
            disk_by(a, disk),
            download_newer,
        ));
    } else {
        let rest = b.drop_last();
        law_wanted_add_up(a, rest, disk, download_newer);
        assert((a + b).drop_last() == a + rest);
        lemma_wanted_ignores_rest(a + rest, disk_by(a + b, disk), download_newer);
        assert(disk_by(a + b, disk).take((a + rest).len() as int) == disk_by(a + rest, disk));
        lemma_wanted_ignores_rest(rest, disk_by(b, disk), download_newer);
        assert(disk_by(b, disk).take(rest.len() as int) == disk_by(rest, disk));
        assert(wanted(a + b, disk_by(a + b, disk), download_newer) =~= wanted(
            a,
            disk_by(a, disk),
            download_newer,
        ) + wanted(b, disk_by(b, disk), download_newer));
    }
}

/// Screening adds up: of two lists those files are downloaded that are of the first,
/// then those that are of the second.
pub proof fn law_screening_adds_up(
    a: Seq<FileModel>,
    b: Seq<FileModel>,
    path: PathModel,
    clean: spec_fn(Seq<char>) -> Seq<char>,
    disk: spec_fn(PathModel) -> DiskState,
    download_newer: bool,
)
    ensures
        screened(a + b, path, clean, disk, download_newer) == screened(
            a,
            path,
            clean,
            disk,
            download_newer,
        ) + screened(b, path, clean, disk, download_newer),
{
    law_candidates_add_up(a, b, path, clean);
    law_wanted_add_up(
        candidates(a, path, names_by(a, clean)),
        candidates(b, path, names_by(b, clean)),
        disk,
        download_newer,
    );
}

/// Whether `file` is in the folder `path` under its own name and can be downloaded.
spec fn is_placed(
    file: FileModel,
    path: PathModel,
    clean: spec_fn(Seq<char>) -> Seq<char>,
) -> bool {
    &&& file == placed(file, path, clean(file.display_name))
    &&& file_standing(file) is Candidate
}

/// Files that are placed and can be downloaded are all candidates, as they are.
proof fn lemma_placed_stay(
    files: Seq<FileModel>,
    path: PathModel,
    clean: spec_fn(Seq<char>) -> Seq<char>,
)
    requires
        forall|i: int| 0 <= i < files.len() ==> is_placed(#[trigger] files[i], path, clean),
    ensures
        candidates(files, path, names_by(files, clean)) == files,
    decreases files.len(),
{
    if files.len() > 0 {
        let rest = files.drop_last();
        assert forall|i: int| 0 <= i < rest.len() implies is_placed(
            #[trigger] rest[i],
            path,
            clean,
        ) by {
            assert(rest[i] == files[i]);
        }
        lemma_placed_stay(rest, path, clean);
        lemma_candidates_ignore_rest(rest, path, names_by(files, clean), names_by(rest, clean));
        assert(is_placed(files[files.len() - 1], path, clean));
        assert(rest.push(files.last()) == files);
    }
}

/// Files that are wanted are all kept.
proof fn lemma_wanted_stay(
    files: Seq<FileModel>,
    disk: spec_fn(PathModel) -> DiskState,
    download_newer: bool,
)
    requires
        forall|i: int|
            0 <= i < files.len() ==> is_wanted(
                #[trigger] files[i],
                disk(files[i].filepath),
                download_newer,
            ),
    ensures
        wanted(files, disk_by(files, disk), download_newer) == files,
    decreases files.len(),
{
    if files.len() > 0 {
        let rest = files.drop_last();
        assert forall|i: int| 0 <= i < rest.len() implies is_wanted(
            #[trigger] rest[i],
            disk(rest[i].filepath),
            download_newer,
        ) by {
            assert(rest[i] == files[i]);
        }
        lemma_wanted_stay(rest, disk, download_newer);
        lemma_wanted_ignores_rest(rest, disk_by(files, disk), download_newer);
        assert(disk_by(files, disk).take(rest.len() as int) == disk_by(rest, disk));
        assert(is_wanted(
            files[files.len() - 1],
            disk(files[files.len() - 1].filepath),
            download_newer,
        ));
        assert(rest.push(files.last()) == files);
    }
}

/// Screening a second time changes nothing: files that are downloaded are so again,
/// in the same places, while the disk stays as it is.
pub proof fn law_screening_settles(
    files: Seq<FileModel>,
    path: PathModel,
    clean: spec_fn(Seq<char>) -> Seq<char>,
    disk: spec_fn(PathModel) -> DiskState,
    download_newer: bool,
)
    ensures
        screened(
            screened(files, path, clean, disk, download_newer),
            path,
            clean,
            disk,
            download_newer,
        ) == screened(files, path, clean, disk, download_newer),
{
    let names = names_by(files, clean);
    let kept = candidates(files, path, names);
    let found = disk_by(kept, disk);
    let res = wanted(kept, found, download_newer);
    assert forall|k: int| 0 <= k < res.len() implies is_placed(#[trigger] res[k], path, clean)
        && is_wanted(res[k], disk(res[k].filepath), download_newer) by {
        law_wanted(kept, found, download_newer, res[k]);
        assert(res.contains(res[k]));
        let i = choose|i: int|
            0 <= i < kept.len() && #[trigger] kept[i] == res[k] && is_wanted(
                res[k],
                found[i],
                download_newer,
            );
        law_candidates(files, path, names, i);
    }
    lemma_placed_stay(res, path, clean);
    lemma_wanted_stay(res, disk, download_newer);
}

/// A candidate that is not on disk is downloaded, whatever else it is and whether
/// or not newer files are asked for.
pub proof fn law_absent_file_is_downloaded(
    files: Seq<FileModel>,
    on_disk: Seq<DiskState>,
    download_newer: bool,
    i: int,
)
    requires
        on_disk.len() == files.len(),
        0 <= i < files.len(),
        on_disk[i] == DiskState::Absent,
    ensures
        wanted(files, on_disk, download_newer).contains(files[i]),
{
    law_wanted(files, on_disk, download_newer, files[i]);
}

/// A candidate that is on disk with an earlier time is downloaded if newer files
/// are asked for.
pub proof fn law_older_file_is_downloaded_on_request(
    files: Seq<FileModel>,
    on_disk: Seq<DiskState>,
    i: int,
    old: (i64, u32),
    new: (i64, u32),
)
    requires
        on_disk.len() == files.len(),
        0 <= i < files.len(),
        on_disk[i] == (DiskState::Present { modified: Some(old) }),
        rfc3339_instant(files[i].updated_at) == Some(new),
        old.0 * 1_000_000_000 + old.1 < new.0 * 1_000_000_000 + new.1,
    ensures
        wanted(files, on_disk, true).contains(files[i]),
{
    law_wanted(files, on_disk, true, files[i]);
}

/// Nothing else is downloaded: a file that is, is absent in one of its places, or
/// newer files are asked for and it is on disk there with an earlier time.
pub proof fn law_nothing_else_is_downloaded(
    files: Seq<FileModel>,
    on_disk: Seq<DiskState>,
    download_newer: bool,
    file: FileModel,
)
    requires
        on_disk.len() == files.len(),
        wanted(files, on_disk, download_newer).contains(file),
    ensures
        exists|i: int|
            0 <= i < files.len() && #[trigger] files[i] == file && match on_disk[i] {
                DiskState::Absent => true,
                DiskState::Present { modified: Some(old) } => download_newer && match rfc3339_instant(
                    file.updated_at,
                ) {
                    Some(new) => old.0 * 1_000_000_000 + old.1 < new.0 * 1_000_000_000 + new.1,
                    None => false,
                },
                DiskState::Present { modified: None } => false,
            },
{
    law_wanted(files, on_disk, download_newer, file);
    let i = choose|i: int|
        0 <= i < files.len() && #[trigger] files[i] == file && is_wanted(
            file,
            on_disk[i],
            download_newer,
        );
    assert(files[i] == file);
}

/// Files are decided on one by one, in their order: one more file is downloaded
/// after the others exactly if it is absent, or older on disk and asked for.
pub proof fn law_files_are_decided_one_by_one(
    files: Seq<FileModel>,
    on_disk: Seq<DiskState>,
    download_newer: bool,
    file: FileModel,
    disk: DiskState,
)
    requires
        on_disk.len() == files.len(),
    ensures
        wanted(Seq::empty(), Seq::empty(), download_newer) == Seq::<FileModel>::empty(),
        disk == DiskState::Absent ==> wanted(
            files.push(file),
            on_disk.push(disk),
            download_newer,
        ) == wanted(files, on_disk, download_newer).push(file),
        !download_newer && disk is Present ==> wanted(
            files.push(file),
            on_disk.push(disk),
            download_newer,
        ) == wanted(files, on_disk, download_newer),
        disk matches DiskState::Present { modified: None } ==> wanted(
            files.push(file),
            on_disk.push(disk),
            download_newer,
        ) == wanted(files, on_disk, download_newer),
        rfc3339_instant(file.updated_at) is None && disk is Present ==> wanted(
            files.push(file),
            on_disk.push(disk),
            download_newer,
        ) == wanted(files, on_disk, download_newer),
        disk matches DiskState::Present { modified: Some(old) } ==> (rfc3339_instant(
            file.updated_at,
        ) matches Some(new) ==> wanted(files.push(file), on_disk.push(disk), true) == if old.0
            * 1_000_000_000 + old.1 < new.0 * 1_000_000_000 + new.1 {
            wanted(files, on_disk, true).push(file)
        } else {
            wanted(files, on_disk, true)
        }),
{
    assert(files.push(file).drop_last() =~= files);
    lemma_wanted_ignores_rest(files, on_disk.push(disk), download_newer);
    lemma_wanted_ignores_rest(files, on_disk.push(disk), true);
    assert(on_disk.push(disk).take(files.len() as int) =~= on_disk);
}

/// A time is before another by its second, and within one second by its
/// nanosecond; without both times there is no before.
pub proof fn law_before(old: (i64, u32), new: (i64, u32))
    requires
        old.1 < 1_000_000_000,
        new.1 < 1_000_000_000,
    ensures
        is_before(Some(old), Some(new)) <==> old.0 < new.0 || (old.0 == new.0 && old.1 < new.1),
        !is_before(None, Some(new)),
        !is_before(Some(old), None),
        !is_before(None, None),
{
}

/// A file that is neither locked nor without a readable time becomes a candidate
/// behind those before it, with all that it has but for its path: that is the
/// folder's, with its name joined. A locked file leaves no trace; an unlocked one
/// without a readable time is told.
pub proof fn law_candidates_one_by_one(
    files: Seq<FileModel>,
    path: PathModel,
    names: Seq<Seq<char>>,
    file: FileModel,
)
    ensures
        candidates(Seq::empty(), path, names) == Seq::<FileModel>::empty(),
        timestamp_reports(Seq::empty()) == Seq::<ReportModel>::empty(),
        !file.locked_for_user && rfc3339_instant(file.updated_at) is Some ==> {
            &&& candidates(files.push(file), path, names) == candidates(files, path, names).push(
                FileModel {
                    id: file.id,
                    folder_id: file.folder_id,
                    display_name: file.display_name,
                    size: file.size,
                    url: file.url,
                    updated_at: file.updated_at,
                    locked_for_user: false,
                    filepath: path.push(PathStepModel::Join(names[files.len() as int])),
                },
            )
            &&& timestamp_reports(files.push(file)) == timestamp_reports(files)
        },
        file.locked_for_user ==> {
            &&& candidates(files.push(file), path, names) == candidates(files, path, names)
            &&& timestamp_reports(files.push(file)) == timestamp_reports(files)
        },
        !file.locked_for_user && rfc3339_instant(file.updated_at) is None ==> {
            &&& candidates(files.push(file), path, names) == candidates(files, path, names)
            &&& timestamp_reports(files.push(file)) == timestamp_reports(files).push(
                ReportModel::BadTimestamp {
                    display_name: file.display_name,
                    updated_at: file.updated_at,
                },
            )
        },
{
    assert(files.push(file).drop_last() =~= files);
}

/// What a file stands as: locked if it is locked, untimed if its time cannot be
/// read, and a candidate otherwise.
pub proof fn law_standing(locked_for_user: bool, at: Option<(i64, u32)>)
    ensures
        standing_of(locked_for_user, at) == Standing::Locked <==> locked_for_user,
        standing_of(locked_for_user, at) == Standing::Untimed <==> !locked_for_user && at is None,
        standing_of(locked_for_user, at) == Standing::Candidate <==> !locked_for_user && at is Some,
{
}

/// An update is told of exactly those files that are on disk with an earlier time,
/// asked for or not, in their order.
pub proof fn law_updates_are_told(
    files: Seq<FileModel>,
    on_disk: Seq<DiskState>,
    file: FileModel,
    disk: DiskState,
)
    requires
        on_disk.len() == files.len(),
    ensures
        update_reports(Seq::empty(), Seq::empty()) == Seq::<ReportModel>::empty(),
        update_reports(files.push(file), on_disk.push(disk)) == match (
            disk,
            rfc3339_instant(file.updated_at),
        ) {
            (DiskState::Present { modified: Some(old) }, Some(new)) if old.0 * 1_000_000_000 + old.1
                < new.0 * 1_000_000_000 + new.1 => update_reports(files, on_disk).push(
                ReportModel::UpdateFound { path: file.filepath },
            ),
            _ => update_reports(files, on_disk),
        },
{
    assert(files.push(file).drop_last() =~= files);
    lemma_updates_ignore_rest(files, on_disk.push(disk), on_disk);
}

/// What is on disk beyond the files in question makes no difference to what is told.
proof fn lemma_updates_ignore_rest(
    files: Seq<FileModel>,
    on_disk: Seq<DiskState>,
    others: Seq<DiskState>,
)
    requires
        forall|i: int| 0 <= i < files.len() ==> #[trigger] on_disk[i] == others[i],
    ensures
        update_reports(files, on_disk) == update_reports(files, others),
    decreases files.len(),
{
    if files.len() > 0 {
        lemma_updates_ignore_rest(files.drop_last(), on_disk, others);
        assert(on_disk[files.len() - 1] == others[files.len() - 1]);
    }
}

/// Whatever the candidates of a list may be by their contract, every file of the
/// list that is not locked and has a readable time is one of them, in the folder
/// under a sanitized form of its own name; nothing else is.
pub proof fn law_candidates_are_the_usable_files(
    files: Seq<FileModel>,
    path: PathModel,
    res: Seq<FileModel>,
)
    requires
        are_candidates(files, path, res),
    ensures
        forall|i: int|
            0 <= i < files.len() && !(#[trigger] files[i]).locked_for_user && rfc3339_instant(
                files[i].updated_at,
            ) is Some ==> exists|k: int, name: Seq<char>|
                0 <= k < res.len() && is_sanitized_form(files[i].display_name, name)
                    && #[trigger] res[k] == (FileModel {
                    filepath: #[trigger] path.push(PathStepModel::Join(name)),
                    ..files[i]
                }),
        forall|k: int|
            0 <= k < res.len() ==> exists|i: int, name: Seq<char>|
                0 <= i < files.len() && !files[i].locked_for_user && rfc3339_instant(
                    files[i].updated_at,
                ) is Some && is_sanitized_form(files[i].display_name, name)
                    && #[trigger] res[k] == (FileModel {
                    filepath: #[trigger] path.push(PathStepModel::Join(name)),
                    ..#[trigger] files[i]
                }),
{
    let names = choose|names: Seq<Seq<char>>| #[trigger]
        are_clean_names(files, names) && res == candidates(files, path, names);
    assert forall|i: int|
        0 <= i < files.len() && !(#[trigger] files[i]).locked_for_user && rfc3339_instant(
            files[i].updated_at,
        ) is Some implies exists|k: int, name: Seq<char>|
        0 <= k < res.len() && is_sanitized_form(files[i].display_name, name) && #[trigger] res[k]
            == (FileModel { filepath: #[trigger] path.push(PathStepModel::Join(name)), ..files[i] })
        by {
        law_candidates_complete(files, path, names, i);
        let k = choose|k: int| 0 <= k < res.len() && res[k] == placed(files[i], path, names[i]);
        assert(res[k] == (FileModel {
            filepath: path.push(PathStepModel::Join(names[i])),
            ..files[i]
        }));
    }
    assert forall|k: int| 0 <= k < res.len() implies exists|i: int, name: Seq<char>|
        0 <= i < files.len() && !files[i].locked_for_user && rfc3339_instant(
            files[i].updated_at,
        ) is Some && is_sanitized_form(files[i].display_name, name) && #[trigger] res[k] == (
        FileModel { filepath: #[trigger] path.push(PathStepModel::Join(name)), ..#[trigger] files[i]
        }) by {
        law_candidates(files, path, names, k);
        let i = choose|i: int|
            {
                &&& 0 <= i < files.len()
                &&& res[k] == placed(#[trigger] files[i], path, names[i])
                &&& !files[i].locked_for_user
                &&& rfc3339_instant(files[i].updated_at) is Some
            };
        assert(res[k] == (FileModel {
            filepath: path.push(PathStepModel::Join(names[i])),
            ..files[i]
        }));
    }
}

} // verus!
