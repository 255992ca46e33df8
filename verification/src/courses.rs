//! Which courses are downloaded, and what becomes of each.

use vstd::prelude::*;

use crate::canvas::Course;
use crate::list;
use crate::path::{joined, FilePath, PathModel, PathStepModel};
use crate::plan::{Effect, EffectModel, Task, TaskModel};
use crate::text::{concat, decimal, decimal_string, replace, replaced};

verus! {

/// A record in the list of courses: whether it has enrollments, and the course
/// that it gives or the reason why it gives none.
#[derive(Debug, PartialEq, Eq)]
pub struct CourseRecord {
    pub enrolled: bool,
    pub course: Result<Course, String>,
}

/// Where the courses of the user are listed.
pub fn courses_link(canvas_url: &str) -> (res: String)
    ensures
        res@ == canvas_url@ + "/api/v1/users/self/favorites/courses"@,
{
    concat(canvas_url, "/api/v1/users/self/favorites/courses")
}

/// The courses of those records that have enrollments. The first of them that
/// gives no course makes the whole list unreadable.
pub open spec fn enrolled(records: Seq<CourseRecord>) -> Result<Seq<Course>, Seq<char>>
    decreases records.len(),
{
    if records.len() == 0 {
        Ok(Seq::empty())
    } else {
        match enrolled(records.drop_last()) {
            Err(error) => Err(error),
            Ok(courses) => if records.last().enrolled {
                match records.last().course {
                    Ok(course) => Ok(courses.push(course)),
                    Err(error) => Err(error@),
                }
            } else {
                Ok(courses)
            },
        }
    }
}

/// A list that is unreadable stays so however it goes on.
proof fn lemma_enrolled_error(records: Seq<CourseRecord>, k: int)
    requires
        0 <= k <= records.len(),
        enrolled(records.take(k)) is Err,
    ensures
        enrolled(records) == enrolled(records.take(k)),
    decreases records.len(),
{
    if k == records.len() {
        assert(records.take(k) == records);
    } else {
        assert(records.drop_last().take(k) == records.take(k));
        lemma_enrolled_error(records.drop_last(), k);
    }
}

/// The courses of those records that have enrollments.
pub fn enrolled_courses(records: Vec<CourseRecord>) -> (res: Result<Vec<Course>, String>)
    ensures
        match res {
            Ok(courses) => enrolled(records@) == Ok::<_, Seq<char>>(courses@),
            Err(error) => enrolled(records@) == Err::<Seq<Course>, _>(error@),
        },
{
    let ghost all = records@;
    let mut courses: Vec<Course> = Vec::new();
    for record in it: records
        invariant
            it.seq() == all,
            all == records@,
            enrolled(all.take(it.index())) == Ok::<_, Seq<char>>(courses@),
    {
        assert(all.take(it.index() + 1).drop_last() == all.take(it.index()));
        assert(all.take(it.index() + 1).last() == record);
        if record.enrolled {
            match record.course {
                Ok(course) => {
                    courses.push(course);
                },
                Err(error) => {
                    proof {
                        lemma_enrolled_error(all, it.index() + 1);
                    }
                    return Err(error);
                },
            }
        }
    }
    assert(all.take(all.len() as int) == all);
    Ok(courses)
}

/// Whether `ids` is the list of the terms of `courses`: each once, in ascending
/// order.
pub open spec fn are_terms(courses: Seq<Course>, ids: Seq<u32>) -> bool {
    &&& forall|i: int, j: int| 0 <= i < j < ids.len() ==> ids[i] < ids[j]
    &&& forall|i: int|
        0 <= i < ids.len() ==> exists|k: int|
            0 <= k < courses.len() && (#[trigger] courses[k]).enrollment_term_id
                == #[trigger] ids[i]
    &&& forall|k: int|
        0 <= k < courses.len() ==> ids.contains((#[trigger] courses[k]).enrollment_term_id)
}

/// There is only one list of the terms of `courses`.
pub proof fn law_terms_are_unique(courses: Seq<Course>, a: Seq<u32>, b: Seq<u32>)
    requires
        are_terms(courses, a),
        are_terms(courses, b),
    ensures
        a == b,
{
    assert forall|id: u32| a.contains(id) == b.contains(id) by {
        if a.contains(id) {
            let i = choose|i: int| 0 <= i < a.len() && a[i] == id;
            assert(a[i] == id);
        }
        if b.contains(id) {
            let i = choose|i: int| 0 <= i < b.len() && b[i] == id;
            assert(b[i] == id);
        }
    }
    lemma_ascending_unique(a, b);
}

/// Two ascending lists of the same numbers are equal.
proof fn lemma_ascending_unique(a: Seq<u32>, b: Seq<u32>)
    requires
        forall|i: int, j: int| 0 <= i < j < a.len() ==> a[i] < a[j],
        forall|i: int, j: int| 0 <= i < j < b.len() ==> b[i] < b[j],
        forall|id: u32| a.contains(id) == b.contains(id),
    ensures
        a == b,
    decreases a.len(),
{
    if a.len() == 0 {
        if b.len() > 0 {
            assert(b.contains(b[0]));
        }
        assert(a == b);
    } else {
        assert(a.contains(a.last()));
        let k = choose|k: int| 0 <= k < b.len() && b[k] == a.last();
        assert(b.contains(b.last()));
        let m = choose|m: int| 0 <= m < a.len() && a[m] == b.last();
        assert(a.last() == b.last());
        let short_a = a.drop_last();
        let short_b = b.drop_last();
        assert forall|id: u32| short_a.contains(id) == short_b.contains(id) by {
            if short_a.contains(id) {
                let i = choose|i: int| 0 <= i < short_a.len() && short_a[i] == id;
                assert(a[i] == id);
                assert(a.contains(id));
                let j = choose|j: int| 0 <= j < b.len() && b[j] == id;
                assert(short_b[j] == id);
            }
            if short_b.contains(id) {
                let i = choose|i: int| 0 <= i < short_b.len() && short_b[i] == id;
                assert(b[i] == id);
                assert(b.contains(id));
                let j = choose|j: int| 0 <= j < a.len() && a[j] == id;
                assert(short_a[j] == id);
            }
        }
        lemma_ascending_unique(short_a, short_b);
        assert(a == short_a.push(a.last()));
        assert(b == short_b.push(b.last()));
    }
}

/// The codes of those of `courses` that belong to the term `id`, in their order.
pub open spec fn codes_of_term(courses: Seq<Course>, id: u32) -> Seq<Seq<char>>
    decreases courses.len(),
{
    if courses.len() == 0 {
        Seq::empty()
    } else {
        let before = codes_of_term(courses.drop_last(), id);
        if courses.last().enrollment_term_id == id {
            before.push(courses.last().course_code@)
        } else {
            before
        }
    }
}

/// The terms of `courses`, each once, in ascending order.
pub fn term_ids(courses: &Vec<Course>) -> (res: Vec<u32>)
    ensures
        are_terms(courses@, res@),
{
    let mut ids: Vec<u32> = Vec::new();
    let mut k: usize = 0;
    while k < courses.len()
        invariant
            k <= courses.len(),
            are_terms(courses@.take(k as int), ids@),
        decreases courses.len() - k,
    {
        let id: u32 = courses[k].enrollment_term_id;
        let mut at: usize = 0;
        while at < ids.len() && ids[at] < id
            invariant
                at <= ids.len(),
                forall|i: int| 0 <= i < at ==> ids[i] < id,
            decreases ids.len() - at,
        {
            at += 1;
        }
        let ghost before = ids@;
        let ghost seen = courses@.take(k as int);
        let ghost now = courses@.take(k + 1);
        assert(now == seen.push(courses@[k as int]));
        if at == ids.len() || ids[at] != id {
            ids.insert(at, id);
            proof {
                assert(ids@ == before.insert(at as int, id));
                assert(ids@[at as int] == id);
                assert forall|i: int| 0 <= i < ids@.len() implies exists|k: int|
                    0 <= k < now.len() && (#[trigger] now[k]).enrollment_term_id
                        == #[trigger] ids@[i] by {
                    if i == at {
                        assert(now[k as int].enrollment_term_id == ids@[i]);
                    } else {
                        let old_i = if i < at {
                            i
                        } else {
                            i - 1
                        };
                        assert(ids@[i] == before[old_i]);
                        let m = choose|m: int|
                            0 <= m < seen.len() && (#[trigger] seen[m]).enrollment_term_id
                                == before[old_i];
                        assert(now[m] == seen[m]);
                    }
                }
                assert forall|m: int| 0 <= m < now.len() implies ids@.contains(
                    (#[trigger] now[m]).enrollment_term_id,
                ) by {
                    if m < seen.len() {
                        assert(now[m] == seen[m]);
                        let i = choose|i: int|
                            0 <= i < before.len() && before[i] == seen[m].enrollment_term_id;
                        let new_i = if i < at {
                            i
                        } else {
                            i + 1
                        };
                        assert(ids@[new_i] == before[i]);
                    }
                }
            }
        } else {
            proof {
                assert(ids@[at as int] == id);
                assert forall|i: int| 0 <= i < ids@.len() implies exists|k: int|
                    0 <= k < now.len() && (#[trigger] now[k]).enrollment_term_id
                        == #[trigger] ids@[i] by {
                    let m = choose|m: int|
                        0 <= m < seen.len() && (#[trigger] seen[m]).enrollment_term_id == ids@[i];
                    assert(now[m] == seen[m]);
                }
                assert forall|m: int| 0 <= m < now.len() implies ids@.contains(
                    (#[trigger] now[m]).enrollment_term_id,
                ) by {
                    if m < seen.len() {
                        assert(now[m] == seen[m]);
                    }
                }
            }
        }
        k += 1;
    }
    assert(courses@.take(k as int) == courses@);
    ids
}

/// The codes of those of `courses` that belong to the term `id`.
pub fn term_courses(courses: &Vec<Course>, id: u32) -> (res: Vec<String>)
    ensures
        res.deep_view() == codes_of_term(courses@, id),
{
    let mut codes: Vec<String> = list::empty();
    let mut k: usize = 0;
    while k < courses.len()
        invariant
            k <= courses.len(),
            codes.deep_view() == codes_of_term(courses@.take(k as int), id),
        decreases courses.len() - k,
    {
        assert(courses@.take(k + 1).drop_last() == courses@.take(k as int));
        if courses[k].enrollment_term_id == id {
            list::push(&mut codes, courses[k].course_code.clone());
        }
        k += 1;
    }
    assert(courses@.take(k as int) == courses@);
    codes
}

/// The terms of `courses`, in ascending order, each with the codes of its
/// courses.
pub fn courses_by_term(courses: &Vec<Course>) -> (res: Vec<(u32, Vec<String>)>)
    ensures
        are_terms(courses@, Seq::new(res@.len(), |i: int| res[i].0)),
        forall|i: int|
            0 <= i < res.len() ==> (#[trigger] res[i]).1.deep_view() == codes_of_term(
                courses@,
                res[i].0,
            ),
{
    let ids: Vec<u32> = term_ids(courses);
    let mut res: Vec<(u32, Vec<String>)> = Vec::new();
    let mut i: usize = 0;
    while i < ids.len()
        invariant
            i <= ids.len(),
            res.len() == i,
            forall|k: int| 0 <= k < i ==> (#[trigger] res[k]).0 == ids[k],
            forall|k: int|
                0 <= k < i ==> (#[trigger] res[k]).1.deep_view() == codes_of_term(
                    courses@,
                    res[k].0,
                ),
        decreases ids.len() - i,
    {
        res.push((ids[i], term_courses(courses, ids[i])));
        i += 1;
    }
    assert(Seq::new(res@.len(), |i: int| res[i].0) =~= ids@);
    res
}

/// Which courses are downloaded.
#[derive(Debug, PartialEq, Eq)]
pub enum Selection {
    /// No terms were given.
    NoTermIds,
    /// No course belongs to any of the terms.
    NoMatch,
    /// The courses at these places of the list.
    Found(Vec<usize>),
}

/// The places of those of `courses` that belong to one of the terms `ids`.
pub open spec fn matching(courses: Seq<Course>, ids: Seq<u32>) -> Seq<usize>
    decreases courses.len(),
{
    if courses.len() == 0 {
        Seq::empty()
    } else {
        let before = matching(courses.drop_last(), ids);
        if ids.contains(courses.last().enrollment_term_id) {
            before.push((courses.len() - 1) as usize)
        } else {
            before
        }
    }
}

/// Which of `courses` are downloaded, if the terms `term_ids` are given.
pub fn select_courses(courses: &Vec<Course>, term_ids: Option<&Vec<u32>>) -> (res: Selection)
    ensures
        match term_ids {
            None => res is NoTermIds,
            Some(ids) => {
                let found = matching(courses@, ids@);
                if found.len() == 0 {
                    res is NoMatch
                } else {
                    res matches Selection::Found(places) && places@ == found
                }
            },
        },
{
    let Some(ids) = term_ids else {
        return Selection::NoTermIds;
    };
    let mut found: Vec<usize> = Vec::new();
    let mut k: usize = 0;
    while k < courses.len()
        invariant
            k <= courses.len(),
            found@ == matching(courses@.take(k as int), ids@),
        decreases courses.len() - k,
    {
        assert(courses@.take(k + 1).drop_last() == courses@.take(k as int));
        let id: u32 = courses[k].enrollment_term_id;
        let mut i: usize = 0;
        while i < ids.len() && ids[i] != id
            invariant
                i <= ids.len(),
                forall|j: int| 0 <= j < i ==> ids[j] != id,
            decreases ids.len() - i,
        {
            i += 1;
        }
        if i < ids.len() {
            found.push(k);
        }
        k += 1;
    }
    assert(courses@.take(k as int) == courses@);
    if found.len() == 0 {
        Selection::NoMatch
    } else {
        Selection::Found(found)
    }
}

/// The folder of a course: its code, which is one name even if it has slashes.
pub open spec fn course_place(course: Course) -> PathModel {
    joined(PathModel::empty(), replaced(course.course_code@, '/', '_'))
}

/// Where a course is on Canvas.
pub open spec fn course_address(canvas_url: Seq<char>, course: Course) -> Seq<char> {
    canvas_url + "/api/v1/courses/"@ + decimal(course.id as nat)
}

/// What becomes of a course: it has a folder, in which its folders and
/// everything else are gone through.
pub open spec fn course_plan(canvas_url: Seq<char>, course: Course) -> Seq<EffectModel> {
    let place = course_place(course);
    let address = course_address(canvas_url, course);
    seq![
        EffectModel::EnsureFolder { path: place },
        EffectModel::Fork {
            task: TaskModel::Folders {
                url: address + "/folders/by_path/"@,
                path: joined(place, "files"@),
            },
        },
        EffectModel::Fork { task: TaskModel::Data { url: address, path: place } },
    ]
}

/// What becomes of `course`.
pub fn course_effects(canvas_url: &str, course: &Course) -> (res: Vec<Effect>)
    ensures
        res.deep_view() == course_plan(canvas_url@, *course),
{
    let folder: String = replace(course.course_code.as_str(), '/', '_');
    let place: FilePath = FilePath::destination().join(folder.as_str());
    let mut address: String = concat(canvas_url, "/api/v1/courses/");
    address.append(decimal_string(course.id as u64).as_str());
    let folders: Task = Task::Folders {
        url: concat(address.as_str(), "/folders/by_path/"),
        path: place.join("files"),
    };
    let mut res: Vec<Effect> = list::empty();
    list::push(&mut res, Effect::EnsureFolder { path: place.clone() });
    list::push(&mut res, Effect::Fork { task: folders });
    list::push(&mut res, Effect::Fork { task: Task::Data { url: address, path: place } });
    res
}

/// The path of a course is one name: its code, in which no slash is left.
pub proof fn law_course_folder_has_no_slash(course: Course)
    ensures
        !replaced(course.course_code@, '/', '_').contains('/'),
        course_place(course).len() == 1,
{
}

/// A course is downloaded exactly if its term is one of those given.
pub proof fn law_matching(courses: Seq<Course>, ids: Seq<u32>, k: int)
    requires
        0 <= k < courses.len() <= usize::MAX,
    ensures
        matching(courses, ids).contains(k as usize) <==> ids.contains(
            courses[k].enrollment_term_id,
        ),
    decreases courses.len(),
{
    let all = matching(courses, ids);
    let before = matching(courses.drop_last(), ids);
    lemma_matching_range(courses.drop_last(), ids);
    if k < courses.len() - 1 {
        law_matching(courses.drop_last(), ids, k);
        if before.contains(k as usize) {
            let i = choose|i: int| 0 <= i < before.len() && before[i] == k as usize;
            assert(all[i] == k as usize);
        }
        if all.contains(k as usize) {
            let i = choose|i: int| 0 <= i < all.len() && all[i] == k as usize;
            assert(before[i] == k as usize);
        }
    } else {
        if ids.contains(courses[k].enrollment_term_id) {
            assert(all.last() == k as usize);
        }
    }
}

/// Only places of the list are found.
proof fn lemma_matching_range(courses: Seq<Course>, ids: Seq<u32>)
    requires
        courses.len() <= usize::MAX,
    ensures
        forall|i: int|
            0 <= i < matching(courses, ids).len() ==> (#[trigger] matching(courses, ids)[i])
                < courses.len(),
    decreases courses.len(),
{
    if courses.len() > 0 {
        let before = matching(courses.drop_last(), ids);
        lemma_matching_range(courses.drop_last(), ids);
        assert forall|i: int| 0 <= i < matching(courses, ids).len() implies (
        #[trigger] matching(courses, ids)[i]) < courses.len() by {
            if i < before.len() {
                assert(matching(courses, ids)[i] == before[i]);
            }
        }
    }
}

/// How the progress of a download is shown, on a terminal that is this many
/// columns wide if that is known: a narrow one has no room for the speed.
pub fn progress_template(columns: Option<u16>) -> (res: &'static str)
    ensures
        res@ == (if columns matches Some(columns) && columns < 100 {
            "[{wide_bar:.cyan/blue}] {total_bytes} - {msg}"@
        } else {
            "[{bar:20.cyan/blue}] {bytes}/{total_bytes} - {bytes_per_sec} - {msg}"@
        }),
{
    let narrow: bool = match columns {
        Some(columns) => columns < 100,
        None => false,
    };
    if narrow {
        "[{wide_bar:.cyan/blue}] {total_bytes} - {msg}"
    } else {
        "[{bar:20.cyan/blue}] {bytes}/{total_bytes} - {bytes_per_sec} - {msg}"
    }
}

/// What the user is told before `count` files are downloaded.
pub fn download_banner(count: usize) -> (res: String)
    ensures
        res@ == "Downloading "@ + decimal(count as nat) + " file"@ + if count == 1 {
            ""@
        } else {
            "s"@
        },
{
    let mut res: String = concat("Downloading ", decimal_string(count as u64).as_str());
    res.append(" file");
    res.append(
        if count == 1 {
            ""
        } else {
            "s"
        },
    );
    res
}

/// The folder of a course is named by its code, character by character, with an
/// underscore for every slash.
pub proof fn law_course_folder_is_its_code(course: Course, i: int)
    requires
        0 <= i < course.course_code@.len(),
    ensures
        course_place(course).len() == 1,
        course_place(course)[0] matches PathStepModel::Join(name) && name.len()
            == course.course_code@.len() && name[i] == if course.course_code@[i] == '/' {
            '_'
        } else {
            course.course_code@[i]
        },
{
}

/// A course has its folder first. Then its folders are gone through in `files`, and
/// everything else in its folder, both from its number on Canvas.
pub proof fn law_course_is_gone_through(canvas_url: Seq<char>, course: Course)
    ensures
        ({
            let res = course_plan(canvas_url, course);
            let address = canvas_url + "/api/v1/courses/"@ + decimal(course.id as nat);
            let place = course_place(course);
            &&& res.len() == 3
            &&& res[0] == (EffectModel::EnsureFolder { path: place })
            &&& res[1] == (EffectModel::Fork {
                task: TaskModel::Folders {
                    url: address + "/folders/by_path/"@,
                    path: place.push(PathStepModel::Join("files"@)),
                },
            })
            &&& res[2] == (EffectModel::Fork { task: TaskModel::Data { url: address, path: place } })
        }),
{
}

/// Records are read one by one: one with enrollments adds its course, or makes the
/// list unreadable; one without them makes no difference, readable or not.
pub proof fn law_enrolled_one_by_one(records: Seq<CourseRecord>, record: CourseRecord)
    ensures
        enrolled(Seq::empty()) == Ok::<_, Seq<char>>(Seq::<Course>::empty()),
        !record.enrolled ==> enrolled(records.push(record)) == enrolled(records),
        enrolled(records) is Err ==> enrolled(records.push(record)) == enrolled(records),
        record.enrolled ==> (enrolled(records) matches Ok(courses) ==> match record.course {
            Ok(course) => enrolled(records.push(record)) == Ok::<_, Seq<char>>(
                courses.push(course),
            ),
            Err(error) => enrolled(records.push(record)) == Err::<Seq<Course>, _>(error@),
        }),
{
    assert(records.push(record).drop_last() =~= records);
}

/// No course that the user is enrolled in is missing.
pub proof fn law_no_enrolled_course_is_missing(records: Seq<CourseRecord>, i: int)
    requires
        0 <= i < records.len(),
        records[i].enrolled,
        enrolled(records) is Ok,
    ensures
        records[i].course matches Ok(course) && enrolled(records)->Ok_0.contains(course),
    decreases records.len(),
{
    let all = enrolled(records)->Ok_0;
    let rest = records.drop_last();
    if i < rest.len() {
        law_no_enrolled_course_is_missing(rest, i);
        let course = records[i].course->Ok_0;
        let before = enrolled(rest)->Ok_0;
        let k = choose|k: int| 0 <= k < before.len() && before[k] == course;
        assert(all[k] == course);
    } else {
        assert(all.last() == records[i].course->Ok_0);
    }
}

/// The codes of a term are those of its courses, one by one, in their order.
pub proof fn law_codes_one_by_one(courses: Seq<Course>, course: Course, id: u32)
    ensures
        codes_of_term(Seq::empty(), id) == Seq::<Seq<char>>::empty(),
        course.enrollment_term_id == id ==> codes_of_term(courses.push(course), id)
            == codes_of_term(courses, id).push(course.course_code@),
        course.enrollment_term_id != id ==> codes_of_term(courses.push(course), id)
            == codes_of_term(courses, id),
{
    assert(courses.push(course).drop_last() =~= courses);
}

/// Courses that are downloaded come in the order of the list, each once.
pub proof fn law_matching_ascends(courses: Seq<Course>, ids: Seq<u32>)
    requires
        courses.len() <= usize::MAX,
    ensures
        forall|i: int, j: int|
            0 <= i < j < matching(courses, ids).len() ==> matching(courses, ids)[i] < matching(
                courses,
                ids,
            )[j],
    decreases courses.len(),
{
    if courses.len() > 0 {
        let before = matching(courses.drop_last(), ids);
        let all = matching(courses, ids);
        law_matching_ascends(courses.drop_last(), ids);
        lemma_matching_range(courses.drop_last(), ids);
        assert forall|i: int, j: int| 0 <= i < j < all.len() implies all[i] < all[j] by {
            assert(all[i] == before[i]);
            if j < before.len() {
                assert(all[j] == before[j]);
            }
        }
    }
}

/// No course is downloaded without a term, and none if its term is not given.
pub proof fn law_matching_one_by_one(courses: Seq<Course>, ids: Seq<u32>, course: Course)
    requires
        courses.len() < usize::MAX,
    ensures
        matching(courses, Seq::empty()) == Seq::<usize>::empty(),
        ids.contains(course.enrollment_term_id) ==> matching(courses.push(course), ids)
            == matching(courses, ids).push(courses.len() as usize),
        !ids.contains(course.enrollment_term_id) ==> matching(courses.push(course), ids)
            == matching(courses, ids),
    decreases courses.len(),
{
    assert(courses.push(course).drop_last() =~= courses);
    if courses.len() > 0 {
        law_matching_one_by_one(courses.drop_last(), ids, course);
    }
}

} // verus!
