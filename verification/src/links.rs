//! Files and images that a text links to.

use vstd::prelude::*;
use vstd::utf8::encode_utf8;

use crate::canvas::{File, FileModel};
use crate::list;
use crate::outside::{
    course_file_at, html_attribute_values, html_attributes, is_disposition_name, is_last_segment, local_now,
    local_offset, mentions_course_file, parse_rfc2822, parse_url, quoted_at, regex_first_group,
    regex_is_match, rfc2822_instant, rfc3339_instant, rfc3339_text, url_parts, write_rfc3339,
    COURSE_FILE_PATTERN, DISPOSITION_PATTERN, LAST_SEGMENT_PATTERN, MAX_HTML_BYTES, MAX_HTML_TAGS,
};
use crate::path::{joined, FilePath, PathModel, PathStepModel};
use crate::plan::{Effect, EffectModel, Report, ReportModel, Subject};
use crate::text::{concat, contains, count_of, is_digit, law_occurs, occurs_in, starts_with};
use crate::times::{
    beyond_rfc3339, is_instant, is_offset, is_writable, law_common_instant_is_writable,
    law_written_instant_is_near, written_instant,
};

verus! {

/// What a text links to on Canvas.
#[derive(Debug, PartialEq, Eq)]
pub struct LinkTargets {
    /// Where to ask for each file.
    pub files: Vec<String>,
    /// Where each image is.
    pub images: Vec<String>,
}

/// Where to ask for the file that has the path `path` on Canvas. `None` if it is
/// no path of a course file.
pub open spec fn file_address(canvas_url: Seq<char>, path: Seq<char>) -> Option<Seq<char>> {
    if mentions_course_file(path) {
        Some(canvas_url + "/api/v1"@ + path)
    } else {
        None
    }
}

/// Where to ask for the file that `href` links to. `None` if that is not on
/// Canvas, is no address, or is no course file.
pub open spec fn file_target(canvas_url: Seq<char>, href: Seq<char>) -> Option<Seq<char>> {
    if canvas_url.is_prefix_of(href) {
        match url_parts(href) {
            Ok(parts) => file_address(canvas_url, parts.0),
            Err(_) => None,
        }
    } else {
        None
    }
}

/// The image that `src` shows, if it is on Canvas. The pictures of equations
/// are left out.
pub open spec fn image_target(canvas_url: Seq<char>, src: Seq<char>) -> Option<Seq<char>> {
    if canvas_url.is_prefix_of(src) && !occurs_in("equation_images"@, src) {
        Some(src)
    } else {
        None
    }
}

/// The targets of those of `values` that are there and have one.
pub open spec fn targets(
    values: Seq<Option<Seq<char>>>,
    target: spec_fn(Seq<char>) -> Option<Seq<char>>,
) -> Seq<Seq<char>>
    decreases values.len(),
{
    if values.len() == 0 {
        Seq::empty()
    } else {
        let before = targets(values.drop_last(), target);
        match values.last() {
            Some(value) => match target(value) {
                Some(found) => before.push(found),
                None => before,
            },
            None => before,
        }
    }
}

/// The file targets among the values of `href`.
pub open spec fn file_targets(canvas_url: Seq<char>, hrefs: Seq<Option<Seq<char>>>) -> Seq<
    Seq<char>,
> {
    targets(hrefs, |href: Seq<char>| file_target(canvas_url, href))
}

/// The image targets among the values of `src`.
pub open spec fn image_targets(canvas_url: Seq<char>, srcs: Seq<Option<Seq<char>>>) -> Seq<
    Seq<char>,
> {
    targets(srcs, |src: Seq<char>| image_target(canvas_url, src))
}

/// Where to ask for the file that has the path `path` on Canvas.
pub fn file_link(canvas_url: &str, path: &str) -> (res: Option<String>)
    ensures
        res.deep_view() == file_address(canvas_url@, path@),
{
    if regex_is_match(COURSE_FILE_PATTERN, path) {
        let mut address: String = concat(canvas_url, "/api/v1");
        address.append(path);
        Some(address)
    } else {
        None
    }
}

/// Where to ask for each of the files that `hrefs` link to.
pub fn file_links(canvas_url: &str, hrefs: &Vec<Option<String>>) -> (res: Vec<String>)
    ensures
        res.deep_view() == file_targets(canvas_url@, hrefs.deep_view()),
{
    let ghost all = hrefs.deep_view();
    let mut res: Vec<String> = list::empty();
    let mut i: usize = 0;
    while i < hrefs.len()
        invariant
            i <= hrefs.len(),
            all == hrefs.deep_view(),
            res.deep_view() == file_targets(canvas_url@, all.take(i as int)),
        decreases hrefs.len() - i,
    {
        assert(all.take(i + 1).drop_last() == all.take(i as int));
        if let Some(href) = &hrefs[i] {
            if starts_with(href.as_str(), canvas_url) {
                if let Ok(parts) = parse_url(href.as_str()) {
                    if let Some(address) = file_link(canvas_url, parts.0.as_str()) {
                        list::push(&mut res, address);
                    }
                }
            }
        }
        i += 1;
    }
    assert(all.take(i as int) == all);
    res
}

/// The images on Canvas that `srcs` show.
pub fn image_links(canvas_url: &str, srcs: &Vec<Option<String>>) -> (res: Vec<String>)
    ensures
        res.deep_view() == image_targets(canvas_url@, srcs.deep_view()),
{
    let ghost all = srcs.deep_view();
    let mut res: Vec<String> = list::empty();
    let mut i: usize = 0;
    while i < srcs.len()
        invariant
            i <= srcs.len(),
            all == srcs.deep_view(),
            res.deep_view() == image_targets(canvas_url@, all.take(i as int)),
        decreases srcs.len() - i,
    {
        assert(all.take(i + 1).drop_last() == all.take(i as int));
        if let Some(src) = &srcs[i] {
            if starts_with(src.as_str(), canvas_url) && !contains(src.as_str(), "equation_images") {
                list::push(&mut res, src.clone());
            }
        }
        i += 1;
    }
    assert(all.take(i as int) == all);
    res
}

/// What `html` links to on Canvas: the files by its anchors, the images by its
/// images. It is to be called on a stack of `HTML_STACK_PER_TAG` bytes for each
/// character in `html` that begins a tag.
pub fn process_html_links(html: &str, canvas_url: &str) -> (res: LinkTargets)
    requires
        encode_utf8(html@).len() <= MAX_HTML_BYTES,
        count_of(html@, '<') <= MAX_HTML_TAGS,
    ensures
        res.files.deep_view() == file_targets(
            canvas_url@,
            html_attributes(html@, "a"@, "href"@),
        ),
        res.images.deep_view() == image_targets(
            canvas_url@,
            html_attributes(html@, "img"@, "src"@),
        ),
{
    let hrefs: Vec<Option<String>> = html_attribute_values(html, "a", "href");
    let srcs: Vec<Option<String>> = html_attribute_values(html, "img", "src");
    LinkTargets { files: file_links(canvas_url, &hrefs), images: image_links(canvas_url, &srcs) }
}

/// The files among `found`.
pub open spec fn present(found: Seq<Option<FileModel>>) -> Seq<FileModel>
    decreases found.len(),
{
    if found.len() == 0 {
        Seq::empty()
    } else {
        match found.last() {
            Some(file) => present(found.drop_last()).push(file),
            None => present(found.drop_last()),
        }
    }
}

/// The files among `found`.
fn collect_present(found: Vec<Option<File>>) -> (res: Vec<File>)
    ensures
        res.deep_view() == present(found.deep_view()),
{
    let ghost all = found.deep_view();
    let mut res: Vec<File> = list::empty();
    for file in it: found
        invariant
            it.seq() == found@,
            all == found.deep_view(),
            res.deep_view() == present(all.take(it.index())),
    {
        assert(all.take(it.index() + 1).drop_last() == all.take(it.index()));
        assert(all.take(it.index() + 1).last() == file.deep_view());
        if let Some(file) = file {
            list::push(&mut res, file);
        }
    }
    assert(all.take(all.len() as int) == all);
    res
}

/// What becomes of the links of a text once `files` has been found behind them:
/// the files are wanted in the folder `path`.
pub open spec fn links_screened(path: PathModel, files: Seq<FileModel>) -> Seq<EffectModel> {
    seq![EffectModel::Screen { path, files }]
}

/// What becomes of the links of a text once each has been looked up: those
/// files and images that could be had are wanted in the folder `path`.
pub fn screen_links(
    path: &FilePath,
    link_files: Vec<Option<File>>,
    image_files: Vec<Option<File>>,
) -> (res: Vec<Effect>)
    ensures
        res.deep_view() == links_screened(
            path.deep_view(),
            present(link_files.deep_view()) + present(image_files.deep_view()),
        ),
{
    let mut files: Vec<File> = collect_present(link_files);
    list::append(&mut files, collect_present(image_files));
    let mut res: Vec<Effect> = list::empty();
    list::push(&mut res, Effect::Screen { path: path.clone(), files });
    res
}

/// What becomes of the answer on a single file: the file, with the path of its
/// name in the folder `path`, or a report that the answer cannot be read.
pub fn process_file_id(url: &str, path: &FilePath, parsed: Result<File, String>) -> (res: Result<
    File,
    Report,
>)
    ensures
        match (parsed, res) {
            (Ok(file), Ok(placed)) => placed.deep_view() == (FileModel {
                filepath: joined(path.deep_view(), file.display_name@),
                ..file.deep_view()
            }),
            (Err(error), Err(report)) => report.deep_view() == (ReportModel::Unreadable {
                subject: Subject::FileInfo,
                uri: url@,
                path: path.deep_view(),
                error: error@,
            }),
            _ => false,
        },
{
    match parsed {
        Ok(file) => {
            let mut file: File = file;
            file.filepath = path.join(file.display_name.as_str());
            Ok(file)
        },
        Err(error) => Err(
            Report::Unreadable {
                subject: Subject::FileInfo,
                uri: url.to_owned(),
                path: path.clone(),
                error,
            },
        ),
    }
}

/// Whether `name` is the name of what `link` leads to, if its response has the
/// `Content-Disposition` header `disposition`: the name that the header gives,
/// else the last segment of the link, else `unknown`.
pub open spec fn is_link_name(
    link: Seq<char>,
    disposition: Option<Seq<char>>,
    name: Seq<char>,
) -> bool {
    let unnamed = disposition matches Some(header) ==> is_disposition_name(header, None);
    if unnamed {
        ||| is_last_segment(link, Some(name))
        ||| is_last_segment(link, None) && name == "unknown"@
    } else {
        is_disposition_name(disposition->0, Some(name))
    }
}

/// The name of what `link` leads to.
pub fn link_name(link: &str, disposition: Option<&str>) -> (res: String)
    ensures
        is_link_name(link@, disposition.deep_view(), res@),
{
    if let Some(header) = disposition {
        if let Some(name) = regex_first_group(DISPOSITION_PATTERN, header) {
            proof {
                if is_disposition_name(header@, None) {
                    law_disposition_name_is_unique(header@, Some(name@), None);
                }
            }
            return name;
        }
    }
    match regex_first_group(LAST_SEGMENT_PATTERN, link) {
        Some(segment) => segment,
        None => "unknown".to_owned(),
    }
}

/// The instant that the `Last-Modified` header `last_modified` gives.
pub open spec fn header_instant(last_modified: Option<Seq<char>>) -> Option<(i64, u32)> {
    match last_modified {
        Some(header) => rfc2822_instant(header),
        None => None,
    }
}

/// Whether `text` is the instant `at`, written in a zone that is `offset` seconds
/// ahead of UTC. If it can be written so that it is read back, it is read back.
pub open spec fn is_time_text(at: (i64, u32), offset: i32, text: Seq<char>) -> bool {
    &&& is_instant(at)
    &&& is_offset(offset)
    &&& text == rfc3339_text(at.0, at.1, offset)
    &&& is_writable(at, offset) ==> rfc3339_instant(text) is Some
    &&& is_writable(at, offset) && (at.1 < 1_000_000_000 || offset % 60 == 0)
        ==> rfc3339_instant(text) == Some(written_instant(at, offset))
}

/// Whether `updated_at` is the time of what was last changed at `changed`, or some
/// time since the Unix epoch if that is not known, in some zone. It can be read,
/// unless it is beyond what its format has.
pub open spec fn is_link_time(changed: Option<(i64, u32)>, updated_at: Seq<char>) -> bool {
    &&& rfc3339_instant(updated_at) is Some || beyond_rfc3339(updated_at)
    &&& exists|at: (i64, u32), offset: i32| #[trigger]
        is_time_text(at, offset, updated_at) && match changed {
            Some(changed) => at == changed,
            None => at.0 >= 0,
        }
}

/// The time of the last change of what came with the `Last-Modified` header
/// `last_modified`, in the zone of the machine. Without a readable header it is
/// the time of the call.
pub fn link_time(last_modified: Option<&str>) -> (res: String)
    ensures
        is_link_time(header_instant(last_modified.deep_view()), res@),
{
    let changed: Option<(i64, u32)> = match last_modified {
        Some(header) => parse_rfc2822(header),
        None => None,
    };
    time_or_now(changed)
}

/// The instant `changed`, if there is one, else that of the call, as a text in
/// the zone of the machine.
pub fn time_or_now(changed: Option<(i64, u32)>) -> (res: String)
    requires
        changed matches Some(at) ==> is_instant(at),
    ensures
        is_link_time(changed, res@),
{
    let (at, offset): ((i64, u32), i32) = match changed {
        Some(at) => (at, local_offset(at)),
        None => local_now(),
    };
    time_text(at, offset)
}

/// The instant `at` as a text, in a zone that is `offset` seconds ahead of UTC.
pub fn time_text(at: (i64, u32), offset: i32) -> (res: String)
    requires
        is_instant(at),
        is_offset(offset),
    ensures
        is_time_text(at, offset, res@),
        rfc3339_instant(res@) is Some || beyond_rfc3339(res@),
{
    write_rfc3339(at, offset)
}

/// The file that `link` leads to, with its name and the time of its last change.
pub open spec fn linked_file(
    link: Seq<char>,
    path: PathModel,
    name: Seq<char>,
    updated_at: Seq<char>,
) -> FileModel {
    FileModel {
        id: 0,
        folder_id: 0,
        display_name: name,
        size: 0,
        url: link,
        updated_at,
        locked_for_user: false,
        filepath: joined(path, name),
    }
}

/// The file that `link` leads to, in the folder `path`, with its name and the
/// time of its last change.
pub fn link_file(link: &str, path: &FilePath, name: String, updated_at: String) -> (res: File)
    ensures
        res.deep_view() == linked_file(link@, path.deep_view(), name@, updated_at@),
{
    let filepath: FilePath = path.join(name.as_str());
    File {
        id: 0,
        folder_id: 0,
        display_name: name,
        size: 0,
        url: link.to_owned(),
        updated_at,
        locked_for_user: false,
        filepath,
    }
}

/// The file that `link` leads to, in the folder `path`, by the headers of its
/// response.
pub fn prepare_link_for_download(
    link: &str,
    path: &FilePath,
    disposition: Option<&str>,
    last_modified: Option<&str>,
) -> (res: File)
    ensures
        is_link_name(link@, disposition.deep_view(), res.display_name@),
        is_link_time(header_instant(last_modified.deep_view()), res.updated_at@),
        res.deep_view() == linked_file(
            link@,
            path.deep_view(),
            res.display_name@,
            res.updated_at@,
        ),
{
    link_file(link, path, link_name(link, disposition), link_time(last_modified))
}

/// A `Content-Disposition` header gives at most one name.
pub proof fn law_disposition_name_is_unique(
    header: Seq<char>,
    a: Option<Seq<char>>,
    b: Option<Seq<char>>,
)
    requires
        is_disposition_name(header, a),
        is_disposition_name(header, b),
    ensures
        a == b,
{
    if a is Some && b is Some {
        let (i, j) = choose|i: int, j: int|
            {
                &&& #[trigger] quoted_at(header, i, j)
                &&& forall|i2: int, j2: int| #[trigger] quoted_at(header, i2, j2) ==> i <= i2
                &&& forall|j2: int| #[trigger] quoted_at(header, i, j2) ==> j2 <= j
                &&& a->0 == header.subrange((i + "filename=\""@.len()) as int, j)
            };
        let (k, l) = choose|i: int, j: int|
            {
                &&& #[trigger] quoted_at(header, i, j)
                &&& forall|i2: int, j2: int| #[trigger] quoted_at(header, i2, j2) ==> i <= i2
                &&& forall|j2: int| #[trigger] quoted_at(header, i, j2) ==> j2 <= j
                &&& b->0 == header.subrange((i + "filename=\""@.len()) as int, j)
            };
        assert(i == k && j == l);
    }
}

/// A link has one name, by the headers of its response.
pub proof fn law_link_name_is_unique(
    link: Seq<char>,
    disposition: Option<Seq<char>>,
    a: Seq<char>,
    b: Seq<char>,
)
    requires
        is_link_name(link, disposition, a),
        is_link_name(link, disposition, b),
    ensures
        a == b,
{
    if disposition matches Some(header) && !is_disposition_name(header, None) {
        law_disposition_name_is_unique(disposition->0, Some(a), Some(b));
    } else {
        if is_last_segment(link, Some(a)) {
            let i = choose|i: int|
                {
                    &&& 0 <= i < link.len() - 1
                    &&& #[trigger] link[i] == '/'
                    &&& a == link.skip(i + 1)
                    &&& !a.contains('/')
                };
            lemma_last_slash(link, i, a);
            if is_last_segment(link, Some(b)) {
                let k = choose|k: int|
                    {
                        &&& 0 <= k < link.len() - 1
                        &&& #[trigger] link[k] == '/'
                        &&& b == link.skip(k + 1)
                        &&& !b.contains('/')
                    };
                lemma_last_slash(link, k, b);
                assert(i == k);
            }
        }
        if is_last_segment(link, Some(b)) {
            let k = choose|k: int|
                {
                    &&& 0 <= k < link.len() - 1
                    &&& #[trigger] link[k] == '/'
                    &&& b == link.skip(k + 1)
                    &&& !b.contains('/')
                };
            lemma_last_slash(link, k, b);
        }
    }
}

/// What follows a slash and has none itself begins behind the last slash.
proof fn lemma_last_slash(link: Seq<char>, i: int, rest: Seq<char>)
    requires
        0 <= i < link.len() - 1,
        link[i] == '/',
        rest == link.skip(i + 1),
        !rest.contains('/'),
    ensures
        forall|k: int| i < k < link.len() ==> #[trigger] link[k] != '/',
        link.contains('/'),
        link.last() != '/',
{
    assert forall|k: int| i < k < link.len() implies #[trigger] link[k] != '/' by {
        assert(rest[k - i - 1] == link[k]);
    }
}

/// Every file that could be had is kept, whatever it is.
pub proof fn law_found_file_is_kept(found: Seq<Option<FileModel>>, i: int)
    requires
        0 <= i < found.len(),
        found[i] is Some,
    ensures
        present(found).contains(found[i]->0),
    decreases found.len(),
{
    let before = present(found.drop_last());
    if i < found.len() - 1 {
        law_found_file_is_kept(found.drop_last(), i);
        let k = choose|k: int| 0 <= k < before.len() && before[k] == found[i]->0;
        assert(present(found)[k] == before[k]);
    } else {
        assert(present(found).last() == found[i]->0);
    }
}

/// Nothing is kept but what could be had.
pub proof fn law_kept_file_was_found(found: Seq<Option<FileModel>>, file: FileModel)
    requires
        present(found).contains(file),
    ensures
        found.contains(Some(file)),
    decreases found.len(),
{
    if found.len() > 0 {
        let all = present(found);
        let k = choose|k: int| 0 <= k < all.len() && all[k] == file;
        if found.last() == Some(file) {
            assert(found[found.len() - 1] == Some(file));
        } else {
            assert(present(found.drop_last())[k] == file);
            law_kept_file_was_found(found.drop_last(), file);
            let i = choose|i: int|
                0 <= i < found.drop_last().len() && found.drop_last()[i] == Some(file);
            assert(found[i] == Some(file));
        }
    }
}

/// Files are kept in the order in which they were found, and if all could be had,
/// all are kept.
pub proof fn law_found_files_keep_their_order(found: Seq<Option<FileModel>>, file: FileModel)
    ensures
        present(Seq::empty()) == Seq::<FileModel>::empty(),
        present(found.push(Some(file))) == present(found).push(file),
        present(found.push(None)) == present(found),
        (forall|i: int| 0 <= i < found.len() ==> (#[trigger] found[i]) is Some) ==> present(
            found,
        ).len() == found.len(),
    decreases found.len(),
{
    assert(found.push(Some(file)).drop_last() =~= found);
    assert(found.push(None).drop_last() =~= found);
    if found.len() > 0 && (forall|i: int| 0 <= i < found.len() ==> (#[trigger] found[i]) is Some) {
        let rest = found.drop_last();
        assert forall|i: int| 0 <= i < rest.len() implies (#[trigger] rest[i]) is Some by {
            assert(rest[i] == found[i]);
        }
        law_found_files_keep_their_order(rest, file);
        assert(found[found.len() - 1] is Some);
    }
}

/// What was found behind the links of a text is handed on at once, as one list for
/// the folder of the text, with every linked file and every image in it.
pub proof fn law_found_links_are_handed_on(
    path: PathModel,
    link_files: Seq<Option<FileModel>>,
    image_files: Seq<Option<FileModel>>,
    i: int,
)
    ensures
        ({
            let res = links_screened(path, present(link_files) + present(image_files));
            &&& res.len() == 1
            &&& res[0] matches EffectModel::Screen { path: place, files }
            &&& place == path
            &&& 0 <= i < link_files.len() && link_files[i] is Some ==> files.contains(
                link_files[i]->0,
            )
            &&& 0 <= i < image_files.len() && image_files[i] is Some ==> files.contains(
                image_files[i]->0,
            )
        }),
{
    let all = present(link_files) + present(image_files);
    if 0 <= i < link_files.len() && link_files[i] is Some {
        law_found_file_is_kept(link_files, i);
        let k = choose|k: int|
            0 <= k < present(link_files).len() && present(link_files)[k] == link_files[i]->0;
        assert(all[k] == link_files[i]->0);
    }
    if 0 <= i < image_files.len() && image_files[i] is Some {
        law_found_file_is_kept(image_files, i);
        let k = choose|k: int|
            0 <= k < present(image_files).len() && present(image_files)[k] == image_files[i]->0;
        assert(all[present(link_files).len() + k] == image_files[i]->0);
    }
}

/// A link on Canvas whose path has `/courses/`, a number, `/files/` and a number in
/// it leads to a file, which is asked for under the same path of the interface.
pub proof fn law_course_file_is_found(
    canvas_url: Seq<char>,
    href: Seq<char>,
    query: Seq<(Seq<char>, Seq<char>)>,
    before: Seq<char>,
    course: Seq<char>,
    file: Seq<char>,
    behind: Seq<char>,
)
    requires
        canvas_url.is_prefix_of(href),
        url_parts(href) == Ok::<_, Seq<char>>(
            (before + "/courses/"@ + course + "/files/"@ + file + behind, query),
        ),
        course.len() > 0,
        file.len() > 0,
        forall|i: int| 0 <= i < course.len() ==> '0' <= #[trigger] course[i] <= '9',
        forall|i: int| 0 <= i < file.len() ==> '0' <= #[trigger] file[i] <= '9',
    ensures
        file_target(canvas_url, href) == Some(
            canvas_url + "/api/v1"@ + (before + "/courses/"@ + course + "/files/"@ + file + behind),
        ),
{
    reveal_strlit("/courses/");
    reveal_strlit("/files/");
    let path = before + "/courses/"@ + course + "/files/"@ + file + behind;
    let i = before.len() as int;
    let j = i + 9 + course.len();
    assert("/courses/"@.len() == 9);
    assert("/files/"@.len() == 7);
    assert(path.subrange(i, i + 9) =~= "/courses/"@);
    assert(path.subrange(j, j + 7) =~= "/files/"@);
    assert forall|k: int| i + 9 <= k < j implies is_digit(#[trigger] path[k]) by {
        assert(path[k] == course[k - i - 9]);
    }
    assert(path[j + 7] == file[0]);
    assert(course_file_at(path, i, j));
}

/// A link leads to a file only if it is on Canvas and its path has `/courses/`, a
/// number, `/files/` and a digit in it.
pub proof fn law_only_course_files_are_found(canvas_url: Seq<char>, href: Seq<char>)
    requires
        file_target(canvas_url, href) is Some,
    ensures
        canvas_url.is_prefix_of(href),
        url_parts(href) matches Ok(parts) && file_target(canvas_url, href) == Some(
            canvas_url + "/api/v1"@ + parts.0,
        ) && exists|i: int, j: int| #[trigger]
            course_file_at(parts.0, i, j) && parts.0.subrange(i, i + 9) == "/courses/"@ && i + 9 < j
                && parts.0.subrange(j, j + 7) == "/files/"@ && '0' <= parts.0[j + 7] <= '9',
{
    reveal_strlit("/courses/");
    reveal_strlit("/files/");
    assert("/courses/"@.len() == 9);
    assert("/files/"@.len() == 7);
}

/// An image on Canvas is found as it is, unless its address has `equation_images`
/// in it; an image elsewhere is not.
pub proof fn law_images_are_found(canvas_url: Seq<char>, src: Seq<char>)
    ensures
        !canvas_url.is_prefix_of(src) ==> image_target(canvas_url, src) is None,
        (exists|a: Seq<char>, b: Seq<char>| src == #[trigger] ((a + "equation_images"@) + b))
            ==> image_target(canvas_url, src) is None,
        canvas_url.is_prefix_of(src) && !(exists|a: Seq<char>, b: Seq<char>|
            src == #[trigger] ((a + "equation_images"@) + b)) ==> image_target(canvas_url, src)
            == Some(src),
{
    law_occurs("equation_images"@, src);
}

/// The targets of a document are found one by one, in its order; an element without
/// the attribute, or without a target, has none.
pub proof fn law_targets_one_by_one(
    values: Seq<Option<Seq<char>>>,
    target: spec_fn(Seq<char>) -> Option<Seq<char>>,
    value: Seq<char>,
)
    ensures
        targets(Seq::empty(), target) == Seq::<Seq<char>>::empty(),
        targets(values.push(None), target) == targets(values, target),
        target(value) is None ==> targets(values.push(Some(value)), target) == targets(
            values,
            target,
        ),
        target(value) matches Some(found) ==> targets(values.push(Some(value)), target) == targets(
            values,
            target,
        ).push(found),
{
    assert(values.push(None).drop_last() =~= values);
    assert(values.push(Some(value)).drop_last() =~= values);
}

/// No target is missing: every anchor that leads to a file, and every image that is
/// found, is among the targets of its document.
pub proof fn law_no_target_is_missing(
    canvas_url: Seq<char>,
    values: Seq<Option<Seq<char>>>,
    i: int,
)
    requires
        0 <= i < values.len(),
        values[i] is Some,
    ensures
        file_target(canvas_url, values[i]->0) matches Some(found) ==> file_targets(
            canvas_url,
            values,
        ).contains(found),
        image_target(canvas_url, values[i]->0) matches Some(found) ==> image_targets(
            canvas_url,
            values,
        ).contains(found),
{
    let files = |href: Seq<char>| file_target(canvas_url, href);
    let images = |src: Seq<char>| image_target(canvas_url, src);
    lemma_target_is_listed(values, files, i);
    lemma_target_is_listed(values, images, i);
}

proof fn lemma_target_is_listed(
    values: Seq<Option<Seq<char>>>,
    target: spec_fn(Seq<char>) -> Option<Seq<char>>,
    i: int,
)
    requires
        0 <= i < values.len(),
        values[i] is Some,
    ensures
        target(values[i]->0) matches Some(found) ==> targets(values, target).contains(found),
    decreases values.len(),
{
    if target(values[i]->0) is Some {
        let found = target(values[i]->0)->0;
        let before = targets(values.drop_last(), target);
        let all = targets(values, target);
        if i < values.len() - 1 {
            lemma_target_is_listed(values.drop_last(), target, i);
            let k = choose|k: int| 0 <= k < before.len() && before[k] == found;
            assert(all[k] == found);
        } else {
            assert(all.last() == found);
        }
    }
}

/// The name that the header gives is the name of what a link leads to, whatever the
/// link is. Without one it is what follows the last slash of the link, and where
/// nothing follows it, or there is none, it is `unknown`.
pub proof fn law_link_is_named(
    link: Seq<char>,
    disposition: Option<Seq<char>>,
    name: Seq<char>,
    given: Seq<char>,
    front: Seq<char>,
)
    requires
        is_link_name(link, disposition, name),
    ensures
        (disposition matches Some(header) && is_disposition_name(header, Some(given))) ==> name
            == given,
        (disposition matches Some(header) ==> is_disposition_name(header, None)) ==> {
            &&& link == front + seq!['/'] + given && given.len() > 0 && !given.contains('/')
                ==> name == given
            &&& !link.contains('/') || link.last() == '/' ==> name == "unknown"@
        },
{
    if disposition matches Some(header) && is_disposition_name(header, Some(given)) {
        let header = disposition->0;
        if is_disposition_name(header, None) {
            law_disposition_name_is_unique(header, Some(given), None);
        } else {
            law_disposition_name_is_unique(header, Some(given), Some(name));
        }
    }
    if disposition matches Some(header) ==> is_disposition_name(header, None) {
        if link == front + seq!['/'] + given && given.len() > 0 && !given.contains('/') {
            let i = front.len() as int;
            assert(link[i] == '/');
            assert(link.skip(i + 1) =~= given);
            assert(is_last_segment(link, Some(given)));
            assert(is_link_name(link, disposition, given));
            law_link_name_is_unique(link, disposition, name, given);
        }
        if !link.contains('/') || link.last() == '/' {
            assert(is_last_segment(link, None));
            assert(is_link_name(link, disposition, "unknown"@));
            law_link_name_is_unique(link, disposition, name, "unknown"@);
        }
    }
}

/// The file that a link leads to is downloaded from the link, is not locked, and
/// goes into the folder under its name.
pub proof fn law_linked_file(
    link: Seq<char>,
    path: PathModel,
    name: Seq<char>,
    updated_at: Seq<char>,
)
    ensures
        ({
            let file = linked_file(link, path, name, updated_at);
            &&& file.url == link
            &&& file.display_name == name
            &&& file.updated_at == updated_at
            &&& !file.locked_for_user
            &&& file.filepath == path.push(PathStepModel::Join(name))
            &&& file.id == 0 && file.folder_id == 0 && file.size == 0
        }),
{
}

/// The time of a linked file is read back to within half a minute of the header's,
/// to the same nanosecond, if that is a common date and the zone of the machine is
/// not a whole day off.
pub proof fn law_link_time_is_near(header: Seq<char>, at: (i64, u32), text: Seq<char>)
    requires
        rfc2822_instant(header) == Some(at),
        is_link_time(header_instant(Some(header)), text),
        -62_167_132_800 <= at.0 < 253_402_214_400,
        at.1 < 1_000_000_000,
    ensures
        (rfc3339_instant(text) matches Some(read) && -30 <= read.0 - at.0 <= 30 && read.1 == at.1)
            || exists|offset: i32|
            !(-86_370 < offset < 86_370) && text == #[trigger] rfc3339_text(at.0, at.1, offset),
{
    let (found, offset) = choose|found: (i64, u32), offset: i32| #[trigger]
        is_time_text(found, offset, text) && found == at;
    if -86_370 < offset < 86_370 {
        law_common_instant_is_writable(at, offset);
        law_written_instant_is_near(at, offset);
    } else {
        assert(text == rfc3339_text(at.0, at.1, offset));
    }
}

/// Without a readable header the time of a linked file is some instant since the Unix
/// epoch, and with or without one it can be read, unless it begins with the sign of
/// its year or ends with an offset of a whole day.
pub proof fn law_link_time_can_be_read(changed: Option<(i64, u32)>, text: Seq<char>)
    requires
        is_link_time(changed, text),
    ensures
        rfc3339_instant(text) is Some || (text.len() > 0 && (text[0] == '+' || text[0] == '-')) || (
        text.len() >= 5 && text.skip(text.len() - 5) == "24:00"@),
        changed is None ==> exists|second: i64, nanosecond: u32, offset: i32|
            second >= 0 && text == #[trigger] rfc3339_text(second, nanosecond, offset),
        header_instant(None) is None,
{
    let (at, offset) = choose|at: (i64, u32), offset: i32| #[trigger]
        is_time_text(at, offset, text) && match changed {
            Some(changed) => at == changed,
            None => at.0 >= 0,
        };
    assert(text == rfc3339_text(at.0, at.1, offset));
}

} // verus!
