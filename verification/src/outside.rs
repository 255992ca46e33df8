//! What the library has from elsewhere. Each function here makes one outside
//! call, and its contract says what is relied on.

use std::collections::hash_map::DefaultHasher;
use std::hash::Hash;

use vstd::prelude::*;
use vstd::utf8::encode_utf8;

use crate::naming::is_sanitized_form;
use crate::paging::{relations, Link, LinkModel};
use crate::text::{all_alphanumeric, count_of, has_at, is_digit};
use crate::times::{beyond_rfc3339, is_instant, is_offset, is_writable, written_instant};

verus! {

/// `sanitize_filename::sanitize`: `name` as a file name. The outside function
/// follows the target that it was compiled for; the contract admits the
/// outcome of either kind of target.
#[verifier::external_body]
pub(crate) fn sanitize(name: &str) -> (res: String)
    ensures
        is_sanitized_form(name@, res@),
{
    sanitize_filename::sanitize(name)
}

/// What `chrono::DateTime::parse_from_rfc3339` makes of a text: the instant, in
/// seconds since the Unix epoch and nanoseconds of that second, or the text of
/// the error.
pub uninterp spec fn rfc3339_reading(text: Seq<char>) -> Result<(i64, u32), Seq<char>>;

/// The instant that is read from a text in the format of RFC 3339.
pub open spec fn rfc3339_instant(text: Seq<char>) -> Option<(i64, u32)> {
    match rfc3339_reading(text) {
        Ok(at) => Some(at),
        Err(_) => None,
    }
}

/// `chrono::DateTime::parse_from_rfc3339`: the instant that `text` gives, or why
/// the outside function refuses the text.
#[verifier::external_body]
pub(crate) fn parse_rfc3339(text: &str) -> (res: Result<(i64, u32), String>)
    ensures
        match res {
            Ok(at) => rfc3339_reading(text@) == Ok::<_, Seq<char>>(at),
            Err(error) => rfc3339_reading(text@) == Err::<(i64, u32), _>(error@),
        },
{
    match chrono::DateTime::parse_from_rfc3339(text) {
        Ok(at) => Ok((at.timestamp(), at.timestamp_subsec_nanos())),
        Err(error) => Err(error.to_string()),
    }
}

/// The instant that `chrono::DateTime::parse_from_rfc2822` reads from a text:
/// seconds since the Unix epoch and nanoseconds of that second.
pub uninterp spec fn rfc2822_instant(text: Seq<char>) -> Option<(i64, u32)>;

/// `chrono::DateTime::parse_from_rfc2822`: the instant that the date of an HTTP
/// header gives, or `None` where the outside function refuses the text. What it
/// accepts lies in the range of its dates.
#[verifier::external_body]
pub(crate) fn parse_rfc2822(text: &str) -> (res: Option<(i64, u32)>)
    ensures
        res == rfc2822_instant(text@),
        res matches Some(at) ==> is_instant(at),
{
    match chrono::DateTime::parse_from_rfc2822(text) {
        Ok(at) => Some((at.timestamp(), at.timestamp_subsec_nanos())),
        Err(_) => None,
    }
}

/// `chrono::DateTime::with_timezone` to `chrono::Local`: how many seconds the
/// clocks of the machine are ahead of UTC at the instant `at`. The zone is the
/// machine's, so only the range is claimed: the outside function knows no
/// offset of a day or more.
#[verifier::external_body]
pub(crate) fn local_offset(at: (i64, u32)) -> (res: i32)
    requires
        is_instant(at),
    ensures
        is_offset(res),
{
    let utc = chrono::DateTime::from_timestamp(at.0, at.1).unwrap();
    utc.with_timezone(&chrono::Local).offset().local_minus_utc()
}

/// `chrono::Local::now`: the instant of the call, and how many seconds the clocks
/// of the machine are then ahead of UTC. Both are the machine's; only their
/// ranges are claimed. The outside function does without clocks that stand
/// before the Unix epoch.
#[verifier::external_body]
pub(crate) fn local_now() -> (res: ((i64, u32), i32))
    ensures
        is_instant(res.0),
        res.0.0 >= 0,
        is_offset(res.1),
{
    let now = chrono::Local::now();
    ((now.timestamp(), now.timestamp_subsec_nanos()), now.offset().local_minus_utc())
}

/// What `chrono::DateTime::to_rfc3339` writes of an instant, in a zone that is
/// `offset` seconds ahead of UTC.
pub uninterp spec fn rfc3339_text(second: i64, nanosecond: u32, offset: i32) -> Seq<char>;

/// `chrono::DateTime::to_rfc3339`, in a fixed zone: the instant `at` as a text. A
/// year of four digits is written without a sign, and the offset to the nearest
/// minute. Such a text is read back, unless the offset comes out as a whole
/// day. It then gives the local time that was written, less the offset that was
/// written. Of a leap second that is claimed only where the offset is in whole
/// minutes.
#[verifier::external_body]
pub(crate) fn write_rfc3339(at: (i64, u32), offset: i32) -> (res: String)
    requires
        is_instant(at),
        is_offset(offset),
    ensures
        res@ == rfc3339_text(at.0, at.1, offset),
        rfc3339_instant(res@) is Some || beyond_rfc3339(res@),
        is_writable(at, offset) ==> rfc3339_instant(res@) is Some,
        is_writable(at, offset) && (at.1 < 1_000_000_000 || offset % 60 == 0)
            ==> rfc3339_instant(res@) == Some(written_instant(at, offset)),
{
    let utc = chrono::DateTime::from_timestamp(at.0, at.1).unwrap();
    utc.with_timezone(&chrono::FixedOffset::east_opt(offset).unwrap()).to_rfc3339()
}

/// The expression that finds the path of a course file.
pub const COURSE_FILE_PATTERN: &'static str = r"/courses/[0-9]+/files/[0-9]+";

/// Whether `/courses/`, a number, `/files/` and a digit stand one after the
/// other in `text`, the first of them at `i` and the third at `j`.
pub open spec fn course_file_at(text: Seq<char>, i: int, j: int) -> bool {
    &&& has_at(text, i, "/courses/"@)
    &&& i + "/courses/"@.len() < j
    &&& forall|k: int| i + "/courses/"@.len() <= k < j ==> is_digit(#[trigger] text[k])
    &&& has_at(text, j, "/files/"@)
    &&& j + "/files/"@.len() < text.len()
    &&& is_digit(text[(j + "/files/"@.len()) as int])
}

/// Whether `text` holds the path of a course file.
pub open spec fn mentions_course_file(text: Seq<char>) -> bool {
    exists|i: int, j: int| course_file_at(text, i, j)
}

/// `regex::Regex::new`, then `is_match`, on the one expression that the library
/// tests: whether it matches anywhere in `text`.
#[verifier::external_body]
pub(crate) fn regex_is_match(pattern: &str, text: &str) -> (res: bool)
    requires
        pattern@ == COURSE_FILE_PATTERN@,
    ensures
        res == mentions_course_file(text@),
{
    regex::Regex::new(pattern).unwrap().is_match(text)
}

/// The expression that finds the file name in a `Content-Disposition` header.
pub const DISPOSITION_PATTERN: &'static str = r#"filename="(.*)""#;

/// Whether `filename="` stands in `text` at `i` and is closed, on the same
/// line, by the quotation mark at `j`.
pub open spec fn quoted_at(text: Seq<char>, i: int, j: int) -> bool {
    let start = i + "filename=\""@.len();
    &&& has_at(text, i, "filename=\""@)
    &&& start <= j < text.len()
    &&& text[j] == '"'
    &&& forall|k: int| start <= k < j ==> #[trigger] text[k] != '\n'
}

/// Whether `name` is what `DISPOSITION_PATTERN` captures in `text`: what stands
/// between the first `filename="` that is closed and the last quotation mark
/// that closes it. `None` where there is no such pair.
pub open spec fn is_disposition_name(text: Seq<char>, name: Option<Seq<char>>) -> bool {
    match name {
        None => forall|i: int, j: int| !quoted_at(text, i, j),
        Some(name) => exists|i: int, j: int|
            {
                &&& #[trigger] quoted_at(text, i, j)
                &&& forall|i2: int, j2: int| #[trigger] quoted_at(text, i2, j2) ==> i <= i2
                &&& forall|j2: int| #[trigger] quoted_at(text, i, j2) ==> j2 <= j
                &&& name == text.subrange((i + "filename=\""@.len()) as int, j)
            },
    }
}

/// The expression that finds the last segment of an address.
pub const LAST_SEGMENT_PATTERN: &'static str = r"/([^/]+)$";

/// What `LAST_SEGMENT_PATTERN` captures in `text`: what follows the last
/// slash, unless that is nothing.
pub open spec fn is_last_segment(text: Seq<char>, segment: Option<Seq<char>>) -> bool {
    match segment {
        None => !text.contains('/') || text.last() == '/',
        Some(segment) => exists|i: int|
            {
                &&& 0 <= i < text.len() - 1
                &&& #[trigger] text[i] == '/'
                &&& segment == text.skip(i + 1)
                &&& !segment.contains('/')
            },
    }
}

/// `regex::Regex::new`, then `captures` and `get(1)`, on the two expressions
/// that the library captures with: what the group holds in the leftmost match,
/// or `None` where nothing matches.
#[verifier::external_body]
pub(crate) fn regex_first_group(pattern: &str, text: &str) -> (res: Option<String>)
    requires
        pattern@ == DISPOSITION_PATTERN@ || pattern@ == LAST_SEGMENT_PATTERN@,
    ensures
        pattern@ == DISPOSITION_PATTERN@ ==> is_disposition_name(text@, res.deep_view()),
        pattern@ == LAST_SEGMENT_PATTERN@ ==> is_last_segment(text@, res.deep_view()),
{
    let groups = regex::Regex::new(pattern).unwrap().captures(text)?;
    groups.get(1).map(|group| group.as_str().to_string())
}

/// The longest document, in bytes of UTF-8, that is handed to the HTML parser.
/// Its buffers count in 32 bits and double as they grow, and a character can
/// take three times its bytes once it is parsed.
pub const MAX_HTML_BYTES: usize = 0x2000_0000;

/// How often a document that is handed to the HTML parser has the character that
/// begins a tag, at most.
pub const MAX_HTML_TAGS: usize = 0x4_0000;

/// The stack, in bytes, that parsing takes at most for each character that begins
/// a tag. The parser goes down one call for each level of nesting, with less than
/// two kilobytes each. A tag opens up to three elements, and the repair of crossed
/// tags adds up to eight levels.
pub const HTML_STACK_PER_TAG: usize = 0x8000;

/// For each element of the kind `element` that `select::document::Document`
/// finds in the document `html`, in the order of the document: the value of its
/// attribute `attribute`, if it has one.
pub uninterp spec fn html_attributes(
    html: Seq<char>,
    element: Seq<char>,
    attribute: Seq<char>,
) -> Seq<Option<Seq<char>>>;

/// `select::document::Document::from`, then `find` by `select::predicate::Name`
/// and `attr`: the attribute `attribute` of every element `element`. The
/// outside function follows the nesting of the document by recursion. The bound
/// on the tags bounds its depth; it runs on a stack of `HTML_STACK_PER_TAG` bytes
/// for each of them.
#[verifier::external_body]
pub(crate) fn html_attribute_values(html: &str, element: &str, attribute: &str) -> (res: Vec<
    Option<String>,
>)
    requires
        encode_utf8(html@).len() <= MAX_HTML_BYTES,
        count_of(html@, '<') <= MAX_HTML_TAGS,
    ensures
        res.deep_view() == html_attributes(html@, element@, attribute@),
{
    select::document::Document::from(html)
        .find(select::predicate::Name(element))
        .map(|node| node.attr(attribute).map(|value| value.to_string()))
        .collect()
}

/// What `reqwest::Url::parse` makes of an address: its path and the decoded
/// pairs of its query, or the text of the error.
pub uninterp spec fn url_parts(text: Seq<char>) -> Result<
    (Seq<char>, Seq<(Seq<char>, Seq<char>)>),
    Seq<char>,
>;

/// `reqwest::Url::parse`, then `path` and `query_pairs`.
#[verifier::external_body]
pub(crate) fn parse_url(text: &str) -> (res: Result<(String, Vec<(String, String)>), String>)
    ensures
        match res {
            Ok(parts) => url_parts(text@) == Ok::<_, Seq<char>>(
                (parts.0@, parts.1.deep_view()),
            ),
            Err(error) => url_parts(text@) == Err::<
                (Seq<char>, Seq<(Seq<char>, Seq<char>)>),
                _,
            >(error@),
        },
{
    match reqwest::Url::parse(text) {
        Ok(url) => Ok(
            (
                url.path().to_string(),
                url.query_pairs().map(|(k, v)| (k.to_string(), v.to_string())).collect(),
            ),
        ),
        Err(error) => Err(error.to_string()),
    }
}

/// The links that `parse_link_header::parse_with_rel` reads from a `Link`
/// header, by their relation, or the text of the error.
pub uninterp spec fn link_relations(header: Seq<char>) -> Result<
    Map<Seq<char>, LinkModel>,
    Seq<char>,
>;

/// `parse_link_header::parse_with_rel`: the links of a header, in an order that
/// is not determined, each with its relation.
#[verifier::external_body]
pub(crate) fn parse_link_header(header: &str) -> (res: Result<Vec<(String, Link)>, String>)
    ensures
        match res {
            Ok(links) => link_relations(header@) == Ok::<_, Seq<char>>(relations(links@)),
            Err(error) => link_relations(header@) == Err::<Map<Seq<char>, LinkModel>, _>(error@),
        },
{
    match parse_link_header::parse_with_rel(header) {
        Ok(links) => Ok(
            links.into_iter().map(
                |(rel, link)|
                    {
                        let params = link.params.into_iter().collect();
                        (rel, Link { raw_uri: link.raw_uri, params })
                    },
            ).collect(),
        ),
        Err(error) => Err(format!("{error:?}")),
    }
}

/// `rand::thread_rng`, then `gen_range`: a random number below `bound`. Which
/// one is a matter of chance.
#[verifier::external_body]
pub(crate) fn random_below(bound: u64) -> (res: u64)
    requires
        bound > 0,
    ensures
        res < bound,
{
    rand::Rng::gen_range(&mut rand::thread_rng(), 0..bound)
}

/// What hashing a text writes to the hasher.
pub uninterp spec fn hash_writes(text: Seq<char>) -> Seq<Seq<u8>>;

/// `Hash::hash` of a string: writes `text` to the hasher.
#[verifier::external_body]
pub(crate) fn hash_text(text: &str, hasher: &mut DefaultHasher)
    ensures
        final(hasher)@ == old(hasher)@ + hash_writes(text@),
{
    text.hash(hasher)
}

/// What the `Debug` format of a string writes.
pub uninterp spec fn debug_text(text: Seq<char>) -> Seq<char>;

/// The `Debug` format of a string: `text` in quotation marks, with characters that
/// do not print replaced by escapes. Letters and digits of ASCII are written as
/// they are.
#[verifier::external_body]
pub(crate) fn write_debug(text: &str) -> (res: String)
    ensures
        res@ == debug_text(text@),
        all_alphanumeric(text@) ==> res@ == seq!['"'] + text@ + seq!['"'],
{
    format!("{text:?}")
}

} // verus!
