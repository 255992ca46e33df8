use canvas_downloader::canvas::File;
use canvas_downloader::links::{
    file_link, file_links, image_links, link_file, link_name, link_time,
    prepare_link_for_download, process_file_id, process_html_links, screen_links, time_or_now,
    time_text,
};
use canvas_downloader::path::FilePath;
use canvas_downloader::plan::{Effect, Report, Subject};
use canvas_downloader::screening::updated;

const CANVAS: &str = "https://canvas.example";

fn file(name: &str) -> File {
    File {
        id: 1,
        folder_id: 2,
        display_name: name.to_string(),
        size: 3,
        url: "u".to_string(),
        updated_at: "t".to_string(),
        locked_for_user: true,
        filepath: FilePath::destination(),
    }
}

#[test]
fn anchors_and_images_are_found() {
    let html = r#"<p><a href="https://canvas.example/courses/12/files/345?wrap=1">x</a>
        <a>no target</a>
        <a href="https://elsewhere.example/courses/12/files/345">y</a>
        <a href="https://canvas.example/courses/12/pages/3">z</a>
        <a href='https://canvas.example/courses/1/files/2/download'>w</a>
        <img src="https://canvas.example/images/a.png">
        <img src="https://canvas.example/equation_images/x">
        <img alt="none"><img src="https://elsewhere.example/b.png"></p>"#;
    let targets = process_html_links(html, CANVAS);
    assert_eq!(
        targets.files,
        vec![
            "https://canvas.example/api/v1/courses/12/files/345",
            "https://canvas.example/api/v1/courses/1/files/2/download",
        ]
    );
    assert_eq!(targets.images, vec!["https://canvas.example/images/a.png"]);
}

#[test]
fn a_text_without_links_has_no_targets() {
    let targets = process_html_links("", CANVAS);
    assert!(targets.files.is_empty() && targets.images.is_empty());
}

#[test]
fn only_paths_of_course_files_are_asked_for() {
    assert_eq!(
        file_link(CANVAS, "/courses/1/files/2"),
        Some("https://canvas.example/api/v1/courses/1/files/2".to_string())
    );
    assert!(file_link(CANVAS, "/x/courses/1/files/2/y").is_some());
    assert_eq!(file_link(CANVAS, "/courses//files/2"), None);
    assert_eq!(file_link(CANVAS, "/courses/1/files/"), None);
    assert_eq!(file_link(CANVAS, "/courses/1a/files/2"), None);
    assert_eq!(file_link(CANVAS, "/files/2"), None);
}

#[test]
fn links_that_are_no_addresses_are_left_out() {
    let hrefs = vec![
        Some("https://canvas.example:port/courses/1/files/2".to_string()),
        None,
        Some("https://canvas.example/courses/1/files/2#top".to_string()),
        Some("/courses/1/files/2".to_string()),
    ];
    assert_eq!(
        file_links(CANVAS, &hrefs),
        vec!["https://canvas.example/api/v1/courses/1/files/2"]
    );
}

#[test]
fn pictures_of_equations_are_left_out() {
    let srcs = vec![
        Some("https://canvas.example/a.png".to_string()),
        Some("https://canvas.example/equation_images/1".to_string()),
        None,
        Some("a.png".to_string()),
    ];
    assert_eq!(image_links(CANVAS, &srcs), vec!["https://canvas.example/a.png"]);
}

#[test]
fn files_come_before_images() {
    let path = FilePath::destination().join("p");
    let effects = screen_links(
        &path,
        vec![Some(file("a")), None, Some(file("b"))],
        vec![None, Some(file("c"))],
    );
    assert_eq!(
        effects,
        vec![Effect::Screen { path, files: vec![file("a"), file("b"), file("c")] }]
    );
}

#[test]
fn a_single_file_is_placed() {
    let path = FilePath::destination().join("p");
    let placed = process_file_id("u", &path, Ok(file("a/b")));
    assert_eq!(placed.map(|f| f.filepath), Ok(path.join("a/b")));
    assert_eq!(
        process_file_id("u", &path, Err("bad".to_string())),
        Err(Report::Unreadable {
            subject: Subject::FileInfo,
            uri: "u".to_string(),
            path,
            error: "bad".to_string(),
        })
    );
}

#[test]
fn the_header_names_the_file() {
    let link = "https://canvas.example/images/a.png";
    assert_eq!(link_name(link, Some("inline; filename=\"photo.png\"; size=3")), "photo.png");
    assert_eq!(link_name(link, Some("filename=\"a\"; filename=\"b\"")), "a\"; filename=\"b");
    assert_eq!(link_name(link, Some("filename=\"\"")), "");
}

#[test]
fn the_link_names_the_file_otherwise() {
    let link = "https://canvas.example/images/a.png";
    assert_eq!(link_name(link, None), "a.png");
    assert_eq!(link_name(link, Some("inline; filename=photo.png")), "a.png");
    assert_eq!(link_name(link, Some("filename=\"open")), "a.png");
    assert_eq!(link_name("https://canvas.example/images/", None), "unknown");
    assert_eq!(link_name("no slash", None), "unknown");
}

#[test]
fn the_time_of_a_link_is_that_of_its_header() {
    let time = link_time(Some("Sun, 01 Oct 2023 12:00:00 GMT"));
    assert!(updated(Some((1_696_161_600 - 61, 0)), &time));
    assert!(!updated(Some((1_696_161_600 + 61, 0)), &time));
}

#[test]
fn without_a_readable_header_the_time_is_now() {
    assert!(updated(Some((1_696_161_600, 0)), &link_time(None)));
    assert!(updated(Some((1_696_161_600, 0)), &link_time(Some("yesterday"))));
}

#[test]
fn a_link_becomes_a_file() {
    let path = FilePath::destination().join("p");
    let link = "https://canvas.example/images/a.png";
    let file = prepare_link_for_download(link, &path, None, None);
    assert_eq!((file.id, file.folder_id, file.size), (0, 0, 0));
    assert_eq!(file.display_name, "a.png");
    assert_eq!(file.url, link);
    assert!(!file.locked_for_user);
    assert_eq!(file.filepath, path.join("a.png"));
}

#[test]
fn a_linked_file_has_no_number_and_no_size() {
    let folder = FilePath::destination().join("x");
    let file = link_file("L", &folder, "n.png".to_string(), "T".to_string());
    assert_eq!(file.id, 0);
    assert_eq!(file.folder_id, 0);
    assert_eq!(file.size, 0);
    assert_eq!(file.display_name, "n.png");
    assert_eq!(file.url, "L");
    assert_eq!(file.updated_at, "T");
    assert!(!file.locked_for_user);
    assert_eq!(file.filepath, folder.join("n.png"));
}

#[test]
fn an_instant_is_written_in_its_zone() {
    assert_eq!(time_text((1445412480, 0), 0), "2015-10-21T07:28:00+00:00");
    assert_eq!(time_text((1445412480, 0), 8 * 3600), "2015-10-21T15:28:00+08:00");
    assert_eq!(time_text((1445412480, 5_000_000), -12600), "2015-10-21T03:58:00.005-03:30");
    assert_eq!(time_text((1445412479, 1_000_000_000), 0), "2015-10-21T07:27:60+00:00");
}

#[test]
fn an_offset_is_written_to_the_nearest_minute() {
    assert_eq!(time_text((0, 0), 29), "1970-01-01T00:00:29+00:00");
    assert_eq!(time_text((0, 0), 30), "1970-01-01T00:00:30+00:01");
    assert_eq!(time_text((0, 0), -30), "1969-12-31T23:59:30-00:01");
    assert_eq!(time_text((0, 0), 86_370), "1970-01-01T23:59:30+24:00");
}

#[test]
fn what_is_written_is_read_back() {
    let cases: [((i64, u32), i32, (i64, u32)); 7] = [
        ((1445412480, 7), 3600, (1445412480, 7)),
        ((1445412480, 0), 29, (1445412509, 0)),
        ((1445412480, 0), 30, (1445412450, 0)),
        ((1445412480, 0), -86_369, (1445412480 - 86_369 + 86_340, 0)),
        ((-62_167_219_200, 0), 0, (-62_167_219_200, 0)),
        ((253_402_300_799, 999_999_999), 0, (253_402_300_799, 999_999_999)),
        ((1445412479, 1_500_000_000), 7200, (1445412479, 1_500_000_000)),
    ];
    for (at, offset, read) in cases {
        let text = time_text(at, offset);
        let just_before = if read.1 == 0 {
            (read.0 - 1, 999_999_999)
        } else {
            (read.0, read.1 - 1)
        };
        assert!(updated(Some(just_before), &text), "{}", text);
        assert!(!updated(Some(read), &text), "{}", text);
    }
}

#[test]
fn years_beyond_four_digits_are_signed() {
    assert_eq!(time_text((253_402_300_800, 0), 0), "+10000-01-01T00:00:00+00:00");
    assert_eq!(time_text((-62_167_219_201, 0), 0), "-0001-12-31T23:59:59+00:00");
    assert_eq!(
        time_text((8_210_266_876_799, 0), 86_399),
        "+262143-01-01T23:59:58+24:00"
    );
    assert!(time_text((-8_334_601_228_800, 0), -86_399).starts_with('-'));
}

#[test]
fn a_known_time_is_kept() {
    let text = time_or_now(Some((1445412480, 0)));
    assert!(updated(Some((1445412480 - 31, 0)), &text));
    assert!(!updated(Some((1445412480 + 30, 0)), &text));
}

#[test]
fn without_a_known_time_it_is_now() {
    let text = time_or_now(None);
    assert!(updated(Some((1_700_000_000, 0)), &text));
}

#[test]
fn texts_with_many_tags_have_all_their_links() {
    let html = "<a href=\"https://canvas.example/courses/1/files/2\">x</a>".repeat(2000);
    let targets = process_html_links(&html, CANVAS);
    assert_eq!(targets.files.len(), 2000);
}
