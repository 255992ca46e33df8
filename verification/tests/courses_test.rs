use canvas_downloader::canvas::Course;
use canvas_downloader::courses::{
    course_effects, courses_by_term, courses_link, download_banner, enrolled_courses,
    progress_template, select_courses, term_courses, term_ids, CourseRecord, Selection,
};
use canvas_downloader::path::FilePath;
use canvas_downloader::plan::{Effect, Task};

fn course(id: u32, code: &str, term: u32) -> Course {
    Course {
        id,
        name: format!("Course {}", code),
        course_code: code.to_string(),
        enrollment_term_id: term,
    }
}

fn courses() -> Vec<Course> {
    vec![
        course(1, "CS2040S", 120),
        course(2, "CS1101S", 115),
        course(3, "CS3230", 125),
        course(4, "CS1231S", 115),
        course(5, "CS2030", 120),
    ]
}

#[test]
fn favourite_courses_are_asked_for() {
    assert_eq!(
        courses_link("https://canvas.nus.edu.sg"),
        "https://canvas.nus.edu.sg/api/v1/users/self/favorites/courses"
    );
}

#[test]
fn only_enrolled_courses_count() {
    let records = vec![
        CourseRecord { enrolled: true, course: Ok(course(1, "A", 1)) },
        CourseRecord { enrolled: false, course: Err("missing field `name`".to_string()) },
        CourseRecord { enrolled: false, course: Ok(course(2, "B", 1)) },
        CourseRecord { enrolled: true, course: Ok(course(3, "C", 1)) },
    ];
    assert_eq!(
        enrolled_courses(records),
        Ok(vec![course(1, "A", 1), course(3, "C", 1)])
    );
}

#[test]
fn the_first_unreadable_course_is_reported() {
    let records = vec![
        CourseRecord { enrolled: true, course: Ok(course(1, "A", 1)) },
        CourseRecord { enrolled: true, course: Err("first".to_string()) },
        CourseRecord { enrolled: true, course: Err("second".to_string()) },
    ];
    assert_eq!(enrolled_courses(records), Err("first".to_string()));
}

#[test]
fn terms_are_listed_in_ascending_order() {
    assert_eq!(term_ids(&courses()), vec![115, 120, 125]);
    assert_eq!(term_ids(&vec![]), Vec::<u32>::new());
    assert_eq!(term_courses(&courses(), 120), vec!["CS2040S", "CS2030"]);
    assert_eq!(
        courses_by_term(&courses()),
        vec![
            (115, vec!["CS1101S".to_string(), "CS1231S".to_string()]),
            (120, vec!["CS2040S".to_string(), "CS2030".to_string()]),
            (125, vec!["CS3230".to_string()]),
        ]
    );
}

#[test]
fn courses_are_selected_by_their_terms() {
    let all = courses();
    assert_eq!(select_courses(&all, None), Selection::NoTermIds);
    assert_eq!(select_courses(&all, Some(&vec![1, 2])), Selection::NoMatch);
    assert_eq!(select_courses(&all, Some(&vec![])), Selection::NoMatch);
    assert_eq!(
        select_courses(&all, Some(&vec![115, 120])),
        Selection::Found(vec![0, 1, 3, 4])
    );
    assert_eq!(
        select_courses(&all, Some(&vec![125, 125])),
        Selection::Found(vec![2])
    );
}

#[test]
fn a_course_has_a_folder_and_two_tasks() {
    let effects = course_effects("https://canvas.example", &course(77, "CS1010/E", 115));
    let place = FilePath::destination().join("CS1010_E");
    assert_eq!(
        effects,
        vec![
            Effect::EnsureFolder { path: place.clone() },
            Effect::Fork {
                task: Task::Folders {
                    url: "https://canvas.example/api/v1/courses/77/folders/by_path/".to_string(),
                    path: place.join("files"),
                },
            },
            Effect::Fork {
                task: Task::Data {
                    url: "https://canvas.example/api/v1/courses/77".to_string(),
                    path: place,
                },
            },
        ]
    );
}

#[test]
fn narrow_terminals_have_a_short_template() {
    let short = "[{wide_bar:.cyan/blue}] {total_bytes} - {msg}";
    let long = "[{bar:20.cyan/blue}] {bytes}/{total_bytes} - {bytes_per_sec} - {msg}";
    assert_eq!(progress_template(Some(99)), short);
    assert_eq!(progress_template(Some(100)), long);
    assert_eq!(progress_template(None), long);
}

#[test]
fn the_banner_counts_files() {
    assert_eq!(download_banner(0), "Downloading 0 files");
    assert_eq!(download_banner(1), "Downloading 1 file");
    assert_eq!(download_banner(12), "Downloading 12 files");
}
