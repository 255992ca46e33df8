use canvas_downloader::canvas::File;
use canvas_downloader::path::FilePath;
use canvas_downloader::work::WorkState;

fn file(id: u32) -> File {
    File {
        id,
        folder_id: 0,
        display_name: "a".to_string(),
        size: 0,
        url: "u".to_string(),
        updated_at: "t".to_string(),
        locked_for_user: false,
        filepath: FilePath::destination(),
    }
}

#[test]
fn only_the_last_task_sees_the_end() {
    let mut state = WorkState::new();
    state.begin_task();
    state.begin_task();
    assert!(!state.end_task());
    state.begin_task();
    assert_eq!(state.n_active_requests, 2);
    assert!(!state.end_task());
    assert!(state.end_task());
    assert_eq!(state.n_active_requests, 0);
}

#[test]
fn files_are_queued_in_the_order_they_are_found() {
    let mut state = WorkState::new();
    state.begin_task();
    state.queue_files(vec![file(3), file(1)]);
    state.queue_files(vec![]);
    state.queue_files(vec![file(2)]);
    let ids: Vec<u32> = state.files_to_download.iter().map(|f| f.id).collect();
    assert_eq!(ids, vec![3, 1, 2]);
    assert_eq!(state.n_active_requests, 1);
}
