use std::collections::HashMap;

use canvas_downloader::canvas::{File, ProcessOptions};
use canvas_downloader::download::{
    content_size, hashed_name, temp_file_name, Download, DownloadError, DownloadEvent,
    DownloadStage, DownloadStep,
};
use canvas_downloader::path::FilePath;
use canvas_downloader::screening::{filter_files, DiskState};

const TEMP_NAME: &str = "16464520105341823537.tmp";

fn target() -> FilePath {
    FilePath::destination().join("CS1010").join("notes.pdf")
}

fn temporary() -> FilePath {
    target().parent().join(TEMP_NAME)
}

fn file(updated_at: &str) -> File {
    File {
        id: 5,
        folder_id: 6,
        display_name: "notes.pdf".to_string(),
        size: 7,
        url: "https://canvas.example/files/5/download".to_string(),
        updated_at: updated_at.to_string(),
        locked_for_user: false,
        filepath: target(),
    }
}

fn begun() -> Download {
    Download::start(file("2023-01-02T03:04:05Z")).0
}

fn responded(status: u16) -> DownloadEvent {
    DownloadEvent::Responded { status, content_length: Some("9".to_string()) }
}

fn failed() -> DownloadEvent {
    DownloadEvent::Failed { error: "broken".to_string() }
}

fn chunk(bytes: &[u8]) -> DownloadEvent {
    DownloadEvent::Chunk { bytes: Some(bytes.to_vec()) }
}

fn end() -> DownloadEvent {
    DownloadEvent::Chunk { bytes: None }
}

fn fails_with(download: &mut Download, event: DownloadEvent, reason: DownloadError) {
    assert_eq!(download.receive(event), DownloadStep::Remove { path: temporary() });
    assert_eq!(download.receive(DownloadEvent::Done), DownloadStep::Fail { reason });
    assert_eq!(download.stage, DownloadStage::Over);
}

#[test]
fn the_temporary_name_is_a_hash() {
    assert_eq!(temp_file_name("notes.pdf"), TEMP_NAME);
    assert_eq!(temp_file_name(""), "3476900567878811119.tmp");
}

#[test]
fn a_hash_is_written_in_decimal() {
    assert_eq!(hashed_name(0), "0.tmp");
    assert_eq!(hashed_name(u64::MAX), "18446744073709551615.tmp");
}

#[test]
fn a_complete_download_is_dated_or_fails() {
    let reading = || {
        let mut download = begun();
        download.receive(responded(200));
        download.receive(DownloadEvent::Done);
        download
    };
    assert_eq!(
        reading().complete(Ok((7, 8))),
        DownloadStep::SetModified { path: temporary(), at: (7, 8) }
    );
    assert_eq!(
        reading().complete(Err("E".to_string())),
        DownloadStep::Fail { reason: DownloadError::Timestamp("E".to_string()) }
    );
}

#[test]
fn the_size_is_that_of_the_header() {
    assert_eq!(content_size(Some("1048576")), 1048576);
    assert_eq!(content_size(Some("+5")), 5);
    assert_eq!(content_size(Some("many")), 0);
    assert_eq!(content_size(Some("")), 0);
    assert_eq!(content_size(None), 0);
}

#[test]
fn a_download_goes_through_the_temporary_file() {
    let (mut download, first) = Download::start(file("2023-01-02T03:04:05.5Z"));
    assert_eq!(
        first,
        DownloadStep::Request { url: "https://canvas.example/files/5/download".to_string() }
    );
    assert_eq!(
        download.receive(responded(200)),
        DownloadStep::Create { path: temporary(), size: 9 }
    );
    let mut written: Vec<u8> = Vec::new();
    assert_eq!(download.receive(DownloadEvent::Done), DownloadStep::Read);
    for part in [&b"ab"[..], &b""[..], &b"cde"[..]] {
        match download.receive(chunk(part)) {
            DownloadStep::Write { bytes } => written.extend(bytes),
            other => panic!("{:?}", other),
        }
        assert_eq!(download.receive(DownloadEvent::Done), DownloadStep::Read);
    }
    assert_eq!(written, b"abcde");
    assert_eq!(
        download.receive(end()),
        DownloadStep::SetModified { path: temporary(), at: (1672628645, 500_000_000) }
    );
    assert_eq!(
        download.receive(DownloadEvent::Done),
        DownloadStep::Rename { from: temporary(), to: target() }
    );
    assert_eq!(download.receive(DownloadEvent::Done), DownloadStep::Finish);
    assert_eq!(download.stage, DownloadStage::Over);
}

#[test]
fn a_failed_request_removes_the_temporary_file() {
    fails_with(&mut begun(), failed(), DownloadError::Request("broken".to_string()));
}

#[test]
fn other_statuses_are_refused() {
    fails_with(&mut begun(), responded(199), DownloadError::Status(199));
    fails_with(&mut begun(), responded(300), DownloadError::Status(300));
    fails_with(&mut begun(), responded(404), DownloadError::Status(404));
    assert!(matches!(begun().receive(responded(299)), DownloadStep::Create { .. }));
}

#[test]
fn a_temporary_file_that_cannot_be_created_fails_the_download() {
    let mut download = begun();
    download.receive(responded(200));
    fails_with(&mut download, failed(), DownloadError::Create("broken".to_string()));
}

#[test]
fn contents_that_break_off_remove_the_temporary_file() {
    let mut download = begun();
    download.receive(responded(200));
    download.receive(DownloadEvent::Done);
    download.receive(chunk(b"a"));
    download.receive(DownloadEvent::Done);
    fails_with(&mut download, failed(), DownloadError::Read("broken".to_string()));
}

#[test]
fn contents_that_cannot_be_written_remove_the_temporary_file() {
    let mut download = begun();
    download.receive(responded(200));
    download.receive(DownloadEvent::Done);
    download.receive(chunk(b"a"));
    fails_with(&mut download, failed(), DownloadError::Write("broken".to_string()));
}

#[test]
fn the_reason_survives_a_failed_removal() {
    let mut download = begun();
    download.receive(responded(500));
    assert_eq!(
        download.receive(failed()),
        DownloadStep::Fail { reason: DownloadError::Status(500) }
    );
}

#[test]
fn an_unreadable_time_fails_a_complete_download() {
    let mut download = Download::start(file("yesterday")).0;
    download.receive(responded(200));
    download.receive(DownloadEvent::Done);
    assert_eq!(
        download.receive(end()),
        DownloadStep::Fail {
            reason: DownloadError::Timestamp("premature end of input".to_string()),
        }
    );
}

#[test]
fn a_time_that_cannot_be_set_does_no_harm() {
    let mut download = begun();
    download.receive(responded(200));
    download.receive(DownloadEvent::Done);
    download.receive(end());
    assert_eq!(
        download.receive(failed()),
        DownloadStep::Rename { from: temporary(), to: target() }
    );
}

#[test]
fn a_target_that_cannot_be_named_fails_the_download() {
    let mut download = begun();
    download.receive(responded(200));
    download.receive(DownloadEvent::Done);
    download.receive(end());
    download.receive(DownloadEvent::Done);
    assert_eq!(
        download.receive(failed()),
        DownloadStep::Fail { reason: DownloadError::Rename("broken".to_string()) }
    );
}

#[test]
fn what_was_downloaded_is_not_downloaded_again() {
    let mut download = begun();
    download.receive(responded(200));
    download.receive(DownloadEvent::Done);
    let at = match download.receive(end()) {
        DownloadStep::SetModified { at, .. } => at,
        other => panic!("{:?}", other),
    };
    let options = ProcessOptions {
        canvas_token: "t".to_string(),
        canvas_url: "u".to_string(),
        download_newer: true,
    };
    let on_disk = vec![DiskState::Present { modified: Some(at) }];
    let screened = filter_files(&options, vec![file("2023-01-02T03:04:05Z")], &on_disk);
    assert!(screened.files.is_empty());
    assert!(screened.reports.is_empty());
}

/// Downloads over a disk that has "old" as the target. The attempt number `fails_at`
/// fails; without one the download ends well. The result is what the target has.
fn target_after(fails_at: Option<usize>) -> (bool, Vec<u8>) {
    let key = |path: &FilePath| format!("{:?}", path);
    let mut disk: HashMap<String, Vec<u8>> = HashMap::new();
    disk.insert(key(&target()), b"old".to_vec());
    let (mut download, mut step) = Download::start(file("2023-01-02T03:04:05Z"));
    let mut parts = vec![b"ab".to_vec(), b"cd".to_vec()].into_iter();
    let mut attempt = 0;
    loop {
        if step != DownloadStep::Finish && !matches!(step, DownloadStep::Rename { .. }) {
            assert_eq!(disk[&key(&target())], b"old");
        }
        let fails = Some(attempt) == fails_at;
        attempt += 1;
        let event = match step {
            DownloadStep::Fail { .. } => return (false, disk[&key(&target())].clone()),
            DownloadStep::Finish => return (true, disk[&key(&target())].clone()),
            DownloadStep::Remove { path } => {
                disk.remove(&key(&path));
                DownloadEvent::Done
            }
            _ if fails => failed(),
            DownloadStep::Request { .. } => responded(200),
            DownloadStep::Create { path, .. } => {
                disk.insert(key(&path), Vec::new());
                DownloadEvent::Done
            }
            DownloadStep::Read => DownloadEvent::Chunk { bytes: parts.next() },
            DownloadStep::Write { bytes } => {
                disk.entry(key(&temporary())).or_default().extend(bytes);
                DownloadEvent::Done
            }
            DownloadStep::SetModified { .. } => DownloadEvent::Done,
            DownloadStep::Rename { from, to } => {
                let contents = disk.remove(&key(&from)).unwrap();
                disk.insert(key(&to), contents);
                DownloadEvent::Done
            }
        };
        step = download.receive(event);
    }
}

#[test]
fn a_failed_download_leaves_the_target_as_it_was() {
    assert_eq!(target_after(None), (true, b"abcd".to_vec()));
    for attempt in 0..7 {
        assert_eq!(target_after(Some(attempt)), (false, b"old".to_vec()), "{}", attempt);
    }
    assert_eq!(target_after(Some(7)), (true, b"abcd".to_vec()));
    assert_eq!(target_after(Some(8)), (false, b"old".to_vec()));
}
