//! Downloading a file: into a temporary file first, which takes the place of
//! the target once it is complete.

use std::collections::hash_map::DefaultHasher;

use vstd::prelude::*;
use vstd::std_specs::hash::DefaultHasherAdditionalSpecFns;

use crate::canvas::{File, FileModel};
use crate::outside::{
    hash_text, hash_writes, parse_rfc3339, rfc3339_instant, rfc3339_reading,
};
use crate::path::{
    joined, law_plain_name_is_entry, law_steps_move, parent_of, place_of, FilePath, PathModel,
    PathStepModel, Place,
};
use crate::screening::{is_wanted, DiskState};
use crate::text::{
    concat, decimal, decimal_string, law_decimal_is_read_back, number_of, parse_number,
};

verus! {

/// Why a download failed.
#[derive(Debug, PartialEq, Eq)]
pub enum DownloadError {
    /// The request could not be made.
    Request(String),
    /// The response has a status other than success.
    Status(u16),
    /// The temporary file could not be created.
    Create(String),
    /// The contents could not be read to their end.
    Read(String),
    /// The contents could not be written.
    Write(String),
    /// The time of the last change cannot be read.
    Timestamp(String),
    /// The temporary file could not take the place of the target.
    Rename(String),
}

/// The reason of a failed download, as a mathematical value.
pub enum DownloadErrorModel {
    Request(Seq<char>),
    Status(u16),
    Create(Seq<char>),
    Read(Seq<char>),
    Write(Seq<char>),
    Timestamp(Seq<char>),
    Rename(Seq<char>),
}

impl DeepView for DownloadError {
    type V = DownloadErrorModel;

    open spec fn deep_view(&self) -> DownloadErrorModel {
        match self {
            DownloadError::Request(error) => DownloadErrorModel::Request(error@),
            DownloadError::Status(status) => DownloadErrorModel::Status(*status),
            DownloadError::Create(error) => DownloadErrorModel::Create(error@),
            DownloadError::Read(error) => DownloadErrorModel::Read(error@),
            DownloadError::Write(error) => DownloadErrorModel::Write(error@),
            DownloadError::Timestamp(error) => DownloadErrorModel::Timestamp(error@),
            DownloadError::Rename(error) => DownloadErrorModel::Rename(error@),
        }
    }
}

/// What is to be done next about a download.
#[derive(Debug, PartialEq, Eq)]
pub enum DownloadStep {
    /// Ask for the address.
    Request { url: String },
    /// Create the temporary file, and show progress towards the size.
    Create { path: FilePath, size: u64 },
    /// Read some more of the contents.
    Read,
    /// Write the contents to the temporary file.
    Write { bytes: Vec<u8> },
    /// Remove the temporary file.
    Remove { path: FilePath },
    /// Set the time of the last change of the temporary file.
    SetModified { path: FilePath, at: (i64, u32) },
    /// Give the temporary file the name of the target.
    Rename { from: FilePath, to: FilePath },
    /// The download has failed.
    Fail { reason: DownloadError },
    /// The download is complete.
    Finish,
}

/// A step of a download as a mathematical value.
pub enum DownloadStepModel {
    Request { url: Seq<char> },
    Create { path: PathModel, size: u64 },
    Read,
    Write { bytes: Seq<u8> },
    Remove { path: PathModel },
    SetModified { path: PathModel, at: (i64, u32) },
    Rename { from: PathModel, to: PathModel },
    Fail { reason: DownloadErrorModel },
    Finish,
}

impl DeepView for DownloadStep {
    type V = DownloadStepModel;

    open spec fn deep_view(&self) -> DownloadStepModel {
        match self {
            DownloadStep::Request { url } => DownloadStepModel::Request { url: url@ },
            DownloadStep::Create { path, size } => DownloadStepModel::Create {
                path: path.deep_view(),
                size: *size,
            },
            DownloadStep::Read => DownloadStepModel::Read,
            DownloadStep::Write { bytes } => DownloadStepModel::Write { bytes: bytes@ },
            DownloadStep::Remove { path } => DownloadStepModel::Remove { path: path.deep_view() },
            DownloadStep::SetModified { path, at } => DownloadStepModel::SetModified {
                path: path.deep_view(),
                at: *at,
            },
            DownloadStep::Rename { from, to } => DownloadStepModel::Rename {
                from: from.deep_view(),
                to: to.deep_view(),
            },
            DownloadStep::Fail { reason } => DownloadStepModel::Fail {
                reason: reason.deep_view(),
            },
            DownloadStep::Finish => DownloadStepModel::Finish,
        }
    }
}

/// What came of a step.
#[derive(Debug, PartialEq, Eq)]
pub enum DownloadEvent {
    /// A response came, with its status and its `Content-Length` header.
    Responded { status: u16, content_length: Option<String> },
    /// Some contents came, or none because there are no more.
    Chunk { bytes: Option<Vec<u8>> },
    /// It is done.
    Done,
    /// It failed.
    Failed { error: String },
}

/// What came of a step, as a mathematical value.
pub enum DownloadEventModel {
    Responded { status: u16, content_length: Option<Seq<char>> },
    Chunk { bytes: Option<Seq<u8>> },
    Done,
    Failed { error: Seq<char> },
}

impl DeepView for DownloadEvent {
    type V = DownloadEventModel;

    open spec fn deep_view(&self) -> DownloadEventModel {
        match self {
            DownloadEvent::Responded { status, content_length } => DownloadEventModel::Responded {
                status: *status,
                content_length: content_length.deep_view(),
            },
            DownloadEvent::Chunk { bytes } => DownloadEventModel::Chunk {
                bytes: match bytes {
                    Some(bytes) => Some(bytes@),
                    None => None,
                },
            },
            DownloadEvent::Done => DownloadEventModel::Done,
            DownloadEvent::Failed { error } => DownloadEventModel::Failed { error: error@ },
        }
    }
}

/// What a download waits for.
#[derive(Debug, PartialEq, Eq)]
pub enum DownloadStage {
    /// For a response.
    Requesting,
    /// For the temporary file.
    Creating,
    /// For contents.
    Reading,
    /// For contents to be written.
    Writing,
    /// For the temporary file to be gone, because of this.
    Removing { reason: DownloadError },
    /// For the time of the last change to be set.
    Dating,
    /// For the temporary file to take the place of the target.
    Renaming,
    /// For nothing.
    Over,
}

/// What a download waits for, as a mathematical value.
pub enum DownloadStageModel {
    Requesting,
    Creating,
    Reading,
    Writing,
    Removing { reason: DownloadErrorModel },
    Dating,
    Renaming,
    Over,
}

impl DeepView for DownloadStage {
    type V = DownloadStageModel;

    open spec fn deep_view(&self) -> DownloadStageModel {
        match self {
            DownloadStage::Requesting => DownloadStageModel::Requesting,
            DownloadStage::Creating => DownloadStageModel::Creating,
            DownloadStage::Reading => DownloadStageModel::Reading,
            DownloadStage::Writing => DownloadStageModel::Writing,
            DownloadStage::Removing { reason } => DownloadStageModel::Removing {
                reason: reason.deep_view(),
            },
            DownloadStage::Dating => DownloadStageModel::Dating,
            DownloadStage::Renaming => DownloadStageModel::Renaming,
            DownloadStage::Over => DownloadStageModel::Over,
        }
    }
}

/// Whether a response with this status has the contents that were asked for.
pub open spec fn is_success(status: u16) -> bool {
    200 <= status < 300
}

/// The size that a `Content-Length` header gives, and zero if it gives none.
pub open spec fn announced_size(content_length: Option<Seq<char>>) -> u64 {
    match content_length {
        Some(header) => match number_of(header) {
            Some(size) => size,
            None => 0,
        },
        None => 0,
    }
}

/// The name of a temporary file, from a hash.
pub open spec fn hash_name(hash: u64) -> Seq<char> {
    decimal(hash as nat) + ".tmp"@
}

/// The name of the temporary file for what is called `display_name`.
pub open spec fn temp_name(display_name: Seq<char>) -> Seq<char> {
    hash_name(DefaultHasher::spec_finish(hash_writes(display_name)))
}

/// The temporary file for `file`: it lies in the folder of the target.
pub open spec fn temp_path(file: FileModel) -> PathModel {
    joined(parent_of(file.filepath), temp_name(file.display_name))
}

impl DownloadStageModel {
    /// Whether `event` is something that can come now.
    pub open spec fn expects(self, event: DownloadEventModel) -> bool {
        match self {
            DownloadStageModel::Requesting => event is Responded || event is Failed,
            DownloadStageModel::Reading => event is Chunk || event is Failed,
            DownloadStageModel::Over => false,
            _ => event is Done || event is Failed,
        }
    }
}

/// Giving up on `file` because of `reason`: the temporary file goes.
pub open spec fn given_up(file: FileModel, reason: DownloadErrorModel) -> (
    DownloadStageModel,
    DownloadStepModel,
) {
    (
        DownloadStageModel::Removing { reason },
        DownloadStepModel::Remove { path: temp_path(file) },
    )
}

/// Ending the download because of `reason`.
pub open spec fn failed(reason: DownloadErrorModel) -> (DownloadStageModel, DownloadStepModel) {
    (DownloadStageModel::Over, DownloadStepModel::Fail { reason })
}

/// Moving on to the target.
pub open spec fn renamed(file: FileModel) -> (DownloadStageModel, DownloadStepModel) {
    (
        DownloadStageModel::Renaming,
        DownloadStepModel::Rename { from: temp_path(file), to: file.filepath },
    )
}

/// Going on after the contents of `file` are complete, if `at` is its time of
/// change, or why that cannot be read.
pub open spec fn completed(file: FileModel, at: Result<(i64, u32), Seq<char>>) -> (
    DownloadStageModel,
    DownloadStepModel,
) {
    match at {
        Ok(at) => (
            DownloadStageModel::Dating,
            DownloadStepModel::SetModified { path: temp_path(file), at },
        ),
        Err(error) => failed(DownloadErrorModel::Timestamp(error)),
    }
}

/// What a download of `file` waits for next, and what is to be done for it,
/// after `event` came where it was waiting in `stage`. Until the contents are
/// complete, any failure removes the temporary file. A time of change that
/// cannot be set does no harm.
pub open spec fn after_event(
    file: FileModel,
    stage: DownloadStageModel,
    event: DownloadEventModel,
) -> (DownloadStageModel, DownloadStepModel) {
    match (stage, event) {
        (
            DownloadStageModel::Requesting,
            DownloadEventModel::Responded { status, content_length },
        ) => if is_success(status) {
            (
                DownloadStageModel::Creating,
                DownloadStepModel::Create {
                    path: temp_path(file),
                    size: announced_size(content_length),
                },
            )
        } else {
            given_up(file, DownloadErrorModel::Status(status))
        },
        (DownloadStageModel::Requesting, DownloadEventModel::Failed { error }) => given_up(
            file,
            DownloadErrorModel::Request(error),
        ),
        (DownloadStageModel::Creating, DownloadEventModel::Failed { error }) => given_up(
            file,
            DownloadErrorModel::Create(error),
        ),
        (DownloadStageModel::Reading, DownloadEventModel::Failed { error }) => given_up(
            file,
            DownloadErrorModel::Read(error),
        ),
        (DownloadStageModel::Writing, DownloadEventModel::Failed { error }) => given_up(
            file,
            DownloadErrorModel::Write(error),
        ),
        (DownloadStageModel::Creating, DownloadEventModel::Done) => (
            DownloadStageModel::Reading,
            DownloadStepModel::Read,
        ),
        (DownloadStageModel::Writing, DownloadEventModel::Done) => (
            DownloadStageModel::Reading,
            DownloadStepModel::Read,
        ),
        (DownloadStageModel::Reading, DownloadEventModel::Chunk { bytes: Some(bytes) }) => (
            DownloadStageModel::Writing,
            DownloadStepModel::Write { bytes },
        ),
        (DownloadStageModel::Reading, DownloadEventModel::Chunk { bytes: None }) => completed(
            file,
            rfc3339_reading(file.updated_at),
        ),
        (DownloadStageModel::Dating, _) => renamed(file),
        (DownloadStageModel::Renaming, DownloadEventModel::Failed { error }) => failed(
            DownloadErrorModel::Rename(error),
        ),
        (DownloadStageModel::Renaming, _) => (
            DownloadStageModel::Over,
            DownloadStepModel::Finish,
        ),
        (DownloadStageModel::Removing { reason }, _) => failed(reason),
        (stage, _) => (stage, DownloadStepModel::Finish),
    }
}

/// A file that is being downloaded.
#[derive(Debug, PartialEq, Eq)]
pub struct Download {
    pub file: File,
    pub tmp_path: FilePath,
    pub stage: DownloadStage,
}

/// The name of the temporary file for what is called `display_name`.
pub fn temp_file_name(display_name: &str) -> (res: String)
    ensures
        res@ == temp_name(display_name@),
{
    let mut hasher: DefaultHasher = DefaultHasher::new();
    hash_text(display_name, &mut hasher);
    assert(hasher@ == hash_writes(display_name@));
    hashed_name(std::hash::Hasher::finish(&hasher))
}

/// The name of a temporary file, from a hash.
pub fn hashed_name(hash: u64) -> (res: String)
    ensures
        res@ == hash_name(hash),
{
    concat(decimal_string(hash).as_str(), ".tmp")
}

/// The size that a `Content-Length` header gives, and zero if it gives none.
pub fn content_size(content_length: Option<&str>) -> (res: u64)
    ensures
        res == announced_size(content_length.deep_view()),
{
    match content_length {
        Some(header) => match parse_number(header) {
            Some(size) => size,
            None => 0,
        },
        None => 0,
    }
}

impl Download {
    /// Whether the temporary file is that of the file.
    pub open spec fn valid(&self) -> bool {
        self.tmp_path.deep_view() == temp_path(self.file.deep_view())
    }

    /// Begins to download `file`, with a request for its address.
    pub fn start(file: File) -> (res: (Download, DownloadStep))
        ensures
            res.0.valid(),
            res.0.file == file,
            res.0.stage.deep_view() == DownloadStageModel::Requesting,
            res.1.deep_view() == (DownloadStepModel::Request { url: file.url@ }),
    {
        let name: String = temp_file_name(file.display_name.as_str());
        let tmp_path: FilePath = file.filepath.parent().join(name.as_str());
        let step: DownloadStep = DownloadStep::Request { url: file.url.clone() };
        (Download { file, tmp_path, stage: DownloadStage::Requesting }, step)
    }

    /// Gives up because of `reason`.
    fn give_up(&mut self, reason: DownloadError) -> (res: DownloadStep)
        requires
            old(self).valid(),
        ensures
            final(self).valid(),
            final(self).file == old(self).file,
            (final(self).stage.deep_view(), res.deep_view()) == given_up(
                old(self).file.deep_view(),
                reason.deep_view(),
            ),
    {
        self.stage = DownloadStage::Removing { reason };
        DownloadStep::Remove { path: self.tmp_path.clone() }
    }

    /// Goes on after the contents are complete, if `at` is the time of change of
    /// the file, or why that cannot be read.
    pub fn complete(&mut self, at: Result<(i64, u32), String>) -> (res: DownloadStep)
        requires
            old(self).valid(),
            old(self).stage is Reading,
        ensures
            final(self).valid(),
            final(self).file == old(self).file,
            (final(self).stage.deep_view(), res.deep_view()) == completed(
                old(self).file.deep_view(),
                match at {
                    Ok(at) => Ok(at),
                    Err(error) => Err(error@),
                },
            ),
    {
        match at {
            Ok(at) => {
                self.stage = DownloadStage::Dating;
                DownloadStep::SetModified { path: self.tmp_path.clone(), at }
            },
            Err(error) => {
                self.stage = DownloadStage::Over;
                DownloadStep::Fail { reason: DownloadError::Timestamp(error) }
            },
        }
    }

    /// Takes what came of the last step, and says what is to be done next.
    pub fn receive(&mut self, event: DownloadEvent) -> (res: DownloadStep)
        requires
            old(self).valid(),
            old(self).stage.deep_view().expects(event.deep_view()),
        ensures
            final(self).valid(),
            final(self).file == old(self).file,
            (final(self).stage.deep_view(), res.deep_view()) == after_event(
                old(self).file.deep_view(),
                old(self).stage.deep_view(),
                event.deep_view(),
            ),
    {
        let mut stage: DownloadStage = DownloadStage::Over;
        std::mem::swap(&mut stage, &mut self.stage);
        match (stage, event) {
            (
                DownloadStage::Requesting,
                DownloadEvent::Responded { status, content_length },
            ) => {
                if 200 <= status && status < 300 {
                    let size: u64 = match &content_length {
                        Some(header) => content_size(Some(header.as_str())),
                        None => content_size(None),
                    };
                    self.stage = DownloadStage::Creating;
                    DownloadStep::Create { path: self.tmp_path.clone(), size }
                } else {
                    self.give_up(DownloadError::Status(status))
                }
            },
            (DownloadStage::Requesting, DownloadEvent::Failed { error }) => self.give_up(
                DownloadError::Request(error),
            ),
            (DownloadStage::Creating, DownloadEvent::Failed { error }) => self.give_up(
                DownloadError::Create(error),
            ),
            (DownloadStage::Reading, DownloadEvent::Failed { error }) => self.give_up(
                DownloadError::Read(error),
            ),
            (DownloadStage::Writing, DownloadEvent::Failed { error }) => self.give_up(
                DownloadError::Write(error),
            ),
            (DownloadStage::Creating, _) => {
                self.stage = DownloadStage::Reading;
                DownloadStep::Read
            },
            (DownloadStage::Writing, _) => {
                self.stage = DownloadStage::Reading;
                DownloadStep::Read
            },
            (DownloadStage::Reading, DownloadEvent::Chunk { bytes: Some(bytes) }) => {
                self.stage = DownloadStage::Writing;
                DownloadStep::Write { bytes }
            },
            (DownloadStage::Reading, DownloadEvent::Chunk { bytes: None }) => {
                self.stage = DownloadStage::Reading;
                let at: Result<(i64, u32), String> = parse_rfc3339(self.file.updated_at.as_str());
                self.complete(at)
            },
            (DownloadStage::Dating, _) => {
                self.stage = DownloadStage::Renaming;
                DownloadStep::Rename {
                    from: self.tmp_path.clone(),
                    to: self.file.filepath.clone(),
                }
            },
            (DownloadStage::Renaming, DownloadEvent::Failed { error }) => DownloadStep::Fail {
                reason: DownloadError::Rename(error),
            },
            (DownloadStage::Renaming, _) => DownloadStep::Finish,
            (DownloadStage::Removing { reason }, _) => DownloadStep::Fail { reason },
            (stage, _) => {
                self.stage = stage;
                DownloadStep::Finish
            },
        }
    }
}

/// What a download of `file` waits for after `events`.
pub open spec fn stage_after(file: FileModel, events: Seq<DownloadEventModel>) -> DownloadStageModel
    decreases events.len(),
{
    if events.len() == 0 {
        DownloadStageModel::Requesting
    } else {
        after_event(file, stage_after(file, events.drop_last()), events.last()).0
    }
}

/// What a download of `file` is to do after `events`.
pub open spec fn step_after(file: FileModel, events: Seq<DownloadEventModel>) -> DownloadStepModel {
    if events.len() == 0 {
        DownloadStepModel::Request { url: file.url }
    } else {
        after_event(file, stage_after(file, events.drop_last()), events.last()).1
    }
}

/// Whether every one of `events` can come when it does.
pub open spec fn is_course(file: FileModel, events: Seq<DownloadEventModel>) -> bool
    decreases events.len(),
{
    events.len() > 0 ==> is_course(file, events.drop_last()) && stage_after(
        file,
        events.drop_last(),
    ).expects(events.last())
}

/// The contents that came.
pub open spec fn received(events: Seq<DownloadEventModel>) -> Seq<u8>
    decreases events.len(),
{
    if events.len() == 0 {
        Seq::empty()
    } else {
        match events.last() {
            DownloadEventModel::Chunk { bytes: Some(bytes) } => received(events.drop_last())
                + bytes,
            _ => received(events.drop_last()),
        }
    }
}

/// The contents that were written: those of every step that asked to write and
/// was done.
pub open spec fn written(file: FileModel, events: Seq<DownloadEventModel>) -> Seq<u8>
    decreases events.len(),
{
    if events.len() == 0 {
        Seq::empty()
    } else {
        match (step_after(file, events.drop_last()), events.last()) {
            (DownloadStepModel::Write { bytes }, DownloadEventModel::Done) => written(
                file,
                events.drop_last(),
            ) + bytes,
            _ => written(file, events.drop_last()),
        }
    }
}

/// Whether the end of the contents came.
pub open spec fn reached_end(events: Seq<DownloadEventModel>) -> bool {
    exists|k: int|
        0 <= k < events.len() && #[trigger] events[k] == (DownloadEventModel::Chunk {
            bytes: None,
        })
}

/// What holds of a download in every stage: nothing that came is missing in what
/// was written, but for the chunk that is being written, and a download goes on
/// to the target only after the end of the contents.
proof fn lemma_course(file: FileModel, events: Seq<DownloadEventModel>)
    requires
        is_course(file, events),
    ensures
        match stage_after(file, events) {
            DownloadStageModel::Requesting => written(file, events) == received(events),
            DownloadStageModel::Creating => written(file, events) == received(events),
            DownloadStageModel::Reading => written(file, events) == received(events),
            DownloadStageModel::Writing => step_after(file, events) matches
                DownloadStepModel::Write { bytes } && written(file, events) + bytes == received(
                events,
            ),
            DownloadStageModel::Dating => written(file, events) == received(events) && reached_end(
                events,
            ),
            DownloadStageModel::Renaming => written(file, events) == received(events)
                && reached_end(events),
            DownloadStageModel::Over => step_after(file, events) is Finish ==> written(file, events)
                == received(events) && reached_end(events),
            DownloadStageModel::Removing { reason } => true,
        },
        stage_after(file, events) is Over ==> step_after(file, events) is Finish || step_after(
            file,
            events,
        ) is Fail,
    decreases events.len(),
{
    if events.len() > 0 {
        let before = events.drop_last();
        lemma_course(file, before);
        if reached_end(before) {
            let k = choose|k: int|
                0 <= k < before.len() && #[trigger] before[k] == (DownloadEventModel::Chunk {
                    bytes: None,
                });
            assert(events[k] == before[k]);
        }
        if events.last() == (DownloadEventModel::Chunk { bytes: None }) {
            assert(events[events.len() - 1] == events.last());
        }
    }
}

/// The temporary file takes the place of the target only when it is complete:
/// everything that came has been written, in the order in which it came, up to
/// the end of the contents. A download that ends well has got there.
pub proof fn law_target_is_complete(file: FileModel, events: Seq<DownloadEventModel>)
    requires
        is_course(file, events),
        step_after(file, events) is Rename || step_after(file, events) is Finish,
    ensures
        written(file, events) == received(events),
        reached_end(events),
{
    lemma_course(file, events);
    if events.len() > 0 {
        lemma_course(file, events.drop_last());
    }
}

/// The place of the temporary file for `file`: an entry of the folder of the
/// target, whose name is the hash of the display name and nothing else.
pub proof fn law_temp_place(file: FileModel)
    ensures
        ({
            let folder = place_of(file.filepath).parent();
            place_of(temp_path(file)) == (Place {
                base: folder.base,
                parts: folder.parts.push(temp_name(file.display_name)),
            })
        }),
        place_of(temp_path(file)).parent() == place_of(file.filepath).parent(),
{
    let hash = DefaultHasher::spec_finish(hash_writes(file.display_name));
    let name = temp_name(file.display_name);
    law_steps_move(file.filepath, name);
    law_steps_move(parent_of(file.filepath), name);
    reveal_strlit(".tmp");
    law_decimal_is_read_back(hash as nat);
    let number = decimal(hash as nat);
    assert forall|i: int| 0 <= i < name.len() implies name[i] != '/' by {
        if i < number.len() {
            assert(name[i] == number[i]);
        } else {
            assert(name[i] == ".tmp"@[i - number.len()]);
        }
    }
    assert(name.len() > 1);
    law_plain_name_is_entry(place_of(parent_of(file.filepath)), name);
}

/// Two files whose targets lie in one folder, and that have one display name, have
/// one temporary file, whatever else they have.
pub proof fn law_temp_place_is_shared(a: FileModel, b: FileModel)
    requires
        place_of(a.filepath).parent() == place_of(b.filepath).parent(),
        a.display_name == b.display_name,
    ensures
        place_of(temp_path(a)) == place_of(temp_path(b)),
{
    law_temp_place(a);
    law_temp_place(b);
}

/// Whether `step` creates, removes or changes what is at `place`.
pub open spec fn changes(file: FileModel, step: DownloadStepModel, place: Place) -> bool {
    match step {
        DownloadStepModel::Create { path, size } => place_of(path) == place,
        DownloadStepModel::Write { bytes } => place_of(temp_path(file)) == place,
        DownloadStepModel::Remove { path } => place_of(path) == place,
        DownloadStepModel::SetModified { path, at } => place_of(path) == place,
        DownloadStepModel::Rename { from, to } => place_of(from) == place || place_of(to) == place,
        _ => false,
    }
}

/// Where the target is not itself the place of the temporary file, no step but the
/// one that gives the temporary file its name touches the target.
pub proof fn law_only_rename_touches_target(file: FileModel, events: Seq<DownloadEventModel>)
    requires
        is_course(file, events),
        place_of(file.filepath) != place_of(temp_path(file)),
        changes(file, step_after(file, events), place_of(file.filepath)),
    ensures
        step_after(file, events) == (DownloadStepModel::Rename {
            from: temp_path(file),
            to: file.filepath,
        }),
{
}

/// What is at a place on disk.
pub struct Entry {
    pub contents: Seq<u8>,
    pub modified: Option<(i64, u32)>,
}

/// What is on disk.
pub type Disk = Map<Place, Entry>;

/// Whether `after` can be on disk once `event` has come of `step`, if `before` was
/// there and nothing else touches it. What is done is done. What fails leaves
/// everything as it is, but for the temporary file while it is created or
/// written.
pub open spec fn can_follow(
    file: FileModel,
    step: DownloadStepModel,
    event: DownloadEventModel,
    before: Disk,
    after: Disk,
) -> bool {
    match (step, event) {
        (DownloadStepModel::Create { path, size }, DownloadEventModel::Done) => {
            let place = place_of(path);
            &&& after.remove(place) == before.remove(place)
            &&& after.contains_key(place)
            &&& after[place].contents == Seq::<u8>::empty()
        },
        (DownloadStepModel::Create { path, size }, _) => after.remove(place_of(path))
            == before.remove(place_of(path)),
        (DownloadStepModel::Write { bytes }, DownloadEventModel::Done) => {
            let place = place_of(temp_path(file));
            &&& after.remove(place) == before.remove(place)
            &&& after.contains_key(place)
            &&& after[place].contents == before[place].contents + bytes
        },
        (DownloadStepModel::Write { bytes }, _) => after.remove(place_of(temp_path(file)))
            == before.remove(place_of(temp_path(file))),
        (DownloadStepModel::Remove { path }, DownloadEventModel::Done) => after == before.remove(
            place_of(path),
        ),
        (DownloadStepModel::SetModified { path, at }, DownloadEventModel::Done) => after
            == before.insert(
            place_of(path),
            Entry { contents: before[place_of(path)].contents, modified: Some(at) },
        ),
        (DownloadStepModel::Rename { from, to }, DownloadEventModel::Done) => after
            == before.remove(place_of(from)).insert(place_of(to), before[place_of(from)]),
        _ => after == before,
    }
}

/// Whether `disks` can be on disk in the course of a download: the first before it
/// begins, and one more after each of `events`.
pub open spec fn is_disk_history(
    file: FileModel,
    events: Seq<DownloadEventModel>,
    disks: Seq<Disk>,
) -> bool
    decreases events.len(),
{
    &&& disks.len() == events.len() + 1
    &&& events.len() > 0 ==> {
        &&& is_disk_history(file, events.drop_last(), disks.drop_last())
        &&& can_follow(
            file,
            step_after(file, events.drop_last()),
            events.last(),
            disks[disks.len() - 2],
            disks.last(),
        )
    }
}

/// Whether two disks have the same at `place`, or both have nothing there.
pub open spec fn agree_at(a: Disk, b: Disk, place: Place) -> bool {
    &&& a.contains_key(place) == b.contains_key(place)
    &&& a.contains_key(place) ==> a[place] == b[place]
}

/// What the disk has in every stage: the target as it was until the download is
/// complete, and in the temporary file what was written.
proof fn lemma_disk(file: FileModel, events: Seq<DownloadEventModel>, disks: Seq<Disk>)
    requires
        is_course(file, events),
        is_disk_history(file, events, disks),
        place_of(file.filepath) != place_of(temp_path(file)),
    ensures
        step_after(file, events) !is Finish ==> agree_at(
            disks.last(),
            disks[0],
            place_of(file.filepath),
        ),
        match stage_after(file, events) {
            DownloadStageModel::Requesting | DownloadStageModel::Creating => written(file, events)
                == Seq::<u8>::empty(),
            DownloadStageModel::Reading | DownloadStageModel::Writing
            | DownloadStageModel::Dating | DownloadStageModel::Renaming => {
                &&& disks.last().contains_key(place_of(temp_path(file)))
                &&& disks.last()[place_of(temp_path(file))].contents == written(file, events)
            },
            DownloadStageModel::Over => step_after(file, events) is Finish ==> {
                &&& disks.last().contains_key(place_of(file.filepath))
                &&& disks.last()[place_of(file.filepath)].contents == written(file, events)
            },
            _ => true,
        },
    decreases events.len(),
{
    if events.len() > 0 {
        let temp = place_of(temp_path(file));
        let target = place_of(file.filepath);
        let earlier = events.drop_last();
        let history = disks.drop_last();
        let before = disks[disks.len() - 2];
        let after = disks.last();
        lemma_disk(file, earlier, history);
        lemma_course(file, earlier);
        lemma_steps(file, earlier);
        assert(history.last() == before);
        assert(history[0] == disks[0]);
        let step = step_after(file, earlier);
        if step is Create || step is Write {
            assert(after.remove(temp).contains_key(target) == before.remove(temp).contains_key(
                target,
            ));
            assert(after.remove(temp)[target] == before.remove(temp)[target]);
        }
    }
}

/// Which step a stage waits for.
proof fn lemma_steps(file: FileModel, events: Seq<DownloadEventModel>)
    requires
        is_course(file, events),
    ensures
        match stage_after(file, events) {
            DownloadStageModel::Requesting => step_after(file, events) is Request,
            DownloadStageModel::Creating => step_after(file, events) matches
                DownloadStepModel::Create { path, size } && path == temp_path(file),
            DownloadStageModel::Reading => step_after(file, events) is Read,
            DownloadStageModel::Writing => step_after(file, events) is Write,
            DownloadStageModel::Removing { reason } => step_after(file, events) == (
            DownloadStepModel::Remove { path: temp_path(file) }),
            DownloadStageModel::Dating => step_after(file, events) matches
                DownloadStepModel::SetModified { path, at } && path == temp_path(file),
            DownloadStageModel::Renaming => step_after(file, events) == (
            DownloadStepModel::Rename { from: temp_path(file), to: file.filepath }),
            DownloadStageModel::Over => step_after(file, events) is Finish || step_after(
                file,
                events,
            ) is Fail,
        },
{
    if events.len() > 0 {
        lemma_course(file, events);
    }
}

/// Until a download has ended well, and for good if it fails, the target is as it
/// was before: with the same contents and time of change, or absent. This holds
/// after every event, so at no moment does the target have a part of the
/// contents. It speaks of targets that are not themselves the place of the
/// temporary file.
pub proof fn law_target_is_kept(
    file: FileModel,
    events: Seq<DownloadEventModel>,
    disks: Seq<Disk>,
)
    requires
        is_course(file, events),
        is_disk_history(file, events, disks),
        place_of(file.filepath) != place_of(temp_path(file)),
        step_after(file, events) !is Finish,
    ensures
        agree_at(disks.last(), disks[0], place_of(file.filepath)),
{
    lemma_disk(file, events, disks);
}

/// After a download that has ended well the target has all the contents that
/// came, up to their end. The last event but one tells whether its time of change
/// was set; if it was, it is that of the file on Canvas.
pub proof fn law_target_has_contents(
    file: FileModel,
    events: Seq<DownloadEventModel>,
    disks: Seq<Disk>,
)
    requires
        is_course(file, events),
        is_disk_history(file, events, disks),
        place_of(file.filepath) != place_of(temp_path(file)),
        step_after(file, events) is Finish,
    ensures
        disks.last().contains_key(place_of(file.filepath)),
        disks.last()[place_of(file.filepath)].contents == received(events),
        reached_end(events),
        events.len() >= 2,
        step_after(file, events.take(events.len() - 2)) is SetModified,
        events[events.len() - 2] is Done ==> disks.last()[place_of(file.filepath)].modified
            == rfc3339_instant(file.updated_at),
{
    lemma_disk(file, events, disks);
    lemma_steps(file, events);
    law_target_is_complete(file, events);
    reveal_with_fuel(is_course, 3);
    reveal_with_fuel(stage_after, 3);
    reveal_with_fuel(is_disk_history, 3);
    let renaming = events.drop_last();
    lemma_steps(file, renaming);
    let dating = renaming.drop_last();
    let history = disks.drop_last();
    assert(history.last() == disks[disks.len() - 2]);
    assert(history[history.len() - 2] == disks[disks.len() - 3]);
    lemma_steps(file, dating);
    assert(dating == events.take(events.len() - 2));
    assert(renaming.last() == events[events.len() - 2]);
    lemma_dating(file, dating);
}

/// The time that is set is that of the file on Canvas.
proof fn lemma_dating(file: FileModel, events: Seq<DownloadEventModel>)
    requires
        is_course(file, events),
        stage_after(file, events) is Dating,
    ensures
        step_after(file, events) matches DownloadStepModel::SetModified { path, at }
            && rfc3339_instant(file.updated_at) == Some(at),
{
}

/// Why a download fails for `event`, if it waits in `stage`.
pub open spec fn reason_of(
    stage: DownloadStageModel,
    event: DownloadEventModel,
) -> DownloadErrorModel {
    match event {
        DownloadEventModel::Failed { error } => match stage {
            DownloadStageModel::Requesting => DownloadErrorModel::Request(error),
            DownloadStageModel::Creating => DownloadErrorModel::Create(error),
            DownloadStageModel::Reading => DownloadErrorModel::Read(error),
            _ => DownloadErrorModel::Write(error),
        },
        _ => DownloadErrorModel::Status(event->status),
    }
}

/// Whatever fails before the contents are complete, the temporary file is
/// removed next, and the download then fails with the reason.
pub proof fn law_failure_removes_temp(
    file: FileModel,
    stage: DownloadStageModel,
    event: DownloadEventModel,
    removed: DownloadEventModel,
)
    requires
        stage.expects(event),
        stage is Requesting || stage is Creating || stage is Reading || stage is Writing,
        event is Failed || (event matches DownloadEventModel::Responded { status, .. }
            && !is_success(status)),
        removed is Done || removed is Failed,
    ensures
        after_event(file, stage, event).1 == (DownloadStepModel::Remove { path: temp_path(file) }),
        after_event(file, after_event(file, stage, event).0, removed).1 == (
        DownloadStepModel::Fail { reason: reason_of(stage, event) }),
{
}

/// A file whose time of change is readable, as that of every candidate is, never
/// fails for it.
pub proof fn law_readable_time_does_not_fail(
    file: FileModel,
    stage: DownloadStageModel,
    event: DownloadEventModel,
)
    requires
        rfc3339_instant(file.updated_at) is Some,
        stage.expects(event),
        stage !is Removing,
    ensures
        !(after_event(file, stage, event).1 matches DownloadStepModel::Fail { reason }
            && reason is Timestamp),
{
}

/// A file that was downloaded, and has kept the time of change that it was
/// given, is not downloaded again.
pub proof fn law_downloaded_file_is_left(
    file: FileModel,
    stage: DownloadStageModel,
    event: DownloadEventModel,
    download_newer: bool,
)
    requires
        after_event(file, stage, event).1 is SetModified,
        stage.expects(event),
    ensures
        !is_wanted(
            file,
            DiskState::Present {
                modified: Some(after_event(file, stage, event).1->SetModified_at),
            },
            download_newer,
        ),
{
}

/// A response whose status is below 200, or 300 and above, is refused, whatever it
/// brings: the temporary file is removed and the download fails with the status.
pub proof fn law_other_statuses_are_refused(
    file: FileModel,
    status: u16,
    content_length: Option<Seq<char>>,
    removed: DownloadEventModel,
)
    requires
        status < 200 || status >= 300,
        removed is Done || removed is Failed,
    ensures
        ({
            let responded = DownloadEventModel::Responded { status, content_length };
            let (stage, step) = after_event(file, DownloadStageModel::Requesting, responded);
            &&& step == (DownloadStepModel::Remove { path: temp_path(file) })
            &&& after_event(file, stage, removed).0 == DownloadStageModel::Over
            &&& after_event(file, stage, removed).1 == (DownloadStepModel::Fail {
                reason: DownloadErrorModel::Status(status),
            })
        }),
{
}

/// A response whose status is from 200 to 299 is accepted: the temporary file is
/// created, beside the target, and the contents are read.
pub proof fn law_success_is_accepted(
    file: FileModel,
    status: u16,
    content_length: Option<Seq<char>>,
)
    requires
        200 <= status <= 299,
    ensures
        ({
            let responded = DownloadEventModel::Responded { status, content_length };
            let (stage, step) = after_event(file, DownloadStageModel::Requesting, responded);
            &&& step matches DownloadStepModel::Create { path, size }
            &&& path == file.filepath.push(PathStepModel::Parent).push(
                PathStepModel::Join(temp_name(file.display_name)),
            )
            &&& size == announced_size(content_length)
            &&& after_event(file, stage, DownloadEventModel::Done) == (
                DownloadStageModel::Reading,
                DownloadStepModel::Read,
            )
        }),
{
}

/// The size that is shown is the number that the header writes, and zero without a
/// header or where it writes none.
pub proof fn law_announced_size(n: u64, other: Seq<char>)
    ensures
        announced_size(Some(decimal(n as nat))) == n,
        announced_size(None) == 0,
        number_of(other) is None ==> announced_size(Some(other)) == 0,
        number_of(other) matches Some(size) ==> announced_size(Some(other)) == size,
{
    law_decimal_is_read_back(n as nat);
}

/// The name of a temporary file is a hash in decimal, and `.tmp`; for one display
/// name it is always the same.
pub proof fn law_temp_name(hash: u64, display_name: Seq<char>)
    ensures
        hash_name(hash) == decimal(hash as nat) + ".tmp"@,
        exists|h: u64| temp_name(display_name) == #[trigger] decimal(h as nat) + ".tmp"@,
        temp_name(display_name) == decimal(
            DefaultHasher::spec_finish(hash_writes(display_name)) as nat,
        ) + ".tmp"@,
{
    let h = DefaultHasher::spec_finish(hash_writes(display_name));
    assert(temp_name(display_name) == decimal(h as nat) + ".tmp"@);
}

/// What comes of a download in which nothing fails, up to the end of `chunks`.
pub open spec fn smooth_events(
    status: u16,
    content_length: Option<Seq<char>>,
    chunks: Seq<Seq<u8>>,
) -> Seq<DownloadEventModel>
    decreases chunks.len(),
{
    if chunks.len() == 0 {
        seq![DownloadEventModel::Responded { status, content_length }].push(
            DownloadEventModel::Done,
        )
    } else {
        smooth_events(status, content_length, chunks.drop_last()).push(
            DownloadEventModel::Chunk { bytes: Some(chunks.last()) },
        ).push(DownloadEventModel::Done)
    }
}

/// A download in which nothing fails writes every chunk that comes, in its order,
/// and then asks for more.
pub proof fn law_every_chunk_is_written(
    file: FileModel,
    status: u16,
    content_length: Option<Seq<char>>,
    chunks: Seq<Seq<u8>>,
    chunk: Seq<u8>,
)
    requires
        200 <= status <= 299,
    ensures
        ({
            let events = smooth_events(status, content_length, chunks);
            let more = events.push(DownloadEventModel::Chunk { bytes: Some(chunk) });
            &&& is_course(file, events)
            &&& step_after(file, events) == DownloadStepModel::Read
            &&& stage_after(file, events) == DownloadStageModel::Reading
            &&& written(file, events) == chunks.flatten()
            &&& step_after(file, more) == (DownloadStepModel::Write { bytes: chunk })
        }),
    decreases chunks.len(),
{
    reveal_with_fuel(is_course, 3);
    reveal_with_fuel(stage_after, 3);
    reveal_with_fuel(written, 3);
    let events = smooth_events(status, content_length, chunks);
    let more = events.push(DownloadEventModel::Chunk { bytes: Some(chunk) });
    assert(more.drop_last() =~= events);
    if chunks.len() == 0 {
        let first = seq![DownloadEventModel::Responded { status, content_length }];
        assert(events.drop_last() =~= first);
        assert(first.drop_last() =~= Seq::<DownloadEventModel>::empty());
        assert(chunks =~= Seq::<Seq<u8>>::empty());
        assert(written(file, events) =~= chunks.flatten());
    } else {
        let before = smooth_events(status, content_length, chunks.drop_last());
        let given = before.push(DownloadEventModel::Chunk { bytes: Some(chunks.last()) });
        law_every_chunk_is_written(
            file,
            status,
            content_length,
            chunks.drop_last(),
            chunks.last(),
        );
        assert(events.drop_last() =~= given);
        assert(given.drop_last() =~= before);
        chunks.drop_last().lemma_flatten_push(chunks.last());
        assert(chunks.drop_last().push(chunks.last()) =~= chunks);
    }
}

/// A download in which nothing fails ends well: after the end of the contents the
/// time of change is set, the temporary file becomes the target, and the download
/// is complete.
pub proof fn law_smooth_download_ends_well(
    file: FileModel,
    status: u16,
    content_length: Option<Seq<char>>,
    chunks: Seq<Seq<u8>>,
    at: (i64, u32),
)
    requires
        200 <= status <= 299,
        rfc3339_instant(file.updated_at) == Some(at),
    ensures
        ({
            let ended = smooth_events(status, content_length, chunks).push(
                DownloadEventModel::Chunk { bytes: None },
            );
            let dated = ended.push(DownloadEventModel::Done);
            let renamed = dated.push(DownloadEventModel::Done);
            &&& step_after(file, ended) == (DownloadStepModel::SetModified {
                path: temp_path(file),
                at,
            })
            &&& step_after(file, dated) == (DownloadStepModel::Rename {
                from: temp_path(file),
                to: file.filepath,
            })
            &&& step_after(file, renamed) == DownloadStepModel::Finish
            &&& is_course(file, renamed)
        }),
{
    let events = smooth_events(status, content_length, chunks);
    law_every_chunk_is_written(file, status, content_length, chunks, Seq::empty());
    let ended = events.push(DownloadEventModel::Chunk { bytes: None });
    let dated = ended.push(DownloadEventModel::Done);
    let renamed = dated.push(DownloadEventModel::Done);
    reveal_with_fuel(is_course, 4);
    reveal_with_fuel(stage_after, 4);
    assert(ended.drop_last() =~= events);
    assert(dated.drop_last() =~= ended);
    assert(renamed.drop_last() =~= dated);
}

/// A complete download whose time of change cannot be read fails with the reason,
/// and one whose time cannot be set goes on; one that cannot be renamed fails.
pub proof fn law_ends_of_a_download(file: FileModel, error: Seq<char>, unreadable: Seq<char>)
    ensures
        rfc3339_reading(file.updated_at) == Err::<(i64, u32), _>(unreadable) ==> after_event(
            file,
            DownloadStageModel::Reading,
            DownloadEventModel::Chunk { bytes: None },
        ).1 == (DownloadStepModel::Fail { reason: DownloadErrorModel::Timestamp(unreadable) }),
        after_event(
            file,
            DownloadStageModel::Dating,
            DownloadEventModel::Failed { error },
        ) == after_event(file, DownloadStageModel::Dating, DownloadEventModel::Done),
        after_event(
            file,
            DownloadStageModel::Renaming,
            DownloadEventModel::Failed { error },
        ).1 == (DownloadStepModel::Fail { reason: DownloadErrorModel::Rename(error) }),
{
}

} // verus!
