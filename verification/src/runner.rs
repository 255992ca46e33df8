//! Carrying out the effects of a task, one step at a time.

use vstd::prelude::*;

use crate::canvas::{File, FileModel, Folder, FolderResult, ProcessOptions};
use crate::list;
use crate::path::{FilePath, PathModel};
use crate::plan::{Effect, EffectModel, Report, ReportModel, Task, TaskModel};
use crate::process::{
    are_folder_names, folder_entered, folders_entered, is_folders_outcome,
};
use crate::screening::{
    are_candidates, are_clean_names, candidate_files, candidates, filter_files, timestamp_reports,
    update_reports, wanted, DiskState, Screened,
};

verus! {

/// What is to be done next.
#[derive(Debug, PartialEq, Eq)]
pub enum Step {
    /// Look whether the path exists, and answer with `folder_exists`.
    CheckExists(FilePath),
    /// Create the folder, and answer with `performed`.
    CreateFolder(FilePath),
    /// Create the file, and answer with `performed`.
    CreateFile(FilePath),
    /// Write the text at the end of the file, and answer with `performed`.
    AppendFile(FilePath, String),
    /// Look what is on disk at each of the paths, and answer with `inspected`.
    Inspect(Vec<FilePath>),
    /// Start the task.
    Spawn(Task),
    /// Queue the files for download.
    Queue(Vec<File>),
    /// Tell the user.
    Tell(Report),
    /// The task has failed at the path, for the reason.
    Fail(FilePath, String),
    /// There is nothing left to do.
    Finish,
}

/// A step as a mathematical value.
pub enum StepModel {
    CheckExists(PathModel),
    CreateFolder(PathModel),
    CreateFile(PathModel),
    AppendFile(PathModel, Seq<char>),
    Inspect(Seq<PathModel>),
    Spawn(TaskModel),
    Queue(Seq<FileModel>),
    Tell(ReportModel),
    Fail(PathModel, Seq<char>),
    Finish,
}

impl DeepView for Step {
    type V = StepModel;

    open spec fn deep_view(&self) -> StepModel {
        match self {
            Step::CheckExists(path) => StepModel::CheckExists(path.deep_view()),
            Step::CreateFolder(path) => StepModel::CreateFolder(path.deep_view()),
            Step::CreateFile(path) => StepModel::CreateFile(path.deep_view()),
            Step::AppendFile(path, text) => StepModel::AppendFile(path.deep_view(), text@),
            Step::Inspect(paths) => StepModel::Inspect(paths.deep_view()),
            Step::Spawn(task) => StepModel::Spawn(task.deep_view()),
            Step::Queue(files) => StepModel::Queue(files.deep_view()),
            Step::Tell(report) => StepModel::Tell(report.deep_view()),
            Step::Fail(path, error) => StepModel::Fail(path.deep_view(), error@),
            Step::Finish => StepModel::Finish,
        }
    }
}

/// What a run waits for.
#[derive(Debug, PartialEq, Eq)]
pub enum Stage {
    /// For nothing: the next effect can begin.
    Ready,
    /// To hear whether a folder exists. The tasks, if any, begin in it; a folder
    /// without them cannot be done without.
    Checking { path: FilePath, tasks: Option<Vec<Task>> },
    /// For nothing: the folder is to be created.
    Missing { path: FilePath, tasks: Option<Vec<Task>> },
    /// To hear whether the folder was created.
    Creating { path: FilePath, tasks: Option<Vec<Task>> },
    /// To hear whether a file was written.
    Writing { path: FilePath },
    /// To hear what is on disk in the place of each file.
    Inspecting { files: Vec<File>, reports: Vec<Report> },
    /// For nothing: the task fails.
    Failing { path: FilePath, error: String },
    /// For nothing, ever again.
    Over,
}

/// A stage as a mathematical value.
pub enum StageModel {
    Ready,
    Checking { path: PathModel, tasks: Option<Seq<TaskModel>> },
    Missing { path: PathModel, tasks: Option<Seq<TaskModel>> },
    Creating { path: PathModel, tasks: Option<Seq<TaskModel>> },
    Writing { path: PathModel },
    Inspecting { files: Seq<FileModel>, reports: Seq<ReportModel> },
    Failing { path: PathModel, error: Seq<char> },
    Over,
}

impl DeepView for Stage {
    type V = StageModel;

    open spec fn deep_view(&self) -> StageModel {
        match self {
            Stage::Ready => StageModel::Ready,
            Stage::Checking { path, tasks } => StageModel::Checking {
                path: path.deep_view(),
                tasks: tasks.deep_view(),
            },
            Stage::Missing { path, tasks } => StageModel::Missing {
                path: path.deep_view(),
                tasks: tasks.deep_view(),
            },
            Stage::Creating { path, tasks } => StageModel::Creating {
                path: path.deep_view(),
                tasks: tasks.deep_view(),
            },
            Stage::Writing { path } => StageModel::Writing { path: path.deep_view() },
            Stage::Inspecting { files, reports } => StageModel::Inspecting {
                files: files.deep_view(),
                reports: reports.deep_view(),
            },
            Stage::Failing { path, error } => StageModel::Failing {
                path: path.deep_view(),
                error: error@,
            },
            Stage::Over => StageModel::Over,
        }
    }
}

/// Effects that are being carried out.
#[derive(Debug, PartialEq, Eq)]
pub struct Run {
    pub stage: Stage,
    pub pending: Vec<Effect>,
}

/// A run as a mathematical value.
pub struct RunModel {
    pub stage: StageModel,
    pub pending: Seq<EffectModel>,
}

impl DeepView for Run {
    type V = RunModel;

    open spec fn deep_view(&self) -> RunModel {
        RunModel { stage: self.stage.deep_view(), pending: self.pending.deep_view() }
    }
}

/// Starting each of `tasks`.
pub open spec fn forks(tasks: Seq<TaskModel>) -> Seq<EffectModel> {
    Seq::new(tasks.len(), |i: int| EffectModel::Fork { task: tasks[i] })
}

/// Telling the user each of `reports`.
pub open spec fn tells(reports: Seq<ReportModel>) -> Seq<EffectModel> {
    Seq::new(reports.len(), |i: int| EffectModel::Tell { report: reports[i] })
}

/// The paths of `files`.
pub open spec fn paths_of(files: Seq<FileModel>) -> Seq<PathModel> {
    Seq::new(files.len(), |i: int| files[i].filepath)
}

impl RunModel {
    /// Whether the next step can be asked for: no answer is outstanding.
    pub open spec fn is_idle(self) -> bool {
        self.stage is Ready || self.stage is Missing || self.stage is Failing || self.stage is Over
    }

    /// The run with nothing to wait for and `more` to do before the rest.
    pub open spec fn ready_with(self, more: Seq<EffectModel>) -> RunModel {
        RunModel { stage: StageModel::Ready, pending: more + self.pending }
    }

    /// The run with the first effect begun, which waits in `stage`.
    pub open spec fn begun(self, stage: StageModel) -> RunModel {
        RunModel { stage, pending: self.pending.skip(1) }
    }

    /// The run at its end.
    pub open spec fn over() -> RunModel {
        RunModel { stage: StageModel::Over, pending: Seq::empty() }
    }

    /// Whether `step` comes next, and `next` is the run that then waits for it.
    pub open spec fn leads_to(self, step: StepModel, next: RunModel) -> bool {
        match self.stage {
            StageModel::Missing { path, tasks } => {
                &&& step == StepModel::CreateFolder(path)
                &&& next == (RunModel { stage: StageModel::Creating { path, tasks }, ..self })
            },
            StageModel::Failing { path, error } => {
                &&& step == StepModel::Fail(path, error)
                &&& next == RunModel::over()
            },
            StageModel::Ready => if self.pending.len() == 0 {
                step == StepModel::Finish && next == RunModel::over()
            } else {
                self.begins(self.pending[0], step, next)
            },
            _ => step == StepModel::Finish && next == RunModel::over(),
        }
    }

    /// Whether carrying out `effect`, the first that is pending, begins with
    /// `step` and leads to `next`.
    pub open spec fn begins(self, effect: EffectModel, step: StepModel, next: RunModel) -> bool {
        match effect {
            EffectModel::EnsureFolder { path } => {
                &&& step == StepModel::CheckExists(path)
                &&& next == self.begun(StageModel::Checking { path, tasks: None })
            },
            EffectModel::EnterFolder { path, tasks } => {
                &&& step == StepModel::CheckExists(path)
                &&& next == self.begun(StageModel::Checking { path, tasks: Some(tasks) })
            },
            EffectModel::CreateFile { path } => {
                &&& step == StepModel::CreateFile(path)
                &&& next == self.begun(StageModel::Writing { path })
            },
            EffectModel::AppendFile { path, text } => {
                &&& step == StepModel::AppendFile(path, text)
                &&& next == self.begun(StageModel::Writing { path })
            },
            EffectModel::Fork { task } => {
                &&& step == StepModel::Spawn(task)
                &&& next == self.begun(StageModel::Ready)
            },
            EffectModel::Screen { path, files } => exists|kept: Seq<FileModel>|
                {
                    &&& #[trigger] are_candidates(files, path, kept)
                    &&& step == StepModel::Inspect(paths_of(kept))
                    &&& next == self.begun(
                        StageModel::Inspecting { files: kept, reports: timestamp_reports(files) },
                    )
                },
            EffectModel::Queue { files } => {
                &&& step == StepModel::Queue(files)
                &&& next == self.begun(StageModel::Ready)
            },
            EffectModel::Tell { report } => {
                &&& step == StepModel::Tell(report)
                &&& next == self.begun(StageModel::Ready)
            },
        }
    }

    /// The run after it is heard whether the folder exists.
    pub open spec fn after_check(self, exists: bool) -> RunModel {
        match self.stage {
            StageModel::Checking { path, tasks } => if exists {
                self.ready_with(begun_in_folder(tasks))
            } else {
                RunModel { stage: StageModel::Missing { path, tasks }, ..self }
            },
            _ => self,
        }
    }

    /// The run after it is heard that a folder was created or a file written,
    /// or why not. A folder that tasks were to begin in is given up with them;
    /// everything else that goes wrong is the end of the run.
    pub open spec fn after_attempt(self, failure: Option<Seq<char>>) -> RunModel {
        match (self.stage, failure) {
            (StageModel::Creating { path, tasks }, None) => self.ready_with(
                begun_in_folder(tasks),
            ),
            (StageModel::Creating { path, tasks: Some(_) }, Some(error)) => self.ready_with(
                tells(seq![ReportModel::FolderNotCreated { path, error }]),
            ),
            (StageModel::Creating { path, tasks: None }, Some(error)) => RunModel {
                stage: StageModel::Failing { path, error },
                ..self
            },
            (StageModel::Writing { path }, None) => self.ready_with(Seq::empty()),
            (StageModel::Writing { path }, Some(error)) => RunModel {
                stage: StageModel::Failing { path, error },
                ..self
            },
            _ => self,
        }
    }

    /// The run after it is heard what is on disk in the place of each file.
    pub open spec fn after_inspection(
        self,
        on_disk: Seq<DiskState>,
        download_newer: bool,
    ) -> RunModel {
        match self.stage {
            StageModel::Inspecting { files, reports } => self.ready_with(
                (tells(reports) + tells(update_reports(files, on_disk))).push(
                    EffectModel::Queue { files: wanted(files, on_disk, download_newer) },
                ),
            ),
            _ => self,
        }
    }
}

/// What begins in a folder once it is there.
pub open spec fn begun_in_folder(tasks: Option<Seq<TaskModel>>) -> Seq<EffectModel> {
    match tasks {
        Some(tasks) => forks(tasks),
        None => Seq::empty(),
    }
}

/// Starts each of `tasks`.
fn fork_all(tasks: Vec<Task>) -> (res: Vec<Effect>)
    ensures
        res.deep_view() == forks(tasks.deep_view()),
{
    let ghost all = forks(tasks.deep_view());
    let mut res: Vec<Effect> = list::empty();
    for task in it: tasks
        invariant
            it.seq() == tasks@,
            all == forks(tasks.deep_view()),
            res.deep_view() == all.take(it.index()),
    {
        assert(all.take(it.index() + 1) == all.take(it.index()).push(all[it.index()]));
        assert(task.deep_view() == tasks.deep_view()[it.index()]);
        list::push(&mut res, Effect::Fork { task });
    }
    assert(all.take(all.len() as int) == all);
    res
}

/// Tells the user each of `reports`.
fn tell_all(reports: Vec<Report>) -> (res: Vec<Effect>)
    ensures
        res.deep_view() == tells(reports.deep_view()),
{
    let ghost all = tells(reports.deep_view());
    let mut res: Vec<Effect> = list::empty();
    for report in it: reports
        invariant
            it.seq() == reports@,
            all == tells(reports.deep_view()),
            res.deep_view() == all.take(it.index()),
    {
        assert(all.take(it.index() + 1) == all.take(it.index()).push(all[it.index()]));
        assert(report.deep_view() == reports.deep_view()[it.index()]);
        list::push(&mut res, Effect::Tell { report });
    }
    assert(all.take(all.len() as int) == all);
    res
}

/// The paths of `files`.
fn collect_paths(files: &Vec<File>) -> (res: Vec<FilePath>)
    ensures
        res.deep_view() == paths_of(files.deep_view()),
{
    let ghost all = paths_of(files.deep_view());
    let mut res: Vec<FilePath> = list::empty();
    let mut i: usize = 0;
    while i < files.len()
        invariant
            i <= files.len(),
            all == paths_of(files.deep_view()),
            res.deep_view() == all.take(i as int),
        decreases files.len() - i,
    {
        assert(all.take(i + 1) == all.take(i as int).push(all[i as int]));
        list::push(&mut res, files[i].filepath.clone());
        i += 1;
    }
    assert(all.take(i as int) == all);
    res
}

/// What begins in a folder once it is there.
fn begin_in_folder(tasks: Option<Vec<Task>>) -> (res: Vec<Effect>)
    ensures
        res.deep_view() == begun_in_folder(tasks.deep_view()),
{
    match tasks {
        Some(tasks) => fork_all(tasks),
        None => list::empty(),
    }
}

impl Run {
    /// Begins to carry out `effects`.
    pub fn start(effects: Vec<Effect>) -> (res: Run)
        ensures
            res.deep_view() == (RunModel {
                stage: StageModel::Ready,
                pending: effects.deep_view(),
            }),
    {
        Run { stage: Stage::Ready, pending: effects }
    }

    /// Puts `more` before what is pending, and waits for nothing.
    fn resume(&mut self, more: Vec<Effect>)
        ensures
            final(self).deep_view() == old(self).deep_view().ready_with(more.deep_view()),
    {
        let mut all: Vec<Effect> = more;
        let mut rest: Vec<Effect> = Vec::new();
        std::mem::swap(&mut rest, &mut self.pending);
        list::append(&mut all, rest);
        self.pending = all;
        self.stage = Stage::Ready;
    }

    /// Takes the stage out of the run, which is over until it gets another.
    fn take_stage(&mut self) -> (res: Stage)
        ensures
            res == old(self).stage,
            final(self).stage is Over,
            final(self).pending == old(self).pending,
    {
        let mut stage: Stage = Stage::Over;
        std::mem::swap(&mut stage, &mut self.stage);
        stage
    }

    /// The next step. A step that asks for an answer is to be answered before
    /// the one after it is asked for.
    pub fn next_step(&mut self) -> (res: Step)
        requires
            old(self).deep_view().is_idle(),
        ensures
            old(self).deep_view().leads_to(res.deep_view(), final(self).deep_view()),
    {
        match self.take_stage() {
            Stage::Missing { path, tasks } => {
                let step: Step = Step::CreateFolder(path.clone());
                self.stage = Stage::Creating { path, tasks };
                step
            },
            Stage::Failing { path, error } => {
                self.pending = list::empty();
                Step::Fail(path, error)
            },
            Stage::Ready => {
                if self.pending.len() == 0 {
                    self.pending = list::empty();
                    Step::Finish
                } else {
                    self.begin()
                }
            },
            _ => {
                self.pending = list::empty();
                Step::Finish
            },
        }
    }

    /// Begins the first effect that is pending.
    fn begin(&mut self) -> (res: Step)
        requires
            old(self).pending.len() > 0,
        ensures
            old(self).deep_view().begins(
                old(self).deep_view().pending[0],
                res.deep_view(),
                final(self).deep_view(),
            ),
    {
        let ghost before = self.pending.deep_view();
        let effect: Effect = self.pending.remove(0);
        assert(effect.deep_view() == before[0]);
        assert(self.pending.deep_view() =~= before.skip(1));
        let step: Step = match effect {
            Effect::EnsureFolder { path } => {
                self.stage = Stage::Checking { path: path.clone(), tasks: None };
                Step::CheckExists(path)
            },
            Effect::EnterFolder { path, tasks } => {
                self.stage = Stage::Checking { path: path.clone(), tasks: Some(tasks) };
                Step::CheckExists(path)
            },
            Effect::CreateFile { path } => {
                self.stage = Stage::Writing { path: path.clone() };
                Step::CreateFile(path)
            },
            Effect::AppendFile { path, text } => {
                self.stage = Stage::Writing { path: path.clone() };
                Step::AppendFile(path, text)
            },
            Effect::Fork { task } => {
                self.stage = Stage::Ready;
                Step::Spawn(task)
            },
            Effect::Screen { path, files } => {
                let screened: Screened = candidate_files(&path, files);
                let paths: Vec<FilePath> = collect_paths(&screened.files);
                self.stage = Stage::Inspecting {
                    files: screened.files,
                    reports: screened.reports,
                };
                proof {
                    let kept = screened.files.deep_view();
                    assert(are_candidates(before[0]->Screen_files, before[0]->Screen_path, kept));
                }
                Step::Inspect(paths)
            },
            Effect::Queue { files } => {
                self.stage = Stage::Ready;
                Step::Queue(files)
            },
            Effect::Tell { report } => {
                self.stage = Stage::Ready;
                Step::Tell(report)
            },
        };
        assert(self.deep_view() == old(self).deep_view().begun(self.stage.deep_view()));
        step
    }

    /// Answers whether the folder exists.
    pub fn folder_exists(&mut self, exists: bool)
        requires
            old(self).stage is Checking,
        ensures
            final(self).deep_view() == old(self).deep_view().after_check(exists),
    {
        if let Stage::Checking { path, tasks } = self.take_stage() {
            if exists {
                self.resume(begin_in_folder(tasks));
            } else {
                self.stage = Stage::Missing { path, tasks };
            }
        }
    }

    /// Answers whether the folder was created, or the file written, and if not,
    /// why.
    pub fn performed(&mut self, failure: Option<String>)
        requires
            old(self).stage is Creating || old(self).stage is Writing,
        ensures
            final(self).deep_view() == old(self).deep_view().after_attempt(failure.deep_view()),
    {
        match self.take_stage() {
            Stage::Creating { path, tasks } => match failure {
                None => {
                    self.resume(begin_in_folder(tasks));
                },
                Some(error) => if tasks.is_some() {
                    let mut reports: Vec<Report> = list::empty();
                    list::push(&mut reports, Report::FolderNotCreated { path, error });
                    self.resume(tell_all(reports));
                } else {
                    self.stage = Stage::Failing { path, error };
                },
            },
            Stage::Writing { path } => match failure {
                None => {
                    self.resume(list::empty());
                },
                Some(error) => {
                    self.stage = Stage::Failing { path, error };
                },
            },
            _ => {},
        }
    }

    /// Answers what is on disk in the place of each file.
    pub fn inspected(&mut self, options: &ProcessOptions, on_disk: &Vec<DiskState>)
        requires
            old(self).stage matches Stage::Inspecting { files, reports } && files.len()
                == on_disk.len(),
        ensures
            final(self).deep_view() == old(self).deep_view().after_inspection(
                on_disk@,
                options.download_newer,
            ),
    {
        if let Stage::Inspecting { files, reports } = self.take_stage() {
            let screened: Screened = filter_files(options, files, on_disk);
            let mut more: Vec<Effect> = tell_all(reports);
            list::append(&mut more, tell_all(screened.reports));
            list::push(&mut more, Effect::Queue { files: screened.files });
            self.resume(more);
        }
    }
}

/// The tasks that `effect` starts, if nothing goes wrong.
pub open spec fn tasks_of(effect: EffectModel) -> Seq<TaskModel> {
    match effect {
        EffectModel::Fork { task } => seq![task],
        EffectModel::EnterFolder { path, tasks } => tasks,
        _ => Seq::empty(),
    }
}

/// The tasks that `effects` start, if nothing goes wrong.
pub open spec fn planned(effects: Seq<EffectModel>) -> Seq<TaskModel>
    decreases effects.len(),
{
    if effects.len() == 0 {
        Seq::empty()
    } else {
        tasks_of(effects[0]) + planned(effects.skip(1))
    }
}

/// The task that `step` starts, if it starts one.
pub open spec fn spawned(step: StepModel) -> Seq<TaskModel> {
    match step {
        StepModel::Spawn(task) => seq![task],
        _ => Seq::empty(),
    }
}

impl RunModel {
    /// The tasks that the run waits to begin in a folder.
    pub open spec fn held_tasks(self) -> Seq<TaskModel> {
        match self.stage {
            StageModel::Checking { path, tasks: Some(tasks) } => tasks,
            StageModel::Missing { path, tasks: Some(tasks) } => tasks,
            StageModel::Creating { path, tasks: Some(tasks) } => tasks,
            _ => Seq::empty(),
        }
    }

    /// The tasks that the run still starts, if nothing more goes wrong.
    pub open spec fn tasks_left(self) -> Seq<TaskModel> {
        if self.stage is Failing || self.stage is Over {
            Seq::empty()
        } else {
            self.held_tasks() + planned(self.pending)
        }
    }

    /// A bound on the steps and answers that are left.
    pub open spec fn work_left(self) -> nat {
        let pending = work_of(self.pending);
        match self.stage {
            StageModel::Ready => 1 + pending,
            StageModel::Checking { path, tasks } => 5 + self.held_tasks().len() + pending,
            StageModel::Missing { path, tasks } => 4 + self.held_tasks().len() + pending,
            StageModel::Creating { path, tasks } => 3 + self.held_tasks().len() + pending,
            StageModel::Writing { path } => 2 + pending,
            StageModel::Inspecting { files, reports } => 3 + files.len() + reports.len() + pending,
            StageModel::Failing { path, error } => 1,
            StageModel::Over => 0,
        }
    }
}

/// A bound on the steps and answers that `effects` take.
pub open spec fn work_of(effects: Seq<EffectModel>) -> nat
    decreases effects.len(),
{
    if effects.len() == 0 {
        0
    } else {
        work_of(effects.skip(1)) + match effects[0] {
            EffectModel::EnsureFolder { path } => 5,
            EffectModel::EnterFolder { path, tasks } => 5 + tasks.len(),
            EffectModel::CreateFile { path } => 2,
            EffectModel::AppendFile { path, text } => 2,
            EffectModel::Screen { path, files } => 3 + files.len(),
            _ => 1,
        }
    }
}

/// What effects plan and take adds up.
proof fn lemma_concatenated(a: Seq<EffectModel>, b: Seq<EffectModel>)
    ensures
        planned(a + b) == planned(a) + planned(b),
        work_of(a + b) == work_of(a) + work_of(b),
    decreases a.len(),
{
    if a.len() == 0 {
        assert(a + b == b);
    } else {
        lemma_concatenated(a.skip(1), b);
        assert((a + b).skip(1) == a.skip(1) + b);
        assert(planned(a + b) =~= planned(a) + planned(b));
    }
}

/// Forks plan their tasks.
proof fn lemma_forks(tasks: Seq<TaskModel>)
    ensures
        planned(forks(tasks)) == tasks,
        work_of(forks(tasks)) == tasks.len(),
    decreases tasks.len(),
{
    if tasks.len() > 0 {
        lemma_forks(tasks.skip(1));
        assert(forks(tasks).skip(1) =~= forks(tasks.skip(1)));
        assert(planned(forks(tasks)) =~= tasks);
    }
}

/// Reports plan no tasks.
proof fn lemma_tells(reports: Seq<ReportModel>)
    ensures
        planned(tells(reports)) == Seq::<TaskModel>::empty(),
        work_of(tells(reports)) == reports.len(),
    decreases reports.len(),
{
    if reports.len() > 0 {
        lemma_tells(reports.skip(1));
        assert(tells(reports).skip(1) =~= tells(reports.skip(1)));
        assert(planned(tells(reports)) =~= Seq::<TaskModel>::empty());
    }
}

/// What is put before the rest comes first.
proof fn lemma_ready_with(run: RunModel, more: Seq<EffectModel>)
    ensures
        run.ready_with(more).tasks_left() == planned(more) + planned(run.pending),
        run.ready_with(more).work_left() == 1 + work_of(more) + work_of(run.pending),
{
    lemma_concatenated(more, run.pending);
    assert(run.ready_with(more).tasks_left() =~= planned(more) + planned(run.pending));
}

/// A step starts the first of the tasks that are left, or leaves them as they
/// are: no task is lost, doubled or moved.
pub proof fn law_step_keeps_tasks(run: RunModel, step: StepModel, next: RunModel)
    requires
        run.is_idle(),
        run.leads_to(step, next),
    ensures
        run.tasks_left() == spawned(step) + next.tasks_left(),
{
    assert(run.tasks_left() =~= spawned(step) + next.tasks_left());
}

/// What is heard about a folder, a file or the disk leaves the tasks as they are
/// if nothing went wrong.
pub proof fn law_success_keeps_tasks(
    run: RunModel,
    exists: bool,
    on_disk: Seq<DiskState>,
    download_newer: bool,
)
    ensures
        run.stage is Checking ==> run.after_check(exists).tasks_left() == run.tasks_left(),
        run.stage is Creating || run.stage is Writing ==> run.after_attempt(None).tasks_left()
            == run.tasks_left(),
        run.stage is Inspecting ==> run.after_inspection(on_disk, download_newer).tasks_left()
            == run.tasks_left(),
{
    match run.stage {
        StageModel::Checking { path, tasks } => {
            lemma_ready_with(run, begun_in_folder(tasks));
            lemma_forks(run.held_tasks());
        },
        StageModel::Creating { path, tasks } => {
            lemma_ready_with(run, begun_in_folder(tasks));
            lemma_forks(run.held_tasks());
        },
        StageModel::Writing { path } => {
            lemma_ready_with(run, Seq::empty());
        },
        StageModel::Inspecting { files, reports } => {
            let updates = update_reports(files, on_disk);
            let queue = EffectModel::Queue { files: wanted(files, on_disk, download_newer) };
            let more = (tells(reports) + tells(updates)).push(queue);
            lemma_ready_with(run, more);
            lemma_tells(reports);
            lemma_tells(updates);
            lemma_concatenated(tells(reports), tells(updates));
            lemma_concatenated(tells(reports) + tells(updates), seq![queue]);
            assert(more =~= (tells(reports) + tells(updates)) + seq![queue]);
            reveal_with_fuel(planned, 2);
            assert(planned(more) =~= Seq::<TaskModel>::empty());
            assert(run.after_inspection(on_disk, download_newer).tasks_left()
                =~= run.tasks_left());
        },
        _ => {},
    }
}

/// A folder that cannot be created takes the tasks that were to begin in it with
/// it, and no others. Where it cannot be done without, or a file cannot be
/// written, no task is started any more and the run fails with the reason.
pub proof fn law_failure_drops_tasks(run: RunModel, error: Seq<char>)
    requires
        run.stage is Creating || run.stage is Writing,
    ensures
        match run.stage {
            StageModel::Creating { path, tasks: Some(_) } => run.after_attempt(
                Some(error),
            ).tasks_left() == planned(run.pending),
            StageModel::Creating { path, tasks: None } => {
                &&& run.after_attempt(Some(error)).tasks_left() == Seq::<TaskModel>::empty()
                &&& forall|step: StepModel, next: RunModel|
                    run.after_attempt(Some(error)).leads_to(step, next) ==> step
                        == StepModel::Fail(path, error) && next == RunModel::over()
            },
            StageModel::Writing { path } => {
                &&& run.after_attempt(Some(error)).tasks_left() == Seq::<TaskModel>::empty()
                &&& forall|step: StepModel, next: RunModel|
                    run.after_attempt(Some(error)).leads_to(step, next) ==> step
                        == StepModel::Fail(path, error) && next == RunModel::over()
            },
            _ => true,
        },
{
    if let StageModel::Creating { path, tasks: Some(_) } = run.stage {
        let reports = seq![ReportModel::FolderNotCreated { path, error }];
        lemma_ready_with(run, tells(reports));
        lemma_tells(reports);
        assert(planned(tells(reports)) + planned(run.pending) =~= planned(run.pending));
    }
}

/// There are never more candidates and reports than files.
proof fn lemma_candidates_bound(files: Seq<FileModel>, path: PathModel, kept: Seq<FileModel>)
    requires
        are_candidates(files, path, kept),
    ensures
        kept.len() + timestamp_reports(files).len() <= files.len(),
{
    let names = choose|names: Seq<Seq<char>>| #[trigger]
        are_clean_names(files, names) && kept == candidates(files, path, names);
    lemma_candidates_count(files, path, names);
}

/// Every file is a candidate, is reported on, or is locked.
proof fn lemma_candidates_count(files: Seq<FileModel>, path: PathModel, names: Seq<Seq<char>>)
    ensures
        candidates(files, path, names).len() + timestamp_reports(files).len() <= files.len(),
    decreases files.len(),
{
    if files.len() > 0 {
        lemma_candidates_count(files.drop_last(), path, names);
    }
}

/// There are never more updates than files.
proof fn lemma_updates_bound(files: Seq<FileModel>, on_disk: Seq<DiskState>)
    ensures
        update_reports(files, on_disk).len() <= files.len(),
    decreases files.len(),
{
    if files.len() > 0 {
        lemma_updates_bound(files.drop_last(), on_disk);
    }
}

/// Every step brings a run closer to its end, which comes with `Finish` or with
/// `Fail`.
pub proof fn law_step_makes_progress(run: RunModel, step: StepModel, next: RunModel)
    requires
        run.is_idle(),
        run.stage !is Over,
        run.leads_to(step, next),
    ensures
        next.work_left() < run.work_left(),
        next.stage is Over <==> step is Finish || step is Fail,
{
    if run.stage is Ready && run.pending.len() > 0 {
        if let EffectModel::Screen { path, files } = run.pending[0] {
            let kept = choose|kept: Seq<FileModel>|
                {
                    &&& #[trigger] are_candidates(files, path, kept)
                    &&& step == StepModel::Inspect(paths_of(kept))
                    &&& next == run.begun(
                        StageModel::Inspecting { files: kept, reports: timestamp_reports(files) },
                    )
                };
            lemma_candidates_bound(files, path, kept);
        }
    }
}

/// Every answer brings a run closer to its end.
pub proof fn law_answer_makes_progress(
    run: RunModel,
    exists: bool,
    failure: Option<Seq<char>>,
    on_disk: Seq<DiskState>,
    download_newer: bool,
)
    ensures
        run.stage is Checking ==> run.after_check(exists).work_left() < run.work_left(),
        run.stage is Creating || run.stage is Writing ==> run.after_attempt(failure).work_left()
            < run.work_left(),
        run.stage is Inspecting ==> run.after_inspection(on_disk, download_newer).work_left()
            < run.work_left(),
{
    match run.stage {
        StageModel::Checking { path, tasks } => {
            lemma_ready_with(run, begun_in_folder(tasks));
            lemma_forks(run.held_tasks());
        },
        StageModel::Creating { path, tasks } => {
            lemma_ready_with(run, begun_in_folder(tasks));
            lemma_forks(run.held_tasks());
            if let Some(error) = failure {
                let reports = seq![ReportModel::FolderNotCreated { path, error }];
                lemma_ready_with(run, tells(reports));
                lemma_tells(reports);
            }
        },
        StageModel::Writing { path } => {
            lemma_ready_with(run, Seq::empty());
        },
        StageModel::Inspecting { files, reports } => {
            let updates = update_reports(files, on_disk);
            let queue = EffectModel::Queue { files: wanted(files, on_disk, download_newer) };
            let more = (tells(reports) + tells(updates)).push(queue);
            lemma_ready_with(run, more);
            lemma_tells(reports);
            lemma_tells(updates);
            lemma_updates_bound(files, on_disk);
            lemma_concatenated(tells(reports), tells(updates));
            lemma_concatenated(tells(reports) + tells(updates), seq![queue]);
            assert(more =~= (tells(reports) + tells(updates)) + seq![queue]);
            reveal_with_fuel(work_of, 2);
        },
        _ => {},
    }
}

/// One move of a run: a step that was asked for, or an answer.
pub enum Move {
    Next(StepModel),
    Exists(bool),
    Performed(Option<Seq<char>>),
    Inspected(Seq<DiskState>, bool),
}

/// Whether `action` leads from `run` to `next`.
pub open spec fn can_move(run: RunModel, action: Move, next: RunModel) -> bool {
    match action {
        Move::Next(step) => run.is_idle() && run.stage !is Over && run.leads_to(step, next),
        Move::Exists(exists) => run.stage is Checking && next == run.after_check(exists),
        Move::Performed(failure) => {
            &&& run.stage is Creating || run.stage is Writing
            &&& next == run.after_attempt(failure)
        },
        Move::Inspected(on_disk, download_newer) => {
            &&& run.stage is Inspecting
            &&& next == run.after_inspection(on_disk, download_newer)
        },
    }
}

/// Whether `moves` lead through `runs`, from the first to the last.
pub open spec fn is_trace(runs: Seq<RunModel>, moves: Seq<Move>) -> bool
    decreases moves.len(),
{
    &&& runs.len() == moves.len() + 1
    &&& moves.len() > 0 ==> {
        &&& is_trace(runs.drop_last(), moves.drop_last())
        &&& can_move(runs[runs.len() - 2], moves.last(), runs.last())
    }
}

/// How many tasks `moves` start.
pub open spec fn started(moves: Seq<Move>) -> nat
    decreases moves.len(),
{
    if moves.len() == 0 {
        0
    } else {
        started(moves.drop_last()) + match moves.last() {
            Move::Next(step) => spawned(step).len(),
            _ => 0,
        }
    }
}

/// Whether `action` tells `run` that a folder in which tasks were to begin cannot
/// be created.
pub open spec fn gives_up_folder(run: RunModel, action: Move) -> bool {
    &&& run.stage matches StageModel::Creating { path, tasks: Some(_) }
    &&& action matches Move::Performed(Some(_))
}

/// How many folders in which tasks were to begin could not be had.
pub open spec fn folders_given_up(runs: Seq<RunModel>, moves: Seq<Move>) -> nat
    decreases moves.len(),
{
    if moves.len() == 0 {
        0
    } else {
        folders_given_up(runs.drop_last(), moves.drop_last()) + if gives_up_folder(
            runs[moves.len() - 1],
            moves.last(),
        ) {
            1nat
        } else {
            0
        }
    }
}

/// Whether `effect` enters a folder with two tasks, starts a task or tells.
spec fn is_folder_effect(effect: EffectModel) -> bool {
    match effect {
        EffectModel::EnterFolder { path, tasks } => tasks.len() == 2,
        EffectModel::Fork { task } => true,
        EffectModel::Tell { report } => true,
        _ => false,
    }
}

/// Whether `run` does nothing but enter folders with two tasks each.
spec fn is_folder_run(run: RunModel) -> bool {
    &&& forall|i: int| 0 <= i < run.pending.len() ==> is_folder_effect(#[trigger] run.pending[i])
    &&& match run.stage {
        StageModel::Ready => true,
        StageModel::Checking { path, tasks: Some(tasks) } => tasks.len() == 2,
        StageModel::Missing { path, tasks: Some(tasks) } => tasks.len() == 2,
        StageModel::Creating { path, tasks: Some(tasks) } => tasks.len() == 2,
        StageModel::Over => true,
        _ => false,
    }
}

/// A run that enters folders goes on doing so, and every move either starts a
/// task, gives up two with a folder, or leaves the tasks as they are.
proof fn lemma_folder_move(run: RunModel, action: Move, next: RunModel)
    requires
        is_folder_run(run),
        can_move(run, action, next),
    ensures
        is_folder_run(next),
        run.tasks_left().len() == next.tasks_left().len() + match action {
            Move::Next(step) => spawned(step).len(),
            _ => 0,
        } + if gives_up_folder(run, action) {
            2nat
        } else {
            0
        },
{
    match action {
        Move::Next(step) => {
            law_step_keeps_tasks(run, step, next);
            if run.stage is Ready && run.pending.len() > 0 {
                assert(is_folder_effect(run.pending[0]));
                assert forall|i: int| 0 <= i < next.pending.len() implies is_folder_effect(
                    #[trigger] next.pending[i],
                ) by {
                    assert(next.pending[i] == run.pending[i + 1]);
                }
            }
        },
        Move::Exists(exists) => {
            law_success_keeps_tasks(run, exists, Seq::empty(), false);
        },
        Move::Performed(failure) => {
            law_success_keeps_tasks(run, true, Seq::empty(), false);
            if let Some(error) = failure {
                law_failure_drops_tasks(run, error);
            }
        },
        _ => {},
    }
}

/// What holds along a trace of a run that enters folders.
proof fn lemma_folder_trace(runs: Seq<RunModel>, moves: Seq<Move>)
    requires
        is_trace(runs, moves),
        is_folder_run(runs[0]),
    ensures
        is_folder_run(runs.last()),
        runs[0].tasks_left().len() == runs.last().tasks_left().len() + started(moves) + 2
            * folders_given_up(runs, moves),
    decreases moves.len(),
{
    if moves.len() > 0 {
        let before = runs.drop_last();
        assert(before[0] == runs[0]);
        assert(before.last() == runs[runs.len() - 2]);
        lemma_folder_trace(before, moves.drop_last());
        lemma_folder_move(runs[runs.len() - 2], moves.last(), runs.last());
    }
}

/// Entering folders with two tasks each plans twice as many tasks as folders.
proof fn lemma_folders_plan(effects: Seq<EffectModel>)
    requires
        forall|i: int|
            0 <= i < effects.len() ==> (#[trigger] effects[i] matches EffectModel::EnterFolder {
                path,
                tasks,
            } && tasks.len() == 2),
    ensures
        planned(effects).len() == 2 * effects.len(),
    decreases effects.len(),
{
    if effects.len() > 0 {
        let rest = effects.skip(1);
        assert forall|i: int| 0 <= i < rest.len() implies (#[trigger] rest[i] matches
            EffectModel::EnterFolder { path, tasks } && tasks.len() == 2) by {
            assert(rest[i] == effects[i + 1]);
        }
        lemma_folders_plan(rest);
        assert(effects[0] is EnterFolder);
    }
}

/// A page of folders starts two tasks for each folder that exists or could be
/// created, and none for the others. As each is counted when it is started, the
/// count of active tasks is raised by twice the number of those folders before
/// the task that goes through the page ends.
pub proof fn law_folders_start_two_tasks_each(
    uri: Seq<char>,
    path: PathModel,
    folders: Vec<Folder>,
    effects: Seq<EffectModel>,
    runs: Seq<RunModel>,
    moves: Seq<Move>,
)
    requires
        is_folders_outcome(uri, path, Ok(FolderResult::Listed(folders)), effects),
        is_trace(runs, moves),
        runs[0] == (RunModel { stage: StageModel::Ready, pending: effects }),
        runs.last().stage is Over,
    ensures
        folders_given_up(runs, moves) <= folders@.len(),
        started(moves) == 2 * (folders@.len() - folders_given_up(runs, moves)),
        moves.last() == Move::Next(StepModel::Finish),
{
    let names = choose|names: Seq<Seq<char>>| #[trigger]
        are_folder_names(folders@, names) && effects == folders_entered(folders@, path, names);
    assert forall|i: int| 0 <= i < effects.len() implies (#[trigger] effects[i] matches
        EffectModel::EnterFolder { path, tasks } && tasks.len() == 2) by {
        assert(effects[i] == folder_entered(folders@[i], path, names[i]));
    }
    lemma_folders_plan(effects);
    assert(runs[0].tasks_left() =~= planned(effects));
    lemma_folder_trace(runs, moves);
    let before = runs.drop_last();
    assert(before[0] == runs[0]);
    lemma_folder_trace(before, moves.drop_last());
    assert(before.last() == runs[runs.len() - 2]);
    law_end_is_a_step(runs[runs.len() - 2], moves.last(), runs.last());
}

/// A run that was not over is over only after a step, which is `Finish` or `Fail`.
pub proof fn law_end_is_a_step(run: RunModel, action: Move, next: RunModel)
    requires
        can_move(run, action, next),
        next.stage is Over,
    ensures
        action == Move::Next(StepModel::Finish) || (action matches Move::Next(step)
            && step is Fail && run.stage is Failing),
{
    if let Move::Next(step) = action {
        law_step_makes_progress(run, step, next);
    }
}

/// The first effect that is pending is what the next step carries out, with all that
/// it has; the others stay as they are.
pub proof fn law_first_effect_is_carried_out(run: RunModel, step: StepModel, next: RunModel)
    requires
        run.stage == StageModel::Ready,
        run.pending.len() > 0,
        run.leads_to(step, next),
    ensures
        next.pending == run.pending.skip(1),
        match run.pending[0] {
            EffectModel::EnsureFolder { path } => step == StepModel::CheckExists(path),
            EffectModel::EnterFolder { path, tasks } => step == StepModel::CheckExists(path),
            EffectModel::CreateFile { path } => step == StepModel::CreateFile(path),
            EffectModel::AppendFile { path, text } => step == StepModel::AppendFile(path, text),
            EffectModel::Fork { task } => step == StepModel::Spawn(task) && next.stage
                == StageModel::Ready,
            EffectModel::Queue { files } => step == StepModel::Queue(files) && next.stage
                == StageModel::Ready,
            EffectModel::Tell { report } => step == StepModel::Tell(report) && next.stage
                == StageModel::Ready,
            EffectModel::Screen { path, files } => {
                &&& step matches StepModel::Inspect(paths)
                &&& next.stage matches StageModel::Inspecting { files: kept, reports }
                &&& are_candidates(files, path, kept)
                &&& reports == timestamp_reports(files)
                &&& paths.len() == kept.len()
                &&& forall|i: int| 0 <= i < kept.len() ==> #[trigger] paths[i] == kept[i].filepath
            },
        },
{
    if let EffectModel::Screen { path, files } = run.pending[0] {
        let kept = choose|kept: Seq<FileModel>|
            {
                &&& #[trigger] are_candidates(files, path, kept)
                &&& step == StepModel::Inspect(paths_of(kept))
                &&& next == run.begun(
                    StageModel::Inspecting { files: kept, reports: timestamp_reports(files) },
                )
            };
        assert(next.stage->Inspecting_files == kept);
    }
}

/// A run is at its end exactly when nothing is pending.
pub proof fn law_end_comes_last(run: RunModel, step: StepModel, next: RunModel)
    requires
        run.stage == StageModel::Ready,
        run.leads_to(step, next),
    ensures
        step == StepModel::Finish <==> run.pending.len() == 0,
{
}

/// A folder that is needed is created only where it does not exist. If it is there,
/// or could be created, the run goes on with what is pending; if it could not be,
/// the run ends in the failure.
pub proof fn law_needed_folder(
    path: PathModel,
    pending: Seq<EffectModel>,
    error: Seq<char>,
    step: StepModel,
    next: RunModel,
)
    ensures
        ({
            let checking = RunModel { stage: StageModel::Checking { path, tasks: None }, pending };
            let creating = RunModel { stage: StageModel::Creating { path, tasks: None }, pending };
            let ready = RunModel { stage: StageModel::Ready, pending };
            let missing = checking.after_check(false);
            &&& checking.after_check(true) == ready
            &&& missing.leads_to(step, next) ==> step == StepModel::CreateFolder(path) && next
                == creating
            &&& creating.after_attempt(None) == ready
            &&& creating.after_attempt(Some(error)).leads_to(step, next) ==> step
                == StepModel::Fail(path, error)
        }),
{
    assert(Seq::<EffectModel>::empty() + pending =~= pending);
}

/// The tasks of a folder start in it, in their order and before anything else, if it
/// is there or could be created; if it could not be, that is told, and the run goes
/// on without them.
pub proof fn law_entered_folder(
    path: PathModel,
    tasks: Seq<TaskModel>,
    pending: Seq<EffectModel>,
    error: Seq<char>,
    step: StepModel,
    next: RunModel,
    i: int,
)
    requires
        0 <= i < tasks.len(),
    ensures
        ({
            let tasks_held = Some(tasks);
            let checking = RunModel {
                stage: StageModel::Checking { path, tasks: tasks_held },
                pending,
            };
            let creating = RunModel {
                stage: StageModel::Creating { path, tasks: tasks_held },
                pending,
            };
            let entered = checking.after_check(true);
            let refused = creating.after_attempt(Some(error));
            &&& entered.stage == StageModel::Ready
            &&& entered.pending.len() == tasks.len() + pending.len()
            &&& entered.pending[i] == (EffectModel::Fork { task: tasks[i] })
            &&& entered.pending.skip(tasks.len() as int) == pending
            &&& creating.after_attempt(None) == entered
            &&& checking.after_check(false).leads_to(step, next) ==> step
                == StepModel::CreateFolder(path) && next == creating
            &&& refused.stage == StageModel::Ready
            &&& refused.pending.len() == 1 + pending.len()
            &&& refused.pending[0] == (EffectModel::Tell {
                report: ReportModel::FolderNotCreated { path, error },
            })
            &&& refused.pending.skip(1) == pending
        }),
{
    let checking = RunModel {
        stage: StageModel::Checking { path, tasks: Some(tasks) },
        pending,
    };
    let creating = RunModel {
        stage: StageModel::Creating { path, tasks: Some(tasks) },
        pending,
    };
    assert(checking.after_check(true).pending.skip(tasks.len() as int) =~= pending);
    assert(creating.after_attempt(Some(error)).pending.skip(1) =~= pending);
}

/// A file that was written lets the run go on; one that could not be ends it in the
/// failure.
pub proof fn law_written_file(
    path: PathModel,
    pending: Seq<EffectModel>,
    error: Seq<char>,
    step: StepModel,
    next: RunModel,
)
    ensures
        ({
            let writing = RunModel { stage: StageModel::Writing { path }, pending };
            &&& writing.after_attempt(None) == (RunModel { stage: StageModel::Ready, pending })
            &&& writing.after_attempt(Some(error)).leads_to(step, next) ==> step
                == StepModel::Fail(path, error)
        }),
{
    assert(Seq::<EffectModel>::empty() + pending =~= pending);
}

/// After the disk was looked at, every report on the files is told, then every update,
/// and then the wanted files are queued, before anything else.
pub proof fn law_inspected_files_are_queued(
    files: Seq<FileModel>,
    reports: Seq<ReportModel>,
    pending: Seq<EffectModel>,
    on_disk: Seq<DiskState>,
    download_newer: bool,
    i: int,
)
    ensures
        ({
            let run = RunModel { stage: StageModel::Inspecting { files, reports }, pending };
            let next = run.after_inspection(on_disk, download_newer);
            let updates = update_reports(files, on_disk);
            let told = reports.len() + updates.len();
            &&& next.stage == StageModel::Ready
            &&& next.pending.len() == told + 1 + pending.len()
            &&& 0 <= i < reports.len() ==> next.pending[i] == (EffectModel::Tell {
                report: reports[i],
            })
            &&& 0 <= i < updates.len() ==> next.pending[reports.len() as int + i] == (EffectModel::Tell {
                report: updates[i],
            })
            &&& next.pending[told as int] == (EffectModel::Queue {
                files: wanted(files, on_disk, download_newer),
            })
            &&& next.pending.skip((told + 1) as int) == pending
        }),
{
    let run = RunModel { stage: StageModel::Inspecting { files, reports }, pending };
    let next = run.after_inspection(on_disk, download_newer);
    let told = reports.len() + update_reports(files, on_disk).len();
    assert(next.pending.skip((told + 1) as int) =~= pending);
}

} // verus!
