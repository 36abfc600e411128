//! Writing a file beside its place and moving it there when it is complete.

use crate::error::{failure, ErrorView, TickError};
use crate::path::{parent, parent_of};
use crate::text::{concat2, concat3, texts};
use vstd::prelude::*;

verus! {

/// Where the content of a file comes from.
#[derive(Debug)]
pub enum StagedSource {
    /// From the server. `present` tells that a good copy is in place, which then stays there
    /// until the new one is complete.
    Fetch { key: String, present: bool },
    /// From these files, one after the other.
    Files(Vec<String>),
}

/// A file that is written at `temp_path` and moved to `local_path` when it is complete.
#[derive(Debug)]
pub struct StagedFile {
    pub local_path: String,
    pub temp_path: String,
    pub source: StagedSource,
}

/// What is done next.
#[derive(Debug, Clone, Copy, PartialEq, Eq, Structural)]
pub enum Stage {
    CreateLocalDir,
    CreateTempDir,
    ProbeTemp,
    RemoveTemp,
    Request,
    ProbeLocal,
    RemoveLocal,
    CreateTemp,
    /// Write the content, or that of the input with this number.
    Fill(usize),
    Flush,
    Sync,
    ProbeTarget,
    RemoveTarget,
    Move,
    Done,
}

/// What came of it.
#[derive(Debug)]
pub enum StageReport {
    /// It was done. At a probe: nothing is there.
    Done,
    /// Something is there.
    Found,
    /// The content could not be read.
    ReadFault,
    /// Anything else failed.
    Fault,
    /// It failed with an error of its own.
    Refused(TickError),
}

/// What is to be done on the outside.
#[derive(Debug, PartialEq, Eq)]
pub enum StageAction {
    Nothing,
    CreateDir(String),
    Probe(String),
    Remove(String),
    Request(String),
    CreateFile(String),
    Stream,
    Append(String),
    Flush,
    Sync,
    Rename { from: String, to: String },
}

/// What is to be done on the outside.
pub enum ActionView {
    Nothing,
    CreateDir(Seq<char>),
    Probe(Seq<char>),
    Remove(Seq<char>),
    Request(Seq<char>),
    CreateFile(Seq<char>),
    Stream,
    Append(Seq<char>),
    Flush,
    Sync,
    Rename { from: Seq<char>, to: Seq<char> },
}

impl View for StageAction {
    type V = ActionView;

    open spec fn view(&self) -> ActionView {
        match *self {
            StageAction::Nothing => ActionView::Nothing,
            StageAction::CreateDir(path) => ActionView::CreateDir(path@),
            StageAction::Probe(path) => ActionView::Probe(path@),
            StageAction::Remove(path) => ActionView::Remove(path@),
            StageAction::Request(key) => ActionView::Request(key@),
            StageAction::CreateFile(path) => ActionView::CreateFile(path@),
            StageAction::Stream => ActionView::Stream,
            StageAction::Append(path) => ActionView::Append(path@),
            StageAction::Flush => ActionView::Flush,
            StageAction::Sync => ActionView::Sync,
            StageAction::Rename { from, to } => ActionView::Rename { from: from@, to: to@ },
        }
    }
}

impl StagedFile {
    /// Whether a stage belongs to the file: an input has a number below that of the inputs, and
    /// only what is fetched is asked for.
    pub open spec fn has_stage(self, stage: Stage) -> bool {
        match (self.source, stage) {
            (StagedSource::Fetch { key, present }, Stage::Fill(i)) => i == 0,
            (StagedSource::Files(inputs), Stage::Fill(i)) => i < inputs@.len(),
            (StagedSource::Files(inputs), Stage::Request) => false,
            (StagedSource::Files(inputs), Stage::ProbeLocal) => false,
            (StagedSource::Files(inputs), Stage::RemoveLocal) => false,
            _ => true,
        }
    }

    /// What is to be done at a stage.
    pub open spec fn action_at(self, stage: Stage) -> ActionView {
        match stage {
            Stage::CreateLocalDir => match parent(self.local_path@) {
                Some(path) => ActionView::CreateDir(path),
                None => ActionView::Nothing,
            },
            Stage::CreateTempDir => match parent(self.temp_path@) {
                Some(path) => ActionView::CreateDir(path),
                None => ActionView::Nothing,
            },
            Stage::ProbeTemp => ActionView::Probe(self.temp_path@),
            Stage::RemoveTemp => ActionView::Remove(self.temp_path@),
            Stage::Request => match self.source {
                StagedSource::Fetch { key, present } => ActionView::Request(key@),
                StagedSource::Files(inputs) => ActionView::Nothing,
            },
            Stage::ProbeLocal => ActionView::Probe(self.local_path@),
            Stage::RemoveLocal => ActionView::Remove(self.local_path@),
            Stage::CreateTemp => ActionView::CreateFile(self.temp_path@),
            Stage::Fill(i) => match self.source {
                StagedSource::Fetch { key, present } => ActionView::Stream,
                StagedSource::Files(inputs) => ActionView::Append(inputs@[i as int]@),
            },
            Stage::Flush => ActionView::Flush,
            Stage::Sync => ActionView::Sync,
            Stage::ProbeTarget => ActionView::Probe(self.local_path@),
            Stage::RemoveTarget => ActionView::Remove(self.local_path@),
            Stage::Move => ActionView::Rename { from: self.temp_path@, to: self.local_path@ },
            Stage::Done => ActionView::Nothing,
        }
    }

    /// The stage that follows once a left-over file is out of the way.
    pub open spec fn after_clearing(self) -> Stage {
        match self.source {
            StagedSource::Fetch { key, present } => Stage::Request,
            StagedSource::Files(inputs) => Stage::CreateTemp,
        }
    }

    /// The stage that follows a stage that was done. `found` tells what a probe found.
    pub open spec fn following(self, stage: Stage, found: bool) -> Stage {
        match stage {
            Stage::CreateLocalDir => Stage::CreateTempDir,
            Stage::CreateTempDir => Stage::ProbeTemp,
            Stage::ProbeTemp => if found {
                Stage::RemoveTemp
            } else {
                self.after_clearing()
            },
            Stage::RemoveTemp => self.after_clearing(),
            Stage::Request => Stage::ProbeLocal,
            Stage::ProbeLocal => if found && !(self.source matches StagedSource::Fetch {
                present: true,
                ..
            }) {
                Stage::RemoveLocal
            } else {
                Stage::CreateTemp
            },
            Stage::RemoveLocal => Stage::CreateTemp,
            Stage::CreateTemp => match self.source {
                StagedSource::Files(inputs) => if inputs@.len() == 0 {
                    Stage::Flush
                } else {
                    Stage::Fill(0)
                },
                _ => Stage::Fill(0),
            },
            Stage::Fill(i) => match self.source {
                StagedSource::Files(inputs) => if i + 1 < inputs@.len() {
                    Stage::Fill((i + 1) as usize)
                } else {
                    Stage::Flush
                },
                _ => Stage::Flush,
            },
            Stage::Flush => Stage::Sync,
            Stage::Sync => Stage::ProbeTarget,
            Stage::ProbeTarget => if found {
                Stage::RemoveTarget
            } else {
                Stage::Move
            },
            Stage::RemoveTarget => Stage::Move,
            Stage::Move => Stage::Done,
            Stage::Done => Stage::Done,
        }
    }

    /// What is said of a stage that failed.
    pub open spec fn complaint(self, stage: Stage, reading: bool) -> Seq<char> {
        match stage {
            Stage::CreateLocalDir => match parent(self.local_path@) {
                Some(path) => "failed to create "@ + path,
                None => "failed to create "@ + self.local_path@,
            },
            Stage::CreateTempDir => match parent(self.temp_path@) {
                Some(path) => "failed to create "@ + path,
                None => "failed to create "@ + self.temp_path@,
            },
            Stage::ProbeTemp | Stage::RemoveTemp => "failed to remove "@ + self.temp_path@,
            Stage::Request => match self.source {
                StagedSource::Fetch { key, present } => "snapshot download request failed for "@
                    + key@,
                StagedSource::Files(inputs) => "snapshot download request failed for "@
                    + self.local_path@,
            },
            Stage::ProbeLocal | Stage::RemoveLocal => "failed to remove "@ + self.local_path@,
            Stage::CreateTemp => "failed to create "@ + self.temp_path@,
            Stage::Fill(i) => match self.source {
                StagedSource::Fetch { key, present } => if reading {
                    "failed to stream "@ + key@
                } else {
                    "failed to write "@ + self.temp_path@
                },
                StagedSource::Files(inputs) => if reading {
                    "failed to open "@ + inputs@[i as int]@
                } else {
                    "failed to append "@ + inputs@[i as int]@
                },
            },
            Stage::Flush => "failed to flush "@ + self.temp_path@,
            Stage::Sync => "failed to sync "@ + self.temp_path@,
            Stage::ProbeTarget | Stage::RemoveTarget => "failed to replace "@ + self.local_path@,
            Stage::Move | Stage::Done => "failed to move "@ + self.local_path@ + " into place"@,
        }
    }

    /// Whether a stage only looks whether something is there.
    pub open spec fn probes(stage: Stage) -> bool {
        stage == Stage::ProbeTemp || stage == Stage::ProbeLocal || stage == Stage::ProbeTarget
    }

    /// The stage after a report, or the error. A probe that fails found nothing.
    pub open spec fn stage_after(self, stage: Stage, report: StageReport) -> Result<
        Stage,
        ErrorView,
    > {
        if StagedFile::probes(stage) {
            Ok(self.following(stage, report is Found))
        } else {
            match report {
                StageReport::Done | StageReport::Found => Ok(self.following(stage, false)),
                StageReport::ReadFault => Err(ErrorView::Other(self.complaint(stage, true))),
                StageReport::Fault => Err(ErrorView::Other(self.complaint(stage, false))),
                StageReport::Refused(error) => Err(error@),
            }
        }
    }

    /// What is to be done at a stage.
    pub fn action(&self, stage: Stage) -> (out: StageAction)
        requires
            self.has_stage(stage),
        ensures
            out@ == self.action_at(stage),
    {
        match stage {
            Stage::CreateLocalDir => match parent_of(self.local_path.as_str()) {
                Some(path) => StageAction::CreateDir(path),
                None => StageAction::Nothing,
            },
            Stage::CreateTempDir => match parent_of(self.temp_path.as_str()) {
                Some(path) => StageAction::CreateDir(path),
                None => StageAction::Nothing,
            },
            Stage::ProbeTemp => StageAction::Probe(self.temp_path.clone()),
            Stage::RemoveTemp => StageAction::Remove(self.temp_path.clone()),
            Stage::Request => match &self.source {
                StagedSource::Fetch { key, .. } => StageAction::Request(key.clone()),
                StagedSource::Files(_) => StageAction::Nothing,
            },
            Stage::ProbeLocal => StageAction::Probe(self.local_path.clone()),
            Stage::RemoveLocal => StageAction::Remove(self.local_path.clone()),
            Stage::CreateTemp => StageAction::CreateFile(self.temp_path.clone()),
            Stage::Fill(i) => match &self.source {
                StagedSource::Fetch { .. } => StageAction::Stream,
                StagedSource::Files(inputs) => StageAction::Append(inputs[i].clone()),
            },
            Stage::Flush => StageAction::Flush,
            Stage::Sync => StageAction::Sync,
            Stage::ProbeTarget => StageAction::Probe(self.local_path.clone()),
            Stage::RemoveTarget => StageAction::Remove(self.local_path.clone()),
            Stage::Move => StageAction::Rename {
                from: self.temp_path.clone(),
                to: self.local_path.clone(),
            },
            Stage::Done => StageAction::Nothing,
        }
    }

    fn next_after_clearing(&self) -> (out: Stage)
        ensures
            out == self.after_clearing(),
    {
        match &self.source {
            StagedSource::Fetch { .. } => Stage::Request,
            StagedSource::Files(_) => Stage::CreateTemp,
        }
    }

    fn next(&self, stage: Stage, found: bool) -> (out: Stage)
        requires
            self.has_stage(stage),
        ensures
            out == self.following(stage, found),
    {
        match stage {
            Stage::CreateLocalDir => Stage::CreateTempDir,
            Stage::CreateTempDir => Stage::ProbeTemp,
            Stage::ProbeTemp => if found {
                Stage::RemoveTemp
            } else {
                self.next_after_clearing()
            },
            Stage::RemoveTemp => self.next_after_clearing(),
            Stage::Request => Stage::ProbeLocal,
            Stage::ProbeLocal => {
                let keep = match &self.source {
                    StagedSource::Fetch { present, .. } => *present,
                    StagedSource::Files(_) => false,
                };
                if found && !keep {
                    Stage::RemoveLocal
                } else {
                    Stage::CreateTemp
                }
            },
            Stage::RemoveLocal => Stage::CreateTemp,
            Stage::CreateTemp => match &self.source {
                StagedSource::Files(inputs) => if inputs.len() == 0 {
                    Stage::Flush
                } else {
                    Stage::Fill(0)
                },
                StagedSource::Fetch { .. } => Stage::Fill(0),
            },
            Stage::Fill(i) => match &self.source {
                StagedSource::Files(inputs) => if i < inputs.len() - 1 {
                    Stage::Fill(i + 1)
                } else {
                    Stage::Flush
                },
                StagedSource::Fetch { .. } => Stage::Flush,
            },
            Stage::Flush => Stage::Sync,
            Stage::Sync => Stage::ProbeTarget,
            Stage::ProbeTarget => if found {
                Stage::RemoveTarget
            } else {
                Stage::Move
            },
            Stage::RemoveTarget => Stage::Move,
            Stage::Move => Stage::Done,
            Stage::Done => Stage::Done,
        }
    }

    fn complain(&self, stage: Stage, reading: bool) -> (out: String)
        requires
            self.has_stage(stage),
        ensures
            out@ == self.complaint(stage, reading),
    {
        match stage {
            Stage::CreateLocalDir => match parent_of(self.local_path.as_str()) {
                Some(path) => concat2("failed to create ", path.as_str()),
                None => concat2("failed to create ", self.local_path.as_str()),
            },
            Stage::CreateTempDir => match parent_of(self.temp_path.as_str()) {
                Some(path) => concat2("failed to create ", path.as_str()),
                None => concat2("failed to create ", self.temp_path.as_str()),
            },
            Stage::ProbeTemp | Stage::RemoveTemp => concat2(
                "failed to remove ",
                self.temp_path.as_str(),
            ),
            Stage::Request => match &self.source {
                StagedSource::Fetch { key, .. } => concat2(
                    "snapshot download request failed for ",
                    key.as_str(),
                ),
                StagedSource::Files(_) => concat2(
                    "snapshot download request failed for ",
                    self.local_path.as_str(),
                ),
            },
            Stage::ProbeLocal | Stage::RemoveLocal => concat2(
                "failed to remove ",
                self.local_path.as_str(),
            ),
            Stage::CreateTemp => concat2("failed to create ", self.temp_path.as_str()),
            Stage::Fill(i) => match &self.source {
                StagedSource::Fetch { key, .. } => if reading {
                    concat2("failed to stream ", key.as_str())
                } else {
                    concat2("failed to write ", self.temp_path.as_str())
                },
                StagedSource::Files(inputs) => if reading {
                    concat2("failed to open ", inputs[i].as_str())
                } else {
                    concat2("failed to append ", inputs[i].as_str())
                },
            },
            Stage::Flush => concat2("failed to flush ", self.temp_path.as_str()),
            Stage::Sync => concat2("failed to sync ", self.temp_path.as_str()),
            Stage::ProbeTarget | Stage::RemoveTarget => concat2(
                "failed to replace ",
                self.local_path.as_str(),
            ),
            Stage::Move | Stage::Done => concat3(
                "failed to move ",
                self.local_path.as_str(),
                " into place",
            ),
        }
    }

    /// The stage after a report, or the error with which it ends.
    pub fn advance(&self, stage: Stage, report: StageReport) -> (out: Result<Stage, TickError>)
        requires
            self.has_stage(stage),
        ensures
            match self.stage_after(stage, report) {
                Ok(next) => out == Ok::<Stage, TickError>(next),
                Err(error) => failure(out) == Some(error),
            },
            out matches Ok(next) ==> self.has_stage(next),
    {
        if stage == Stage::ProbeTemp || stage == Stage::ProbeLocal || stage == Stage::ProbeTarget {
            let found = match report {
                StageReport::Found => true,
                _ => false,
            };
            return Ok(self.next(stage, found));
        }
        match report {
            StageReport::Done | StageReport::Found => Ok(self.next(stage, false)),
            StageReport::ReadFault => Err(TickError::Other(self.complain(stage, true))),
            StageReport::Fault => Err(TickError::Other(self.complain(stage, false))),
            StageReport::Refused(error) => Err(error),
        }
    }

    /// How many stages can still follow.
    pub open spec fn remaining(self, stage: Stage) -> nat {
        let inputs = match self.source {
            StagedSource::Fetch { key, present } => 1,
            StagedSource::Files(inputs) => inputs@.len(),
        };
        match stage {
            Stage::CreateLocalDir => inputs + 14,
            Stage::CreateTempDir => inputs + 13,
            Stage::ProbeTemp => inputs + 12,
            Stage::RemoveTemp => inputs + 11,
            Stage::Request => inputs + 10,
            Stage::ProbeLocal => inputs + 9,
            Stage::RemoveLocal => inputs + 8,
            Stage::CreateTemp => inputs + 7,
            Stage::Fill(i) => (inputs - i + 6) as nat,
            Stage::Flush => 6,
            Stage::Sync => 5,
            Stage::ProbeTarget => 4,
            Stage::RemoveTarget => 3,
            Stage::Move => 2,
            Stage::Done => 0,
        }
    }
}

// ---------------------------------------------------------------------------
// What is on disk
// ---------------------------------------------------------------------------

/// What is at a path.
pub enum Content {
    Absent,
    /// Something that was there before, or a file that is still being written.
    Unknown,
    /// The complete new content.
    Complete,
}

/// What is at the two paths of a staged file.
pub struct Disk {
    pub local: Content,
    pub temp: Content,
}

impl Disk {
    /// What is on disk once a stage was done.
    pub open spec fn after(self, stage: Stage) -> Disk {
        match stage {
            Stage::RemoveTemp => Disk { temp: Content::Absent, ..self },
            Stage::RemoveLocal => Disk { local: Content::Absent, ..self },
            Stage::CreateTemp => Disk { temp: Content::Unknown, ..self },
            Stage::Sync => Disk { temp: Content::Complete, ..self },
            Stage::RemoveTarget => Disk { local: Content::Absent, ..self },
            Stage::Move => Disk { local: self.temp, temp: Content::Absent },
            _ => self,
        }
    }

    /// Whether a report tells truly what a probe met.
    pub open spec fn agrees(self, stage: Stage, report: StageReport) -> bool {
        match stage {
            Stage::ProbeTemp => (report is Found) == !(self.temp is Absent),
            Stage::ProbeLocal => (report is Found) == !(self.local is Absent),
            Stage::ProbeTarget => (report is Found) == !(self.local is Absent),
            _ => true,
        }
    }

    /// What holds before a stage is done.
    pub open spec fn ready(self, stage: Stage) -> bool {
        match stage {
            Stage::Request | Stage::ProbeLocal | Stage::RemoveLocal | Stage::CreateTemp => self.temp
                is Absent,
            Stage::Fill(_) | Stage::Flush | Stage::Sync => self.temp is Unknown,
            Stage::ProbeTarget | Stage::RemoveTarget => self.temp is Complete,
            Stage::Move => self.temp is Complete && self.local is Absent,
            Stage::Done => self.local is Complete && self.temp is Absent,
            _ => true,
        }
    }
}

/// Every stage leaves the disk as the next one needs it, so at the end the complete content is in
/// place and nothing is left beside it. What is put in place is complete: where no complete file
/// was there, none that is not complete appears there.
pub proof fn lemma_staging_is_safe(file: StagedFile, stage: Stage, report: StageReport, disk: Disk)
    requires
        file.has_stage(stage),
        disk.ready(stage),
        disk.agrees(stage, report),
        file.stage_after(stage, report) is Ok,
    ensures
        disk.after(stage).ready(file.stage_after(stage, report)->Ok_0),
        disk.after(stage).local is Complete || disk.after(stage).local is Absent || disk.after(
            stage,
        ).local == disk.local,
        stage != Stage::Done ==> file.remaining(file.stage_after(stage, report)->Ok_0)
            < file.remaining(stage),
{
    if let StagedSource::Files(inputs) = file.source {
        assert(inputs.len() <= usize::MAX);
    }
}

/// A good copy in place is not touched before the new content is complete.
pub proof fn lemma_present_copy_stays(file: StagedFile, stage: Stage, report: StageReport)
    requires
        file.has_stage(stage),
        file.source matches StagedSource::Fetch { present: true, .. },
        file.stage_after(stage, report) is Ok,
    ensures
        file.stage_after(stage, report)->Ok_0 != Stage::RemoveLocal || stage == Stage::RemoveLocal,
        file.stage_after(stage, report)->Ok_0 == Stage::RemoveTarget ==> stage
            == Stage::ProbeTarget,
{
}

// ---------------------------------------------------------------------------
// What a walk through the stages does
// ---------------------------------------------------------------------------

/// A walk through the stages of a file, from the first on, without an error: at each stage the action
/// that was asked for, and the report that led to the next stage.
pub open spec fn walks(
    file: StagedFile,
    stages: Seq<Stage>,
    actions: Seq<StageAction>,
    reports: Seq<StageReport>,
) -> bool {
    &&& stages.len() == reports.len() + 1
    &&& actions.len() == reports.len()
    &&& stages[0] == Stage::CreateLocalDir
    &&& forall|i: int|
        0 <= i < reports.len() ==> {
            &&& stages[i] != Stage::Done
            &&& call_ensures(StagedFile::action, (&file, #[trigger] stages[i]), actions[i])
            &&& call_ensures(
                StagedFile::advance,
                (&file, stages[i], reports[i]),
                Ok::<Stage, TickError>(stages[i + 1]),
            )
        }
}

/// The inputs that the first `n` of these actions append, in order.
pub open spec fn appended(actions: Seq<StageAction>, n: nat) -> Seq<Seq<char>>
    decreases n,
{
    if n == 0 || n > actions.len() {
        seq![]
    } else {
        let before = appended(actions, (n - 1) as nat);
        match actions[n - 1] {
            StageAction::Append(path) => before.push(path@),
            _ => before,
        }
    }
}

/// A disk with a file that is being written.
pub struct World {
    /// What the files hold.
    pub files: Map<Seq<char>, Seq<u8>>,
    /// The files whose content is on the disk for good.
    pub safe: Set<Seq<char>>,
    /// The file that is being written.
    pub open: Seq<char>,
    /// What was written to it but was not handed to the disk.
    pub pending: Seq<u8>,
    /// The key of the snapshot that the server was asked for.
    pub asked: Seq<char>,
}

impl World {
    /// The world with more written to the open file.
    pub open spec fn written(self, more: Seq<u8>) -> World {
        World { pending: self.pending + more, safe: self.safe.remove(self.open), ..self }
    }

    /// The world once an action was done. `served` is what the server holds.
    pub open spec fn after(self, action: StageAction, served: Map<Seq<char>, Seq<u8>>) -> World {
        match action {
            StageAction::Remove(path) => World { files: self.files.remove(path@), ..self },
            StageAction::Request(key) => World { asked: key@, ..self },
            StageAction::CreateFile(path) => World {
                files: self.files.insert(path@, seq![]),
                safe: self.safe.remove(path@),
                open: path@,
                pending: seq![],
                ..self
            },
            StageAction::Stream => self.written(served[self.asked]),
            StageAction::Append(path) => self.written(self.files[path@]),
            StageAction::Flush => World {
                files: self.files.insert(self.open, self.files[self.open] + self.pending),
                pending: seq![],
                ..self
            },
            StageAction::Sync => World {
                safe: if self.pending.len() == 0 {
                    self.safe.insert(self.open)
                } else {
                    self.safe
                },
                ..self
            },
            StageAction::Rename { from, to } => World {
                files: self.files.remove(from@).insert(to@, self.files[from@]),
                safe: if self.safe.contains(from@) {
                    self.safe.insert(to@)
                } else {
                    self.safe.remove(to@)
                },
                ..self
            },
            _ => self,
        }
    }

    /// The world once the first `n` of these actions were done.
    pub open spec fn after_all(
        self,
        actions: Seq<StageAction>,
        served: Map<Seq<char>, Seq<u8>>,
        n: nat,
    ) -> World
        decreases n,
    {
        if n == 0 || n > actions.len() {
            self
        } else {
            self.after_all(actions, served, (n - 1) as nat).after(actions[n - 1], served)
        }
    }
}

/// What a file is to hold: the snapshot that is fetched, or the inputs one after the other.
pub open spec fn wanted_content(
    file: StagedFile,
    files: Map<Seq<char>, Seq<u8>>,
    served: Map<Seq<char>, Seq<u8>>,
) -> Seq<u8> {
    match file.source {
        StagedSource::Fetch { key, .. } => served[key@],
        StagedSource::Files(inputs) => inputs@.map_values(|path: String| files[path@]).flatten(),
    }
}

/// Whether the two places of a file are apart, and its inputs lie elsewhere.
pub open spec fn apart(file: StagedFile) -> bool {
    &&& file.local_path@ != file.temp_path@
    &&& file.source matches StagedSource::Files(inputs) ==> forall|i: int|
        0 <= i < inputs@.len() ==> (#[trigger] inputs@[i])@ != file.local_path@ && inputs@[i]@
            != file.temp_path@
}

spec fn filled(file: StagedFile, before: World, served: Map<Seq<char>, Seq<u8>>, i: int) -> Seq<u8> {
    match file.source {
        StagedSource::Fetch { key, .. } => if i == 0 {
            seq![]
        } else {
            served[key@]
        },
        StagedSource::Files(inputs) => inputs@.take(i).map_values(
            |path: String| before.files[path@],
        ).flatten(),
    }
}

spec fn on_the_way(
    file: StagedFile,
    stage: Stage,
    before: World,
    now: World,
    served: Map<Seq<char>, Seq<u8>>,
) -> bool {
    let local = file.local_path@;
    let temp = file.temp_path@;
    let whole = wanted_content(file, before.files, served);
    let none: Seq<u8> = seq![];
    &&& file.has_stage(stage)
    &&& forall|path: Seq<char>|
        path != local && path != temp ==> (#[trigger] now.files.dom().contains(path)
            == before.files.dom().contains(path) && now.files[path] == before.files[path])
    &&& stage != Stage::Done ==> {
        ||| !now.files.dom().contains(local)
        ||| before.files.dom().contains(local) && now.files[local] == before.files[local]
    }
    &&& match stage {
        Stage::ProbeLocal | Stage::RemoveLocal => file.source matches StagedSource::Fetch {
            key,
            ..
        } && now.asked == key@,
        Stage::CreateTemp => file.source matches StagedSource::Fetch { key, .. } ==> now.asked
            == key@,
        Stage::Fill(i) => {
            &&& now.open == temp
            &&& now.files.dom().contains(temp) && now.files[temp] == none
            &&& now.pending == filled(file, before, served, i as int)
            &&& file.source matches StagedSource::Fetch { key, .. } ==> now.asked == key@
        },
        Stage::Flush => {
            &&& now.open == temp
            &&& now.files.dom().contains(temp) && now.files[temp] == none
            &&& now.pending == whole
        },
        Stage::Sync => {
            &&& now.open == temp
            &&& now.files.dom().contains(temp) && now.files[temp] == whole
            &&& now.pending == none
        },
        Stage::ProbeTarget | Stage::RemoveTarget | Stage::Move => {
            &&& now.files.dom().contains(temp) && now.files[temp] == whole
            &&& now.safe.contains(temp)
        },
        Stage::Done => {
            &&& now.files.dom().contains(local) && now.files[local] == whole
            &&& now.safe.contains(local)
            &&& !now.files.dom().contains(temp)
        },
        _ => true,
    }
}

proof fn lemma_filled(file: StagedFile, before: World, served: Map<Seq<char>, Seq<u8>>, i: int)
    requires
        file.source matches StagedSource::Files(inputs) ==> 0 <= i <= inputs@.len(),
    ensures
        file.source matches StagedSource::Files(inputs) ==> {
            &&& i < inputs@.len() ==> filled(file, before, served, i + 1) == filled(
                file,
                before,
                served,
                i,
            ) + before.files[inputs@[i]@]
            &&& filled(file, before, served, inputs@.len() as int) == wanted_content(
                file,
                before.files,
                served,
            )
            &&& filled(file, before, served, 0) == Seq::<u8>::empty()
        },
{
    if let StagedSource::Files(inputs) = file.source {
        let all = inputs@.map_values(|path: String| before.files[path@]);
        assert(inputs@.take(inputs@.len() as int) =~= inputs@);
        assert(inputs@.take(0).map_values(|path: String| before.files[path@]) =~= Seq::empty());
        if i < inputs@.len() {
            let some = inputs@.take(i).map_values(|path: String| before.files[path@]);
            let more = inputs@.take(i + 1).map_values(|path: String| before.files[path@]);
            assert(more =~= some.push(before.files[inputs@[i]@]));
            more.lemma_flatten_and_flatten_alt_are_equivalent();
            some.lemma_flatten_and_flatten_alt_are_equivalent();
            assert(more.drop_last() =~= some);
        }
    }
}

proof fn lemma_walk_step(
    file: StagedFile,
    stage: Stage,
    action: StageAction,
    report: StageReport,
    next: Stage,
    before: World,
    now: World,
    served: Map<Seq<char>, Seq<u8>>,
)
    requires
        apart(file),
        on_the_way(file, stage, before, now, served),
        stage != Stage::Done,
        call_ensures(StagedFile::action, (&file, stage), action),
        call_ensures(
            StagedFile::advance,
            (&file, stage, report),
            Ok::<Stage, TickError>(next),
        ),
    ensures
        on_the_way(file, next, before, now.after(action, served), served),
{
    let then = now.after(action, served);
    let none: Seq<u8> = seq![];
    let local = file.local_path@;
    let temp = file.temp_path@;
    assert(action@ == file.action_at(stage));
    assert forall|path: Seq<char>| path != local && path != temp implies (
    #[trigger] then.files.dom().contains(path) == before.files.dom().contains(path)
        && then.files[path] == before.files[path]) by {
        assert(now.files.dom().contains(path) == before.files.dom().contains(path));
    }
    match stage {
        Stage::Fill(i) => {
            lemma_filled(file, before, served, i as int);
            match file.source {
                StagedSource::Files(inputs) => {
                    let input = inputs@[i as int]@;
                    assert(inputs@.len() == inputs.len() && inputs.len() <= usize::MAX);
                    assert(inputs@[i as int]@ != local);
                    assert(now.files.dom().contains(input) == before.files.dom().contains(input));
                    assert(then.pending == filled(file, before, served, i + 1));
                },
                StagedSource::Fetch { key, present } => {
                    assert(none + served[key@] =~= served[key@]);
                },
            }
        },
        Stage::CreateTemp => {
            lemma_filled(file, before, served, 0);
            assert(then.files == now.files.insert(temp, none));
        },
        Stage::Flush => {
            assert(none + now.pending =~= now.pending);
        },
        _ => {},
    }
}

/// A walk through the stages puts in place what was wanted: at its end the file holds the snapshot
/// that was fetched, or the inputs, all of them, each once and in order, and it is on the disk for
/// good. Nothing is left beside it, and no other file was touched. On the way, the place holds what it
/// held before, or nothing.
pub proof fn lemma_walk_puts_content_in_place(
    file: StagedFile,
    stages: Seq<Stage>,
    actions: Seq<StageAction>,
    reports: Seq<StageReport>,
    before: World,
    served: Map<Seq<char>, Seq<u8>>,
    n: nat,
)
    requires
        apart(file),
        walks(file, stages, actions, reports),
        n <= actions.len(),
    ensures
        ({
            let now = before.after_all(actions, served, n);
            let whole = wanted_content(file, before.files, served);
            let local = file.local_path@;
            let temp = file.temp_path@;
            &&& stages[n as int] == Stage::Done ==> {
                &&& now.files.dom().contains(local) && now.files[local] == whole
                &&& now.safe.contains(local)
                &&& !now.files.dom().contains(temp)
            }
            &&& stages[n as int] != Stage::Done ==> {
                ||| !now.files.dom().contains(local)
                ||| before.files.dom().contains(local) && now.files[local] == before.files[local]
            }
            &&& forall|path: Seq<char>|
                path != local && path != temp ==> (#[trigger] now.files.dom().contains(path)
                    == before.files.dom().contains(path) && now.files[path] == before.files[path])
        }),
{
    lemma_walk_goes_on(file, stages, actions, reports, before, served, n);
}

proof fn lemma_walk_goes_on(
    file: StagedFile,
    stages: Seq<Stage>,
    actions: Seq<StageAction>,
    reports: Seq<StageReport>,
    before: World,
    served: Map<Seq<char>, Seq<u8>>,
    n: nat,
)
    requires
        apart(file),
        walks(file, stages, actions, reports),
        n <= actions.len(),
    ensures
        on_the_way(
            file,
            stages[n as int],
            before,
            before.after_all(actions, served, n),
            served,
        ),
    decreases n,
{
    if n > 0 {
        let m = (n - 1) as nat;
        lemma_walk_goes_on(file, stages, actions, reports, before, served, m);
        assert(stages[m as int] != Stage::Done);
        lemma_walk_step(
            file,
            stages[m as int],
            actions[m as int],
            reports[m as int],
            stages[n as int],
            before,
            before.after_all(actions, served, m),
            served,
        );
    }
}

spec fn appended_before(file: StagedFile, stage: Stage) -> Seq<Seq<char>> {
    match file.source {
        StagedSource::Fetch { .. } => seq![],
        StagedSource::Files(inputs) => match stage {
            Stage::Fill(i) => texts(inputs@.take(i as int)),
            Stage::Flush | Stage::Sync | Stage::ProbeTarget | Stage::RemoveTarget | Stage::Move
            | Stage::Done => texts(inputs@),
            _ => seq![],
        },
    }
}

proof fn lemma_appends_so_far(
    file: StagedFile,
    stages: Seq<Stage>,
    actions: Seq<StageAction>,
    reports: Seq<StageReport>,
    n: nat,
)
    requires
        walks(file, stages, actions, reports),
        n <= actions.len(),
    ensures
        file.has_stage(stages[n as int]),
        appended(actions, n) == appended_before(file, stages[n as int]),
    decreases n,
{
    if n > 0 {
        let m = (n - 1) as nat;
        lemma_appends_so_far(file, stages, actions, reports, m);
        assert(stages[m as int] != Stage::Done);
        let stage = stages[m as int];
        assert(actions[m as int]@ == file.action_at(stage));
        if let StagedSource::Files(inputs) = file.source {
            assert(inputs.len() <= usize::MAX);
            assert(texts(inputs@.take(0)) =~= seq![]);
            assert(inputs@.take(inputs@.len() as int) =~= inputs@);
            if inputs@.len() == 0 {
                assert(texts(inputs@) =~= seq![]);
            }
            if let Stage::Fill(i) = stage {
                assert(texts(inputs@.take(i + 1)) =~= texts(inputs@.take(i as int)).push(
                    inputs@[i as int]@,
                ));
            }
        }
    }
}

/// A file that is made of inputs is made of all of them: a walk that comes to its end has appended
/// each input once, in order, and nothing else. So has every walk that has come to the stage at which
/// the content counts as complete.
pub proof fn lemma_every_input_is_appended(
    file: StagedFile,
    stages: Seq<Stage>,
    actions: Seq<StageAction>,
    reports: Seq<StageReport>,
    n: nat,
)
    requires
        walks(file, stages, actions, reports),
        n <= actions.len(),
        stages[n as int] == Stage::Done || stages[n as int] == Stage::Sync,
    ensures
        appended(actions, n) == (match file.source {
            StagedSource::Files(inputs) => texts(inputs@),
            StagedSource::Fetch { .. } => seq![],
        }),
{
    lemma_appends_so_far(file, stages, actions, reports, n);
}

/// What fails ends the walk: only a stage that was done leads to the next one. A stage that looks
/// whether something is there cannot fail. An error of its own is the error of the walk.
pub proof fn lemma_failure_ends_the_walk(
    file: StagedFile,
    stage: Stage,
    action: StageAction,
    report: StageReport,
    out: Result<Stage, TickError>,
)
    requires
        call_ensures(StagedFile::action, (&file, stage), action),
        call_ensures(StagedFile::advance, (&file, stage, report), out),
    ensures
        out is Ok <==> action is Probe || report is Done || report is Found,
        !(action is Probe) ==> (report matches StageReport::Refused(error) ==> failure(out) == Some(
            error@,
        )),
{
    assert(action@ == file.action_at(stage));
}

} // verus!
