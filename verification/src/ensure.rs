//! A request to make sure that a snapshot is here: what to look at on disk, and the answer.

use vstd::prelude::*;
use vstd::string::*;

use crate::json::string_json;
use crate::response::{
    error_body, error_response, law_bodies_tell_apart, law_what_bodies_say, state_body,
    state_response, Response, INTERNAL_SERVER_ERROR, OK,
};

verus! {

/// Where the snapshot of a machine is kept.
pub struct MachinePaths {
    /// The directory of the snapshot.
    pub directory: String,
    /// The file that is there while the snapshot is on its way.
    pub lock_file: String,
    /// The file inside the directory that holds the hash of the machine.
    pub hash_file: String,
}

/// The directory of the snapshot of a machine.
pub open spec fn machine_directory(snapshot_dir: Seq<char>, machine_hash: Seq<char>) -> Seq<char> {
    snapshot_dir + "/"@ + machine_hash
}

impl MachinePaths {
    /// Whether these are the paths of this machine under this directory.
    pub open spec fn are_of(self, snapshot_dir: Seq<char>, machine_hash: Seq<char>) -> bool {
        let directory = machine_directory(snapshot_dir, machine_hash);
        &&& self.directory@ == directory
        &&& self.lock_file@ == directory + ".lock"@
        &&& self.hash_file@ == directory + "/hash"@
    }

    /// The paths of a machine under the directory of the snapshots.
    pub fn new(snapshot_dir: &str, machine_hash: &str) -> (paths: MachinePaths)
        ensures
            paths.are_of(snapshot_dir@, machine_hash@),
    {
        let mut directory: String = snapshot_dir.to_owned();
        directory.append("/");
        directory.append(machine_hash);
        let mut lock_file: String = directory.clone();
        lock_file.append(".lock");
        let mut hash_file: String = directory.clone();
        hash_file.append("/hash");
        MachinePaths { directory, lock_file, hash_file }
    }
}

/// What became of an attempt to create the lock file, which fails where there already is one.
pub enum LockCreation {
    Created,
    AlreadyExists,
    /// It failed for another reason, which these words give.
    Failed(String),
}

/// What was seen on disk.
pub enum Observation {
    /// Whether the directory of the snapshot is there.
    Directory(bool),
    /// Whether the lock file is there.
    LockFile(bool),
    /// What became of the attempt to create the lock file.
    LockCreation(LockCreation),
}

/// What to do next for a request.
pub enum EnsureStep {
    /// See whether the directory of the snapshot is there.
    LookForDirectory,
    /// See whether the lock file is there.
    LookForLockFile,
    /// Try to create the lock file.
    CreateLockFile,
    /// Answer this and, where `download` is set, start the download.
    Answer { response: Response, download: bool },
}

/// What there is to see on disk, with texts as plain sequences.
pub ghost enum ObservationView {
    Directory(bool),
    LockFile(bool),
    Created,
    AlreadyExists,
    Failed(Seq<char>),
}

/// A step, with texts as plain sequences.
pub ghost enum EnsureStepView {
    LookForDirectory,
    LookForLockFile,
    CreateLockFile,
    Answer { status: u16, body: Seq<char>, download: bool },
}

impl View for Observation {
    type V = ObservationView;

    open spec fn view(&self) -> ObservationView {
        match self {
            Observation::Directory(there) => ObservationView::Directory(*there),
            Observation::LockFile(there) => ObservationView::LockFile(*there),
            Observation::LockCreation(LockCreation::Created) => ObservationView::Created,
            Observation::LockCreation(LockCreation::AlreadyExists) =>
                ObservationView::AlreadyExists,
            Observation::LockCreation(LockCreation::Failed(reason)) => ObservationView::Failed(
                reason@,
            ),
        }
    }
}

impl View for EnsureStep {
    type V = EnsureStepView;

    open spec fn view(&self) -> EnsureStepView {
        match self {
            EnsureStep::LookForDirectory => EnsureStepView::LookForDirectory,
            EnsureStep::LookForLockFile => EnsureStepView::LookForLockFile,
            EnsureStep::CreateLockFile => EnsureStepView::CreateLockFile,
            EnsureStep::Answer { response, download } => EnsureStepView::Answer {
                status: response.status,
                body: response.body@,
                download: *download,
            },
        }
    }
}

/// The step that answers with the state of the snapshot.
pub open spec fn state_step(state: Seq<char>, download: bool) -> EnsureStepView {
    EnsureStepView::Answer { status: OK, body: state_body(state), download }
}

impl EnsureStepView {
    /// The step after this one, where carrying it out showed `seen`.
    pub open spec fn next(self, seen: ObservationView) -> EnsureStepView {
        match (self, seen) {
            (EnsureStepView::LookForDirectory, ObservationView::Directory(there)) => if there {
                EnsureStepView::LookForLockFile
            } else {
                EnsureStepView::CreateLockFile
            },
            (EnsureStepView::LookForLockFile, ObservationView::LockFile(there)) => if there {
                state_step("downloading"@, false)
            } else {
                state_step("ready"@, false)
            },
            (EnsureStepView::CreateLockFile, ObservationView::Created) => state_step(
                "started_download"@,
                true,
            ),
            (EnsureStepView::CreateLockFile, ObservationView::AlreadyExists) => state_step(
                "downloading"@,
                false,
            ),
            (EnsureStepView::CreateLockFile, ObservationView::Failed(reason)) =>
                EnsureStepView::Answer {
                status: INTERNAL_SERVER_ERROR,
                body: error_body("Failed to create lock file: "@ + reason),
                download: false,
            },
            _ => self,
        }
    }
}

impl EnsureStep {
    /// The step that a request starts with.
    pub fn first() -> (step: EnsureStep)
        ensures
            step@ == EnsureStepView::LookForDirectory,
    {
        EnsureStep::LookForDirectory
    }

    /// The step after this one, where carrying it out showed `seen`. Something that the step does
    /// not look for changes nothing.
    pub fn next(self, seen: Observation) -> (step: EnsureStep)
        ensures
            step@ == self@.next(seen@),
    {
        match (self, seen) {
            (EnsureStep::LookForDirectory, Observation::Directory(there)) => if there {
                EnsureStep::LookForLockFile
            } else {
                EnsureStep::CreateLockFile
            },
            (EnsureStep::LookForLockFile, Observation::LockFile(there)) => if there {
                EnsureStep::Answer { response: state_response("downloading"), download: false }
            } else {
                EnsureStep::Answer { response: state_response("ready"), download: false }
            },
            (EnsureStep::CreateLockFile, Observation::LockCreation(creation)) => match creation {
                LockCreation::Created => EnsureStep::Answer {
                    response: state_response("started_download"),
                    download: true,
                },
                LockCreation::AlreadyExists => EnsureStep::Answer {
                    response: state_response("downloading"),
                    download: false,
                },
                LockCreation::Failed(reason) => {
                    let mut message: String = "Failed to create lock file: ".to_owned();
                    message.append(reason.as_str());
                    EnsureStep::Answer {
                        response: error_response(INTERNAL_SERVER_ERROR, message.as_str()),
                        download: false,
                    }
                },
            },
            (step, _) => step,
        }
    }
}

/// What is on disk when a request comes.
pub ghost struct Disk {
    /// Whether the directory of the snapshot is there.
    pub directory: bool,
    /// Whether the lock file is there.
    pub lock_file: bool,
    /// Why a lock file cannot be created, where something other than a lock file prevents it.
    pub obstacle: Option<Seq<char>>,
}

impl Disk {
    /// What carrying out a step shows.
    pub open spec fn shown_by(self, step: EnsureStepView) -> ObservationView {
        match step {
            EnsureStepView::LookForDirectory => ObservationView::Directory(self.directory),
            EnsureStepView::LookForLockFile => ObservationView::LockFile(self.lock_file),
            _ => match self.obstacle {
                Some(reason) => ObservationView::Failed(reason),
                None => if self.lock_file {
                    ObservationView::AlreadyExists
                } else {
                    ObservationView::Created
                },
            },
        }
    }

    /// The step after `step` on this disk.
    pub open spec fn step_after(self, step: EnsureStepView) -> EnsureStepView {
        step.next(self.shown_by(step))
    }

    /// The step that answers a request on this disk.
    pub open spec fn answer(self) -> EnsureStepView {
        self.step_after(self.step_after(EnsureStepView::LookForDirectory))
    }
}

/// Two looks at the disk lead to an answer, whatever is there, and one does not.
pub proof fn law_two_looks_answer(disk: Disk)
    ensures
        disk.answer() is Answer,
        !(disk.step_after(EnsureStepView::LookForDirectory) is Answer),
{
}

/// A snapshot is reported ready exactly where its directory is there and its lock file is not.
pub proof fn law_ready_means_complete(disk: Disk, download: bool)
    ensures
        disk.answer() == state_step("ready"@, download) <==> disk.directory && !disk.lock_file
            && !download,
{
    reveal_strlit("ready");
    reveal_strlit("downloading");
    reveal_strlit("started_download");
    if state_body("ready"@) == state_body("downloading"@) {
        law_bodies_tell_apart("state"@, "ready"@, "downloading"@);
    }
    if state_body("ready"@) == state_body("started_download"@) {
        law_bodies_tell_apart("state"@, "ready"@, "started_download"@);
    }
}

/// A download starts exactly where there is neither a directory nor a lock file and the lock file
/// could be created, and the answer to that request is that it started.
pub proof fn law_download_starts_once(disk: Disk)
    ensures
        disk.answer()->download <==> !disk.directory && !disk.lock_file && disk.obstacle is None,
        disk.answer()->download ==> disk.answer() == state_step("started_download"@, true),
{
}

/// A lock file keeps every request from starting a download: whoever finds one is told that the
/// snapshot is on its way, unless the directory is missing and something else prevents the lock.
pub proof fn law_lock_file_means_downloading(disk: Disk)
    requires
        disk.lock_file,
        disk.directory || disk.obstacle is None,
    ensures
        disk.answer() == state_step("downloading"@, false),
{
}

/// The directory of a machine is the one named by its whole hash in the directory of the
/// snapshots. The lock file stands beside it and the hash file in it.
pub proof fn law_paths_are_made_of_hash(
    paths: MachinePaths,
    snapshot_dir: Seq<char>,
    machine_hash: Seq<char>,
)
    requires
        paths.are_of(snapshot_dir, machine_hash),
    ensures
        paths.directory@.len() == snapshot_dir.len() + 1 + machine_hash.len(),
        paths.directory@.take(snapshot_dir.len() as int) == snapshot_dir,
        paths.directory@[snapshot_dir.len() as int] == '/',
        paths.directory@.skip((snapshot_dir.len() + 1) as int) == machine_hash,
        paths.lock_file@ == paths.directory@ + ".lock"@,
        paths.hash_file@ == paths.directory@ + "/hash"@,
        machine_directory(snapshot_dir, machine_hash) == paths.directory@,
{
    reveal_strlit("/");
    assert(paths.directory@.take(snapshot_dir.len() as int) =~= snapshot_dir);
    assert(paths.directory@.skip((snapshot_dir.len() + 1) as int) =~= machine_hash);
}

/// Different machines share no path: neither a directory, nor a lock file, nor a hash file.
pub proof fn law_machines_share_no_path(
    left: MachinePaths,
    right: MachinePaths,
    snapshot_dir: Seq<char>,
    left_hash: Seq<char>,
    right_hash: Seq<char>,
)
    requires
        left.are_of(snapshot_dir, left_hash),
        right.are_of(snapshot_dir, right_hash),
        left_hash != right_hash,
    ensures
        left.directory@ != right.directory@,
        left.lock_file@ != right.lock_file@,
        left.hash_file@ != right.hash_file@,
        left_hash.len() == right_hash.len() ==> left.lock_file@ != right.directory@
            && left.lock_file@ != right.hash_file@ && left.hash_file@ != right.directory@,
{
    law_paths_are_made_of_hash(left, snapshot_dir, left_hash);
    law_paths_are_made_of_hash(right, snapshot_dir, right_hash);
    reveal_strlit(".lock");
    reveal_strlit("/hash");
    let count = left.directory@.len() as int;
    assert(left.lock_file@.len() == count + 5 && left.hash_file@.len() == count + 5);
    assert(right.lock_file@.len() == right.directory@.len() + 5);
    assert(right.hash_file@.len() == right.directory@.len() + 5);
    if left.lock_file@ == right.lock_file@ {
        assert(left.lock_file@.take(count) =~= left.directory@);
        assert(right.lock_file@.take(count) =~= right.directory@);
    }
    if left.hash_file@ == right.hash_file@ {
        assert(left.hash_file@.take(count) =~= left.directory@);
        assert(right.hash_file@.take(count) =~= right.directory@);
    }
    if left_hash.len() == right_hash.len() && left.lock_file@ == right.hash_file@ {
        assert(left.lock_file@[count] == '.');
        assert(right.hash_file@[count] == '/');
    }
}

/// A request looks for the directory first. Where it is there, the lock file decides between
/// downloading and ready. Where it is not, the creation of the lock file decides: created starts
/// the download, there already is one means downloading, and any other failure is an error that
/// gives its reason. No answer but the one to a created lock starts a download.
pub proof fn law_what_a_look_leads_to(lock_file: bool, reason: Seq<char>)
    ensures
        EnsureStepView::LookForDirectory.next(ObservationView::Directory(true))
            == EnsureStepView::LookForLockFile,
        EnsureStepView::LookForDirectory.next(ObservationView::Directory(false))
            == EnsureStepView::CreateLockFile,
        EnsureStepView::LookForLockFile.next(ObservationView::LockFile(lock_file)) == (
        EnsureStepView::Answer {
            status: 200,
            body: "{\"state\":"@ + string_json(
                if lock_file {
                    "downloading"@
                } else {
                    "ready"@
                },
            ) + "}"@,
            download: false,
        }),
        EnsureStepView::CreateLockFile.next(ObservationView::Created) == (EnsureStepView::Answer {
            status: 200,
            body: "{\"state\":"@ + string_json("started_download"@) + "}"@,
            download: true,
        }),
        EnsureStepView::CreateLockFile.next(ObservationView::AlreadyExists) == (
        EnsureStepView::Answer {
            status: 200,
            body: "{\"state\":"@ + string_json("downloading"@) + "}"@,
            download: false,
        }),
        EnsureStepView::CreateLockFile.next(ObservationView::Failed(reason)) == (
        EnsureStepView::Answer {
            status: 500,
            body: "{\"error\":"@ + string_json("Failed to create lock file: "@ + reason) + "}"@,
            download: false,
        }),
{
    law_what_bodies_say("downloading"@);
    law_what_bodies_say("ready"@);
    law_what_bodies_say("started_download"@);
    law_what_bodies_say("Failed to create lock file: "@ + reason);
}

/// Something that a step does not look for changes nothing, and an answer stays as it is.
pub proof fn law_other_looks_change_nothing(step: EnsureStepView, seen: ObservationView)
    requires
        match step {
            EnsureStepView::LookForDirectory => !(seen is Directory),
            EnsureStepView::LookForLockFile => !(seen is LockFile),
            EnsureStepView::CreateLockFile => seen is Directory || seen is LockFile,
            EnsureStepView::Answer { .. } => true,
        },
    ensures
        step.next(seen) == step,
{
}

/// A lock file that cannot be created for another reason than that there is one is reported with
/// that reason, and nothing is downloaded.
pub proof fn law_obstacles_are_reported(disk: Disk, reason: Seq<char>)
    requires
        !disk.directory,
        disk.obstacle == Some(reason),
    ensures
        disk.answer() == (EnsureStepView::Answer {
            status: 500,
            body: "{\"error\":"@ + string_json("Failed to create lock file: "@ + reason) + "}"@,
            download: false,
        }),
{
    law_what_a_look_leads_to(true, reason);
}

/// The views of what was seen and of a step keep every choice and every text.
pub proof fn law_ensure_views_are_whole(seen: Observation, step: EnsureStep)
    ensures
        match seen {
            Observation::Directory(there) => seen@ == ObservationView::Directory(there),
            Observation::LockFile(there) => seen@ == ObservationView::LockFile(there),
            Observation::LockCreation(LockCreation::Created) => seen@ is Created,
            Observation::LockCreation(LockCreation::AlreadyExists) => seen@ is AlreadyExists,
            Observation::LockCreation(LockCreation::Failed(reason)) => seen@
                == ObservationView::Failed(reason@),
        },
        match step {
            EnsureStep::LookForDirectory => step@ is LookForDirectory,
            EnsureStep::LookForLockFile => step@ is LookForLockFile,
            EnsureStep::CreateLockFile => step@ is CreateLockFile,
            EnsureStep::Answer { response, download } => step@ == (EnsureStepView::Answer {
                status: response.status,
                body: response.body@,
                download,
            }),
        },
{
}

} // verus!
