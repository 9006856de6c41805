//! The download of a snapshot: what to do one step after the other, and what to take away again.

use vstd::prelude::*;
use vstd::string::*;

use crate::directory::DirectoryJob;
use crate::ensure::{machine_directory, state_step, Disk, MachinePaths};
use crate::hexadecimal::{decode, decoded};
use crate::json::{u64_member, u64_member_of};
use crate::request::{is_machine_hash, law_machine_hash_is_32_bytes};
use crate::text::{decimal, decimal_text, same_bytes};

verus! {

/// The CID that `text` writes, in its canonical form. There is none where `text` writes no CID.
pub uninterp spec fn canonical_cid(text: Seq<char>) -> Option<Seq<char>>;

/// Calls `cid::Cid::from_str`, by `str::parse`, and writes the CID with its `Display`. The
/// contract claims that both are a function of `text` alone, which [`canonical_cid`] names.
#[verifier::external_body]
fn parse_cid(text: &str) -> (cid: Option<String>)
    ensures
        (match cid {
            Some(cid) => Some(cid@),
            None => None,
        }) == canonical_cid(text@),
{
    match text.parse::<cid::Cid>() {
        Ok(cid) => Some(cid.to_string()),
        Err(_) => None,
    }
}

/// A snapshot to download.
pub struct DownloadJob {
    /// The directory of the snapshot, as the request writes its CID.
    pub cid: String,
    pub machine_hash: String,
    /// The size that the directory must have.
    pub expected_size: u64,
    /// Where the API of the IPFS node is.
    pub ipfs_url: String,
    pub paths: MachinePaths,
}

/// Something to take away.
pub enum Removal {
    /// A directory with all that is in it.
    Directory(String),
    File(String),
}

/// Why a download failed.
pub enum DownloadFailure {
    InvalidCid,
    StatRequest(String),
    StatRead(String),
    StatParse(String),
    NoSize,
    SizeMismatch { expected: u64, actual: u64 },
    Directory(String),
    HashRead(String),
    InvalidMachineHash,
    HashMismatch,
}

/// What to do next for a download.
pub enum DownloadStep {
    /// Post a request to this URI.
    RequestStat { uri: String, directory_cid: String },
    /// Read the body of the answer.
    ReadStat { directory_cid: String },
    /// Download the directory of this CID.
    FetchDirectory { directory_cid: String },
    /// Read the file at this path, which holds the hash of the machine.
    ReadHash { path: String },
    /// Take these away, in this order, and be done.
    Finish { removals: Vec<Removal>, outcome: Result<(), DownloadFailure> },
}

/// What became of a step.
pub enum DownloadEvent {
    /// Whether the request was answered, or why not.
    StatRequested(Result<(), String>),
    /// The body of the answer, or why it could not be read.
    StatRead(Result<Vec<u8>, String>),
    /// Whether the directory was downloaded, or why not.
    DirectoryFetched(Result<(), String>),
    /// What the file holds, or why it could not be read.
    HashRead(Result<Vec<u8>, String>),
}

/// Something to take away, by its path.
pub ghost enum RemovalView {
    Directory(Seq<char>),
    File(Seq<char>),
}

/// Why a download failed, with texts as plain sequences.
pub ghost enum FailureView {
    InvalidCid,
    StatRequest(Seq<char>),
    StatRead(Seq<char>),
    StatParse(Seq<char>),
    NoSize,
    SizeMismatch { expected: u64, actual: u64 },
    Directory(Seq<char>),
    HashRead(Seq<char>),
    InvalidMachineHash,
    HashMismatch,
}

/// A step, with texts as plain sequences.
pub ghost enum StepView {
    RequestStat { uri: Seq<char>, directory_cid: Seq<char> },
    ReadStat { directory_cid: Seq<char> },
    FetchDirectory { directory_cid: Seq<char> },
    ReadHash { path: Seq<char> },
    Finish { removals: Seq<RemovalView>, outcome: Result<(), FailureView> },
}

/// What became of a step, with texts and bytes as plain sequences.
pub ghost enum EventView {
    StatRequested(Result<(), Seq<char>>),
    StatRead(Result<Seq<u8>, Seq<char>>),
    DirectoryFetched(Result<(), Seq<char>>),
    HashRead(Result<Seq<u8>, Seq<char>>),
}

impl View for Removal {
    type V = RemovalView;

    open spec fn view(&self) -> RemovalView {
        match self {
            Removal::Directory(path) => RemovalView::Directory(path@),
            Removal::File(path) => RemovalView::File(path@),
        }
    }
}

impl View for DownloadFailure {
    type V = FailureView;

    open spec fn view(&self) -> FailureView {
        match self {
            DownloadFailure::InvalidCid => FailureView::InvalidCid,
            DownloadFailure::StatRequest(reason) => FailureView::StatRequest(reason@),
            DownloadFailure::StatRead(reason) => FailureView::StatRead(reason@),
            DownloadFailure::StatParse(reason) => FailureView::StatParse(reason@),
            DownloadFailure::NoSize => FailureView::NoSize,
            DownloadFailure::SizeMismatch { expected, actual } => FailureView::SizeMismatch {
                expected: *expected,
                actual: *actual,
            },
            DownloadFailure::Directory(reason) => FailureView::Directory(reason@),
            DownloadFailure::HashRead(reason) => FailureView::HashRead(reason@),
            DownloadFailure::InvalidMachineHash => FailureView::InvalidMachineHash,
            DownloadFailure::HashMismatch => FailureView::HashMismatch,
        }
    }
}

impl View for DownloadStep {
    type V = StepView;

    open spec fn view(&self) -> StepView {
        match self {
            DownloadStep::RequestStat { uri, directory_cid } => StepView::RequestStat {
                uri: uri@,
                directory_cid: directory_cid@,
            },
            DownloadStep::ReadStat { directory_cid } => StepView::ReadStat {
                directory_cid: directory_cid@,
            },
            DownloadStep::FetchDirectory { directory_cid } => StepView::FetchDirectory {
                directory_cid: directory_cid@,
            },
            DownloadStep::ReadHash { path } => StepView::ReadHash { path: path@ },
            DownloadStep::Finish { removals, outcome } => StepView::Finish {
                removals: removals@.map_values(|removal: Removal| removal@),
                outcome: match outcome {
                    Ok(()) => Ok(()),
                    Err(failure) => Err(failure@),
                },
            },
        }
    }
}

impl View for DownloadEvent {
    type V = EventView;

    open spec fn view(&self) -> EventView {
        match self {
            DownloadEvent::StatRequested(result) => EventView::StatRequested(
                match result {
                    Ok(()) => Ok(()),
                    Err(reason) => Err(reason@),
                },
            ),
            DownloadEvent::StatRead(result) => EventView::StatRead(
                match result {
                    Ok(body) => Ok(body@),
                    Err(reason) => Err(reason@),
                },
            ),
            DownloadEvent::DirectoryFetched(result) => EventView::DirectoryFetched(
                match result {
                    Ok(()) => Ok(()),
                    Err(reason) => Err(reason@),
                },
            ),
            DownloadEvent::HashRead(result) => EventView::HashRead(
                match result {
                    Ok(bytes) => Ok(bytes@),
                    Err(reason) => Err(reason@),
                },
            ),
        }
    }
}

impl DownloadJob {
    /// The download of the snapshot of a machine to the directory of the snapshots.
    pub fn new(
        cid: String,
        machine_hash: String,
        expected_size: u64,
        ipfs_url: String,
        snapshot_dir: &str,
    ) -> (job: DownloadJob)
        ensures
            job.cid@ == cid@,
            job.machine_hash@ == machine_hash@,
            job.expected_size == expected_size,
            job.ipfs_url@ == ipfs_url@,
            job.paths.are_of(snapshot_dir@, machine_hash@),
    {
        let paths: MachinePaths = MachinePaths::new(snapshot_dir, machine_hash.as_str());
        DownloadJob { cid, machine_hash, expected_size, ipfs_url, paths }
    }

    /// The download of the files of the snapshot, from the directory of this CID.
    pub fn directory_job(&self, directory_cid: &str) -> (job: DirectoryJob)
        ensures
            job.ipfs_url@ == self.ipfs_url@,
            job.cid@ == directory_cid@,
            job.out_dir@ == self.paths.directory@,
    {
        DirectoryJob {
            ipfs_url: self.ipfs_url.clone(),
            cid: directory_cid.to_owned(),
            out_dir: self.paths.directory.clone(),
        }
    }

    /// The step that ends a download that failed before the directory was touched.
    pub open spec fn failed_early(self, failure: FailureView) -> StepView {
        StepView::Finish {
            removals: seq![RemovalView::File(self.paths.lock_file@)],
            outcome: Err(failure),
        }
    }

    /// The step that ends a download that failed once the directory may be there.
    pub open spec fn failed_late(self, failure: FailureView) -> StepView {
        StepView::Finish {
            removals: seq![
                RemovalView::Directory(self.paths.directory@),
                RemovalView::File(self.paths.lock_file@),
            ],
            outcome: Err(failure),
        }
    }

    /// The step that ends a download that succeeded.
    pub open spec fn succeeded(self) -> StepView {
        StepView::Finish {
            removals: seq![RemovalView::File(self.paths.lock_file@)],
            outcome: Ok(()),
        }
    }

    /// The first step, where the CID of the request is `cid` in its canonical form.
    pub open spec fn step_after_cid(self, cid: Option<Seq<char>>) -> StepView {
        match cid {
            None => self.failed_early(FailureView::InvalidCid),
            Some(directory_cid) => StepView::RequestStat {
                uri: self.ipfs_url@ + "/api/v0/dag/stat?arg="@ + self.cid@,
                directory_cid,
            },
        }
    }

    /// The step after the body of the answer was read, where `size` is the size that it gives.
    pub open spec fn step_after_size(
        self,
        directory_cid: Seq<char>,
        size: Result<Option<u64>, Seq<char>>,
    ) -> StepView {
        match size {
            Err(reason) => self.failed_early(FailureView::StatParse(reason)),
            Ok(None) => self.failed_early(FailureView::NoSize),
            Ok(Some(actual)) => if actual != self.expected_size {
                self.failed_early(
                    FailureView::SizeMismatch { expected: self.expected_size, actual },
                )
            } else {
                StepView::FetchDirectory { directory_cid }
            },
        }
    }

    /// The step after the hash of the machine was read.
    pub open spec fn step_after_hash(self, found: Seq<u8>) -> StepView {
        match decoded(self.machine_hash@) {
            None => self.failed_late(FailureView::InvalidMachineHash),
            Some(expected) => if found != expected {
                self.failed_late(FailureView::HashMismatch)
            } else {
                self.succeeded()
            },
        }
    }

    /// The step after `step`, where `event` became of it.
    pub open spec fn step_after(self, step: StepView, event: EventView) -> StepView {
        match (step, event) {
            (StepView::RequestStat { directory_cid, .. }, EventView::StatRequested(result)) =>
                match result {
                    Err(reason) => self.failed_early(FailureView::StatRequest(reason)),
                    Ok(()) => StepView::ReadStat { directory_cid },
                },
            (StepView::ReadStat { directory_cid }, EventView::StatRead(result)) => match result {
                Err(reason) => self.failed_early(FailureView::StatRead(reason)),
                Ok(body) => self.step_after_size(directory_cid, u64_member_of(body, "Size"@)),
            },
            (StepView::FetchDirectory { .. }, EventView::DirectoryFetched(result)) => match result {
                Err(reason) => self.failed_late(FailureView::Directory(reason)),
                Ok(()) => StepView::ReadHash { path: self.paths.hash_file@ },
            },
            (StepView::ReadHash { .. }, EventView::HashRead(result)) => match result {
                Err(reason) => self.failed_late(FailureView::HashRead(reason)),
                Ok(found) => self.step_after_hash(found),
            },
            _ => step,
        }
    }

    fn fail_early(&self, failure: DownloadFailure) -> (step: DownloadStep)
        ensures
            step@ == self.failed_early(failure@),
    {
        let mut removals: Vec<Removal> = Vec::new();
        removals.push(Removal::File(self.paths.lock_file.clone()));
        let step = DownloadStep::Finish { removals, outcome: Err(failure) };
        proof {
            assert(step@->removals =~= seq![RemovalView::File(self.paths.lock_file@)]);
        }
        step
    }

    fn fail_late(&self, failure: DownloadFailure) -> (step: DownloadStep)
        ensures
            step@ == self.failed_late(failure@),
    {
        let mut removals: Vec<Removal> = Vec::new();
        removals.push(Removal::Directory(self.paths.directory.clone()));
        removals.push(Removal::File(self.paths.lock_file.clone()));
        let step = DownloadStep::Finish { removals, outcome: Err(failure) };
        proof {
            assert(step@->removals =~= seq![
                RemovalView::Directory(self.paths.directory@),
                RemovalView::File(self.paths.lock_file@),
            ]);
        }
        step
    }

    fn succeed(&self) -> (step: DownloadStep)
        ensures
            step@ == self.succeeded(),
    {
        let mut removals: Vec<Removal> = Vec::new();
        removals.push(Removal::File(self.paths.lock_file.clone()));
        let step = DownloadStep::Finish { removals, outcome: Ok(()) };
        proof {
            assert(step@->removals =~= seq![RemovalView::File(self.paths.lock_file@)]);
        }
        step
    }

    /// The first step, where the CID of the request is `cid` in its canonical form.
    pub fn after_cid(&self, cid: Option<String>) -> (step: DownloadStep)
        ensures
            step@ == self.step_after_cid(
                match cid {
                    Some(cid) => Some(cid@),
                    None => None,
                },
            ),
    {
        match cid {
            None => self.fail_early(DownloadFailure::InvalidCid),
            Some(directory_cid) => {
                let mut uri: String = self.ipfs_url.clone();
                uri.append("/api/v0/dag/stat?arg=");
                uri.append(self.cid.as_str());
                DownloadStep::RequestStat { uri, directory_cid }
            },
        }
    }

    /// The first step.
    pub fn begin(&self) -> (step: DownloadStep)
        ensures
            step@ == self.step_after_cid(canonical_cid(self.cid@)),
    {
        self.after_cid(parse_cid(self.cid.as_str()))
    }

    /// The step after the body of the answer was read, where `size` is the size that it gives.
    pub fn after_size(&self, directory_cid: String, size: Result<Option<u64>, String>) -> (step:
        DownloadStep)
        ensures
            step@ == self.step_after_size(
                directory_cid@,
                match size {
                    Ok(number) => Ok(number),
                    Err(reason) => Err(reason@),
                },
            ),
    {
        match size {
            Err(reason) => self.fail_early(DownloadFailure::StatParse(reason)),
            Ok(None) => self.fail_early(DownloadFailure::NoSize),
            Ok(Some(actual)) => if actual != self.expected_size {
                self.fail_early(
                    DownloadFailure::SizeMismatch { expected: self.expected_size, actual },
                )
            } else {
                DownloadStep::FetchDirectory { directory_cid }
            },
        }
    }

    /// The step after the hash of the machine was read.
    pub fn after_hash(&self, found: &[u8]) -> (step: DownloadStep)
        ensures
            step@ == self.step_after_hash(found@),
    {
        match decode(self.machine_hash.as_str()) {
            Err(_) => self.fail_late(DownloadFailure::InvalidMachineHash),
            Ok(expected) => if !same_bytes(found, &expected) {
                self.fail_late(DownloadFailure::HashMismatch)
            } else {
                self.succeed()
            },
        }
    }

    /// The step after `step`, where `event` became of it. An event that the step does not wait for
    /// changes nothing.
    pub fn next(&self, step: DownloadStep, event: DownloadEvent) -> (after: DownloadStep)
        ensures
            after@ == self.step_after(step@, event@),
    {
        match (step, event) {
            (
                DownloadStep::RequestStat { uri: _, directory_cid },
                DownloadEvent::StatRequested(result),
            ) => match result {
                Err(reason) => self.fail_early(DownloadFailure::StatRequest(reason)),
                Ok(()) => DownloadStep::ReadStat { directory_cid },
            },
            (DownloadStep::ReadStat { directory_cid }, DownloadEvent::StatRead(result)) =>
                match result {
                    Err(reason) => self.fail_early(DownloadFailure::StatRead(reason)),
                    Ok(body) => self.after_size(directory_cid, u64_member(&body, "Size")),
                },
            (
                DownloadStep::FetchDirectory { directory_cid: _ },
                DownloadEvent::DirectoryFetched(result),
            ) => match result {
                Err(reason) => self.fail_late(DownloadFailure::Directory(reason)),
                Ok(()) => DownloadStep::ReadHash { path: self.paths.hash_file.clone() },
            },
            (DownloadStep::ReadHash { path: _ }, DownloadEvent::HashRead(result)) => match result {
                Err(reason) => self.fail_late(DownloadFailure::HashRead(reason)),
                Ok(found) => self.after_hash(&found),
            },
            (step, _) => step,
        }
    }
}

/// The words that report a failure.
pub open spec fn failure_message(failure: FailureView) -> Seq<char> {
    match failure {
        FailureView::InvalidCid => "Invalid CID"@,
        FailureView::StatRequest(reason) => "Failed to get DAG stat: "@ + reason,
        FailureView::StatRead(reason) => "Failed to read DAG stat response: "@ + reason,
        FailureView::StatParse(reason) => "Failed to parse DAG stat response: "@ + reason,
        FailureView::NoSize => "Failed to get Size from DAG stat response"@,
        FailureView::SizeMismatch { expected, actual } => "Size mismatch: expected "@ + decimal(
            expected as nat,
        ) + ", got "@ + decimal(actual as nat),
        FailureView::Directory(reason) => "Failed to download directory: "@ + reason,
        FailureView::HashRead(reason) => "Failed to read hash file: "@ + reason,
        FailureView::InvalidMachineHash => "Invalid machine_hash: must be valid hex"@,
        FailureView::HashMismatch =>
            "Expected hash from /hash file does not match machine_hash"@,
    }
}

fn with_reason(words: &str, reason: &str) -> (message: String)
    ensures
        message@ == words@ + reason@,
{
    let mut message: String = words.to_owned();
    message.append(reason);
    message
}

impl DownloadFailure {
    /// The words that report the failure.
    pub fn message(&self) -> (message: String)
        ensures
            message@ == failure_message(self@),
    {
        match self {
            DownloadFailure::InvalidCid => "Invalid CID".to_owned(),
            DownloadFailure::StatRequest(reason) => with_reason(
                "Failed to get DAG stat: ",
                reason.as_str(),
            ),
            DownloadFailure::StatRead(reason) => with_reason(
                "Failed to read DAG stat response: ",
                reason.as_str(),
            ),
            DownloadFailure::StatParse(reason) => with_reason(
                "Failed to parse DAG stat response: ",
                reason.as_str(),
            ),
            DownloadFailure::NoSize => "Failed to get Size from DAG stat response".to_owned(),
            DownloadFailure::SizeMismatch { expected, actual } => {
                let mut message: String = "Size mismatch: expected ".to_owned();
                message.append(decimal_text(*expected).as_str());
                message.append(", got ");
                message.append(decimal_text(*actual).as_str());
                message
            },
            DownloadFailure::Directory(reason) => with_reason(
                "Failed to download directory: ",
                reason.as_str(),
            ),
            DownloadFailure::HashRead(reason) => with_reason(
                "Failed to read hash file: ",
                reason.as_str(),
            ),
            DownloadFailure::InvalidMachineHash =>
                "Invalid machine_hash: must be valid hex".to_owned(),
            DownloadFailure::HashMismatch =>
                "Expected hash from /hash file does not match machine_hash".to_owned(),
        }
    }
}

impl StepView {
    /// Whether this can become of the step.
    pub open spec fn awaits(self, event: EventView) -> bool {
        match self {
            StepView::RequestStat { .. } => event is StatRequested,
            StepView::ReadStat { .. } => event is StatRead,
            StepView::FetchDirectory { .. } => event is DirectoryFetched,
            StepView::ReadHash { .. } => event is HashRead,
            StepView::Finish { .. } => false,
        }
    }
}

impl DownloadJob {
    /// The step that a download has come to after these events.
    pub open spec fn step_after_all(self, events: Seq<EventView>) -> StepView
        decreases events.len(),
    {
        if events.len() == 0 {
            self.step_after_cid(canonical_cid(self.cid@))
        } else {
            self.step_after(self.step_after_all(events.drop_last()), events.last())
        }
    }

    /// Whether these events can become of the steps of this download.
    pub open spec fn can_see(self, events: Seq<EventView>) -> bool {
        forall|i: int|
            0 <= i < events.len() ==> (#[trigger] self.step_after_all(events.take(i))).awaits(
                events[i],
            )
    }

    proof fn lemma_can_see_front(self, events: Seq<EventView>)
        requires
            events.len() > 0,
            self.can_see(events),
        ensures
            self.can_see(events.drop_last()),
            self.step_after_all(events.drop_last()).awaits(events.last()),
    {
        let front = events.drop_last();
        assert(events.take(events.len() - 1) =~= front);
        assert forall|i: int| 0 <= i < front.len() implies (#[trigger] self.step_after_all(
            front.take(i),
        )).awaits(front[i]) by {
            assert(front.take(i) =~= events.take(i));
        }
    }

    /// How many events lead to a step that is not the last one.
    spec fn position(step: StepView) -> nat {
        match step {
            StepView::RequestStat { .. } => 0,
            StepView::ReadStat { .. } => 1,
            StepView::FetchDirectory { .. } => 2,
            StepView::ReadHash { .. } => 3,
            StepView::Finish { .. } => 4,
        }
    }

    proof fn lemma_position(self, events: Seq<EventView>)
        requires
            self.can_see(events),
        ensures
            ({
                let step = self.step_after_all(events);
                if step is Finish {
                    events.len() <= 4
                } else {
                    events.len() == Self::position(step)
                }
            }),
        decreases events.len(),
    {
        if events.len() > 0 {
            self.lemma_can_see_front(events);
            self.lemma_position(events.drop_last());
        }
    }
}

/// A download ends: it takes at most four events, and after four it is over.
pub proof fn law_download_ends(job: DownloadJob, events: Seq<EventView>)
    requires
        job.can_see(events),
    ensures
        events.len() <= 4,
        events.len() == 4 ==> job.step_after_all(events) is Finish,
{
    job.lemma_position(events);
}

/// Whether a failure comes when the directory may already be there.
pub open spec fn is_late(failure: FailureView) -> bool {
    failure is Directory || failure is HashRead || failure is InvalidMachineHash
        || failure is HashMismatch
}

/// However a download ends, the lock file is taken away, once and last. The directory is taken
/// away before it exactly where the download failed once the directory may be there.
pub proof fn law_lock_file_is_always_removed(job: DownloadJob, events: Seq<EventView>)
    requires
        job.can_see(events),
        job.step_after_all(events) is Finish,
    ensures
        job.step_after_all(events)->removals == (match job.step_after_all(events)->outcome {
            Err(failure) if is_late(failure) => seq![
                RemovalView::Directory(job.paths.directory@),
                RemovalView::File(job.paths.lock_file@),
            ],
            _ => seq![RemovalView::File(job.paths.lock_file@)],
        }),
{
    if events.len() > 0 {
        job.lemma_can_see_front(events);
    }
}

/// A download succeeds exactly where the CID is one, the directory has the expected size, it was
/// downloaded, and its hash file holds the bytes of the hash of the machine.
pub proof fn law_download_succeeds(job: DownloadJob, events: Seq<EventView>)
    requires
        job.can_see(events),
    ensures
        job.step_after_all(events) == job.succeeded() <==> {
            &&& canonical_cid(job.cid@) is Some
            &&& events.len() == 4
            &&& events[0] matches EventView::StatRequested(Ok(_))
            &&& events[1] matches EventView::StatRead(Ok(body)) && u64_member_of(body, "Size"@)
                == Ok::<Option<u64>, Seq<char>>(Some(job.expected_size))
            &&& events[2] matches EventView::DirectoryFetched(Ok(_))
            &&& events[3] matches EventView::HashRead(Ok(found)) && decoded(job.machine_hash@)
                == Some(found)
        },
{
    job.lemma_position(events);
    let one = events.take(1);
    let two = events.take(2);
    let three = events.take(3);
    if events.len() == 4 {
        assert(events.drop_last() =~= three);
        assert(three.drop_last() =~= two);
        assert(two.drop_last() =~= one);
        assert(one.drop_last() =~= events.take(0));
        assert(events.take(0) =~= Seq::empty());
        assert(job.step_after_all(events.take(0)).awaits(events[0]));
        assert(job.step_after_all(one).awaits(events[1]));
        assert(job.step_after_all(two).awaits(events[2]));
        assert(job.step_after_all(three).awaits(events[3]));
    } else if job.step_after_all(events) == job.succeeded() && events.len() > 0 {
        job.lemma_can_see_front(events);
        job.lemma_position(events.drop_last());
    }
}

/// A download asks for the directory of the CID of the request in its canonical form, and for no
/// other.
pub proof fn law_download_keeps_its_cid(job: DownloadJob, events: Seq<EventView>)
    requires
        job.can_see(events),
    ensures
        match job.step_after_all(events) {
            StepView::RequestStat { directory_cid, .. } => canonical_cid(job.cid@) == Some(
                directory_cid,
            ),
            StepView::ReadStat { directory_cid } => canonical_cid(job.cid@) == Some(directory_cid),
            StepView::FetchDirectory { directory_cid } => canonical_cid(job.cid@) == Some(
                directory_cid,
            ),
            _ => true,
        },
    decreases events.len(),
{
    if events.len() > 0 {
        job.lemma_can_see_front(events);
        law_download_keeps_its_cid(job, events.drop_last());
    }
}

/// A download of the snapshot of a machine stays with that machine: the hash is read from its
/// directory, and nothing is taken away but that directory and its lock file.
pub proof fn law_download_stays_with_its_machine(
    job: DownloadJob,
    snapshot_dir: Seq<char>,
    events: Seq<EventView>,
)
    requires
        job.paths.are_of(snapshot_dir, job.machine_hash@),
        job.can_see(events),
    ensures
        ({
            let directory = machine_directory(snapshot_dir, job.machine_hash@);
            match job.step_after_all(events) {
                StepView::ReadHash { path } => path == directory + "/hash"@,
                StepView::Finish { removals, .. } => forall|i: int|
                    0 <= i < removals.len() ==> #[trigger] removals[i] == RemovalView::Directory(
                        directory,
                    ) || removals[i] == RemovalView::File(directory + ".lock"@),
                _ => true,
            }
        }),
{
    if events.len() > 0 {
        job.lemma_can_see_front(events);
    }
}

/// A job for the hash of a machine never fails because the hash cannot be read.
pub proof fn law_machine_hash_is_readable(job: DownloadJob, events: Seq<EventView>)
    requires
        is_machine_hash(job.machine_hash@),
        job.can_see(events),
        job.step_after_all(events) is Finish,
    ensures
        job.step_after_all(events)->outcome != Err::<(), FailureView>(
            FailureView::InvalidMachineHash,
        ),
{
    law_machine_hash_is_32_bytes(job.machine_hash@);
    if events.len() > 0 {
        job.lemma_can_see_front(events);
    }
}

/// What is on disk after something was taken away.
pub open spec fn disk_without(disk: Disk, paths: MachinePaths, removal: RemovalView) -> Disk {
    match removal {
        RemovalView::Directory(path) => Disk {
            directory: disk.directory && path != paths.directory@,
            ..disk
        },
        RemovalView::File(path) => Disk {
            lock_file: disk.lock_file && path != paths.lock_file@,
            ..disk
        },
    }
}

/// What is on disk after all of these were taken away.
pub open spec fn disk_without_all(
    disk: Disk,
    paths: MachinePaths,
    removals: Seq<RemovalView>,
) -> Disk
    decreases removals.len(),
{
    if removals.len() == 0 {
        disk
    } else {
        disk_without(
            disk_without_all(disk, paths, removals.drop_last()),
            paths,
            removals.last(),
        )
    }
}

/// The request after a download: where the download succeeded, the snapshot is ready; where it
/// failed, the request starts a download again. A download that failed early has not made the
/// directory, and one that succeeded has.
pub proof fn law_request_after_download(job: DownloadJob, events: Seq<EventView>, disk: Disk)
    requires
        job.can_see(events),
        job.step_after_all(events) is Finish,
        disk.obstacle is None,
        match job.step_after_all(events)->outcome {
            Ok(()) => disk.directory,
            Err(failure) => is_late(failure) || !disk.directory,
        },
    ensures
        disk_without_all(disk, job.paths, job.step_after_all(events)->removals).answer() == (
        match job.step_after_all(events)->outcome {
            Ok(()) => state_step("ready"@, false),
            Err(_) => state_step("started_download"@, true),
        }),
{
    law_lock_file_is_always_removed(job, events);
    let directory = RemovalView::Directory(job.paths.directory@);
    let lock_file = RemovalView::File(job.paths.lock_file@);
    reveal_with_fuel(disk_without_all, 3);
    assert(seq![directory, lock_file].drop_last() =~= seq![directory]);
    assert(seq![directory].drop_last() =~= Seq::empty());
    assert(seq![lock_file].drop_last() =~= Seq::empty());
}

/// A download starts with a request for the stat of the CID as the request wrote it, whole and
/// behind the URL of the node, exactly where that is a CID.
pub proof fn law_whole_cid_is_asked_for(job: DownloadJob)
    ensures
        job.step_after_all(Seq::empty()) is RequestStat <==> canonical_cid(job.cid@) is Some,
        job.step_after_all(Seq::empty()) matches StepView::RequestStat { uri, .. } ==> {
            let mark = "/api/v0/dag/stat?arg="@;
            let count = job.ipfs_url@.len();
            &&& uri.len() == count + mark.len() + job.cid@.len()
            &&& uri.take(count as int) == job.ipfs_url@
            &&& uri.subrange(count as int, (count + mark.len()) as int) == mark
            &&& uri.skip((count + mark.len()) as int) == job.cid@
        },
{
    let mark = "/api/v0/dag/stat?arg="@;
    let count = job.ipfs_url@.len();
    if canonical_cid(job.cid@) is Some {
        let uri = job.step_after_all(Seq::empty())->uri;
        assert(uri.take(count as int) =~= job.ipfs_url@);
        assert(uri.subrange(count as int, (count + mark.len()) as int) =~= mark);
        assert(uri.skip((count + mark.len()) as int) =~= job.cid@);
    }
}

/// How a download ends is told from the event that it ends at. It is an invalid CID where there
/// was no event. Otherwise it is the failure of that event with the reason that the event gives, a
/// size that is missing or is not the expected one, or a hash that is not the one of the machine.
pub proof fn law_how_downloads_end(job: DownloadJob, events: Seq<EventView>)
    requires
        job.can_see(events),
        job.step_after_all(events) is Finish,
    ensures
        ({
            let outcome = job.step_after_all(events)->outcome;
            if events.len() == 0 {
                canonical_cid(job.cid@) is None && outcome == Err::<(), FailureView>(
                    FailureView::InvalidCid,
                )
            } else {
                match events.last() {
                    EventView::StatRequested(result) => result matches Err(reason) && outcome
                        == Err::<(), FailureView>(FailureView::StatRequest(reason)),
                    EventView::StatRead(Err(reason)) => outcome == Err::<(), FailureView>(
                        FailureView::StatRead(reason),
                    ),
                    EventView::StatRead(Ok(body)) => match u64_member_of(body, "Size"@) {
                        Err(reason) => outcome == Err::<(), FailureView>(
                            FailureView::StatParse(reason),
                        ),
                        Ok(None) => outcome == Err::<(), FailureView>(FailureView::NoSize),
                        Ok(Some(actual)) => actual != job.expected_size && outcome == Err::<
                            (),
                            FailureView,
                        >(FailureView::SizeMismatch { expected: job.expected_size, actual }),
                    },
                    EventView::DirectoryFetched(result) => result matches Err(reason) && outcome
                        == Err::<(), FailureView>(FailureView::Directory(reason)),
                    EventView::HashRead(Err(reason)) => outcome == Err::<(), FailureView>(
                        FailureView::HashRead(reason),
                    ),
                    EventView::HashRead(Ok(found)) => match decoded(job.machine_hash@) {
                        None => outcome == Err::<(), FailureView>(FailureView::InvalidMachineHash),
                        Some(expected) => if found == expected {
                            outcome is Ok
                        } else {
                            outcome == Err::<(), FailureView>(FailureView::HashMismatch)
                        },
                    },
                }
            }
        }),
{
    if events.len() > 0 {
        job.lemma_can_see_front(events);
    }
}

/// A download goes on in one order: the stat is requested, then read, then the directory is
/// downloaded, then the hash file of its own directory is read. Every step waits for whatever can
/// become of it.
pub proof fn law_downloads_go_on(job: DownloadJob, events: Seq<EventView>, event: EventView)
    requires
        job.can_see(events),
    ensures
        match job.step_after_all(events) {
            StepView::RequestStat { .. } => events.len() == 0,
            StepView::ReadStat { .. } => events.len() == 1,
            StepView::FetchDirectory { .. } => events.len() == 2,
            StepView::ReadHash { path } => events.len() == 3 && path == job.paths.hash_file@,
            StepView::Finish { .. } => true,
        },
        job.can_see(events.push(event)) <==> match job.step_after_all(events) {
            StepView::RequestStat { .. } => event is StatRequested,
            StepView::ReadStat { .. } => event is StatRead,
            StepView::FetchDirectory { .. } => event is DirectoryFetched,
            StepView::ReadHash { .. } => event is HashRead,
            StepView::Finish { .. } => false,
        },
        job.can_see(events.push(event)) ==> (job.step_after_all(events.push(event)) is Finish <==>
        match event {
            EventView::StatRequested(result) => result is Err,
            EventView::StatRead(Err(_)) => true,
            EventView::StatRead(Ok(body)) => u64_member_of(body, "Size"@) != Ok::<
                Option<u64>,
                Seq<char>,
            >(Some(job.expected_size)),
            EventView::DirectoryFetched(result) => result is Err,
            EventView::HashRead(_) => true,
        }),
        job.can_see(Seq::empty()),
{
    let all = events.push(event);
    job.lemma_position(events);
    assert(all.drop_last() =~= events);
    assert(all.take(events.len() as int) =~= events);
    if events.len() > 0 {
        job.lemma_can_see_front(events);
    }
    if job.step_after_all(events).awaits(event) {
        assert forall|i: int| 0 <= i < all.len() implies (#[trigger] job.step_after_all(
            all.take(i),
        )).awaits(all[i]) by {
            if i < events.len() {
                assert(all.take(i) =~= events.take(i));
            }
        }
    } else if job.can_see(all) {
        assert(job.step_after_all(all.take(events.len() as int)).awaits(all[events.len() as int]));
    }
}

/// What a step does not wait for changes nothing.
pub proof fn law_other_events_change_nothing(job: DownloadJob, step: StepView, event: EventView)
    requires
        match step {
            StepView::RequestStat { .. } => !(event is StatRequested),
            StepView::ReadStat { .. } => !(event is StatRead),
            StepView::FetchDirectory { .. } => !(event is DirectoryFetched),
            StepView::ReadHash { .. } => !(event is HashRead),
            StepView::Finish { .. } => true,
        },
    ensures
        job.step_after(step, event) == step,
{
}

/// The report of a failure names what failed and ends with the reason in full. A size that is not
/// the expected one is reported with both sizes.
pub proof fn law_messages_give_reasons(reason: Seq<char>, expected: u64, actual: u64)
    ensures
        failure_message(FailureView::StatRequest(reason)) == "Failed to get DAG stat: "@ + reason,
        failure_message(FailureView::StatRead(reason)) == "Failed to read DAG stat response: "@
            + reason,
        failure_message(FailureView::StatParse(reason)) == "Failed to parse DAG stat response: "@
            + reason,
        failure_message(FailureView::Directory(reason)) == "Failed to download directory: "@
            + reason,
        failure_message(FailureView::HashRead(reason)) == "Failed to read hash file: "@ + reason,
        failure_message(FailureView::SizeMismatch { expected, actual })
            == "Size mismatch: expected "@ + decimal(expected as nat) + ", got "@ + decimal(
            actual as nat,
        ),
        failure_message(FailureView::InvalidCid) == "Invalid CID"@,
        failure_message(FailureView::NoSize) == "Failed to get Size from DAG stat response"@,
        failure_message(FailureView::InvalidMachineHash)
            == "Invalid machine_hash: must be valid hex"@,
        failure_message(FailureView::HashMismatch)
            == "Expected hash from /hash file does not match machine_hash"@,
{
}

/// The views of removals, failures, steps and events keep every choice, every text and every byte,
/// and the removals in their order.
pub proof fn law_download_views_are_whole(
    removal: Removal,
    failure: DownloadFailure,
    step: DownloadStep,
    event: DownloadEvent,
)
    ensures
        match removal {
            Removal::Directory(path) => removal@ == RemovalView::Directory(path@),
            Removal::File(path) => removal@ == RemovalView::File(path@),
        },
        match failure {
            DownloadFailure::InvalidCid => failure@ is InvalidCid,
            DownloadFailure::StatRequest(reason) => failure@ == FailureView::StatRequest(reason@),
            DownloadFailure::StatRead(reason) => failure@ == FailureView::StatRead(reason@),
            DownloadFailure::StatParse(reason) => failure@ == FailureView::StatParse(reason@),
            DownloadFailure::NoSize => failure@ is NoSize,
            DownloadFailure::SizeMismatch { expected, actual } => failure@ == (
            FailureView::SizeMismatch { expected, actual }),
            DownloadFailure::Directory(reason) => failure@ == FailureView::Directory(reason@),
            DownloadFailure::HashRead(reason) => failure@ == FailureView::HashRead(reason@),
            DownloadFailure::InvalidMachineHash => failure@ is InvalidMachineHash,
            DownloadFailure::HashMismatch => failure@ is HashMismatch,
        },
        match step {
            DownloadStep::RequestStat { uri, directory_cid } => step@ == (StepView::RequestStat {
                uri: uri@,
                directory_cid: directory_cid@,
            }),
            DownloadStep::ReadStat { directory_cid } => step@ == (StepView::ReadStat {
                directory_cid: directory_cid@,
            }),
            DownloadStep::FetchDirectory { directory_cid } => step@ == (StepView::FetchDirectory {
                directory_cid: directory_cid@,
            }),
            DownloadStep::ReadHash { path } => step@ == (StepView::ReadHash { path: path@ }),
            DownloadStep::Finish { removals, outcome } => step@ matches StepView::Finish {
                removals: shown,
                outcome: result,
            } && {
                &&& shown.len() == removals@.len()
                &&& forall|i: int|
                    0 <= i < removals@.len() ==> #[trigger] shown[i] == removals@[i]@
                &&& result is Ok <==> outcome is Ok
                &&& outcome matches Err(failure) ==> result == Err::<(), FailureView>(failure@)
            },
        },
        match event {
            DownloadEvent::StatRequested(Ok(_)) => event@ matches EventView::StatRequested(Ok(_)),
            DownloadEvent::StatRequested(Err(reason)) => event@ == EventView::StatRequested(
                Err(reason@),
            ),
            DownloadEvent::StatRead(Ok(body)) => event@ == EventView::StatRead(Ok(body@)),
            DownloadEvent::StatRead(Err(reason)) => event@ == EventView::StatRead(Err(reason@)),
            DownloadEvent::DirectoryFetched(Ok(_)) => event@ matches EventView::DirectoryFetched(
                Ok(_),
            ),
            DownloadEvent::DirectoryFetched(Err(reason)) => event@ == EventView::DirectoryFetched(
                Err(reason@),
            ),
            DownloadEvent::HashRead(Ok(bytes)) => event@ == EventView::HashRead(Ok(bytes@)),
            DownloadEvent::HashRead(Err(reason)) => event@ == EventView::HashRead(Err(reason@)),
        },
{
}

} // verus!
