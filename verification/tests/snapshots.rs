use std::collections::BTreeMap;

use machine_operator::directory::{
    DirectoryEvent, DirectoryJob, DirectoryStep, FetchFailure, Link,
};
use machine_operator::download::{
    DownloadEvent, DownloadFailure, DownloadJob, DownloadStep, Removal,
};
use machine_operator::ensure::{EnsureStep, LockCreation, MachinePaths, Observation};

const CID_V1: &str = "bafyreibjo4xmgaevkgud7mbifn3dzp4v4lyaui4yvqp3f2bqwtxcjrdqg4";
const CID_V0: &str = "QmdfTbBqBPQ7VNxZEYEj14VmRuZBkqFbiwReogJgS1zR1n";

fn answer(step: EnsureStep) -> (u16, String, bool) {
    match step {
        EnsureStep::Answer { response, download } => (response.status, response.body, download),
        _ => panic!("no answer yet"),
    }
}

fn state(text: &str, download: bool) -> (u16, String, bool) {
    (200, format!("{{\"state\":\"{}\"}}", text), download)
}

#[test]
fn paths_of_a_machine() {
    let paths = MachinePaths::new("/snapshots", "abc");
    assert_eq!(paths.directory, "/snapshots/abc");
    assert_eq!(paths.lock_file, "/snapshots/abc.lock");
    assert_eq!(paths.hash_file, "/snapshots/abc/hash");
}

#[test]
fn a_snapshot_that_is_there() {
    let step = EnsureStep::first().next(Observation::Directory(true));
    assert!(matches!(step, EnsureStep::LookForLockFile));
    assert_eq!(answer(step.next(Observation::LockFile(false))), state("ready", false));
}

#[test]
fn a_snapshot_on_its_way() {
    let step = EnsureStep::first().next(Observation::Directory(true));
    assert_eq!(answer(step.next(Observation::LockFile(true))), state("downloading", false));
    let step = EnsureStep::first().next(Observation::Directory(false));
    let seen = Observation::LockCreation(LockCreation::AlreadyExists);
    assert_eq!(answer(step.next(seen)), state("downloading", false));
}

#[test]
fn a_snapshot_that_is_not_there() {
    let step = EnsureStep::first().next(Observation::Directory(false));
    assert!(matches!(step, EnsureStep::CreateLockFile));
    let seen = Observation::LockCreation(LockCreation::Created);
    assert_eq!(answer(step.next(seen)), state("started_download", true));
}

#[test]
fn a_lock_that_cannot_be_created() {
    let step = EnsureStep::first().next(Observation::Directory(false));
    let seen = Observation::LockCreation(LockCreation::Failed("disk full".to_string()));
    assert_eq!(
        answer(step.next(seen)),
        (500, "{\"error\":\"Failed to create lock file: disk full\"}".to_string(), false)
    );
}

#[test]
fn what_a_step_does_not_look_for_changes_nothing() {
    let step = EnsureStep::first().next(Observation::LockFile(true));
    assert!(matches!(step, EnsureStep::LookForDirectory));
}

fn job(cid: &str, machine_hash: &str) -> DownloadJob {
    DownloadJob {
        cid: cid.to_string(),
        machine_hash: machine_hash.to_string(),
        expected_size: 42,
        ipfs_url: "http://node".to_string(),
        paths: MachinePaths::new("/s", "m"),
    }
}

fn good_job() -> DownloadJob {
    job(CID_V1, &"0f".repeat(32))
}

#[test]
fn a_job_is_for_one_machine() {
    let job = DownloadJob::new(
        CID_V0.to_string(),
        "abc".to_string(),
        7,
        "http://node".to_string(),
        "/snapshots",
    );
    assert_eq!(job.cid, CID_V0);
    assert_eq!(job.machine_hash, "abc");
    assert_eq!(job.expected_size, 7);
    assert_eq!(job.ipfs_url, "http://node");
    assert_eq!(job.paths.directory, "/snapshots/abc");
    assert_eq!(job.paths.lock_file, "/snapshots/abc.lock");
    assert_eq!(job.paths.hash_file, "/snapshots/abc/hash");

    let directory = job.directory_job(CID_V1);
    assert_eq!(directory.ipfs_url, "http://node");
    assert_eq!(directory.cid, CID_V1);
    assert_eq!(directory.out_dir, "/snapshots/abc");
}

#[test]
fn a_download_keeps_the_canonical_cid() {
    let upper = format!("B{}", CID_V1[1..].to_uppercase());
    let job = job(&upper, &"0f".repeat(32));
    let step = job.next(job.begin(), DownloadEvent::StatRequested(Ok(())));
    match job.next(step, DownloadEvent::StatRead(Ok(b"{\"Size\":42}".to_vec()))) {
        DownloadStep::FetchDirectory { directory_cid } => assert_eq!(directory_cid, CID_V1),
        _ => panic!("no directory asked for"),
    }
}

/// What is taken away, and the words of the failure.
fn finished(step: DownloadStep) -> (Vec<String>, Option<String>) {
    match step {
        DownloadStep::Finish { removals, outcome } => (
            removals
                .into_iter()
                .map(|removal| match removal {
                    Removal::Directory(path) => format!("directory {}", path),
                    Removal::File(path) => format!("file {}", path),
                })
                .collect(),
            outcome.err().map(|failure| failure.message()),
        ),
        _ => panic!("not finished"),
    }
}

fn early(message: &str) -> (Vec<String>, Option<String>) {
    (vec!["file /s/m.lock".to_string()], Some(message.to_string()))
}

fn late(message: &str) -> (Vec<String>, Option<String>) {
    (
        vec!["directory /s/m".to_string(), "file /s/m.lock".to_string()],
        Some(message.to_string()),
    )
}

fn after_stat(body: &str) -> DownloadStep {
    let job = good_job();
    let step = job.next(job.begin(), DownloadEvent::StatRequested(Ok(())));
    assert!(matches!(step, DownloadStep::ReadStat { .. }));
    job.next(step, DownloadEvent::StatRead(Ok(body.as_bytes().to_vec())))
}

#[test]
fn the_first_step_of_a_download() {
    match good_job().begin() {
        DownloadStep::RequestStat { uri, directory_cid } => {
            assert_eq!(uri, format!("http://node/api/v0/dag/stat?arg={}", CID_V1));
            assert_eq!(directory_cid, CID_V1);
        }
        _ => panic!("no request"),
    }
}

#[test]
fn a_cid_is_written_in_its_canonical_form() {
    let upper = format!("B{}", CID_V1[1..].to_uppercase());
    match job(&upper, "").begin() {
        DownloadStep::RequestStat { uri, directory_cid } => {
            assert_eq!(uri, format!("http://node/api/v0/dag/stat?arg={}", upper));
            assert_eq!(directory_cid, CID_V1);
        }
        _ => panic!("no request"),
    }
    match job(CID_V0, "").begin() {
        DownloadStep::RequestStat { directory_cid, .. } => assert_eq!(directory_cid, CID_V0),
        _ => panic!("no request"),
    }
}

#[test]
fn something_that_is_no_cid() {
    for text in ["", "a", "hello", "bafy!", &CID_V1[..20]] {
        assert_eq!(finished(job(text, "").begin()), early("Invalid CID"));
    }
    assert_eq!(finished(good_job().after_cid(None)), early("Invalid CID"));
}

#[test]
fn a_stat_request_that_fails() {
    let job = good_job();
    let step = job.next(job.begin(), DownloadEvent::StatRequested(Err("refused".to_string())));
    assert_eq!(finished(step), early("Failed to get DAG stat: refused"));
}

#[test]
fn a_stat_answer_that_cannot_be_read() {
    let job = good_job();
    let step = job.next(job.begin(), DownloadEvent::StatRequested(Ok(())));
    let step = job.next(step, DownloadEvent::StatRead(Err("cut".to_string())));
    assert_eq!(finished(step), early("Failed to read DAG stat response: cut"));
}

#[test]
fn a_stat_answer_that_is_no_json() {
    let error = serde_json::from_slice::<serde_json::Value>(b"{").unwrap_err();
    let message = format!("Failed to parse DAG stat response: {}", error);
    assert_eq!(finished(after_stat("{")), early(&message));
}

#[test]
fn a_stat_answer_without_a_size() {
    for body in ["{}", "[]", "7", "{\"Size\":\"42\"}", "{\"Size\":-1}", "{\"Size\":42.0}", "{\"size\":42}"] {
        assert_eq!(finished(after_stat(body)), early("Failed to get Size from DAG stat response"));
    }
}

#[test]
fn a_size_that_is_not_the_expected_one() {
    assert_eq!(
        finished(after_stat("{\"Size\":43}")),
        early("Size mismatch: expected 42, got 43")
    );
}

#[test]
fn sizes_as_they_come() {
    let job = good_job();
    let cid = || CID_V1.to_string();
    assert!(matches!(
        job.after_size(cid(), Ok(Some(42))),
        DownloadStep::FetchDirectory { .. }
    ));
    assert_eq!(
        finished(job.after_size(cid(), Ok(Some(0)))),
        early("Size mismatch: expected 42, got 0")
    );
    assert_eq!(
        finished(job.after_size(cid(), Ok(None))),
        early("Failed to get Size from DAG stat response")
    );
    assert_eq!(
        finished(job.after_size(cid(), Err("bad".to_string()))),
        early("Failed to parse DAG stat response: bad")
    );
}

#[test]
fn a_directory_that_cannot_be_fetched() {
    let step = after_stat("{\"Size\":42,\"NumBlocks\":3}");
    match &step {
        DownloadStep::FetchDirectory { directory_cid } => assert_eq!(directory_cid, CID_V1),
        _ => panic!("no directory asked for"),
    }
    let step = good_job().next(step, DownloadEvent::DirectoryFetched(Err("gone".to_string())));
    assert_eq!(finished(step), late("Failed to download directory: gone"));
}

fn after_directory() -> DownloadStep {
    let step = good_job().next(after_stat("{\"Size\":42}"), DownloadEvent::DirectoryFetched(Ok(())));
    match &step {
        DownloadStep::ReadHash { path } => assert_eq!(path, "/s/m/hash"),
        _ => panic!("no hash asked for"),
    }
    step
}

#[test]
fn a_hash_file_that_cannot_be_read() {
    let event = DownloadEvent::HashRead(Err("no file".to_string()));
    assert_eq!(
        finished(good_job().next(after_directory(), event)),
        late("Failed to read hash file: no file")
    );
}

#[test]
fn a_hash_file_of_another_machine() {
    for found in [vec![0x0f; 31], vec![0xf0; 32], vec![]] {
        let event = DownloadEvent::HashRead(Ok(found));
        assert_eq!(
            finished(good_job().next(after_directory(), event)),
            late("Expected hash from /hash file does not match machine_hash")
        );
    }
}

#[test]
fn a_hash_that_is_no_hex() {
    assert_eq!(
        finished(job(CID_V1, "xyz").after_hash(&[])),
        late("Invalid machine_hash: must be valid hex")
    );
}

#[test]
fn a_download_that_succeeds() {
    let event = DownloadEvent::HashRead(Ok(vec![0x0f; 32]));
    let step = good_job().next(after_directory(), event);
    assert_eq!(finished(step), (vec!["file /s/m.lock".to_string()], None));
}

#[test]
fn an_event_that_a_step_does_not_wait_for() {
    let job = good_job();
    let step = job.next(job.begin(), DownloadEvent::DirectoryFetched(Ok(())));
    assert!(matches!(step, DownloadStep::RequestStat { .. }));
    let step = job.next(
        DownloadStep::Finish { removals: vec![], outcome: Err(DownloadFailure::NoSize) },
        DownloadEvent::StatRequested(Ok(())),
    );
    assert!(matches!(step, DownloadStep::Finish { outcome: Err(DownloadFailure::NoSize), .. }));
}

fn directory_job() -> DirectoryJob {
    DirectoryJob {
        ipfs_url: "http://node".to_string(),
        cid: "bafy".to_string(),
        out_dir: "/s/m".to_string(),
    }
}

fn link(name: &str, hash: &str) -> Link {
    Link { name: name.to_string(), hash: hash.to_string() }
}

fn listed(objects: Vec<Vec<Link>>) -> DirectoryStep {
    let job = directory_job();
    job.next(job.begin(), DirectoryEvent::Listed(Ok(objects)))
}

fn result(step: DirectoryStep) -> Result<(), String> {
    match step {
        DirectoryStep::Finish(result) => result,
        _ => panic!("not finished"),
    }
}

#[test]
fn links_are_fetched_in_order() {
    let job = directory_job();
    match job.begin() {
        DirectoryStep::List { path } => assert_eq!(path, "/ipfs/bafy"),
        _ => panic!("no list asked for"),
    }
    let objects = vec![vec![link("hash", "c1"), link("config", "c2")], vec![link("other", "c3")]];
    let mut step = listed(objects);
    assert!(matches!(step, DirectoryStep::CreateDirectory { .. }));
    step = job.next(step, DirectoryEvent::Created(Ok(())));
    for (uri_expected, path_expected) in [
        ("http://node/api/v0/dag/export?arg=c1", "/s/m/hash"),
        ("http://node/api/v0/dag/export?arg=c2", "/s/m/config"),
    ] {
        match &step {
            DirectoryStep::Fetch { uri, file_path, .. } => {
                assert_eq!(uri, uri_expected);
                assert_eq!(file_path, path_expected);
            }
            _ => panic!("nothing to fetch"),
        }
        step = job.next(step, DirectoryEvent::Fetched(Ok(())));
    }
    assert_eq!(result(step), Ok(()));
}

#[test]
fn an_empty_directory_is_done_at_once() {
    let step = directory_job().next(listed(vec![vec![]]), DirectoryEvent::Created(Ok(())));
    assert_eq!(result(step), Ok(()));
}

#[test]
fn a_list_without_objects() {
    assert_eq!(result(listed(vec![])), Err("No objects in IPFS ls response".to_string()));
}

#[test]
fn a_list_that_does_not_come() {
    let job = directory_job();
    let step = job.next(job.begin(), DirectoryEvent::Listed(Err("down".to_string())));
    assert_eq!(result(step), Err("down".to_string()));
}

#[test]
fn a_directory_that_cannot_be_created() {
    let step = listed(vec![vec![link("a", "b")]]);
    let step = directory_job().next(step, DirectoryEvent::Created(Err("denied".to_string())));
    assert_eq!(result(step), Err("denied".to_string()));
}

#[test]
fn files_that_cannot_be_fetched() {
    let job = directory_job();
    let fetch = || {
        job.next(listed(vec![vec![link("a", "b"), link("c", "d")]]), DirectoryEvent::Created(Ok(())))
    };
    let step = job.next(
        fetch(),
        DirectoryEvent::Fetched(Err(FetchFailure::Request("refused".to_string()))),
    );
    assert_eq!(result(step), Err("Error downloading file a: refused".to_string()));
    let step = job.next(
        fetch(),
        DirectoryEvent::Fetched(Err(FetchFailure::Store("exists".to_string()))),
    );
    assert_eq!(result(step), Err("exists".to_string()));
}

/// Carries out a whole download on a disk of paths and contents, on which a file is stored only
/// where there is none.
fn download(objects: &[&[(&str, &str)]], disk: &mut BTreeMap<String, String>) -> Result<(), String> {
    let job = directory_job();
    let mut step = job.begin();
    loop {
        let event = match step {
            DirectoryStep::List { .. } => DirectoryEvent::Listed(Ok(objects
                .iter()
                .map(|links| links.iter().map(|(name, hash)| link(name, hash)).collect())
                .collect())),
            DirectoryStep::CreateDirectory { .. } => DirectoryEvent::Created(Ok(())),
            DirectoryStep::Fetch { ref uri, ref file_path, .. } => {
                if disk.contains_key(file_path) {
                    DirectoryEvent::Fetched(Err(FetchFailure::Store("exists".to_string())))
                } else {
                    disk.insert(file_path.clone(), uri.clone());
                    DirectoryEvent::Fetched(Ok(()))
                }
            }
            DirectoryStep::Finish(result) => return result,
        };
        step = job.next(step, event);
    }
}

fn disk(files: &[(&str, &str)]) -> BTreeMap<String, String> {
    files.iter().map(|(path, content)| (path.to_string(), content.to_string())).collect()
}

const EXPORT_C1: &str = "http://node/api/v0/dag/export?arg=c1";
const EXPORT_C2: &str = "http://node/api/v0/dag/export?arg=c2";

#[test]
fn a_second_download_changes_nothing() {
    let objects: [&[(&str, &str)]; 2] = [&[("hash", "c1"), ("config", "c2")], &[("other", "c3")]];
    let mut files = disk(&[("/s/m.lock", "")]);
    let first = [("/s/m.lock", ""), ("/s/m/hash", EXPORT_C1), ("/s/m/config", EXPORT_C2)];
    assert_eq!(download(&objects, &mut files), Ok(()));
    assert_eq!(files, disk(&first));
    assert_eq!(download(&objects, &mut files), Err("exists".to_string()));
    assert_eq!(files, disk(&first));
}

#[test]
fn a_second_download_of_nothing_is_done_again() {
    let mut files = disk(&[]);
    assert_eq!(download(&[&[]], &mut files), Ok(()));
    assert_eq!(download(&[&[]], &mut files), Ok(()));
    assert_eq!(files, disk(&[]));
}

#[test]
fn a_file_that_is_there_is_kept() {
    let mut files = disk(&[("/s/m/config", "mine")]);
    let objects: [&[(&str, &str)]; 1] = [&[("hash", "c1"), ("config", "c2")]];
    assert_eq!(download(&objects, &mut files), Err("exists".to_string()));
    assert_eq!(files, disk(&[("/s/m/config", "mine"), ("/s/m/hash", EXPORT_C1)]));
}

#[test]
fn two_links_of_one_name_are_never_done() {
    let mut files = disk(&[]);
    let objects: [&[(&str, &str)]; 1] = [&[("hash", "c1"), ("hash", "c2")]];
    assert_eq!(download(&objects, &mut files), Err("exists".to_string()));
    assert_eq!(files, disk(&[("/s/m/hash", EXPORT_C1)]));
}

#[test]
fn a_link_that_is_none_of_the_links() {
    let job = directory_job();
    for index in [1, 2, usize::MAX] {
        for outcome in [
            Ok(()),
            Err(FetchFailure::Request("refused".to_string())),
            Err(FetchFailure::Store("exists".to_string())),
        ] {
            let step = DirectoryStep::Fetch {
                links: vec![link("a", "b")],
                index,
                uri: "u".to_string(),
                file_path: "p".to_string(),
            };
            match job.next(step, DirectoryEvent::Fetched(outcome)) {
                DirectoryStep::Fetch { links, index: same, uri, file_path } => {
                    assert_eq!(links.len(), 1);
                    assert_eq!(same, index);
                    assert_eq!((uri.as_str(), file_path.as_str()), ("u", "p"));
                }
                _ => panic!("something changed"),
            }
        }
    }
}

#[test]
fn a_failed_download_keeps_the_earlier_files() {
    let mut files = disk(&[("/s/m/state", "mine")]);
    let objects: [&[(&str, &str)]; 1] =
        [&[("hash", "c1"), ("config", "c2"), ("state", "c3"), ("more", "c4")]];
    assert_eq!(download(&objects, &mut files), Err("exists".to_string()));
    assert_eq!(
        files,
        disk(&[("/s/m/hash", EXPORT_C1), ("/s/m/config", EXPORT_C2), ("/s/m/state", "mine")])
    );
}
