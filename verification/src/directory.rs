//! The download of the directory of a snapshot from an IPFS node, link by link.

use vstd::prelude::*;
use vstd::string::*;

verus! {

/// A directory to download.
pub struct DirectoryJob {
    /// Where the API of the IPFS node is.
    pub ipfs_url: String,
    /// The CID of the directory.
    pub cid: String,
    /// Where the files go.
    pub out_dir: String,
}

/// An entry of a directory.
pub struct Link {
    pub name: String,
    pub hash: String,
}

/// An entry of a directory, with texts as plain sequences.
pub ghost struct LinkView {
    pub name: Seq<char>,
    pub hash: Seq<char>,
}

impl View for Link {
    type V = LinkView;

    open spec fn view(&self) -> LinkView {
        LinkView { name: self.name@, hash: self.hash@ }
    }
}

/// The entries, with texts as plain sequences.
pub open spec fn links_view(links: Seq<Link>) -> Seq<LinkView> {
    links.map_values(|link: Link| link@)
}

/// What to do next for a directory.
pub enum DirectoryStep {
    /// List this path.
    List { path: String },
    /// Create the directory that the files go to.
    CreateDirectory { links: Vec<Link> },
    /// Post a request to this URI and store the answer in this file, which must be new.
    Fetch { links: Vec<Link>, index: usize, uri: String, file_path: String },
    /// Be done, or give up for this reason.
    Finish(Result<(), String>),
}

/// Why a file is not there.
pub enum FetchFailure {
    /// The request failed.
    Request(String),
    /// The file could not be opened, or the answer could not be stored in it.
    Store(String),
}

/// What became of a step.
pub enum DirectoryEvent {
    /// The links of each object listed, or why there is no list.
    Listed(Result<Vec<Vec<Link>>, String>),
    /// Whether the directory is there, or why not.
    Created(Result<(), String>),
    /// Whether the file is there, or why not.
    Fetched(Result<(), FetchFailure>),
}

/// A step, with texts as plain sequences.
pub ghost enum DirectoryStepView {
    List { path: Seq<char> },
    CreateDirectory { links: Seq<LinkView> },
    Fetch { links: Seq<LinkView>, index: nat, uri: Seq<char>, file_path: Seq<char> },
    Finish(Result<(), Seq<char>>),
}

/// What became of a step, with texts as plain sequences.
pub ghost enum DirectoryEventView {
    Listed(Result<Seq<Seq<LinkView>>, Seq<char>>),
    Created(Result<(), Seq<char>>),
    Fetched,
    RequestFailed(Seq<char>),
    StoreFailed(Seq<char>),
}

impl View for DirectoryStep {
    type V = DirectoryStepView;

    open spec fn view(&self) -> DirectoryStepView {
        match self {
            DirectoryStep::List { path } => DirectoryStepView::List { path: path@ },
            DirectoryStep::CreateDirectory { links } => DirectoryStepView::CreateDirectory {
                links: links_view(links@),
            },
            DirectoryStep::Fetch { links, index, uri, file_path } => DirectoryStepView::Fetch {
                links: links_view(links@),
                index: *index as nat,
                uri: uri@,
                file_path: file_path@,
            },
            DirectoryStep::Finish(result) => DirectoryStepView::Finish(
                match result {
                    Ok(()) => Ok(()),
                    Err(reason) => Err(reason@),
                },
            ),
        }
    }
}

impl View for DirectoryEvent {
    type V = DirectoryEventView;

    open spec fn view(&self) -> DirectoryEventView {
        match self {
            DirectoryEvent::Listed(Ok(objects)) => DirectoryEventView::Listed(
                Ok(objects@.map_values(|links: Vec<Link>| links_view(links@))),
            ),
            DirectoryEvent::Listed(Err(reason)) => DirectoryEventView::Listed(Err(reason@)),
            DirectoryEvent::Created(Ok(())) => DirectoryEventView::Created(Ok(())),
            DirectoryEvent::Created(Err(reason)) => DirectoryEventView::Created(Err(reason@)),
            DirectoryEvent::Fetched(Ok(())) => DirectoryEventView::Fetched,
            DirectoryEvent::Fetched(Err(FetchFailure::Request(reason))) =>
                DirectoryEventView::RequestFailed(reason@),
            DirectoryEvent::Fetched(Err(FetchFailure::Store(reason))) =>
                DirectoryEventView::StoreFailed(reason@),
        }
    }
}

impl DirectoryJob {
    /// Where the file of a link goes.
    pub open spec fn target(self, link: LinkView) -> Seq<char> {
        self.out_dir@ + "/"@ + link.name
    }

    /// What a link is fetched from.
    pub open spec fn source(self, link: LinkView) -> Seq<char> {
        self.ipfs_url@ + "/api/v0/dag/export?arg="@ + link.hash
    }

    /// The first step.
    pub open spec fn first_step(self) -> DirectoryStepView {
        DirectoryStepView::List { path: "/ipfs/"@ + self.cid@ }
    }

    /// The step for the link at `index`: fetch it, or be done where there are no more.
    pub open spec fn step_at(self, links: Seq<LinkView>, index: nat) -> DirectoryStepView {
        if index < links.len() {
            DirectoryStepView::Fetch {
                links,
                index,
                uri: self.source(links[index as int]),
                file_path: self.target(links[index as int]),
            }
        } else {
            DirectoryStepView::Finish(Ok(()))
        }
    }

    /// The step after `step`, where `event` became of it.
    pub open spec fn step_after(
        self,
        step: DirectoryStepView,
        event: DirectoryEventView,
    ) -> DirectoryStepView {
        match (step, event) {
            (DirectoryStepView::List { .. }, DirectoryEventView::Listed(result)) => match result {
                Err(reason) => DirectoryStepView::Finish(Err(reason)),
                Ok(objects) => if objects.len() == 0 {
                    DirectoryStepView::Finish(Err("No objects in IPFS ls response"@))
                } else {
                    DirectoryStepView::CreateDirectory { links: objects[0] }
                },
            },
            (DirectoryStepView::CreateDirectory { links }, DirectoryEventView::Created(result)) =>
                match result {
                    Err(reason) => DirectoryStepView::Finish(Err(reason)),
                    Ok(()) => self.step_at(links, 0),
                },
            (DirectoryStepView::Fetch { links, index, .. }, event) => if index < links.len() {
                match event {
                    DirectoryEventView::Fetched => self.step_at(links, index + 1),
                    DirectoryEventView::RequestFailed(reason) => DirectoryStepView::Finish(
                        Err(
                            "Error downloading file "@ + links[index as int].name + ": "@ + reason,
                        ),
                    ),
                    DirectoryEventView::StoreFailed(reason) => DirectoryStepView::Finish(
                        Err(reason),
                    ),
                    _ => step,
                }
            } else {
                step
            },
            _ => step,
        }
    }

    /// The first step.
    pub fn begin(&self) -> (step: DirectoryStep)
        ensures
            step@ == self.first_step(),
    {
        let mut path: String = "/ipfs/".to_owned();
        path.append(self.cid.as_str());
        DirectoryStep::List { path }
    }

    fn at(&self, links: Vec<Link>, index: usize) -> (step: DirectoryStep)
        ensures
            step@ == self.step_at(links_view(links@), index as nat),
    {
        if index < links.len() {
            let mut uri: String = self.ipfs_url.clone();
            uri.append("/api/v0/dag/export?arg=");
            uri.append(links[index].hash.as_str());
            let mut file_path: String = self.out_dir.clone();
            file_path.append("/");
            file_path.append(links[index].name.as_str());
            DirectoryStep::Fetch { links, index, uri, file_path }
        } else {
            DirectoryStep::Finish(Ok(()))
        }
    }

    /// The step after `step`, where `event` became of it. An event that the step does not wait for
    /// changes nothing, and a step to fetch a link that is none of the links waits for nothing.
    pub fn next(&self, step: DirectoryStep, event: DirectoryEvent) -> (after: DirectoryStep)
        ensures
            after@ == self.step_after(step@, event@),
    {
        match (step, event) {
            (DirectoryStep::List { path: _ }, DirectoryEvent::Listed(result)) => match result {
                Err(reason) => DirectoryStep::Finish(Err(reason)),
                Ok(mut objects) => if objects.len() == 0 {
                    DirectoryStep::Finish(Err("No objects in IPFS ls response".to_owned()))
                } else {
                    let links: Vec<Link> = objects.swap_remove(0);
                    DirectoryStep::CreateDirectory { links }
                },
            },
            (DirectoryStep::CreateDirectory { links }, DirectoryEvent::Created(result)) =>
                match result {
                    Err(reason) => DirectoryStep::Finish(Err(reason)),
                    Ok(()) => self.at(links, 0),
                },
            (
                DirectoryStep::Fetch { links, index, uri, file_path },
                DirectoryEvent::Fetched(result),
            ) => if index < links.len() {
                match result {
                    Ok(()) => self.at(links, index + 1),
                    Err(FetchFailure::Request(reason)) => {
                        let mut message: String = "Error downloading file ".to_owned();
                        message.append(links[index].name.as_str());
                        message.append(": ");
                        message.append(reason.as_str());
                        DirectoryStep::Finish(Err(message))
                    },
                    Err(FetchFailure::Store(reason)) => DirectoryStep::Finish(Err(reason)),
                }
            } else {
                DirectoryStep::Fetch { links, index, uri, file_path }
            },
            (step, _) => step,
        }
    }
}

impl DirectoryStepView {
    /// Whether this can become of the step.
    pub open spec fn awaits(self, event: DirectoryEventView) -> bool {
        match self {
            DirectoryStepView::List { .. } => event is Listed,
            DirectoryStepView::CreateDirectory { .. } => event is Created,
            DirectoryStepView::Fetch { links, index, .. } => index < links.len() && (event is Fetched
                || event is RequestFailed || event is StoreFailed),
            DirectoryStepView::Finish(_) => false,
        }
    }
}

impl DirectoryJob {
    /// The step that a download has come to after these events.
    pub open spec fn step_after_all(self, events: Seq<DirectoryEventView>) -> DirectoryStepView
        decreases events.len(),
    {
        if events.len() == 0 {
            self.first_step()
        } else {
            self.step_after(self.step_after_all(events.drop_last()), events.last())
        }
    }

    /// Whether these events can become of the steps of this download.
    pub open spec fn can_see(self, events: Seq<DirectoryEventView>) -> bool {
        forall|i: int|
            0 <= i < events.len() ==> (#[trigger] self.step_after_all(events.take(i))).awaits(
                events[i],
            )
    }

    proof fn lemma_can_see_front(self, events: Seq<DirectoryEventView>)
        requires
            events.len() > 0,
            self.can_see(events),
        ensures
            self.can_see(events.drop_last()),
            self.step_after_all(events.drop_last()).awaits(events.last()),
    {
        let front = events.drop_last();
        assert(events.take(events.len() - 1) =~= front);
        assert forall|i: int| 0 <= i < front.len() implies (#[trigger] self.step_after_all(
            front.take(i),
        )).awaits(front[i]) by {
            assert(front.take(i) =~= events.take(i));
        }
    }

    /// The events of a download in which nothing fails and `count` links are fetched.
    pub open spec fn smooth_events(
        objects: Seq<Seq<LinkView>>,
        count: nat,
    ) -> Seq<DirectoryEventView> {
        seq![DirectoryEventView::Listed(Ok(objects)), DirectoryEventView::Created(Ok(()))]
            + Seq::new(count, |i: int| DirectoryEventView::Fetched)
    }
}

/// Where nothing fails, the links of the first object are fetched one after the other, each once
/// and in order, and then the download is done.
pub proof fn law_links_are_fetched_in_order(
    job: DirectoryJob,
    objects: Seq<Seq<LinkView>>,
    count: nat,
)
    requires
        objects.len() > 0,
        count <= objects[0].len(),
    ensures
        job.step_after_all(DirectoryJob::smooth_events(objects, count)) == job.step_at(
            objects[0],
            count,
        ),
    decreases count,
{
    let events = DirectoryJob::smooth_events(objects, count);
    if count == 0 {
        let listed = seq![DirectoryEventView::Listed(Ok(objects))];
        assert(events.drop_last() =~= listed);
        assert(listed.drop_last() =~= Seq::empty());
        assert(events.last() == DirectoryEventView::Created(Ok(())));
        assert(job.step_after_all(Seq::empty()) == job.first_step());
        assert(job.step_after_all(listed) == DirectoryStepView::CreateDirectory {
            links: objects[0],
        });
    } else {
        let before = (count - 1) as nat;
        law_links_are_fetched_in_order(job, objects, before);
        assert(events.drop_last() =~= DirectoryJob::smooth_events(objects, before));
        assert(events.last() == DirectoryEventView::Fetched);
    }
}

proof fn lemma_events_so_far(job: DirectoryJob, events: Seq<DirectoryEventView>)
    requires
        job.can_see(events),
    ensures
        match job.step_after_all(events) {
            DirectoryStepView::List { .. } => events.len() == 0,
            DirectoryStepView::CreateDirectory { links } => {
                &&& events.len() == 1
                &&& events[0] matches DirectoryEventView::Listed(Ok(objects)) && objects.len() > 0
                    && links == objects[0]
            },
            DirectoryStepView::Fetch { links, index, uri, file_path } => {
                &&& events.len() == index + 2
                &&& index < links.len()
                &&& uri == job.source(links[index as int])
                &&& file_path == job.target(links[index as int])
                &&& events[0] matches DirectoryEventView::Listed(Ok(objects)) && objects.len() > 0
                    && links == objects[0]
                &&& events[1] matches DirectoryEventView::Created(Ok(_))
                &&& forall|i: int| 2 <= i < events.len() ==> (#[trigger] events[i]) is Fetched
            },
            DirectoryStepView::Finish(Ok(_)) => {
                &&& events[0] matches DirectoryEventView::Listed(Ok(objects)) && objects.len() > 0
                    && events.len() == objects[0].len() + 2
                &&& events[1] matches DirectoryEventView::Created(Ok(_))
                &&& forall|i: int| 2 <= i < events.len() ==> (#[trigger] events[i]) is Fetched
            },
            DirectoryStepView::Finish(Err(_)) => {
                &&& events.len() > 0
                &&& events[0] matches DirectoryEventView::Listed(Ok(objects)) ==> objects.len() == 0
                    || events.len() <= objects[0].len() + 2
            },
        },
    decreases events.len(),
{
    if events.len() > 0 {
        job.lemma_can_see_front(events);
        let front = events.drop_last();
        lemma_events_so_far(job, front);
        assert(forall|i: int| 0 <= i < front.len() ==> front[i] == events[i]);
        let step = job.step_after_all(events);
        assert(step == job.step_after(job.step_after_all(front), events.last()));
    }
}

/// A download of a directory is done only where a list came with an object, the directory is
/// there, and every link of the first object was fetched.
pub proof fn law_done_means_complete(job: DirectoryJob, events: Seq<DirectoryEventView>)
    requires
        job.can_see(events),
        job.step_after_all(events) matches DirectoryStepView::Finish(Ok(_)),
    ensures
        events[0] matches DirectoryEventView::Listed(Ok(objects)) && objects.len() > 0
            && events.len() == objects[0].len() + 2,
        events[1] matches DirectoryEventView::Created(Ok(_)),
        forall|i: int| 2 <= i < events.len() ==> (#[trigger] events[i]) is Fetched,
{
    lemma_events_so_far(job, events);
}

/// A download asks for nothing but the links of the first object listed: every request goes to the
/// export of one of them, and every file is the one of its name under the directory.
pub proof fn law_only_listed_links_are_fetched(job: DirectoryJob, events: Seq<DirectoryEventView>)
    requires
        job.can_see(events),
        job.step_after_all(events) is Fetch,
    ensures
        job.step_after_all(events) matches DirectoryStepView::Fetch {
            links,
            index,
            uri,
            file_path,
        } && {
            &&& events[0] matches DirectoryEventView::Listed(Ok(objects)) && objects.len() > 0
                && links == objects[0]
            &&& index < links.len()
            &&& file_path == job.out_dir@ + "/"@ + links[index as int].name
            &&& uri == job.ipfs_url@ + "/api/v0/dag/export?arg="@ + links[index as int].hash
        },
{
    lemma_events_so_far(job, events);
}

/// A download of a directory ends: the list, the directory and one event for every link of the
/// first object are all that it takes.
pub proof fn law_directory_download_ends(
    job: DirectoryJob,
    events: Seq<DirectoryEventView>,
    objects: Seq<Seq<LinkView>>,
)
    requires
        job.can_see(events),
        events.len() > 0,
        events[0] == DirectoryEventView::Listed(Ok(objects)),
        objects.len() > 0,
    ensures
        events.len() <= objects[0].len() + 2,
        events.len() == objects[0].len() + 2 ==> job.step_after_all(events) is Finish,
{
    lemma_events_so_far(job, events);
}

/// What is on disk while a directory is downloaded. Paths are taken as they are written: two
/// spellings are two paths.
pub ghost struct Store {
    /// Whether the directory that the files go to is there.
    pub directory: bool,
    /// The files by their paths.
    pub files: Map<Seq<char>, Seq<u8>>,
}

impl Store {
    /// Whether `after` is this disk with one new file at `path`, which was not there before.
    pub open spec fn gains(self, path: Seq<char>, after: Store) -> bool {
        &&& !self.files.contains_key(path)
        &&& after.files.contains_key(path)
        &&& after == (Store { files: self.files.insert(path, after.files[path]), ..self })
    }

    /// Whether carrying out `step` on this disk can end in `event` and leave the disk as `after`.
    /// A directory that is there counts as created. A file is stored only where there was none; a
    /// store that fails may leave one behind, but again only where there was none. What the new
    /// file holds is for [`DirectoryJob::stores_exports`] to say.
    pub open spec fn can_become(
        self,
        step: DirectoryStepView,
        event: DirectoryEventView,
        after: Store,
    ) -> bool {
        match (step, event) {
            (DirectoryStepView::CreateDirectory { .. }, DirectoryEventView::Created(Ok(_))) => after
                == (Store { directory: true, ..self }),
            (DirectoryStepView::CreateDirectory { .. }, DirectoryEventView::Created(Err(_))) => {
                &&& !self.directory
                &&& after == self
            },
            (DirectoryStepView::Fetch { file_path, .. }, DirectoryEventView::Fetched) => self.gains(
                file_path,
                after,
            ),
            (DirectoryStepView::Fetch { file_path, .. }, DirectoryEventView::StoreFailed(_)) => after
                == self || self.gains(file_path, after),
            _ => after == self,
        }
    }
}

impl DirectoryJob {
    /// Whether a download can see these events while the disk goes through these stores, the first
    /// of them before the first event and one after each event.
    pub open spec fn can_run(self, events: Seq<DirectoryEventView>, stores: Seq<Store>) -> bool {
        &&& self.can_see(events)
        &&& stores.len() == events.len() + 1
        &&& forall|i: int|
            0 <= i < events.len() ==> (#[trigger] stores[i]).can_become(
                self.step_after_all(events.take(i)),
                events[i],
                stores[i + 1],
            )
    }

    /// Whether every file that was fetched holds what the node exports at the URI that it was
    /// fetched from, where `exports` gives the file behind each URI.
    pub open spec fn stores_exports(
        self,
        exports: Map<Seq<char>, Seq<u8>>,
        events: Seq<DirectoryEventView>,
        stores: Seq<Store>,
    ) -> bool {
        forall|i: int|
            0 <= i < events.len() && events[i] is Fetched ==> (self.step_after_all(
                #[trigger] events.take(i),
            ) matches DirectoryStepView::Fetch { uri, file_path, .. } ==> exports.contains_key(uri)
                && stores[i + 1].files[file_path] == exports[uri])
    }

    proof fn lemma_can_run_front(self, events: Seq<DirectoryEventView>, stores: Seq<Store>)
        requires
            events.len() > 0,
            self.can_run(events, stores),
        ensures
            self.can_run(events.drop_last(), stores.drop_last()),
            self.step_after_all(events.drop_last()).awaits(events.last()),
            stores.drop_last().last().can_become(
                self.step_after_all(events.drop_last()),
                events.last(),
                stores.last(),
            ),
            stores.drop_last()[0] == stores[0],
    {
        let front = events.drop_last();
        let back = stores.drop_last();
        self.lemma_can_see_front(events);
        assert(events.take(events.len() - 1) =~= front);
        assert(stores[events.len() - 1].can_become(
            self.step_after_all(events.take(events.len() - 1)),
            events[events.len() - 1],
            stores[events.len() as int],
        ));
        assert forall|i: int| 0 <= i < front.len() implies (#[trigger] back[i]).can_become(
            self.step_after_all(front.take(i)),
            front[i],
            back[i + 1],
        ) by {
            assert(front.take(i) =~= events.take(i));
            assert(stores[i].can_become(
                self.step_after_all(events.take(i)),
                events[i],
                stores[i + 1],
            ));
        }
    }

    proof fn lemma_stores_exports_front(
        self,
        exports: Map<Seq<char>, Seq<u8>>,
        events: Seq<DirectoryEventView>,
        stores: Seq<Store>,
    )
        requires
            events.len() > 0,
            stores.len() == events.len() + 1,
            self.stores_exports(exports, events, stores),
        ensures
            self.stores_exports(exports, events.drop_last(), stores.drop_last()),
    {
        let front = events.drop_last();
        let back = stores.drop_last();
        assert forall|i: int| 0 <= i < front.len() && front[i] is Fetched implies (
        self.step_after_all(#[trigger] front.take(i)) matches DirectoryStepView::Fetch {
            uri,
            file_path,
            ..
        } ==> exports.contains_key(uri) && back[i + 1].files[file_path] == exports[uri]) by {
            assert(front.take(i) =~= events.take(i));
        }
    }
}

/// However a download of a directory goes, every file that was there is still there with the same
/// content, and every file that was not is the target of a link of the first object listed.
pub proof fn law_files_are_kept(
    job: DirectoryJob,
    events: Seq<DirectoryEventView>,
    stores: Seq<Store>,
)
    requires
        job.can_run(events, stores),
    ensures
        forall|path: Seq<char>| #[trigger]
            stores[0].files.contains_key(path) ==> stores.last().files.contains_key(path)
                && stores.last().files[path] == stores[0].files[path],
        forall|path: Seq<char>| #[trigger]
            stores.last().files.contains_key(path) ==> stores[0].files.contains_key(path) || (
            events.len() > 0 && (events[0] matches DirectoryEventView::Listed(Ok(objects))
                && objects.len() > 0 && exists|k: int|
                0 <= k < objects[0].len() && path == job.target(#[trigger] objects[0][k]))),
        stores[0].directory ==> stores.last().directory,
    decreases events.len(),
{
    if events.len() > 0 {
        let front = events.drop_last();
        let back = stores.drop_last();
        job.lemma_can_run_front(events, stores);
        law_files_are_kept(job, front, back);
        lemma_events_so_far(job, front);
        let step = job.step_after_all(front);
        if front.len() > 0 {
            assert(front[0] == events[0]);
        }
        assert forall|path: Seq<char>| #[trigger]
            stores.last().files.contains_key(path) implies stores[0].files.contains_key(path) || (
        events.len() > 0 && (events[0] matches DirectoryEventView::Listed(Ok(objects))
            && objects.len() > 0 && exists|k: int|
            0 <= k < objects[0].len() && path == job.target(#[trigger] objects[0][k]))) by {
            if !back.last().files.contains_key(path) {
                let index = step->index as int;
                let objects = events[0]->Listed_0->Ok_0;
                assert(path == job.target(objects[0][index]));
            }
        }
    }
}

/// Whether the targets of the first `count` links were absent from `before`, are there in `after`
/// and are all different.
pub open spec fn stored_anew(
    job: DirectoryJob,
    links: Seq<LinkView>,
    count: nat,
    before: Store,
    after: Store,
) -> bool {
    &&& forall|k: int|
        0 <= k < count ==> !before.files.contains_key(job.target(#[trigger] links[k]))
            && after.files.contains_key(job.target(links[k]))
    &&& forall|j: int, k: int|
        0 <= j < k < count ==> job.target(#[trigger] links[j]) != job.target(#[trigger] links[k])
}

/// Whether every file of `after` was in `before` or is the target of one of the first `count`
/// links.
pub open spec fn nothing_else_stored(
    job: DirectoryJob,
    links: Seq<LinkView>,
    count: nat,
    before: Store,
    after: Store,
) -> bool {
    forall|path: Seq<char>| #[trigger]
        after.files.contains_key(path) ==> before.files.contains_key(path) || exists|k: int|
            0 <= k < count && path == job.target(#[trigger] links[k])
}

/// Whether the targets of the first `count` links hold what the node exports for them.
pub open spec fn exports_stored(
    job: DirectoryJob,
    links: Seq<LinkView>,
    count: nat,
    exports: Map<Seq<char>, Seq<u8>>,
    after: Store,
) -> bool {
    forall|k: int|
        0 <= k < count ==> exports.contains_key(job.source(#[trigger] links[k]))
            && after.files.contains_key(job.target(links[k])) && after.files[job.target(links[k])]
            == exports[job.source(links[k])]
}

#[verifier::rlimit(50)]
#[verifier::spinoff_prover]
proof fn lemma_stored_so_far(
    job: DirectoryJob,
    events: Seq<DirectoryEventView>,
    stores: Seq<Store>,
)
    requires
        job.can_run(events, stores),
    ensures
        match job.step_after_all(events) {
            DirectoryStepView::Fetch { links, index, .. } => {
                &&& stores.last().directory
                &&& stored_anew(job, links, index, stores[0], stores.last())
                &&& nothing_else_stored(job, links, index, stores[0], stores.last())
            },
            DirectoryStepView::Finish(Ok(_)) => {
                &&& stores.last().directory
                &&& events[0] matches DirectoryEventView::Listed(Ok(objects)) && stored_anew(
                    job,
                    objects[0],
                    objects[0].len(),
                    stores[0],
                    stores.last(),
                )
            },
            _ => stores.last().files == stores[0].files || job.step_after_all(events) is Finish,
        },
    decreases events.len(),
{
    if events.len() > 0 {
        let front = events.drop_last();
        let back = stores.drop_last();
        job.lemma_can_run_front(events, stores);
        lemma_stored_so_far(job, front, back);
        law_files_are_kept(job, front, back);
        lemma_events_so_far(job, front);
        let step = job.step_after_all(front);
        if front.len() > 0 {
            assert(front[0] == events[0]);
        }
        assert(job.step_after_all(events) == job.step_after(step, events.last()));
        if step is Fetch && events.last() is Fetched {
            let links = step->Fetch_links;
            let index = step->index;
            let path = job.target(links[index as int]);
            assert(back.last().gains(path, stores.last()));
            assert(!stores[0].files.contains_key(path));
            assert forall|k: int| 0 <= k < index + 1 implies !stores[0].files.contains_key(
                job.target(#[trigger] links[k]),
            ) && stores.last().files.contains_key(job.target(links[k])) by {
                if k < index {
                    assert(back.last().files.contains_key(job.target(links[k])));
                }
            }
            assert forall|j: int, k: int| 0 <= j < k < index + 1 implies job.target(
                #[trigger] links[j],
            ) != job.target(#[trigger] links[k]) by {
                if k == index {
                    assert(back.last().files.contains_key(job.target(links[j])));
                }
            }
            assert(stored_anew(job, links, index + 1, stores[0], stores.last()));
            assert forall|path: Seq<char>| #[trigger]
                stores.last().files.contains_key(path) implies stores[0].files.contains_key(path)
                || exists|k: int| 0 <= k < index + 1 && path == job.target(#[trigger] links[k]) by {
                if !back.last().files.contains_key(path) {
                    assert(path == job.target(links[index as int]));
                }
            }
        }
    }
}

/// A download of a directory that is done has stored every link of the first object listed in a
/// file that was not there before, no two of them in the same one, and the directory is there.
pub proof fn law_done_means_new_files(
    job: DirectoryJob,
    events: Seq<DirectoryEventView>,
    stores: Seq<Store>,
)
    requires
        job.can_run(events, stores),
        job.step_after_all(events) matches DirectoryStepView::Finish(Ok(_)),
    ensures
        stores.last().directory,
        events[0] matches DirectoryEventView::Listed(Ok(objects)) && objects.len() > 0
            && stored_anew(job, objects[0], objects[0].len(), stores[0], stores.last()),
{
    lemma_stored_so_far(job, events, stores);
    lemma_events_so_far(job, events);
}

#[verifier::rlimit(50)]
#[verifier::spinoff_prover]
proof fn lemma_exports_so_far(
    job: DirectoryJob,
    exports: Map<Seq<char>, Seq<u8>>,
    events: Seq<DirectoryEventView>,
    stores: Seq<Store>,
)
    requires
        job.can_run(events, stores),
        job.stores_exports(exports, events, stores),
    ensures
        match job.step_after_all(events) {
            DirectoryStepView::Fetch { links, index, .. } => exports_stored(
                job,
                links,
                index,
                exports,
                stores.last(),
            ),
            DirectoryStepView::Finish(Ok(_)) => {
                events[0] matches DirectoryEventView::Listed(Ok(objects)) && exports_stored(
                    job,
                    objects[0],
                    objects[0].len(),
                    exports,
                    stores.last(),
                )
            },
            _ => true,
        },
    decreases events.len(),
{
    if events.len() > 0 {
        let front = events.drop_last();
        let back = stores.drop_last();
        job.lemma_can_run_front(events, stores);
        job.lemma_stores_exports_front(exports, events, stores);
        lemma_exports_so_far(job, exports, front, back);
        lemma_events_so_far(job, front);
        let step = job.step_after_all(front);
        if front.len() > 0 {
            assert(front[0] == events[0]);
        }
        assert(job.step_after_all(events) == job.step_after(step, events.last()));
        if step is Fetch && events.last() is Fetched {
            let links = step->Fetch_links;
            let index = step->index;
            let path = job.target(links[index as int]);
            assert(back.last().gains(path, stores.last()));
            assert(events.take(events.len() - 1) =~= front);
            assert forall|k: int| 0 <= k < index + 1 implies exports.contains_key(
                job.source(#[trigger] links[k]),
            ) && stores.last().files.contains_key(job.target(links[k]))
                && stores.last().files[job.target(links[k])] == exports[job.source(links[k])] by {
                if k < index {
                    assert(back.last().files.contains_key(job.target(links[k])));
                }
            }
            assert(exports_stored(job, links, index + 1, exports, stores.last()));
        }
    }
}

/// A download of a directory that is done has stored in the file of every link of the first object
/// listed what the node exports for the hash of that link.
pub proof fn law_done_files_hold_exports(
    job: DirectoryJob,
    exports: Map<Seq<char>, Seq<u8>>,
    events: Seq<DirectoryEventView>,
    stores: Seq<Store>,
)
    requires
        job.can_run(events, stores),
        job.stores_exports(exports, events, stores),
        job.step_after_all(events) matches DirectoryStepView::Finish(Ok(_)),
    ensures
        events[0] matches DirectoryEventView::Listed(Ok(objects)) && objects.len() > 0 && (forall|
            k: int,
        |
            0 <= k < objects[0].len() ==> exports.contains_key(
                job.source(#[trigger] objects[0][k]),
            ) && stores.last().files.contains_key(job.target(objects[0][k]))
                && stores.last().files[job.target(objects[0][k])] == exports[job.source(
                objects[0][k],
            )]),
{
    lemma_exports_so_far(job, exports, events, stores);
    lemma_events_so_far(job, events);
}

/// A download of a directory that fails at a link gives up, and leaves behind the directory and
/// the files of all the links before that one, each of them new. They hold what the node exports,
/// where that is what was stored. There is no other new file, but for the one of that link where
/// the failure came while it was stored.
pub proof fn law_failed_download_keeps_earlier_files(
    job: DirectoryJob,
    exports: Map<Seq<char>, Seq<u8>>,
    events: Seq<DirectoryEventView>,
    stores: Seq<Store>,
)
    requires
        job.can_run(events, stores),
        events.len() > 0,
        events.last() is RequestFailed || events.last() is StoreFailed,
    ensures
        job.step_after_all(events) matches DirectoryStepView::Finish(Err(_)),
        stores.last().directory,
        events.len() >= 3,
        events[0] matches DirectoryEventView::Listed(Ok(objects)) && objects.len() > 0 && {
            let failed = (events.len() - 3) as nat;
            &&& failed < objects[0].len()
            &&& stored_anew(job, objects[0], failed, stores[0], stores.last())
            &&& job.stores_exports(exports, events, stores) ==> exports_stored(
                job,
                objects[0],
                failed,
                exports,
                stores.last(),
            )
            &&& nothing_else_stored(
                job,
                objects[0],
                if events.last() is StoreFailed {
                    failed + 1
                } else {
                    failed
                },
                stores[0],
                stores.last(),
            )
        },
{
    let front = events.drop_last();
    let back = stores.drop_last();
    job.lemma_can_run_front(events, stores);
    lemma_events_so_far(job, front);
    lemma_stored_so_far(job, front, back);
    if job.stores_exports(exports, events, stores) {
        job.lemma_stores_exports_front(exports, events, stores);
        lemma_exports_so_far(job, exports, front, back);
    }
    let step = job.step_after_all(front);
    assert(job.step_after_all(events) == job.step_after(step, events.last()));
    assert(front[0] == events[0]);
    let links = step->Fetch_links;
    let failed = step->index;
    assert(forall|k: int|
        0 <= k < failed ==> back.last().files.contains_key(job.target(#[trigger] links[k])));
    if events.last() is StoreFailed {
        assert forall|path: Seq<char>| #[trigger]
            stores.last().files.contains_key(path) implies stores[0].files.contains_key(path)
            || exists|k: int| 0 <= k < failed + 1 && path == job.target(#[trigger] links[k]) by {
            if !back.last().files.contains_key(path) {
                assert(path == job.target(links[failed as int]));
            }
        }
    }
}

/// Where the file of the first link is already there, a download stores nothing and is never done.
proof fn lemma_first_file_blocks(
    job: DirectoryJob,
    events: Seq<DirectoryEventView>,
    stores: Seq<Store>,
    objects: Seq<Seq<LinkView>>,
)
    requires
        job.can_run(events, stores),
        events.len() > 0 ==> events[0] == DirectoryEventView::Listed(Ok(objects)),
        objects.len() > 0,
        objects[0].len() > 0,
        stores[0].files.contains_key(job.target(objects[0][0])),
    ensures
        stores.last().files == stores[0].files,
        !(job.step_after_all(events) matches DirectoryStepView::Finish(Ok(_))),
        job.step_after_all(events) matches DirectoryStepView::Fetch { index, .. } ==> index == 0,
    decreases events.len(),
{
    if events.len() > 0 {
        let front = events.drop_last();
        let back = stores.drop_last();
        job.lemma_can_run_front(events, stores);
        if front.len() > 0 {
            assert(front[0] == events[0]);
        }
        lemma_first_file_blocks(job, front, back, objects);
        lemma_events_so_far(job, front);
        assert(job.step_after_all(events) == job.step_after(
            job.step_after_all(front),
            events.last(),
        ));
    }
}

/// Where there is nothing to fetch and the directory is there, a download stores nothing and does
/// not fail.
proof fn lemma_nothing_to_fetch(
    job: DirectoryJob,
    events: Seq<DirectoryEventView>,
    stores: Seq<Store>,
    objects: Seq<Seq<LinkView>>,
)
    requires
        job.can_run(events, stores),
        events.len() > 0 ==> events[0] == DirectoryEventView::Listed(Ok(objects)),
        objects.len() > 0,
        objects[0].len() == 0,
        stores[0].directory,
    ensures
        stores.last() == stores[0],
        !(job.step_after_all(events) matches DirectoryStepView::Finish(Err(_))),
        !(job.step_after_all(events) is Fetch),
    decreases events.len(),
{
    if events.len() > 0 {
        let front = events.drop_last();
        let back = stores.drop_last();
        job.lemma_can_run_front(events, stores);
        if front.len() > 0 {
            assert(front[0] == events[0]);
        }
        lemma_nothing_to_fetch(job, front, back, objects);
        lemma_events_so_far(job, front);
        assert(job.step_after_all(events) == job.step_after(
            job.step_after_all(front),
            events.last(),
        ));
    }
}

/// A directory is downloaded once: after a download that is done, another one that gets the same
/// list leaves the disk as it is, and ends in an error where there is a link to fetch. Where there
/// is none it is done again.
pub proof fn law_second_download_changes_nothing(
    job: DirectoryJob,
    first_events: Seq<DirectoryEventView>,
    first_stores: Seq<Store>,
    events: Seq<DirectoryEventView>,
    stores: Seq<Store>,
)
    requires
        job.can_run(first_events, first_stores),
        job.step_after_all(first_events) matches DirectoryStepView::Finish(Ok(_)),
        job.can_run(events, stores),
        stores[0] == first_stores.last(),
        events.len() > 0,
        events[0] == first_events[0],
    ensures
        stores.last() == first_stores.last(),
        job.step_after_all(events) matches DirectoryStepView::Finish(result) ==> (events[0] matches
            DirectoryEventView::Listed(Ok(objects)) && objects.len() > 0 && (result is Err
            <==> objects[0].len() > 0)),
{
    law_done_means_new_files(job, first_events, first_stores);
    law_files_are_kept(job, events, stores);
    let objects = first_events[0]->Listed_0->Ok_0;
    if objects[0].len() > 0 {
        assert(first_stores.last().files.contains_key(job.target(objects[0][0])));
        lemma_first_file_blocks(job, events, stores, objects);
    } else {
        lemma_nothing_to_fetch(job, events, stores, objects);
    }
}

/// A download starts by listing the directory of its whole CID: the path is `/ipfs/` and then the
/// CID, so downloads of different CIDs list different paths.
pub proof fn law_whole_cid_is_listed(job: DirectoryJob, other: DirectoryJob)
    ensures
        job.step_after_all(Seq::empty()) == job.first_step(),
        job.first_step() matches DirectoryStepView::List { path } && {
            &&& path.len() == 6 + job.cid@.len()
            &&& path.take(6) == "/ipfs/"@
            &&& path.skip(6) == job.cid@
        },
        job.first_step() == other.first_step() <==> job.cid@ == other.cid@,
{
    reveal_strlit("/ipfs/");
    let path = job.first_step()->path;
    let their_path = other.first_step()->path;
    assert(path.take(6) =~= "/ipfs/"@);
    assert(path.skip(6) =~= job.cid@);
    assert(their_path.skip(6) =~= other.cid@);
}

/// The file of a link has its whole name behind the directory and a slash. The URI that it is
/// fetched from has the whole hash behind the URL of the node and the path of the export.
pub proof fn law_links_are_named_whole(job: DirectoryJob, link: LinkView)
    ensures
        job.target(link).len() == job.out_dir@.len() + 1 + link.name.len(),
        job.target(link).take(job.out_dir@.len() as int) == job.out_dir@,
        job.target(link)[job.out_dir@.len() as int] == '/',
        job.target(link).skip((job.out_dir@.len() + 1) as int) == link.name,
        job.source(link).len() == job.ipfs_url@.len() + "/api/v0/dag/export?arg="@.len()
            + link.hash.len(),
        job.source(link).take(job.ipfs_url@.len() as int) == job.ipfs_url@,
        job.source(link).subrange(
            job.ipfs_url@.len() as int,
            (job.ipfs_url@.len() + "/api/v0/dag/export?arg="@.len()) as int,
        ) == "/api/v0/dag/export?arg="@,
        job.source(link).skip(
            (job.ipfs_url@.len() + "/api/v0/dag/export?arg="@.len()) as int,
        ) == link.hash,
{
    reveal_strlit("/");
    assert(job.target(link).take(job.out_dir@.len() as int) =~= job.out_dir@);
    assert(job.target(link).skip((job.out_dir@.len() + 1) as int) =~= link.name);
    let mark = "/api/v0/dag/export?arg="@;
    let count = job.ipfs_url@.len();
    assert(job.source(link).take(count as int) =~= job.ipfs_url@);
    assert(job.source(link).subrange(count as int, (count + mark.len()) as int) =~= mark);
    assert(job.source(link).skip((count + mark.len()) as int) =~= link.hash);
}

/// Two links have one file exactly where they have one name.
pub proof fn law_files_tell_names_apart(job: DirectoryJob, left: LinkView, right: LinkView)
    ensures
        job.target(left) == job.target(right) <==> left.name == right.name,
        job.source(left) == job.source(right) <==> left.hash == right.hash,
{
    law_links_are_named_whole(job, left);
    law_links_are_named_whole(job, right);
}

/// What each event leads to. A list leads to the creation of the directory for the links of its
/// first object, the directory to the first link, and a link that was fetched to the one behind it.
/// After the last link the download is done.
pub proof fn law_what_directory_events_lead_to(
    job: DirectoryJob,
    events: Seq<DirectoryEventView>,
    objects: Seq<Seq<LinkView>>,
)
    requires
        job.can_see(events),
        events.len() > 0,
        events[0] == DirectoryEventView::Listed(Ok(objects)),
        objects.len() > 0,
        forall|i: int|
            1 <= i < events.len() ==> (#[trigger] events[i]) is Fetched || (events[i] matches
                DirectoryEventView::Created(Ok(_))),
    ensures
        events.len() == 1 ==> job.step_after_all(events) == (DirectoryStepView::CreateDirectory {
            links: objects[0],
        }),
        2 <= events.len() < objects[0].len() + 2 ==> job.step_after_all(events) == (
        DirectoryStepView::Fetch {
            links: objects[0],
            index: (events.len() - 2) as nat,
            uri: job.ipfs_url@ + "/api/v0/dag/export?arg="@ + objects[0][events.len() - 2].hash,
            file_path: job.out_dir@ + "/"@ + objects[0][events.len() - 2].name,
        }),
        events.len() == objects[0].len() + 2 ==> (job.step_after_all(events) matches
            DirectoryStepView::Finish(Ok(_))),
        events.len() <= objects[0].len() + 2,
    decreases events.len(),
{
    let front = events.drop_last();
    job.lemma_can_see_front(events);
    lemma_events_so_far(job, events);
    lemma_events_so_far(job, front);
    if front.len() > 0 {
        assert(front[0] == events[0]);
        assert forall|i: int| 1 <= i < front.len() implies (#[trigger] front[i]) is Fetched || (
        front[i] matches DirectoryEventView::Created(Ok(_))) by {
            assert(front[i] == events[i]);
        }
        law_what_directory_events_lead_to(job, front, objects);
        assert(events[events.len() - 1] == events.last());
    } else {
        assert(events.last() == events[0]);
    }
    assert(job.step_after_all(events) == job.step_after(job.step_after_all(front), events.last()));
}

/// Why a download of a directory failed is told from the event that it failed at: the reason that
/// the event gives, for a request that failed together with the name of the link, and that there
/// are no objects where the list has none.
pub proof fn law_why_directory_downloads_fail(job: DirectoryJob, events: Seq<DirectoryEventView>)
    requires
        job.can_see(events),
        job.step_after_all(events) matches DirectoryStepView::Finish(Err(_)),
    ensures
        events.len() > 0,
        job.step_after_all(events) matches DirectoryStepView::Finish(Err(why)) && match events.last() {
            DirectoryEventView::Listed(Err(reason)) => why == reason,
            DirectoryEventView::Listed(Ok(objects)) => objects.len() == 0 && why
                == "No objects in IPFS ls response"@,
            DirectoryEventView::Created(result) => result == Err::<(), Seq<char>>(why),
            DirectoryEventView::StoreFailed(reason) => why == reason,
            DirectoryEventView::RequestFailed(reason) => {
                &&& events.len() >= 3
                &&& events[0] matches DirectoryEventView::Listed(Ok(objects)) && objects.len() > 0
                    && events.len() - 3 < objects[0].len() && why == "Error downloading file "@
                    + objects[0][events.len() - 3].name + ": "@ + reason
            },
            DirectoryEventView::Fetched => false,
        },
{
    if events.len() > 0 {
        let front = events.drop_last();
        job.lemma_can_see_front(events);
        lemma_events_so_far(job, front);
        if front.len() > 0 {
            assert(front[0] == events[0]);
        }
        assert(job.step_after_all(events) == job.step_after(
            job.step_after_all(front),
            events.last(),
        ));
    }
}

/// A download of a directory waits at every step for whatever can become of it, and goes wrong
/// exactly where that is a failure: a list that does not come or holds no object, a directory that
/// cannot be created, a request or a store that fails.
pub proof fn law_directory_downloads_go_on(
    job: DirectoryJob,
    events: Seq<DirectoryEventView>,
    event: DirectoryEventView,
)
    requires
        job.can_see(events),
    ensures
        job.can_see(events.push(event)) <==> match job.step_after_all(events) {
            DirectoryStepView::List { .. } => event is Listed,
            DirectoryStepView::CreateDirectory { .. } => event is Created,
            DirectoryStepView::Fetch { .. } => event is Fetched || event is RequestFailed || event
                is StoreFailed,
            DirectoryStepView::Finish(_) => false,
        },
        job.can_see(events.push(event)) ==> ((job.step_after_all(events.push(event)) matches
            DirectoryStepView::Finish(Err(_))) <==> match event {
            DirectoryEventView::Listed(Ok(objects)) => objects.len() == 0,
            DirectoryEventView::Listed(Err(_)) => true,
            DirectoryEventView::Created(result) => result is Err,
            DirectoryEventView::Fetched => false,
            _ => true,
        }),
        job.can_see(Seq::empty()),
{
    let all = events.push(event);
    lemma_events_so_far(job, events);
    assert(all.drop_last() =~= events);
    assert(all.take(events.len() as int) =~= events);
    if job.step_after_all(events).awaits(event) {
        assert forall|i: int| 0 <= i < all.len() implies (#[trigger] job.step_after_all(
            all.take(i),
        )).awaits(all[i]) by {
            if i < events.len() {
                assert(all.take(i) =~= events.take(i));
            }
        }
    } else if job.can_see(all) {
        assert(job.step_after_all(all.take(events.len() as int)).awaits(all[events.len() as int]));
    }
}

/// What a step does not wait for changes nothing.
pub proof fn law_other_directory_events_change_nothing(
    job: DirectoryJob,
    step: DirectoryStepView,
    event: DirectoryEventView,
)
    requires
        match step {
            DirectoryStepView::List { .. } => !(event is Listed),
            DirectoryStepView::CreateDirectory { .. } => !(event is Created),
            DirectoryStepView::Fetch { links, index, .. } => index >= links.len() || event is Listed
                || event is Created,
            DirectoryStepView::Finish(_) => true,
        },
    ensures
        job.step_after(step, event) == step,
{
}

/// The views of links, steps and events keep every choice and every text, and the links of every
/// object in their order.
pub proof fn law_directory_views_are_whole(
    step: DirectoryStep,
    event: DirectoryEvent,
    links: Seq<Link>,
)
    ensures
        links_view(links).len() == links.len(),
        forall|i: int|
            0 <= i < links.len() ==> (#[trigger] links_view(links)[i]).name == links[i].name@
                && links_view(links)[i].hash == links[i].hash@,
        match step {
            DirectoryStep::List { path } => step@ == (DirectoryStepView::List { path: path@ }),
            DirectoryStep::CreateDirectory { links } => step@ == (
            DirectoryStepView::CreateDirectory { links: links_view(links@) }),
            DirectoryStep::Fetch { links, index, uri, file_path } => step@ == (
            DirectoryStepView::Fetch {
                links: links_view(links@),
                index: index as nat,
                uri: uri@,
                file_path: file_path@,
            }),
            DirectoryStep::Finish(Ok(_)) => step@ matches DirectoryStepView::Finish(Ok(_)),
            DirectoryStep::Finish(Err(reason)) => step@ == DirectoryStepView::Finish(Err(reason@)),
        },
        match event {
            DirectoryEvent::Listed(Ok(objects)) => event@ matches DirectoryEventView::Listed(
                Ok(list),
            ) && list.len() == objects@.len() && forall|i: int|
                0 <= i < objects@.len() ==> #[trigger] list[i] == links_view(objects@[i]@),
            DirectoryEvent::Listed(Err(reason)) => event@ == DirectoryEventView::Listed(
                Err(reason@),
            ),
            DirectoryEvent::Created(Ok(_)) => event@ matches DirectoryEventView::Created(Ok(_)),
            DirectoryEvent::Created(Err(reason)) => event@ == DirectoryEventView::Created(
                Err(reason@),
            ),
            DirectoryEvent::Fetched(Ok(_)) => event@ is Fetched,
            DirectoryEvent::Fetched(Err(FetchFailure::Request(reason))) => event@
                == DirectoryEventView::RequestFailed(reason@),
            DirectoryEvent::Fetched(Err(FetchFailure::Store(reason))) => event@
                == DirectoryEventView::StoreFailed(reason@),
        },
{
}

} // verus!
