//! Installing a release of the server, with the backends that the platform
//! can use.

use crate::artifact::Artifact;
use crate::backend::{lemma_normalized, Backend, Backends};
use crate::cache::{holds, lemma_following, shows, Cache, Component, Entry, Instance, Place};
use crate::download;
use crate::error::{Error, Failure};
use crate::http::Progress;
use crate::link;
use crate::platform::Platform;
use crate::release::Build;
use crate::work::{Reply, Request, Status, Step};
use vstd::prelude::*;

verus! {

/// An installed server.
#[derive(Debug, Clone, Copy, PartialEq, Eq, Structural)]
pub struct Server {
    /// The release that is installed.
    pub build: Build,
    /// The backends that are installed with it: those that were asked for
    /// and that the platform can use.
    pub backends: Backends,
    /// The place of the server program, in the cache of the release.
    pub executable: Place,
}

/// What an install is doing, for those who watch it.
#[derive(Debug, Clone, Copy, PartialEq, Eq, Structural)]
pub enum Stage {
    /// The artifact is being downloaded, and this is how far it is.
    Downloading(Artifact, Progress),
}

/// What an install is waiting for.
#[derive(Debug, Clone, Copy, PartialEq, Eq, Structural)]
pub enum Phase {
    /// The artifact is being downloaded, and its download is in this phase.
    Downloading(Artifact, download::Phase),
    /// The install is being linked, and the linking is in this phase.
    Linking(link::Phase),
}

/// The install of a release: the server and each backend are downloaded, one
/// after the other, and then linked into one directory.
#[derive(Debug, PartialEq, Eq, Structural)]
pub struct Install {
    pub build: Build,
    /// The backends to install: those that the platform can use.
    pub backends: Backends,
    pub platform: Platform,
    pub status: Status<Phase>,
}

impl Phase {
    /// What the phase asks for, in the install of the components.
    pub open spec fn asks(self, instance: Instance) -> Request {
        match self {
            Phase::Downloading(artifact, phase) => phase.asks(artifact),
            Phase::Linking(phase) => phase.asks(instance),
        }
    }

    /// Where the install of the components stands after a reply to what the
    /// phase asked for. When a download has ended well, the download of the
    /// component that follows begins, or after the last of them the linking.
    /// When the linking has ended well, so has the install. A failure ends it.
    pub open spec fn next(self, instance: Instance, reply: Reply) -> Status<Phase> {
        match self {
            Phase::Downloading(artifact, phase) => match phase.next(reply) {
                Status::Active(phase) => Status::Active(Phase::Downloading(artifact, phase)),
                Status::Finished => match instance.following(artifact.spec_component()) {
                    Some(component) => Status::Active(
                        Phase::Downloading(component.spec_artifact(), download::Phase::Preparing),
                    ),
                    None => Status::Active(Phase::Linking(link::Phase::Probing)),
                },
                Status::Failed(error) => Status::Failed(error),
            },
            Phase::Linking(phase) => match phase.next(instance, reply) {
                Status::Active(phase) => Status::Active(Phase::Linking(phase)),
                Status::Finished => Status::Finished,
                Status::Failed(error) => Status::Failed(error),
            },
        }
    }

    /// What the phase asks for, in the install of the components.
    pub fn request(self, instance: Instance) -> (request: Request)
        ensures
            request == self.asks(instance),
    {
        match self {
            Phase::Downloading(artifact, phase) => phase.request(artifact),
            Phase::Linking(phase) => phase.request(instance),
        }
    }

    /// Where the install of the components stands after a reply to what the
    /// phase asked for.
    pub fn advance(self, instance: Instance, reply: Reply) -> (status: Status<Phase>)
        ensures
            status == self.next(instance, reply),
    {
        match self {
            Phase::Downloading(artifact, phase) => match phase.advance(reply) {
                Status::Active(phase) => Status::Active(Phase::Downloading(artifact, phase)),
                Status::Finished => match instance.next(artifact.component()) {
                    Some(component) => Status::Active(
                        Phase::Downloading(component.artifact(), download::Phase::Preparing),
                    ),
                    None => Status::Active(Phase::Linking(link::Phase::Probing)),
                },
                Status::Failed(error) => Status::Failed(error),
            },
            Phase::Linking(phase) => match phase.advance(instance, reply) {
                Status::Active(phase) => Status::Active(Phase::Linking(phase)),
                Status::Finished => Status::Finished,
                Status::Failed(error) => Status::Failed(error),
            },
        }
    }
}

impl Install {
    /// The install of a release with the backends that were asked for, on a
    /// platform, before anything has been done. Of the backends only those
    /// are installed that the platform can use.
    pub open spec fn begun(build: Build, backends: Backends, platform: Platform) -> Install {
        Install {
            build,
            backends: backends.normalized(platform),
            platform,
            status: Status::Active(
                Phase::Downloading(Artifact::Server, download::Phase::Preparing),
            ),
        }
    }

    /// The components to install.
    pub open spec fn instance(self) -> Instance {
        Instance { backends: self.backends }
    }

    /// The server that the install ends with, if it ends well.
    pub open spec fn server(self) -> Server {
        Server {
            build: self.build,
            backends: self.backends,
            executable: Place::Executable(self.instance(), self.platform),
        }
    }

    /// Where the install stands: what it asks for, or how it ended.
    pub open spec fn pending(self) -> Step<Server> {
        match self.status {
            Status::Active(phase) => Step::Ask(phase.asks(self.instance())),
            Status::Finished => Step::Done(self.server()),
            Status::Failed(error) => Step::Failed(error),
        }
    }

    /// The install after a reply. After its end an install takes no reply.
    pub open spec fn next(self, reply: Reply) -> Install {
        match self.status {
            Status::Active(phase) => Install {
                build: self.build,
                backends: self.backends,
                platform: self.platform,
                status: phase.next(self.instance(), reply),
            },
            _ => self,
        }
    }

    /// The install after the replies, one after the other.
    pub open spec fn after(self, replies: Seq<Reply>) -> Install
        decreases replies.len(),
    {
        if replies.len() == 0 {
            self
        } else {
            self.after(replies.drop_last()).next(replies.last())
        }
    }

    /// What to tell those who watch the install when a download has come as
    /// far as `progress`: which artifact it is that has come so far. There
    /// is nothing to tell unless a download is going on.
    pub open spec fn staged(self, progress: Progress) -> Option<Stage> {
        match self.status {
            Status::Active(Phase::Downloading(artifact, _)) => Some(
                Stage::Downloading(artifact, progress),
            ),
            _ => None,
        }
    }

    /// Where the install stands: what it asks for, or how it ended.
    pub fn current(&self) -> (step: Step<Server>)
        ensures
            step == self.pending(),
    {
        let instance = Instance { backends: self.backends };
        match self.status {
            Status::Active(phase) => Step::Ask(phase.request(instance)),
            Status::Finished => Step::Done(
                Server {
                    build: self.build,
                    backends: self.backends,
                    executable: Place::Executable(instance, self.platform),
                },
            ),
            Status::Failed(error) => Step::Failed(error),
        }
    }

    /// Takes the reply to what the install asked for, and tells where the
    /// install stands then.
    pub fn resume(&mut self, reply: Reply) -> (step: Step<Server>)
        ensures
            *final(self) == old(self).next(reply),
            step == final(self).pending(),
    {
        if let Status::Active(phase) = self.status {
            self.status = phase.advance(Instance { backends: self.backends }, reply);
        }
        self.current()
    }

    /// What to tell those who watch the install when a download has come as
    /// far as `progress`.
    pub fn stage(&self, progress: Progress) -> (stage: Option<Stage>)
        ensures
            stage == self.staged(progress),
    {
        match self.status {
            Status::Active(Phase::Downloading(artifact, _)) => Some(
                Stage::Downloading(artifact, progress),
            ),
            _ => None,
        }
    }
}

impl Server {
    /// The releases that a listing of the root of all caches shows, in
    /// ascending order, each once.
    pub fn list(entries: &Vec<Entry>) -> (builds: Vec<Build>)
        ensures
            forall|i: int, j: int| 0 <= i < j < builds.len() ==> builds[i].0 < builds[j].0,
            forall|build: Build| builds@.contains(build) <==> shows(entries@, build),
    {
        let caches = Cache::list(entries);
        let mut builds: Vec<Build> = Vec::new();
        for i in 0..caches.len()
            invariant
                builds.len() == i,
                forall|j: int| 0 <= j < i ==> builds[j] == caches[j].build,
        {
            builds.push(caches[i].build());
        }
        proof {
            assert forall|build: Build| builds@.contains(build) <==> holds(
                caches@,
                build,
            ) by {
                if builds@.contains(build) {
                    let i = choose|i: int| 0 <= i < builds.len() && builds[i] == build;
                    assert(caches[i].build == build);
                }
                if holds(caches@, build) {
                    let i = choose|i: int|
                        0 <= i < caches.len() && (#[trigger] caches[i]).build == build;
                    assert(builds[i] == build);
                }
            }
        }
        builds
    }

    /// Begins the install of a release with the backends that were asked
    /// for, on a platform.
    pub fn download(build: Build, backends: Backends, platform: Platform) -> (install: Install)
        ensures
            install == Install::begun(build, backends, platform),
    {
        Install {
            build,
            backends: backends.normalize(platform),
            platform,
            status: Status::Active(
                Phase::Downloading(Artifact::Server, download::Phase::Preparing),
            ),
        }
    }

    /// What is to be done to delete all that is cached of a release, and in
    /// which cache: the directory of the release goes, with every component
    /// and every install in it.
    pub fn delete(build: Build) -> (order: (Cache, Request))
        ensures
            order == (Cache { build }, Request::RemoveDirectories(Place::Root)),
    {
        Cache::new(build).delete()
    }
}

impl Cache {
    /// What is to be done to delete the cache, and in which cache: its
    /// directory goes, with every component and every install in it.
    pub fn delete(self) -> (order: (Cache, Request))
        ensures
            order == (self, Request::RemoveDirectories(Place::Root)),
    {
        (self, Request::RemoveDirectories(Place::Root))
    }
}

impl Install {
    /// The cache that the places of the install are places in: that of the
    /// release that is installed.
    pub fn cache(&self) -> (cache: Cache)
        ensures
            cache == (Cache { build: self.build }),
    {
        Cache::new(self.build)
    }
}

/// Whether nothing failed in the course of the replies to an install, and
/// every directory that it looked for was found.
pub open spec fn directories_there(start: Install, replies: Seq<Reply>) -> bool {
    forall|at: int|
        0 <= at < replies.len() ==> {
            &&& !(#[trigger] replies[at] is Failed)
            &&& start.after(replies.take(at)).pending() matches Step::Ask(Request::Exists(_))
                ==> replies[at] != Reply::Found(false)
        }
}

/// Whether an install has ended well or is at work that spares what is
/// there: it sees that the directory of the cache is there, looks for a
/// directory, reads the directory of a component, looks for the name of an
/// entry in the install, or links an entry.
pub open spec fn sparing(status: Status<Phase>) -> bool {
    match status {
        Status::Finished => true,
        Status::Active(Phase::Downloading(_, download::Phase::Preparing)) => true,
        Status::Active(Phase::Downloading(_, download::Phase::Probing)) => true,
        Status::Active(Phase::Linking(link::Phase::Probing)) => true,
        Status::Active(Phase::Linking(link::Phase::Opening(_))) => true,
        Status::Active(Phase::Linking(link::Phase::Reading(_))) => true,
        Status::Active(Phase::Linking(link::Phase::Checking(_))) => true,
        Status::Active(Phase::Linking(link::Phase::Linking(_))) => true,
        _ => false,
    }
}

/// However an install goes, it is the install of the same release with the
/// same backends on the same platform, and where it ends well it ends with
/// the same server: the release, the backends that the platform can use, and
/// the server program in the directory of the install of these.
pub proof fn lemma_install_result(
    build: Build,
    backends: Backends,
    platform: Platform,
    replies: Seq<Reply>,
)
    ensures
        Install::begun(build, backends, platform).after(replies).build == build,
        Install::begun(build, backends, platform).after(replies).backends == backends.normalized(
            platform,
        ),
        Install::begun(build, backends, platform).after(replies).platform == platform,
        Install::begun(build, backends, platform).after(replies).pending() matches Step::Done(
            server,
        ) ==> server == (Server {
            build,
            backends: backends.normalized(platform),
            executable: Place::Executable(
                Instance { backends: backends.normalized(platform) },
                platform,
            ),
        }),
    decreases replies.len(),
{
    if replies.len() > 0 {
        lemma_install_result(build, backends, platform, replies.drop_last());
    }
}

/// An install of what is in the cache already asks for no archive and makes
/// no directory. As long as nothing fails and every directory that it looks
/// for is found, it asks for nothing but to see that the directory of the
/// cache is there, whether a directory is there, to read the directories of
/// the components, whether the name of an entry is in the install, and to
/// link an entry; and it does not fail.
pub proof fn lemma_install_cached(
    build: Build,
    backends: Backends,
    platform: Platform,
    replies: Seq<Reply>,
)
    requires
        directories_there(Install::begun(build, backends, platform), replies),
    ensures
        sparing(Install::begun(build, backends, platform).after(replies).status),
        ({
            let install = Install::begun(build, backends, platform).after(replies);
            match install.pending() {
                Step::Ask(request) => {
                    ||| request == Request::CreateDirectories(Place::Root)
                    ||| request is Exists
                    ||| request is ReadDirectory
                    ||| request is NextEntry
                    ||| request is ExistsEntry
                    ||| request is LinkEntry
                },
                Step::Done(server) => server == Install::begun(build, backends, platform).server(),
                Step::Failed(_) => false,
            }
        }),
    decreases replies.len(),
{
    let start = Install::begun(build, backends, platform);
    lemma_install_result(build, backends, platform, replies);
    if replies.len() > 0 {
        let before = replies.drop_last();
        let last = replies.len() - 1;
        assert(directories_there(start, before)) by {
            assert forall|at: int| 0 <= at < before.len() implies {
                &&& !(#[trigger] before[at] is Failed)
                &&& start.after(before.take(at)).pending() matches Step::Ask(Request::Exists(_))
                    ==> before[at] != Reply::Found(false)
            } by {
                assert(before[at] == replies[at]);
                assert(before.take(at) =~= replies.take(at));
            }
        }
        lemma_install_cached(build, backends, platform, before);
        assert(replies.last() == replies[last]);
        assert(replies.take(last) =~= before);
    }
}

/// An install makes no link that is there: it comes to ask for a link by no
/// other way than the news that the name of the entry is not in the install.
pub proof fn lemma_install_links_when_absent(install: Install, reply: Reply, component: Component)
    ensures
        install.next(reply).status == Status::Active(
            Phase::Linking(link::Phase::Linking(component)),
        ) ==> install.status == install.next(reply).status || (install.status == Status::Active(
            Phase::Linking(link::Phase::Checking(component)),
        ) && reply == Reply::Found(false)),
{
}

/// The replies to an install that finds the directory of every component
/// and that of the install: for each component, that the directory of the
/// cache is there and that the directory of the component is found, and then
/// that the directory of the install is found.
pub open spec fn probes_there(instance: Instance) -> Seq<Reply> {
    Seq::new(
        2 * instance.members().len() + 1,
        |i: int|
            if i < 2 * instance.members().len() && i % 2 == 0 {
                Reply::Done
            } else {
                Reply::Found(true)
            },
    )
}

/// Where an install stands after the first `count` of these replies: it goes
/// through the components in their order, with two replies for each, looks
/// for the directory of the install, and turns to the files of the server.
pub open spec fn cached(instance: Instance, count: int) -> Status<Phase> {
    let members = instance.members();
    if count < 2 * members.len() {
        Status::Active(
            Phase::Downloading(
                members[count / 2].spec_artifact(),
                if count % 2 == 0 {
                    download::Phase::Preparing
                } else {
                    download::Phase::Probing
                },
            ),
        )
    } else if count == 2 * members.len() {
        Status::Active(Phase::Linking(link::Phase::Probing))
    } else {
        Status::Active(Phase::Linking(link::Phase::Opening(Component::Server)))
    }
}

/// The replies to the reading of a directory with the listed entries, where
/// `true` stands for a regular file, when the name of every regular file is
/// in the install already.
pub open spec fn entries_there(listing: Seq<bool>) -> Seq<Reply>
    decreases listing.len(),
{
    if listing.len() == 0 {
        Seq::empty()
    } else if listing.last() {
        entries_there(listing.drop_last()) + seq![Reply::Entry(true), Reply::Found(true)]
    } else {
        entries_there(listing.drop_last()) + seq![Reply::Entry(false)]
    }
}

/// The replies to the reading of the directories of the first `count`
/// components of an install, with the entries that `listings` gives for each,
/// when the name of every regular file is in the install already.
pub open spec fn readings_there(
    instance: Instance,
    listings: spec_fn(Component) -> Seq<bool>,
    count: int,
) -> Seq<Reply>
    decreases count,
{
    if count <= 0 {
        Seq::empty()
    } else {
        readings_there(instance, listings, count - 1) + seq![Reply::Done] + entries_there(
            listings(instance.members()[count - 1]),
        ) + seq![Reply::End]
    }
}

/// The replies to an install of what is all there: every directory is
/// found, and the name of every regular file of every component is in the
/// install already.
pub open spec fn replies_there(
    instance: Instance,
    listings: spec_fn(Component) -> Seq<bool>,
) -> Seq<Reply> {
    probes_there(instance) + readings_there(
        instance,
        listings,
        instance.members().len() as int,
    )
}

/// Whether no reply says that something failed or is missing.
pub open spec fn benign(replies: Seq<Reply>) -> bool {
    forall|i: int|
        0 <= i < replies.len() ==> !(#[trigger] replies[i] is Failed) && replies[i]
            != Reply::Found(false)
}

/// When an install finds every directory, it goes through the components in
/// their order, with two replies for each, looks for the directory of the
/// install, and turns to the files of the server.
pub proof fn lemma_install_cached_steps(
    build: Build,
    backends: Backends,
    platform: Platform,
    count: int,
)
    requires
        0 <= count <= probes_there(Install::begun(build, backends, platform).instance()).len(),
    ensures
        ({
            let start = Install::begun(build, backends, platform);
            let replies = probes_there(start.instance());
            start.after(replies.take(count)).status == cached(start.instance(), count)
        }),
    decreases count,
{
    let start = Install::begun(build, backends, platform);
    let instance = start.instance();
    let replies = probes_there(instance);
    let members = instance.members();
    if count == 0 {
        lemma_following(instance, 0);
        assert(replies.take(0) =~= Seq::<Reply>::empty());
    } else {
        lemma_install_cached_steps(build, backends, platform, count - 1);
        lemma_install_result(build, backends, platform, replies.take(count - 1));
        assert(replies.take(count).drop_last() =~= replies.take(count - 1));
        assert(replies.take(count).last() == replies[count - 1]);
        if count - 1 < 2 * members.len() {
            lemma_following(instance, (count - 1) / 2);
            let component = members[(count - 1) / 2];
            assert(component.spec_artifact().spec_component() == component);
        }
    }
}

/// Replies that come one after the other take an install where the first of
/// them take it, and on from there.
pub proof fn lemma_after_both(install: Install, first: Seq<Reply>, second: Seq<Reply>)
    ensures
        install.after(first + second) == install.after(first).after(second),
    decreases second.len(),
{
    if second.len() == 0 {
        assert(first + second =~= first);
    } else {
        lemma_after_both(install, first, second.drop_last());
        assert((first + second).drop_last() =~= first + second.drop_last());
        assert((first + second).last() == second.last());
    }
}

/// One reply takes an install where `next` says.
proof fn lemma_after_one(install: Install, reply: Reply)
    ensures
        install.after(seq![reply]) == install.next(reply),
{
    let one = seq![reply];
    assert(one.drop_last() =~= Seq::<Reply>::empty());
    assert(install.after(one.drop_last()) == install);
    assert(one.last() == reply);
}

/// Replies of which no part says that something failed or is missing say so
/// as a whole.
proof fn lemma_benign_both(first: Seq<Reply>, second: Seq<Reply>)
    requires
        benign(first),
        benign(second),
    ensures
        benign(first + second),
{
    assert forall|i: int| 0 <= i < (first + second).len() implies !(#[trigger] (first
        + second)[i] is Failed) && (first + second)[i] != Reply::Found(false) by {
        if i < first.len() {
            assert((first + second)[i] == first[i]);
        } else {
            assert((first + second)[i] == second[i - first.len()]);
        }
    }
}

/// An install that reads the directory of a component whose files are all
/// in the install already reads on, entry after entry, and links nothing.
proof fn lemma_entries_there(install: Install, component: Component, listing: Seq<bool>)
    requires
        install.status == Status::Active(Phase::Linking(link::Phase::Reading(component))),
    ensures
        install.after(entries_there(listing)) == install,
        benign(entries_there(listing)),
    decreases listing.len(),
{
    if listing.len() > 0 {
        let before = entries_there(listing.drop_last());
        lemma_entries_there(install, component, listing.drop_last());
        let more = if listing.last() {
            seq![Reply::Entry(true), Reply::Found(true)]
        } else {
            seq![Reply::Entry(false)]
        };
        lemma_after_both(install, before, more);
        lemma_benign_both(before, more);
        if listing.last() {
            let checking = install.next(Reply::Entry(true));
            lemma_after_one(install, Reply::Entry(true));
            lemma_after_one(checking, Reply::Found(true));
            lemma_after_both(install, seq![Reply::Entry(true)], seq![Reply::Found(true)]);
            assert(seq![Reply::Entry(true)] + seq![Reply::Found(true)] =~= more);
        } else {
            lemma_after_one(install, Reply::Entry(false));
        }
        assert(install.after(more) == install);
    }
}

/// An install that turns to the files of its components, all of which are
/// in the install already, goes through the components in their order and
/// ends well after the last.
proof fn lemma_readings_there(
    install: Install,
    listings: spec_fn(Component) -> Seq<bool>,
    count: int,
)
    requires
        install.status == Status::Active(Phase::Linking(link::Phase::Opening(Component::Server))),
        0 <= count <= install.instance().members().len(),
    ensures
        ({
            let members = install.instance().members();
            let then = install.after(readings_there(install.instance(), listings, count));
            &&& then.build == install.build
            &&& then.backends == install.backends
            &&& then.platform == install.platform
            &&& then.status == if count < members.len() {
                Status::Active(Phase::Linking(link::Phase::Opening(members[count])))
            } else {
                Status::Finished
            }
        }),
        benign(readings_there(install.instance(), listings, count)),
    decreases count,
{
    let instance = install.instance();
    let members = instance.members();
    if count == 0 {
        lemma_following(instance, 0);
    } else {
        lemma_readings_there(install, listings, count - 1);
        lemma_following(instance, count - 1);
        let component = members[count - 1];
        let before = readings_there(instance, listings, count - 1);
        let entries = entries_there(listings(component));
        let opened = install.after(before).next(Reply::Done);
        assert(opened.status == Status::Active(Phase::Linking(link::Phase::Reading(component))));
        lemma_entries_there(opened, component, listings(component));
        lemma_after_both(install, before, seq![Reply::Done]);
        lemma_after_one(install.after(before), Reply::Done);
        lemma_after_both(install, before + seq![Reply::Done], entries);
        lemma_after_both(install, before + seq![Reply::Done] + entries, seq![Reply::End]);
        lemma_after_one(opened, Reply::End);
        lemma_benign_both(before, seq![Reply::Done]);
        lemma_benign_both(before + seq![Reply::Done], entries);
        lemma_benign_both(before + seq![Reply::Done] + entries, seq![Reply::End]);
    }
}

/// An install of what is all there ends well, with the server in the
/// directory of the install: it finds every directory, reads the directory
/// of every component to its end, and finds the name of every regular file
/// in the install. On the way nothing fails and nothing is missing, so that
/// it asks for no archive and makes neither a directory nor a link.
pub proof fn lemma_install_cached_ends(
    build: Build,
    backends: Backends,
    platform: Platform,
    listings: spec_fn(Component) -> Seq<bool>,
)
    ensures
        ({
            let start = Install::begun(build, backends, platform);
            let replies = replies_there(start.instance(), listings);
            &&& benign(replies)
            &&& directories_there(start, replies)
            &&& start.after(replies).pending() == Step::Done(start.server())
        }),
{
    let start = Install::begun(build, backends, platform);
    let instance = start.instance();
    let probes = probes_there(instance);
    let count = instance.members().len() as int;
    let readings = readings_there(instance, listings, count);
    lemma_install_cached_steps(build, backends, platform, probes.len() as int);
    lemma_install_result(build, backends, platform, probes);
    assert(probes.take(probes.len() as int) =~= probes);
    let found = start.after(probes);
    lemma_readings_there(found, listings, count);
    lemma_after_both(start, probes, readings);
    assert(benign(probes));
    lemma_benign_both(probes, readings);
}

/// Where the unpacking of a component fails, the install asks to remove what
/// is left of the directory of the component before it ends with the error
/// of the unpacking, so that an install that is begun after that does not
/// take what is left for the component.
pub proof fn lemma_install_clears_failed_unpacking(
    install: Install,
    artifact: Artifact,
    failure: Failure,
)
    requires
        install.status == Status::Active(
            Phase::Downloading(artifact, download::Phase::Extracting),
        ),
    ensures
        install.next(Reply::Failed(failure)).pending() == Step::<Server>::Ask(
            Request::RemoveDirectories(Place::Directory(artifact.spec_component())),
        ),
        install.next(Reply::Failed(failure)).next(Reply::Done).pending() == Step::<
            Server,
        >::Failed(Error::of(failure)),
{
}

/// On a platform that can use no backend, an install is that of the server
/// alone, and the server that it ends with has no backend, whatever was asked
/// for.
pub proof fn lemma_server_alone(build: Build, backends: Backends, platform: Platform)
    requires
        platform.macos(),
    ensures
        Install::begun(build, backends, platform).instance().members() == seq![Component::Server],
        Install::begun(build, backends, platform).server().backends == (Backends {
            cuda: false,
            hip: false,
        }),
{
    lemma_normalized(backends, platform);
}

/// Whether the reply at the given place among the replies to an install
/// says that something is at the place in the cache: that it was found
/// there, that a directory was created there, or that an archive was
/// unpacked into it.
pub open spec fn brings(start: Install, replies: Seq<Reply>, at: int, place: Place) -> bool {
    match start.after(replies.take(at)).pending() {
        Step::Ask(Request::Exists(found)) => found == place && replies[at] == Reply::Found(true),
        Step::Ask(Request::CreateDirectory(made)) => made == place && replies[at] == Reply::Done,
        Step::Ask(Request::Extract(_, into)) => into == place && replies[at] == Reply::Done,
        _ => false,
    }
}

/// Whether one of the first `count` replies to an install says that
/// something is at the place in the cache.
pub open spec fn brought(start: Install, replies: Seq<Reply>, count: int, place: Place) -> bool {
    exists|at: int| 0 <= at < count && #[trigger] brings(start, replies, at, place)
}

/// What holds of an install after the first `count` replies: the directory
/// of every component before the one that is being downloaded was said to
/// be there; that of the one whose archive is being removed too; while the
/// install is linked, all of them; and once that has got beyond its
/// directory, the directory of the install as well.
spec fn kept(start: Install, replies: Seq<Reply>, count: int) -> bool {
    let instance = start.instance();
    match start.after(replies.take(count)).status {
        Status::Active(Phase::Downloading(artifact, phase)) => {
            let current = artifact.spec_component();
            &&& instance.has(current)
            &&& forall|component: Component|
                instance.has(component) && component.rank() < current.rank() ==> #[trigger] brought(
                    start,
                    replies,
                    count,
                    Place::Directory(component),
                )
            &&& phase == download::Phase::Removing ==> brought(
                start,
                replies,
                count,
                Place::Directory(current),
            )
        },
        Status::Active(Phase::Linking(phase)) => {
            &&& forall|component: Component|
                instance.has(component) ==> #[trigger] brought(
                    start,
                    replies,
                    count,
                    Place::Directory(component),
                )
            &&& !(phase == link::Phase::Probing || phase == link::Phase::Creating || phase
                is ProbingAgain) ==> brought(start, replies, count, Place::Install(instance))
        },
        Status::Finished => {
            &&& forall|component: Component|
                instance.has(component) ==> #[trigger] brought(
                    start,
                    replies,
                    count,
                    Place::Directory(component),
                )
            &&& brought(start, replies, count, Place::Install(instance))
        },
        Status::Failed(_) => true,
    }
}

proof fn lemma_kept(
    build: Build,
    backends: Backends,
    platform: Platform,
    replies: Seq<Reply>,
    count: int,
)
    requires
        0 <= count <= replies.len(),
    ensures
        kept(Install::begun(build, backends, platform), replies, count),
    decreases count,
{
    let start = Install::begun(build, backends, platform);
    let instance = start.instance();
    if count == 0 {
        assert(replies.take(0) =~= Seq::<Reply>::empty());
    } else {
        lemma_kept(build, backends, platform, replies, count - 1);
        lemma_install_result(build, backends, platform, replies.take(count - 1));
        let before = start.after(replies.take(count - 1));
        let reply = replies[count - 1];
        assert(replies.take(count).drop_last() =~= replies.take(count - 1));
        assert(replies.take(count).last() == reply);
        assert(start.after(replies.take(count)) == before.next(reply));
        let server = Place::Directory(Component::Server);
        let cuda = Place::Directory(Component::Backend(Backend::Cuda));
        let hip = Place::Directory(Component::Backend(Backend::Hip));
        let install = Place::Install(instance);
        assert forall|place: Place| brought(start, replies, count - 1, place) implies brought(
            start,
            replies,
            count,
            place,
        ) by {
            let at = choose|at: int|
                0 <= at < count - 1 && #[trigger] brings(start, replies, at, place);
            assert(brings(start, replies, at, place));
        }
        assert(brings(start, replies, count - 1, server) ==> brought(start, replies, count, server));
        assert(brings(start, replies, count - 1, cuda) ==> brought(start, replies, count, cuda));
        assert(brings(start, replies, count - 1, hip) ==> brought(start, replies, count, hip));
        assert(brings(start, replies, count - 1, install) ==> brought(
            start,
            replies,
            count,
            install,
        ));
    }
}

/// An install ends well only when all that it is made of was said to be
/// there: for every component, that its directory was found or that its
/// archive was unpacked into it, and for the install, that its directory was
/// found or created.
pub proof fn lemma_install_complete(
    build: Build,
    backends: Backends,
    platform: Platform,
    replies: Seq<Reply>,
    component: Component,
)
    requires
        Install::begun(build, backends, platform).after(replies).status is Finished,
        Install::begun(build, backends, platform).instance().has(component),
    ensures
        brought(
            Install::begun(build, backends, platform),
            replies,
            replies.len() as int,
            Place::Directory(component),
        ),
        brought(
            Install::begun(build, backends, platform),
            replies,
            replies.len() as int,
            Place::Install(Install::begun(build, backends, platform).instance()),
        ),
{
    lemma_kept(build, backends, platform, replies, replies.len() as int);
    assert(replies.take(replies.len() as int) =~= replies);
}

/// A reply that does not answer what an install asks for changes nothing.
pub proof fn lemma_unanswered(install: Install, reply: Reply)
    requires
        install.pending() matches Step::Ask(request) && !reply.answers(request),
    ensures
        install.next(reply) == install,
{
}

} // verus!
