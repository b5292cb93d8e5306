//! Bringing one component of a release into the cache.
//!
//! A component that is in the cache already is not fetched again: its
//! directory is looked for before anything else is done about it, and where
//! it is there nothing more happens. The directory alone tells: there is no
//! other record. So the directory must not stay where the unpacking has
//! failed: what was unpacked of it is removed before the download ends with
//! the error, and the next download fetches the archive again. The archive
//! is removed once it has been unpacked and not before. After a failure it
//! may be left behind; the next download writes over it.

use crate::artifact::Artifact;
use crate::cache::{Cache, Component, Place};
use crate::error::{Error, Failure};
use crate::work::{Reply, Request, Status, Step};
use vstd::prelude::*;

verus! {

/// What a download is waiting for.
#[derive(Debug, Clone, Copy, PartialEq, Eq, Structural)]
pub enum Phase {
    /// The directory of the cache is being created.
    Preparing,
    /// The directory of the component is being looked for.
    Probing,
    /// The archive is being created.
    Creating,
    /// The archive is being fetched.
    Fetching,
    /// The archive is being unpacked.
    Extracting,
    /// The archive is being removed.
    Removing,
    /// The unpacking has failed, for the reason given, and what it has left
    /// of the directory of the component is being removed.
    Clearing(Failure),
    /// What the unpacking, which failed for the reason given, has left of
    /// the directory of the component could not be removed, and the directory
    /// is being looked for once more.
    ProbingAgain(Failure),
}

/// The download of one artifact into the cache of a release.
#[derive(Debug, PartialEq, Eq, Structural)]
pub struct Download {
    /// The cache that the places of the download are places in.
    pub cache: Cache,
    pub artifact: Artifact,
    pub status: Status<Phase>,
}

impl Phase {
    /// What the phase asks for, in the download of the artifact.
    pub open spec fn asks(self, artifact: Artifact) -> Request {
        let component = artifact.spec_component();
        match self {
            Phase::Preparing => Request::CreateDirectories(Place::Root),
            Phase::Probing => Request::Exists(Place::Directory(component)),
            Phase::Creating => Request::CreateFile(Place::Archive(component)),
            Phase::Fetching => Request::Fetch(artifact, Place::Archive(component)),
            Phase::Extracting => Request::Extract(
                Place::Archive(component),
                Place::Directory(component),
            ),
            Phase::Removing => Request::RemoveFile(Place::Archive(component)),
            Phase::Clearing(_) => Request::RemoveDirectories(Place::Directory(component)),
            Phase::ProbingAgain(_) => Request::Exists(Place::Directory(component)),
        }
    }

    /// Where the download stands after a reply to what the phase asked for.
    /// The news that the component is there ends the download. Where the
    /// unpacking fails, the download removes what is left of the directory,
    /// or sees that nothing is left where that cannot be removed, and ends
    /// with the error of the unpacking. Any other failure ends it at once.
    /// A reply that does not answer the request changes nothing.
    pub open spec fn next(self, reply: Reply) -> Status<Phase> {
        match (self, reply) {
            (Phase::Extracting, Reply::Failed(failure)) => Status::Active(
                Phase::Clearing(failure),
            ),
            (Phase::Clearing(failure), Reply::Failed(_)) => Status::Active(
                Phase::ProbingAgain(failure),
            ),
            (_, Reply::Failed(failure)) => Status::Failed(Error::of(failure)),
            (Phase::Clearing(failure), Reply::Done) => Status::Failed(Error::of(failure)),
            (Phase::ProbingAgain(failure), Reply::Found(_)) => Status::Failed(Error::of(failure)),
            (Phase::Preparing, Reply::Done) => Status::Active(Phase::Probing),
            (Phase::Probing, Reply::Found(true)) => Status::Finished,
            (Phase::Probing, Reply::Found(false)) => Status::Active(Phase::Creating),
            (Phase::Creating, Reply::Done) => Status::Active(Phase::Fetching),
            (Phase::Fetching, Reply::Done) => Status::Active(Phase::Extracting),
            (Phase::Extracting, Reply::Done) => Status::Active(Phase::Removing),
            (Phase::Removing, Reply::Done) => Status::Finished,
            _ => Status::Active(self),
        }
    }

    /// What the phase asks for, in the download of the artifact.
    pub fn request(self, artifact: Artifact) -> (request: Request)
        ensures
            request == self.asks(artifact),
    {
        let component = artifact.component();
        match self {
            Phase::Preparing => Request::CreateDirectories(Place::Root),
            Phase::Probing => Request::Exists(Place::Directory(component)),
            Phase::Creating => Request::CreateFile(Place::Archive(component)),
            Phase::Fetching => Request::Fetch(artifact, Place::Archive(component)),
            Phase::Extracting => Request::Extract(
                Place::Archive(component),
                Place::Directory(component),
            ),
            Phase::Removing => Request::RemoveFile(Place::Archive(component)),
            Phase::Clearing(_) => Request::RemoveDirectories(Place::Directory(component)),
            Phase::ProbingAgain(_) => Request::Exists(Place::Directory(component)),
        }
    }

    /// Where the download stands after a reply to what the phase asked for.
    pub fn advance(self, reply: Reply) -> (status: Status<Phase>)
        ensures
            status == self.next(reply),
    {
        match reply {
            Reply::Failed(failure) => match self {
                Phase::Extracting => Status::Active(Phase::Clearing(failure)),
                Phase::Clearing(unpacking) => Status::Active(Phase::ProbingAgain(unpacking)),
                _ => Status::Failed(Error::from(failure)),
            },
            Reply::Done => match self {
                Phase::Preparing => Status::Active(Phase::Probing),
                Phase::Creating => Status::Active(Phase::Fetching),
                Phase::Fetching => Status::Active(Phase::Extracting),
                Phase::Extracting => Status::Active(Phase::Removing),
                Phase::Removing => Status::Finished,
                Phase::Clearing(failure) => Status::Failed(Error::from(failure)),
                Phase::Probing | Phase::ProbingAgain(_) => Status::Active(self),
            },
            Reply::Found(found) => match self {
                Phase::Probing => if found {
                    Status::Finished
                } else {
                    Status::Active(Phase::Creating)
                },
                Phase::ProbingAgain(failure) => Status::Failed(Error::from(failure)),
                _ => Status::Active(self),
            },
            _ => Status::Active(self),
        }
    }
}

impl Download {
    /// The download of an artifact, before anything has been done.
    pub open spec fn begun(cache: Cache, artifact: Artifact) -> Download {
        Download { cache, artifact, status: Status::Active(Phase::Preparing) }
    }

    /// Where the download stands: what it asks for, or how it ended.
    pub open spec fn pending(self) -> Step<Component> {
        match self.status {
            Status::Active(phase) => Step::Ask(phase.asks(self.artifact)),
            Status::Finished => Step::Done(self.artifact.spec_component()),
            Status::Failed(error) => Step::Failed(error),
        }
    }

    /// The download after a reply. After its end a download takes no reply.
    pub open spec fn next(self, reply: Reply) -> Download {
        match self.status {
            Status::Active(phase) => Download {
                cache: self.cache,
                artifact: self.artifact,
                status: phase.next(reply),
            },
            _ => self,
        }
    }

    /// The download after the replies, one after the other.
    pub open spec fn after(self, replies: Seq<Reply>) -> Download
        decreases replies.len(),
    {
        if replies.len() == 0 {
            self
        } else {
            self.after(replies.drop_last()).next(replies.last())
        }
    }

    /// Where the download stands: what it asks for, or how it ended.
    pub fn current(&self) -> (step: Step<Component>)
        ensures
            step == self.pending(),
    {
        match self.status {
            Status::Active(phase) => Step::Ask(phase.request(self.artifact)),
            Status::Finished => Step::Done(self.artifact.component()),
            Status::Failed(error) => Step::Failed(error),
        }
    }

    /// Takes the reply to what the download asked for, and tells where the
    /// download stands then.
    pub fn resume(&mut self, reply: Reply) -> (step: Step<Component>)
        ensures
            *final(self) == old(self).next(reply),
            step == final(self).pending(),
    {
        if let Status::Active(phase) = self.status {
            self.status = phase.advance(reply);
        }
        self.current()
    }
}

impl Cache {
    /// Begins the download of an artifact into this cache.
    pub fn download(&self, artifact: Artifact) -> (download: Download)
        ensures
            download == Download::begun(*self, artifact),
    {
        Download { cache: *self, artifact, status: Status::Active(Phase::Preparing) }
    }
}

/// Where the directory of the component is found, the download ends at
/// once: nothing is created, fetched, unpacked or removed.
pub proof fn lemma_found_is_finished(cache: Cache, artifact: Artifact)
    ensures
        Download::begun(cache, artifact).pending() == Step::<Component>::Ask(
            Request::CreateDirectories(Place::Root),
        ),
        Download::begun(cache, artifact).next(Reply::Done).pending() == Step::<Component>::Ask(
            Request::Exists(Place::Directory(artifact.spec_component())),
        ),
        Download::begun(cache, artifact).next(Reply::Done).next(Reply::Found(true)).pending()
            == Step::Done(artifact.spec_component()),
{
}

/// Where the directory of the component is not found, the archive is
/// created, fetched, unpacked and removed, in this order, whatever an
/// earlier download has left of it. Then the download ends.
pub proof fn lemma_missing_is_fetched(cache: Cache, artifact: Artifact)
    ensures
        ({
            let component = artifact.spec_component();
            let archive = Place::Archive(component);
            let missing = Download::begun(cache, artifact).next(Reply::Done).next(Reply::Found(false));
            &&& missing.pending() == Step::<Component>::Ask(Request::CreateFile(archive))
            &&& missing.next(Reply::Done).pending() == Step::<Component>::Ask(
                Request::Fetch(artifact, archive),
            )
            &&& missing.next(Reply::Done).next(Reply::Done).pending() == Step::<Component>::Ask(
                Request::Extract(archive, Place::Directory(component)),
            )
            &&& missing.next(Reply::Done).next(Reply::Done).next(Reply::Done).pending()
                == Step::<Component>::Ask(Request::RemoveFile(archive))
            &&& missing.next(Reply::Done).next(Reply::Done).next(Reply::Done).next(
                Reply::Done,
            ).pending() == Step::Done(component)
        }),
{
}

/// However a download goes, it is the download of the same artifact into
/// the same cache, and where it ends well it ends with the component that
/// the artifact is unpacked into.
pub proof fn lemma_download_result(cache: Cache, artifact: Artifact, replies: Seq<Reply>)
    ensures
        Download::begun(cache, artifact).after(replies).cache == cache,
        Download::begun(cache, artifact).after(replies).artifact == artifact,
        Download::begun(cache, artifact).after(replies).pending() matches Step::Done(component)
            ==> component == artifact.spec_component(),
    decreases replies.len(),
{
    if replies.len() > 0 {
        lemma_download_result(cache, artifact, replies.drop_last());
    }
}

/// Whether the download is removing what a failed unpacking has left.
pub open spec fn clearing(status: Status<Phase>) -> bool {
    status matches Status::Active(Phase::Clearing(_))
}

impl Download {
    /// What is known of the directory of the component after a reply to the
    /// download, given what was known before: whether it is there, as far as
    /// the replies tell. It is there when it was found or when the archive
    /// was unpacked into it, and it is not when it was not found or when it
    /// was removed. Where the unpacking has failed, nobody knows what is left
    /// of it.
    pub open spec fn told(self, reply: Reply, before: Option<bool>) -> Option<bool> {
        match (self.status, reply) {
            (Status::Active(Phase::Probing), Reply::Found(found)) => Some(found),
            (Status::Active(Phase::ProbingAgain(_)), Reply::Found(found)) => Some(found),
            (Status::Active(Phase::Extracting), Reply::Done) => Some(true),
            (Status::Active(Phase::Extracting), Reply::Failed(_)) => None,
            (Status::Active(Phase::Clearing(_)), Reply::Done) => Some(false),
            _ => before,
        }
    }

    /// What is known of the directory of the component after the replies to
    /// the download, one after the other, when nothing was known before.
    pub open spec fn there(self, replies: Seq<Reply>) -> Option<bool>
        decreases replies.len(),
    {
        if replies.len() == 0 {
            None
        } else {
            self.after(replies.drop_last()).told(replies.last(), self.there(replies.drop_last()))
        }
    }

    /// Whether, among the first `count` replies, one said that the unpacking
    /// has failed.
    pub open spec fn unpacking_failed(self, replies: Seq<Reply>, count: int) -> bool {
        exists|at: int|
            0 <= at < count && (#[trigger] self.after(replies.take(at))).status == Status::Active(
                Phase::Extracting,
            ) && replies[at] is Failed
    }

    /// Whether, among the first `count` replies, one said that what the
    /// unpacking had left could not be removed.
    pub open spec fn clearing_failed(self, replies: Seq<Reply>, count: int) -> bool {
        exists|at: int|
            0 <= at < count && clearing((#[trigger] self.after(replies.take(at))).status)
                && replies[at] is Failed
    }

    /// What holds of what a download knows of the directory after the first
    /// `count` replies.
    spec fn known(self, replies: Seq<Reply>, count: int) -> bool {
        let there = self.there(replies.take(count));
        match self.after(replies.take(count)).status {
            Status::Active(Phase::Preparing) | Status::Active(Phase::Probing) => there is None
                && !self.unpacking_failed(replies, count),
            Status::Active(Phase::Creating) | Status::Active(Phase::Fetching) | Status::Active(
                Phase::Extracting,
            ) => there == Some(false) && !self.unpacking_failed(replies, count),
            Status::Active(Phase::Removing) => there == Some(true) && !self.unpacking_failed(
                replies,
                count,
            ),
            Status::Active(Phase::Clearing(_)) => there is None,
            Status::Active(Phase::ProbingAgain(_)) => self.clearing_failed(replies, count),
            Status::Finished => there == Some(true),
            Status::Failed(_) => self.unpacking_failed(replies, count) ==> there == Some(false)
                || self.clearing_failed(replies, count),
        }
    }

    proof fn lemma_known(self, replies: Seq<Reply>, count: int)
        requires
            self == Download::begun(self.cache, self.artifact),
            0 <= count <= replies.len(),
        ensures
            self.known(replies, count),
        decreases count,
    {
        if count == 0 {
            assert(replies.take(0) =~= Seq::<Reply>::empty());
        } else {
            self.lemma_known(replies, count - 1);
            let before = self.after(replies.take(count - 1));
            let reply = replies[count - 1];
            assert(replies.take(count).drop_last() =~= replies.take(count - 1));
            assert(replies.take(count).last() == reply);
            assert(self.after(replies.take(count)) == before.next(reply));
            assert(self.there(replies.take(count)) == before.told(
                reply,
                self.there(replies.take(count - 1)),
            ));
            if self.unpacking_failed(replies, count - 1) {
                let at = choose|at: int|
                    0 <= at < count - 1 && (#[trigger] self.after(replies.take(at))).status
                        == Status::Active(Phase::Extracting) && replies[at] is Failed;
                assert(self.after(replies.take(at)).status == Status::Active(Phase::Extracting));
            }
            if self.clearing_failed(replies, count - 1) {
                let at = choose|at: int|
                    0 <= at < count - 1 && clearing(
                        (#[trigger] self.after(replies.take(at))).status,
                    ) && replies[at] is Failed;
                assert(clearing(self.after(replies.take(at)).status));
                assert(self.clearing_failed(replies, count));
            }
            if self.unpacking_failed(replies, count) {
                let at = choose|at: int|
                    0 <= at < count && (#[trigger] self.after(replies.take(at))).status
                        == Status::Active(Phase::Extracting) && replies[at] is Failed;
                if at < count - 1 {
                    assert(self.unpacking_failed(replies, count - 1));
                }
            }
            if clearing(before.status) && reply is Failed {
                assert(clearing(self.after(replies.take(count - 1)).status));
                assert(self.clearing_failed(replies, count));
            }
            if before.status == Status::Active(Phase::Extracting) && reply is Failed {
                assert(self.unpacking_failed(replies, count));
            }
        }
    }
}

/// A download that ends with an error after the unpacking has failed leaves
/// no directory of the component for a later download to find: it has
/// removed it, or has seen that there is none. The one way round this is that
/// the directory could not be removed either. And a download that ends well
/// leaves the directory there.
pub proof fn lemma_failed_unpacking_leaves_nothing(cache: Cache, artifact: Artifact, replies: Seq<Reply>)
    ensures
        ({
            let start = Download::begun(cache, artifact);
            let count = replies.len() as int;
            &&& start.after(replies).status is Failed && start.unpacking_failed(replies, count)
                ==> start.there(replies) == Some(false) || start.clearing_failed(replies, count)
            &&& start.after(replies).status is Finished ==> start.there(replies) == Some(true)
        }),
{
    Download::begun(cache, artifact).lemma_known(replies, replies.len() as int);
    assert(replies.take(replies.len() as int) =~= replies);
}

/// Where the unpacking fails, the download asks to remove what is left of
/// the directory of the component and ends with the error of the unpacking;
/// the archive is not removed. A download that is begun after that, and that
/// is told of the directory what the first has left of it, does not take it
/// for the component: it creates the archive anew, fetches it again, unpacks
/// it and removes it, and ends well with the directory there.
pub proof fn lemma_retry_after_failed_unpacking(cache: Cache, artifact: Artifact, failure: Failure)
    ensures
        ({
            let component = artifact.spec_component();
            let archive = Place::Archive(component);
            let directory = Place::Directory(component);
            let start = Download::begun(cache, artifact);
            let first = seq![
                Reply::Done,
                Reply::Found(false),
                Reply::Done,
                Reply::Done,
                Reply::Failed(failure),
                Reply::Done,
            ];
            let left = start.there(first);
            let retry = seq![
                Reply::Done,
                Reply::Found(left == Some(true)),
                Reply::Done,
                Reply::Done,
                Reply::Done,
                Reply::Done,
            ];
            &&& start.after(first.take(4)).pending() == Step::<Component>::Ask(
                Request::Extract(archive, directory),
            )
            &&& start.after(first.take(5)).pending() == Step::<Component>::Ask(
                Request::RemoveDirectories(directory),
            )
            &&& start.after(first).pending() == Step::<Component>::Failed(Error::of(failure))
            &&& left == Some(false)
            &&& start.after(retry.take(2)).pending() == Step::<Component>::Ask(
                Request::CreateFile(archive),
            )
            &&& start.after(retry.take(3)).pending() == Step::<Component>::Ask(
                Request::Fetch(artifact, archive),
            )
            &&& start.after(retry.take(4)).pending() == Step::<Component>::Ask(
                Request::Extract(archive, directory),
            )
            &&& start.after(retry.take(5)).pending() == Step::<Component>::Ask(
                Request::RemoveFile(archive),
            )
            &&& start.after(retry).pending() == Step::Done(component)
            &&& start.there(retry) == Some(true)
        }),
{
    let start = Download::begun(cache, artifact);
    let first = seq![
        Reply::Done,
        Reply::Found(false),
        Reply::Done,
        Reply::Done,
        Reply::Failed(failure),
        Reply::Done,
    ];
    lemma_step(start, first, 0);
    lemma_step(start, first, 1);
    lemma_step(start, first, 2);
    lemma_step(start, first, 3);
    assert(start.after(first.take(4)).status == Status::Active(Phase::Extracting));
    lemma_step(start, first, 4);
    assert(start.after(first.take(5)).status == Status::Active(Phase::Clearing(failure)));
    lemma_step(start, first, 5);
    assert(first.take(6) =~= first);
    assert(start.there(first) == Some(false));
    let retry = seq![
        Reply::Done,
        Reply::Found(false),
        Reply::Done,
        Reply::Done,
        Reply::Done,
        Reply::Done,
    ];
    lemma_step(start, retry, 0);
    lemma_step(start, retry, 1);
    assert(start.after(retry.take(2)).status == Status::Active(Phase::Creating));
    lemma_step(start, retry, 2);
    lemma_step(start, retry, 3);
    assert(start.after(retry.take(4)).status == Status::Active(Phase::Extracting));
    lemma_step(start, retry, 4);
    assert(start.after(retry.take(5)).status == Status::Active(Phase::Removing));
    lemma_step(start, retry, 5);
    assert(retry.take(6) =~= retry);
}

/// One reply more takes a download, and what it knows of the directory, one
/// step on.
proof fn lemma_step(start: Download, replies: Seq<Reply>, count: int)
    requires
        0 <= count < replies.len(),
    ensures
        start.after(replies.take(count + 1)) == start.after(replies.take(count)).next(
            replies[count],
        ),
        start.there(replies.take(count + 1)) == start.after(replies.take(count)).told(
            replies[count],
            start.there(replies.take(count)),
        ),
        count == 0 ==> start.after(replies.take(count)) == start && start.there(
            replies.take(count),
        ) is None,
{
    assert(replies.take(count + 1).drop_last() =~= replies.take(count));
    assert(replies.take(count + 1).last() == replies[count]);
    if count == 0 {
        assert(replies.take(0) =~= Seq::<Reply>::empty());
    }
}

/// The archive is removed only when it has been unpacked: a download comes
/// to ask for the removal by no other way than a good end of the unpacking.
/// A failure ends the download with the error of its kind, at once but
/// where it is the unpacking that failed; and after its end a download asks
/// for nothing more.
pub proof fn lemma_removed_when_unpacked(download: Download, reply: Reply)
    ensures
        download.next(reply).status == Status::Active(Phase::Removing) ==> download.status
            == Status::Active(Phase::Removing) || (download.status == Status::Active(
            Phase::Extracting,
        ) && reply == Reply::Done),
        download.status matches Status::Active(phase) && !(phase is Extracting || phase
            is Clearing) ==> (reply matches Reply::Failed(failure) ==> download.next(
            reply,
        ).pending() == Step::<Component>::Failed(Error::of(failure))),
        !(download.status is Active) ==> download.next(reply) == download,
{
}

impl Download {
    /// Whether one of the first `count` replies was the given one, to what
    /// the given phase asked for.
    pub open spec fn answered(
        self,
        replies: Seq<Reply>,
        count: int,
        phase: Phase,
        reply: Reply,
    ) -> bool {
        exists|at: int|
            0 <= at < count && (#[trigger] self.after(replies.take(at))).status == Status::Active(
                phase,
            ) && replies[at] == reply
    }

    /// What holds of a download after the first `count` replies: it has
    /// not come to unpack before the archive was fetched, nor to remove
    /// before it was unpacked, nor to a good end before the directory was
    /// found or the archive removed.
    spec fn kept(self, replies: Seq<Reply>, count: int) -> bool {
        let fetched = self.answered(replies, count, Phase::Fetching, Reply::Done);
        let unpacked = self.answered(replies, count, Phase::Extracting, Reply::Done);
        let removed = self.answered(replies, count, Phase::Removing, Reply::Done);
        let found = self.answered(replies, count, Phase::Probing, Reply::Found(true));
        match self.after(replies.take(count)).status {
            Status::Active(Phase::Extracting) => fetched,
            Status::Active(Phase::Removing) => fetched && unpacked,
            Status::Finished => found || (fetched && unpacked && removed),
            _ => true,
        }
    }

    proof fn lemma_kept(self, replies: Seq<Reply>, count: int)
        requires
            self == Download::begun(self.cache, self.artifact),
            0 <= count <= replies.len(),
        ensures
            self.kept(replies, count),
        decreases count,
    {
        if count == 0 {
            assert(replies.take(0) =~= Seq::<Reply>::empty());
        } else {
            self.lemma_kept(replies, count - 1);
            let before = self.after(replies.take(count - 1));
            let reply = replies[count - 1];
            assert(replies.take(count).drop_last() =~= replies.take(count - 1));
            assert(replies.take(count).last() == reply);
            assert(self.after(replies.take(count)) == before.next(reply));
            assert forall|phase: Phase, reply: Reply|
                self.answered(replies, count - 1, phase, reply) implies self.answered(
                replies,
                count,
                phase,
                reply,
            ) by {
                let at = choose|at: int|
                    0 <= at < count - 1 && (#[trigger] self.after(replies.take(at))).status
                        == Status::Active(phase) && replies[at] == reply;
                assert(self.after(replies.take(at)).status == Status::Active(phase));
            }
            if let Status::Active(phase) = before.status {
                assert(self.answered(replies, count, phase, reply));
            }
        }
    }
}

/// A download ends well only when the directory of the component was found,
/// or when the archive was fetched, unpacked and removed.
pub proof fn lemma_download_complete(cache: Cache, artifact: Artifact, replies: Seq<Reply>)
    requires
        Download::begun(cache, artifact).after(replies).status is Finished,
    ensures
        ({
            let start = Download::begun(cache, artifact);
            let count = replies.len() as int;
            ||| start.answered(replies, count, Phase::Probing, Reply::Found(true))
            ||| {
                &&& start.answered(replies, count, Phase::Fetching, Reply::Done)
                &&& start.answered(replies, count, Phase::Extracting, Reply::Done)
                &&& start.answered(replies, count, Phase::Removing, Reply::Done)
            }
        }),
{
    Download::begun(cache, artifact).lemma_kept(replies, replies.len() as int);
    assert(replies.take(replies.len() as int) =~= replies);
}

/// A reply that does not answer what a download asks for changes nothing.
pub proof fn lemma_unanswered(download: Download, reply: Reply)
    requires
        download.pending() matches Step::Ask(request) && !reply.answers(request),
    ensures
        download.next(reply) == download,
{
}

} // verus!
