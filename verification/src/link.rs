//! Putting the components of an install together in one directory.
//!
//! The directory of the install is created unless it is there. Then every
//! regular file of every component is linked into it under its own name,
//! unless something of that name is there already. Nothing is ever written
//! over, so doing the same twice, or two at a time, does no harm; and a
//! directory that an earlier linking left short of files is filled up by
//! the next one.
//!
//! Nothing guards the cache against others who work in it at the same time.
//! So where the directory cannot be created, or a file cannot be linked, the
//! linking looks once more: if what it wanted to make is there now, somebody
//! else has made it, and the linking goes on. Only if it is still missing
//! has the linking failed.

use crate::cache::{Cache, Component, Instance, Place};
use crate::error::{Error, Failure};
use crate::platform::Platform;
use crate::work::{Reply, Request, Status, Step};
use vstd::prelude::*;

verus! {

/// What the linking of an install is waiting for.
#[derive(Debug, Clone, Copy, PartialEq, Eq, Structural)]
pub enum Phase {
    /// The directory of the install is being looked for.
    Probing,
    /// The directory of the install is being created.
    Creating,
    /// The directory of the install could not be created, for the reason
    /// given, and is being looked for once more.
    ProbingAgain(Failure),
    /// The directory of a component is being opened.
    Opening(Component),
    /// The next entry of the directory of a component is being read.
    Reading(Component),
    /// The name of the entry that was read last from the directory of a
    /// component is being looked for in the install.
    Checking(Component),
    /// The entry that was read last from the directory of a component is
    /// being linked into the install.
    Linking(Component),
    /// The entry that was read last from the directory of a component could
    /// not be linked, for the reason given, and its name is being looked for
    /// in the install once more.
    CheckingAgain(Component, Failure),
}

/// The linking of one install.
#[derive(Debug, PartialEq, Eq, Structural)]
pub struct Link {
    /// The cache that the places of the linking are places in.
    pub cache: Cache,
    pub instance: Instance,
    pub platform: Platform,
    pub status: Status<Phase>,
}

impl Phase {
    /// What the phase asks for, in the linking of the install.
    pub open spec fn asks(self, instance: Instance) -> Request {
        let install = Place::Install(instance);
        match self {
            Phase::Probing | Phase::ProbingAgain(_) => Request::Exists(install),
            Phase::Creating => Request::CreateDirectory(install),
            Phase::Opening(component) => Request::ReadDirectory(Place::Directory(component)),
            Phase::Reading(component) => Request::NextEntry(Place::Directory(component)),
            Phase::Checking(_) | Phase::CheckingAgain(_, _) => Request::ExistsEntry(install),
            Phase::Linking(component) => Request::LinkEntry(Place::Directory(component), install),
        }
    }

    /// Where the linking stands after a reply to what the phase asked for.
    /// Where the directory could not be created or a file could not be
    /// linked, the linking looks once more, and goes on if it is there now;
    /// any other failure ends the linking, and so does the news that it is
    /// still missing. A reply that does not answer the request changes
    /// nothing.
    pub open spec fn next(self, instance: Instance, reply: Reply) -> Status<Phase> {
        match (self, reply) {
            (Phase::Creating, Reply::Failed(failure)) => Status::Active(
                Phase::ProbingAgain(failure),
            ),
            (Phase::Linking(component), Reply::Failed(failure)) => Status::Active(
                Phase::CheckingAgain(component, failure),
            ),
            (_, Reply::Failed(failure)) => Status::Failed(Error::of(failure)),
            (Phase::ProbingAgain(_), Reply::Found(true)) => Status::Active(
                Phase::Opening(Component::Server),
            ),
            (Phase::ProbingAgain(failure), Reply::Found(false)) => Status::Failed(
                Error::of(failure),
            ),
            (Phase::CheckingAgain(component, _), Reply::Found(true)) => Status::Active(
                Phase::Reading(component),
            ),
            (Phase::CheckingAgain(_, failure), Reply::Found(false)) => Status::Failed(
                Error::of(failure),
            ),
            (Phase::Probing, Reply::Found(true)) => Status::Active(
                Phase::Opening(Component::Server),
            ),
            (Phase::Probing, Reply::Found(false)) => Status::Active(Phase::Creating),
            (Phase::Creating, Reply::Done) => Status::Active(Phase::Opening(Component::Server)),
            (Phase::Opening(component), Reply::Done) => Status::Active(Phase::Reading(component)),
            (Phase::Reading(component), Reply::Entry(true)) => Status::Active(
                Phase::Checking(component),
            ),
            (Phase::Reading(component), Reply::Entry(false)) => Status::Active(self),
            (Phase::Reading(component), Reply::End) => match instance.following(component) {
                Some(next) => Status::Active(Phase::Opening(next)),
                None => Status::Finished,
            },
            (Phase::Checking(component), Reply::Found(true)) => Status::Active(
                Phase::Reading(component),
            ),
            (Phase::Checking(component), Reply::Found(false)) => Status::Active(
                Phase::Linking(component),
            ),
            (Phase::Linking(component), Reply::Done) => Status::Active(Phase::Reading(component)),
            _ => Status::Active(self),
        }
    }

    /// What the phase asks for, in the linking of the install.
    pub fn request(self, instance: Instance) -> (request: Request)
        ensures
            request == self.asks(instance),
    {
        let install = Place::Install(instance);
        match self {
            Phase::Probing | Phase::ProbingAgain(_) => Request::Exists(install),
            Phase::Creating => Request::CreateDirectory(install),
            Phase::Opening(component) => Request::ReadDirectory(Place::Directory(component)),
            Phase::Reading(component) => Request::NextEntry(Place::Directory(component)),
            Phase::Checking(_) | Phase::CheckingAgain(_, _) => Request::ExistsEntry(install),
            Phase::Linking(component) => Request::LinkEntry(Place::Directory(component), install),
        }
    }

    /// Where the linking stands after a reply to what the phase asked for.
    pub fn advance(self, instance: Instance, reply: Reply) -> (status: Status<Phase>)
        ensures
            status == self.next(instance, reply),
    {
        match reply {
            Reply::Failed(failure) => match self {
                Phase::Creating => Status::Active(Phase::ProbingAgain(failure)),
                Phase::Linking(component) => Status::Active(
                    Phase::CheckingAgain(component, failure),
                ),
                _ => Status::Failed(Error::from(failure)),
            },
            Reply::Done => match self {
                Phase::Creating => Status::Active(Phase::Opening(Component::Server)),
                Phase::Opening(component) => Status::Active(Phase::Reading(component)),
                Phase::Linking(component) => Status::Active(Phase::Reading(component)),
                _ => Status::Active(self),
            },
            Reply::Found(found) => match self {
                Phase::Probing => if found {
                    Status::Active(Phase::Opening(Component::Server))
                } else {
                    Status::Active(Phase::Creating)
                },
                Phase::ProbingAgain(failure) => if found {
                    Status::Active(Phase::Opening(Component::Server))
                } else {
                    Status::Failed(Error::from(failure))
                },
                Phase::Checking(component) => if found {
                    Status::Active(Phase::Reading(component))
                } else {
                    Status::Active(Phase::Linking(component))
                },
                Phase::CheckingAgain(component, failure) => if found {
                    Status::Active(Phase::Reading(component))
                } else {
                    Status::Failed(Error::from(failure))
                },
                _ => Status::Active(self),
            },
            Reply::Entry(file) => match self {
                Phase::Reading(component) => if file {
                    Status::Active(Phase::Checking(component))
                } else {
                    Status::Active(self)
                },
                _ => Status::Active(self),
            },
            Reply::End => match self {
                Phase::Reading(component) => match instance.next(component) {
                    Some(next) => Status::Active(Phase::Opening(next)),
                    None => Status::Finished,
                },
                _ => Status::Active(self),
            },
        }
    }
}

impl Link {
    /// The linking of an install, before anything has been done.
    pub open spec fn begun(cache: Cache, instance: Instance, platform: Platform) -> Link {
        Link { cache, instance, platform, status: Status::Active(Phase::Probing) }
    }

    /// Where the linking stands: what it asks for, or how it ended. It ends
    /// well with the place of the server program in the install. Whether
    /// the program is there is not looked into.
    pub open spec fn pending(self) -> Step<Place> {
        match self.status {
            Status::Active(phase) => Step::Ask(phase.asks(self.instance)),
            Status::Finished => Step::Done(Place::Executable(self.instance, self.platform)),
            Status::Failed(error) => Step::Failed(error),
        }
    }

    /// The linking after a reply. After its end a linking takes no reply.
    pub open spec fn next(self, reply: Reply) -> Link {
        match self.status {
            Status::Active(phase) => Link {
                cache: self.cache,
                instance: self.instance,
                platform: self.platform,
                status: phase.next(self.instance, reply),
            },
            _ => self,
        }
    }

    /// The linking after the replies, one after the other.
    pub open spec fn after(self, replies: Seq<Reply>) -> Link
        decreases replies.len(),
    {
        if replies.len() == 0 {
            self
        } else {
            self.after(replies.drop_last()).next(replies.last())
        }
    }

    /// Where the linking stands: what it asks for, or how it ended.
    pub fn current(&self) -> (step: Step<Place>)
        ensures
            step == self.pending(),
    {
        match self.status {
            Status::Active(phase) => Step::Ask(phase.request(self.instance)),
            Status::Finished => Step::Done(Place::Executable(self.instance, self.platform)),
            Status::Failed(error) => Step::Failed(error),
        }
    }

    /// Takes the reply to what the linking asked for, and tells where the
    /// linking stands then.
    pub fn resume(&mut self, reply: Reply) -> (step: Step<Place>)
        ensures
            *final(self) == old(self).next(reply),
            step == final(self).pending(),
    {
        if let Status::Active(phase) = self.status {
            self.status = phase.advance(self.instance, reply);
        }
        self.current()
    }
}

impl Cache {
    /// Begins the linking of the install that is made of the server and the
    /// given components, for a platform. Neither the order of the components
    /// nor how often one occurs matters.
    pub fn link(&self, components: &Vec<Component>, platform: Platform) -> (link: Link)
        ensures
            link.instance@ == components@.to_set().insert(Component::Server),
            link == Link::begun(*self, link.instance, platform),
    {
        Link {
            cache: *self,
            instance: Instance::new(components),
            platform,
            status: Status::Active(Phase::Probing),
        }
    }
}

/// An install whose directory is there is gone through like one whose
/// directory was made just now: what it lacks of the files of its components
/// is filled in.
pub proof fn lemma_found_is_filled(cache: Cache, instance: Instance, platform: Platform)
    ensures
        Link::begun(cache, instance, platform).pending() == Step::<Place>::Ask(
            Request::Exists(Place::Install(instance)),
        ),
        Link::begun(cache, instance, platform).next(Reply::Found(true)).pending() == Step::<Place>::Ask(
            Request::ReadDirectory(Place::Directory(Component::Server)),
        ),
        Link::begun(cache, instance, platform).next(Reply::Found(true)) == Link::begun(cache, instance, platform).next(Reply::Found(false)).next(Reply::Done),
{
}

/// Nothing in an install is written over, and nothing but regular files is
/// linked: a linking comes to ask for a link by no other way than the news
/// that the name is not in the install yet, and it asks about a name by
/// no other way than the news that a regular file was read.
pub proof fn lemma_linked_when_absent(link: Link, reply: Reply, component: Component)
    ensures
        link.next(reply).status == Status::Active(Phase::Linking(component)) ==> link.status
            == Status::Active(Phase::Linking(component)) || (link.status == Status::Active(
            Phase::Checking(component),
        ) && reply == Reply::Found(false)),
        link.next(reply).status == Status::Active(Phase::Checking(component)) ==> link.status
            == Status::Active(Phase::Checking(component)) || (link.status == Status::Active(
            Phase::Reading(component),
        ) && reply == Reply::Entry(true)),
{
}

/// What somebody else has made in the meantime is no failure. Where the
/// directory of the install could not be created, or a file could not be
/// linked, and a second look finds it there, the linking goes on as if it
/// had made it. Where the second look does not find it, the linking ends
/// with the error of the kind of what went wrong at first.
pub proof fn lemma_made_by_another(
    cache: Cache,
    instance: Instance,
    platform: Platform,
    component: Component,
    failure: Failure,
)
    ensures
        ({
            let creating = Link {
                cache,
                instance,
                platform,
                status: Status::Active(Phase::Creating),
            };
            let failed = creating.next(Reply::Failed(failure));
            &&& failed.pending() == Step::<Place>::Ask(Request::Exists(Place::Install(instance)))
            &&& failed.next(Reply::Found(true)) == creating.next(Reply::Done)
            &&& failed.next(Reply::Found(false)).pending() == Step::<Place>::Failed(
                Error::of(failure),
            )
        }),
        ({
            let linking = Link {
                cache,
                instance,
                platform,
                status: Status::Active(Phase::Linking(component)),
            };
            let failed = linking.next(Reply::Failed(failure));
            &&& failed.pending() == Step::<Place>::Ask(
                Request::ExistsEntry(Place::Install(instance)),
            )
            &&& failed.next(Reply::Found(true)) == linking.next(Reply::Done)
            &&& failed.next(Reply::Found(false)).pending() == Step::<Place>::Failed(
                Error::of(failure),
            )
        }),
{
}

/// However a linking goes, it is the linking of the same install in the
/// same cache, and where
/// it ends well it ends with the place of the server program in it.
pub proof fn lemma_link_result(cache: Cache, instance: Instance, platform: Platform, replies: Seq<Reply>)
    ensures
        Link::begun(cache, instance, platform).after(replies).cache == cache,
        Link::begun(cache, instance, platform).after(replies).instance == instance,
        Link::begun(cache, instance, platform).after(replies).platform == platform,
        Link::begun(cache, instance, platform).after(replies).pending() matches Step::Done(place)
            ==> place == Place::Executable(instance, platform),
    decreases replies.len(),
{
    if replies.len() > 0 {
        lemma_link_result(cache, instance, platform, replies.drop_last());
    }
}

impl Link {
    /// Whether one of the first `count` replies was the given one, to what
    /// the given phase asked for.
    pub open spec fn answered(
        self,
        replies: Seq<Reply>,
        count: int,
        phase: Phase,
        reply: Reply,
    ) -> bool {
        exists|at: int|
            0 <= at < count && (#[trigger] self.after(replies.take(at))).status == Status::Active(
                phase,
            ) && replies[at] == reply
    }

    /// Whether, among the first `count` replies, the directory of the
    /// component was read to its end.
    pub open spec fn read(self, replies: Seq<Reply>, count: int, component: Component) -> bool {
        self.answered(replies, count, Phase::Reading(component), Reply::End)
    }

    /// Whether, among the first `count` replies, the linking has come as far
    /// as the component: the component is part of the install, and the
    /// directory of every component before it was read to its end.
    spec fn reached(self, replies: Seq<Reply>, count: int, current: Component) -> bool {
        &&& self.instance.has(current)
        &&& forall|component: Component|
            self.instance.has(component) && component.rank() < current.rank()
                ==> #[trigger] self.read(replies, count, component)
    }

    /// Whether, among the first `count` replies, the directory of every
    /// component of the install was read to its end.
    spec fn read_all(self, replies: Seq<Reply>, count: int) -> bool {
        forall|component: Component|
            self.instance.has(component) ==> #[trigger] self.read(replies, count, component)
    }

    /// What holds of a linking after the first `count` replies: it has not
    /// come to a component before the directories of those before it were
    /// read to their ends, nor to a good end before those of all were.
    spec fn kept(self, replies: Seq<Reply>, count: int) -> bool {
        match self.after(replies.take(count)).status {
            Status::Active(Phase::Opening(current)) => self.reached(replies, count, current),
            Status::Active(Phase::Reading(current)) => self.reached(replies, count, current),
            Status::Active(Phase::Checking(current)) => self.reached(replies, count, current),
            Status::Active(Phase::Linking(current)) => self.reached(replies, count, current),
            Status::Active(Phase::CheckingAgain(current, _)) => self.reached(
                replies,
                count,
                current,
            ),
            Status::Finished => self.read_all(replies, count),
            _ => true,
        }
    }

    /// What one of the replies has answered it still has answered when more
    /// replies are counted.
    proof fn lemma_answered_stays(self, replies: Seq<Reply>, count: int)
        requires
            0 < count <= replies.len(),
        ensures
            forall|phase: Phase, reply: Reply|
                self.answered(replies, count - 1, phase, reply) ==> self.answered(
                    replies,
                    count,
                    phase,
                    reply,
                ),
            forall|component: Component|
                self.read(replies, count - 1, component) ==> self.read(replies, count, component),
            forall|current: Component|
                self.reached(replies, count - 1, current) ==> self.reached(
                    replies,
                    count,
                    current,
                ),
            self.read_all(replies, count - 1) ==> self.read_all(replies, count),
            self.after(replies.take(count - 1)).status matches Status::Active(phase)
                ==> self.answered(replies, count, phase, replies[count - 1]),
    {
        assert forall|phase: Phase, reply: Reply|
            self.answered(replies, count - 1, phase, reply) implies self.answered(
            replies,
            count,
            phase,
            reply,
        ) by {
            let at = choose|at: int|
                0 <= at < count - 1 && (#[trigger] self.after(replies.take(at))).status
                    == Status::Active(phase) && replies[at] == reply;
            assert(self.after(replies.take(at)).status == Status::Active(phase));
        }
        if let Status::Active(phase) = self.after(replies.take(count - 1)).status {
            assert(self.answered(replies, count, phase, replies[count - 1]));
        }
        assert forall|current: Component|
            self.reached(replies, count - 1, current) implies self.reached(
            replies,
            count,
            current,
        ) by {
            assert forall|component: Component|
                self.instance.has(component) && component.rank() < current.rank()
                    implies #[trigger] self.read(replies, count, component) by {
                assert(self.read(replies, count - 1, component));
            }
        }
        if self.read_all(replies, count - 1) {
            assert forall|component: Component|
                self.instance.has(component) implies #[trigger] self.read(
                replies,
                count,
                component,
            ) by {
                assert(self.read(replies, count - 1, component));
            }
        }
    }

    proof fn lemma_kept(self, replies: Seq<Reply>, count: int)
        requires
            self == Link::begun(self.cache, self.instance, self.platform),
            0 <= count <= replies.len(),
        ensures
            self.kept(replies, count),
        decreases count,
    {
        if count == 0 {
            assert(replies.take(0) =~= Seq::<Reply>::empty());
        } else {
            self.lemma_kept(replies, count - 1);
            self.lemma_answered_stays(replies, count);
            lemma_link_result(self.cache, self.instance, self.platform, replies.take(count - 1));
            let before = self.after(replies.take(count - 1));
            let reply = replies[count - 1];
            assert(replies.take(count).drop_last() =~= replies.take(count - 1));
            assert(replies.take(count).last() == reply);
            assert(self.after(replies.take(count)) == before.next(reply));
            match (before.status, reply) {
                (Status::Active(Phase::Reading(current)), Reply::End) => {
                    assert(self.read(replies, count, current));
                    assert forall|component: Component|
                        self.instance.has(component) && component.rank() <= current.rank()
                            implies #[trigger] self.read(replies, count, component) by {
                        if component.rank() == current.rank() {
                            assert(component == current);
                        }
                    }
                },
                _ => {},
            }
        }
    }
}

/// A linking ends well only when the directory of every component was read
/// to its end: no component is left out, and none is left before its last
/// entry, whether the directory of the install was there or not.
pub proof fn lemma_link_complete(
    cache: Cache,
    instance: Instance,
    platform: Platform,
    replies: Seq<Reply>,
    component: Component,
)
    requires
        Link::begun(cache, instance, platform).after(replies).status is Finished,
        instance.has(component),
    ensures
        Link::begun(cache, instance, platform).read(replies, replies.len() as int, component),
{
    Link::begun(cache, instance, platform).lemma_kept(replies, replies.len() as int);
    assert(replies.take(replies.len() as int) =~= replies);
}

/// A reply that does not answer what a linking asks for changes nothing.
pub proof fn lemma_unanswered(link: Link, reply: Reply)
    requires
        link.pending() matches Step::Ask(request) && !reply.answers(request),
    ensures
        link.next(reply) == link,
{
}

} // verus!
