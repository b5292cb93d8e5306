//! The cache of one release: what lies in it and under which names.

use crate::artifact::Artifact;
use crate::backend::{Backend, Backends};
use crate::platform::Platform;
use crate::release::{lemma_text_tells_apart, Build, ParseError};
use crate::text::{join, joined, names, texts};
use vstd::prelude::*;
use vstd::seq_lib::lemma_seq_contains_after_push;
use vstd::string::*;

verus! {

/// What the cache stores of a release: the unpacked server, or the unpacked
/// libraries of one backend. The server comes first, then the backends in
/// their own order.
#[derive(Debug, Clone, Copy, PartialEq, Eq, PartialOrd, Ord, Structural)]
pub enum Component {
    Server,
    Backend(Backend),
}

impl Component {
    /// The name of the directory that holds the unpacked component.
    pub open spec fn spec_directory(self) -> Seq<char> {
        match self {
            Component::Server => "server"@,
            Component::Backend(Backend::Cuda) => "backend-cuda"@,
            Component::Backend(Backend::Hip) => "backend-hip"@,
        }
    }

    /// The name of the archive that the component is unpacked from.
    pub open spec fn spec_archive(self) -> Seq<char> {
        self.spec_directory() + ".zip"@
    }

    /// The place of the component in the order of components.
    pub open spec fn rank(self) -> nat {
        match self {
            Component::Server => 0,
            Component::Backend(Backend::Cuda) => 1,
            Component::Backend(Backend::Hip) => 2,
        }
    }

    /// The artifact that the component is unpacked from.
    pub open spec fn spec_artifact(self) -> Artifact {
        match self {
            Component::Server => Artifact::Server,
            Component::Backend(backend) => Artifact::Backend(backend),
        }
    }

    /// The name of the directory that holds the unpacked component.
    pub fn directory(self) -> (name: &'static str)
        ensures
            name@ == self.spec_directory(),
    {
        match self {
            Component::Server => "server",
            Component::Backend(backend) => match backend {
                Backend::Cuda => "backend-cuda",
                Backend::Hip => "backend-hip",
            },
        }
    }

    /// The name of the archive that the component is unpacked from.
    pub fn archive(self) -> (name: String)
        ensures
            name@ == self.spec_archive(),
    {
        let mut name = String::from_str(self.directory());
        name.append(".zip");
        name
    }

    /// The artifact that the component is unpacked from.
    pub fn artifact(self) -> (artifact: Artifact)
        ensures
            artifact == self.spec_artifact(),
    {
        match self {
            Component::Server => Artifact::Server,
            Component::Backend(backend) => Artifact::Backend(backend),
        }
    }
}

/// The components that one install is made of: the server, always, and a set
/// of backends.
#[derive(Debug, Clone, Copy, PartialEq, Eq, Structural)]
pub struct Instance {
    pub backends: Backends,
}

impl View for Instance {
    type V = Set<Component>;

    open spec fn view(&self) -> Set<Component> {
        Set::new(|component: Component| self.has(component))
    }
}

impl Instance {
    /// Whether the component is part of the install.
    pub open spec fn has(self, component: Component) -> bool {
        match component {
            Component::Server => true,
            Component::Backend(backend) => self.backends.has(backend),
        }
    }

    /// The components of the install, each once, in their order.
    pub open spec fn members(self) -> Seq<Component> {
        seq![Component::Server] + (if self.backends.cuda {
            seq![Component::Backend(Backend::Cuda)]
        } else {
            Seq::empty()
        }) + (if self.backends.hip {
            seq![Component::Backend(Backend::Hip)]
        } else {
            Seq::empty()
        })
    }

    /// The names of the backends of the install, in their order.
    pub open spec fn names(self) -> Seq<Seq<char>> {
        (if self.backends.cuda {
            seq![Backend::Cuda.spec_name()]
        } else {
            Seq::empty()
        }) + (if self.backends.hip {
            seq![Backend::Hip.spec_name()]
        } else {
            Seq::empty()
        })
    }

    /// The name of the directory of the install: the names of its backends,
    /// in their order, with `-` between them; without a backend, the name of
    /// the server's own directory.
    pub open spec fn spec_directory(self) -> Seq<char> {
        if self.names().len() == 0 {
            Component::Server.spec_directory()
        } else {
            joined(self.names(), "-"@)
        }
    }

    /// The component of the install that comes next after the given one, if
    /// any does: the one of the lowest rank among those of a higher rank.
    pub open spec fn following(self, component: Component) -> Option<Component> {
        if component.rank() < 1 && self.backends.cuda {
            Some(Component::Backend(Backend::Cuda))
        } else if component.rank() < 2 && self.backends.hip {
            Some(Component::Backend(Backend::Hip))
        } else {
            None
        }
    }

    /// The install made of the server and the given components. Neither the
    /// order of the components nor how often one occurs matters.
    pub fn new(components: &Vec<Component>) -> (instance: Instance)
        ensures
            instance@ == components@.to_set().insert(Component::Server),
    {
        let mut backends = Backends::empty();
        for i in 0..components.len()
            invariant
                backends.cuda == components@.take(i as int).contains(
                    Component::Backend(Backend::Cuda),
                ),
                backends.hip == components@.take(i as int).contains(
                    Component::Backend(Backend::Hip),
                ),
        {
            proof {
                let seen = components@.take(i as int);
                components@.lemma_take_succ_push(i as int);
                lemma_seq_contains_after_push(
                    seen,
                    components@[i as int],
                    Component::Backend(Backend::Cuda),
                );
                lemma_seq_contains_after_push(
                    seen,
                    components@[i as int],
                    Component::Backend(Backend::Hip),
                );
            }
            match components[i] {
                Component::Server => {},
                Component::Backend(backend) => {
                    backends = backends.union(Backends::only(backend));
                },
            }
        }
        let instance = Instance { backends };
        proof {
            assert(components@.take(components.len() as int) =~= components@);
            assert forall|component: Component|
                instance@.contains(component) <==> components@.to_set().insert(
                    Component::Server,
                ).contains(component) by {
                match component {
                    Component::Server => {},
                    Component::Backend(Backend::Cuda) => {},
                    Component::Backend(Backend::Hip) => {},
                }
            }
            assert(instance@ =~= components@.to_set().insert(Component::Server));
        }
        instance
    }

    /// The components of the install, each once, in their order.
    pub fn components(self) -> (components: Vec<Component>)
        ensures
            components@ == self.members(),
    {
        let mut components = Vec::new();
        components.push(Component::Server);
        if self.backends.cuda {
            components.push(Component::Backend(Backend::Cuda));
        }
        if self.backends.hip {
            components.push(Component::Backend(Backend::Hip));
        }
        assert(components@ =~= self.members());
        components
    }

    /// The component of the install that comes next after the given one, if
    /// any does.
    pub fn next(self, component: Component) -> (next: Option<Component>)
        ensures
            next == self.following(component),
    {
        let cuda = Component::Backend(Backend::Cuda);
        let hip = Component::Backend(Backend::Hip);
        match component {
            Component::Server => if self.backends.cuda {
                Some(cuda)
            } else if self.backends.hip {
                Some(hip)
            } else {
                None
            },
            Component::Backend(Backend::Cuda) => if self.backends.hip {
                Some(hip)
            } else {
                None
            },
            Component::Backend(Backend::Hip) => None,
        }
    }

    /// The name of the directory of the install.
    pub fn directory(self) -> (name: String)
        ensures
            name@ == self.spec_directory(),
    {
        let mut names: Vec<&str> = Vec::new();
        if self.backends.cuda {
            names.push(Backend::Cuda.name());
        }
        if self.backends.hip {
            names.push(Backend::Hip.name());
        }
        assert(texts(names@) =~= self.names());
        if names.len() == 0 {
            String::from_str(Component::Server.directory())
        } else {
            join(&names, "-")
        }
    }
}

/// Going from the server to what follows, and on from there, leads through
/// the components of an install in their order, each once, and ends after the
/// last.
pub proof fn lemma_following(instance: Instance, index: int)
    requires
        0 <= index < instance.members().len(),
    ensures
        instance.members()[0] == Component::Server,
        instance.following(instance.members()[index]) == if index + 1
            < instance.members().len() {
            Some(instance.members()[index + 1])
        } else {
            None
        },
        forall|i: int, j: int|
            0 <= i < j < instance.members().len() ==> instance.members()[i].rank()
                < instance.members()[j].rank(),
        forall|component: Component|
            instance.has(component) <==> instance.members().contains(component),
{
    let members = instance.members();
    assert forall|component: Component| instance.has(component) implies members.contains(
        component,
    ) by {
        match component {
            Component::Server => {
                assert(members[0] == component);
            },
            Component::Backend(Backend::Cuda) => {
                assert(members[1] == component);
            },
            Component::Backend(Backend::Hip) => {
                assert(members[members.len() - 1] == component);
            },
        }
    }
}

/// An install is known by the set of its components: two lists that hold
/// the same components, in whatever order and however often, give the same
/// install, and so the same directory.
pub proof fn lemma_instance_by_components(first: Instance, second: Instance)
    requires
        first@ == second@,
    ensures
        first == second,
        first.spec_directory() == second.spec_directory(),
{
    assert(first@.contains(Component::Backend(Backend::Cuda)) == first.backends.cuda);
    assert(second@.contains(Component::Backend(Backend::Cuda)) == second.backends.cuda);
    assert(first@.contains(Component::Backend(Backend::Hip)) == first.backends.hip);
    assert(second@.contains(Component::Backend(Backend::Hip)) == second.backends.hip);
}

/// Different installs have different directories, and none but that of the
/// server alone, which is the directory of the server itself, has the name
/// of the directory or of the archive of a component.
pub proof fn lemma_directories_tell_apart(first: Instance, second: Instance, component: Component)
    ensures
        first.spec_directory() == second.spec_directory() ==> first == second,
        first.spec_directory() == component.spec_directory() ==> first.members() == seq![
            Component::Server,
        ] && component == Component::Server,
        first.spec_directory() != component.spec_archive(),
{
    reveal_strlit("server");
    reveal_strlit("cuda");
    reveal_strlit("hip");
    reveal_strlit("-");
    reveal_strlit("backend-cuda");
    reveal_strlit("backend-hip");
    reveal_strlit(".zip");
    let both = seq!["cuda"@, "hip"@];
    assert(both.drop_last() =~= seq!["cuda"@]);
    assert(joined(both, "-"@).len() == 8) by {
        assert(joined(both.drop_last(), "-"@) == "cuda"@);
    }
    assert(first.names() =~= both || first.names() =~= seq!["cuda"@] || first.names() =~= seq![
        "hip"@,
    ] || first.names() =~= Seq::<Seq<char>>::empty());
    assert(second.names() =~= both || second.names() =~= seq!["cuda"@] || second.names()
        =~= seq!["hip"@] || second.names() =~= Seq::<Seq<char>>::empty());
}

/// The paths of the standard library. The library carries them and does not
/// look into them: nothing is said of what a path holds.
#[verifier::external_type_specification]
#[verifier::external_body]
pub struct ExPathBuf(std::path::PathBuf);

/// The directories that `directories` has found for a project. The library
/// does not look into them.
#[verifier::external_type_specification]
#[verifier::external_body]
pub struct ExProjectDirs(directories::ProjectDirs);

/// The variable of the environment that names the root of all caches, for
/// those who want it elsewhere than where the platform keeps caches.
pub const ROOT_VARIABLE: &'static str = "LLAMA_SERVER_CACHE_DIR";

/// The organization that the caches are kept for.
pub const ORGANIZATION: &'static str = "hecrj";

/// The application that the caches are kept for.
pub const APPLICATION: &'static str = "llama-server";

/// The names under which the platform keeps directories for a project.
#[derive(Debug, Clone, Copy)]
pub struct Project {
    /// The reverse domain name of those who make the application, if any.
    pub qualifier: &'static str,
    /// The organization that makes the application.
    pub organization: &'static str,
    /// The application.
    pub application: &'static str,
}

/// The names under which the platform keeps the caches: no qualifier, the
/// organization and the application.
pub fn project() -> (project: Project)
    ensures
        project.qualifier@ == Seq::<char>::empty(),
        project.organization@ == ORGANIZATION@,
        project.application@ == APPLICATION@,
{
    proof {
        reveal_strlit("");
    }
    Project { qualifier: "", organization: ORGANIZATION, application: APPLICATION }
}

/// Calls `directories::ProjectDirs::from` with the qualifier, the
/// organization and the application of the project, in this order. It looks
/// up the directories that the platform keeps for the project, and gives
/// none where it finds no home for the user. What it finds depends on the
/// user and on the environment, so nothing is claimed of it.
#[verifier::external_body]
fn project_directories(project: &Project) -> Option<directories::ProjectDirs> {
    directories::ProjectDirs::from(project.qualifier, project.organization, project.application)
}

/// Calls `directories::ProjectDirs::cache_dir`, which hands out the path of
/// the directory for caches among those that were found, and copies it.
/// Nothing is claimed of the path.
#[verifier::external_body]
fn cache_directory(directories: &directories::ProjectDirs) -> std::path::PathBuf {
    directories.cache_dir().to_path_buf()
}

/// The root of all caches, given the one that the environment names and the
/// one that the platform keeps for the application: what the environment
/// names comes first.
pub fn resolve(
    overridden: Option<std::path::PathBuf>,
    standard: Option<std::path::PathBuf>,
) -> (root: Option<std::path::PathBuf>)
    ensures
        root == if overridden is Some {
            overridden
        } else {
            standard
        },
{
    match overridden {
        Some(root) => Some(root),
        None => standard,
    }
}

/// The root of all caches: the directory that the environment names in
/// `ROOT_VARIABLE`, handed in here, and without one the directory that the
/// platform keeps for the caches of the project that `project` names. There
/// is none where the environment names none and the user has no home.
pub fn root(overridden: Option<std::path::PathBuf>) -> (root: Option<std::path::PathBuf>)
    ensures
        overridden is Some ==> root == overridden,
{
    if overridden.is_some() {
        return overridden;
    }
    let standard = match project_directories(&project()) {
        Some(directories) => Some(cache_directory(&directories)),
        None => None,
    };
    resolve(overridden, standard)
}

/// A place in the cache of one release.
#[derive(Debug, Clone, Copy, PartialEq, Eq, Structural)]
pub enum Place {
    /// The directory of the release itself.
    Root,
    /// The directory that holds an unpacked component.
    Directory(Component),
    /// The archive that a component is unpacked from. It is there only while
    /// the component is being installed.
    Archive(Component),
    /// The directory of an install.
    Install(Instance),
    /// The server program of an install.
    Executable(Instance, Platform),
}

/// What was found in a directory: a name, and whether it names a directory.
#[derive(Debug)]
pub struct Entry {
    pub name: String,
    pub directory: bool,
}

impl Clone for Entry {
    fn clone(&self) -> (entry: Entry)
        ensures
            entry.name@ == self.name@,
            entry.directory == self.directory,
    {
        Entry { name: self.name.clone(), directory: self.directory }
    }
}

/// The cache of one release. It is a handle without a state of its own: what
/// is cached lies on disk.
#[derive(Debug, Clone, Copy, PartialEq, Eq, Structural)]
pub struct Cache {
    pub build: Build,
}

/// Whether the entry is a directory whose name names the release.
pub open spec fn names_cache(entry: Entry, build: Build) -> bool {
    entry.directory && Build::named(entry.name@) == Ok::<Build, ParseError>(build)
}

/// Whether a listing shows the cache of the release: one of its entries is a
/// directory whose name names the release.
pub open spec fn shows(entries: Seq<Entry>, build: Build) -> bool {
    exists|i: int| 0 <= i < entries.len() && names_cache(#[trigger] entries[i], build)
}

/// Whether the caches are those of different releases, in ascending order.
pub open spec fn ascending(caches: Seq<Cache>) -> bool {
    forall|i: int, j: int| 0 <= i < j < caches.len() ==> caches[i].build.0 < caches[j].build.0
}

/// Whether the cache of the release is among the caches.
pub open spec fn holds(caches: Seq<Cache>, build: Build) -> bool {
    exists|i: int| 0 <= i < caches.len() && (#[trigger] caches[i]).build == build
}

impl Cache {
    /// The names that lead from the root of all caches to a place in this
    /// one: first the text of the release, then the place's own names.
    pub open spec fn path(self, place: Place) -> Seq<Seq<char>> {
        match place {
            Place::Root => seq![self.build.text()],
            Place::Directory(component) => seq![self.build.text(), component.spec_directory()],
            Place::Archive(component) => seq![self.build.text(), component.spec_archive()],
            Place::Install(instance) => seq![self.build.text(), instance.spec_directory()],
            Place::Executable(instance, platform) => seq![
                self.build.text(),
                instance.spec_directory(),
                platform.spec_executable(),
            ],
        }
    }

    /// The cache of a release.
    pub fn new(build: Build) -> (cache: Cache)
        ensures
            cache.build == build,
    {
        Cache { build }
    }

    /// The release that is cached here.
    pub fn build(&self) -> (build: Build)
        ensures
            build == self.build,
    {
        self.build
    }

    /// The names that lead from the root of all caches to a place in this
    /// one.
    pub fn locate(&self, place: Place) -> (path: Vec<String>)
        ensures
            names(path@) == self.path(place),
    {
        let mut path = Vec::new();
        path.push(self.build.to_string());
        match place {
            Place::Root => {},
            Place::Directory(component) => {
                path.push(String::from_str(component.directory()));
            },
            Place::Archive(component) => {
                path.push(component.archive());
            },
            Place::Install(instance) => {
                path.push(instance.directory());
            },
            Place::Executable(instance, platform) => {
                path.push(instance.directory());
                path.push(String::from_str(platform.executable()));
            },
        }
        assert(names(path@) =~= self.path(place));
        path
    }

    /// The caches that a listing of the root of all caches shows: one for
    /// each release that a directory of the listing names, in ascending order
    /// of the releases. Entries that are no directories, or whose names name
    /// no release, are passed over.
    pub fn list(entries: &Vec<Entry>) -> (caches: Vec<Cache>)
        ensures
            ascending(caches@),
            forall|build: Build| holds(caches@, build) <==> shows(entries@, build),
    {
        let mut caches: Vec<Cache> = Vec::new();
        for i in 0..entries.len()
            invariant
                ascending(caches@),
                forall|build: Build|
                    holds(caches@, build) <==> shows(entries@.take(i as int), build),
        {
            proof {
                assert forall|build: Build|
                    #![trigger shows(entries@.take(i + 1), build)]
                    shows(entries@.take(i + 1), build) <==> shows(entries@.take(i as int), build)
                        || names_cache(entries@[i as int], build) by {
                    lemma_shows_next(entries@, i as int, build);
                }
            }
            if entries[i].directory {
                match <Build as std::str::FromStr>::from_str(entries[i].name.as_str()) {
                    Ok(build) => {
                        insert(&mut caches, Cache::new(build));
                    },
                    Err(_) => {},
                }
            }
        }
        assert(entries@.take(entries.len() as int) =~= entries@);
        caches
    }
}

/// All that is cached of a release lies in the directory of the release,
/// which no other release shares: what removes that directory removes all of
/// one release and nothing of another.
pub proof fn lemma_places_of_a_release(cache: Cache, other: Cache, place: Place, elsewhere: Place)
    ensures
        cache.path(Place::Root) == seq![cache.build.text()],
        cache.path(place).len() >= 1,
        cache.path(place)[0] == cache.build.text(),
        cache.build != other.build ==> cache.path(place)[0] != other.path(elsewhere)[0],
{
    if cache.build.text() == other.build.text() {
        lemma_text_tells_apart(cache.build, other.build);
    }
}

/// What a listing shows with one entry more: what it showed, and the cache
/// that the entry names, if it names one.
proof fn lemma_shows_next(entries: Seq<Entry>, count: int, build: Build)
    requires
        0 <= count < entries.len(),
    ensures
        shows(entries.take(count + 1), build) <==> shows(entries.take(count), build)
            || names_cache(entries[count], build),
{
    let seen = entries.take(count);
    let next = entries.take(count + 1);
    if shows(seen, build) {
        let i = choose|i: int| 0 <= i < seen.len() && names_cache(#[trigger] seen[i], build);
        assert(next[i] == seen[i]);
    }
    if names_cache(entries[count], build) {
        assert(next[count] == entries[count]);
    }
    if shows(next, build) {
        let i = choose|i: int| 0 <= i < next.len() && names_cache(#[trigger] next[i], build);
        if i < count {
            assert(seen[i] == next[i]);
        }
    }
}

/// There is one list only of the caches of given releases in ascending
/// order: what a listing shows decides what `list` gives, in whatever order
/// the listing has its entries.
pub proof fn lemma_list_unique(first: Seq<Cache>, second: Seq<Cache>)
    requires
        ascending(first),
        ascending(second),
        forall|build: Build| holds(first, build) <==> holds(second, build),
    ensures
        first == second,
    decreases first.len(),
{
    if first.len() == 0 {
        if second.len() > 0 {
            assert(holds(second, second[0].build));
        }
        assert(first =~= second);
    } else {
        let last = first.last();
        assert(holds(first, last.build));
        let at = choose|i: int| 0 <= i < second.len() && (#[trigger] second[i]).build == last.build;
        if at < second.len() - 1 {
            let more = second.last();
            assert(holds(second, more.build));
            let back = choose|i: int|
                0 <= i < first.len() && (#[trigger] first[i]).build == more.build;
            assert(first[back].build.0 <= last.build.0);
        }
        let rest = first.drop_last();
        let other = second.drop_last();
        assert forall|build: Build| holds(rest, build) <==> holds(other, build) by {
            if holds(rest, build) {
                let i = choose|i: int| 0 <= i < rest.len() && (#[trigger] rest[i]).build == build;
                assert(first[i] == rest[i]);
                assert(holds(first, build));
                let j = choose|j: int|
                    0 <= j < second.len() && (#[trigger] second[j]).build == build;
                assert(other[j] == second[j]);
            }
            if holds(other, build) {
                let j = choose|j: int|
                    0 <= j < other.len() && (#[trigger] other[j]).build == build;
                assert(second[j] == other[j]);
                assert(holds(second, build));
                let i = choose|i: int|
                    0 <= i < first.len() && (#[trigger] first[i]).build == build;
                assert(rest[i] == first[i]);
            }
        }
        lemma_list_unique(rest, other);
        assert(first =~= rest.push(last));
        assert(second =~= other.push(second.last()));
        assert(second.last() == last);
    }
}

/// Puts a cache at its place among caches in ascending order, unless the
/// cache of the same release is there already.
fn insert(caches: &mut Vec<Cache>, cache: Cache)
    requires
        ascending(old(caches)@),
    ensures
        ascending(final(caches)@),
        forall|build: Build|
            holds(final(caches)@, build) <==> holds(old(caches)@, build) || build == cache.build,
{
    let mut at: usize = 0;
    while at < caches.len() && caches[at].build.number() < cache.build.number()
        invariant
            *caches == *old(caches),
            at <= caches.len(),
            forall|i: int| 0 <= i < at ==> caches@[i].build.0 < cache.build.0,
        decreases caches.len() - at,
    {
        at = at + 1;
    }
    if at < caches.len() && caches[at].build.number() == cache.build.number() {
        assert(caches@[at as int].build == cache.build);
    } else {
        caches.insert(at, cache);
        proof {
            let before = old(caches)@;
            let after = caches@;
            assert(after[at as int] == cache);
            assert forall|build: Build| holds(after, build) <==> holds(before, build) || build
                == cache.build by {
                if holds(before, build) {
                    let i = choose|i: int| 0 <= i < before.len() && (#[trigger] before[i]).build == build;
                    if i < at {
                        assert(after[i] == before[i]);
                    } else {
                        assert(after[i + 1] == before[i]);
                    }
                }
                if holds(after, build) {
                    let i = choose|i: int| 0 <= i < after.len() && (#[trigger] after[i]).build == build;
                    if i < at {
                        assert(before[i] == after[i]);
                    } else if i > at {
                        assert(before[i - 1] == after[i]);
                    }
                }
            }
        }
    }
}

} // verus!
