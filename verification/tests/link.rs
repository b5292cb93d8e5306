use llama_server::cache::{Cache, Component, Instance, Place};
use llama_server::error::Failure;
use llama_server::link::{Link, Phase};
use llama_server::work::{Reply, Request, Status, Step};
use llama_server::{Backend, Backends, Build, Error, Platform};

const SERVER: Component = Component::Server;
const CUDA: Component = Component::Backend(Backend::Cuda);
const HIP: Component = Component::Backend(Backend::Hip);

fn begin(components: Vec<Component>, platform: Platform) -> Link {
    Cache::new(Build::locked(6730)).link(&components, platform)
}

#[test]
fn linking_begins_with_the_directory_of_the_install() {
    let link = begin(vec![HIP, SERVER], Platform::LinuxX64);
    let instance = Instance { backends: Backends::only(Backend::Hip) };
    assert_eq!(
        link,
        Link {
            cache: Cache::new(Build::locked(6730)),
            instance,
            platform: Platform::LinuxX64,
            status: Status::Active(Phase::Probing),
        }
    );
    assert_eq!(link.current(), Step::Ask(Request::Exists(Place::Install(instance))));
}

#[test]
fn order_of_the_components_does_not_matter() {
    let first = begin(vec![SERVER, CUDA], Platform::LinuxX64);
    let second = begin(vec![CUDA, SERVER], Platform::LinuxX64);
    assert_eq!(first, second);
    assert_eq!(first.current(), second.current());
    let cache = Cache::new(Build::locked(6730));
    assert_eq!(
        cache.locate(Place::Install(first.instance)),
        cache.locate(Place::Install(second.instance))
    );
    assert_eq!(cache.locate(Place::Install(first.instance)), vec!["b6730", "cuda"]);
}

#[test]
fn install_that_is_there_is_gone_through() {
    let mut link = begin(vec![CUDA], Platform::WindowsX64);
    let instance = Instance { backends: Backends::only(Backend::Cuda) };
    assert_eq!(
        link.resume(Reply::Found(true)),
        Step::Ask(Request::ReadDirectory(Place::Directory(SERVER)))
    );
    let mut made = begin(vec![CUDA], Platform::WindowsX64);
    made.resume(Reply::Found(false));
    made.resume(Reply::Done);
    assert_eq!(link, made);
    for reply in [Reply::Done, Reply::End, Reply::Done] {
        link.resume(reply);
    }
    assert_eq!(
        link.resume(Reply::End),
        Step::Done(Place::Executable(instance, Platform::WindowsX64))
    );
    assert_eq!(
        Cache::new(Build::locked(6730)).locate(Place::Executable(instance, Platform::WindowsX64)),
        vec!["b6730", "cuda", "llama-server.exe"]
    );
}

#[test]
fn install_that_was_left_short_is_filled_up() {
    let instance = Instance { backends: Backends::empty() };
    let install = Place::Install(instance);
    let mut link = begin(vec![], Platform::LinuxX64);
    let script = [
        // the directory is there: an earlier linking was given up
        (Reply::Found(true), Step::Ask(Request::ReadDirectory(Place::Directory(SERVER)))),
        (Reply::Done, Step::Ask(Request::NextEntry(Place::Directory(SERVER)))),
        // a file that the earlier linking has linked: it is left as it is
        (Reply::Entry(true), Step::Ask(Request::ExistsEntry(install))),
        (Reply::Found(true), Step::Ask(Request::NextEntry(Place::Directory(SERVER)))),
        // a file that the install lacks: it is linked
        (Reply::Entry(true), Step::Ask(Request::ExistsEntry(install))),
        (Reply::Found(false), Step::Ask(Request::LinkEntry(Place::Directory(SERVER), install))),
        (Reply::Done, Step::Ask(Request::NextEntry(Place::Directory(SERVER)))),
        (Reply::End, Step::Done(Place::Executable(instance, Platform::LinuxX64))),
    ];
    for (reply, step) in script {
        assert_eq!(link.resume(reply), step);
    }
}

#[test]
fn files_are_linked_unless_they_are_there() {
    let mut link = begin(vec![CUDA], Platform::LinuxX64);
    let instance = Instance { backends: Backends::only(Backend::Cuda) };
    let install = Place::Install(instance);
    let script = [
        (Reply::Found(false), Step::Ask(Request::CreateDirectory(install))),
        (Reply::Done, Step::Ask(Request::ReadDirectory(Place::Directory(SERVER)))),
        (Reply::Done, Step::Ask(Request::NextEntry(Place::Directory(SERVER)))),
        // a regular file whose name is free
        (Reply::Entry(true), Step::Ask(Request::ExistsEntry(install))),
        (Reply::Found(false), Step::Ask(Request::LinkEntry(Place::Directory(SERVER), install))),
        (Reply::Done, Step::Ask(Request::NextEntry(Place::Directory(SERVER)))),
        // a directory
        (Reply::Entry(false), Step::Ask(Request::NextEntry(Place::Directory(SERVER)))),
        // a regular file whose name is taken
        (Reply::Entry(true), Step::Ask(Request::ExistsEntry(install))),
        (Reply::Found(true), Step::Ask(Request::NextEntry(Place::Directory(SERVER)))),
        (Reply::End, Step::Ask(Request::ReadDirectory(Place::Directory(CUDA)))),
        (Reply::Done, Step::Ask(Request::NextEntry(Place::Directory(CUDA)))),
        (Reply::Entry(true), Step::Ask(Request::ExistsEntry(install))),
        (Reply::Found(false), Step::Ask(Request::LinkEntry(Place::Directory(CUDA), install))),
        (Reply::Done, Step::Ask(Request::NextEntry(Place::Directory(CUDA)))),
        (Reply::End, Step::Done(Place::Executable(instance, Platform::LinuxX64))),
    ];
    for (reply, step) in script {
        assert_eq!(link.resume(reply), step);
    }
}

#[test]
fn every_component_is_gone_through_in_order() {
    let mut link = begin(vec![HIP, CUDA], Platform::LinuxX64);
    link.resume(Reply::Found(false));
    let mut opened = Vec::new();
    let mut step = link.resume(Reply::Done);
    loop {
        match step {
            Step::Ask(Request::ReadDirectory(Place::Directory(component))) => {
                opened.push(component);
                step = link.resume(Reply::Done);
            }
            Step::Ask(Request::NextEntry(_)) => step = link.resume(Reply::End),
            Step::Done(_) => break,
            other => panic!("{other:?}"),
        }
    }
    assert_eq!(opened, vec![SERVER, CUDA, HIP]);
}

#[test]
fn failure_ends_the_linking() {
    let mut link = begin(vec![], Platform::LinuxX64);
    link.resume(Reply::Found(false));
    link.resume(Reply::Done);
    assert_eq!(link.resume(Reply::Failed(Failure::Filesystem)), Step::Failed(Error::IOFailed));
    assert_eq!(link.resume(Reply::Done), Step::Failed(Error::IOFailed));
    assert_eq!(link.status, Status::Failed(Error::IOFailed));
}

#[test]
fn reply_that_does_not_answer_a_linking_changes_nothing() {
    let mut link = begin(vec![], Platform::LinuxX64);
    let asked = link.current();
    assert_eq!(link.resume(Reply::Done), asked);
    assert_eq!(link.resume(Reply::End), asked);
    assert_eq!(link.resume(Reply::Entry(true)), asked);
    let asked = link.resume(Reply::Found(false));
    assert_eq!(link.resume(Reply::Found(false)), asked);
}

#[test]
fn directory_that_another_has_made_is_no_failure() {
    let instance = Instance { backends: Backends::empty() };
    let install = Place::Install(instance);
    let mut link = begin(vec![], Platform::LinuxX64);
    assert_eq!(link.resume(Reply::Found(false)), Step::Ask(Request::CreateDirectory(install)));
    assert_eq!(
        link.resume(Reply::Failed(Failure::Filesystem)),
        Step::Ask(Request::Exists(install))
    );
    assert_eq!(link.status, Status::Active(Phase::ProbingAgain(Failure::Filesystem)));
    assert_eq!(
        link.resume(Reply::Found(true)),
        Step::Ask(Request::ReadDirectory(Place::Directory(SERVER)))
    );
    link.resume(Reply::Done);
    assert_eq!(
        link.resume(Reply::End),
        Step::Done(Place::Executable(instance, Platform::LinuxX64))
    );
}

#[test]
fn directory_that_is_still_missing_is_a_failure() {
    let mut link = begin(vec![CUDA], Platform::LinuxX64);
    link.resume(Reply::Found(false));
    link.resume(Reply::Failed(Failure::Filesystem));
    assert_eq!(link.resume(Reply::Found(false)), Step::Failed(Error::IOFailed));

    let mut link = begin(vec![CUDA], Platform::LinuxX64);
    link.resume(Reply::Found(false));
    link.resume(Reply::Failed(Failure::Filesystem));
    assert_eq!(link.resume(Reply::Failed(Failure::Transport)), Step::Failed(Error::RequestFailed));
}

#[test]
fn file_that_another_has_linked_is_no_failure() {
    let instance = Instance { backends: Backends::empty() };
    let install = Place::Install(instance);
    let mut link = begin(vec![], Platform::LinuxX64);
    for reply in [Reply::Found(false), Reply::Done, Reply::Done, Reply::Entry(true)] {
        link.resume(reply);
    }
    assert_eq!(
        link.resume(Reply::Found(false)),
        Step::Ask(Request::LinkEntry(Place::Directory(SERVER), install))
    );
    assert_eq!(
        link.resume(Reply::Failed(Failure::Filesystem)),
        Step::Ask(Request::ExistsEntry(install))
    );
    assert_eq!(
        link.status,
        Status::Active(Phase::CheckingAgain(SERVER, Failure::Filesystem))
    );
    assert_eq!(
        link.resume(Reply::Found(true)),
        Step::Ask(Request::NextEntry(Place::Directory(SERVER)))
    );

    link.resume(Reply::Entry(true));
    link.resume(Reply::Found(false));
    link.resume(Reply::Failed(Failure::Filesystem));
    assert_eq!(link.resume(Reply::Found(false)), Step::Failed(Error::IOFailed));
}
