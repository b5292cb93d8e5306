use llama_server::cache::{Cache, Component, Place};
use llama_server::download::{Download, Phase};
use llama_server::error::Failure;
use llama_server::work::{Reply, Request, Status, Step};
use llama_server::{Artifact, Backend, Build, Error};

const CUDA: Component = Component::Backend(Backend::Cuda);

fn begin(artifact: Artifact) -> Download {
    Cache::new(Build::locked(6730)).download(artifact)
}

#[test]
fn download_begins_with_the_directory_of_the_cache() {
    let download = begin(Artifact::Server);
    assert_eq!(
        download,
        Download {
            cache: Cache::new(Build::locked(6730)),
            artifact: Artifact::Server,
            status: Status::Active(Phase::Preparing),
        }
    );
    assert_eq!(download.current(), Step::Ask(Request::CreateDirectories(Place::Root)));
}

#[test]
fn component_that_is_there_is_not_fetched() {
    let mut download = begin(Artifact::Backend(Backend::Cuda));
    assert_eq!(download.resume(Reply::Done), Step::Ask(Request::Exists(Place::Directory(CUDA))));
    assert_eq!(download.resume(Reply::Found(true)), Step::Done(CUDA));
    assert_eq!(download.status, Status::Finished);
}

#[test]
fn component_that_is_missing_is_fetched_and_unpacked() {
    let artifact = Artifact::Backend(Backend::Cuda);
    let mut download = begin(artifact);
    let mut asked = vec![download.current()];
    for reply in [Reply::Done, Reply::Found(false), Reply::Done, Reply::Done, Reply::Done] {
        asked.push(download.resume(reply));
    }
    assert_eq!(
        asked,
        vec![
            Step::Ask(Request::CreateDirectories(Place::Root)),
            Step::Ask(Request::Exists(Place::Directory(CUDA))),
            Step::Ask(Request::CreateFile(Place::Archive(CUDA))),
            Step::Ask(Request::Fetch(artifact, Place::Archive(CUDA))),
            Step::Ask(Request::Extract(Place::Archive(CUDA), Place::Directory(CUDA))),
            Step::Ask(Request::RemoveFile(Place::Archive(CUDA))),
        ]
    );
    assert_eq!(download.resume(Reply::Done), Step::Done(CUDA));
}

#[test]
fn failure_ends_the_download_with_its_kind_of_error() {
    let cases = [
        (Failure::Filesystem, Error::IOFailed),
        (Failure::Archive, Error::IOFailed),
        (Failure::Task, Error::IOFailed),
        (Failure::Transport, Error::RequestFailed),
    ];
    for (failure, error) in cases {
        assert_eq!(Error::from(failure), error);
        for good in 0..6 {
            let mut download = begin(Artifact::Server);
            for i in 0..good {
                download.resume(if i == 1 { Reply::Found(false) } else { Reply::Done });
            }
            if good == 4 {
                assert_eq!(
                    download.resume(Reply::Failed(failure)),
                    Step::Ask(Request::RemoveDirectories(Place::Directory(Component::Server)))
                );
            } else {
                assert_eq!(download.resume(Reply::Failed(failure)), Step::Failed(error));
            }
            assert_eq!(download.resume(Reply::Done), Step::Failed(error));
            assert_eq!(download.resume(Reply::Found(true)), Step::Failed(error));
            assert_eq!(download.current(), Step::Failed(error));
        }
    }
}

/// Runs a download against a pretended disk: a list of the places that are
/// there. Where `spoiled` says so, the archive that is fetched is one that
/// cannot be unpacked: the unpacking makes the directory and then fails.
fn run(artifact: Artifact, disk: &mut Vec<Place>, spoiled: bool) -> (Step<Component>, Vec<Request>) {
    let mut download = begin(artifact);
    let mut asked = Vec::new();
    let mut step = download.current();
    loop {
        let request = match step {
            Step::Ask(request) => request,
            end => return (end, asked),
        };
        asked.push(request);
        let reply = match request {
            Request::CreateDirectories(place) | Request::CreateFile(place) => {
                if !disk.contains(&place) {
                    disk.push(place);
                }
                Reply::Done
            }
            Request::Exists(place) => Reply::Found(disk.contains(&place)),
            Request::Fetch(_, place) => {
                assert!(disk.contains(&place));
                Reply::Done
            }
            Request::Extract(archive, directory) => {
                assert!(disk.contains(&archive));
                disk.push(directory);
                if spoiled {
                    Reply::Failed(Failure::Archive)
                } else {
                    Reply::Done
                }
            }
            Request::RemoveFile(place) | Request::RemoveDirectories(place) => {
                if disk.contains(&place) {
                    disk.retain(|other| *other != place);
                    Reply::Done
                } else {
                    Reply::Failed(Failure::Filesystem)
                }
            }
            other => panic!("{other:?}"),
        };
        step = download.resume(reply);
    }
}

#[test]
fn unpacking_that_fails_midway_leaves_no_directory() {
    let artifact = Artifact::Backend(Backend::Cuda);
    let directory = Place::Directory(CUDA);
    let archive = Place::Archive(CUDA);
    let mut disk = Vec::new();

    let (end, asked) = run(artifact, &mut disk, true);
    assert_eq!(end, Step::Failed(Error::IOFailed));
    assert_eq!(
        asked,
        vec![
            Request::CreateDirectories(Place::Root),
            Request::Exists(directory),
            Request::CreateFile(archive),
            Request::Fetch(artifact, archive),
            Request::Extract(archive, directory),
            Request::RemoveDirectories(directory),
        ]
    );
    assert!(!disk.contains(&directory));
    assert!(disk.contains(&archive));

    // a good archive is served now, and nothing was cleaned up by hand
    let (end, asked) = run(artifact, &mut disk, false);
    assert_eq!(end, Step::Done(CUDA));
    assert_eq!(
        asked,
        vec![
            Request::CreateDirectories(Place::Root),
            Request::Exists(directory),
            Request::CreateFile(archive),
            Request::Fetch(artifact, archive),
            Request::Extract(archive, directory),
            Request::RemoveFile(archive),
        ]
    );
    assert!(disk.contains(&directory));
    assert!(!disk.contains(&archive));

    // and now the component is there
    let (end, asked) = run(artifact, &mut disk, false);
    assert_eq!(end, Step::Done(CUDA));
    assert_eq!(asked, vec![Request::CreateDirectories(Place::Root), Request::Exists(directory)]);
}

#[test]
fn archive_stays_when_unpacking_fails() {
    let mut download = begin(Artifact::Server);
    for reply in [Reply::Done, Reply::Found(false), Reply::Done, Reply::Done] {
        download.resume(reply);
    }
    let directory = Place::Directory(Component::Server);
    assert_eq!(
        download.current(),
        Step::Ask(Request::Extract(Place::Archive(Component::Server), directory))
    );
    assert_eq!(
        download.resume(Reply::Failed(Failure::Archive)),
        Step::Ask(Request::RemoveDirectories(directory))
    );
    assert_eq!(download.status, Status::Active(Phase::Clearing(Failure::Archive)));
    assert_eq!(download.resume(Reply::Done), Step::Failed(Error::IOFailed));
    assert_eq!(download.resume(Reply::Done), Step::Failed(Error::IOFailed));
}

#[test]
fn what_unpacking_left_is_looked_for_when_it_cannot_be_removed() {
    for found in [false, true] {
        let mut download = begin(Artifact::Server);
        for reply in [Reply::Done, Reply::Found(false), Reply::Done, Reply::Done] {
            download.resume(reply);
        }
        download.resume(Reply::Failed(Failure::Task));
        assert_eq!(
            download.resume(Reply::Failed(Failure::Filesystem)),
            Step::Ask(Request::Exists(Place::Directory(Component::Server)))
        );
        assert_eq!(download.status, Status::Active(Phase::ProbingAgain(Failure::Task)));
        assert_eq!(download.resume(Reply::Found(found)), Step::Failed(Error::IOFailed));
    }
    let mut download = begin(Artifact::Server);
    for reply in [Reply::Done, Reply::Found(false), Reply::Done, Reply::Done] {
        download.resume(reply);
    }
    download.resume(Reply::Failed(Failure::Archive));
    download.resume(Reply::Failed(Failure::Filesystem));
    assert_eq!(
        download.resume(Reply::Failed(Failure::Transport)),
        Step::Failed(Error::RequestFailed)
    );
}

#[test]
fn reply_that_does_not_answer_a_download_changes_nothing() {
    let mut download = begin(Artifact::Server);
    let asked = download.current();
    assert_eq!(download.resume(Reply::Found(true)), asked);
    assert_eq!(download.resume(Reply::Entry(true)), asked);
    assert_eq!(download.resume(Reply::End), asked);
    let asked = download.resume(Reply::Done);
    assert_eq!(download.resume(Reply::Done), asked);
    assert_eq!(download.resume(Reply::End), asked);
    assert_eq!(download.resume(Reply::Found(true)), Step::Done(Component::Server));
    assert_eq!(download.resume(Reply::Found(false)), Step::Done(Component::Server));
    assert_eq!(
        download.resume(Reply::Failed(Failure::Filesystem)),
        Step::Done(Component::Server)
    );
}
