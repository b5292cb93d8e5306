//! Starting an installed server and waiting until it answers.

use crate::cache::Place;
use crate::decimal;
use crate::decimal::{lemma_notation_denotes, notation};
use crate::error::Error;
use crate::server::Server;
use crate::text::{
    join, joined, lemma_words_joined, names, plain, split_whitespace, texts, words,
};
use crate::work::{Reply, Status};
use vstd::prelude::*;
use vstd::string::*;

verus! {

/// How a server is to be started.
#[derive(Debug)]
pub struct Settings {
    /// The host to listen on.
    pub host: String,
    /// The port to listen on.
    pub port: u32,
    /// The number of layers to hand to the graphics processor.
    pub gpu_layers: u32,
}

impl Clone for Settings {
    fn clone(&self) -> (settings: Settings)
        ensures
            settings.host@ == self.host@,
            settings.port == self.port,
            settings.gpu_layers == self.gpu_layers,
    {
        Settings { host: self.host.clone(), port: self.port, gpu_layers: self.gpu_layers }
    }
}

impl Default for Settings {
    /// The local host, port 8080, and 80 layers.
    fn default() -> (settings: Settings)
        ensures
            settings.host@ == "127.0.0.1"@,
            settings.port == 8080,
            settings.gpu_layers == 80,
    {
        Settings { host: "127.0.0.1".to_owned(), port: 8080, gpu_layers: 80 }
    }
}

/// A server that has been started.
#[derive(Debug)]
pub struct Instance {
    /// The host that it listens on.
    pub host: String,
    /// The port that it listens on.
    pub port: u32,
}

/// What is to be run to start a server, and the instance that it gives.
#[derive(Debug)]
pub struct Launch {
    /// The place of the program to run.
    pub executable: Place,
    /// The arguments to run it with.
    pub arguments: Vec<String>,
    /// The instance that listens once the program runs. The program is to
    /// be ended when the instance is given up.
    pub instance: Instance,
}

/// The seconds to let pass after a server did not answer, before it is
/// asked again.
pub const PAUSE: u64 = 1;

/// What is to be done for an instance that is waited for.
#[derive(Debug, Clone, Copy, PartialEq, Eq, Structural)]
pub enum Check {
    /// Tell whether the server program has ended.
    Exited,
    /// Ask the server for its health, and tell whether it answered and all
    /// is well. That the request fails is no failure: it says that the
    /// server is not ready.
    Health,
    /// Let this many seconds pass.
    Pause(u64),
}

/// Where the waiting for an instance stands.
#[derive(Debug, PartialEq, Eq, Structural)]
pub enum Wait {
    /// The caller is to do this and to come back with its reply.
    Ask(Check),
    /// The server answers.
    Ready,
    /// The waiting has ended with this error.
    Failed(Error),
}

/// The waiting for an instance to answer. There is no limit to it: a server
/// that runs and never answers is waited for without end.
#[derive(Debug, PartialEq, Eq, Structural)]
pub struct Readiness {
    pub status: Status<Check>,
}

/// What the line of arguments that starts a server on a model is made of:
/// the model, the host, the port, the number of layers, each behind its
/// flag, and the flag that turns on the templates of the model.
pub open spec fn parts(model: Seq<char>, settings: Settings) -> Seq<Seq<char>> {
    seq![
        "--model"@,
        model,
        "--host"@,
        settings.host@,
        "--port"@,
        notation(settings.port as nat),
        "--gpu-layers"@,
        notation(settings.gpu_layers as nat),
        "--jinja"@,
    ]
}

/// The line of arguments that starts a server on a model: its parts with a
/// space between them.
pub open spec fn command_line(model: Seq<char>, settings: Settings) -> Seq<char> {
    joined(parts(model, settings), " "@)
}

impl Server {
    /// What is to be run to start the server on a model. The arguments are
    /// the words of the line of arguments, so white space in the path of the
    /// model or in the host parts them.
    pub fn boot(&self, model: &str, settings: Settings) -> (launch: Launch)
        ensures
            launch.executable == self.executable,
            names(launch.arguments@) == words(command_line(model@, settings)),
            launch.instance.host@ == settings.host@,
            launch.instance.port == settings.port,
    {
        let port = decimal::render(settings.port);
        let layers = decimal::render(settings.gpu_layers);
        let mut parts: Vec<&str> = Vec::new();
        parts.push("--model");
        parts.push(model);
        parts.push("--host");
        parts.push(settings.host.as_str());
        parts.push("--port");
        parts.push(port.as_str());
        parts.push("--gpu-layers");
        parts.push(layers.as_str());
        parts.push("--jinja");
        assert(texts(parts@) =~= self::parts(model@, settings));
        let line = join(&parts, " ");
        let arguments = split_whitespace(line.as_str());
        Launch {
            executable: self.executable,
            arguments,
            instance: Instance { host: settings.host, port: settings.port },
        }
    }
}

/// Where neither the path of the model nor the host is empty or holds white
/// space, the arguments of a launch are the parts of the line of arguments,
/// one for one.
pub proof fn lemma_arguments(model: Seq<char>, settings: Settings)
    requires
        plain(model),
        plain(settings.host@),
    ensures
        words(command_line(model, settings)) == parts(model, settings),
{
    reveal_strlit(" ");
    reveal_strlit("--model");
    reveal_strlit("--host");
    reveal_strlit("--port");
    reveal_strlit("--gpu-layers");
    reveal_strlit("--jinja");
    lemma_notation_denotes(settings.port as nat);
    lemma_notation_denotes(settings.gpu_layers as nat);
    assert(" "@ =~= seq![' ']);
    let parts = parts(model, settings);
    assert forall|i: int| 0 <= i < parts.len() implies plain(#[trigger] parts[i]) by {}
    lemma_words_joined(parts);
}

impl Check {
    /// Where the waiting stands after a reply to the check. A program that
    /// has ended is an error, and so is a failure to learn whether it has.
    /// A server that does not answer is asked again after a pause. A reply
    /// that does not answer the check changes nothing.
    pub open spec fn next(self, reply: Reply) -> Status<Check> {
        match (self, reply) {
            (Check::Exited, Reply::Found(true)) => Status::Failed(Error::IOFailed),
            (Check::Exited, Reply::Found(false)) => Status::Active(Check::Health),
            (Check::Health, Reply::Found(true)) => Status::Finished,
            (Check::Health, Reply::Found(false)) => Status::Active(Check::Pause(PAUSE)),
            (Check::Health, Reply::Failed(_)) => Status::Active(Check::Pause(PAUSE)),
            (Check::Pause(_), Reply::Done) => Status::Active(Check::Exited),
            (_, Reply::Failed(failure)) => Status::Failed(Error::of(failure)),
            _ => Status::Active(self),
        }
    }

    /// Where the waiting stands after a reply to the check.
    pub fn advance(self, reply: Reply) -> (status: Status<Check>)
        ensures
            status == self.next(reply),
    {
        match reply {
            Reply::Found(found) => match self {
                Check::Exited => if found {
                    Status::Failed(Error::IOFailed)
                } else {
                    Status::Active(Check::Health)
                },
                Check::Health => if found {
                    Status::Finished
                } else {
                    Status::Active(Check::Pause(PAUSE))
                },
                Check::Pause(_) => Status::Active(self),
            },
            Reply::Failed(failure) => match self {
                Check::Health => Status::Active(Check::Pause(PAUSE)),
                _ => Status::Failed(Error::from(failure)),
            },
            Reply::Done => match self {
                Check::Pause(_) => Status::Active(Check::Exited),
                _ => Status::Active(self),
            },
            _ => Status::Active(self),
        }
    }
}

impl Readiness {
    /// The waiting, before anything has been done.
    pub open spec fn begun() -> Readiness {
        Readiness { status: Status::Active(Check::Exited) }
    }

    /// Where the waiting stands: what it asks for, or how it ended.
    pub open spec fn pending(self) -> Wait {
        match self.status {
            Status::Active(check) => Wait::Ask(check),
            Status::Finished => Wait::Ready,
            Status::Failed(error) => Wait::Failed(error),
        }
    }

    /// The waiting after a reply. After its end it takes no reply.
    pub open spec fn next(self, reply: Reply) -> Readiness {
        match self.status {
            Status::Active(check) => Readiness { status: check.next(reply) },
            _ => self,
        }
    }

    /// Where the waiting stands: what it asks for, or how it ended.
    pub fn current(&self) -> (wait: Wait)
        ensures
            wait == self.pending(),
    {
        match self.status {
            Status::Active(check) => Wait::Ask(check),
            Status::Finished => Wait::Ready,
            Status::Failed(error) => Wait::Failed(error),
        }
    }

    /// Takes the reply to what the waiting asked for, and tells where the
    /// waiting stands then.
    pub fn resume(&mut self, reply: Reply) -> (wait: Wait)
        ensures
            *final(self) == old(self).next(reply),
            wait == final(self).pending(),
    {
        if let Status::Active(check) = self.status {
            self.status = check.advance(reply);
        }
        self.current()
    }
}

/// The waiting ends well only when the server has said that all is well,
/// and with an error only when the program has ended or could not be looked
/// at. Until then it goes round: the program, the server, a pause.
pub proof fn lemma_waiting(readiness: Readiness, reply: Reply)
    ensures
        readiness.next(reply).status is Finished ==> readiness.status is Finished || (
        readiness.status == Status::Active(Check::Health) && reply == Reply::Found(true)),
        readiness.next(reply).status is Failed ==> readiness.status is Failed || (readiness.status
            == Status::Active(Check::Exited) && (reply == Reply::Found(true) || reply
            is Failed)) || (readiness.status is Active && readiness.status->Active_0
            is Pause && reply is Failed),
        readiness.status == Status::Active(Check::Exited) && reply == Reply::Found(false)
            ==> readiness.next(reply).pending() == Wait::Ask(Check::Health),
        readiness.status == Status::Active(Check::Health) && (reply == Reply::Found(false)
            || reply is Failed) ==> readiness.next(reply).pending() == Wait::Ask(
            Check::Pause(PAUSE),
        ),
        readiness.status == Status::Active(Check::Pause(PAUSE)) && reply == Reply::Done
            ==> readiness.next(reply).pending() == Wait::Ask(Check::Exited),
{
}

impl Instance {
    /// The address of the instance.
    pub open spec fn spec_url(self) -> Seq<char> {
        "http://"@ + self.host@ + ":"@ + notation(self.port as nat)
    }

    /// The address of the instance.
    pub fn url(&self) -> (url: String)
        ensures
            url@ == self.spec_url(),
    {
        let mut url = "http://".to_owned();
        url.append(self.host.as_str());
        url.append(":");
        url.append(decimal::render(self.port).as_str());
        url
    }

    /// The address at which the instance tells its health.
    pub fn health(&self) -> (url: String)
        ensures
            url@ == self.spec_url() + "/health"@,
    {
        let mut url = self.url();
        url.append("/health");
        url
    }

    /// Begins to wait until the instance answers.
    pub fn wait_until_ready(&self) -> (readiness: Readiness)
        ensures
            readiness == Readiness::begun(),
    {
        Readiness { status: Status::Active(Check::Exited) }
    }
}

} // verus!
