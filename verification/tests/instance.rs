use llama_server::cache::{Instance as Components, Place};
use llama_server::error::Failure;
use llama_server::instance::{Check, Readiness, Wait, PAUSE};
use llama_server::work::{Reply, Status};
use llama_server::{Backends, Build, Error, Instance, Platform, Server, Settings};

fn server() -> Server {
    Server {
        build: Build::locked(6730),
        backends: Backends::empty(),
        executable: Place::Executable(
            Components { backends: Backends::empty() },
            Platform::LinuxX64,
        ),
    }
}

#[test]
fn settings_by_default() {
    let settings = Settings::default();
    assert_eq!(settings.host, "127.0.0.1");
    assert_eq!(settings.port, 8080);
    assert_eq!(settings.gpu_layers, 80);
}

#[test]
fn settings_are_cloned_field_by_field() {
    let settings = Settings { host: "example.org".to_owned(), port: 81, gpu_layers: 3 };
    let clone = settings.clone();
    assert_eq!(clone.host, "example.org");
    assert_eq!(clone.port, 81);
    assert_eq!(clone.gpu_layers, 3);
}

#[test]
fn address_of_an_instance() {
    let launch = server().boot("Qwen3.gguf", Settings::default());
    assert_eq!(launch.instance.url(), "http://127.0.0.1:8080");
    assert_eq!(launch.instance.health(), "http://127.0.0.1:8080/health");
    let instance = Instance { host: "localhost".to_owned(), port: 0 };
    assert_eq!(instance.url(), "http://localhost:0");
    let instance = Instance { host: "::1".to_owned(), port: u32::MAX };
    assert_eq!(instance.url(), "http://::1:4294967295");
}

#[test]
fn arguments_of_a_launch() {
    let launch = server().boot("Qwen3.gguf", Settings::default());
    assert_eq!(launch.executable, server().executable);
    assert_eq!(
        launch.arguments,
        vec![
            "--model",
            "Qwen3.gguf",
            "--host",
            "127.0.0.1",
            "--port",
            "8080",
            "--gpu-layers",
            "80",
            "--jinja"
        ]
    );
    assert_eq!(launch.instance.host, "127.0.0.1");
    assert_eq!(launch.instance.port, 8080);

    let settings = Settings { host: "0.0.0.0".to_owned(), port: 9, gpu_layers: 0 };
    let launch = server().boot("/models/a.gguf", settings);
    assert_eq!(
        launch.arguments,
        vec!["--model", "/models/a.gguf", "--host", "0.0.0.0", "--port", "9", "--gpu-layers", "0", "--jinja"]
    );
}

#[test]
fn white_space_parts_the_arguments() {
    let launch = server().boot("my models/a b.gguf", Settings::default());
    assert_eq!(
        launch.arguments,
        vec![
            "--model",
            "my",
            "models/a",
            "b.gguf",
            "--host",
            "127.0.0.1",
            "--port",
            "8080",
            "--gpu-layers",
            "80",
            "--jinja"
        ]
    );
    let launch = server().boot("", Settings { host: String::new(), port: 1, gpu_layers: 2 });
    assert_eq!(
        launch.arguments,
        vec!["--model", "--host", "--port", "1", "--gpu-layers", "2", "--jinja"]
    );
}

#[test]
fn waiting_asks_in_turn_until_the_server_answers() {
    assert_eq!(PAUSE, 1);
    let instance = Instance { host: "127.0.0.1".to_owned(), port: 8080 };
    let mut readiness = instance.wait_until_ready();
    assert_eq!(readiness, Readiness { status: Status::Active(Check::Exited) });
    assert_eq!(readiness.current(), Wait::Ask(Check::Exited));
    assert_eq!(readiness.resume(Reply::Found(false)), Wait::Ask(Check::Health));
    assert_eq!(readiness.resume(Reply::Found(false)), Wait::Ask(Check::Pause(1)));
    assert_eq!(readiness.resume(Reply::Done), Wait::Ask(Check::Exited));
    assert_eq!(readiness.resume(Reply::Found(false)), Wait::Ask(Check::Health));
    assert_eq!(readiness.resume(Reply::Failed(Failure::Transport)), Wait::Ask(Check::Pause(1)));
    assert_eq!(readiness.resume(Reply::Done), Wait::Ask(Check::Exited));
    assert_eq!(readiness.resume(Reply::Found(false)), Wait::Ask(Check::Health));
    assert_eq!(readiness.resume(Reply::Found(true)), Wait::Ready);
    assert_eq!(readiness.resume(Reply::Found(false)), Wait::Ready);
    assert_eq!(readiness.status, Status::Finished);
}

#[test]
fn program_that_has_ended_is_an_error() {
    let instance = Instance { host: "127.0.0.1".to_owned(), port: 8080 };
    let mut readiness = instance.wait_until_ready();
    assert_eq!(readiness.resume(Reply::Found(true)), Wait::Failed(Error::IOFailed));
    assert_eq!(readiness.resume(Reply::Found(false)), Wait::Failed(Error::IOFailed));

    let mut readiness = instance.wait_until_ready();
    readiness.resume(Reply::Found(false));
    readiness.resume(Reply::Found(false));
    readiness.resume(Reply::Done);
    assert_eq!(readiness.resume(Reply::Found(true)), Wait::Failed(Error::IOFailed));
}

#[test]
fn failure_to_look_at_the_program_is_an_error() {
    let instance = Instance { host: "127.0.0.1".to_owned(), port: 8080 };
    let mut readiness = instance.wait_until_ready();
    assert_eq!(
        readiness.resume(Reply::Failed(Failure::Filesystem)),
        Wait::Failed(Error::IOFailed)
    );
}

#[test]
fn reply_that_does_not_answer_a_check_changes_nothing() {
    let instance = Instance { host: "127.0.0.1".to_owned(), port: 8080 };
    let mut readiness = instance.wait_until_ready();
    assert_eq!(readiness.resume(Reply::Done), Wait::Ask(Check::Exited));
    assert_eq!(readiness.resume(Reply::End), Wait::Ask(Check::Exited));
    readiness.resume(Reply::Found(false));
    assert_eq!(readiness.resume(Reply::Done), Wait::Ask(Check::Health));
    readiness.resume(Reply::Found(false));
    assert_eq!(readiness.resume(Reply::Found(true)), Wait::Ask(Check::Pause(1)));
}
