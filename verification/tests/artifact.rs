use llama_server::cache::Component;
use llama_server::{Artifact, Backend, Build, Platform};

#[test]
fn address_of_the_server() {
    assert_eq!(
        Artifact::Server.url(Build::locked(6730), Platform::LinuxX64),
        "https://github.com/hecrj/llama-server/releases/download/b6730/llama-server-b6730-linux-x64.zip"
    );
    assert_eq!(
        Artifact::Server.url(Build::locked(1), Platform::MacosArm64),
        "https://github.com/hecrj/llama-server/releases/download/b1/llama-server-b1-macos-arm64.zip"
    );
    assert_eq!(
        Artifact::Server.url(Build::locked(42), Platform::MacosX64),
        "https://github.com/hecrj/llama-server/releases/download/b42/llama-server-b42-macos-x64.zip"
    );
}

#[test]
fn address_of_a_backend() {
    assert_eq!(
        Artifact::Backend(Backend::Cuda).url(Build::locked(6730), Platform::WindowsX64),
        "https://github.com/hecrj/llama-server/releases/download/b6730/backend-cuda-b6730-windows-x64.zip"
    );
    assert_eq!(
        Artifact::Backend(Backend::Hip).url(Build::locked(0), Platform::LinuxX64),
        "https://github.com/hecrj/llama-server/releases/download/b0/backend-hip-b0-linux-x64.zip"
    );
}

#[test]
fn artifacts_and_components_go_together() {
    assert_eq!(Artifact::Server.component(), Component::Server);
    assert_eq!(Component::Server.artifact(), Artifact::Server);
    for backend in [Backend::Cuda, Backend::Hip] {
        assert_eq!(Artifact::Backend(backend).component(), Component::Backend(backend));
        assert_eq!(Component::Backend(backend).artifact(), Artifact::Backend(backend));
    }
}
