//! The platforms that releases are published for.

use vstd::prelude::*;

verus! {

/// A platform that the server is published for. The program that uses this
/// library is built for exactly one of them and hands that one in.
#[derive(Debug, Clone, Copy, PartialEq, Eq, Hash, Structural)]
pub enum Platform {
    LinuxX64,
    MacosX64,
    MacosArm64,
    WindowsX64,
}

impl Platform {
    /// Whether the platform is macOS, where no hardware backend can be used.
    pub open spec fn macos(self) -> bool {
        self == Platform::MacosX64 || self == Platform::MacosArm64
    }

    /// Whether the platform is Windows.
    pub open spec fn windows(self) -> bool {
        self == Platform::WindowsX64
    }

    /// The tag that stands for the platform in the names of archives.
    pub open spec fn spec_tag(self) -> Seq<char> {
        match self {
            Platform::LinuxX64 => "linux-x64"@,
            Platform::MacosX64 => "macos-x64"@,
            Platform::MacosArm64 => "macos-arm64"@,
            Platform::WindowsX64 => "windows-x64"@,
        }
    }

    /// The file name of the server program on the platform.
    pub open spec fn spec_executable(self) -> Seq<char> {
        if self.windows() {
            "llama-server.exe"@
        } else {
            "llama-server"@
        }
    }

    /// Tells whether the platform is macOS.
    pub fn is_macos(self) -> (macos: bool)
        ensures
            macos == self.macos(),
    {
        match self {
            Platform::MacosX64 | Platform::MacosArm64 => true,
            _ => false,
        }
    }

    /// Tells whether the platform is Windows.
    pub fn is_windows(self) -> (windows: bool)
        ensures
            windows == self.windows(),
    {
        match self {
            Platform::WindowsX64 => true,
            _ => false,
        }
    }

    /// The tag that stands for the platform in the names of archives.
    pub fn tag(self) -> (tag: &'static str)
        ensures
            tag@ == self.spec_tag(),
    {
        match self {
            Platform::LinuxX64 => "linux-x64",
            Platform::MacosX64 => "macos-x64",
            Platform::MacosArm64 => "macos-arm64",
            Platform::WindowsX64 => "windows-x64",
        }
    }

    /// The file name of the server program on the platform.
    pub fn executable(self) -> (name: &'static str)
        ensures
            name@ == self.spec_executable(),
    {
        if self.is_windows() {
            "llama-server.exe"
        } else {
            "llama-server"
        }
    }
}

} // verus!
