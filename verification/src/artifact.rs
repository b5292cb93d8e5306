//! What can be fetched of a release, and from where.

use crate::backend::Backend;
use crate::cache::Component;
use crate::platform::Platform;
use crate::release::Build;
use vstd::prelude::*;
use vstd::string::*;

verus! {

/// A unit that can be fetched and installed: the server, or the libraries of
/// one backend.
#[derive(Debug, Clone, Copy, PartialEq, Eq, Structural)]
pub enum Artifact {
    Server,
    Backend(Backend),
}

impl Artifact {
    /// The component that the artifact is unpacked into.
    pub open spec fn spec_component(self) -> Component {
        match self {
            Artifact::Server => Component::Server,
            Artifact::Backend(backend) => Component::Backend(backend),
        }
    }

    /// The first part of the name of the artifact's archive.
    pub open spec fn stem(self) -> Seq<char> {
        match self {
            Artifact::Server => "llama-server"@,
            Artifact::Backend(backend) => "backend-"@ + backend.spec_name(),
        }
    }

    /// The address of the artifact's archive for a release and a platform:
    /// below the address of the release, the stem, the release and the
    /// platform's tag with `-` between them, then `.zip`.
    pub open spec fn spec_url(self, build: Build, platform: Platform) -> Seq<char> {
        build.spec_url() + "/"@ + self.stem() + "-"@ + build.text() + "-"@ + platform.spec_tag()
            + ".zip"@
    }

    /// The component that the artifact is unpacked into.
    pub fn component(self) -> (component: Component)
        ensures
            component == self.spec_component(),
    {
        match self {
            Artifact::Server => Component::Server,
            Artifact::Backend(backend) => Component::Backend(backend),
        }
    }

    /// The address of the artifact's archive for a release and a platform.
    pub fn url(self, build: Build, platform: Platform) -> (url: String)
        ensures
            url@ == self.spec_url(build, platform),
    {
        let mut url = build.url();
        url.append("/");
        match self {
            Artifact::Server => {
                url.append("llama-server");
            },
            Artifact::Backend(backend) => {
                url.append("backend-");
                url.append(backend.name());
            },
        }
        url.append("-");
        url.append(build.to_string().as_str());
        url.append("-");
        url.append(platform.tag());
        url.append(".zip");
        assert(url@ =~= self.spec_url(build, platform));
        url
    }
}

} // verus!
