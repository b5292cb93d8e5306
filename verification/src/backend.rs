//! Hardware backends and sets of them.

use crate::platform::Platform;
use vstd::prelude::*;
use vstd::seq_lib::lemma_seq_contains_after_push;

verus! {

/// A hardware backend that the server can be run with.
#[derive(Debug, Clone, Copy, PartialEq, Eq, PartialOrd, Ord, Hash, Structural)]
pub enum Backend {
    Cuda,
    Hip,
}

impl Backend {
    /// The name of the backend in file names and addresses.
    pub open spec fn spec_name(self) -> Seq<char> {
        match self {
            Backend::Cuda => "cuda"@,
            Backend::Hip => "hip"@,
        }
    }

    /// The name of the backend in file names and addresses.
    pub fn name(self) -> (name: &'static str)
        ensures
            name@ == self.spec_name(),
    {
        match self {
            Backend::Cuda => "cuda",
            Backend::Hip => "hip",
        }
    }
}

/// A set of backends. Sets are ordered as the numbers are that have a bit
/// for each backend, the lowest for the first: HIP comes before CUDA here so
/// that a set with HIP comes after the same set without it.
#[derive(Debug, Clone, Copy, PartialEq, Eq, PartialOrd, Ord, Hash, Structural)]
pub struct Backends {
    pub hip: bool,
    pub cuda: bool,
}

impl View for Backends {
    type V = Set<Backend>;

    open spec fn view(&self) -> Set<Backend> {
        Set::new(|backend: Backend| self.has(backend))
    }
}

impl Backends {
    /// Whether the set holds the backend.
    pub open spec fn has(self, backend: Backend) -> bool {
        match backend {
            Backend::Cuda => self.cuda,
            Backend::Hip => self.hip,
        }
    }

    /// The backends of the set that can be used on the platform, CUDA before
    /// HIP: none on macOS, all of them elsewhere.
    pub open spec fn usable(self, platform: Platform) -> Seq<Backend> {
        if platform.macos() {
            Seq::empty()
        } else {
            (if self.cuda {
                seq![Backend::Cuda]
            } else {
                Seq::empty()
            }) + (if self.hip {
                seq![Backend::Hip]
            } else {
                Seq::empty()
            })
        }
    }

    /// The part of the set that can be used on the platform.
    pub open spec fn normalized(self, platform: Platform) -> Backends {
        if platform.macos() {
            Backends { cuda: false, hip: false }
        } else {
            self
        }
    }

    /// The set without any backend.
    pub fn empty() -> (set: Backends)
        ensures
            set == (Backends { cuda: false, hip: false }),
    {
        Backends { cuda: false, hip: false }
    }

    /// The set that holds the given backend alone.
    pub fn only(backend: Backend) -> (set: Backends)
        ensures
            set == (Backends { cuda: backend == Backend::Cuda, hip: backend == Backend::Hip }),
            set@ == set![backend],
    {
        let set = match backend {
            Backend::Cuda => Backends { cuda: true, hip: false },
            Backend::Hip => Backends { cuda: false, hip: true },
        };
        assert(set@ =~= set![backend]);
        set
    }

    /// The set of all backends.
    pub fn all() -> (set: Backends)
        ensures
            set == (Backends { cuda: true, hip: true }),
    {
        Backends { cuda: true, hip: true }
    }

    /// Tells whether the set holds no backend.
    pub fn is_empty(self) -> (empty: bool)
        ensures
            empty == (self == Backends { cuda: false, hip: false }),
    {
        !self.cuda && !self.hip
    }

    /// Tells whether every backend of `other` is in the set.
    pub fn contains(self, other: Backends) -> (contained: bool)
        ensures
            contained == ((other.cuda ==> self.cuda) && (other.hip ==> self.hip)),
            contained == other@.subset_of(self@),
    {
        let contained = (self.cuda || !other.cuda) && (self.hip || !other.hip);
        proof {
            if contained {
                assert forall|backend: Backend| other@.contains(backend) implies self@.contains(
                    backend,
                ) by {}
            } else if other.cuda && !self.cuda {
                assert(other@.contains(Backend::Cuda));
                assert(!self@.contains(Backend::Cuda));
            } else {
                assert(other@.contains(Backend::Hip));
                assert(!self@.contains(Backend::Hip));
            }
        }
        contained
    }

    /// The backends that are in either set.
    pub fn union(self, other: Backends) -> (set: Backends)
        ensures
            set == (Backends { cuda: self.cuda || other.cuda, hip: self.hip || other.hip }),
            set@ == self@.union(other@),
    {
        let set = Backends { cuda: self.cuda || other.cuda, hip: self.hip || other.hip };
        assert(set@ =~= self@.union(other@));
        set
    }

    /// The backends of the set that can be used on the platform, CUDA before
    /// HIP.
    pub fn available(self, platform: Platform) -> (backends: Vec<Backend>)
        ensures
            backends@ == self.usable(platform),
    {
        let mut backends = Vec::new();
        if platform.is_macos() {
            return backends;
        }
        if self.contains(Backends::only(Backend::Cuda)) {
            backends.push(Backend::Cuda);
        }
        if self.contains(Backends::only(Backend::Hip)) {
            backends.push(Backend::Hip);
        }
        assert(backends@ =~= self.usable(platform));
        backends
    }

    /// The part of the set that can be used on the platform. This is the set
    /// to record for an install, whatever was asked for.
    pub fn normalize(self, platform: Platform) -> (set: Backends)
        ensures
            set == self.normalized(platform),
    {
        let available = self.available(platform);
        let mut set = Backends::empty();
        for i in 0..available.len()
            invariant
                available@ == self.usable(platform),
                set.cuda == available@.take(i as int).contains(Backend::Cuda),
                set.hip == available@.take(i as int).contains(Backend::Hip),
        {
            proof {
                let seen = available@.take(i as int);
                available@.lemma_take_succ_push(i as int);
                lemma_seq_contains_after_push(seen, available@[i as int], Backend::Cuda);
                lemma_seq_contains_after_push(seen, available@[i as int], Backend::Hip);
            }
            set = set.union(Backends::only(available[i]));
        }
        proof {
            let usable = self.usable(platform);
            assert(available@.take(available.len() as int) =~= usable);
            if !platform.macos() {
                if self.cuda {
                    assert(usable[0] == Backend::Cuda);
                }
                if self.hip {
                    assert(usable[usable.len() - 1] == Backend::Hip);
                }
            }
        }
        set
    }
}

impl std::ops::BitOr for Backends {
    type Output = Backends;

    /// The backends that are in either set.
    fn bitor(self, other: Backends) -> (set: Backends) {
        self.union(other)
    }
}

impl vstd::std_specs::ops::BitOrSpecImpl for Backends {
    open spec fn obeys_bitor_spec() -> bool {
        true
    }

    open spec fn bitor_req(self, other: Backends) -> bool {
        true
    }

    open spec fn bitor_spec(self, other: Backends) -> Backends {
        Backends { cuda: self.cuda || other.cuda, hip: self.hip || other.hip }
    }
}

/// What is recorded for an install holds exactly the backends that can be
/// used on the platform, and on macOS none, whatever was asked for. Once
/// normalized, a set stays as it is.
pub proof fn lemma_normalized(backends: Backends, platform: Platform)
    ensures
        backends.normalized(platform)@ == backends.usable(platform).to_set(),
        backends.normalized(platform)@.subset_of(backends@),
        platform.macos() ==> backends.normalized(platform) == (Backends { cuda: false, hip: false })
            && backends.usable(platform).len() == 0,
        backends.normalized(platform).normalized(platform) == backends.normalized(platform),
{
    let usable = backends.usable(platform);
    let normalized = backends.normalized(platform);
    assert forall|backend: Backend| normalized@.contains(backend) <==> usable.to_set().contains(
        backend,
    ) by {
        if normalized@.contains(backend) {
            match backend {
                Backend::Cuda => {
                    assert(usable[0] == backend);
                },
                Backend::Hip => {
                    assert(usable[usable.len() - 1] == backend);
                },
            }
        }
    }
    assert(normalized@ =~= usable.to_set());
}

} // verus!
