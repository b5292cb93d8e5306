use llama_server::{Backend, Backends, Platform};

const PLATFORMS: [Platform; 4] =
    [Platform::LinuxX64, Platform::MacosX64, Platform::MacosArm64, Platform::WindowsX64];

fn sets() -> [Backends; 4] {
    [
        Backends::empty(),
        Backends::only(Backend::Cuda),
        Backends::only(Backend::Hip),
        Backends::all(),
    ]
}

#[test]
fn empty_and_all() {
    assert!(Backends::empty().is_empty());
    assert!(!Backends::all().is_empty());
    assert_eq!(Backends::empty(), Backends { cuda: false, hip: false });
    assert_eq!(Backends::all(), Backends { cuda: true, hip: true });
    assert_eq!(Backends::only(Backend::Cuda), Backends { cuda: true, hip: false });
    assert_eq!(Backends::only(Backend::Hip), Backends { cuda: false, hip: true });
    assert_eq!(
        Backends::only(Backend::Cuda).union(Backends::only(Backend::Hip)),
        Backends::all()
    );
    assert_eq!(Backends::empty().union(Backends::empty()), Backends::empty());
    assert_eq!(Backends::only(Backend::Cuda) | Backends::only(Backend::Hip), Backends::all());
    for first in sets() {
        for second in sets() {
            assert_eq!(first | second, first.union(second));
            assert!((first | second).contains(first));
            assert!((first | second).contains(second));
        }
        assert_eq!(first | Backends::empty(), first);
    }
}

#[test]
fn contains_is_inclusion() {
    for outer in sets() {
        for inner in sets() {
            let expected = (!inner.cuda || outer.cuda) && (!inner.hip || outer.hip);
            assert_eq!(outer.contains(inner), expected);
        }
        assert!(outer.contains(Backends::empty()));
        assert!(Backends::all().contains(outer));
    }
    assert!(!Backends::only(Backend::Cuda).contains(Backends::only(Backend::Hip)));
}

#[test]
fn available_elsewhere_than_on_macos() {
    for platform in [Platform::LinuxX64, Platform::WindowsX64] {
        assert_eq!(Backends::empty().available(platform), vec![]);
        assert_eq!(Backends::only(Backend::Cuda).available(platform), vec![Backend::Cuda]);
        assert_eq!(Backends::only(Backend::Hip).available(platform), vec![Backend::Hip]);
        assert_eq!(Backends::all().available(platform), vec![Backend::Cuda, Backend::Hip]);
    }
}

#[test]
fn nothing_is_available_on_macos() {
    for platform in [Platform::MacosX64, Platform::MacosArm64] {
        assert!(platform.is_macos());
        for set in sets() {
            assert_eq!(set.available(platform), vec![]);
            assert_eq!(set.normalize(platform), Backends::empty());
        }
    }
}

#[test]
fn normalize_keeps_what_is_available() {
    for platform in PLATFORMS {
        for set in sets() {
            let normalized = set.normalize(platform);
            let mut expected = Backends::empty();
            for backend in set.available(platform) {
                expected = expected.union(Backends::only(backend));
            }
            assert_eq!(normalized, expected);
            assert!(set.contains(normalized));
            assert_eq!(normalized.normalize(platform), normalized);
        }
    }
    assert_eq!(Backends::all().normalize(Platform::LinuxX64), Backends::all());
    assert_eq!(
        Backends::only(Backend::Hip).normalize(Platform::WindowsX64),
        Backends::only(Backend::Hip)
    );
}

#[test]
fn names_and_tags() {
    assert_eq!(Backend::Cuda.name(), "cuda");
    assert_eq!(Backend::Hip.name(), "hip");
    assert_eq!(Platform::LinuxX64.tag(), "linux-x64");
    assert_eq!(Platform::MacosX64.tag(), "macos-x64");
    assert_eq!(Platform::MacosArm64.tag(), "macos-arm64");
    assert_eq!(Platform::WindowsX64.tag(), "windows-x64");
    assert_eq!(Platform::LinuxX64.executable(), "llama-server");
    assert_eq!(Platform::MacosArm64.executable(), "llama-server");
    assert_eq!(Platform::WindowsX64.executable(), "llama-server.exe");
    assert!(Platform::WindowsX64.is_windows());
    assert!(!Platform::LinuxX64.is_windows());
    assert!(!Platform::LinuxX64.is_macos());
    assert!(!Platform::WindowsX64.is_macos());
    assert!(Backend::Cuda < Backend::Hip);
}

#[test]
fn sets_are_ordered_as_their_bits_are() {
    let [empty, cuda, hip, all] = sets();
    assert!(empty < cuda);
    assert!(cuda < hip);
    assert!(hip < all);
    let mut sorted = vec![all, hip, empty, cuda];
    sorted.sort();
    assert_eq!(sorted, vec![empty, cuda, hip, all]);
    let bits = |set: Backends| u32::from(set.cuda) | u32::from(set.hip) << 1;
    for first in sets() {
        for second in sets() {
            assert_eq!(first.cmp(&second), bits(first).cmp(&bits(second)));
        }
    }
}
