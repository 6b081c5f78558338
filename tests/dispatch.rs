use average_float::dispatch::{lane_width, select_path, Capabilities, CapabilityCache, Path};

#[test]
fn widest_extension_wins() {
    let both = Capabilities { avx512f: true, neon: true };
    assert_eq!(select_path(both), Path::Avx512);
    let wide = Capabilities { avx512f: true, neon: false };
    assert_eq!(select_path(wide), Path::Avx512);
}

#[test]
fn neon_when_no_wider_path() {
    let caps = Capabilities { avx512f: false, neon: true };
    assert_eq!(select_path(caps), Path::Neon);
}

#[test]
fn scalar_fallback_without_extensions() {
    assert_eq!(select_path(Capabilities::none()), Path::Scalar);
}

#[test]
fn lane_widths_per_path() {
    assert_eq!(lane_width(Path::Avx512), 16);
    assert_eq!(lane_width(Path::Neon), 4);
    assert_eq!(lane_width(Path::Portable), 8);
    assert_eq!(lane_width(Path::Scalar), 1);
}

#[test]
fn cache_starts_empty() {
    let cache = CapabilityCache::new();
    assert_eq!(cache.current(), None);
    assert_eq!(cache.kept, None);
}

#[test]
fn first_probe_is_kept() {
    let mut cache = CapabilityCache::new();
    let caps = Capabilities { avx512f: true, neon: false };
    assert_eq!(cache.settle(caps), Path::Avx512);
    assert_eq!(cache.kept, Some(caps));
    assert_eq!(cache.current(), Some(Path::Avx512));
}

#[test]
fn dispatch_does_not_flap() {
    let mut cache = CapabilityCache::new();
    let first = cache.settle(Capabilities { avx512f: false, neon: true });
    assert_eq!(first, Path::Neon);
    for _ in 0..5 {
        assert_eq!(cache.settle(Capabilities::none()), first);
        assert_eq!(cache.settle(Capabilities { avx512f: true, neon: true }), first);
        assert_eq!(cache.current(), Some(first));
    }
    assert_eq!(cache.kept, Some(Capabilities { avx512f: false, neon: true }));
}
