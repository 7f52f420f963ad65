use goldenrod::material::MaterialType;
use goldenrod::profiler_state::ProfilerState;
use goldenrod::shader::{ShaderBackend, ShaderSource, ShaderSourceNew, FALLBACK_NAME, FALLBACK_WGSL};
use goldenrod::time::Time;
use goldenrod::util::{path_name, path_name_to_string};
use std::time::Duration;

#[test]
fn path_names() {
    assert_eq!(path_name_to_string("assets/shaders/raytrace.wgsl"), "raytrace.wgsl");
    assert_eq!(path_name("/"), None);
    assert_eq!(path_name("a/b.wgsl").as_deref(), Some("b.wgsl"));
}

#[test]
fn shader_loaded_and_fallback() {
    let s = ShaderSource::load(
        "shaders/a.wgsl".to_string(),
        ShaderBackend::Wgsl,
        Some(("/work/shaders/a.wgsl".to_string(), "fn main() {}".to_string())),
    );
    assert!(!s.is_fallback());
    assert_eq!(s.name(), "a.wgsl");
    assert_eq!(s.path(), "/work/shaders/a.wgsl");
    assert_eq!(s.source(), "fn main() {}");
    assert_eq!(s.backend(), ShaderBackend::Wgsl);

    let f = ShaderSource::load("shaders/b.wgsl".to_string(), ShaderBackend::Spirv, None);
    assert!(f.is_fallback());
    assert_eq!(f.name(), FALLBACK_NAME);
    assert_eq!(f.path(), "shaders/b.wgsl");
    assert_eq!(f.source(), FALLBACK_WGSL);
    assert_eq!(f.backend(), ShaderBackend::Spirv);

    let g = ShaderSource::fallback("x.wgsl".to_string());
    assert!(g.is_fallback());
    assert_eq!(g.backend(), ShaderBackend::Wgsl);
}

#[test]
fn shader_reload_keeps_path() {
    let mut s = ShaderSource::fallback("shaders/c.wgsl".to_string());
    s.reload(Some(("/w/shaders/c.wgsl".to_string(), "x".to_string())));
    assert!(!s.is_fallback());
    assert_eq!(s.name(), "c.wgsl");
    s.reload(None);
    assert!(s.is_fallback());
    assert_eq!(s.path(), "/w/shaders/c.wgsl");
}

#[test]
fn shader_source_new_lifecycle() {
    let mut s = ShaderSourceNew::load_wgsl("shaders/d.wgsl".to_string(), Some("body".to_string()));
    assert!(!s.is_fallback());
    assert_eq!(s.backend(), ShaderBackend::Wgsl);
    assert_eq!(s.source_str(), Some("body"));
    s.make_fallback();
    assert!(s.is_fallback());
    assert_eq!(s.source_str(), None);
    s.reload(Some("again".to_string()));
    assert_eq!(s.source_str(), Some("again"));
}

#[test]
fn profiler_keeps_newest_frames() {
    let mut p = ProfilerState::new(2);
    assert_eq!(p.memory(), 2);
    p.update(Duration::from_millis(1));
    p.update(Duration::from_millis(2));
    p.update(Duration::from_millis(3));
    let d: Vec<Duration> = p.delta_times().iter().copied().collect();
    assert_eq!(d, vec![Duration::from_millis(3), Duration::from_millis(2)]);
    p.set_memory(1);
    assert_eq!(p.memory(), 1);
    p.update(Duration::from_millis(4));
    let d: Vec<Duration> = p.delta_times().iter().copied().collect();
    assert_eq!(d, vec![Duration::from_millis(4)]);
}

#[test]
fn time_records_frames() {
    let mut t = Time::new();
    assert_eq!(t.delta(), Duration::ZERO);
    let now = std::time::Instant::now();
    t.record_frame(now, Duration::from_millis(16));
    assert_eq!(t.delta(), Duration::from_millis(16));
    t.update();
}

#[test]
fn material_codes() {
    assert_eq!(MaterialType::Lambertian.gpu_code(), 0);
    assert_eq!(MaterialType::Volume.gpu_code(), 3);
    assert_eq!(MaterialType::default(), MaterialType::Lambertian);
}
