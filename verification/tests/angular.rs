use prompt_engine::angular::{angular_module, AngularConfig};
use prompt_engine::module::{ModuleOutcome, RenderError};
use prompt_engine::provider::{angular_core_version, format_version, version_value};
use prompt_engine::resolve::{Segment, ValueOutcome};
use prompt_engine::scan::ScanCache;

fn s(x: &str) -> String {
    x.to_string()
}

fn seg(t: &str, st: Option<&str>) -> Segment {
    Segment {
        text: s(t),
        style: st.map(s),
    }
}

#[test]
fn version_value_strips_caret() {
    let v = version_value(Some(s("^12.0.0")), "v${raw}");
    assert_eq!(v, ValueOutcome::Present(s("v12.0.0")));
}

#[test]
fn version_value_strips_tilde() {
    let v = version_value(Some(s("~1.2.3")), "v${raw}");
    assert_eq!(v, ValueOutcome::Present(s("v1.2.3")));
}

#[test]
fn version_value_takes_plain_versions() {
    let v = version_value(Some(s("1.2.3")), "v${raw}");
    assert_eq!(v, ValueOutcome::Present(s("v1.2.3")));
}

#[test]
fn version_value_absent_without_dependency() {
    assert_eq!(version_value(None, "v${raw}"), ValueOutcome::Absent);
}

#[test]
fn version_value_fails_hard_on_bad_semver() {
    let v = version_value(Some(s("^not-a-version")), "v${raw}");
    assert_eq!(v, ValueOutcome::Failure(s("unparsable semantic version")));
}

#[test]
fn version_value_keeps_prerelease_and_build() {
    let v = version_value(Some(s("^17.1.0-next.4")), "v${raw}");
    assert_eq!(v, ValueOutcome::Present(s("v17.1.0-next.4")));
    let w = version_value(Some(s("1.2.3+build.5")), "v${raw}");
    assert_eq!(w, ValueOutcome::Present(s("v1.2.3+build.5")));
}

#[test]
fn version_format_substitutes_raw() {
    assert_eq!(format_version("version ${raw}!", "1.22.333"), s("version 1.22.333!"));
    assert_eq!(format_version("no marker", "1.2.3"), s("no marker"));
    assert_eq!(format_version("${raw}${raw}", "0.0.1"), s("0.0.10.0.1"));
}

#[test]
fn core_version_from_dependencies() {
    let manifest = "{\"dependencies\":{\"@angular/core\":\"^11.0.0\"}}";
    assert_eq!(angular_core_version(manifest), Some(s("^11.0.0")));
}

#[test]
fn core_version_from_dev_dependencies() {
    let manifest = "{\"devDependencies\":{\"@angular/core\":\"~10.1.0\"}}";
    assert_eq!(angular_core_version(manifest), Some(s("~10.1.0")));
}

#[test]
fn core_version_missing() {
    assert_eq!(angular_core_version("{\"dependencies\":{}}"), None);
    assert_eq!(angular_core_version("not json at all"), None);
    assert_eq!(angular_core_version("{\"dependencies\":{\"@angular/core\":42}}"), None);
}

#[test]
fn package_json_alone_is_not_applicable() {
    let cache = ScanCache::new(vec![s("package.json")], vec![]);
    let config = AngularConfig::default();
    let out = angular_module(&cache, Some(s("^12.0.0")), &config);
    assert_eq!(out, ModuleOutcome::NotApplicable);
}

#[test]
fn both_markers_render_the_version() {
    let cache = ScanCache::new(vec![s("package.json"), s("angular.json")], vec![]);
    let config = AngularConfig::default();
    let out = angular_module(&cache, Some(s("^12.0.0")), &config);
    let expected = vec![
        seg("via ", None),
        seg("\u{f06bf} v12.0.0 ", Some("bold green")),
    ];
    assert_eq!(out, ModuleOutcome::Rendered(expected));
}

#[test]
fn disabled_module_is_not_applicable() {
    let cache = ScanCache::new(vec![s("package.json"), s("angular.json")], vec![]);
    let mut config = AngularConfig::default();
    config.disabled = true;
    assert_eq!(
        angular_module(&cache, Some(s("^12.0.0")), &config),
        ModuleOutcome::NotApplicable
    );
}

#[test]
fn missing_dependency_suppresses_the_group() {
    let cache = ScanCache::new(vec![s("package.json"), s("angular.json")], vec![]);
    let config = AngularConfig::default();
    let out = angular_module(&cache, None, &config);
    assert_eq!(out, ModuleOutcome::Rendered(vec![seg("via ", None)]));
}

#[test]
fn bad_version_aborts_with_a_warning() {
    let cache = ScanCache::new(vec![s("package.json"), s("angular.json")], vec![]);
    let config = AngularConfig::default();
    match angular_module(&cache, Some(s("^not-a-version")), &config) {
        ModuleOutcome::Aborted(RenderError::Resolution(msg)) => {
            assert_eq!(msg, s("unparsable semantic version"));
        }
        other => panic!("expected a resolution abort, got {:?}", other),
    }
}

#[test]
fn default_config_values() {
    let config = AngularConfig::default();
    assert_eq!(config.format, s("via [$symbol($version )]($style)"));
    assert_eq!(config.version_format, s("v${raw}"));
    assert_eq!(config.symbol, s("\u{f06bf} "));
    assert_eq!(config.style, s("bold green"));
    assert_eq!(config.not_capable_style, s("bold red"));
    assert!(!config.disabled);
    assert_eq!(config.detect_package_json, vec![s("package.json")]);
    assert_eq!(config.detect_angular_json, vec![s("angular.json")]);
}
