//! The Angular prompt module: its configuration record and the render
//! pass that combines detection, the version provider and the template
//! engine.

use vstd::prelude::*;

use crate::module::ModuleOutcome;
use crate::module::render_outcome_ok;
use crate::module::run_module;
use crate::provider::opt_text_view;
use crate::provider::spec_version_value;
use crate::provider::version_value;
use crate::resolve::ResolveEnv;
use crate::scan::DetectionRequest;
use crate::scan::ScanCache;
use crate::scan::intersects;
use crate::scan::names_view;

verus! {

/// The module's flat configuration surface, with documented defaults.
pub struct AngularConfig {
    pub format: String,
    pub version_format: String,
    pub symbol: String,
    pub style: String,
    pub disabled: bool,
    pub not_capable_style: String,
    pub detect_package_json: Vec<String>,
    pub detect_angular_json: Vec<String>,
}

impl Default for AngularConfig {
    /// The documented defaults.
    fn default() -> (r: Self)
        ensures
            r.format@ == "via [$symbol($version )]($style)"@,
            r.version_format@ == "v${raw}"@,
            r.symbol@ == "\u{f06bf} "@,
            r.style@ == "bold green"@,
            !r.disabled,
            r.not_capable_style@ == "bold red"@,
            names_view(r.detect_package_json@) == seq!["package.json"@],
            names_view(r.detect_angular_json@) == seq!["angular.json"@],
    {
        let mut detect_package_json: Vec<String> = Vec::new();
        detect_package_json.push("package.json".to_owned());
        let mut detect_angular_json: Vec<String> = Vec::new();
        detect_angular_json.push("angular.json".to_owned());
        proof {
            assert(names_view(detect_package_json@) =~= seq!["package.json"@]);
            assert(names_view(detect_angular_json@) =~= seq!["angular.json"@]);
        }
        AngularConfig {
            format: "via [$symbol($version )]($style)".to_owned(),
            version_format: "v${raw}".to_owned(),
            symbol: "\u{f06bf} ".to_owned(),
            style: "bold green".to_owned(),
            disabled: false,
            not_capable_style: "bold red".to_owned(),
            detect_package_json,
            detect_angular_json,
        }
    }
}

/// The maps the Angular module renders against: `symbol` as the one meta
/// substitution, `version` as the one computed value, `style` as the one
/// style name.
pub open spec fn angular_env_spec(
    env: ResolveEnv,
    config: AngularConfig,
    dep: Option<Seq<char>>,
) -> bool {
    &&& env.meta@.len() == 1
    &&& env.meta@[0].0@ == "symbol"@
    &&& env.meta@[0].1@ == config.symbol@
    &&& env.values@.len() == 1
    &&& env.values@[0].0@ == "version"@
    &&& env.values@[0].1.gview() == spec_version_value(dep, config.version_format@)
    &&& env.styles@.len() == 1
    &&& env.styles@[0].0@ == "style"@
    &&& env.styles@[0].1@ == config.style@
}

/// Builds the Angular module's resolve maps from its configuration and
/// the dependency's raw version text.
pub fn angular_env(config: &AngularConfig, dep_version: Option<String>) -> (r: ResolveEnv)
    ensures
        angular_env_spec(r, *config, opt_text_view(dep_version)),
{
    let mut meta: Vec<(String, String)> = Vec::new();
    meta.push(("symbol".to_owned(), config.symbol.clone()));
    let mut values: Vec<(String, crate::resolve::ValueOutcome)> = Vec::new();
    values.push(
        ("version".to_owned(), version_value(dep_version, config.version_format.as_str())),
    );
    let mut styles: Vec<(String, String)> = Vec::new();
    styles.push(("style".to_owned(), config.style.clone()));
    ResolveEnv { meta, values, styles }
}

/// The directory shows the markers the module asks for: one of the
/// configured manifest names and one of the configured project-file
/// names — an AND at the module level.
pub open spec fn angular_applicable(cache: ScanCache, config: AngularConfig) -> bool {
    &&& intersects(names_view(config.detect_package_json@), cache.files_view())
    &&& intersects(names_view(config.detect_angular_json@), cache.files_view())
}

/// One render pass of the Angular module. `dep_version` is the raw
/// version text the manifest records for the core dependency, as the
/// caller extracted it. A disabled module, or a directory without both
/// markers, contributes nothing; otherwise the outcome is exactly what
/// the template engine dictates for the configured format string over the
/// module's maps.
pub fn angular_module(
    cache: &ScanCache,
    dep_version: Option<String>,
    config: &AngularConfig,
) -> (r: ModuleOutcome)
    ensures
        config.disabled ==> r == ModuleOutcome::NotApplicable,
        !config.disabled && !angular_applicable(*cache, *config) ==> r
            == ModuleOutcome::NotApplicable,
        !config.disabled && angular_applicable(*cache, *config) ==> exists|env: ResolveEnv|
            #[trigger] angular_env_spec(env, *config, opt_text_view(dep_version))
                && render_outcome_ok(r, config.format@, env),
{
    if config.disabled {
        return ModuleOutcome::NotApplicable;
    }
    let r1 = DetectionRequest::new().with_files(crate::scan::clone_names(
        &config.detect_package_json,
    ));
    let r2 = DetectionRequest::new().with_files(crate::scan::clone_names(
        &config.detect_angular_json,
    ));
    proof {
        assert(r1.files_view() =~= names_view(config.detect_package_json@));
        assert(r2.files_view() =~= names_view(config.detect_angular_json@));
    }
    let mut requests: Vec<DetectionRequest> = Vec::new();
    requests.push(r1);
    requests.push(r2);
    let env = angular_env(config, dep_version);
    let out = run_module(cache, &requests, config.format.as_str(), &env);
    proof {
        assert(requests@[0] == r1);
        assert(requests@[1] == r2);
        assert(!intersects(r1.extensions_view(), cache.extensions_view()));
        assert(!intersects(r1.folders_view(), cache.folders_view()));
        assert(!intersects(r2.extensions_view(), cache.extensions_view()));
        assert(!intersects(r2.folders_view(), cache.folders_view()));
        if angular_applicable(*cache, *config) {
            assert forall|k: int| 0 <= k < requests@.len() implies requests@[k].matches(
                *cache,
            ) by {
                if k == 0 {
                    assert(requests@[0].matches(*cache));
                } else {
                    assert(requests@[1].matches(*cache));
                }
            }
        } else {
            assert(!(requests@[0].matches(*cache) && requests@[1].matches(*cache)));
        }
    }
    out
}

} // verus!
