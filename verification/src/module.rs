//! The glue that runs one prompt module: detection against the scan cache,
//! parsing the configured format string, resolving it, and collecting the
//! styled segments — or reporting why there is no output.

use vstd::prelude::*;

use crate::resolve::GResolve;
use crate::resolve::ResolveEnv;
use crate::resolve::Segment;
use crate::resolve::gview_segs;
use crate::resolve::resolve_template;
use crate::resolve::resolve_template_spec;
use crate::scan::DetectionRequest;
use crate::scan::ScanCache;
use crate::template::GParse;
use crate::template::TemplateSyntaxError;
use crate::template::parse_template;
use crate::template::parse_template_spec;

verus! {

/// Why a module rendered nothing, when that is worth a warning.
#[derive(Debug, PartialEq, Eq)]
pub enum RenderError {
    /// The format string is malformed: a configuration error, worth
    /// surfacing once at validation time.
    Syntax(TemplateSyntaxError),
    /// A value provider failed hard; the message names the failure.
    Resolution(String),
}

/// One render pass's terminal state. `NotApplicable` and `Aborted` both
/// yield no output, but the first is silent and expected while the second
/// deserves a logged warning.
#[derive(Debug, PartialEq, Eq)]
pub enum ModuleOutcome {
    /// The directory shows none of the module's markers.
    NotApplicable,
    /// The ordered styled segments the module contributes.
    Rendered(Vec<Segment>),
    /// Detection succeeded but rendering failed.
    Aborted(RenderError),
}

/// Every detection request matches the cache: the module-level AND over
/// its requests.
pub open spec fn all_requests_match(rs: Seq<DetectionRequest>, cache: ScanCache) -> bool {
    forall|i: int| 0 <= i < rs.len() ==> rs[i].matches(cache)
}

/// What a render pass must yield once detection has succeeded: the parsed
/// and resolved segments, or the abort that the parse or resolution error
/// dictates.
pub open spec fn render_outcome_ok(r: ModuleOutcome, format: Seq<char>, env: ResolveEnv) -> bool {
    match parse_template_spec(format) {
        GParse::Fault(at) => match r {
            ModuleOutcome::Aborted(RenderError::Syntax(e)) => e.at as int == at,
            _ => false,
        },
        GParse::Tree(ns) => match resolve_template_spec(ns, env) {
            GResolve::Fail(m) => match r {
                ModuleOutcome::Aborted(RenderError::Resolution(msg)) => msg@ == m,
                _ => false,
            },
            GResolve::Segs(gs) => match r {
                ModuleOutcome::Rendered(segs) => gview_segs(segs@) == gs,
                _ => false,
            },
        },
    }
}

/// Runs one module: if any detection request fails to match, the module is
/// not applicable and produces no output; otherwise the format string is
/// parsed and resolved against `env`, and the outcome is exactly what the
/// template subsystems dictate.
pub fn run_module(
    cache: &ScanCache,
    requests: &Vec<DetectionRequest>,
    format: &str,
    env: &ResolveEnv,
) -> (r: ModuleOutcome)
    ensures
        !all_requests_match(requests@, *cache) ==> r == ModuleOutcome::NotApplicable,
        all_requests_match(requests@, *cache) ==> render_outcome_ok(r, format@, *env),
{
    let mut i: usize = 0;
    while i < requests.len()
        invariant
            i <= requests@.len(),
            forall|k: int| 0 <= k < i ==> requests@[k].matches(*cache),
        decreases requests@.len() - i,
    {
        if !requests[i].is_match(cache) {
            return ModuleOutcome::NotApplicable;
        }
        i += 1;
    }
    match parse_template(format) {
        Err(e) => ModuleOutcome::Aborted(RenderError::Syntax(e)),
        Ok(nodes) => match resolve_template(&nodes, env) {
            Err(m) => ModuleOutcome::Aborted(RenderError::Resolution(m)),
            Ok(segs) => ModuleOutcome::Rendered(segs),
        },
    }
}

} // verus!
