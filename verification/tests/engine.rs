use prompt_engine::module::{run_module, ModuleOutcome, RenderError};
use prompt_engine::resolve::{resolve_template, ResolveEnv, Segment, ValueOutcome};
use prompt_engine::scan::{extension_of, DetectionRequest, ScanCache};
use prompt_engine::template::{parse_template, TemplateNode};

fn s(x: &str) -> String {
    x.to_string()
}

fn seg(t: &str, st: Option<&str>) -> Segment {
    Segment {
        text: s(t),
        style: st.map(s),
    }
}

fn env(
    meta: Vec<(&str, &str)>,
    values: Vec<(&str, ValueOutcome)>,
    styles: Vec<(&str, &str)>,
) -> ResolveEnv {
    ResolveEnv {
        meta: meta.into_iter().map(|(k, v)| (s(k), s(v))).collect(),
        values: values.into_iter().map(|(k, v)| (s(k), v)).collect(),
        styles: styles.into_iter().map(|(k, v)| (s(k), s(v))).collect(),
    }
}

fn render(template: &str, e: &ResolveEnv) -> Result<Vec<Segment>, String> {
    let nodes = parse_template(template).expect("template must parse");
    resolve_template(&nodes, e)
}

#[test]
fn empty_template_parses_to_nothing() {
    let nodes = parse_template("").unwrap();
    assert_eq!(nodes, Vec::new());
}

#[test]
fn parse_is_deterministic() {
    let a = parse_template("via [$symbol($version )]($style)").unwrap();
    let b = parse_template("via [$symbol($version )]($style)").unwrap();
    assert_eq!(a, b);
}

#[test]
fn parse_unbalanced_group_fails() {
    assert_eq!(parse_template("[abc").unwrap_err().at, 4);
    assert_eq!(parse_template("abc]").unwrap_err().at, 3);
    assert_eq!(parse_template("(abc").unwrap_err().at, 4);
}

#[test]
fn parse_empty_variable_fails() {
    assert_eq!(parse_template("$").unwrap_err().at, 0);
    assert_eq!(parse_template("a$ b").unwrap_err().at, 1);
}

#[test]
fn parse_unknown_escape_fails() {
    assert_eq!(parse_template("\\x").unwrap_err().at, 0);
    assert_eq!(parse_template("ab\\").unwrap_err().at, 2);
}

#[test]
fn parse_escape_yields_literal() {
    let nodes = parse_template("\\$").unwrap();
    assert_eq!(nodes, vec![TemplateNode::Literal(s("$"))]);
    let out = render("\\[\\]\\(\\)\\$\\\\", &env(vec![], vec![], vec![])).unwrap();
    assert_eq!(out, vec![seg("[]()$\\", None)]);
}

#[test]
fn styled_group_renders() {
    let e = env(
        vec![("symbol", "A ")],
        vec![("version", ValueOutcome::Present(s("v1.2.3")))],
        vec![("style", "bold-green")],
    );
    let out = render("via [$symbol($version )]($style)", &e).unwrap();
    assert_eq!(out, vec![seg("via ", None), seg("A v1.2.3 ", Some("bold-green"))]);
}

#[test]
fn absent_variable_suppresses_group() {
    let e = env(
        vec![("symbol", "A ")],
        vec![("version", ValueOutcome::Absent)],
        vec![("style", "bold-green")],
    );
    let out = render("via [$symbol($version )]($style)", &e).unwrap();
    assert_eq!(out, vec![seg("via ", None)]);
}

#[test]
fn failing_variable_aborts_render() {
    let e = env(
        vec![("symbol", "A ")],
        vec![("version", ValueOutcome::Failure(s("boom")))],
        vec![("style", "bold-green")],
    );
    assert_eq!(render("via [$symbol($version )]($style)", &e), Err(s("boom")));
}

#[test]
fn group_suppression_is_all_or_nothing() {
    let e = env(
        vec![],
        vec![
            ("a", ValueOutcome::Present(s("x"))),
            ("b", ValueOutcome::Absent),
        ],
        vec![("st", "red"), ("s2", "blue")],
    );
    assert_eq!(render("[$a$b]($st)", &e).unwrap(), Vec::new());
    // a sibling group still renders
    assert_eq!(
        render("[$a]($st)[$b]($s2)", &e).unwrap(),
        vec![seg("x", Some("red"))]
    );
}

#[test]
fn unstyled_group_defaults_to_no_style() {
    let out = render("[abc]", &env(vec![], vec![], vec![])).unwrap();
    assert_eq!(out, vec![seg("abc", None)]);
}

#[test]
fn inner_group_style_overrides_outer() {
    let e = env(vec![], vec![], vec![("inner", "red"), ("outer", "blue")]);
    let out = render("[a[b]($inner)]($outer)", &e).unwrap();
    assert_eq!(out, vec![seg("a", Some("blue")), seg("b", Some("red"))]);
}

#[test]
fn top_level_absent_variable_drops_only_its_token() {
    let out = render("a$x b", &env(vec![], vec![], vec![])).unwrap();
    assert_eq!(out, vec![seg("a b", None)]);
}

#[test]
fn value_map_declines_then_meta_substitutes() {
    let e = env(vec![("symbol", "S")], vec![], vec![]);
    assert_eq!(render("$symbol", &e).unwrap(), vec![seg("S", None)]);
}

#[test]
fn value_map_wins_over_meta() {
    let e = env(
        vec![("symbol", "M")],
        vec![("symbol", ValueOutcome::Present(s("V")))],
        vec![],
    );
    assert_eq!(render("$symbol", &e).unwrap(), vec![seg("V", None)]);
}

#[test]
fn meta_node_substitutes_and_never_fails() {
    let e = env(vec![("symbol", "S")], vec![], vec![]);
    let nodes = vec![TemplateNode::Meta(s("symbol"))];
    assert_eq!(resolve_template(&nodes, &e).unwrap(), vec![seg("S", None)]);
    let unknown = vec![TemplateNode::Meta(s("nobody"))];
    assert_eq!(resolve_template(&unknown, &e).unwrap(), Vec::new());
}

#[test]
fn empty_directory_matches_no_request() {
    let cache = ScanCache::new(vec![], vec![]);
    let req = DetectionRequest::new().with_files(vec![s("package.json")]);
    assert!(!req.is_match(&cache));
}

#[test]
fn detection_by_file_name() {
    let cache = ScanCache::new(vec![s("package.json")], vec![]);
    let req = DetectionRequest::new().with_files(vec![s("package.json")]);
    assert!(req.is_match(&cache));
}

#[test]
fn detection_by_extension() {
    let cache = ScanCache::new(vec![s("index.js")], vec![]);
    assert!(DetectionRequest::new()
        .with_extensions(vec![s("js")])
        .is_match(&cache));
    assert!(!DetectionRequest::new()
        .with_extensions(vec![s("ts")])
        .is_match(&cache));
}

#[test]
fn detection_by_folder() {
    let cache = ScanCache::new(vec![], vec![s("node_modules")]);
    assert!(DetectionRequest::new()
        .with_folders(vec![s("node_modules")])
        .is_match(&cache));
    // a folder name is not a file name
    assert!(!DetectionRequest::new()
        .with_files(vec![s("node_modules")])
        .is_match(&cache));
}

#[test]
fn empty_request_matches_nothing() {
    let cache = ScanCache::new(vec![s("package.json"), s("index.js")], vec![s("src")]);
    assert!(!DetectionRequest::new().is_match(&cache));
}

#[test]
fn extension_rules() {
    assert_eq!(extension_of(&s("index.js")), Some(s("js")));
    assert_eq!(extension_of(&s("a.b.c")), Some(s("c")));
    assert_eq!(extension_of(&s(".nvmrc")), None);
    assert_eq!(extension_of(&s("trailing.")), None);
    assert_eq!(extension_of(&s("plain")), None);
}

#[test]
fn module_without_markers_produces_no_output() {
    let cache = ScanCache::new(vec![], vec![]);
    let requests = vec![DetectionRequest::new().with_files(vec![s("package.json")])];
    let e = env(vec![("symbol", "X")], vec![], vec![]);
    let out = run_module(&cache, &requests, "via $symbol", &e);
    assert_eq!(out, ModuleOutcome::NotApplicable);
}

#[test]
fn module_with_marker_renders() {
    let cache = ScanCache::new(vec![s("package.json")], vec![]);
    let requests = vec![DetectionRequest::new().with_files(vec![s("package.json")])];
    let e = env(vec![("symbol", "X")], vec![], vec![]);
    let out = run_module(&cache, &requests, "via $symbol", &e);
    assert_eq!(out, ModuleOutcome::Rendered(vec![seg("via X", None)]));
}

#[test]
fn module_with_bad_format_aborts() {
    let cache = ScanCache::new(vec![s("package.json")], vec![]);
    let requests = vec![DetectionRequest::new().with_files(vec![s("package.json")])];
    let e = env(vec![], vec![], vec![]);
    match run_module(&cache, &requests, "[", &e) {
        ModuleOutcome::Aborted(RenderError::Syntax(err)) => assert_eq!(err.at, 1),
        other => panic!("expected a syntax abort, got {:?}", other),
    }
}
