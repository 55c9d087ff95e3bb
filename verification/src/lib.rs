//! A small engine for prompt modules: a directory-scan cache with detection
//! queries, a template parser for format strings with conditional groups and
//! styles, a variable resolver that turns a parsed template into styled text
//! segments, and the glue that runs one module from detection to output.

pub mod angular;
pub mod module;
pub mod provider;
pub mod resolve;
pub mod scan;
pub mod template;

pub use module::ModuleOutcome;
pub use resolve::ResolveEnv;
pub use resolve::Segment;
pub use scan::DetectionRequest;
pub use scan::ScanCache;
pub use template::TemplateNode;
