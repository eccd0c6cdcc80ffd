//! Build orchestration for a static site: classifying and mirroring source
//! paths, collecting templates, planning and producing renders, and keeping
//! a build apart from the requests that read its output.

pub mod cli;
pub mod coordinator;
pub mod dict;
pub mod fs;
pub mod fsutil;
pub mod jinja2;
pub mod lua;
pub mod minify;
pub mod order;
pub mod paths;
pub mod plan;
pub mod poison;
pub mod server;
pub mod walk;
pub mod watch;
