//! `aliasc` compiles an Alias DSL v2 source into shell-specific output. This
//! crate holds the verified core: the target context and its section rules,
//! the template parser, the self-update's version logic, and the text
//! helpers they share.

pub mod context;
pub mod dsl;
pub mod laws;
pub mod lex;
pub mod os_release;
pub mod scan;
pub mod text;
pub mod version;

pub use context::{Context, Distro, Environment, Platform, Shell};
pub use dsl::{Definition, Diagnostic, Severity, SourceSpan};

use std::path::PathBuf;
use vstd::prelude::*;

verus! {

/// What a compilation is asked to do.
#[derive(Clone, Debug)]
pub struct CompileOptions {
    pub context: Context,
    pub source: PathBuf,
    pub local: bool,
    pub shortcut_map: Option<PathBuf>,
}

}
