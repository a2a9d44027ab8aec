//! Core of an incremental build engine: the artifact/rule graph and the
//! scheduler's decisions, dependency files, compiler diagnostics, toolchain
//! vocabulary, and the names, commands and texts of build products.

// Text primitives.
pub mod text;
pub mod scan;
pub mod seqs;

// The build graph and its scheduler.
pub mod artifact;
pub mod schedule;
pub mod laws;
pub mod scope;
pub mod deps;
pub mod run;
pub mod watch;

// Compiler output.
pub mod diagnostic;
pub mod fixit;
pub mod diag_parser;
pub mod caret;
pub mod size_report;

// The compiler driver.
pub mod toolchain;
pub mod options;
pub mod opt_records;
pub mod products;
pub mod namespace;
pub mod probe;
pub mod commands;
pub mod ld_script;
pub mod ld_parse;
pub mod ld_regions;
pub mod symbols;
pub mod cmdline;

pub use artifact::{Artifact, ArtifactKind, ArtifactStore, ArtifactType, Rule, RuleState, StoreError};
pub use caret::text_location;
pub use cmdline::{Input, Print};
pub use commands::{compile_command, link_command, Tool};
pub use deps::{parse_d_deps, parse_make_deps};
pub use diag_parser::ParseError;
pub use diagnostic::{Diagnostic, Diagnostics, FixingSuggestion, Location, Severity, TextPoint, TextSpan};
pub use ld_parse::LdStatementsRead;
pub use ld_regions::LdRegionsRead;
pub use ld_script::{LdProvideExpr, LdRegion, LdScript};
pub use namespace::toolchain_namespace;
pub use options::{CompileOptions, DetectOpts, FlagValue, FlagValues, FormatArgs, NmOptions, OptName, OptVal};
pub use products::{plan_compile, plan_strip, script_path, CompilePlan, FileKind, StripPlan, Version};
pub use scope::{ScopeEntry, ScopeError, Scopes};
pub use size_report::{ObjectSizeInfo, SectionSizeInfo, SizeInfo};
pub use symbols::{DemangleOpts, SymbolInfo};
pub use toolchain::{CInputKind, COutputKind, CompilerKind, DCompilerKind, DepKind, ObjFmt, PlatformKind, ToolchainError};
pub use run::{build_outcome, tool_diagnostics, BuildError, BuildRun};
pub use probe::{companion_tools, d_compiler_name, gcc_tool_candidates, parse_clang_version, strip_newlines};
pub use opt_records::{BaseOpts, CCompileOpts, DCompileOpts, DumpOpts, LinkOpts, StripOpts, ToolchainOpts};
pub use watch::WatchAction;
