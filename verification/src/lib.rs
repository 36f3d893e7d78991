//! Metadata-driven parsing of command-line arguments for LLVM based tools.
//!
//! A catalog of option definitions is loaded from tablegen metadata, put into
//! a deterministic order, and then used to turn a flat list of raw argument
//! tokens into structured parsed arguments.

pub mod alias;
pub mod catalog;
pub mod commands;
pub mod definition;
pub mod error;
pub mod index;
pub mod json;
pub mod kind;
pub mod laws;
pub mod metadata;
pub mod ordering;
pub mod parsed;
pub mod parser;
pub mod prefix;
pub mod sdk;
pub mod text;

pub use catalog::CommandOptions;
pub use commands::{clang_13_options, llvm_13_options, CommandMetadata};
pub use definition::ProgramOption;
pub use error::Error;
pub use kind::OptionKind;
pub use metadata::{Field, OptionRecord};
pub use parsed::{ParsedArgument, ParsedArguments};
pub use parser::ArgumentCursor;
pub use prefix::ArgumentPrefix;
