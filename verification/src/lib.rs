//! Finds the string literals of a Python program that are very likely SQL.
//!
//! A string counts as SQL by the name that it is given: the name of the variable or
//! attribute that it is assigned to, or the name of the function that it is passed to. The
//! text of the string is worked out from the program text alone, through concatenation,
//! `%` formatting, `str.format` and formatted string literals. What is only known when the
//! program runs is replaced by a placeholder, or, where a placeholder would not do, the
//! string is left out.
//!
//! The program is handed over as a tree ([`Stmt`], [`Expr`]); parsing is left to the caller.
//! [`SqlFinder::analyze_stmts`] walks the tree and gives the strings found, each with its
//! name, in the order of the program text.

pub mod ast;
pub mod config;
pub mod decimal;
pub mod directive;
pub mod finder;
pub mod finder_types;
pub mod flatten;
pub mod format;
pub mod laws;
pub mod logging;
pub mod number;
pub mod numeral;
pub mod preanalysis;
pub mod resolve;
pub mod str_format;
pub mod text;

pub use crate::ast::DictItem;
pub use crate::ast::Expr;
pub use crate::ast::FStringPart;
pub use crate::ast::Keyword;
pub use crate::ast::Stmt;
pub use crate::config::FinderConfig;
pub use crate::finder::SqlContext;
pub use crate::finder::SqlFinder;
pub use crate::finder_types::FinderType;
pub use crate::finder_types::FloatValue;
pub use crate::format::format_python_string;
pub use crate::logging::LogLevel;
pub use crate::logging::Logger;
pub use crate::preanalysis::PreanalyzedFile;
