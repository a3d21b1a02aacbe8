//! Turns the dependency report of a native build into linker directives.
//!
//! The report is a whitespace-separated list of linker tokens (`-framework X`,
//! `-lname`, `dir/libname.a`, free-form flags). [`resolver::resolve`] classifies
//! them into [`directive::LinkDirective`] values; [`parse_deps`] and
//! [`deps_parser::parse_deps`] write those as cargo build-script lines.
pub mod cargo;
pub mod deps_parser;
pub mod directive;
pub mod laws;
pub mod path;
pub mod resolver;
pub mod text;

pub use cargo::parse_deps;
