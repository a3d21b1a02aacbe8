//! Linker directives and the errors of a resolution pass.
use vstd::prelude::*;

verus! {

/// One instruction for the host build tool.
#[derive(Debug, PartialEq, Eq)]
pub enum LinkDirective {
    /// Link the named dynamic library (from a `-l<name>` token).
    LinkDynamicLibrary { name: String },
    /// Link the named framework (from `-framework <name>`).
    LinkFramework { name: String },
    /// Link a static archive, found in `search_dir`.
    LinkStaticLibrary { name: String, search_dir: String },
    /// Add a directory to the native library search path.
    AddSearchPath { dir: String },
    /// Hand a token the resolver does not know to the linker as it is.
    PassThrough { raw_token: String },
}

/// A [`LinkDirective`] with its strings seen as text.
pub ghost enum Directive {
    LinkDynamicLibrary { name: Seq<char> },
    LinkFramework { name: Seq<char> },
    LinkStaticLibrary { name: Seq<char>, search_dir: Seq<char> },
    AddSearchPath { dir: Seq<char> },
    PassThrough { raw_token: Seq<char> },
}

impl View for LinkDirective {
    type V = Directive;

    open spec fn view(&self) -> Directive {
        match self {
            LinkDirective::LinkDynamicLibrary { name } => Directive::LinkDynamicLibrary {
                name: name@,
            },
            LinkDirective::LinkFramework { name } => Directive::LinkFramework { name: name@ },
            LinkDirective::LinkStaticLibrary { name, search_dir } => Directive::LinkStaticLibrary {
                name: name@,
                search_dir: search_dir@,
            },
            LinkDirective::AddSearchPath { dir } => Directive::AddSearchPath { dir: dir@ },
            LinkDirective::PassThrough { raw_token } => Directive::PassThrough {
                raw_token: raw_token@,
            },
        }
    }
}

/// The views of a sequence of directives.
pub open spec fn directive_views(v: Seq<LinkDirective>) -> Seq<Directive> {
    v.map_values(|d: LinkDirective| d@)
}

/// Why a resolution pass stopped. `position` counts tokens from zero.
#[derive(Debug, PartialEq, Eq)]
pub enum ResolveError {
    /// A `-framework` token with no token after it.
    MalformedInput { token: String, position: usize },
    /// A static-library token whose name or directory could not be had as text.
    EncodingError { token: String, position: usize },
}

/// A [`ResolveError`] with its token seen as text.
pub ghost enum ResolveFailure {
    MalformedInput { token: Seq<char>, position: int },
    EncodingError { token: Seq<char>, position: int },
}

impl View for ResolveError {
    type V = ResolveFailure;

    open spec fn view(&self) -> ResolveFailure {
        match self {
            ResolveError::MalformedInput { token, position } => ResolveFailure::MalformedInput {
                token: token@,
                position: *position as int,
            },
            ResolveError::EncodingError { token, position } => ResolveFailure::EncodingError {
                token: token@,
                position: *position as int,
            },
        }
    }
}

} // verus!
