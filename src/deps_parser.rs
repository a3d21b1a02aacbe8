//! The dependency-report parser that keeps every unknown token as a linker
//! argument.
use vstd::prelude::*;

use crate::cargo::rendered;
use crate::directive::ResolveError;
use crate::resolver::resolve_spec;

verus! {

/// Parses a dependency report into cargo linker instructions, passing every
/// token it does not know on as `cargo:rustc-link-arg=`.
pub fn parse_deps(deps_contents: &str, static_lib_base: &str) -> (r: Result<
    Vec<String>,
    ResolveError,
>)
    ensures
        rendered(r, resolve_spec(deps_contents@, static_lib_base@, true)),
{
    crate::cargo::parse_deps(deps_contents, static_lib_base, true)
}

} // verus!
