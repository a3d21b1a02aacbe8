//! Linker directives written as cargo build-script instructions.
use vstd::prelude::*;

use crate::directive::{directive_views, Directive, LinkDirective, ResolveError, ResolveFailure};
use crate::resolver::{resolve, resolve_spec, resolution_view};
use crate::text::string_views;

verus! {

/// The cargo instruction line for a directive.
pub open spec fn cargo_line(d: Directive) -> Seq<char> {
    match d {
        Directive::LinkDynamicLibrary { name } => "cargo:rustc-link-lib="@ + name,
        Directive::LinkFramework { name } => "cargo:rustc-link-lib=framework="@ + name,
        Directive::LinkStaticLibrary { name, .. } => "cargo:rustc-link-lib=static="@ + name,
        Directive::AddSearchPath { dir } => "cargo:rustc-link-search=native="@ + dir,
        Directive::PassThrough { raw_token } => "cargo:rustc-link-arg="@ + raw_token,
    }
}

/// The cargo instruction lines for a sequence of directives, in order.
pub open spec fn cargo_lines(ds: Seq<Directive>) -> Seq<Seq<char>> {
    ds.map_values(|d: Directive| cargo_line(d))
}

/// What rendering a resolution pass gives: its lines, or its error.
pub open spec fn rendered(
    r: Result<Vec<String>, ResolveError>,
    spec: Result<Seq<Directive>, ResolveFailure>,
) -> bool {
    match r {
        Ok(lines) => spec is Ok && string_views(lines@) == cargo_lines(spec->Ok_0),
        Err(e) => spec == Err::<Seq<Directive>, _>(e@),
    }
}

impl LinkDirective {
    /// This directive as a cargo build-script instruction line.
    pub fn to_cargo_instruction(&self) -> (r: String)
        ensures
            r@ == cargo_line(self@),
    {
        match self {
            LinkDirective::LinkDynamicLibrary { name } => String::from_str(
                "cargo:rustc-link-lib=",
            ).concat(name.as_str()),
            LinkDirective::LinkFramework { name } => String::from_str(
                "cargo:rustc-link-lib=framework=",
            ).concat(name.as_str()),
            LinkDirective::LinkStaticLibrary { name, .. } => String::from_str(
                "cargo:rustc-link-lib=static=",
            ).concat(name.as_str()),
            LinkDirective::AddSearchPath { dir } => String::from_str(
                "cargo:rustc-link-search=native=",
            ).concat(dir.as_str()),
            LinkDirective::PassThrough { raw_token } => String::from_str(
                "cargo:rustc-link-arg=",
            ).concat(raw_token.as_str()),
        }
    }
}

/// Each directive as a cargo instruction line, in order.
pub fn cargo_instructions(ds: &Vec<LinkDirective>) -> (r: Vec<String>)
    ensures
        string_views(r@) == cargo_lines(directive_views(ds@)),
{
    let mut out: Vec<String> = Vec::new();
    let mut k: usize = 0;
    while k < ds.len()
        invariant
            k <= ds@.len(),
            string_views(out@) == cargo_lines(directive_views(ds@.subrange(0, k as int))),
        decreases ds@.len() - k,
    {
        let line = ds[k].to_cargo_instruction();
        let ghost before = out@;
        out.push(line);
        proof {
            assert(ds@.subrange(0, k + 1) =~= ds@.subrange(0, k as int).push(ds@[k as int]));
            assert(string_views(out@) =~= string_views(before).push(line@));
            assert(cargo_lines(directive_views(ds@.subrange(0, k + 1))) =~= cargo_lines(
                directive_views(ds@.subrange(0, k as int)),
            ).push(line@));
        }
        k = k + 1;
    }
    assert(ds@.subrange(0, ds@.len() as int) =~= ds@);
    out
}

/// Parses a dependency report into cargo linker instructions.
///
/// `static_lib_base` is the directory the relative static-archive paths of the
/// report start from. Unknown tokens become `cargo:rustc-link-arg=` lines where
/// `include_args` holds and are dropped otherwise.
pub fn parse_deps(deps_contents: &str, static_lib_base: &str, include_args: bool) -> (r: Result<
    Vec<String>,
    ResolveError,
>)
    ensures
        rendered(r, resolve_spec(deps_contents@, static_lib_base@, include_args)),
{
    match resolve(deps_contents, static_lib_base, include_args) {
        Ok(ds) => Ok(cargo_instructions(&ds)),
        Err(e) => Err(e),
    }
}

} // verus!
