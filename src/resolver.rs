//! Classification of dependency-report tokens into linker directives.
use vstd::prelude::*;

use crate::directive::{directive_views, Directive, LinkDirective, ResolveError, ResolveFailure};
use crate::path::{opt_view, file_stem, file_stem_of, join, joined_of, parent, parent_of};
use crate::text::{
    contains_text, ends_with, same_text, split_whitespace_tokens, string_views, strip_prefix,
    stripped, tokens_of,
};

verus! {

/// The outcome of a resolution pass, as values.
pub type Resolution = Result<Seq<Directive>, ResolveFailure>;

/// The view of an executable resolution result.
pub open spec fn resolution_view(r: Result<Vec<LinkDirective>, ResolveError>) -> Resolution {
    match r {
        Ok(v) => Ok(directive_views(v@)),
        Err(e) => Err(e@),
    }
}

/// `head` in front of the directives of `rest`; an error stays as it is.
pub open spec fn prepend(head: Seq<Directive>, rest: Resolution) -> Resolution {
    match rest {
        Ok(ds) => Ok(head + ds),
        Err(e) => Err(e),
    }
}

/// The library name of a static archive: its file stem without a leading `lib`.
pub open spec fn library_name(stem: Seq<char>) -> Seq<char> {
    match stripped(stem, "lib"@) {
        Some(name) => name,
        None => stem,
    }
}

/// The directory a static-archive token is found in: the base directory joined
/// with the token's parent, or the base directory where the parent is empty.
pub open spec fn search_dir_of(base: Seq<char>, token: Seq<char>) -> Option<Seq<char>> {
    match parent_of(token) {
        Some(dir) => if dir.len() > 0 {
            joined_of(base, dir)
        } else {
            Some(base)
        },
        None => Some(base),
    }
}

/// Whether a token names a static archive.
pub open spec fn is_static_archive(token: Seq<char>) -> bool {
    ".a"@.is_suffix_of(token)
}

/// Whether a token is a dynamic-library flag `-l<name>`.
pub open spec fn is_dynamic_flag(token: Seq<char>) -> bool {
    "-l"@.is_prefix_of(token)
}

/// Whether a token is the framework marker.
pub open spec fn is_framework_flag(token: Seq<char>) -> bool {
    token == "-framework"@
}

/// The directives of `toks` from index `i` on, where the directories in `seen`
/// have had their search path emitted already.
pub open spec fn resolve_from(
    toks: Seq<Seq<char>>,
    i: int,
    base: Seq<char>,
    pass_through: bool,
    seen: Set<Seq<char>>,
) -> Resolution
    decreases toks.len() - i,
{
    if i < 0 || i >= toks.len() {
        Ok(seq![])
    } else {
        let t = toks[i];
        if is_framework_flag(t) {
            if i + 1 < toks.len() {
                prepend(
                    seq![Directive::LinkFramework { name: toks[i + 1] }],
                    resolve_from(toks, i + 2, base, pass_through, seen),
                )
            } else {
                Err(ResolveFailure::MalformedInput { token: t, position: i })
            }
        } else if is_dynamic_flag(t) {
            prepend(
                seq![Directive::LinkDynamicLibrary { name: t.skip(2) }],
                resolve_from(toks, i + 1, base, pass_through, seen),
            )
        } else if is_static_archive(t) {
            match (file_stem_of(t), search_dir_of(base, t)) {
                (Some(stem), Some(dir)) => {
                    let lib = Directive::LinkStaticLibrary {
                        name: library_name(stem),
                        search_dir: dir,
                    };
                    if seen.contains(dir) {
                        prepend(seq![lib], resolve_from(toks, i + 1, base, pass_through, seen))
                    } else {
                        prepend(
                            seq![Directive::AddSearchPath { dir }, lib],
                            resolve_from(toks, i + 1, base, pass_through, seen.insert(dir)),
                        )
                    }
                },
                _ => Err(ResolveFailure::EncodingError { token: t, position: i }),
            }
        } else if pass_through {
            prepend(
                seq![Directive::PassThrough { raw_token: t }],
                resolve_from(toks, i + 1, base, pass_through, seen),
            )
        } else {
            resolve_from(toks, i + 1, base, pass_through, seen)
        }
    }
}

/// The directives of a whole token sequence, in one pass with an empty
/// deduplication set.
pub open spec fn resolve_tokens_spec(
    toks: Seq<Seq<char>>,
    base: Seq<char>,
    pass_through: bool,
) -> Resolution {
    resolve_from(toks, 0, base, pass_through, Set::empty())
}

/// The directives of a dependency report.
pub open spec fn resolve_spec(report: Seq<char>, base: Seq<char>, pass_through: bool) -> Resolution {
    resolve_tokens_spec(tokens_of(report), base, pass_through)
}

proof fn lemma_prepend_prepend(a: Seq<Directive>, b: Seq<Directive>, r: Resolution)
    ensures
        prepend(a, prepend(b, r)) == prepend(a + b, r),
{
    if let Ok(ds) = r {
        assert(a + (b + ds) =~= (a + b) + ds);
    }
}

proof fn lemma_push_to_set(s: Seq<Seq<char>>, x: Seq<char>)
    ensures
        s.push(x).to_set() == s.to_set().insert(x),
{
    assert forall|y: Seq<char>| #[trigger] s.push(x).contains(y) <==> s.to_set().insert(x).contains(
        y,
    ) by {
        if s.push(x).contains(y) {
            let j = choose|j: int| 0 <= j < s.push(x).len() && s.push(x)[j] == y;
            if j < s.len() {
                assert(s[j] == y);
            }
        }
        if s.contains(y) {
            let j = choose|j: int| 0 <= j < s.len() && s[j] == y;
            assert(s.push(x)[j] == y);
        }
        assert(s.push(x)[s.len() as int] == x);
    }
    assert(s.push(x).to_set() =~= s.to_set().insert(x));
}

/// The library name of a static archive whose file stem is `stem`.
pub fn library_name_from_stem(stem: String) -> (r: String)
    ensures
        r@ == library_name(stem@),
{
    match strip_prefix(stem.as_str(), "lib") {
        Some(name) => name,
        None => stem,
    }
}

/// The directory the static archive `token` is found in.
fn static_search_dir(base_dir: &str, token: &str) -> (r: Option<String>)
    ensures
        opt_view(r) == search_dir_of(base_dir@, token@),
{
    match parent(token) {
        Some(p) => if p.unicode_len() > 0 {
            join(base_dir, p.as_str())
        } else {
            Some(String::from_str(base_dir))
        },
        None => Some(String::from_str(base_dir)),
    }
}

/// Records the static library `name` found in `dir`: appends it to `out`, after
/// an `AddSearchPath` for `dir` where `dir` is not in `seen` yet, and then adds
/// `dir` to `seen`.
pub fn add_static_library(
    out: &mut Vec<LinkDirective>,
    seen: &mut Vec<String>,
    name: String,
    dir: String,
)
    ensures
        ({
            let lib = Directive::LinkStaticLibrary { name: name@, search_dir: dir@ };
            if string_views(old(seen)@).contains(dir@) {
                &&& directive_views(final(out)@) == directive_views(old(out)@).push(lib)
                &&& final(seen)@ == old(seen)@
            } else {
                &&& directive_views(final(out)@) == directive_views(old(out)@) + seq![
                    Directive::AddSearchPath { dir: dir@ },
                    lib,
                ]
                &&& string_views(final(seen)@) == string_views(old(seen)@).push(dir@)
            }
        }),
{
    let ghost old_out = out@;
    let ghost old_seen = seen@;
    if contains_text(seen, &dir) {
        let lib = LinkDirective::LinkStaticLibrary { name, search_dir: dir };
        out.push(lib);
        assert(directive_views(out@) =~= directive_views(old_out).push(lib@));
    } else {
        let add = LinkDirective::AddSearchPath { dir: dir.clone() };
        let lib = LinkDirective::LinkStaticLibrary { name, search_dir: dir.clone() };
        out.push(add);
        out.push(lib);
        seen.push(dir);
        assert(directive_views(out@) =~= directive_views(old_out) + seq![add@, lib@]);
        assert(string_views(seen@) =~= string_views(old_seen).push(dir@));
    }
}

/// Classifies the tokens of a dependency report, left to right.
///
/// `-framework` takes the next token as the framework's name; `-l<name>` links
/// a dynamic library; a token ending in `.a` links a static archive, after an
/// `AddSearchPath` for its directory the first time that directory comes up;
/// any other token is passed through where `pass_through` holds and dropped
/// otherwise.
pub fn resolve_tokens(tokens: &Vec<String>, base_dir: &str, pass_through: bool) -> (r: Result<
    Vec<LinkDirective>,
    ResolveError,
>)
    ensures
        resolution_view(r) == resolve_tokens_spec(string_views(tokens@), base_dir@, pass_through),
{
    let ghost toks = string_views(tokens@);
    let n = tokens.len();
    let mut out: Vec<LinkDirective> = Vec::new();
    let mut seen: Vec<String> = Vec::new();
    let mut i: usize = 0;
    proof {
        assert(string_views(seen@).to_set() =~= Set::empty());
        if let Ok(ds) = resolve_tokens_spec(toks, base_dir@, pass_through) {
            assert(directive_views(out@) + ds =~= ds);
        }
    }
    while i < n
        invariant
            n == tokens@.len(),
            toks == string_views(tokens@),
            i <= n,
            resolve_tokens_spec(toks, base_dir@, pass_through) == prepend(
                directive_views(out@),
                resolve_from(toks, i as int, base_dir@, pass_through, string_views(seen@).to_set()),
            ),
        decreases n - i,
    {
        let ghost old_out = out@;
        let ghost seen_set = string_views(seen@).to_set();
        let t = &tokens[i];
        assert(t@ == toks[i as int]);
        if same_text(t.as_str(), "-framework") {
            if i + 1 < n {
                let name = tokens[i + 1].clone();
                let d = LinkDirective::LinkFramework { name };
                out.push(d);
                proof {
                    assert(directive_views(out@) =~= directive_views(old_out) + seq![d@]);
                    lemma_prepend_prepend(
                        directive_views(old_out),
                        seq![d@],
                        resolve_from(toks, i + 2, base_dir@, pass_through, seen_set),
                    );
                }
                i = i + 2;
            } else {
                return Err(ResolveError::MalformedInput { token: t.clone(), position: i });
            }
        } else if let Some(name) = strip_prefix(t.as_str(), "-l") {
            let d = LinkDirective::LinkDynamicLibrary { name };
            out.push(d);
            proof {
                reveal_strlit("-l");
                assert(directive_views(out@) =~= directive_views(old_out) + seq![d@]);
                lemma_prepend_prepend(
                    directive_views(old_out),
                    seq![d@],
                    resolve_from(toks, i + 1, base_dir@, pass_through, seen_set),
                );
            }
            i = i + 1;
        } else if ends_with(t.as_str(), ".a") {
            match (file_stem(t.as_str()), static_search_dir(base_dir, t.as_str())) {
                (Some(stem), Some(dir)) => {
                    let name = library_name_from_stem(stem);
                    let ghost dir_text = dir@;
                    let ghost old_seen = seen@;
                    let ghost lib = Directive::LinkStaticLibrary { name: name@, search_dir: dir@ };
                    add_static_library(&mut out, &mut seen, name, dir);
                    proof {
                        if seen_set.contains(dir_text) {
                            assert(directive_views(out@) =~= directive_views(old_out) + seq![lib]);
                            lemma_prepend_prepend(
                                directive_views(old_out),
                                seq![lib],
                                resolve_from(toks, i + 1, base_dir@, pass_through, seen_set),
                            );
                        } else {
                            let add = Directive::AddSearchPath { dir: dir_text };
                            lemma_push_to_set(string_views(old_seen), dir_text);
                            lemma_prepend_prepend(
                                directive_views(old_out),
                                seq![add, lib],
                                resolve_from(
                                    toks,
                                    i + 1,
                                    base_dir@,
                                    pass_through,
                                    seen_set.insert(dir_text),
                                ),
                            );
                        }
                    }
                    i = i + 1;
                },
                _ => {
                    return Err(ResolveError::EncodingError { token: t.clone(), position: i });
                },
            }
        } else {
            if pass_through {
                let d = LinkDirective::PassThrough { raw_token: t.clone() };
                out.push(d);
                proof {
                    assert(directive_views(out@) =~= directive_views(old_out) + seq![d@]);
                    lemma_prepend_prepend(
                        directive_views(old_out),
                        seq![d@],
                        resolve_from(toks, i + 1, base_dir@, pass_through, seen_set),
                    );
                }
            }
            i = i + 1;
        }
    }
    assert(directive_views(out@) + seq![] =~= directive_views(out@));
    Ok(out)
}

/// Resolves a dependency report: splits it into whitespace-separated tokens and
/// classifies them with [`resolve_tokens`].
pub fn resolve(report_text: &str, base_dir: &str, pass_through: bool) -> (r: Result<
    Vec<LinkDirective>,
    ResolveError,
>)
    ensures
        resolution_view(r) == resolve_spec(report_text@, base_dir@, pass_through),
{
    let tokens = split_whitespace_tokens(report_text);
    resolve_tokens(&tokens, base_dir, pass_through)
}

/// What one resolution pass works with: the directory that relative
/// static-archive paths start from, and whether unknown tokens are passed on.
pub struct ResolutionContext {
    pub base_dir: String,
    pub pass_through: bool,
}

impl ResolutionContext {
    pub fn new(base_dir: String, pass_through: bool) -> (r: ResolutionContext)
        ensures
            r.base_dir@ == base_dir@,
            r.pass_through == pass_through,
    {
        ResolutionContext { base_dir, pass_through }
    }

    /// Resolves `report_text` in this context, with a deduplication set of its
    /// own: nothing carries over from one call to the next.
    pub fn resolve(&self, report_text: &str) -> (r: Result<Vec<LinkDirective>, ResolveError>)
        ensures
            resolution_view(r) == resolve_spec(report_text@, self.base_dir@, self.pass_through),
    {
        resolve(report_text, self.base_dir.as_str(), self.pass_through)
    }
}

} // verus!
