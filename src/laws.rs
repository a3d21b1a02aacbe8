//! What holds of every resolution pass.
use vstd::prelude::*;

use crate::directive::{Directive, LinkDirective, ResolveError, ResolveFailure};
use crate::path::file_stem_of;
use crate::resolver::{
    is_dynamic_flag, is_framework_flag, is_static_archive, library_name, resolution_view,
    resolve_from, resolve_spec, search_dir_of,
};
use crate::text::{is_white_space, tokens_of};

verus! {

/// The `AddSearchPath` directives of `ds` name pairwise different directories,
/// none of them in `seen`.
pub open spec fn search_paths_fresh(ds: Seq<Directive>, seen: Set<Seq<char>>) -> bool {
    &&& forall|j: int|
        0 <= j < ds.len() && (#[trigger] ds[j]) is AddSearchPath ==> !seen.contains(ds[j]->dir)
    &&& forall|j1: int, j2: int|
        0 <= j1 < j2 < ds.len() && (#[trigger] ds[j1]) is AddSearchPath
            && (#[trigger] ds[j2]) is AddSearchPath ==> ds[j1]->dir != ds[j2]->dir
}

/// Every static library of `ds` has its directory in `seen` or added as a
/// search path before it.
pub open spec fn static_dirs_added(ds: Seq<Directive>, seen: Set<Seq<char>>) -> bool {
    forall|k: int|
        0 <= k < ds.len() && (#[trigger] ds[k]) is LinkStaticLibrary ==> seen.contains(
            ds[k]->search_dir,
        ) || exists|j: int|
            0 <= j < k && #[trigger] ds[j] == Directive::AddSearchPath { dir: ds[k]->search_dir }
}

/// Every `AddSearchPath` of `ds` comes right before a static library in the
/// directory it adds.
pub open spec fn search_paths_used(ds: Seq<Directive>) -> bool {
    forall|j: int|
        0 <= j < ds.len() && (#[trigger] ds[j]) is AddSearchPath ==> j + 1 < ds.len() && ds[j
            + 1] is LinkStaticLibrary && ds[j + 1]->search_dir == ds[j]->dir
}

#[verifier::rlimit(30)]
proof fn lemma_search_paths_from(
    toks: Seq<Seq<char>>,
    i: int,
    base: Seq<char>,
    pass_through: bool,
    seen: Set<Seq<char>>,
)
    requires
        resolve_from(toks, i, base, pass_through, seen) is Ok,
    ensures
        ({
            let ds = resolve_from(toks, i, base, pass_through, seen)->Ok_0;
            search_paths_fresh(ds, seen) && static_dirs_added(ds, seen) && search_paths_used(ds)
        }),
    decreases toks.len() - i,
{
    if i < 0 || i >= toks.len() {
    } else {
        let t = toks[i];
        let ds = resolve_from(toks, i, base, pass_through, seen)->Ok_0;
        let next = if is_framework_flag(t) {
            i + 2
        } else {
            i + 1
        };
        if is_static_archive(t) && !is_framework_flag(t)
            && !is_dynamic_flag(t) {
            let dir = search_dir_of(base, t)->Some_0;
            if seen.contains(dir) {
                lemma_search_paths_from(toks, i + 1, base, pass_through, seen);
                let rest = resolve_from(toks, i + 1, base, pass_through, seen)->Ok_0;
                assert(ds == seq![ds[0]] + rest);
                assert forall|k: int|
                    0 <= k < ds.len() && (#[trigger] ds[k]) is LinkStaticLibrary implies seen.contains(
                        ds[k]->search_dir,
                    ) || exists|j: int|
                        0 <= j < k && #[trigger] ds[j] == Directive::AddSearchPath {
                            dir: ds[k]->search_dir,
                        } by {
                    if k > 0 {
                        assert(ds[k] == rest[k - 1]);
                        if !seen.contains(ds[k]->search_dir) {
                            let j = choose|j: int|
                                0 <= j < k - 1 && #[trigger] rest[j] == Directive::AddSearchPath {
                                    dir: rest[k - 1]->search_dir,
                                };
                            assert(ds[j + 1] == rest[j]);
                        }
                    }
                }
                assert forall|j1: int, j2: int|
                    0 <= j1 < j2 < ds.len() && (#[trigger] ds[j1]) is AddSearchPath
                        && (#[trigger] ds[j2]) is AddSearchPath implies ds[j1]->dir != ds[j2]->dir by {
                    assert(ds[j1] == rest[j1 - 1]);
                    assert(ds[j2] == rest[j2 - 1]);
                }
                assert forall|j: int| 0 <= j < ds.len() && (#[trigger] ds[j]) is AddSearchPath implies j
                    + 1 < ds.len() && ds[j + 1] is LinkStaticLibrary && ds[j + 1]->search_dir
                    == ds[j]->dir by {
                    assert(ds[j] == rest[j - 1]);
                    assert(ds[j + 1] == rest[j]);
                }
            } else {
                let seen2 = seen.insert(dir);
                lemma_search_paths_from(toks, i + 1, base, pass_through, seen2);
                let rest = resolve_from(toks, i + 1, base, pass_through, seen2)->Ok_0;
                assert(ds == seq![ds[0], ds[1]] + rest);
                assert(ds[0] == Directive::AddSearchPath { dir });
                assert forall|k: int|
                    0 <= k < ds.len() && (#[trigger] ds[k]) is LinkStaticLibrary implies seen.contains(
                        ds[k]->search_dir,
                    ) || exists|j: int|
                        0 <= j < k && #[trigger] ds[j] == Directive::AddSearchPath {
                            dir: ds[k]->search_dir,
                        } by {
                    if k > 1 {
                        assert(ds[k] == rest[k - 2]);
                        if ds[k]->search_dir == dir {
                            assert(ds[0] == Directive::AddSearchPath { dir: ds[k]->search_dir });
                        } else if !seen.contains(ds[k]->search_dir) {
                            let j = choose|j: int|
                                0 <= j < k - 2 && #[trigger] rest[j] == Directive::AddSearchPath {
                                    dir: rest[k - 2]->search_dir,
                                };
                            assert(ds[j + 2] == rest[j]);
                        }
                    } else if k == 1 {
                        assert(ds[0] == Directive::AddSearchPath { dir: ds[k]->search_dir });
                    }
                }
                assert forall|j1: int, j2: int|
                    0 <= j1 < j2 < ds.len() && (#[trigger] ds[j1]) is AddSearchPath
                        && (#[trigger] ds[j2]) is AddSearchPath implies ds[j1]->dir != ds[j2]->dir by {
                    assert(ds[j2] == rest[j2 - 2]);
                    if j1 > 0 {
                        assert(ds[j1] == rest[j1 - 2]);
                    }
                }
                assert forall|j: int|
                    0 <= j < ds.len() && (#[trigger] ds[j]) is AddSearchPath implies !seen.contains(
                        ds[j]->dir,
                    ) by {
                    if j > 1 {
                        assert(ds[j] == rest[j - 2]);
                    }
                }
                assert forall|j: int| 0 <= j < ds.len() && (#[trigger] ds[j]) is AddSearchPath implies j
                    + 1 < ds.len() && ds[j + 1] is LinkStaticLibrary && ds[j + 1]->search_dir
                    == ds[j]->dir by {
                    if j > 1 {
                        assert(ds[j] == rest[j - 2]);
                        assert(ds[j + 1] == rest[j - 1]);
                    }
                }
            }
        } else {
            lemma_search_paths_from(toks, next, base, pass_through, seen);
            let rest = resolve_from(toks, next, base, pass_through, seen)->Ok_0;
            let h = ds.len() - rest.len();
            assert(ds == ds.subrange(0, h) + rest);
            assert(h == 0 || h == 1);
            assert(h == 1 ==> !(ds[0] is AddSearchPath) && !(ds[0] is LinkStaticLibrary));
            assert forall|k: int|
                0 <= k < ds.len() && (#[trigger] ds[k]) is LinkStaticLibrary implies seen.contains(
                    ds[k]->search_dir,
                ) || exists|j: int|
                    0 <= j < k && #[trigger] ds[j] == Directive::AddSearchPath {
                        dir: ds[k]->search_dir,
                    } by {
                assert(ds[k] == rest[k - h]);
                if !seen.contains(ds[k]->search_dir) {
                    let j = choose|j: int|
                        0 <= j < k - h && #[trigger] rest[j] == Directive::AddSearchPath {
                            dir: rest[k - h]->search_dir,
                        };
                    assert(ds[j + h] == rest[j]);
                }
            }
            assert forall|j1: int, j2: int|
                0 <= j1 < j2 < ds.len() && (#[trigger] ds[j1]) is AddSearchPath
                    && (#[trigger] ds[j2]) is AddSearchPath implies ds[j1]->dir != ds[j2]->dir by {
                assert(ds[j1] == rest[j1 - h]);
                assert(ds[j2] == rest[j2 - h]);
            }
            assert forall|j: int|
                0 <= j < ds.len() && (#[trigger] ds[j]) is AddSearchPath implies !seen.contains(
                    ds[j]->dir,
                ) by {
                assert(ds[j] == rest[j - h]);
            }
            assert forall|j: int| 0 <= j < ds.len() && (#[trigger] ds[j]) is AddSearchPath implies j
                + 1 < ds.len() && ds[j + 1] is LinkStaticLibrary && ds[j + 1]->search_dir
                == ds[j]->dir by {
                assert(ds[j] == rest[j - h]);
                assert(ds[j + 1] == rest[j + 1 - h]);
            }
        }
    }
}

/// How many `AddSearchPath` directives `ds` holds.
pub open spec fn search_path_count(ds: Seq<Directive>) -> nat
    decreases ds.len(),
{
    if ds.len() == 0 {
        0
    } else {
        (if ds[0] is AddSearchPath {
            1nat
        } else {
            0nat
        }) + search_path_count(ds.drop_first())
    }
}

/// The directories that the static libraries of `ds` are found in.
pub open spec fn static_dirs(ds: Seq<Directive>) -> Set<Seq<char>>
    decreases ds.len(),
{
    if ds.len() == 0 {
        Set::empty()
    } else {
        let rest = static_dirs(ds.drop_first());
        match ds[0] {
            Directive::LinkStaticLibrary { search_dir, .. } => rest.insert(search_dir),
            _ => rest,
        }
    }
}

proof fn lemma_concat(h: Seq<Directive>, rest: Seq<Directive>)
    ensures
        search_path_count(h + rest) == search_path_count(h) + search_path_count(rest),
        static_dirs(h + rest) == static_dirs(h).union(static_dirs(rest)),
    decreases h.len(),
{
    if h.len() == 0 {
        assert(h + rest =~= rest);
        assert(static_dirs(h).union(static_dirs(rest)) =~= static_dirs(rest));
    } else {
        assert((h + rest).drop_first() =~= h.drop_first() + rest);
        assert((h + rest)[0] == h[0]);
        lemma_concat(h.drop_first(), rest);
        if let Directive::LinkStaticLibrary { search_dir, .. } = h[0] {
            assert(static_dirs(h + rest) =~= static_dirs(h).union(static_dirs(rest)));
        }
    }
}

proof fn lemma_static_dirs_finite(ds: Seq<Directive>)
    ensures
        static_dirs(ds).finite(),
    decreases ds.len(),
{
    if ds.len() > 0 {
        lemma_static_dirs_finite(ds.drop_first());
    }
}

proof fn lemma_count_from(
    toks: Seq<Seq<char>>,
    i: int,
    base: Seq<char>,
    pass_through: bool,
    seen: Set<Seq<char>>,
)
    requires
        resolve_from(toks, i, base, pass_through, seen) is Ok,
    ensures
        ({
            let ds = resolve_from(toks, i, base, pass_through, seen)->Ok_0;
            search_path_count(ds) == static_dirs(ds).difference(seen).len()
        }),
    decreases toks.len() - i,
{
    let ds = resolve_from(toks, i, base, pass_through, seen)->Ok_0;
    lemma_static_dirs_finite(ds);
    if i < 0 || i >= toks.len() {
        assert(static_dirs(ds).difference(seen) =~= Set::empty());
    } else {
        let t = toks[i];
        let next = if is_framework_flag(t) {
            i + 2
        } else {
            i + 1
        };
        if is_static_archive(t) && !is_framework_flag(t)
            && !is_dynamic_flag(t) {
            let dir = search_dir_of(base, t)->Some_0;
            if seen.contains(dir) {
                lemma_count_from(toks, i + 1, base, pass_through, seen);
                let rest = resolve_from(toks, i + 1, base, pass_through, seen)->Ok_0;
                let h = seq![ds[0]];
                assert(ds == h + rest);
                lemma_concat(h, rest);
                assert(h.drop_first() =~= Seq::<Directive>::empty());
                assert(static_dirs(h.drop_first()) == Set::<Seq<char>>::empty());
                assert(ds[0] is LinkStaticLibrary && ds[0]->search_dir == dir);
                assert(static_dirs(h) == Set::<Seq<char>>::empty().insert(dir));
                assert(search_path_count(h.drop_first()) == 0);
                assert(search_path_count(h) == 0);
                assert(static_dirs(ds).difference(seen) =~= static_dirs(rest).difference(seen));
            } else {
                let seen2 = seen.insert(dir);
                lemma_count_from(toks, i + 1, base, pass_through, seen2);
                let rest = resolve_from(toks, i + 1, base, pass_through, seen2)->Ok_0;
                let h = seq![ds[0], ds[1]];
                assert(ds == h + rest);
                lemma_concat(h, rest);
                assert(h.drop_first().drop_first() =~= Seq::<Directive>::empty());
                assert(h.drop_first() =~= seq![ds[1]]);
                assert(seq![ds[1]].drop_first() =~= Seq::<Directive>::empty());
                assert(static_dirs(seq![ds[1]].drop_first()) == Set::<Seq<char>>::empty());
                assert(ds[1] is LinkStaticLibrary && ds[1]->search_dir == dir);
                assert(static_dirs(seq![ds[1]]) == Set::<Seq<char>>::empty().insert(dir));
                assert(static_dirs(h) == Set::<Seq<char>>::empty().insert(dir));
                lemma_static_dirs_finite(rest);
                assert(search_path_count(seq![ds[1]].drop_first()) == 0);
                assert(search_path_count(h.drop_first()) == 0);
                assert(search_path_count(h) == 1);
                let others = static_dirs(rest).difference(seen2);
                assert(others.finite());
                assert(!others.contains(dir));
                assert(static_dirs(ds).difference(seen) =~= others.insert(dir));
                assert(others.insert(dir).len() == others.len() + 1);
            }
        } else {
            lemma_count_from(toks, next, base, pass_through, seen);
            let rest = resolve_from(toks, next, base, pass_through, seen)->Ok_0;
            let h = ds.subrange(0, ds.len() - rest.len());
            assert(ds == h + rest);
            lemma_concat(h, rest);
            if h.len() > 0 {
                assert(h.drop_first() =~= Seq::<Directive>::empty());
                assert(static_dirs(h.drop_first()) == Set::<Seq<char>>::empty());
                assert(!(h[0] is LinkStaticLibrary));
                assert(search_path_count(h.drop_first()) == 0);
            }
            assert(search_path_count(h) == 0);
            assert(static_dirs(h) =~= Set::<Seq<char>>::empty());
            assert(static_dirs(ds).difference(seen) =~= static_dirs(rest).difference(seen));
        }
    }
}

/// One search path per directory: a resolved report holds as many
/// `AddSearchPath` directives as its static libraries have different
/// directories.
pub proof fn lemma_search_path_count(report: Seq<char>, base: Seq<char>, pass_through: bool)
    requires
        resolve_spec(report, base, pass_through) is Ok,
    ensures
        ({
            let ds = resolve_spec(report, base, pass_through)->Ok_0;
            search_path_count(ds) == static_dirs(ds).len()
        }),
{
    let ds = resolve_spec(report, base, pass_through)->Ok_0;
    lemma_count_from(tokens_of(report), 0, base, pass_through, Set::empty());
    assert(static_dirs(ds).difference(Set::empty()) =~= static_dirs(ds));
}

/// Every directory of a static library gets exactly one `AddSearchPath`, and it
/// comes before every static library in that directory, the first included.
pub proof fn lemma_search_path_before_use(report: Seq<char>, base: Seq<char>, pass_through: bool)
    requires
        resolve_spec(report, base, pass_through) is Ok,
    ensures
        ({
            let ds = resolve_spec(report, base, pass_through)->Ok_0;
            &&& forall|k: int|
                0 <= k < ds.len() && (#[trigger] ds[k]) is LinkStaticLibrary ==> exists|j: int|
                    0 <= j < k && #[trigger] ds[j] == Directive::AddSearchPath {
                        dir: ds[k]->search_dir,
                    }
            &&& forall|j1: int, j2: int|
                0 <= j1 < ds.len() && 0 <= j2 < ds.len() && (#[trigger] ds[j1]) is AddSearchPath
                    && #[trigger] ds[j2] == ds[j1] ==> j1 == j2
            &&& forall|j: int, k: int|
                0 <= j < ds.len() && 0 <= k < ds.len() && (#[trigger] ds[j]) is AddSearchPath
                    && (#[trigger] ds[k]) is LinkStaticLibrary && ds[k]->search_dir == ds[j]->dir
                    ==> j < k
        }),
{
    let ds = resolve_spec(report, base, pass_through)->Ok_0;
    lemma_search_paths_from(tokens_of(report), 0, base, pass_through, Set::empty());
    assert forall|j1: int, j2: int|
        0 <= j1 < ds.len() && 0 <= j2 < ds.len() && (#[trigger] ds[j1]) is AddSearchPath
            && #[trigger] ds[j2] == ds[j1] implies j1 == j2 by {
        if j1 < j2 {
            assert(ds[j1]->dir != ds[j2]->dir);
        } else if j2 < j1 {
            assert(ds[j2]->dir != ds[j1]->dir);
        }
    }
    assert forall|j: int, k: int|
        0 <= j < ds.len() && 0 <= k < ds.len() && (#[trigger] ds[j]) is AddSearchPath
            && (#[trigger] ds[k]) is LinkStaticLibrary && ds[k]->search_dir == ds[j]->dir
            implies j < k by {
        let j2 = choose|j2: int|
            0 <= j2 < k && #[trigger] ds[j2] == Directive::AddSearchPath { dir: ds[k]->search_dir };
        if j2 < j {
            assert(ds[j2]->dir != ds[j]->dir);
        } else if j < j2 {
            assert(ds[j]->dir != ds[j2]->dir);
        }
    }
}

/// Resolution is a function of its inputs: two passes over the same report,
/// base directory and policy give the same directives, or the same error.
pub proof fn lemma_resolve_deterministic(
    report: Seq<char>,
    base: Seq<char>,
    pass_through: bool,
    first: Result<Vec<LinkDirective>, ResolveError>,
    second: Result<Vec<LinkDirective>, ResolveError>,
)
    requires
        resolution_view(first) == resolve_spec(report, base, pass_through),
        resolution_view(second) == resolve_spec(report, base, pass_through),
    ensures
        resolution_view(first) == resolution_view(second),
{
}

proof fn lemma_blank_has_no_tokens(s: Seq<char>)
    requires
        forall|i: int| 0 <= i < s.len() ==> is_white_space(#[trigger] s[i]),
    ensures
        tokens_of(s) == Seq::<Seq<char>>::empty(),
    decreases s.len(),
{
    if s.len() > 0 {
        assert(is_white_space(s[s.len() - 1]));
        lemma_blank_has_no_tokens(s.drop_last());
    }
}

/// A report that is empty or holds only whitespace resolves to no directives,
/// without error.
pub proof fn lemma_blank_report(report: Seq<char>, base: Seq<char>, pass_through: bool)
    requires
        forall|i: int| 0 <= i < report.len() ==> is_white_space(#[trigger] report[i]),
    ensures
        resolve_spec(report, base, pass_through) == Ok::<Seq<Directive>, ResolveFailure>(seq![]),
{
    lemma_blank_has_no_tokens(report);
}

/// For each directive that `resolve_from` gives, the index of the token it
/// comes from. An `AddSearchPath` shares its token with the static library
/// after it.
pub open spec fn sources_from(
    toks: Seq<Seq<char>>,
    i: int,
    base: Seq<char>,
    pass_through: bool,
    seen: Set<Seq<char>>,
) -> Seq<int>
    decreases toks.len() - i,
{
    if i < 0 || i >= toks.len() {
        seq![]
    } else {
        let t = toks[i];
        if is_framework_flag(t) {
            if i + 1 < toks.len() {
                seq![i] + sources_from(toks, i + 2, base, pass_through, seen)
            } else {
                seq![]
            }
        } else if is_dynamic_flag(t) {
            seq![i] + sources_from(toks, i + 1, base, pass_through, seen)
        } else if is_static_archive(t) {
            match search_dir_of(base, t) {
                Some(dir) => if seen.contains(dir) {
                    seq![i] + sources_from(toks, i + 1, base, pass_through, seen)
                } else {
                    seq![i, i] + sources_from(toks, i + 1, base, pass_through, seen.insert(dir))
                },
                None => seq![],
            }
        } else if pass_through {
            seq![i] + sources_from(toks, i + 1, base, pass_through, seen)
        } else {
            sources_from(toks, i + 1, base, pass_through, seen)
        }
    }
}

/// The token positions of a resolved report's directives.
pub open spec fn sources(report: Seq<char>, base: Seq<char>, pass_through: bool) -> Seq<int> {
    sources_from(tokens_of(report), 0, base, pass_through, Set::empty())
}

/// `d` is what the token at `j` of `toks` gives.
pub open spec fn derived_from(d: Directive, toks: Seq<Seq<char>>, j: int, base: Seq<char>) -> bool {
    &&& 0 <= j < toks.len()
    &&& match d {
        Directive::LinkFramework { name } => is_framework_flag(toks[j]) && j + 1 < toks.len()
            && name == toks[j + 1],
        Directive::LinkDynamicLibrary { name } => !is_framework_flag(toks[j]) && is_dynamic_flag(
            toks[j],
        ) && name == toks[j].skip(2),
        Directive::LinkStaticLibrary { name, search_dir } => {
            &&& !is_framework_flag(toks[j]) && !is_dynamic_flag(toks[j])
            &&& is_static_archive(toks[j])
            &&& file_stem_of(toks[j]) matches Some(stem) && name == library_name(stem)
            &&& search_dir_of(base, toks[j]) == Some(search_dir)
        },
        Directive::AddSearchPath { dir } => {
            &&& !is_framework_flag(toks[j]) && !is_dynamic_flag(toks[j])
            &&& is_static_archive(toks[j])
            &&& search_dir_of(base, toks[j]) == Some(dir)
        },
        Directive::PassThrough { raw_token } => {
            &&& !is_framework_flag(toks[j]) && !is_dynamic_flag(toks[j])
            &&& !is_static_archive(toks[j])
            &&& raw_token == toks[j]
        },
    }
}

proof fn lemma_sources_from(
    toks: Seq<Seq<char>>,
    i: int,
    base: Seq<char>,
    pass_through: bool,
    seen: Set<Seq<char>>,
)
    requires
        0 <= i,
        resolve_from(toks, i, base, pass_through, seen) is Ok,
    ensures
        ({
            let ds = resolve_from(toks, i, base, pass_through, seen)->Ok_0;
            let src = sources_from(toks, i, base, pass_through, seen);
            &&& src.len() == ds.len()
            &&& forall|k: int| 0 <= k < ds.len() ==> i <= #[trigger] src[k]
            &&& forall|k: int| 0 <= k < ds.len() ==> derived_from(#[trigger] ds[k], toks, src[k], base)
            &&& forall|k1: int, k2: int|
                0 <= k1 < k2 < ds.len() && !((#[trigger] ds[k1]) is AddSearchPath) && !((
                #[trigger] ds[k2]) is AddSearchPath) ==> src[k1] < src[k2]
        }),
    decreases toks.len() - i,
{
    if i >= toks.len() {
    } else {
        let t = toks[i];
        let ds = resolve_from(toks, i, base, pass_through, seen)->Ok_0;
        let src = sources_from(toks, i, base, pass_through, seen);
        let next = if is_framework_flag(t) {
            i + 2
        } else {
            i + 1
        };
        let seen2 = if is_static_archive(t) && !is_framework_flag(t) && !is_dynamic_flag(t)
            && !seen.contains(search_dir_of(base, t)->Some_0) {
            seen.insert(search_dir_of(base, t)->Some_0)
        } else {
            seen
        };
        lemma_sources_from(toks, next, base, pass_through, seen2);
        let rest = resolve_from(toks, next, base, pass_through, seen2)->Ok_0;
        let rs = sources_from(toks, next, base, pass_through, seen2);
        let h = ds.len() - rest.len();
        assert(ds == ds.subrange(0, h) + rest);
        assert(src == src.subrange(0, h) + rs);
        assert(forall|k: int| 0 <= k < h ==> src[k] == i);
        assert(forall|k: int| 0 <= k < h - 1 ==> ds[k] is AddSearchPath);
        assert forall|k: int| 0 <= k < ds.len() implies derived_from(
            #[trigger] ds[k],
            toks,
            src[k],
            base,
        ) by {
            if k >= h {
                assert(ds[k] == rest[k - h]);
                assert(src[k] == rs[k - h]);
            }
        }
        assert forall|k1: int, k2: int|
            0 <= k1 < k2 < ds.len() && !((#[trigger] ds[k1]) is AddSearchPath) && !((
            #[trigger] ds[k2]) is AddSearchPath) implies src[k1] < src[k2] by {
            if k1 >= h {
                assert(ds[k1] == rest[k1 - h]);
                assert(ds[k2] == rest[k2 - h]);
                assert(src[k1] == rs[k1 - h]);
                assert(src[k2] == rs[k2 - h]);
            } else {
                assert(src[k2] == rs[k2 - h]);
                assert(rs[k2 - h] >= next);
            }
        }
    }
}

/// Token order is kept: each directive comes from a token of the report, and
/// of two directives other than `AddSearchPath` the one whose token comes first
/// comes first.
pub proof fn lemma_token_order(report: Seq<char>, base: Seq<char>, pass_through: bool)
    requires
        resolve_spec(report, base, pass_through) is Ok,
    ensures
        ({
            let toks = tokens_of(report);
            let ds = resolve_spec(report, base, pass_through)->Ok_0;
            let src = sources(report, base, pass_through);
            &&& src.len() == ds.len()
            &&& forall|k: int| 0 <= k < ds.len() ==> derived_from(#[trigger] ds[k], toks, src[k], base)
            &&& forall|k1: int, k2: int|
                0 <= k1 < ds.len() && 0 <= k2 < ds.len() && !((#[trigger] ds[k1]) is AddSearchPath)
                    && !((#[trigger] ds[k2]) is AddSearchPath) ==> (k1 < k2 <==> src[k1] < src[k2])
        }),
{
    let ds = resolve_spec(report, base, pass_through)->Ok_0;
    let src = sources(report, base, pass_through);
    lemma_sources_from(tokens_of(report), 0, base, pass_through, Set::empty());
    assert forall|k1: int, k2: int|
        0 <= k1 < ds.len() && 0 <= k2 < ds.len() && !((#[trigger] ds[k1]) is AddSearchPath) && !((
        #[trigger] ds[k2]) is AddSearchPath) implies (k1 < k2 <==> src[k1] < src[k2]) by {
        if k2 < k1 {
            assert(src[k2] < src[k1]);
        }
    }
}

} // verus!
