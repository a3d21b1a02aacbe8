use build_support::directive::{LinkDirective, ResolveError};
use build_support::resolver::{
    add_static_library, library_name_from_stem, resolve, resolve_tokens, ResolutionContext,
};

fn dynamic(name: &str) -> LinkDirective {
    LinkDirective::LinkDynamicLibrary { name: name.to_string() }
}

fn framework(name: &str) -> LinkDirective {
    LinkDirective::LinkFramework { name: name.to_string() }
}

fn static_lib(name: &str, dir: &str) -> LinkDirective {
    LinkDirective::LinkStaticLibrary { name: name.to_string(), search_dir: dir.to_string() }
}

fn search(dir: &str) -> LinkDirective {
    LinkDirective::AddSearchPath { dir: dir.to_string() }
}

fn pass(token: &str) -> LinkDirective {
    LinkDirective::PassThrough { raw_token: token.to_string() }
}

#[test]
fn mixed_tokens_with_pass_through() {
    let r = resolve("-lsqlite3 libmbgl-core.a -framework AppKit some_arg", "/build_dir/build", true);
    assert_eq!(
        r,
        Ok(vec![
            dynamic("sqlite3"),
            search("/build_dir/build"),
            static_lib("mbgl-core", "/build_dir/build"),
            framework("AppKit"),
            pass("some_arg"),
        ])
    );
}

#[test]
fn mixed_tokens_without_pass_through() {
    let r = resolve("-lsqlite3 libmbgl-core.a -framework AppKit some_arg", "/build_dir/build", false);
    assert_eq!(
        r,
        Ok(vec![
            dynamic("sqlite3"),
            search("/build_dir/build"),
            static_lib("mbgl-core", "/build_dir/build"),
            framework("AppKit"),
        ])
    );
}

#[test]
fn lone_framework_flag_is_malformed() {
    let r = resolve("-framework", "/build", true);
    assert_eq!(
        r,
        Err(ResolveError::MalformedInput { token: "-framework".to_string(), position: 0 })
    );
    let r = resolve("-lz libfoo.a -framework", "/build", false);
    assert_eq!(
        r,
        Err(ResolveError::MalformedInput { token: "-framework".to_string(), position: 2 })
    );
}

#[test]
fn nested_static_library_path() {
    let r = resolve("vendor/glslang/glslang/libglslang.a", "/build", true);
    assert_eq!(
        r,
        Ok(vec![
            search("/build/vendor/glslang/glslang"),
            static_lib("glslang", "/build/vendor/glslang/glslang"),
        ])
    );
}

#[test]
fn empty_and_blank_reports() {
    assert_eq!(resolve("", "/build", true), Ok(vec![]));
    assert_eq!(resolve("   \t\n  \r\n", "/build", true), Ok(vec![]));
    assert_eq!(resolve("\u{3000}\u{a0}\u{2028}", "/build", false), Ok(vec![]));
}

#[test]
fn shared_directory_gets_one_search_path() {
    let r = resolve("out/liba.a out/libb.a", "/build", true);
    assert_eq!(
        r,
        Ok(vec![
            search("/build/out"),
            static_lib("a", "/build/out"),
            static_lib("b", "/build/out"),
        ])
    );
}

#[test]
fn search_path_comes_back_only_for_new_directories() {
    let r = resolve("x/liba.a y/libb.a x/libc.a libd.a y/libe.a", "/b", true).unwrap();
    assert_eq!(
        r,
        vec![
            search("/b/x"),
            static_lib("a", "/b/x"),
            search("/b/y"),
            static_lib("b", "/b/y"),
            static_lib("c", "/b/x"),
            search("/b"),
            static_lib("d", "/b"),
            static_lib("e", "/b/y"),
        ]
    );
    let adds = r.iter().filter(|d| matches!(d, LinkDirective::AddSearchPath { .. })).count();
    assert_eq!(adds, 3);
}

#[test]
fn resolving_twice_gives_the_same_directives() {
    let report = "-lz -framework Metal libx.a a/liby.a -O2";
    let first = resolve(report, "/out", true);
    let second = resolve(report, "/out", true);
    assert_eq!(first, second);
    let first = resolve("-framework", "/out", true);
    let second = resolve("-framework", "/out", true);
    assert_eq!(first, second);
}

#[test]
fn other_directives_keep_token_order() {
    let r = resolve("-fPIC -la -framework F libs.a -lb tail", "/o", true).unwrap();
    assert_eq!(
        r,
        vec![
            pass("-fPIC"),
            dynamic("a"),
            framework("F"),
            search("/o"),
            static_lib("s", "/o"),
            dynamic("b"),
            pass("tail"),
        ]
    );
}

#[test]
fn dynamic_prefix_wins_over_archive_suffix() {
    let r = resolve("-lfoo.a", "/build", true);
    assert_eq!(r, Ok(vec![dynamic("foo.a")]));
}

#[test]
fn framework_takes_the_next_token_whatever_it_is() {
    let r = resolve("-framework libx.a -lm", "/build", true);
    assert_eq!(r, Ok(vec![framework("libx.a"), dynamic("m")]));
}

#[test]
fn shared_objects_are_passed_through_or_dropped() {
    let r = resolve("/usr/lib/libz.so", "/build", true);
    assert_eq!(r, Ok(vec![pass("/usr/lib/libz.so")]));
    let r = resolve("/usr/lib/libz.so", "/build", false);
    assert_eq!(r, Ok(vec![]));
}

#[test]
fn archive_name_without_lib_prefix_is_kept() {
    let r = resolve("deps/foo.a", "/build", true);
    assert_eq!(r, Ok(vec![search("/build/deps"), static_lib("foo", "/build/deps")]));
    let r = resolve("libfoo.bar.a", "/build", true);
    assert_eq!(r, Ok(vec![search("/build"), static_lib("foo.bar", "/build")]));
}

#[test]
fn absolute_archive_path_replaces_the_base() {
    let r = resolve("/opt/lib/libz.a", "/build", true);
    assert_eq!(r, Ok(vec![search("/opt/lib"), static_lib("z", "/opt/lib")]));
}

#[test]
fn base_with_trailing_separator() {
    let r = resolve("sub/libq.a", "/build/", true);
    assert_eq!(r, Ok(vec![search("/build/sub"), static_lib("q", "/build/sub")]));
}

#[test]
fn tokens_split_on_any_whitespace() {
    let r = resolve("\t-la\n\n-lb \r\n -framework\tF  ", "/build", true);
    assert_eq!(r, Ok(vec![dynamic("a"), dynamic("b"), framework("F")]));
}

#[test]
fn resolve_tokens_takes_split_tokens() {
    let tokens = vec!["-lx".to_string(), "liby.a".to_string(), "z".to_string()];
    let r = resolve_tokens(&tokens, "/base", false);
    assert_eq!(r, Ok(vec![dynamic("x"), search("/base"), static_lib("y", "/base")]));
}

#[test]
fn library_names_from_stems() {
    assert_eq!(library_name_from_stem("libmbgl-core".to_string()), "mbgl-core");
    assert_eq!(library_name_from_stem("foo".to_string()), "foo");
    assert_eq!(library_name_from_stem("lib".to_string()), "");
    assert_eq!(library_name_from_stem("liblib".to_string()), "lib");
}

#[test]
fn static_library_records_search_path_once() {
    let mut out = Vec::new();
    let mut seen = Vec::new();
    add_static_library(&mut out, &mut seen, "a".to_string(), "/d".to_string());
    assert_eq!(out, vec![search("/d"), static_lib("a", "/d")]);
    assert_eq!(seen, vec!["/d".to_string()]);
    add_static_library(&mut out, &mut seen, "b".to_string(), "/d".to_string());
    assert_eq!(out, vec![search("/d"), static_lib("a", "/d"), static_lib("b", "/d")]);
    assert_eq!(seen, vec!["/d".to_string()]);
    add_static_library(&mut out, &mut seen, "c".to_string(), "/e".to_string());
    assert_eq!(
        out,
        vec![search("/d"), static_lib("a", "/d"), static_lib("b", "/d"), search("/e"), static_lib("c", "/e")]
    );
    assert_eq!(seen, vec!["/d".to_string(), "/e".to_string()]);
}

#[test]
fn context_resolves_each_report_on_its_own() {
    let ctx = ResolutionContext::new("/b".to_string(), false);
    let first = ctx.resolve("x/liba.a junk").unwrap();
    assert_eq!(first, vec![search("/b/x"), static_lib("a", "/b/x")]);
    let second = ctx.resolve("x/libc.a").unwrap();
    assert_eq!(second, vec![search("/b/x"), static_lib("c", "/b/x")]);
}
