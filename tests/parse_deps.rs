use std::path::PathBuf;

use build_support::deps_parser;
use build_support::parse_deps;

#[test]
fn lib_test_parse_deps() {
    // A dynamic library, a static archive with no parent directory, a
    // framework and one extra linker argument.
    let deps_content = "-lsqlite3 libmbgl-core.a -framework AppKit some_arg";
    let base_dir = "/build_dir/build";
    let instructions = parse_deps(deps_content, base_dir, true).unwrap();
    let expected = [
        "cargo:rustc-link-lib=sqlite3",
        "cargo:rustc-link-search=native=/build_dir/build",
        "cargo:rustc-link-lib=static=mbgl-core",
        "cargo:rustc-link-lib=framework=AppKit",
        "cargo:rustc-link-arg=some_arg",
    ];
    assert_eq!(instructions, expected);
}

#[test]
fn deps_parser_test_parse_deps() {
    let deps_content = "-lsqlite3 libmbgl-core.a -framework AppKit some_arg";
    let base_dir = PathBuf::from("/build_dir/build");
    let instructions = deps_parser::parse_deps(deps_content, base_dir.to_str().unwrap()).unwrap();
    let expected = vec![
        "cargo:rustc-link-lib=sqlite3".to_string(),
        format!("cargo:rustc-link-search=native={}", base_dir.display()),
        "cargo:rustc-link-lib=static=mbgl-core".to_string(),
        "cargo:rustc-link-lib=framework=AppKit".to_string(),
        "cargo:rustc-link-arg=some_arg".to_string(),
    ];
    assert_eq!(instructions, expected);
}

#[test]
fn parse_deps_drops_unknown_tokens_without_args() {
    let deps_content = "-lsqlite3 libmbgl-core.a -framework AppKit some_arg";
    let instructions = parse_deps(deps_content, "/build_dir/build", false).unwrap();
    let expected = [
        "cargo:rustc-link-lib=sqlite3",
        "cargo:rustc-link-search=native=/build_dir/build",
        "cargo:rustc-link-lib=static=mbgl-core",
        "cargo:rustc-link-lib=framework=AppKit",
    ];
    assert_eq!(instructions, expected);
}

#[test]
fn parse_deps_reports_lone_framework_flag() {
    let r = parse_deps("-lz -framework", "/build", true);
    assert!(r.is_err());
    let r = deps_parser::parse_deps("-framework", "/build");
    assert!(r.is_err());
}

const LONG_REPORT: &str = "-ffunction-sections -fdata-sections -fPIC -m64   libmbgl-core.a  libmbgl-vendor-parsedate.a  libmbgl-vendor-csscolorparser.a  vendor/glslang/glslang/libglslang.a  vendor/glslang/SPIRV/libSPIRV.a  vendor/glslang/glslang/libMachineIndependent.a  vendor/glslang/glslang/OSDependent/Unix/libOSDependent.a  vendor/glslang/glslang/libGenericCodeGen.a  vendor/glslang/glslang/libglslang-default-resource-limits.a  /usr/lib/x86_64-linux-gnu/libcurl.so  /usr/lib/x86_64-linux-gnu/libjpeg.so  -luv  -lpthread  -lrt  /usr/lib/x86_64-linux-gnu/libX11.so  /usr/lib/x86_64-linux-gnu/libXext.so  -lwebp  /usr/lib/x86_64-linux-gnu/libicui18n.so  /usr/lib/x86_64-linux-gnu/libicuuc.so  -ldl  /usr/lib/x86_64-linux-gnu/libpng.so  /usr/lib/x86_64-linux-gnu/libz.so  libmbgl-vendor-nunicode.a  libmbgl-vendor-sqlite.a  -lgcc  -lgcc_s  -lc  -lgcc  -lgcc_s  -lstdc++  -lm  -lgcc_s  -lgcc  -lc  -lgcc_s  -lgcc";

#[test]
fn long_report_sample() {
    let instructions = parse_deps(LONG_REPORT, "/build_dir/build", true).unwrap();
    let expected = [
        "cargo:rustc-link-arg=-ffunction-sections",
        "cargo:rustc-link-arg=-fdata-sections",
        "cargo:rustc-link-arg=-fPIC",
        "cargo:rustc-link-arg=-m64",
        "cargo:rustc-link-search=native=/build_dir/build",
        "cargo:rustc-link-lib=static=mbgl-core",
        "cargo:rustc-link-lib=static=mbgl-vendor-parsedate",
        "cargo:rustc-link-lib=static=mbgl-vendor-csscolorparser",
        "cargo:rustc-link-search=native=/build_dir/build/vendor/glslang/glslang",
        "cargo:rustc-link-lib=static=glslang",
        "cargo:rustc-link-search=native=/build_dir/build/vendor/glslang/SPIRV",
        "cargo:rustc-link-lib=static=SPIRV",
        "cargo:rustc-link-lib=static=MachineIndependent",
        "cargo:rustc-link-search=native=/build_dir/build/vendor/glslang/glslang/OSDependent/Unix",
        "cargo:rustc-link-lib=static=OSDependent",
        "cargo:rustc-link-lib=static=GenericCodeGen",
        "cargo:rustc-link-lib=static=glslang-default-resource-limits",
        "cargo:rustc-link-arg=/usr/lib/x86_64-linux-gnu/libcurl.so",
        "cargo:rustc-link-arg=/usr/lib/x86_64-linux-gnu/libjpeg.so",
        "cargo:rustc-link-lib=uv",
        "cargo:rustc-link-lib=pthread",
        "cargo:rustc-link-lib=rt",
        "cargo:rustc-link-arg=/usr/lib/x86_64-linux-gnu/libX11.so",
        "cargo:rustc-link-arg=/usr/lib/x86_64-linux-gnu/libXext.so",
        "cargo:rustc-link-lib=webp",
        "cargo:rustc-link-arg=/usr/lib/x86_64-linux-gnu/libicui18n.so",
        "cargo:rustc-link-arg=/usr/lib/x86_64-linux-gnu/libicuuc.so",
        "cargo:rustc-link-lib=dl",
        "cargo:rustc-link-arg=/usr/lib/x86_64-linux-gnu/libpng.so",
        "cargo:rustc-link-arg=/usr/lib/x86_64-linux-gnu/libz.so",
        "cargo:rustc-link-lib=static=mbgl-vendor-nunicode",
        "cargo:rustc-link-lib=static=mbgl-vendor-sqlite",
        "cargo:rustc-link-lib=gcc",
        "cargo:rustc-link-lib=gcc_s",
        "cargo:rustc-link-lib=c",
        "cargo:rustc-link-lib=gcc",
        "cargo:rustc-link-lib=gcc_s",
        "cargo:rustc-link-lib=stdc++",
        "cargo:rustc-link-lib=m",
        "cargo:rustc-link-lib=gcc_s",
        "cargo:rustc-link-lib=gcc",
        "cargo:rustc-link-lib=c",
        "cargo:rustc-link-lib=gcc_s",
        "cargo:rustc-link-lib=gcc",
    ];
    assert_eq!(instructions, expected);
}

#[test]
fn long_report_one_search_path_per_directory() {
    let instructions = parse_deps(LONG_REPORT, "/build_dir/build", false).unwrap();
    let searches: Vec<&String> = instructions
        .iter()
        .filter(|l| l.starts_with("cargo:rustc-link-search=native="))
        .collect();
    assert_eq!(searches.len(), 4);
    assert_eq!(instructions.len(), 4 + 11 + 17);
}
