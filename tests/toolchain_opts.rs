use gearbuild::{
    build_outcome, companion_tools, d_compiler_name, gcc_tool_candidates, parse_clang_version,
    strip_newlines, tool_diagnostics, toolchain_namespace, BaseOpts, BuildError, CCompileOpts,
    CInputKind, CompilerKind, DCompileOpts, DCompilerKind, DumpOpts, LinkOpts, OptVal, Severity,
    StripOpts, ToolchainOpts,
};

fn m(entries: &[(&str, OptVal)]) -> Vec<(String, OptVal)> {
    entries.iter().map(|(k, v)| (k.to_string(), v.clone())).collect()
}

fn s(v: &[&str]) -> Vec<String> {
    v.iter().map(|x| x.to_string()).collect()
}

fn base() -> BaseOpts {
    BaseOpts {
        stdlib: None,
        sysroot: Some("/sys".into()),
        pic: Some(true),
        opt: Some(OptVal::Int(2)),
        dbg: m(&[("dwarf", OptVal::Int(4))]),
        mach: m(&[("32", OptVal::Bool(true)), ("cpu", OptVal::Str("cortex-m4".into())), ("thumb", OptVal::Bool(false))]),
        feat: m(&[("lto", OptVal::Bool(true)), ("no_builtin", OptVal::Bool(false))]),
        flags: s(&["-pipe"]),
    }
}

#[test]
fn base_options_for_the_c_driver() {
    let mut out = Vec::new();
    base().fmt_args(&mut out);
    assert_eq!(
        out,
        s(&["-O2", "--sysroot=/sys", "-fPIC", "-fpic", "-gdwarf=4", "-m32", "-mcpu=cortex-m4", "-mno-thumb", "-flto", "-fno-no-builtin", "-pipe"])
    );
}

#[test]
fn base_options_for_d_compilers() {
    let mut gdc = Vec::new();
    base().fmt_d_args(DCompilerKind::Gdc, &mut gdc);
    assert_eq!(gdc, s(&["-O2", "-fPIC", "-fpic", "-gdwarf=4", "-m32", "-mcpu=cortex-m4", "-mno-thumb", "-flto", "-fno-no-builtin"]));
    let mut ldc = Vec::new();
    base().fmt_d_args(DCompilerKind::Ldc, &mut ldc);
    assert_eq!(ldc, s(&["-O2", "--flto=thin", "--gc", "--m32", "--mcpu=cortex-m4"]));
}

#[test]
fn c_compile_options() {
    let o = CCompileOpts {
        std: Some("c11".into()),
        warn: m(&[("all", OptVal::Bool(true)), ("error", OptVal::Bool(false))]),
        defs: vec![("NDEBUG".into(), "1".into())],
        dirs: s(&["include"]),
        incs: s(&["quote=x"]),
        no: s(&["stdinc"]),
        flags: s(&["-v"]),
    };
    let mut out = Vec::new();
    o.fmt_args(&mut out);
    assert_eq!(out, s(&["-std=c11", "-Wall", "-Wno-error", "-DNDEBUG=1", "-Iinclude", "-iquote=x", "-nostdinc", "-v"]));
}

#[test]
fn d_compile_options() {
    let o = DCompileOpts {
        release: Some(false),
        betterc: Some(true),
        check: m(&[("bounds", OptVal::Str("off".into())), ("printf", OptVal::Bool(true)), ("action", OptVal::Str("halt".into()))]),
        debug: m(&[("trace", OptVal::Bool(true))]),
        version: m(&[("Foo", OptVal::Bool(true))]),
        preview: vec![("dip1000".into(), "on".into())],
        feat: m(&[("switch_errors", OptVal::Bool(false))]),
        dirs: s(&["src"]),
        no: s(&["gc"]),
        flags: s(&["-vv"]),
    };
    let mut gdc = Vec::new();
    o.fmt_args(DCompilerKind::Gdc, &mut gdc);
    assert_eq!(
        gdc,
        s(&["-fassert", "-fno-druntime", "-fbounds-check=off", "-fdebugtrace", "-fversionFoo", "-ftransition=dip1000=on", "-fno-switch-errors", "-Isrc", "-nogc"])
    );
    let mut ldc = Vec::new();
    o.fmt_args(DCompilerKind::Ldc, &mut ldc);
    assert_eq!(
        ldc,
        s(&["--betterC", "--boundscheck=off", "--check-printf-calls", "--checkaction=halt", "--d-debugtrace", "--d-version=Foo", "--preview=dip1000=on", "--disable-switch-errors", "-I=src", "-J=src", "-nogc", "-vv"])
    );
}

#[test]
fn link_dump_strip_options() {
    let l = LinkOpts {
        dirs: s(&["lib"]),
        libs: s(&["m"]),
        whole_libs: s(&["all"]),
        no: s(&["stdlib"]),
        pie: Some(OptVal::Bool(false)),
        shared: Some(OptVal::Bool(true)),
        shareds: s(&["libgcc"]),
        static_: Some(OptVal::Bool(true)),
        statics: vec![OptVal::Str("libstdc++".into()), OptVal::Bool(true)],
        opts: s(&["--gc-sections"]),
        flags: s(&["-v"]),
    };
    let mut out = Vec::new();
    l.fmt_args(&mut out);
    assert_eq!(
        out,
        s(&["-Llib", "-lm", "-Wl,--whole-archive", "-lall", "-Wl,--no-whole-archive", "-nostdlib", "-no-pie", "-shared", "-shared-libgcc", "-static", "-static-libstdc++", "-static-", "-Wl,--gc-sections", "-v"])
    );
    let d = DumpOpts { target: Some("elf32".into()), arch: None, disasm: vec![OptVal::Str("intel".into())], flags: vec![] };
    let mut out = Vec::new();
    d.fmt_args(&mut out);
    assert_eq!(out, s(&["-belf32", "-Mintel"]));
    let st = StripOpts {
        strip: s(&["debug"]),
        keep: s(&["file-symbols"]),
        discard: s(&["all"]),
        symbols: vec![("main".into(), Some(true)), ("tmp".into(), Some(false)), ("x".into(), None)],
        flags: vec![],
    };
    let mut out = Vec::new();
    st.fmt_args(&mut out);
    assert_eq!(out, s(&["--strip-debug", "--keep-file-symbols", "--discard-all", "--keep-symbol=main", "--strip-symbol=tmp"]));
}

#[test]
fn options_change_the_namespace() {
    let mut opts = ToolchainOpts::default();
    let props = s(&["gcc", "12.2", "x86_64-linux-gnu", "unix"]);
    let a = toolchain_namespace(&opts.namespace_parts(&props, CompilerKind::Gcc));
    opts.base.opt = Some(OptVal::Int(3));
    let b = toolchain_namespace(&opts.namespace_parts(&props, CompilerKind::Gcc));
    assert_ne!(a, b);
    assert_eq!(opts.compile_opts(CInputKind::C, CompilerKind::Gcc), s(&["-O3"]));
    assert_eq!(opts.namespace_parts(&props, CompilerKind::Gcc)[4], "#c");
}

#[test]
fn probe_answers() {
    let out = "clang version 15.0.7 (Fedora 15.0.7-2.fc37)\nTarget: x86_64-redhat-linux-gnu\nThread model: posix\n";
    assert_eq!(parse_clang_version(out), Some(("15.0.7".to_string(), "x86_64-redhat-linux-gnu".to_string())));
    assert_eq!(parse_clang_version("Apple clang version 14.0.0 (clang-1400)\nTarget:  arm64-apple-darwin22\n"), Some(("14.0.0".to_string(), "arm64-apple-darwin22".to_string())));
    assert_eq!(parse_clang_version("clang version 15\n"), None);
    assert_eq!(parse_clang_version("gcc 12\nTarget: x\n"), None);
    assert_eq!(strip_newlines("12.2.0\n"), "12.2.0");
    assert_eq!(gcc_tool_candidates("/usr/bin/gcc", "x86_64-linux-gnu", "size"), s(&["/usr/bin/size", "x86_64-linux-gnu-size", "size"]));
    assert_eq!(gcc_tool_candidates("arm-none-eabi-gcc", "arm-none-eabi", "gcc-ar"), s(&["arm-none-eabi-gcc-ar", "arm-none-eabi-gcc-ar"]));
    assert_eq!(companion_tools(CompilerKind::Llvm)[0], "llvm-ar");
    assert_eq!(companion_tools(CompilerKind::Gcc).len(), 7);
    assert_eq!(d_compiler_name(CompilerKind::Llvm), "ldc2");
}

#[test]
fn build_results_and_tool_failures() {
    assert_eq!(build_outcome(0, 0), Ok(()));
    assert_eq!(build_outcome(0, 1), Err(BuildError::RuleFailed));
    assert_eq!(build_outcome(2, 1), Err(BuildError::CannotBeBuilt));
    let ok = tool_diagnostics(true, "a.c:1:2: warning: w\n");
    assert_eq!(ok.0.len(), 1);
    assert!(!ok.is_failed());
    let bad = tool_diagnostics(false, "ld: cannot find -lfoo\n");
    assert_eq!(bad.0.len(), 1);
    assert_eq!(bad.0[0].severity, Severity::Fatal);
    assert!(bad.is_failed());
}
