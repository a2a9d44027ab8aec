use gearbuild::{
    compile_command, link_command, plan_compile, plan_strip, script_path, Tool, CInputKind, COutputKind, CompilerKind, DCompilerKind, DepKind, FileKind,
    LdProvideExpr, LdRegion, LdScript, LdRegionsRead, LdStatementsRead, PlatformKind, ToolchainError, Version,
};

#[test]
fn versioned_library_names() {
    let kind = FileKind::Dynamic { library: true, version: Some(Version::new(1, 2, 3)) };
    assert_eq!(kind.file_name(PlatformKind::Unix, "foo"), "libfoo.so.1.2.3");
    assert_eq!(kind.file_name(PlatformKind::Darwin, "foo"), "libfoo.dylib.1.2.3");
    assert_eq!(kind.file_name(PlatformKind::Windows, "foo"), "foo.dll");
}

#[test]
fn product_names_per_platform() {
    assert_eq!(FileKind::Executable.file_name(PlatformKind::Windows, "app"), "app.exe");
    assert_eq!(FileKind::Executable.file_name(PlatformKind::Unix, "app"), "app");
    assert_eq!(FileKind::Object.file_name(PlatformKind::BareMetal, "app"), "app.o");
    assert_eq!(FileKind::Object.file_name(PlatformKind::Windows, "app"), "app.obj");
    assert_eq!(FileKind::Static { library: true }.file_name(PlatformKind::Unix, "m"), "libm.a");
    assert_eq!(FileKind::Static { library: true }.file_name(PlatformKind::Windows, "m"), "libm.lib");
    assert_eq!(FileKind::Static { library: false }.file_name(PlatformKind::Darwin, "m"), "m.a");
    assert_eq!(FileKind::Dynamic { library: false, version: None }.file_name(PlatformKind::Unix, "m"), "m.so");
    assert_eq!(Version::new(10, 0, 255).to_text(), "10.0.255");
}

#[test]
fn source_kinds_by_extension() {
    assert_eq!(CInputKind::from_name("src/main.c"), Ok(CInputKind::C));
    assert_eq!(CInputKind::from_name("a.b/x.cpp"), Ok(CInputKind::Cxx));
    assert_eq!(CInputKind::from_name("x.c++"), Ok(CInputKind::Cxx));
    assert_eq!(CInputKind::from_name("x.d"), Ok(CInputKind::D));
    assert_eq!(CInputKind::from_name("start.S"), Ok(CInputKind::Asm));
    assert_eq!(CInputKind::from_name("notes.txt"), Err(ToolchainError::UnknownExtension));
    assert_eq!(CInputKind::from_name("c"), Ok(CInputKind::C));
    assert_eq!(CInputKind::Cxx.as_str(), "c++");
}

#[test]
fn output_kinds() {
    assert_eq!(COutputKind::from_word("llvm-ir"), Some(COutputKind::Ir));
    assert_eq!(COutputKind::from_word("obj"), Some(COutputKind::Obj));
    assert_eq!(COutputKind::from_word("exe"), None);
    assert_eq!(COutputKind::Cpp.make_extension("dir/x.cxx"), "cxx");
    assert_eq!(COutputKind::Obj.make_extension("dir/x.cxx"), "o");
    assert_eq!(COutputKind::default(), COutputKind::Obj);
}

#[test]
fn compiler_families() {
    assert_eq!(CompilerKind::from_name("/usr/bin/arm-none-eabi-gcc"), Ok(CompilerKind::Gcc));
    assert_eq!(CompilerKind::from_name("g++"), Ok(CompilerKind::Gcc));
    assert_eq!(CompilerKind::from_name("clang++"), Ok(CompilerKind::Llvm));
    assert_eq!(CompilerKind::from_name("tcc"), Err(ToolchainError::UnsupportedCompiler));
    assert_eq!(DCompilerKind::from_compiler(CompilerKind::Llvm), DCompilerKind::Ldc);
    assert_eq!(DepKind::default(), DepKind::Make);
}

#[test]
fn platforms_of_targets() {
    assert_eq!(PlatformKind::from_target("arm-none-eabi"), Ok(PlatformKind::BareMetal));
    assert_eq!(PlatformKind::from_target("wasm32"), Err(ToolchainError::UnknownPlatform));
    assert_eq!(PlatformKind::from_target("thumbv7m-none-eabi-x"), Ok(PlatformKind::BareMetal));
    assert_eq!(PlatformKind::from_target("x86_64-pc-windows-msvc"), Ok(PlatformKind::Windows));
    assert_eq!(PlatformKind::from_target("x86_64-apple-darwin"), Ok(PlatformKind::Darwin));
    assert_eq!(PlatformKind::from_target("x86_64-unknown-linux-gnu"), Ok(PlatformKind::Unix));
    assert_eq!(PlatformKind::from_target("x86_64-unknown-freebsd-12"), Ok(PlatformKind::Unix));
}

#[test]
fn compile_plans() {
    let p = plan_compile("src/a.c", None, COutputKind::Obj, CompilerKind::Gcc, false, "out", "H1").unwrap();
    assert_eq!(p.object, "out/H1/src/a.c.o");
    assert_eq!(p.dep_file, "out/H1/src/a.c.o.dep");
    assert_eq!(p.input, CInputKind::C);
    assert_eq!(p.dep_kind, DepKind::Make);
    let q = plan_compile("src/a.c", None, COutputKind::Obj, CompilerKind::Gcc, false, "out", "H2").unwrap();
    assert_ne!(p.object, q.object);
    let d = plan_compile("m.d", None, COutputKind::Obj, CompilerKind::Llvm, true, "out", "H").unwrap();
    assert_eq!(d.dep_kind, DepKind::D);
    assert_eq!(
        plan_compile("m.d", None, COutputKind::Obj, CompilerKind::Llvm, false, "out", "H").unwrap_err(),
        ToolchainError::NoDCompiler
    );
    assert_eq!(
        plan_compile("m.d", None, COutputKind::Cpp, CompilerKind::Llvm, true, "out", "H").unwrap_err(),
        ToolchainError::DPreprocess
    );
    assert_eq!(
        plan_compile("a.c", None, COutputKind::Bc, CompilerKind::Gcc, false, "out", "H").unwrap_err(),
        ToolchainError::GccIntermediate
    );
    assert_eq!(
        plan_compile("a.txt", None, COutputKind::Obj, CompilerKind::Gcc, false, "out", "H").unwrap_err(),
        ToolchainError::UnknownExtension
    );
    let forced = plan_compile("a.txt", Some(CInputKind::Asm), COutputKind::Cpp, CompilerKind::Gcc, false, "o", "H").unwrap();
    assert_eq!(forced.object, "o/H/a.txt.txt");
}

#[test]
fn linker_script_text() {
    let script = LdScript {
        entry: Some("reset".into()),
        memory: vec![
            ("FLASH".into(), LdRegion { address: 0x0800_0000, size: 0x10000, read: true, write: false, execute: true }),
            ("RAM".into(), LdRegion { address: 0x2000_0000, size: 0x5000, read: true, write: true, execute: false }),
        ],
        externs: vec!["vectors".into()],
        provides: vec![
            ("stack".into(), LdProvideExpr::End("RAM".into())),
            (
                "heap".into(),
                LdProvideExpr::Sum(vec![
                    LdProvideExpr::Start("RAM".into()),
                    LdProvideExpr::Int(-16),
                    LdProvideExpr::Neg(Box::new(LdProvideExpr::Size("FLASH".into()))),
                ]),
            ),
            ("zero".into(), LdProvideExpr::Sum(vec![])),
        ],
        sections: vec![".text : { *(.text) }\n".into()],
        includes: vec!["common.ld".into()],
    };
    assert_eq!(
        script.to_text(),
        "MEMORY {\n    FLASH (rx) : ORIGIN = 0x8000000, LENGTH = 0x10000\n\n    RAM (rw) : ORIGIN = 0x20000000, LENGTH = 0x5000\n\n}\nENTRY(reset);\nEXTERN(vectors);\nPROVIDE(stack = ORIGIN(RAM) + LENGTH(RAM));\nPROVIDE(heap = ORIGIN(RAM) + -16 + -(LENGTH(FLASH)));\nPROVIDE(zero = 0);\nINCLUDE common.ld\nSECTIONS {\n.text : { *(.text) }\n}\n"
    );
    assert_eq!(LdScript::default().to_text(), "");
}

#[test]
fn compile_commands() {
    let opts = vec!["-O2".to_string()];
    let (tool, args) = compile_command(
        CInputKind::C, COutputKind::Obj, CompilerKind::Llvm, "arm-none-eabi", opts.clone(), "o/a.c.o.dep", "o/a.c.o", "a.c",
    );
    assert_eq!(tool, Tool::Cc);
    assert_eq!(
        args,
        vec!["-O2", "-xc", "--target=arm-none-eabi", "-c", "-MMD", "-MF", "o/a.c.o.dep", "-o", "o/a.c.o", "a.c"]
    );
    let (_, ir) = compile_command(
        CInputKind::Cxx, COutputKind::Ir, CompilerKind::Llvm, "t", vec![], "d", "x.ll", "x.cpp",
    );
    assert_eq!(ir, vec!["-xc++", "--target=t", "--emit-llvm", "-S", "-MMD", "-MF", "d", "-o", "x.ll", "x.cpp"]);
    let (_, pre) = compile_command(CInputKind::Asm, COutputKind::Cpp, CompilerKind::Gcc, "t", vec![], "d", "s.S", "s.S");
    assert_eq!(pre, vec!["-xassembler-with-cpp", "-E", "-MMD", "-MF", "d", "-o", "s.S", "s.S"]);
    let (tool, gdc) = compile_command(CInputKind::D, COutputKind::Asm, CompilerKind::Gcc, "t", vec![], "d", "m.s", "m.d");
    assert_eq!(tool, Tool::Dc);
    assert_eq!(gdc, vec!["-S", "-MMD", "-MF", "d", "-o", "m.s", "m.d"]);
    let (_, ldc) = compile_command(CInputKind::D, COutputKind::Bc, CompilerKind::Llvm, "x86_64-linux-gnu", vec![], "m.dep", "m.bc", "m.d");
    assert_eq!(
        ldc,
        vec!["--verror-style=gnu", "--mtriple=x86_64-linux-gnu", "--output-bc", "--deps=m.dep", "--op", "--of=m.bc", "m.d"]
    );
}

#[test]
fn link_commands() {
    let objs = vec!["a.o".to_string(), "b.o".to_string()];
    let (tool, ar) = link_command(FileKind::Static { library: true }, vec!["-g".into()], "libx.a", None, None, &objs);
    assert_eq!(tool, Tool::Ar);
    assert_eq!(ar, vec!["cr", "libx.a", "a.o", "b.o"]);
    let (tool, so) = link_command(
        FileKind::Dynamic { library: true, version: None },
        vec!["-g".into()],
        "libx.so",
        Some("x.ld"),
        Some("libx.so.map"),
        &objs,
    );
    assert_eq!(tool, Tool::Cc);
    assert_eq!(so, vec!["-g", "-o", "libx.so", "-shared", "-T", "x.ld", "-Wl,-Map,libx.so.map", "a.o", "b.o"]);
    let (_, exe) = link_command(FileKind::Executable, vec![], "app", None, None, &objs);
    assert_eq!(exe, vec!["-o", "app", "a.o", "b.o"]);
}

#[test]
fn linker_script_reads_back() {

    let script = LdScript {
        entry: Some("reset".into()),
        memory: vec![("RAM".into(), LdRegion { address: 0x2000_0000, size: 0x5000, read: true, write: true, execute: false })],
        externs: vec!["vectors".into(), "handlers".into()],
        provides: vec![("top".into(), LdProvideExpr::End("RAM".into()))],
        sections: vec!["EXTERN(hidden);\n".into()],
        includes: vec!["common.ld".into(), "board.ld".into()],
    };
    let back = LdStatementsRead::read(&script.to_text());
    assert_eq!(back.entry, Some("reset".to_string()));
    assert_eq!(back.externs, vec!["vectors", "handlers"]);
    assert_eq!(back.includes, vec!["common.ld", "board.ld"]);
    assert!(back.sections);
}

#[test]
fn toolchain_namespaces() {
    let a = gearbuild::toolchain_namespace(&vec!["gcc".to_string(), "-O2".to_string()]);
    let b = gearbuild::toolchain_namespace(&vec!["gcc".to_string(), "-O3".to_string()]);
    let c = gearbuild::toolchain_namespace(&vec!["gcc-O".to_string(), "2".to_string()]);
    assert_eq!(a, gearbuild::toolchain_namespace(&vec!["gcc".to_string(), "-O2".to_string()]));
    assert_ne!(a, b);
    assert_ne!(a, c);
    assert_eq!(a.len(), 43);
    assert!(!a.contains('/') && !a.contains('+') && !a.contains('='));
    let pa = plan_compile("a.c", None, COutputKind::Obj, CompilerKind::Gcc, false, "out", &a).unwrap();
    let pb = plan_compile("a.c", None, COutputKind::Obj, CompilerKind::Gcc, false, "out", &b).unwrap();
    assert_ne!(pa.object, pb.object);
    assert!(pa.object.starts_with(&format!("out/{}/", a)));
}

#[test]
fn linker_script_regions_read_back() {
    let script = LdScript {
        entry: None,
        memory: vec![
            ("FLASH".into(), LdRegion { address: 0x0800_0000, size: 0x10000, read: true, write: false, execute: true }),
            ("RAM".into(), LdRegion { address: 0, size: u64::MAX, read: false, write: true, execute: false }),
        ],
        externs: vec![],
        provides: vec![],
        sections: vec![],
        includes: vec![],
    };
    let back = LdRegionsRead::read(&script.to_text());
    assert_eq!(back.regions, script.memory);
    assert!(!back.sections);
}

#[test]
fn strip_and_script_paths() {
    let p = plan_strip("build/obj/app.elf", "out", Some("dbg")).unwrap();
    assert_eq!(p.out, "out/app.elf");
    assert_eq!(p.info, Some("dbg/app.elf".to_string()));
    let q = plan_strip("app", "out", None).unwrap();
    assert_eq!(q.out, "out/app");
    assert_eq!(q.info, None);
    assert!(plan_strip("dir/", "out", None).is_none());
    assert_eq!(script_path("out", "board"), "out/board.ld");
    let script = LdScript { entry: Some("main".into()), ..Default::default() };
    assert_eq!(script.rule_text(&vec!["a.ld".to_string()]), "ENTRY(main);\nINCLUDE a.ld\n");
}

#[test]
fn platforms_of_os_names() {
    assert_eq!(PlatformKind::from_os("osx"), Some(PlatformKind::Darwin));
    assert_eq!(PlatformKind::from_os("netbsd"), Some(PlatformKind::Unix));
    assert_eq!(PlatformKind::from_os("windows"), Some(PlatformKind::Windows));
    assert_eq!(PlatformKind::from_os("plan9"), None);
}
