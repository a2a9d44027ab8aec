use gearbuild::{
    DemangleOpts, DetectOpts, FlagValue, FlagValues, FormatArgs, Input, ObjFmt, OptName, OptVal,
    Print, SymbolInfo,
};

#[test]
fn flag_values() {
    let mut out = Vec::new();
    FlagValue { flag: "-O".into(), value: OptVal::Int(2) }.fmt_args(&mut out);
    FlagValue { flag: "-flto".into(), value: OptVal::Bool(true) }.fmt_args(&mut out);
    FlagValue { flag: "-g".into(), value: OptVal::Bool(false) }.fmt_args(&mut out);
    FlagValue { flag: "-std=".into(), value: OptVal::Str("c11".into()) }.fmt_args(&mut out);
    FlagValue { flag: "-x".into(), value: OptVal::Off }.fmt_args(&mut out);
    FlagValues {
        flag: "-D".into(),
        sep: "=".into(),
        values: vec![OptVal::Int(-7), OptVal::Bool(true), OptVal::Str("x".into()), OptVal::Bool(false)],
    }
    .fmt_args(&mut out);
    assert_eq!(out, vec!["-O2", "-flto", "-std=c11", "-D=-7", "-D", "-D=x"]);
    assert_eq!(OptVal::default(), OptVal::Off);
}

#[test]
fn option_names_use_dashes() {
    assert_eq!(OptName("no_builtin_macros".into()).to_text(), "no-builtin-macros");
    assert_eq!(OptName("".into()).to_text(), "");
}

#[test]
fn compiler_candidates() {
    let none = DetectOpts::default();
    assert_eq!(none.candidates(), vec!["gcc", "clang"]);
    let target = DetectOpts { compiler: "".into(), target: "arm-none-eabi".into() };
    assert_eq!(target.candidates(), vec!["arm-none-eabi-gcc", "arm-none-eabi-clang", "clang"]);
    let both = DetectOpts { compiler: "gcc".into(), target: "avr".into() };
    assert_eq!(both.candidates(), vec!["avr-gcc", "gcc"]);
    let mut opts = DetectOpts { compiler: "gcc".into(), target: "".into() };
    assert_eq!(opts.candidates(), vec!["gcc", "gcc"]);
    opts.extend(DetectOpts { compiler: "".into(), target: "riscv".into() });
    assert_eq!(opts.compiler, "gcc");
    assert_eq!(opts.target, "riscv");
}

#[test]
fn command_line_words() {
    assert_eq!(Input::parse("CC=clang"), Input::Pair("CC".into(), "clang".into()));
    assert_eq!(Input::parse("a=b=c").to_pair(), Some(("a".to_string(), "b=c".to_string())));
    assert_eq!(Input::parse("all").to_name(), Some("all".to_string()));
    assert_eq!(Input::parse("all").to_pair(), None);
    assert_eq!(Print::from_word("dot"), Print::Graph);
    assert_eq!(Print::from_word("plain"), Print::Goals);
}

#[test]
fn symbols() {
    let mut s = SymbolInfo::new_js0("_Z1fv".into(), Some("cpp".into()), Some(true));
    assert_eq!(s.symbol(), "_Z1fv");
    assert_eq!(s.language(), &Some("cpp".to_string()));
    assert_eq!(s.mangled(), &Some(true));
    s.set_symbol("f()".into());
    s.set_mangled(Some(false));
    s.set_language(None);
    assert_eq!(s.symbol(), "f()");
    assert_eq!(s.mangled(), &Some(false));
    assert_eq!(s.language(), &None);
    let t = SymbolInfo::new_js1("main".into(), None, Some("c".into()));
    assert_eq!(t.language, Some("c".to_string()));
    let d = DemangleOpts::default();
    assert!(d.return_type && d.parameters);
}

#[test]
fn object_formats() {
    assert_eq!(ObjFmt::ELF.magic(), vec![0x7f, b'E', b'L', b'F']);
    assert_eq!(ObjFmt::COFF.extensions(), vec!["", "o", "obj"]);
    assert!(ObjFmt::Wasm.extensions().is_empty());
    assert!(ObjFmt::COFF.magic().is_empty());
}
