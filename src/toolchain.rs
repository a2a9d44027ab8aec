//! Toolchain vocabulary: compiler families, source and output kinds, target
//! platforms and the file names of linked products.

use vstd::prelude::*;
use crate::caret::last_in;
use crate::text::{chars_of, dec, occurs_at, push_all, push_decimal, string_of};

verus! {

/// Why the toolchain refused a request.
#[derive(Debug, Clone, Copy, PartialEq, Eq, Structural)]
pub enum ToolchainError {
    /// The source file's extension names no known language.
    UnknownExtension,
    /// The compiler's name ends in no known family.
    UnsupportedCompiler,
    /// The target names no known platform.
    UnknownPlatform,
    /// A D source, but no D compiler.
    NoDCompiler,
    /// D sources cannot be preprocessed.
    DPreprocess,
    /// GCC does not emit LLVM IR or bitcode.
    GccIntermediate,
}

/// The compiler family.
#[derive(Debug, Clone, Copy, PartialEq, Eq, Hash, Structural)]
pub enum CompilerKind {
    Gcc,
    Llvm,
}

/// The D compiler that goes with a compiler family.
#[derive(Debug, Clone, Copy, PartialEq, Eq, Hash, Structural)]
pub enum DCompilerKind {
    Gdc,
    Ldc,
}

/// The format of a dependency file.
#[derive(Debug, Clone, Copy, PartialEq, Eq, Hash, Structural)]
pub enum DepKind {
    Make,
    D,
}

impl Default for DepKind {
    fn default() -> (r: Self)
        ensures
            r == DepKind::Make,
    {
        DepKind::Make
    }
}

/// The language of a source file.
#[derive(Debug, Clone, Copy, PartialEq, Eq, Hash, Structural)]
pub enum CInputKind {
    C,
    Cxx,
    D,
    Asm,
}

/// What a compile run produces.
#[derive(Debug, Clone, Copy, PartialEq, Eq, Hash, Structural)]
pub enum COutputKind {
    /// Preprocessed source.
    Cpp,
    /// Assembler.
    Asm,
    /// Object file.
    Obj,
    /// LLVM intermediate representation.
    Ir,
    /// LLVM bitcode.
    Bc,
}

impl Default for COutputKind {
    fn default() -> (r: Self)
        ensures
            r == COutputKind::Obj,
    {
        COutputKind::Obj
    }
}

/// The extension of a file name: what follows its last dot, or the whole
/// name when it has none.
pub open spec fn ext_of(name: Seq<char>) -> Seq<char> {
    let d = last_in(name, '.', 0, name.len() as int);
    if d < name.len() {
        name.subrange(d + 1, name.len() as int)
    } else {
        name
    }
}

/// `s` ends with `p`.
pub open spec fn ends_with(s: Seq<char>, p: Seq<char>) -> bool {
    s.len() >= p.len() && occurs_at(s, s.len() - p.len(), p)
}

/// `p` occurs somewhere in `s`.
pub open spec fn contains_text(s: Seq<char>, p: Seq<char>) -> bool {
    exists|i: int| 0 <= i <= s.len() - p.len() && occurs_at(s, i, p)
}

fn is_word(w: &Vec<char>, p: &str) -> (r: bool)
    ensures
        r == (w@ == p@),
{
    let pv = chars_of(p);
    if w.len() != pv.len() {
        return false;
    }
    let r = crate::text::matches_at(w, 0, &pv);
    proof {
        assert(w@ =~= w@.subrange(0, pv@.len() as int));
    }
    r
}

fn ends_with_str(s: &Vec<char>, p: &str) -> (r: bool)
    ensures
        r == ends_with(s@, p@),
{
    let pv = chars_of(p);
    if s.len() < pv.len() {
        return false;
    }
    crate::text::matches_at(s, s.len() - pv.len(), &pv)
}

/// Whether `p` occurs in `s`.
pub fn contains_str(s: &Vec<char>, p: &str) -> (r: bool)
    ensures
        r == contains_text(s@, p@),
{
    let pv = chars_of(p);
    if s.len() < pv.len() {
        return false;
    }
    let last = s.len() - pv.len();
    let mut i: usize = 0;
    loop
        invariant
            i <= last,
            last == s@.len() - pv@.len(),
            pv@ == p@,
            forall|j: int| 0 <= j < i ==> !occurs_at(s@, j, p@),
        decreases last - i,
    {
        if crate::text::matches_at(s, i, &pv) {
            return true;
        }
        if i == last {
            return false;
        }
        i = i + 1;
    }
}

/// The extension of a file name.
pub fn extension(name: &Vec<char>) -> (r: Vec<char>)
    ensures
        r@ == ext_of(name@),
{
    let n = name.len();
    let mut j = n;
    while j > 0 && name[j - 1] != '.'
        invariant
            j <= n,
            n == name@.len(),
            forall|k: int| j <= k < n ==> name@[k] != '.',
        decreases j,
    {
        j = j - 1;
    }
    proof {
        lemma_last_dot(name@, j as int);
    }
    let mut out: Vec<char> = Vec::new();
    let mut k: usize = if j == 0 { 0 } else { j };
    let start = k;
    while k < n
        invariant
            start <= k <= n,
            n == name@.len(),
            out@ == name@.subrange(start as int, k as int),
        decreases n - k,
    {
        out.push(name[k]);
        k = k + 1;
        proof {
            assert(out@ =~= name@.subrange(start as int, k as int));
        }
    }
    proof {
        if j == 0 {
            assert(name@.subrange(0, n as int) =~= name@);
        }
    }
    out
}

proof fn lemma_last_dot(s: Seq<char>, j: int)
    requires
        0 <= j <= s.len(),
        forall|k: int| j <= k < s.len() ==> s[k] != '.',
        j > 0 ==> s[j - 1] == '.',
    ensures
        j > 0 ==> last_in(s, '.', 0, s.len() as int) == j - 1,
        j == 0 ==> last_in(s, '.', 0, s.len() as int) == s.len(),
    decreases s.len() - j,
{
    lemma_last_in_from(s, j, s.len() as int);
}

proof fn lemma_last_in_from(s: Seq<char>, j: int, hi: int)
    requires
        0 <= j <= hi <= s.len(),
        forall|k: int| j <= k < hi ==> s[k] != '.',
        j > 0 ==> s[j - 1] == '.',
    ensures
        j > 0 ==> last_in(s, '.', 0, hi) == j - 1,
        j == 0 ==> last_in(s, '.', 0, hi) == hi,
    decreases hi - j,
{
    if hi > j {
        lemma_last_in_from(s, j, hi - 1);
        if j == 0 {
            assert(last_in(s, '.', 0, hi - 1) == hi - 1);
        }
    } else if j > 0 {
        assert(s[hi - 1] == '.');
    }
}

pub open spec fn input_kind_of(ext: Seq<char>) -> Option<CInputKind> {
    if ext == "c"@ {
        Some(CInputKind::C)
    } else if ext == "cpp"@ || ext == "cxx"@ || ext == "c++"@ {
        Some(CInputKind::Cxx)
    } else if ext == "d"@ {
        Some(CInputKind::D)
    } else if ext == "S"@ || ext == "s"@ || ext == "asm"@ {
        Some(CInputKind::Asm)
    } else {
        None
    }
}

impl CInputKind {
    /// The language that an extension names.
    pub fn from_ext(ext: &Vec<char>) -> (r: Option<CInputKind>)
        ensures
            r == input_kind_of(ext@),
    {
        if is_word(ext, "c") {
            Some(CInputKind::C)
        } else if is_word(ext, "cpp") || is_word(ext, "cxx") || is_word(ext, "c++") {
            Some(CInputKind::Cxx)
        } else if is_word(ext, "d") {
            Some(CInputKind::D)
        } else if is_word(ext, "S") || is_word(ext, "s") || is_word(ext, "asm") {
            Some(CInputKind::Asm)
        } else {
            None
        }
    }

    /// The language of a source file, by its extension.
    pub fn from_name(name: &str) -> (r: Result<CInputKind, ToolchainError>)
        ensures
            r == (match input_kind_of(ext_of(name@)) {
                Some(k) => Ok::<CInputKind, ToolchainError>(k),
                None => Err(ToolchainError::UnknownExtension),
            }),
    {
        let cs = chars_of(name);
        let ext = extension(&cs);
        match CInputKind::from_ext(&ext) {
            Some(k) => Ok(k),
            None => Err(ToolchainError::UnknownExtension),
        }
    }

    /// The name of the language as the compiler's `-x` option spells it.
    pub fn as_str(&self) -> (r: &'static str)
        ensures
            r@ == (match self {
                CInputKind::C => "c"@,
                CInputKind::Cxx => "c++"@,
                CInputKind::D => "d"@,
                CInputKind::Asm => "S"@,
            }),
    {
        match self {
            CInputKind::C => "c",
            CInputKind::Cxx => "c++",
            CInputKind::D => "d",
            CInputKind::Asm => "S",
        }
    }
}

pub open spec fn output_kind_name(k: COutputKind) -> Seq<char> {
    match k {
        COutputKind::Cpp => "cpp"@,
        COutputKind::Asm => "s"@,
        COutputKind::Obj => "o"@,
        COutputKind::Ir => "ir"@,
        COutputKind::Bc => "bc"@,
    }
}

pub open spec fn output_kind_of(w: Seq<char>) -> Option<COutputKind> {
    if w == "c"@ || w == "cpp"@ || w == "cxx"@ || w == "c++"@ {
        Some(COutputKind::Cpp)
    } else if w == "S"@ || w == "s"@ || w == "asm"@ {
        Some(COutputKind::Asm)
    } else if w == "o"@ || w == "obj"@ {
        Some(COutputKind::Obj)
    } else if w == "ir"@ || w == "ll"@ || w == "llvm"@ || w == "llvm-ir"@ {
        Some(COutputKind::Ir)
    } else if w == "bc"@ || w == "llvm-bc"@ {
        Some(COutputKind::Bc)
    } else {
        None
    }
}

impl COutputKind {
    /// The output kind that a word names.
    pub fn from_word(w: &str) -> (r: Option<COutputKind>)
        ensures
            r == output_kind_of(w@),
    {
        let w = chars_of(w);
        if is_word(&w, "c") || is_word(&w, "cpp") || is_word(&w, "cxx") || is_word(&w, "c++") {
            Some(COutputKind::Cpp)
        } else if is_word(&w, "S") || is_word(&w, "s") || is_word(&w, "asm") {
            Some(COutputKind::Asm)
        } else if is_word(&w, "o") || is_word(&w, "obj") {
            Some(COutputKind::Obj)
        } else if is_word(&w, "ir") || is_word(&w, "ll") || is_word(&w, "llvm") || is_word(&w, "llvm-ir") {
            Some(COutputKind::Ir)
        } else if is_word(&w, "bc") || is_word(&w, "llvm-bc") {
            Some(COutputKind::Bc)
        } else {
            None
        }
    }

    pub fn as_str(&self) -> (r: &'static str)
        ensures
            r@ == output_kind_name(*self),
    {
        match self {
            COutputKind::Cpp => "cpp",
            COutputKind::Asm => "s",
            COutputKind::Obj => "o",
            COutputKind::Ir => "ir",
            COutputKind::Bc => "bc",
        }
    }

    pub open spec fn spec_extension(self, name: Seq<char>) -> Seq<char> {
        if self == COutputKind::Cpp {
            ext_of(name)
        } else {
            output_kind_name(self)
        }
    }

    /// The extension of the output for source `name`: preprocessed output
    /// keeps the source's extension.
    pub fn make_extension(&self, name: &str) -> (r: String)
        ensures
            r@ == self.spec_extension(name@),
    {
        match self {
            COutputKind::Cpp => {
                let cs = chars_of(name);
                let e = extension(&cs);
                string_of(&e)
            },
            _ => {
                let s = chars_of(self.as_str());
                string_of(&s)
            },
        }
    }
}

pub open spec fn compiler_kind_of(name: Seq<char>) -> Option<CompilerKind> {
    if ends_with(name, "clang"@) || ends_with(name, "clang++"@) {
        Some(CompilerKind::Llvm)
    } else if ends_with(name, "gcc"@) || ends_with(name, "g++"@) {
        Some(CompilerKind::Gcc)
    } else {
        None
    }
}

impl CompilerKind {
    /// The family of a compiler, by the end of its executable's name; the
    /// clang names are tested first, as `clang++` also ends in `g++`.
    pub fn from_name(name: &str) -> (r: Result<CompilerKind, ToolchainError>)
        ensures
            r == (match compiler_kind_of(name@) {
                Some(k) => Ok::<CompilerKind, ToolchainError>(k),
                None => Err(ToolchainError::UnsupportedCompiler),
            }),
    {
        let cs = chars_of(name);
        if ends_with_str(&cs, "clang") || ends_with_str(&cs, "clang++") {
            Ok(CompilerKind::Llvm)
        } else if ends_with_str(&cs, "gcc") || ends_with_str(&cs, "g++") {
            Ok(CompilerKind::Gcc)
        } else {
            Err(ToolchainError::UnsupportedCompiler)
        }
    }
}

impl DCompilerKind {
    /// GDC goes with GCC, LDC with LLVM.
    pub fn from_compiler(kind: CompilerKind) -> (r: DCompilerKind)
        ensures
            r == (match kind {
                CompilerKind::Gcc => DCompilerKind::Gdc,
                CompilerKind::Llvm => DCompilerKind::Ldc,
            }),
    {
        match kind {
            CompilerKind::Gcc => DCompilerKind::Gdc,
            CompilerKind::Llvm => DCompilerKind::Ldc,
        }
    }
}

/// The platform a target runs on.
#[derive(Debug, Clone, Copy, PartialEq, Eq, Hash, Structural)]
pub enum PlatformKind {
    /// Bare metal: no operating system.
    BareMetal,
    Unix,
    Darwin,
    Windows,
}

pub open spec fn platform_of(target: Seq<char>) -> Option<PlatformKind> {
    if contains_text(target, "-none-"@) {
        Some(PlatformKind::BareMetal)
    } else if contains_text(target, "-windows-"@) {
        Some(PlatformKind::Windows)
    } else if contains_text(target, "-apple-"@) {
        Some(PlatformKind::Darwin)
    } else if contains_text(target, "bsd-"@) || contains_text(target, "-linux-"@) || contains_text(
        target,
        "-hurd-"@,
    ) {
        Some(PlatformKind::Unix)
    } else {
        None
    }
}

pub open spec fn platform_of_os(os: Seq<char>) -> Option<PlatformKind> {
    if os == "macos"@ || os == "osx"@ {
        Some(PlatformKind::Darwin)
    } else if os == "windows"@ {
        Some(PlatformKind::Windows)
    } else if os == "freebsd"@ || os == "openbsd"@ || os == "netbsd"@ || os == "solaris"@ || os == "linux"@
        || os == "hurd"@ {
        Some(PlatformKind::Unix)
    } else {
        None
    }
}

impl PlatformKind {
    /// The platform that an operating-system name stands for.
    pub fn from_os(os: &str) -> (r: Option<PlatformKind>)
        ensures
            r == platform_of_os(os@),
    {
        let w = chars_of(os);
        if is_word(&w, "macos") || is_word(&w, "osx") {
            Some(PlatformKind::Darwin)
        } else if is_word(&w, "windows") {
            Some(PlatformKind::Windows)
        } else if is_word(&w, "freebsd") || is_word(&w, "openbsd") || is_word(&w, "netbsd") || is_word(&w, "solaris")
            || is_word(&w, "linux") || is_word(&w, "hurd") {
            Some(PlatformKind::Unix)
        } else {
            None
        }
    }

    /// The platform of a target triple.
    pub fn from_target(target: &str) -> (r: Result<PlatformKind, ToolchainError>)
        ensures
            r == (match platform_of(target@) {
                Some(p) => Ok::<PlatformKind, ToolchainError>(p),
                None => Err(ToolchainError::UnknownPlatform),
            }),
    {
        let t = chars_of(target);
        if contains_str(&t, "-none-") {
            Ok(PlatformKind::BareMetal)
        } else if contains_str(&t, "-windows-") {
            Ok(PlatformKind::Windows)
        } else if contains_str(&t, "-apple-") {
            Ok(PlatformKind::Darwin)
        } else if contains_str(&t, "bsd-") || contains_str(&t, "-linux-") || contains_str(&t, "-hurd-") {
            Ok(PlatformKind::Unix)
        } else {
            Err(ToolchainError::UnknownPlatform)
        }
    }
}

/// Object file format.
#[derive(Debug, Clone, Copy, PartialEq, Eq, Hash, Structural)]
pub enum ObjFmt {
    Unknown,
    /// IBM OS/360.
    GOFF,
    /// Common Object File Format.
    COFF,
    /// Executable and Linkable Format.
    ELF,
    /// Mach object.
    MachO,
    Wasm,
    /// IBM AIX.
    XCOFF,
}

impl Default for ObjFmt {
    fn default() -> (r: Self)
        ensures
            r == ObjFmt::Unknown,
    {
        ObjFmt::Unknown
    }
}

pub open spec fn format_extensions(f: ObjFmt) -> Seq<Seq<char>> {
    match f {
        ObjFmt::COFF => seq![""@, "o"@, "obj"@],
        ObjFmt::ELF => seq![""@, "axf"@, "bin"@, "elf"@, "o"@, "prx"@, "puff"@, "ko"@, "mod"@, "so"@],
        ObjFmt::MachO => seq![""@, "o"@, "dylib"@, "bundle"@],
        _ => Seq::empty(),
    }
}

pub open spec fn format_magic(f: ObjFmt) -> Seq<u8> {
    match f {
        ObjFmt::ELF => seq![0x7fu8, 0x45u8, 0x4cu8, 0x46u8],
        ObjFmt::MachO => seq![0xfeu8, 0xedu8, 0xfau8],
        ObjFmt::Wasm => seq![0x00u8, 0x61u8, 0x73u8, 0x6du8],
        _ => Seq::empty(),
    }
}

impl ObjFmt {
    /// The extensions that files of this format carry; the empty one first.
    pub fn extensions(&self) -> (r: Vec<&'static str>)
        ensures
            r@.map_values(|e: &'static str| e@) == format_extensions(*self),
    {
        let v: Vec<&'static str> = match self {
            ObjFmt::COFF => vec!["", "o", "obj"],
            ObjFmt::ELF => vec!["", "axf", "bin", "elf", "o", "prx", "puff", "ko", "mod", "so"],
            ObjFmt::MachO => vec!["", "o", "dylib", "bundle"],
            _ => Vec::new(),
        };
        proof {
            assert(v@.map_values(|e: &'static str| e@) =~= format_extensions(*self));
        }
        v
    }

    /// The bytes that files of this format start with, where there are such.
    pub fn magic(&self) -> (r: Vec<u8>)
        ensures
            r@ == format_magic(*self),
    {
        let v: Vec<u8> = match self {
            ObjFmt::ELF => vec![0x7f, 0x45, 0x4c, 0x46],
            ObjFmt::MachO => vec![0xfe, 0xed, 0xfa],
            ObjFmt::Wasm => vec![0x00, 0x61, 0x73, 0x6d],
            _ => Vec::new(),
        };
        proof {
            assert(v@ =~= format_magic(*self));
        }
        v
    }
}

} // verus!
