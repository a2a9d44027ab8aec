//! Names of build products: linked files per platform, and the places of
//! compile outputs under the toolchain's hash directory.

use vstd::prelude::*;
use crate::text::{chars_of, dec, push_all, push_decimal, string_of};
use crate::toolchain::{
    ext_of, input_kind_of, CInputKind, COutputKind, CompilerKind, DepKind, PlatformKind,
    ToolchainError,
};

verus! {

/// A version `MAJOR.MINOR.PATCH`.
#[derive(Debug, Clone, Copy, PartialEq, Eq, Hash, Structural)]
pub struct Version {
    pub major: u64,
    pub minor: u64,
    pub patch: u64,
}

pub open spec fn version_text(v: Version) -> Seq<char> {
    dec(v.major as nat) + seq!['.'] + dec(v.minor as nat) + seq!['.'] + dec(v.patch as nat)
}

impl Version {
    pub fn new(major: u64, minor: u64, patch: u64) -> (r: Version)
        ensures
            r == (Version { major, minor, patch }),
    {
        Version { major, minor, patch }
    }

    /// `MAJOR.MINOR.PATCH`.
    pub fn to_text(&self) -> (r: String)
        ensures
            r@ == version_text(*self),
    {
        let mut out: Vec<char> = Vec::new();
        push_decimal(&mut out, self.major);
        out.push('.');
        push_decimal(&mut out, self.minor);
        out.push('.');
        push_decimal(&mut out, self.patch);
        proof {
            assert(out@ =~= version_text(*self));
        }
        string_of(&out)
    }
}

/// What a link produces.
#[derive(Debug, Clone, Copy, PartialEq, Eq, Hash, Structural)]
pub enum FileKind {
    Executable,
    /// A shared library; `library` asks for the `lib` prefix.
    Dynamic { library: bool, version: Option<Version> },
    /// An archive; `library` asks for the `lib` prefix.
    Static { library: bool },
    Object,
}

pub open spec fn lib_prefix(library: bool) -> Seq<char> {
    if library { "lib"@ } else { Seq::empty() }
}

/// Prefix, suffix and version of the file name of a product.
pub open spec fn name_parts(kind: FileKind, platform: PlatformKind) -> (Seq<char>, Seq<char>, Option<Version>) {
    match platform {
        PlatformKind::BareMetal | PlatformKind::Unix => match kind {
            FileKind::Executable => (Seq::empty(), Seq::empty(), None),
            FileKind::Dynamic { library, version } => (lib_prefix(library), ".so"@, version),
            FileKind::Static { library } => (lib_prefix(library), ".a"@, None),
            FileKind::Object => (Seq::empty(), ".o"@, None),
        },
        PlatformKind::Darwin => match kind {
            FileKind::Executable => (Seq::empty(), Seq::empty(), None),
            FileKind::Dynamic { library, version } => (lib_prefix(library), ".dylib"@, version),
            FileKind::Static { library } => (lib_prefix(library), ".a"@, None),
            FileKind::Object => (Seq::empty(), ".o"@, None),
        },
        PlatformKind::Windows => match kind {
            FileKind::Executable => (Seq::empty(), ".exe"@, None),
            FileKind::Dynamic { .. } => (Seq::empty(), ".dll"@, None),
            FileKind::Static { library } => (lib_prefix(library), ".lib"@, None),
            FileKind::Object => (Seq::empty(), ".obj"@, None),
        },
    }
}

/// The file name of product `name` of this kind on this platform.
pub open spec fn product_name(kind: FileKind, platform: PlatformKind, name: Seq<char>) -> Seq<char> {
    let (prefix, suffix, version) = name_parts(kind, platform);
    match version {
        Some(v) => prefix + name + suffix + seq!['.'] + version_text(v),
        None => prefix + name + suffix,
    }
}

fn lib(library: bool) -> (p: &'static str)
    ensures
        p@ == lib_prefix(library),
{
    proof {
        reveal_strlit("");
        reveal_strlit("lib");
    }
    if library {
        "lib"
    } else {
        ""
    }
}

fn parts(kind: FileKind, platform: PlatformKind) -> (r: (&'static str, &'static str, Option<Version>))
    ensures
        (r.0@, r.1@, r.2) == name_parts(kind, platform),
{
    proof {
        reveal_strlit("");
    }
    match platform {
        PlatformKind::BareMetal | PlatformKind::Unix => match kind {
            FileKind::Executable => ("", "", None),
            FileKind::Dynamic { library, version } => (lib(library), ".so", version),
            FileKind::Static { library } => (lib(library), ".a", None),
            FileKind::Object => ("", ".o", None),
        },
        PlatformKind::Darwin => match kind {
            FileKind::Executable => ("", "", None),
            FileKind::Dynamic { library, version } => (lib(library), ".dylib", version),
            FileKind::Static { library } => (lib(library), ".a", None),
            FileKind::Object => ("", ".o", None),
        },
        PlatformKind::Windows => match kind {
            FileKind::Executable => ("", ".exe", None),
            FileKind::Dynamic { .. } => ("", ".dll", None),
            FileKind::Static { library } => (lib(library), ".lib", None),
            FileKind::Object => ("", ".obj", None),
        },
    }
}

impl FileKind {
    /// The file name of product `name` of this kind on `platform`, e.g.
    /// `libfoo.so.1.2.3` for a versioned shared library on Unix.
    pub fn file_name(&self, platform: PlatformKind, name: &str) -> (r: String)
        ensures
            r@ == product_name(*self, platform, name@),
    {
        let (prefix, suffix, version) = parts(*self, platform);
        let mut out = chars_of(prefix);
        let n = chars_of(name);
        push_all(&mut out, &n);
        let s = chars_of(suffix);
        push_all(&mut out, &s);
        match version {
            Some(v) => {
                out.push('.');
                let vt = v.to_text();
                let vc = chars_of(vt.as_str());
                push_all(&mut out, &vc);
            },
            None => {},
        }
        string_of(&out)
    }
}

/// `dir/name`.
pub open spec fn join(dir: Seq<char>, name: Seq<char>) -> Seq<char> {
    dir + seq!['/'] + name
}

/// Where the output of compiling `src` goes: `out_dir/hash/src.ext`.
pub open spec fn object_path(out_dir: Seq<char>, hash: Seq<char>, src: Seq<char>, ext: Seq<char>) -> Seq<char> {
    join(join(out_dir, hash), src + seq!['.'] + ext)
}

/// What a compile rule reads and writes, and how.
#[derive(Debug)]
pub struct CompilePlan {
    pub input: CInputKind,
    pub output: COutputKind,
    /// The compiled file.
    pub object: String,
    /// The dependency file the compiler writes beside it.
    pub dep_file: String,
    pub dep_kind: DepKind,
}

/// Why a compile request is refused, if it is.
pub open spec fn refusal_of(input: CInputKind, output: COutputKind, compiler: CompilerKind, has_dc: bool) -> Option<ToolchainError> {
    if input == CInputKind::D && !has_dc {
        Some(ToolchainError::NoDCompiler)
    } else if input == CInputKind::D && output == COutputKind::Cpp {
        Some(ToolchainError::DPreprocess)
    } else if compiler == CompilerKind::Gcc && (output == COutputKind::Ir || output == COutputKind::Bc) {
        Some(ToolchainError::GccIntermediate)
    } else {
        None
    }
}

/// Plans the compilation of source `src` into `output`, under the directory
/// of toolchain hash `hash` in `out_dir`. The language is `input`, or else
/// the one the extension names.
pub fn plan_compile(
    src: &str,
    input: Option<CInputKind>,
    output: COutputKind,
    compiler: CompilerKind,
    has_dc: bool,
    out_dir: &str,
    hash: &str,
) -> (r: Result<CompilePlan, ToolchainError>)
    ensures
        ({
            let lang = match input {
                Some(k) => Some(k),
                None => input_kind_of(ext_of(src@)),
            };
            match lang {
                None => r == Err::<CompilePlan, ToolchainError>(ToolchainError::UnknownExtension),
                Some(k) => match refusal_of(k, output, compiler, has_dc) {
                    Some(e) => r == Err::<CompilePlan, ToolchainError>(e),
                    None => r is Ok && (r->Ok_0).input == k && (r->Ok_0).output == output
                        && (r->Ok_0).object@ == object_path(out_dir@, hash@, src@, output.spec_extension(src@))
                        && (r->Ok_0).dep_file@ == (r->Ok_0).object@ + ".dep"@
                        && (r->Ok_0).dep_kind == (if k == CInputKind::D && compiler == CompilerKind::Llvm {
                            DepKind::D
                        } else {
                            DepKind::Make
                        }),
                },
            }
        }),
{
    let k = match input {
        Some(k) => k,
        None => match CInputKind::from_name(src) {
            Ok(k) => k,
            Err(e) => { return Err(e); },
        },
    };
    if k == CInputKind::D && !has_dc {
        return Err(ToolchainError::NoDCompiler);
    }
    if k == CInputKind::D && output == COutputKind::Cpp {
        return Err(ToolchainError::DPreprocess);
    }
    if compiler == CompilerKind::Gcc && (output == COutputKind::Ir || output == COutputKind::Bc) {
        return Err(ToolchainError::GccIntermediate);
    }
    let mut obj = chars_of(out_dir);
    obj.push('/');
    let h = chars_of(hash);
    push_all(&mut obj, &h);
    obj.push('/');
    let s = chars_of(src);
    push_all(&mut obj, &s);
    obj.push('.');
    let ext = output.make_extension(src);
    let e = chars_of(ext.as_str());
    push_all(&mut obj, &e);
    let mut dep = obj.clone();
    let tail = chars_of(".dep");
    push_all(&mut dep, &tail);
    proof {
        assert(obj@ =~= object_path(out_dir@, hash@, src@, output.spec_extension(src@)));
    }
    let dep_kind = if k == CInputKind::D && compiler == CompilerKind::Llvm { DepKind::D } else { DepKind::Make };
    Ok(CompilePlan { input: k, output, object: string_of(&obj), dep_file: string_of(&dep), dep_kind })
}

/// Two toolchain hashes that differ, neither holding a `/`, put the output of
/// every source in different places: changing the toolchain moves all
/// objects to a fresh directory.
pub proof fn lemma_hash_namespaces(out_dir: Seq<char>, h1: Seq<char>, h2: Seq<char>, src: Seq<char>, ext: Seq<char>)
    requires
        h1 != h2,
        forall|i: int| 0 <= i < h1.len() ==> h1[i] != '/',
        forall|i: int| 0 <= i < h2.len() ==> h2[i] != '/',
    ensures
        object_path(out_dir, h1, src, ext) != object_path(out_dir, h2, src, ext),
{
    let path_a = object_path(out_dir, h1, src, ext);
    let path_b = object_path(out_dir, h2, src, ext);
    let off: int = out_dir.len() as int + 1;
    let rest = src + seq!['.'] + ext;
    assert(path_a =~= out_dir + seq!['/'] + h1 + seq!['/'] + rest);
    assert(path_b =~= out_dir + seq!['/'] + h2 + seq!['/'] + rest);
    if h1.len() < h2.len() {
        assert(path_a[off + h1.len() as int] == '/');
        assert(path_b[off + h1.len() as int] == h2[h1.len() as int]);
    } else if h2.len() < h1.len() {
        assert(path_b[off + h2.len() as int] == '/');
        assert(path_a[off + h2.len() as int] == h1[h2.len() as int]);
    } else {
        let i = choose|i: int| 0 <= i < h1.len() && h1[i] != h2[i];
        assert(!(h1 =~= h2));
        assert(path_a[off + i] == h1[i]);
        assert(path_b[off + i] == h2[i]);
    }
}

/// The last component of a path: what follows its last `/`.
pub open spec fn base_name(path: Seq<char>) -> Seq<char> {
    let d = crate::caret::last_in(path, '/', 0, path.len() as int);
    if d < path.len() {
        path.subrange(d + 1, path.len() as int)
    } else {
        path
    }
}

/// Where a strip rule writes: the stripped file, and the file of debug
/// information when a directory for it is given.
#[derive(Debug)]
pub struct StripPlan {
    pub out: String,
    pub info: Option<String>,
}

/// Plans the stripping of object `obj`: the stripped file goes to
/// `out_dir/NAME`, the debug information to `info_dir/NAME`, where `NAME` is
/// the object's file name. Refused when the path ends in `/`.
pub fn plan_strip(obj: &str, out_dir: &str, info_dir: Option<&str>) -> (r: Option<StripPlan>)
    ensures
        base_name(obj@).len() == 0 ==> r is None,
        base_name(obj@).len() > 0 ==> r is Some && (r->0).out@ == join(out_dir@, base_name(obj@))
            && match info_dir {
                Some(d) => (r->0).info matches Some(i) && i@ == join(d@, base_name(obj@)),
                None => (r->0).info is None,
            },
{
    let cs = chars_of(obj);
    let n = cs.len();
    let d = crate::caret::last_index(&cs, '/', 0, n);
    let start = if d < n { d + 1 } else { 0 };
    let name = crate::deps::copy_range(&cs, start, n);
    proof {
        if d >= n {
            assert(cs@.subrange(0, n as int) =~= cs@);
        }
    }
    if name.len() == 0 {
        return None;
    }
    let mut out = chars_of(out_dir);
    out.push('/');
    push_all(&mut out, &name);
    let info = match info_dir {
        Some(dir) => {
            let mut i = chars_of(dir);
            i.push('/');
            push_all(&mut i, &name);
            Some(string_of(&i))
        },
        None => None,
    };
    Some(StripPlan { out: string_of(&out), info })
}

/// Where the linker-script rule for script `name` writes: `out_dir/NAME.ld`.
pub fn script_path(out_dir: &str, name: &str) -> (r: String)
    ensures
        r@ == join(out_dir@, name@ + ".ld"@),
{
    let mut out = chars_of(out_dir);
    out.push('/');
    let n = chars_of(name);
    push_all(&mut out, &n);
    let ext = chars_of(".ld");
    push_all(&mut out, &ext);
    proof {
        assert(out@ =~= join(out_dir@, name@ + ".ld"@));
    }
    string_of(&out)
}

} // verus!
