//! The command lines of compile and link rules.

use vstd::prelude::*;
use crate::options::views;
use crate::products::{refusal_of, FileKind};
use crate::text::{chars_of, push_all, string_of};
use crate::toolchain::{CInputKind, COutputKind, CompilerKind};

verus! {

/// The executable that a command runs.
#[derive(Debug, Clone, Copy, PartialEq, Eq, Structural)]
pub enum Tool {
    /// The C compiler driver.
    Cc,
    /// The D compiler.
    Dc,
    /// The archiver.
    Ar,
}

/// The `-x` language of a C-family source.
pub open spec fn lang_name(k: CInputKind) -> Seq<char> {
    match k {
        CInputKind::C => "c"@,
        CInputKind::Asm => "assembler-with-cpp"@,
        _ => "c++"@,
    }
}

/// The flag that selects what the driver stops at.
pub open spec fn mode_flag(o: COutputKind) -> Seq<char> {
    match o {
        COutputKind::Cpp => "-E"@,
        COutputKind::Asm | COutputKind::Ir => "-S"@,
        _ => "-c"@,
    }
}

/// The LDC output suffix.
pub open spec fn ldc_output(o: COutputKind) -> Seq<char> {
    match o {
        COutputKind::Asm => "s"@,
        COutputKind::Ir => "ll"@,
        COutputKind::Bc => "bc"@,
        _ => "o"@,
    }
}

/// The arguments of a compile command after the options.
pub open spec fn compile_tail(
    input: CInputKind,
    output: COutputKind,
    compiler: CompilerKind,
    target: Seq<char>,
    dep: Seq<char>,
    dst: Seq<char>,
    src: Seq<char>,
) -> Seq<Seq<char>> {
    if input == CInputKind::D {
        if compiler == CompilerKind::Gcc {
            seq![mode_flag(output), "-MMD"@, "-MF"@, dep, "-o"@, dst, src]
        } else {
            seq![
                "--verror-style=gnu"@,
                "--mtriple="@ + target,
                "--output-"@ + ldc_output(output),
                "--deps="@ + dep,
                "--op"@,
                "--of="@ + dst,
                src,
            ]
        }
    } else {
        seq!["-x"@ + lang_name(input)] + (if compiler == CompilerKind::Llvm {
            seq!["--target="@ + target] + (if output == COutputKind::Ir || output == COutputKind::Bc {
                seq!["--emit-llvm"@]
            } else {
                Seq::empty()
            })
        } else {
            Seq::empty()
        }) + seq![mode_flag(output), "-MMD"@, "-MF"@, dep, "-o"@, dst, src]
    }
}

fn push_text(out: &mut Vec<String>, s: &str)
    ensures
        views(final(out)@) == views(old(out)@).push(s@),
{
    let t = s.to_owned();
    let ghost o0 = out@;
    out.push(t);
    proof {
        assert(views(out@) =~= views(o0).push(s@));
    }
}

fn push_joined(out: &mut Vec<String>, a: &str, b: &str)
    ensures
        views(final(out)@) == views(old(out)@).push(a@ + b@),
{
    let mut cs = chars_of(a);
    let bs = chars_of(b);
    push_all(&mut cs, &bs);
    let t = string_of(&cs);
    let ghost o0 = out@;
    out.push(t);
    proof {
        assert(views(out@) =~= views(o0).push(a@ + b@));
    }
}

fn lang_str(k: CInputKind) -> (r: &'static str)
    ensures
        r@ == lang_name(k),
{
    match k {
        CInputKind::C => "c",
        CInputKind::Asm => "assembler-with-cpp",
        _ => "c++",
    }
}

fn mode_str(o: COutputKind) -> (r: &'static str)
    ensures
        r@ == mode_flag(o),
{
    match o {
        COutputKind::Cpp => "-E",
        COutputKind::Asm | COutputKind::Ir => "-S",
        _ => "-c",
    }
}

fn ldc_str(o: COutputKind) -> (r: &'static str)
    ensures
        r@ == ldc_output(o),
{
    match o {
        COutputKind::Asm => "s",
        COutputKind::Ir => "ll",
        COutputKind::Bc => "bc",
        _ => "o",
    }
}

/// The command that compiles `src` to `dst`, writing its dependencies to
/// `dep`: the options (base and language options, already formatted), then
/// the language, target and mode flags, the dependency file, the output and
/// the source. D sources go to the D compiler, the others to the driver.
pub fn compile_command(
    input: CInputKind,
    output: COutputKind,
    compiler: CompilerKind,
    target: &str,
    opts: Vec<String>,
    dep: &str,
    dst: &str,
    src: &str,
) -> (r: (Tool, Vec<String>))
    requires
        refusal_of(input, output, compiler, true) is None,
    ensures
        r.0 == (if input == CInputKind::D { Tool::Dc } else { Tool::Cc }),
        views(r.1@) == views(opts@) + compile_tail(input, output, compiler, target@, dep@, dst@, src@),
{
    let mut args = opts;
    let ghost start = views(args@);
    if input == CInputKind::D {
        if compiler == CompilerKind::Gcc {
            push_text(&mut args, mode_str(output));
            push_text(&mut args, "-MMD");
            push_text(&mut args, "-MF");
            push_text(&mut args, dep);
            push_text(&mut args, "-o");
            push_text(&mut args, dst);
            push_text(&mut args, src);
        } else {
            push_text(&mut args, "--verror-style=gnu");
            push_joined(&mut args, "--mtriple=", target);
            push_joined(&mut args, "--output-", ldc_str(output));
            push_joined(&mut args, "--deps=", dep);
            push_text(&mut args, "--op");
            push_joined(&mut args, "--of=", dst);
            push_text(&mut args, src);
        }
        proof {
            assert(views(args@) =~= start + compile_tail(input, output, compiler, target@, dep@, dst@, src@));
        }
        (Tool::Dc, args)
    } else {
        push_joined(&mut args, "-x", lang_str(input));
        if compiler == CompilerKind::Llvm {
            push_joined(&mut args, "--target=", target);
            if output == COutputKind::Ir || output == COutputKind::Bc {
                push_text(&mut args, "--emit-llvm");
            }
        }
        push_text(&mut args, mode_str(output));
        push_text(&mut args, "-MMD");
        push_text(&mut args, "-MF");
        push_text(&mut args, dep);
        push_text(&mut args, "-o");
        push_text(&mut args, dst);
        push_text(&mut args, src);
        proof {
            assert(views(args@) =~= start + compile_tail(input, output, compiler, target@, dep@, dst@, src@));
        }
        (Tool::Cc, args)
    }
}

/// The arguments of a link command between the options and the objects.
pub open spec fn link_middle(kind: FileKind, out: Seq<char>, script: Option<Seq<char>>, map: Option<Seq<char>>) -> Seq<Seq<char>> {
    seq!["-o"@, out] + (if kind is Dynamic {
        seq!["-shared"@]
    } else {
        Seq::empty()
    }) + (match script {
        Some(s) => seq!["-T"@, s],
        None => Seq::empty(),
    }) + (match map {
        Some(m) => seq!["-Wl,-Map,"@ + m],
        None => Seq::empty(),
    })
}

/// The command that links `objs` into `out`: an archive is made by the
/// archiver (`cr OUT OBJS…`); anything else by the driver, with the link
/// options, `-shared` for a shared library, the linker script and the map
/// file when there are ones, and the objects last.
pub fn link_command(
    kind: FileKind,
    opts: Vec<String>,
    out: &str,
    script: Option<&str>,
    map: Option<&str>,
    objs: &Vec<String>,
) -> (r: (Tool, Vec<String>))
    ensures
        r.0 == (if kind is Static { Tool::Ar } else { Tool::Cc }),
        views(r.1@) == (if kind is Static {
            seq!["cr"@, out@]
        } else {
            views(opts@) + link_middle(
                kind,
                out@,
                match script {
                    Some(s) => Some(s@),
                    None => None,
                },
                match map {
                    Some(m) => Some(m@),
                    None => None,
                },
            )
        }) + views(objs@),
{
    let is_static = match kind {
        FileKind::Static { .. } => true,
        _ => false,
    };
    let mut args: Vec<String>;
    let tool;
    if is_static {
        args = Vec::new();
        push_text(&mut args, "cr");
        push_text(&mut args, out);
        tool = Tool::Ar;
    } else {
        args = opts;
        push_text(&mut args, "-o");
        push_text(&mut args, out);
        match kind {
            FileKind::Dynamic { .. } => push_text(&mut args, "-shared"),
            _ => {},
        }
        match script {
            Some(s) => {
                push_text(&mut args, "-T");
                push_text(&mut args, s);
            },
            None => {},
        }
        match map {
            Some(m) => push_joined(&mut args, "-Wl,-Map,", m),
            None => {},
        }
        tool = Tool::Cc;
    }
    let ghost head = views(args@);
    let mut k: usize = 0;
    while k < objs.len()
        invariant
            k <= objs@.len(),
            views(args@) == head + views(objs@.subrange(0, k as int)),
        decreases objs@.len() - k,
    {
        push_text(&mut args, objs[k].as_str());
        k = k + 1;
        proof {
            assert(views(objs@.subrange(0, k as int)) =~= views(objs@.subrange(0, k as int - 1)).push(objs@[k - 1]@));
            assert(views(args@) =~= head + views(objs@.subrange(0, k as int)));
        }
    }
    proof {
        assert(objs@.subrange(0, k as int) =~= objs@);
        assert(views(args@) =~= (if kind is Static {
            seq!["cr"@, out@]
        } else {
            views(opts@) + link_middle(
                kind,
                out@,
                match script {
                    Some(s) => Some(s@),
                    None => None,
                },
                match map {
                    Some(m) => Some(m@),
                    None => None,
                },
            )
        }) + views(objs@));
    }
    (tool, args)
}

} // verus!
