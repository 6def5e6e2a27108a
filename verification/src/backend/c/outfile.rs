//! Where the C text of a program is written and how the C compiler is
//! called on it.
use vstd::prelude::*;
use crate::text::{push_char, push_str};

verus! {

/// A character of an output name as it appears in a file name: both kinds
/// of slash become `_`.
pub open spec fn flat_char(c: char) -> char {
    if c == '/' || c == '\\' {
        '_'
    } else {
        c
    }
}

/// The path of the C file written for output `output`: in `/tmp/covalent`,
/// the output with its slashes flattened, between single quotes, with `.c`.
pub open spec fn c_path(output: Seq<char>) -> Seq<char> {
    "/tmp/covalent/'"@ + output.map_values(|c: char| flat_char(c)) + "'.c"@
}

/// The path of the C file written for output `output`.
pub fn out_path(output: &str) -> (r: String)
    ensures
        r@ == c_path(output@),
{
    let mut r = String::new();
    push_str(&mut r, "/tmp/covalent/'");
    let ghost start = r@;
    let n = output.unicode_len();
    let mut i: usize = 0;
    while i < n
        invariant
            n == output@.len(),
            i <= n,
            r@ == start + output@.subrange(0, i as int).map_values(|c: char| flat_char(c)),
        decreases n - i,
    {
        let c = output.get_char(i);
        if c == '/' || c == '\\' {
            push_char(&mut r, '_');
        } else {
            push_char(&mut r, c);
        }
        assert(output@.subrange(0, i + 1).map_values(|c: char| flat_char(c)) =~= output@.subrange(0, i as int).map_values(
            |c: char| flat_char(c),
        ).push(flat_char(c)));
        i = i + 1;
    }
    assert(output@.subrange(0, n as int) =~= output@);
    push_str(&mut r, "'.c");
    r
}

/// The arguments of the C compiler for a program: no warnings for implicit
/// declarations, the library directory for headers, the output, the C file,
/// and the runtime and collector objects of the library directory.
pub open spec fn c_args(libdir: Seq<char>, output: Seq<char>, cfile: Seq<char>) -> Seq<Seq<char>> {
    seq![
        "-Wno-implicit-function-declaration"@,
        "-I"@ + libdir,
        "-o"@ + output,
        cfile,
        libdir + "/runtime.o"@,
        libdir + "/gc.o"@,
    ]
}

/// The arguments of the C compiler for the C file `cfile`.
pub fn compile_args(libdir: &str, output: &str, cfile: &str) -> (r: Vec<String>)
    ensures
        r@.map_values(|s: String| s@) == c_args(libdir@, output@, cfile@),
{
    let mut r: Vec<String> = Vec::new();
    let mut a = String::new();
    push_str(&mut a, "-Wno-implicit-function-declaration");
    r.push(a);
    let mut b = String::new();
    push_str(&mut b, "-I");
    push_str(&mut b, libdir);
    r.push(b);
    let mut c = String::new();
    push_str(&mut c, "-o");
    push_str(&mut c, output);
    r.push(c);
    let mut d = String::new();
    push_str(&mut d, cfile);
    r.push(d);
    let mut e = String::new();
    push_str(&mut e, libdir);
    push_str(&mut e, "/runtime.o");
    r.push(e);
    let mut f = String::new();
    push_str(&mut f, libdir);
    push_str(&mut f, "/gc.o");
    r.push(f);
    assert(r@.map_values(|s: String| s@) =~= c_args(libdir@, output@, cfile@));
    r
}

} // verus!
