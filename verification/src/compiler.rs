//! The settings of a compilation: its input, back end and output.
use vstd::prelude::*;
use crate::text::push_str;

verus! {

/// The settings of the C back end: the compiler to call and its flags.
pub struct CSettings {
    pub compiler: Option<String>,
    pub flags: Vec<String>,
}

impl CSettings {
    /// Settings with this compiler and these flags.
    pub fn new(compiler: Option<String>, flags: Vec<String>) -> (r: Self)
        ensures
            r.compiler == compiler,
            r.flags == flags,
    {
        CSettings { compiler, flags }
    }
}

/// The back end a program is compiled with.
pub enum Backend {
    C(CSettings),
    Custom { name: String, settings: Vec<String> },
}

/// What a compilation is given: the source text, the library directory,
/// the back end, whether to show the intermediate form, the output path and
/// the working directory.
pub struct CompilerConfig {
    pub input: String,
    pub libdir: String,
    pub backend: Backend,
    pub debug: bool,
    pub output: String,
    pub workdir: String,
}

impl CompilerConfig {
    /// A configuration whose library directory is `lib` inside `exe_dir`, the
    /// directory that holds the running compiler.
    pub fn new(
        input: String,
        backend: Backend,
        debug: bool,
        output: String,
        workdir: String,
        exe_dir: &str,
    ) -> (r: Self)
        ensures
            r.input == input,
            r.libdir@ == exe_dir@ + "/lib"@,
            r.backend == backend,
            r.debug == debug,
            r.output == output,
            r.workdir == workdir,
    {
        let mut libdir = String::new();
        push_str(&mut libdir, exe_dir);
        push_str(&mut libdir, "/lib");
        CompilerConfig { input, libdir, backend, debug, output, workdir }
    }
}

} // verus!
