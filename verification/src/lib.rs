pub mod analysis;
pub mod ast;
pub mod backend;
pub mod builtins;
pub mod compiler;
pub mod convert;
pub mod enviroment;
pub mod err;
pub mod ir;
pub mod laws;
pub mod lexer;
pub mod oplaws;
pub mod mangle;
pub mod parser;
pub mod scope;
pub mod source;
pub mod text;
pub mod token;
pub mod typeeq;
pub mod types;
pub mod typestr;

use vstd::prelude::*;

verus! {

/// The back ends of the WASM pipeline.
pub enum Backend {
    WASM,
    C,
    Custom(String),
}

/// The settings of the C back end of the WASM pipeline.
pub struct CSettings {
    pub compiler: Option<String>,
    pub flags: Vec<String>,
}

impl CSettings {
    /// Settings with this compiler and these flags.
    pub fn new(compiler: Option<String>, flags: Vec<String>) -> (r: Self)
        ensures
            r.compiler == compiler,
            r.flags == flags,
    {
        CSettings { compiler, flags }
    }
}

/// The settings that go with each back end of the WASM pipeline.
pub enum BackendSettings {
    WASM,
    C(CSettings),
    Custom(Vec<String>),
}

/// What a run of the WASM pipeline is given.
pub struct CompilerConfig {
    pub input: String,
    pub backend: Backend,
    pub settings: BackendSettings,
    pub debug: bool,
    pub repl: bool,
}

impl CompilerConfig {
    /// A configuration of these parts.
    pub fn new(input: String, backend: Backend, settings: BackendSettings, debug: bool, repl: bool) -> (r: Self)
        ensures
            r.input == input,
            r.backend == backend,
            r.settings == settings,
            r.debug == debug,
            r.repl == repl,
    {
        CompilerConfig { input, backend, settings, debug, repl }
    }
}

} // verus!
