//! Configuration of a script runtime, collected step by step before the
//! interpreter is started.

use crate::text::pairs_view;
use std::path::PathBuf;
use vstd::prelude::*;

verus! {

/// `std::path::PathBuf`: a filesystem path, carried through unchanged.
/// Nothing is claimed of what a path holds.
#[verifier::external_type_specification]
#[verifier::external_body]
pub struct ExPathBuf(PathBuf);

/// Name of the thread a runtime logs under when none is given.
pub const DEFAULT_THREAD: &'static str = "main";

/// The name under which scripts `require` the bundled JSON library.
pub const LIB_DKJSON_NAME: &'static str = "json";

/// The source of the bundled JSON library: a loader that hands on to the
/// `dkjson` module on the interpreter's path.
pub const LIB_DKJSON: &'static str = "return require(\"dkjson\")";

/// Collects what a script runtime is started with.
pub struct LuaRuntimeBuilder {
    script: Option<String>,
    modules: Vec<(String, String)>,
    main_dir: Option<PathBuf>,
    thread_name: String,
}

/// What a builder holds, as plain values.
pub struct BuilderView {
    pub script: Option<Seq<char>>,
    pub modules: Seq<(Seq<char>, Seq<char>)>,
    pub main_dir: Option<PathBuf>,
    pub thread_name: Seq<char>,
}

impl View for LuaRuntimeBuilder {
    type V = BuilderView;

    closed spec fn view(&self) -> BuilderView {
        BuilderView {
            script: match self.script {
                Some(s) => Some(s@),
                None => None,
            },
            modules: pairs_view(self.modules@),
            main_dir: self.main_dir,
            thread_name: self.thread_name@,
        }
    }
}

impl LuaRuntimeBuilder {
    /// A builder with nothing set: no script, no modules, no directory,
    /// logging under [`DEFAULT_THREAD`].
    pub fn new() -> (r: Self)
        ensures
            r@.script.is_none(),
            r@.modules.len() == 0,
            r@.main_dir.is_none(),
            r@.thread_name == DEFAULT_THREAD@,
    {
        Self {
            script: None,
            modules: Vec::new(),
            main_dir: None,
            thread_name: String::from_str(DEFAULT_THREAD),
        }
    }

    /// Sets the directory that relative paths in the script start from.
    pub fn with_main_dir(self, main_dir: PathBuf) -> (r: Self)
        ensures
            r@ == (BuilderView { main_dir: Some(main_dir), ..self@ }),
    {
        let mut builder = self;
        builder.main_dir = Some(main_dir);
        builder
    }

    /// Sets the script to run, replacing an earlier one.
    pub fn with_script(self, script: String) -> (r: Self)
        ensures
            r@ == (BuilderView { script: Some(script@), ..self@ }),
    {
        let mut builder = self;
        builder.script = Some(script);
        builder
    }

    /// Sets the name the runtime logs under.
    pub fn with_thread(self, thread_name: String) -> (r: Self)
        ensures
            r@ == (BuilderView { thread_name: thread_name@, ..self@ }),
    {
        let mut builder = self;
        builder.thread_name = thread_name;
        builder
    }

    /// Adds a module that scripts can `require` by `name`; modules keep the
    /// order in which they were added.
    pub fn add_module(self, name: &str, script: &str) -> (r: Self)
        ensures
            r@ == (BuilderView { modules: self@.modules.push((name@, script@)), ..self@ }),
    {
        let mut builder = self;
        builder.add_lib(name, script);
        builder
    }

    fn add_lib(&mut self, name: &str, script: &str)
        ensures
            final(self)@ == (BuilderView {
                modules: old(self)@.modules.push((name@, script@)),
                ..old(self)@
            }),
    {
        self.modules.push((String::from_str(name), String::from_str(script)));
        assert(pairs_view(self.modules@) =~= pairs_view(old(self).modules@).push(
            (name@, script@),
        ));
    }

    /// Adds the bundled libraries as modules, after the modules already
    /// held: the JSON library, under [`LIB_DKJSON_NAME`].
    pub fn libs(self) -> (r: Self)
        ensures
            r@ == (BuilderView {
                modules: self@.modules.push((LIB_DKJSON_NAME@, LIB_DKJSON@)),
                ..self@
            }),
    {
        let mut builder = self;
        builder.add_lib(LIB_DKJSON_NAME, LIB_DKJSON);
        builder
    }
}

/// What a runtime cannot be started without.
#[derive(Clone, Copy, Debug, PartialEq, Eq, Structural)]
pub enum BuildError {
    /// No main directory was set.
    MissingMainDir,
    /// No script was set.
    MissingScript,
}

impl BuildError {
    /// The error in words.
    pub open spec fn spec_message(self) -> Seq<char> {
        match self {
            BuildError::MissingMainDir => "Main directory is required"@,
            BuildError::MissingScript => "Script is required"@,
        }
    }

    /// Computes [`Self::spec_message`].
    pub fn message(self) -> (r: &'static str)
        ensures
            r@ == self.spec_message(),
    {
        match self {
            BuildError::MissingMainDir => "Main directory is required",
            BuildError::MissingScript => "Script is required",
        }
    }
}

/// What stands in a preload chunk before the name of the module.
pub const CHUNK_HEAD: &'static str =
    "package = package or {}\npackage.preload = package.preload or {}\npackage.preload[\"";

/// What stands in a preload chunk between the name and the source.
pub const CHUNK_BODY: &'static str = "\"] = function(...)\n";

/// What stands in a preload chunk after the source of the module.
pub const CHUNK_TAIL: &'static str = "\nend\n";

/// The chunk that makes the module `script` loadable under `name`: run
/// before the main script, it registers the source as a loader.
pub open spec fn preload_chunk(name: Seq<char>, script: Seq<char>) -> Seq<char> {
    CHUNK_HEAD@ + name + CHUNK_BODY@ + script + CHUNK_TAIL@
}

/// Computes [`preload_chunk`].
pub fn preload(name: &str, script: &str) -> (r: String)
    ensures
        r@ == preload_chunk(name@, script@),
{
    let mut chunk = String::from_str(CHUNK_HEAD);
    chunk.append(name);
    chunk.append(CHUNK_BODY);
    chunk.append(script);
    chunk.append(CHUNK_TAIL);
    chunk
}

/// Everything that is needed to start a runtime, in the order in which it
/// is used: the chunks are run first, one after the other, then the script.
#[derive(Debug)]
pub struct RuntimePlan {
    pub main_dir: PathBuf,
    pub thread_name: String,
    /// One preload chunk for each module, in the order of the modules; the
    /// bundled libraries are modules like any other.
    pub chunks: Vec<String>,
    pub script: String,
}

impl LuaRuntimeBuilder {
    /// Checks that nothing is missing and lays out what is to be run. The
    /// main directory is asked for first, then the script.
    pub fn plan(self) -> (r: Result<RuntimePlan, BuildError>)
        ensures
            match r {
                Ok(plan) => {
                    &&& self@.main_dir == Some(plan.main_dir)
                    &&& self@.script == Some(plan.script@)
                    &&& plan.thread_name@ == self@.thread_name
                    &&& plan.chunks.len() == self@.modules.len()
                    &&& forall|i: int|
                        0 <= i < plan.chunks.len() ==> (#[trigger] plan.chunks[i])@
                            == preload_chunk(self@.modules[i].0, self@.modules[i].1)
                },
                Err(BuildError::MissingMainDir) => self@.main_dir is None,
                Err(BuildError::MissingScript) => self@.main_dir is Some && self@.script is None,
            },
    {
        let LuaRuntimeBuilder { script, modules, main_dir, thread_name } = self;
        let main_dir = match main_dir {
            Some(dir) => dir,
            None => {
                return Err(BuildError::MissingMainDir);
            },
        };
        let script = match script {
            Some(script) => script,
            None => {
                return Err(BuildError::MissingScript);
            },
        };
        let mut chunks: Vec<String> = Vec::new();
        let mut i: usize = 0;
        while i < modules.len()
            invariant
                i <= modules.len(),
                chunks.len() == i,
                forall|k: int|
                    0 <= k < i ==> (#[trigger] chunks[k])@ == preload_chunk(
                        modules[k].0@,
                        modules[k].1@,
                    ),
            decreases modules.len() - i,
        {
            chunks.push(preload(modules[i].0.as_str(), modules[i].1.as_str()));
            i += 1;
        }
        Ok(RuntimePlan { main_dir, thread_name, chunks, script })
    }
}

} // verus!
