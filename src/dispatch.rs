//! Build dispatch: from a language tag and its directory to a runnable
//! target, or to the verdict that the language cannot be run.
//!
//! Each supported language has a recipe in a registry.  A build is a small
//! state machine: every step names one action for the caller to perform (look
//! for a file, run a command, write a script, make it executable) and the
//! caller answers whether that action succeeded.

use vstd::prelude::*;
use crate::discovery::same_text;
use vstd::string::StringExecFns;

verus! {

/// How a language is turned into something runnable.
#[derive(Clone, Copy, Debug, PartialEq, Eq, Structural)]
pub enum Strategy {
    /// A native compiler must succeed; otherwise the language cannot run.
    Compiled,
    /// A toolchain builds natively when it can; otherwise a wrapper script
    /// runs the source through the toolchain's interpreter.
    Toolchain,
}

/// How one language is built.
#[derive(Debug)]
pub struct BuildRecipe {
    /// The language tag (the name of the implementation directory).
    pub language: String,
    pub strategy: Strategy,
    /// The compiler or toolchain program, looked up on the search path.
    pub program: String,
    /// The argument that comes before `-o <binary> <source>`.
    pub flag: String,
    /// The one source file looked for in the implementation directory.
    pub source_file: String,
}

pub struct RecipeView {
    pub language: Seq<char>,
    pub strategy: Strategy,
    pub program: Seq<char>,
    pub flag: Seq<char>,
    pub source_file: Seq<char>,
}

impl View for BuildRecipe {
    type V = RecipeView;

    open spec fn view(&self) -> RecipeView {
        RecipeView {
            language: self.language@,
            strategy: self.strategy,
            program: self.program@,
            flag: self.flag@,
            source_file: self.source_file@,
        }
    }
}

impl BuildRecipe {
    /// A copy of this recipe.
    pub fn duplicate(&self) -> (r: BuildRecipe)
        ensures
            r@ == self@,
    {
        BuildRecipe {
            language: self.language.clone(),
            strategy: self.strategy,
            program: self.program.clone(),
            flag: self.flag.clone(),
            source_file: self.source_file.clone(),
        }
    }
}

/// The supported languages: C through gcc, and BMB through its toolchain.
pub open spec fn recipes() -> Seq<RecipeView> {
    seq![
        RecipeView {
            language: "c"@,
            strategy: Strategy::Compiled,
            program: "gcc"@,
            flag: "-O3"@,
            source_file: "main.c"@,
        },
        RecipeView {
            language: "bmb"@,
            strategy: Strategy::Toolchain,
            program: "bmb"@,
            flag: "build"@,
            source_file: "main.bmb"@,
        },
    ]
}

/// The first recipe for the language, if any.
pub open spec fn lookup(registry: Seq<RecipeView>, language: Seq<char>) -> Option<RecipeView>
    decreases registry.len(),
{
    if registry.len() == 0 {
        None
    } else if registry[0].language == language {
        Some(registry[0])
    } else {
        lookup(registry.drop_first(), language)
    }
}

/// The registry of build recipes.
pub fn registry() -> (r: Vec<BuildRecipe>)
    ensures
        r@.map_values(|b: BuildRecipe| b@) == recipes(),
{
    let mut r: Vec<BuildRecipe> = Vec::new();
    r.push(
        BuildRecipe {
            language: String::from_str("c"),
            strategy: Strategy::Compiled,
            program: String::from_str("gcc"),
            flag: String::from_str("-O3"),
            source_file: String::from_str("main.c"),
        },
    );
    r.push(
        BuildRecipe {
            language: String::from_str("bmb"),
            strategy: Strategy::Toolchain,
            program: String::from_str("bmb"),
            flag: String::from_str("build"),
            source_file: String::from_str("main.bmb"),
        },
    );
    proof {
        assert(r@.map_values(|b: BuildRecipe| b@) =~= recipes());
    }
    r
}

/// The recipe for a language tag, if the language is supported.
pub fn recipe_for(language: &str) -> (r: Option<BuildRecipe>)
    ensures
        match r {
            Some(b) => lookup(recipes(), language@) == Some(b@),
            None => lookup(recipes(), language@) is None,
        },
{
    let reg = registry();
    let ghost views = reg@.map_values(|b: BuildRecipe| b@);
    let mut i: usize = 0;
    proof {
        assert(views.skip(0) =~= views);
    }
    while i < reg.len()
        invariant
            i <= reg@.len(),
            views == reg@.map_values(|b: BuildRecipe| b@),
            views == recipes(),
            lookup(views, language@) == lookup(views.skip(i as int), language@),
        decreases reg.len() - i,
    {
        proof {
            assert(views.skip(i as int)[0] == reg@[i as int]@);
            assert(views.skip(i as int).drop_first() =~= views.skip(i + 1));
        }
        if same_text(reg[i].language.as_str(), language) {
            return Some(reg[i].duplicate());
        }
        i += 1;
    }
    None
}

/// `dir/file`.
pub open spec fn join(dir: Seq<char>, file: Seq<char>) -> Seq<char> {
    dir + "/"@ + file
}

/// The path of a file inside a directory.
pub fn join_path(dir: &str, file: &str) -> (r: String)
    ensures
        r@ == join(dir@, file@),
{
    let mut r = String::from_str(dir);
    r.append("/");
    r.append(file);
    r
}

/// The source file of an implementation.
pub open spec fn source_path(r: RecipeView, dir: Seq<char>) -> Seq<char> {
    join(dir, r.source_file)
}

/// Where a native build puts its binary.
pub open spec fn binary_path(dir: Seq<char>) -> Seq<char> {
    join(dir, "main"@)
}

/// Where the interpreter wrapper is written.
pub open spec fn wrapper_path(dir: Seq<char>) -> Seq<char> {
    join(dir, "run.sh"@)
}

/// The arguments of the native build.
pub open spec fn build_args(r: RecipeView, dir: Seq<char>) -> Seq<Seq<char>> {
    seq![r.flag, "-o"@, binary_path(dir), source_path(r, dir)]
}

/// The wrapper script: run the source through the toolchain's interpreter.
pub open spec fn wrapper_script(r: RecipeView, dir: Seq<char>) -> Seq<char> {
    "#!/bin/sh\n"@ + r.program + " run "@ + source_path(r, dir) + "\n"@
}

/// Where a build stands.
#[derive(Clone, Copy, Debug, PartialEq, Eq, Structural)]
pub enum BuildStep {
    /// Waiting to learn whether the source file exists.
    CheckingSource,
    /// Waiting to learn whether the native build succeeded.
    Compiling,
    /// Waiting to learn whether the wrapper script was written.
    WritingWrapper,
    /// Waiting to learn whether the wrapper was made executable.
    MarkingExecutable,
    /// The build has an outcome.
    Finished,
}

/// What the caller is asked to do next.
#[derive(Debug)]
pub enum BuildAction {
    /// Report whether this file exists.
    CheckExists { path: String },
    /// Run this program and report whether it ran and exited successfully.
    Run { program: String, args: Vec<String> },
    /// Write this script and report whether that succeeded.
    WriteScript { path: String, contents: String },
    /// Make this file executable and report whether that succeeded.
    MarkExecutable { path: String },
    /// The build is over: the runnable target, or none.
    Done { target: Option<String> },
}

pub enum ActionView {
    CheckExists(Seq<char>),
    Run(Seq<char>, Seq<Seq<char>>),
    WriteScript(Seq<char>, Seq<char>),
    MarkExecutable(Seq<char>),
    Done(Option<Seq<char>>),
}

impl View for BuildAction {
    type V = ActionView;

    open spec fn view(&self) -> ActionView {
        match self {
            BuildAction::CheckExists { path } => ActionView::CheckExists(path@),
            BuildAction::Run { program, args } => ActionView::Run(
                program@,
                args@.map_values(|a: String| a@),
            ),
            BuildAction::WriteScript { path, contents } => ActionView::WriteScript(
                path@,
                contents@,
            ),
            BuildAction::MarkExecutable { path } => ActionView::MarkExecutable(path@),
            BuildAction::Done { target } => ActionView::Done(
                match target {
                    Some(t) => Some(t@),
                    None => None,
                },
            ),
        }
    }
}

/// The step that follows `step` when its action succeeded (`ok`) or failed,
/// and the action that goes with it.
pub open spec fn next(r: RecipeView, dir: Seq<char>, step: BuildStep, ok: bool) -> (
    BuildStep,
    ActionView,
) {
    match step {
        BuildStep::CheckingSource => if ok {
            (BuildStep::Compiling, ActionView::Run(r.program, build_args(r, dir)))
        } else {
            (BuildStep::Finished, ActionView::Done(None))
        },
        BuildStep::Compiling => if ok {
            (BuildStep::Finished, ActionView::Done(Some(binary_path(dir))))
        } else if r.strategy == Strategy::Toolchain {
            (
                BuildStep::WritingWrapper,
                ActionView::WriteScript(wrapper_path(dir), wrapper_script(r, dir)),
            )
        } else {
            (BuildStep::Finished, ActionView::Done(None))
        },
        BuildStep::WritingWrapper => if ok {
            (BuildStep::MarkingExecutable, ActionView::MarkExecutable(wrapper_path(dir)))
        } else {
            (BuildStep::Finished, ActionView::Done(None))
        },
        BuildStep::MarkingExecutable => if ok {
            (BuildStep::Finished, ActionView::Done(Some(wrapper_path(dir))))
        } else {
            (BuildStep::Finished, ActionView::Done(None))
        },
        BuildStep::Finished => (BuildStep::Finished, ActionView::Done(None)),
    }
}

/// When the source file is missing, the build ends at once with no runnable
/// target, whatever the language's strategy.
pub proof fn lemma_missing_source_not_runnable(r: RecipeView, dir: Seq<char>)
    ensures
        next(r, dir, BuildStep::CheckingSource, false) == (
            BuildStep::Finished,
            ActionView::Done(None),
        ),
{
}

/// One build in progress.
#[derive(Debug)]
pub struct BuildJob {
    pub recipe: Option<BuildRecipe>,
    pub dir: String,
    pub step: BuildStep,
}

impl BuildJob {
    /// A job that is not finished has a recipe.
    pub open spec fn wf(&self) -> bool {
        self.step != BuildStep::Finished ==> self.recipe is Some
    }

    /// Starts the build of `language` in `dir`: look for its source file, or
    /// give up at once when the language has no recipe.
    pub fn begin(language: &str, dir: &str) -> (r: (BuildJob, BuildAction))
        ensures
            r.0.wf(),
            r.0.dir@ == dir@,
            match lookup(recipes(), language@) {
                None => r.0.step == BuildStep::Finished && r.1@ == ActionView::Done(None),
                Some(rec) => r.0.step == BuildStep::CheckingSource && r.0.recipe.unwrap()@ == rec
                    && r.1@ == ActionView::CheckExists(source_path(rec, dir@)),
            },
    {
        match recipe_for(language) {
            None => (
                BuildJob { recipe: None, dir: String::from_str(dir), step: BuildStep::Finished },
                BuildAction::Done { target: None },
            ),
            Some(rec) => {
                let path = join_path(dir, rec.source_file.as_str());
                (
                    BuildJob {
                        recipe: Some(rec),
                        dir: String::from_str(dir),
                        step: BuildStep::CheckingSource,
                    },
                    BuildAction::CheckExists { path },
                )
            },
        }
    }

    /// Takes the caller's answer to the last action and names the next one.
    pub fn advance(&mut self, ok: bool) -> (a: BuildAction)
        requires
            old(self).wf(),
            old(self).step != BuildStep::Finished,
        ensures
            final(self).wf(),
            final(self).recipe == old(self).recipe,
            final(self).dir == old(self).dir,
            (final(self).step, a@) == next(
                old(self).recipe.unwrap()@,
                old(self).dir@,
                old(self).step,
                ok,
            ),
    {
        let rec = self.recipe.as_ref().unwrap();
        let dir = self.dir.as_str();
        match self.step {
            BuildStep::CheckingSource => {
                if ok {
                    let mut args: Vec<String> = Vec::new();
                    args.push(rec.flag.clone());
                    args.push(String::from_str("-o"));
                    args.push(join_path(dir, "main"));
                    args.push(join_path(dir, rec.source_file.as_str()));
                    proof {
                        assert(args@.map_values(|a: String| a@) =~= build_args(rec@, dir@));
                    }
                    let program = rec.program.clone();
                    self.step = BuildStep::Compiling;
                    BuildAction::Run { program, args }
                } else {
                    self.step = BuildStep::Finished;
                    BuildAction::Done { target: None }
                }
            },
            BuildStep::Compiling => {
                if ok {
                    let target = join_path(dir, "main");
                    self.step = BuildStep::Finished;
                    BuildAction::Done { target: Some(target) }
                } else if rec.strategy == Strategy::Toolchain {
                    let path = join_path(dir, "run.sh");
                    let source = join_path(dir, rec.source_file.as_str());
                    let mut contents = String::from_str("#!/bin/sh\n");
                    contents.append(rec.program.as_str());
                    contents.append(" run ");
                    contents.append(source.as_str());
                    contents.append("\n");
                    self.step = BuildStep::WritingWrapper;
                    BuildAction::WriteScript { path, contents }
                } else {
                    self.step = BuildStep::Finished;
                    BuildAction::Done { target: None }
                }
            },
            BuildStep::WritingWrapper => {
                if ok {
                    let path = join_path(dir, "run.sh");
                    self.step = BuildStep::MarkingExecutable;
                    BuildAction::MarkExecutable { path }
                } else {
                    self.step = BuildStep::Finished;
                    BuildAction::Done { target: None }
                }
            },
            BuildStep::MarkingExecutable => {
                let target = if ok {
                    Some(join_path(dir, "run.sh"))
                } else {
                    None
                };
                self.step = BuildStep::Finished;
                BuildAction::Done { target }
            },
            BuildStep::Finished => {
                BuildAction::Done { target: None }
            },
        }
    }
}

} // verus!
