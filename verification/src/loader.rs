//! Loading the agent definitions of one root.
//!
//! Loading alternates decisions with work on the file system: a prompt file
//! is resolved, then judged, then read. The decisions are taken here, as a
//! machine that is stepped from outside. Each step hands out the next thing
//! to ask of the file system and takes the answer to the previous one.

use crate::agent::{
    model_choice, policy_choice, text_of, verdict, AgentConfig, AgentConfigView,
};
use crate::guard::TrustedRoots;
use crate::layers::defs_of;
use crate::paths::{join_path, joined};
use crate::text::lemma_trimmed_twice;
use vstd::prelude::*;

verus! {

/// A definition as it leaves the loader. `text` is what was read from its
/// prompt file, if anything was: it becomes the prompt, and the file is no
/// longer named. The model is trimmed, and dropped where nothing is left of
/// it. A permissions override that means nothing is dropped.
pub open spec fn settled(cfg: AgentConfigView, text: Option<Seq<char>>) -> AgentConfigView {
    let read = cfg.prompt_file is Some && text is Some;
    AgentConfigView {
        prompt: if read {
            text
        } else {
            cfg.prompt
        },
        prompt_file: if read {
            None
        } else {
            cfg.prompt_file
        },
        tools: cfg.tools,
        model: model_choice(cfg.model),
        reasoning_effort: cfg.reasoning_effort,
        permissions: if policy_choice(cfg.permissions) is Ok {
            cfg.permissions
        } else {
            None
        },
    }
}

/// A settled definition is still valid, its model and its permissions are
/// in their final form, and settling it again changes nothing.
pub proof fn lemma_settled_is_final(cfg: AgentConfigView, text: Option<Seq<char>>)
    requires
        verdict(cfg) is Ok,
    ensures
        verdict(settled(cfg, text)) is Ok,
        model_choice(settled(cfg, text).model) == settled(cfg, text).model,
        policy_choice(settled(cfg, text).permissions) is Ok,
        settled(settled(cfg, text), None) == settled(cfg, text),
{
    if let Some(m) = cfg.model {
        lemma_trimmed_twice(m);
    }
}

impl AgentConfig {
    /// The definition as it leaves the loader, given what was read from its
    /// prompt file.
    pub fn settle(self, text: Option<String>) -> (out: AgentConfig)
        ensures
            out@ == settled(self@, text_of(text)),
    {
        let model = self.model_override();
        let keep = self.permissions_policy().is_ok();
        let read = self.prompt_file.is_some() && text.is_some();
        let AgentConfig { prompt, prompt_file, tools, model: _, reasoning_effort, permissions } =
            self;
        AgentConfig {
            prompt: if read {
                text
            } else {
                prompt
            },
            prompt_file: if read {
                None
            } else {
                prompt_file
            },
            tools,
            model,
            reasoning_effort,
            permissions: if keep {
                permissions
            } else {
                None
            },
        }
    }
}

/// What the loader waits for.
#[derive(Debug, Clone, Copy, PartialEq, Eq, Structural)]
pub enum Awaiting {
    /// Nothing: no question is open.
    Nothing,
    /// The canonical form of the path handed out last.
    Canonical,
    /// The text of the file handed out last.
    Contents,
}

/// What the loader asks of the file system next.
#[derive(Debug, PartialEq, Eq)]
pub enum LoadAction {
    /// Resolve this path to its canonical form.
    Canonicalize(String),
    /// Read the file at this path as text.
    ReadFile(String),
    /// Nothing more: every definition is handled.
    Finished,
}

/// A `LoadAction` as plain values.
pub enum LoadActionView {
    Canonicalize(Seq<char>),
    ReadFile(Seq<char>),
    Finished,
}

impl View for LoadAction {
    type V = LoadActionView;

    open spec fn view(&self) -> LoadActionView {
        match self {
            LoadAction::Canonicalize(p) => LoadActionView::Canonicalize(p@),
            LoadAction::ReadFile(p) => LoadActionView::ReadFile(p@),
            LoadAction::Finished => LoadActionView::Finished,
        }
    }
}

/// The state of a loader as plain values.
pub struct LoaderView {
    /// The root that the definitions came from, as it was written.
    pub base_dir: Seq<char>,
    /// The definitions not yet handled. While a question is open, the first
    /// of them is the one it was asked for.
    pub pending: Seq<(Seq<char>, AgentConfigView)>,
    /// The definitions handled and kept.
    pub loaded: Seq<(Seq<char>, AgentConfigView)>,
    /// The open question.
    pub awaiting: Awaiting,
}

impl LoaderView {
    /// The state after the first pending definition was kept, with `text`
    /// as what was read for it.
    pub open spec fn keep_first(self, text: Option<Seq<char>>) -> LoaderView {
        LoaderView {
            pending: self.pending.drop_first(),
            loaded: self.loaded.push((self.pending[0].0, settled(self.pending[0].1, text))),
            awaiting: Awaiting::Nothing,
            ..self
        }
    }

    /// The state after the first pending definition was dropped.
    pub open spec fn drop_first(self) -> LoaderView {
        LoaderView { pending: self.pending.drop_first(), awaiting: Awaiting::Nothing, ..self }
    }

    /// While a question is open, the first pending definition is a valid
    /// one that names a prompt file.
    pub open spec fn wf(self) -> bool {
        self.awaiting != Awaiting::Nothing ==> self.pending.len() > 0 && verdict(
            self.pending[0].1,
        ) is Ok && self.pending[0].1.prompt_file is Some
    }

    /// The bound on the steps that remain: it falls with every step that
    /// does not finish.
    pub open spec fn work_left(self) -> nat {
        2 * self.pending.len() + match self.awaiting {
            Awaiting::Nothing => 2nat,
            Awaiting::Canonical => 1nat,
            Awaiting::Contents => 0nat,
        }
    }
}

/// Going on with no question open: invalid definitions are dropped and
/// definitions with an inline prompt are kept, up to the first definition
/// that names a prompt file. Its path is handed out to be resolved. Where no
/// such definition is left, loading has finished.
pub open spec fn advance(state: LoaderView) -> (LoaderView, LoadActionView)
    decreases state.pending.len(),
{
    if state.pending.len() == 0 {
        (LoaderView { awaiting: Awaiting::Nothing, ..state }, LoadActionView::Finished)
    } else {
        let cfg = state.pending[0].1;
        if verdict(cfg) is Err {
            advance(state.drop_first())
        } else if cfg.prompt_file is Some {
            (
                LoaderView { awaiting: Awaiting::Canonical, ..state },
                LoadActionView::Canonicalize(joined(state.base_dir, cfg.prompt_file->0)),
            )
        } else {
            advance(state.keep_first(None))
        }
    }
}

/// One step of loading. `answer` is what the file system gave for the
/// action handed out last: the canonical path or the text, or nothing where
/// it failed.
///
/// A canonical path within the trusted roots is handed out to be read. Any
/// other answer to a request for a canonical path settles the definition
/// without a prompt, and so does a file that could not be read; a text that
/// was read settles it with that prompt. Then loading goes on.
pub open spec fn step_of(roots: TrustedRoots, state: LoaderView, answer: Option<Seq<char>>) -> (
    LoaderView,
    LoadActionView,
) {
    match state.awaiting {
        Awaiting::Nothing => advance(state),
        Awaiting::Canonical => match answer {
            Some(p) => if roots.admits(p) {
                (LoaderView { awaiting: Awaiting::Contents, ..state }, LoadActionView::ReadFile(p))
            } else {
                advance(state.keep_first(None))
            },
            None => advance(state.keep_first(None)),
        },
        Awaiting::Contents => advance(state.keep_first(answer)),
    }
}

/// Going on never asks for a file to be read, keeps the state well formed,
/// and leaves less work than there was unless it finishes.
pub proof fn lemma_advance(state: LoaderView)
    ensures
        !(advance(state).1 is ReadFile),
        advance(state).0.awaiting != Awaiting::Contents,
        advance(state).1 matches LoadActionView::Canonicalize(p) ==> p == joined(
            state.base_dir,
            advance(state).0.pending[0].1.prompt_file->0,
        ),
        advance(state).0.wf(),
        advance(state).0.base_dir == state.base_dir,
        advance(state).1 is Finished <==> advance(state).0.awaiting == Awaiting::Nothing,
        advance(state).1 is Finished ==> advance(state).0.pending.len() == 0,
        !(advance(state).1 is Finished) ==> advance(state).0.work_left() < 2
            * state.pending.len() + 2,
        advance(state).0.pending.len() <= state.pending.len(),
    decreases state.pending.len(),
{
    if state.pending.len() > 0 {
        let cfg = state.pending[0].1;
        if verdict(cfg) is Err {
            lemma_advance(state.drop_first());
        } else if cfg.prompt_file is Some {
        } else {
            lemma_advance(state.keep_first(None));
        }
    }
}

/// A file is handed out to be read only if it lies within the trusted
/// roots, and every step that does not finish leaves less work.
pub proof fn lemma_step(roots: TrustedRoots, state: LoaderView, answer: Option<Seq<char>>)
    requires
        state.wf(),
    ensures
        step_of(roots, state, answer).0.wf(),
        step_of(roots, state, answer).0.base_dir == state.base_dir,
        step_of(roots, state, answer).1 matches LoadActionView::ReadFile(p) ==> roots.admits(p),
        !(step_of(roots, state, answer).1 is Finished) ==> step_of(
            roots,
            state,
            answer,
        ).0.work_left() < state.work_left(),
        step_of(roots, state, answer).1 is Finished ==> step_of(roots, state, answer).0.pending.len()
            == 0 && step_of(roots, state, answer).0.awaiting == Awaiting::Nothing,
{
    lemma_advance(state);
    if state.awaiting != Awaiting::Nothing {
        lemma_advance(state.keep_first(None));
        lemma_advance(state.keep_first(answer));
    }
}

/// What a file system says when it is asked: the canonical form of each
/// path that it can resolve, and the text of each file that it can read.
pub struct FileSystem {
    pub canonical: Map<Seq<char>, Seq<char>>,
    pub texts: Map<Seq<char>, Seq<char>>,
}

impl FileSystem {
    /// The answer to an action.
    pub open spec fn answer(self, action: LoadActionView) -> Option<Seq<char>> {
        match action {
            LoadActionView::Canonicalize(p) => if self.canonical.contains_key(p) {
                Some(self.canonical[p])
            } else {
                None
            },
            LoadActionView::ReadFile(p) => if self.texts.contains_key(p) {
                Some(self.texts[p])
            } else {
                None
            },
            LoadActionView::Finished => None,
        }
    }

    /// The text that is read for a definition found under `base_dir`: that
    /// of its prompt file, where the file resolves to a place within the
    /// trusted roots and can be read; else none.
    pub open spec fn prompt_read(
        self,
        roots: TrustedRoots,
        base_dir: Seq<char>,
        cfg: AgentConfigView,
    ) -> Option<Seq<char>> {
        match cfg.prompt_file {
            Some(f) => match self.answer(LoadActionView::Canonicalize(joined(base_dir, f))) {
                Some(p) => if roots.admits(p) {
                    self.answer(LoadActionView::ReadFile(p))
                } else {
                    None
                },
                None => None,
            },
            None => None,
        }
    }

    /// What loading makes of a list of definitions found under `base_dir`:
    /// the valid ones, in order, each settled with the text read for it.
    pub open spec fn loaded(
        self,
        roots: TrustedRoots,
        base_dir: Seq<char>,
        entries: Seq<(Seq<char>, AgentConfigView)>,
    ) -> Seq<(Seq<char>, AgentConfigView)>
        decreases entries.len(),
    {
        if entries.len() == 0 {
            Seq::empty()
        } else {
            let rest = self.loaded(roots, base_dir, entries.drop_first());
            let cfg = entries[0].1;
            if verdict(cfg) is Err {
                rest
            } else {
                seq![(entries[0].0, settled(cfg, self.prompt_read(roots, base_dir, cfg)))] + rest
            }
        }
    }

    /// Whether `answer` is what this file system says to the question that
    /// is open in `state`.
    pub open spec fn answers(
        self,
        roots: TrustedRoots,
        state: LoaderView,
        answer: Option<Seq<char>>,
    ) -> bool {
        let cfg = state.pending[0].1;
        let candidate = LoadActionView::Canonicalize(joined(state.base_dir, cfg.prompt_file->0));
        match state.awaiting {
            Awaiting::Nothing => true,
            Awaiting::Canonical => answer == self.answer(candidate),
            Awaiting::Contents => (self.answer(candidate) matches Some(p) && roots.admits(p))
                && answer == self.prompt_read(roots, state.base_dir, cfg),
        }
    }

    /// The state in which the loader ends when it is stepped against this
    /// file system, at most `fuel + 1` times, starting with `answer`.
    pub open spec fn run(
        self,
        roots: TrustedRoots,
        state: LoaderView,
        answer: Option<Seq<char>>,
        fuel: nat,
    ) -> LoaderView
        decreases fuel,
    {
        let (next, action) = step_of(roots, state, answer);
        if action is Finished || fuel == 0 {
            next
        } else {
            self.run(roots, next, self.answer(action), (fuel - 1) as nat)
        }
    }
}

/// Going on handles the definitions that need nothing of the file system
/// as loading as a whole does.
pub proof fn lemma_advance_loads(fs: FileSystem, roots: TrustedRoots, state: LoaderView)
    ensures
        advance(state).0.loaded + fs.loaded(roots, state.base_dir, advance(state).0.pending)
            == state.loaded + fs.loaded(roots, state.base_dir, state.pending),
    decreases state.pending.len(),
{
    let base = state.base_dir;
    if state.pending.len() > 0 {
        let cfg = state.pending[0].1;
        let rest = fs.loaded(roots, base, state.pending.drop_first());
        if verdict(cfg) is Err {
            lemma_advance_loads(fs, roots, state.drop_first());
        } else if cfg.prompt_file is Some {
        } else {
            let kept = state.keep_first(None);
            lemma_advance_loads(fs, roots, kept);
            assert(kept.loaded + rest =~= state.loaded + (seq![
                (state.pending[0].0, settled(cfg, None)),
            ] + rest));
        }
    }
}

/// Loading as a whole: a loader that is stepped against a file system
/// until it finishes has handled every definition, and has kept exactly
/// the valid ones, in order, each settled with the text that the file
/// system holds for it within the trusted roots.
pub proof fn lemma_run_loads_all(
    fs: FileSystem,
    roots: TrustedRoots,
    state: LoaderView,
    answer: Option<Seq<char>>,
    fuel: nat,
)
    requires
        state.wf(),
        fs.answers(roots, state, answer),
        fuel >= state.work_left(),
    ensures
        fs.run(roots, state, answer, fuel).pending.len() == 0,
        fs.run(roots, state, answer, fuel).loaded == state.loaded + fs.loaded(
            roots,
            state.base_dir,
            state.pending,
        ),
    decreases fuel,
{
    let base = state.base_dir;
    let (next, action) = step_of(roots, state, answer);
    lemma_step(roots, state, answer);
    let total = state.loaded + fs.loaded(roots, base, state.pending);
    // Whatever the step was, it leaves the sum of what is kept and what is
    // still to come unchanged, and the next answer fits the next question.
    assert(next.loaded + fs.loaded(roots, base, next.pending) == total && (!(action is Finished)
        ==> fs.answers(roots, next, fs.answer(action)))) by {
        if state.awaiting == Awaiting::Nothing {
            lemma_advance_loads(fs, roots, state);
            lemma_advance(state);
        } else {
            let cfg = state.pending[0].1;
            let rest = fs.loaded(roots, base, state.pending.drop_first());
            let read = fs.prompt_read(roots, base, cfg);
            let asks_to_read = state.awaiting == Awaiting::Canonical && (answer matches Some(p)
                && roots.admits(p));
            if !asks_to_read {
                let kept = state.keep_first(read);
                assert(next == advance(kept).0 && action == advance(kept).1);
                assert(kept.loaded + rest =~= state.loaded + (seq![
                    (state.pending[0].0, settled(cfg, read)),
                ] + rest));
                lemma_advance_loads(fs, roots, kept);
                lemma_advance(kept);
            }
        }
    }
    if action is Finished {
        assert(fs.loaded(roots, base, next.pending) =~= Seq::empty());
        assert(next.loaded + Seq::<(Seq<char>, AgentConfigView)>::empty() =~= next.loaded);
    } else {
        lemma_run_loads_all(fs, roots, next, fs.answer(action), (fuel - 1) as nat);
    }
}

/// The loader of the agent definitions of one root.
pub struct AgentLoader {
    base_dir: String,
    roots: TrustedRoots,
    pending: Vec<(String, AgentConfig)>,
    loaded: Vec<(String, AgentConfig)>,
    awaiting: Awaiting,
}

impl AgentLoader {
    /// The state as plain values.
    pub closed spec fn view(&self) -> LoaderView {
        LoaderView {
            base_dir: self.base_dir@,
            pending: defs_of(self.pending@),
            loaded: defs_of(self.loaded@),
            awaiting: self.awaiting,
        }
    }

    /// The trusted roots that prompt files are held to.
    pub closed spec fn roots(&self) -> TrustedRoots {
        self.roots
    }

    /// A loader for the definitions found under `base_dir`. `parsed` holds
    /// what the root's file of definitions was parsed into, and nothing
    /// where the root has no such file or the file is malformed: such a
    /// root gives no definitions. Nothing is handled yet and no question is
    /// open.
    pub fn new(
        base_dir: String,
        roots: TrustedRoots,
        parsed: Option<Vec<(String, AgentConfig)>>,
    ) -> (out: AgentLoader)
        ensures
            out@.wf(),
            out.roots() == roots,
            out@ == (LoaderView {
                base_dir: base_dir@,
                pending: match parsed {
                    Some(entries) => defs_of(entries@),
                    None => Seq::empty(),
                },
                loaded: Seq::empty(),
                awaiting: Awaiting::Nothing,
            }),
    {
        let pending = match parsed {
            Some(entries) => entries,
            None => Vec::new(),
        };
        let out = AgentLoader {
            base_dir,
            roots,
            pending,
            loaded: Vec::new(),
            awaiting: Awaiting::Nothing,
        };
        proof {
            assert(defs_of(out.loaded@) =~= Seq::empty());
            if parsed is None {
                assert(defs_of(out.pending@) =~= Seq::empty());
            }
        }
        out
    }

    /// Goes on with no question open.
    fn go_on(&mut self) -> (action: LoadAction)
        ensures
            (final(self)@, action@) == advance(
                LoaderView { awaiting: Awaiting::Nothing, ..old(self)@ },
            ),
            final(self).roots() == old(self).roots(),
    {
        let ghost start = LoaderView { awaiting: Awaiting::Nothing, ..self@ };
        self.awaiting = Awaiting::Nothing;
        while self.pending.len() > 0
            invariant
                self.awaiting == Awaiting::Nothing,
                self.roots() == old(self).roots(),
                start == (LoaderView { awaiting: Awaiting::Nothing, ..old(self)@ }),
                advance(self@) == advance(start),
            decreases self.pending.len(),
        {
            let ghost here = self@;
            let valid = self.pending[0].1.validate().is_ok();
            if valid && self.pending[0].1.prompt_file.is_some() {
                let path = match &self.pending[0].1.prompt_file {
                    Some(f) => join_path(self.base_dir.as_str(), f.as_str()),
                    None => String::new(),
                };
                self.awaiting = Awaiting::Canonical;
                proof {
                    assert(here.pending[0].1 == self.pending@[0].1@);
                    assert(self@ == LoaderView { awaiting: Awaiting::Canonical, ..here });
                }
                return LoadAction::Canonicalize(path);
            }
            assert(here.pending[0].1 == self.pending@[0].1@);
            let first = self.pending.remove(0);
            proof {
                assert(defs_of(self.pending@) =~= here.pending.drop_first());
            }
            if valid {
                let ghost kept = self.loaded@;
                let name = first.0;
                let cfg = first.1.settle(None);
                self.loaded.push((name, cfg));
                proof {
                    assert(defs_of(self.loaded@) =~= defs_of(kept).push(
                        (name@, settled(here.pending[0].1, None)),
                    ));
                    assert(self@ == here.keep_first(None));
                }
            } else {
                assert(self@ == here.drop_first());
            }
        }
        LoadAction::Finished
    }

    /// One step of loading: takes the answer to the action handed out
    /// last, and hands out the next action. The first step takes no answer.
    /// A file is handed out to be read only if it lies within the trusted
    /// roots.
    pub fn step(&mut self, answer: Option<String>) -> (action: LoadAction)
        requires
            old(self)@.wf(),
        ensures
            (final(self)@, action@) == step_of(old(self).roots(), old(self)@, text_of(answer)),
            final(self).roots() == old(self).roots(),
            final(self)@.wf(),
            action matches LoadAction::ReadFile(p) ==> final(self).roots().admits(p@),
            !(action is Finished) ==> final(self)@.work_left() < old(self)@.work_left(),
    {
        proof {
            lemma_step(self.roots(), self@, text_of(answer));
        }
        let ghost here = self@;
        match self.awaiting {
            Awaiting::Nothing => self.go_on(),
            Awaiting::Canonical => {
                match self.roots.validate_prompt_path(answer) {
                    Ok(path) => {
                        self.awaiting = Awaiting::Contents;
                        LoadAction::ReadFile(path)
                    },
                    Err(_) => {
                        self.keep_first(None);
                        self.go_on()
                    },
                }
            },
            Awaiting::Contents => {
                self.keep_first(answer);
                self.go_on()
            },
        }
    }

    /// Settles the first pending definition with `text` and keeps it.
    fn keep_first(&mut self, text: Option<String>)
        requires
            old(self)@.pending.len() > 0,
        ensures
            final(self)@ == old(self)@.keep_first(text_of(text)),
            final(self).roots() == old(self).roots(),
    {
        let ghost here = self@;
        let ghost kept = self.loaded@;
        let first = self.pending.remove(0);
        let name = first.0;
        let cfg = first.1.settle(text);
        self.loaded.push((name, cfg));
        self.awaiting = Awaiting::Nothing;
        proof {
            assert(defs_of(self.pending@) =~= here.pending.drop_first());
            assert(defs_of(self.loaded@) =~= defs_of(kept).push(
                (name@, settled(here.pending[0].1, text_of(text))),
            ));
        }
    }

    /// Whether every definition is handled.
    pub fn is_finished(&self) -> (r: bool)
        ensures
            r == (self@.pending.len() == 0),
    {
        self.pending.len() == 0
    }

    /// The definitions handled and kept so far, in the order in which they
    /// were given.
    pub fn into_loaded(self) -> (out: Vec<(String, AgentConfig)>)
        ensures
            defs_of(out@) == self@.loaded,
    {
        self.loaded
    }
}

} // verus!
