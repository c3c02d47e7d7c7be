//! The registry of agents: the built-in agent, the definitions of the
//! project and the personal definitions, resolved once and then only read.

use crate::agent::{policy_choice, model_choice, text_of, AgentConfig, AgentConfigView};
use crate::error::AgentError;
use crate::layers::{
    defs_of, first_def, laid_under, lemma_first_def_layers, lemma_sorted_distinct, names_distinct, names_of,
    sort_by_name, sorted_from, Layered,
};
use crate::policy::{ReasoningEffort, SandboxPolicy};
use crate::text::{
    before, find_char, from_chars, position, same_text, skip_prefixes, to_chars, trim, trimmed,
    without_prefix,
};
use vstd::prelude::*;
use vstd::string::StringExecFns;

verus! {

/// The name of the built-in agent.
pub open spec fn general_name() -> Seq<char> {
    "general"@
}

/// The built-in agent: a fixed prompt and no override.
pub open spec fn builtin_agent() -> AgentConfigView {
    AgentConfigView {
        prompt: Some(
            "You are a helpful AI assistant. Complete the given task efficiently and accurately."@,
        ),
        prompt_file: None,
        tools: None,
        model: None,
        reasoning_effort: None,
        permissions: None,
    }
}

/// The prompt of last resort.
pub open spec fn fallback_prompt() -> Seq<char> {
    "You are a helpful AI assistant."@
}

/// The definitions in order of rank: those of the project, the built-in
/// agent, the personal ones.
pub open spec fn ranked(
    project: Seq<(Seq<char>, AgentConfigView)>,
    personal: Seq<(Seq<char>, AgentConfigView)>,
) -> Seq<(Seq<char>, AgentConfigView)> {
    project + seq![(general_name(), builtin_agent())] + personal
}

/// What `name` resolves to over the project's and the personal
/// definitions: the first definition in order of rank.
pub open spec fn resolve(
    project: Seq<(Seq<char>, AgentConfigView)>,
    personal: Seq<(Seq<char>, AgentConfigView)>,
    name: Seq<char>,
) -> Option<AgentConfigView> {
    first_def(ranked(project, personal), name)
}

/// The definitions that a registry holds, in the order in which it took
/// them: those of the project, then the built-in agent unless the project
/// defines its name, then the personal ones whose names were not defined by
/// then.
pub open spec fn registered(
    project: Seq<(Seq<char>, AgentConfigView)>,
    personal: Seq<(Seq<char>, AgentConfigView)>,
) -> Seq<(Seq<char>, AgentConfigView)> {
    let upper = laid_under(Seq::empty(), project);
    laid_under(laid_under(upper, seq![(general_name(), builtin_agent())]), personal)
}

/// The directory that relative files of the registry's agents are looked
/// up in: the project root where it exists, else the personal root.
pub open spec fn base_directory(
    project_root: Seq<char>,
    project_root_exists: bool,
    personal_root: Option<Seq<char>>,
) -> Option<Seq<char>> {
    if project_root_exists {
        Some(project_root)
    } else {
        personal_root
    }
}

/// The first line of a text, without its line ending.
pub open spec fn first_line(s: Seq<char>) -> Seq<char> {
    let n = position(s, '\n') as int;
    let line = s.take(n);
    if n < s.len() && line.len() > 0 && line.last() == '\r' {
        line.drop_last()
    } else {
        line
    }
}

/// A line up to and including its first full stop, or the whole line where
/// it holds none.
pub open spec fn first_sentence(line: Seq<char>) -> Seq<char> {
    let p = position(line, '.') as int;
    if p < line.len() {
        line.take(p + 1)
    } else {
        line
    }
}

/// The one-line description of an agent with the given prompt: the first
/// sentence of its first line, without the words that address the agent
/// and without white space at its ends.
pub open spec fn description_of(prompt: Seq<char>) -> Seq<char> {
    let sentence = first_sentence(first_line(prompt));
    let a = without_prefix(sentence, "You are a "@);
    let b = without_prefix(a, "You are an "@);
    let c = without_prefix(b, "You are "@);
    trimmed(c)
}

/// The system prompt for an agent, given what its name and the name of
/// the built-in agent resolve to: the agent's own prompt; that of the
/// built-in agent where the name is unknown; the prompt of last resort
/// where the definition so found holds no prompt.
pub open spec fn system_prompt_of(
    found: Option<AgentConfigView>,
    general: Option<AgentConfigView>,
) -> Seq<char> {
    let cfg = match found {
        Some(c) => Some(c),
        None => general,
    };
    match cfg {
        Some(c) => match c.prompt {
            Some(p) => p,
            None => fallback_prompt(),
        },
        None => fallback_prompt(),
    }
}

/// What a listing shows of one agent.
#[derive(Debug, Clone, PartialEq, Eq)]
pub struct AgentInfo {
    /// The agent's name.
    pub name: String,
    /// A one-line description, taken from the agent's prompt.
    pub description: String,
    /// Whether the agent goes by the name of the built-in agent.
    pub is_builtin: bool,
}

/// An `AgentInfo` as plain values.
pub struct AgentInfoView {
    pub name: Seq<char>,
    pub description: Seq<char>,
    pub is_builtin: bool,
}

impl View for AgentInfo {
    type V = AgentInfoView;

    open spec fn view(&self) -> AgentInfoView {
        AgentInfoView {
            name: self.name@,
            description: self.description@,
            is_builtin: self.is_builtin,
        }
    }
}

/// What a listing shows of the agent `name` defined as `cfg`. An agent
/// whose prompt is still in a file is described as such.
pub open spec fn info_of(name: Seq<char>, cfg: AgentConfigView) -> AgentInfoView {
    AgentInfoView {
        name,
        description: match cfg.prompt {
            Some(p) => description_of(p),
            None => "Agent with file-based prompt"@,
        },
        is_builtin: name == general_name(),
    }
}

/// The order of a listing: the built-in agent first, the others by name.
pub open spec fn listed_before(a: AgentInfoView, b: AgentInfoView) -> bool {
    (a.is_builtin && !b.is_builtin) || (a.is_builtin == b.is_builtin && before(a.name, b.name))
}

/// The one-line description of an agent with the given prompt.
pub fn extract_description(prompt: &str) -> (out: String)
    ensures
        out@ == description_of(prompt@),
{
    let chars = to_chars(prompt);
    let n = find_char(&chars, '\n');
    let mut end: usize = n;
    if n < chars.len() && n > 0 && chars[n - 1] == '\r' {
        end = n - 1;
    }
    let mut line: Vec<char> = Vec::new();
    let mut i: usize = 0;
    while i < end
        invariant
            i <= end <= chars.len(),
            line@ == chars@.take(i as int),
        decreases end - i,
    {
        line.push(chars[i]);
        i += 1;
        assert(chars@.take(i as int) =~= chars@.take(i - 1).push(chars@[i - 1]));
    }
    proof {
        if end < n {
            assert(chars@.take(n as int).last() == '\r');
            assert(chars@.take(n as int).drop_last() =~= chars@.take(end as int));
        } else if n > 0 && n < chars.len() {
            assert(chars@.take(n as int).last() == chars@[n - 1]);
        }
        assert(chars@.take(end as int) =~= first_line(prompt@));
    }
    let p = find_char(&line, '.');
    if p < line.len() {
        line.truncate(p + 1);
    }
    assert(line@ =~= first_sentence(first_line(prompt@)));
    let a = skip_prefixes(&line, 0, &to_chars("You are a "));
    let b = skip_prefixes(&line, a, &to_chars("You are an "));
    let c = skip_prefixes(&line, b, &to_chars("You are "));
    assert(line@.skip(0) =~= line@);
    let rest = from_chars(&line, c, line.len());
    assert(rest@ =~= line@.skip(c as int));
    trim(rest.as_str())
}

/// The registry of agents. It always holds the built-in agent, under its
/// own definition or under one of the project that shadows it.
pub struct AgentRegistry {
    agents: Layered<AgentConfig>,
    agents_dir: Option<String>,
}

impl AgentRegistry {
    /// The definitions held, no name twice.
    pub closed spec fn defs(&self) -> Seq<(Seq<char>, AgentConfigView)> {
        self.agents.defs()
    }

    /// The directory that relative files of the agents are looked up in.
    pub closed spec fn base_dir(&self) -> Option<Seq<char>> {
        text_of(self.agents_dir)
    }

    /// What `name` is defined as.
    pub open spec fn lookup(&self, name: Seq<char>) -> Option<AgentConfigView> {
        first_def(self.defs(), name)
    }

    /// No name is defined twice, and the built-in agent's name is defined.
    pub open spec fn wf(&self) -> bool {
        names_distinct(self.defs()) && self.lookup(general_name()) is Some
    }

    /// Resolves the agents. `project` and `personal` are the definitions
    /// loaded from the two roots. A definition of the project wins over the
    /// built-in agent and over a personal definition of the same name; a
    /// personal definition is taken only for a name that neither the project
    /// nor the built-in agent defines.
    pub fn new(
        project_root: String,
        project_root_exists: bool,
        personal_root: Option<String>,
        project: Vec<(String, AgentConfig)>,
        personal: Vec<(String, AgentConfig)>,
    ) -> (out: AgentRegistry)
        ensures
            out.wf(),
            forall|name: Seq<char>| #[trigger]
                out.lookup(name) == resolve(defs_of(project@), defs_of(personal@), name),
            out.defs() == registered(defs_of(project@), defs_of(personal@)),
            out.base_dir() == base_directory(
                project_root@,
                project_root_exists,
                text_of(personal_root),
            ),
    {
        let mut agents: Layered<AgentConfig> = Layered::new();
        agents.add_layer(project);
        let ghost upper = agents;
        let general = AgentConfig {
            prompt: Some(
                String::from_str(
                    "You are a helpful AI assistant. Complete the given task efficiently and accurately.",
                ),
            ),
            prompt_file: None,
            tools: None,
            model: None,
            reasoning_effort: None,
            permissions: None,
        };
        assert(general@ == builtin_agent());
        agents.add(String::from_str("general"), general);
        let ghost middle = agents;
        proof {
            let g = seq![(general_name(), builtin_agent())];
            let rest = g.drop_first();
            assert(rest.len() == 0);
            assert(laid_under(upper.defs(), rest) == upper.defs());
            assert(laid_under(upper.defs().push(g[0]), rest) == upper.defs().push(g[0]));
            assert(middle.defs() == laid_under(upper.defs(), g));
        }
        agents.add_layer(personal);
        proof {
            let p = defs_of(project@);
            let g = seq![(general_name(), builtin_agent())];
            let q = defs_of(personal@);
            assert forall|name: Seq<char>| #[trigger]
                agents.lookup(name) == resolve(p, q, name) by {
                lemma_first_def_layers(p + g, q, name);
                lemma_first_def_layers(p, g, name);
                assert(first_def(g.drop_first(), name) is None);
                assert(upper.lookup(name) == first_def(p, name));
                assert(middle.lookup(name) == first_def(p + g, name));
            }
            lemma_first_def_layers(p + g, q, general_name());
            lemma_first_def_layers(p, g, general_name());
        }
        let agents_dir = if project_root_exists {
            Some(project_root)
        } else {
            personal_root
        };
        let out = AgentRegistry { agents, agents_dir };
        proof {
            assert forall|name: Seq<char>| #[trigger]
                out.lookup(name) == resolve(defs_of(project@), defs_of(personal@), name) by {
                assert(agents.lookup(name) == resolve(defs_of(project@), defs_of(personal@), name));
            }
            assert(agents.lookup(general_name()) is Some);
        }
        out
    }

    /// The directory that relative files of the agents are looked up in.
    pub fn agents_dir(&self) -> (dir: Option<&String>)
        ensures
            match dir {
                Some(d) => self.base_dir() == Some(d@),
                None => self.base_dir() is None,
            },
    {
        self.agents_dir.as_ref()
    }

    /// The definition of the agent `name`.
    pub fn get_agent(&self, name: &str) -> (r: Option<&AgentConfig>)
        ensures
            match r {
                Some(cfg) => self.lookup(name@) == Some(cfg@),
                None => self.lookup(name@) is None,
            },
    {
        self.agents.get(name)
    }

    /// The system prompt for the agent `name`: its own prompt; that of the
    /// built-in agent where the name is unknown; a fixed prompt of last
    /// resort where the definition so found holds no prompt.
    pub fn get_system_prompt(&self, agent_name: &str) -> (out: String)
        ensures
            out@ == system_prompt_of(self.lookup(agent_name@), self.lookup(general_name())),
    {
        let cfg = match self.agents.get(agent_name) {
            Some(c) => Some(c),
            None => self.agents.get("general"),
        };
        match cfg {
            Some(c) => match &c.prompt {
                Some(p) => p.clone(),
                None => String::from_str("You are a helpful AI assistant."),
            },
            None => String::from_str("You are a helpful AI assistant."),
        }
    }

    /// The names of all agents, each once, in the order in which the
    /// registry took their definitions.
    pub fn list_agents(&self) -> (out: Vec<String>)
        requires
            self.wf(),
        ensures
            out.len() == self.defs().len(),
            forall|i: int| 0 <= i < out.len() ==> out[i]@ == (#[trigger] self.defs()[i]).0,
            forall|i: int, j: int| 0 <= i < j < out.len() ==> out[i]@ != out[j]@,
            forall|i: int| 0 <= i < out.len() ==> self.lookup(#[trigger] out[i]@) is Some,
            forall|name: Seq<char>|
                self.lookup(name) is Some ==> exists|i: int|
                    0 <= i < out.len() && #[trigger] out[i]@ == name,
    {
        let out = self.agents.names();
        proof {
            let defs = self.defs();
            assert forall|i: int| 0 <= i < out.len() implies self.lookup(
                #[trigger] out[i]@,
            ) is Some by {
                crate::layers::lemma_first_def_at(defs, i);
            }
            assert forall|name: Seq<char>| self.lookup(name) is Some implies exists|i: int|
                0 <= i < out.len() && #[trigger] out[i]@ == name by {
                crate::layers::lemma_first_def_found(defs, name);
                let i = choose|i: int| 0 <= i < defs.len() && (#[trigger] defs[i]).0 == name;
                assert(out[i]@ == name);
            }
        }
        out
    }

    /// What a listing shows of all agents: each agent once, the built-in
    /// agent first, the others in dictionary order of their names.
    pub fn list_agent_details(&self) -> (out: Vec<AgentInfo>)
        requires
            self.wf(),
        ensures
            out.len() == self.defs().len(),
            forall|i: int|
                0 <= i < out.len() ==> (self.lookup((#[trigger] out[i])@.name) matches Some(cfg)
                    && out[i]@ == info_of(out[i]@.name, cfg)),
            forall|i: int, j: int|
                0 <= i < j < out.len() ==> listed_before(#[trigger] out[i]@, #[trigger] out[j]@),
            forall|name: Seq<char>|
                self.lookup(name) is Some ==> exists|i: int|
                    0 <= i < out.len() && (#[trigger] out[i])@.name == name,
    {
        let entries = self.agents.entries();
        let ghost defs = self.defs();
        let mut first: Vec<AgentInfo> = Vec::new();
        let mut rest: Vec<(String, AgentInfo)> = Vec::new();
        let ghost mut src: Seq<int> = Seq::empty();
        let ghost mut gen: int = -1;
        let mut i: usize = 0;
        while i < entries.len()
            invariant
                i <= entries.len(),
                defs == defs_of(entries@),
                names_distinct(defs),
                src.len() == rest.len(),
                first.len() <= 1,
                first.len() + rest.len() == i,
                first.len() == 1 ==> 0 <= gen < i && defs[gen].0 == general_name() && first[0]@
                    == info_of(defs[gen].0, defs[gen].1),
                forall|k: int|
                    0 <= k < rest.len() ==> 0 <= #[trigger] src[k] < i && defs[src[k]].0
                        != general_name() && rest[k].0@ == defs[src[k]].0 && rest[k].1@ == info_of(
                        defs[src[k]].0,
                        defs[src[k]].1,
                    ),
                forall|k: int, m: int| 0 <= k < m < rest.len() ==> src[k] < src[m],
                forall|j: int|
                    0 <= j < i ==> if (#[trigger] defs[j]).0 == general_name() {
                        first.len() == 1 && gen == j
                    } else {
                        exists|k: int| 0 <= k < rest.len() && src[k] == j
                    },
            decreases entries.len() - i,
        {
            let name = entries[i].0.clone();
            let description = match &entries[i].1.prompt {
                Some(p) => extract_description(p.as_str()),
                None => String::from_str("Agent with file-based prompt"),
            };
            let is_builtin = same_text(name.as_str(), "general");
            let info = AgentInfo { name: name.clone(), description, is_builtin };
            assert(info@ == info_of(defs[i as int].0, defs[i as int].1));
            let ghost old_src = src;
            let ghost old_rest = rest@;
            if is_builtin {
                proof {
                    if first.len() == 1 {
                        assert(defs[gen].0 != defs[i as int].0);
                    }
                    gen = i as int;
                }
                first.push(info);
            } else {
                rest.push((name, info));
                proof {
                    src = src.push(i as int);
                    assert forall|j: int| 0 <= j < i + 1 && (#[trigger] defs[j]).0
                        != general_name() implies exists|k: int|
                        0 <= k < rest.len() && src[k] == j by {
                        if j < i {
                            let k = choose|k: int| 0 <= k < old_rest.len() && old_src[k] == j;
                            assert(src[k] == j);
                        } else {
                            assert(src[rest.len() - 1] == j);
                        }
                    }
                }
            }
            i += 1;
        }
        let ghost unsorted = rest@;
        proof {
            assert forall|a: int, b: int| 0 <= a < b < unsorted.len() implies unsorted[a].0@
                != unsorted[b].0@ by {
                assert(src[a] < src[b]);
            }
            crate::layers::lemma_first_def_found(defs, general_name());
        }
        let sorted = sort_by_name(rest);
        let ghost perm = choose|perm: Seq<int>| sorted_from(sorted@, unsorted, perm);
        proof {
            lemma_sorted_distinct(unsorted, sorted@, perm);
        }
        let mut out: Vec<AgentInfo> = Vec::new();
        match first.pop() {
            Some(info) => {
                out.push(info);
            },
            None => {},
        }
        let ghost all = sorted@;
        let ghost head = out@;
        assert(head.len() == 1);
        let it = sorted.into_iter();
        for pair in iter: it
            invariant
                iter.seq() == all,
                out.len() == 1 + iter.index(),
                out@[0] == head[0],
                forall|k: int| 0 <= k < iter.index() ==> out@[1 + k] == (#[trigger] all[k]).1,
        {
            out.push(pair.1);
        }
        proof {
            let names = names_of(all);
            assert forall|i: int| 0 <= i < out.len() implies (self.lookup(
                (#[trigger] out[i])@.name,
            ) matches Some(cfg) && out[i]@ == info_of(out[i]@.name, cfg)) by {
                if i == 0 {
                    crate::layers::lemma_first_def_at(defs, gen);
                } else {
                    let m = perm[i - 1];
                    assert(all[i - 1] == unsorted[m]);
                    crate::layers::lemma_first_def_at(defs, src[m]);
                }
            }
            assert forall|i: int, j: int| 0 <= i < j < out.len() implies listed_before(
                #[trigger] out[i]@,
                #[trigger] out[j]@,
            ) by {
                let mj = perm[j - 1];
                assert(all[j - 1] == unsorted[mj]);
                assert(out[j]@.name == defs[src[mj]].0);
                if i > 0 {
                    let mi = perm[i - 1];
                    assert(all[i - 1] == unsorted[mi]);
                    assert(out[i]@.name == defs[src[mi]].0);
                    assert(all[i - 1].0@ == defs[src[mi]].0);
                    assert(all[j - 1].0@ == defs[src[mj]].0);
                    assert(out[i]@.name == names[i - 1]);
                    assert(out[j]@.name == names[j - 1]);
                    assert(before(names[i - 1], names[j - 1]));
                }
            }
            assert forall|name: Seq<char>| self.lookup(name) is Some implies exists|i: int|
                0 <= i < out.len() && (#[trigger] out[i])@.name == name by {
                crate::layers::lemma_first_def_found(defs, name);
                let j = choose|j: int| 0 <= j < defs.len() && (#[trigger] defs[j]).0 == name;
                if name == general_name() {
                    assert(out[0]@.name == name);
                } else {
                    let k = choose|k: int| 0 <= k < unsorted.len() && src[k] == j;
                    assert(crate::layers::lists(perm, k));
                    let m = choose|m: int| 0 <= m < perm.len() && perm[m] == k;
                    assert(all[m] == unsorted[k]);
                    assert(out[1 + m]@.name == name);
                }
            }
        }
        out
    }

    /// The sandbox policy that the agent `name` asks for: none where the
    /// agent is unknown, where it asks for none, and where what it asks for
    /// is no policy.
    pub fn permissions_policy(&self, agent_name: &str) -> (r: Option<SandboxPolicy>)
        ensures
            r == match self.lookup(agent_name@) {
                Some(cfg) => match policy_choice(cfg.permissions) {
                    Ok(choice) => choice,
                    Err(_) => None,
                },
                None => None,
            },
    {
        match self.agents.get(agent_name) {
            Some(cfg) => match cfg.permissions_policy() {
                Ok(choice) => choice,
                Err(_) => None,
            },
            None => None,
        }
    }

    /// The model that the agent `name` asks for: none where the agent is
    /// unknown or asks for none.
    pub fn model_override(&self, agent_name: &str) -> (r: Option<String>)
        ensures
            text_of(r) == match self.lookup(agent_name@) {
                Some(cfg) => model_choice(cfg.model),
                None => None,
            },
    {
        match self.agents.get(agent_name) {
            Some(cfg) => cfg.model_override(),
            None => None,
        }
    }

    /// The reasoning effort that the agent `name` asks for: none where the
    /// agent is unknown or asks for none.
    pub fn reasoning_effort_override(&self, agent_name: &str) -> (r: Option<ReasoningEffort>)
        ensures
            r == match self.lookup(agent_name@) {
                Some(cfg) => cfg.reasoning_effort,
                None => None,
            },
    {
        match self.agents.get(agent_name) {
            Some(cfg) => cfg.reasoning_effort_override(),
            None => None,
        }
    }
}

/// Precedence: a name that the project defines resolves to the project's
/// definition, whatever the personal definitions say of it.
pub proof fn lemma_project_definition_wins(
    project: Seq<(Seq<char>, AgentConfigView)>,
    personal: Seq<(Seq<char>, AgentConfigView)>,
    name: Seq<char>,
)
    requires
        first_def(project, name) is Some,
    ensures
        resolve(project, personal, name) == first_def(project, name),
{
    let g = seq![(general_name(), builtin_agent())];
    lemma_first_def_layers(project + g, personal, name);
    lemma_first_def_layers(project, g, name);
}

/// Union: where the project and the personal definitions share no name,
/// and the personal ones leave the built-in agent's name alone, every
/// definition of either resolves, and nothing resolves but these and the
/// built-in agent.
pub proof fn lemma_disjoint_definitions_resolve(
    project: Seq<(Seq<char>, AgentConfigView)>,
    personal: Seq<(Seq<char>, AgentConfigView)>,
    name: Seq<char>,
)
    requires
        forall|n: Seq<char>| !(first_def(project, n) is Some && first_def(personal, n) is Some),
        first_def(personal, general_name()) is None,
    ensures
        first_def(project, name) is Some ==> resolve(project, personal, name) == first_def(
            project,
            name,
        ),
        first_def(personal, name) is Some ==> resolve(project, personal, name) == first_def(
            personal,
            name,
        ),
        resolve(project, personal, name) is Some ==> first_def(project, name) is Some || first_def(
            personal,
            name,
        ) is Some || name == general_name(),
{
    let g = seq![(general_name(), builtin_agent())];
    lemma_first_def_layers(project + g, personal, name);
    lemma_first_def_layers(project, g, name);
    assert(first_def(g.drop_first(), name) is None);
}

/// The built-in agent's name always resolves: to the project's definition
/// of it where there is one, and to the built-in agent otherwise, whatever
/// the personal definitions hold.
pub proof fn lemma_general_always_resolves(
    project: Seq<(Seq<char>, AgentConfigView)>,
    personal: Seq<(Seq<char>, AgentConfigView)>,
)
    ensures
        resolve(project, personal, general_name()) is Some,
        first_def(project, general_name()) is None ==> resolve(project, personal, general_name())
            == Some(builtin_agent()),
        resolve(Seq::empty(), Seq::empty(), general_name()) == Some(builtin_agent()),
{
    let g = seq![(general_name(), builtin_agent())];
    lemma_first_def_layers(project + g, personal, general_name());
    lemma_first_def_layers(project, g, general_name());
    let none = Seq::<(Seq<char>, AgentConfigView)>::empty();
    lemma_first_def_layers(none + g, none, general_name());
    lemma_first_def_layers(none, g, general_name());
}

/// The prompt for one task of an agent: the agent's system prompt, a blank
/// line, and the task.
pub fn execute_agent_task(agent_name: &str, task: String, registry: &AgentRegistry) -> (r: Result<
    String,
    AgentError,
>)
    ensures
        r matches Ok(text) && text@ == system_prompt_of(
            registry.lookup(agent_name@),
            registry.lookup(general_name()),
        ) + "\n\nTask: "@ + task@,
{
    let mut full = registry.get_system_prompt(agent_name);
    full.append("\n\nTask: ");
    full.append(task.as_str());
    Ok(full)
}

} // verus!
