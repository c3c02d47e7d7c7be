//! The metadata of a call context, and the mark that keeps an agent from
//! starting another agent.

use crate::layers::Layered;
use crate::registry::AgentRegistry;
use vstd::prelude::*;
use vstd::string::StringExecFns;

verus! {

/// The metadata of a call context: values under keys, one value per key.
pub struct Metadata {
    entries: Layered<String>,
}

impl View for Metadata {
    type V = Map<Seq<char>, Seq<char>>;

    closed spec fn view(&self) -> Map<Seq<char>, Seq<char>> {
        Map::new(
            |k: Seq<char>| self.entries.lookup(k) is Some,
            |k: Seq<char>| self.entries.lookup(k)->0,
        )
    }
}

impl Metadata {
    /// No key is held twice.
    pub closed spec fn wf(&self) -> bool {
        self.entries.wf()
    }

    /// Metadata that holds nothing.
    pub fn new() -> (out: Metadata)
        ensures
            out.wf(),
            out@ == Map::<Seq<char>, Seq<char>>::empty(),
    {
        let out = Metadata { entries: Layered::new() };
        assert(out@ =~= Map::<Seq<char>, Seq<char>>::empty());
        out
    }

    /// Puts `value` under `key`, in place of what stood there.
    pub fn insert(&mut self, key: String, value: String)
        requires
            old(self).wf(),
        ensures
            final(self).wf(),
            final(self)@ == old(self)@.insert(key@, value@),
    {
        self.entries.set(key, value);
        assert(self@ =~= old(self)@.insert(key@, value@));
    }

    /// The value under `key`.
    pub fn get(&self, key: &str) -> (r: Option<&String>)
        ensures
            match r {
                Some(v) => self@.contains_key(key@) && self@[key@] == v@,
                None => !self@.contains_key(key@),
            },
    {
        self.entries.get(key)
    }

    /// Whether a value stands under `key`.
    pub fn contains_key(&self, key: &str) -> (r: bool)
        ensures
            r == self@.contains_key(key@),
    {
        self.entries.contains(key)
    }
}

/// The key that marks the context of an agent.
pub open spec fn agent_marker() -> Seq<char> {
    "is_agent"@
}

/// Whether a context with this metadata may start an agent: it may unless
/// it is itself the context of an agent.
pub open spec fn may_spawn(metadata: Map<Seq<char>, Seq<char>>) -> bool {
    !metadata.contains_key(agent_marker())
}

/// A context that was marked may not start an agent, whatever it was
/// marked with and whatever its metadata held before.
pub proof fn lemma_marked_context_cannot_spawn(
    metadata: Map<Seq<char>, Seq<char>>,
    value: Seq<char>,
)
    ensures
        !may_spawn(metadata.insert(agent_marker(), value)),
{
}

/// Nothing that is put into the metadata of an agent's context lets it
/// start an agent again.
pub proof fn lemma_mark_is_permanent(
    metadata: Map<Seq<char>, Seq<char>>,
    key: Seq<char>,
    value: Seq<char>,
)
    requires
        !may_spawn(metadata),
    ensures
        !may_spawn(metadata.insert(key, value)),
{
}

impl AgentRegistry {
    /// Whether a context with this metadata may start an agent. The answer
    /// holds for the metadata as it is now, and is to be asked again for
    /// every context.
    pub fn can_spawn_agents(metadata: &Metadata) -> (r: bool)
        ensures
            r == may_spawn(metadata@),
    {
        !metadata.contains_key("is_agent")
    }

    /// Marks the context as that of an agent. From then on it may not
    /// start an agent.
    pub fn mark_as_agent_context(metadata: &mut Metadata)
        requires
            old(metadata).wf(),
        ensures
            final(metadata).wf(),
            final(metadata)@ == old(metadata)@.insert(agent_marker(), "true"@),
            !may_spawn(final(metadata)@),
    {
        metadata.insert(String::from_str("is_agent"), String::from_str("true"));
    }
}

} // verus!
