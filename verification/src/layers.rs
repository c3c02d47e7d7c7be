//! Named definitions in layers.
//!
//! A layer is a list of definitions, each under a name. Layers are laid one
//! over the other in order of rank, and a name resolves to the first
//! definition found for it: a higher layer wins, a lower one only fills
//! gaps. The same rule serves agents and prompt documents.

use crate::text::{
    before, comes_before, lemma_before_asymmetric, lemma_before_total, lemma_before_transitive,
    same_text,
};
use vstd::prelude::*;

verus! {

/// The first definition of `name` in `defs`, if there is one.
pub open spec fn first_def<V>(defs: Seq<(Seq<char>, V)>, name: Seq<char>) -> Option<V>
    decreases defs.len(),
{
    if defs.len() == 0 {
        None
    } else if defs[0].0 == name {
        Some(defs[0].1)
    } else {
        first_def(defs.drop_first(), name)
    }
}

/// Whether no name is defined twice.
pub open spec fn names_distinct<V>(defs: Seq<(Seq<char>, V)>) -> bool {
    forall|i: int, j: int| 0 <= i < j < defs.len() ==> defs[i].0 != defs[j].0
}

/// A list of named values as definitions: each name and value by its view.
pub open spec fn defs_of<T: View>(items: Seq<(String, T)>) -> Seq<(Seq<char>, T::V)> {
    Seq::new(items.len(), |i: int| (items[i].0@, items[i].1@))
}

/// The names of a list of named values, in order.
pub open spec fn names_of<T>(items: Seq<(String, T)>) -> Seq<Seq<char>> {
    Seq::new(items.len(), |i: int| items[i].0@)
}

/// Whether the names stand in dictionary order: none comes before one that
/// stands earlier.
pub open spec fn ordered(names: Seq<Seq<char>>) -> bool {
    forall|i: int, j: int| 0 <= i < j < names.len() ==> !before(names[j], names[i])
}

/// Whether the names stand in strict dictionary order: each comes before
/// all that follow, so that none occurs twice.
pub open spec fn strictly_ordered(names: Seq<Seq<char>>) -> bool {
    forall|i: int, j: int| 0 <= i < j < names.len() ==> before(names[i], names[j])
}

/// Whether `perm` lists the index `j`.
pub open spec fn lists(perm: Seq<int>, j: int) -> bool {
    exists|k: int| 0 <= k < perm.len() && #[trigger] perm[k] == j
}

/// Whether `perm` lists each of the indices `0..n` exactly once.
pub open spec fn is_rearrangement(perm: Seq<int>, n: nat) -> bool {
    &&& perm.len() == n
    &&& forall|k: int| 0 <= k < n ==> 0 <= #[trigger] perm[k] < n
    &&& forall|a: int, b: int| 0 <= a < b < n ==> perm[a] != perm[b]
    &&& forall|j: int| 0 <= j < n ==> #[trigger] lists(perm, j)
}

/// Whether `out` holds the items of `input` in the order that `perm` gives:
/// the item at `k` is the one that stood at `perm[k]`.
pub open spec fn rearranged<A>(out: Seq<A>, input: Seq<A>, perm: Seq<int>) -> bool {
    &&& is_rearrangement(perm, input.len())
    &&& out.len() == input.len()
    &&& forall|k: int| 0 <= k < out.len() ==> out[k] == input[#[trigger] perm[k]]
}

/// Whether `perm` leaves items of the same name in the order in which they
/// stood.
pub open spec fn keeps_ties(names: Seq<Seq<char>>, perm: Seq<int>) -> bool {
    forall|a: int, b: int|
        0 <= a < b < perm.len() && names[perm[a]] == names[perm[b]] ==> perm[a] < perm[b]
}

/// Whether `out` is `input` sorted by name: the same items, in dictionary
/// order of their names, those of one name in the order in which they
/// stood. `perm` says where each item came from.
pub open spec fn sorted_from<T>(
    out: Seq<(String, T)>,
    input: Seq<(String, T)>,
    perm: Seq<int>,
) -> bool {
    &&& rearranged(out, input, perm)
    &&& keeps_ties(names_of(input), perm)
    &&& ordered(names_of(out))
}

/// A name whose first occurrence is at `i` resolves to the value at `i`.
pub proof fn lemma_first_def_at<V>(defs: Seq<(Seq<char>, V)>, i: int)
    requires
        0 <= i < defs.len(),
        forall|j: int| 0 <= j < i ==> defs[j].0 != defs[i].0,
    ensures
        first_def(defs, defs[i].0) == Some(defs[i].1),
    decreases defs.len(),
{
    if i > 0 {
        let rest = defs.drop_first();
        assert(defs[0].0 != defs[i].0);
        assert(rest[i - 1] == defs[i]);
        assert forall|j: int| 0 <= j < i - 1 implies (#[trigger] rest[j]).0 != rest[i - 1].0 by {
            assert(rest[j] == defs[j + 1]);
        }
        lemma_first_def_at(rest, i - 1);
    }
}

/// A name that occurs nowhere resolves to nothing.
pub proof fn lemma_first_def_absent<V>(defs: Seq<(Seq<char>, V)>, name: Seq<char>)
    requires
        forall|j: int| 0 <= j < defs.len() ==> defs[j].0 != name,
    ensures
        first_def(defs, name) is None,
    decreases defs.len(),
{
    if defs.len() > 0 {
        let rest = defs.drop_first();
        assert(defs[0].0 != name);
        assert forall|j: int| 0 <= j < rest.len() implies (#[trigger] rest[j]).0 != name by {
            assert(rest[j] == defs[j + 1]);
        }
        lemma_first_def_absent(rest, name);
    }
}

/// A name resolves exactly when it occurs, and then to a value that stands
/// under it.
pub proof fn lemma_first_def_found<V>(defs: Seq<(Seq<char>, V)>, name: Seq<char>)
    ensures
        first_def(defs, name) is Some <==> exists|i: int|
            0 <= i < defs.len() && (#[trigger] defs[i]).0 == name,
        first_def(defs, name) is Some ==> exists|i: int|
            0 <= i < defs.len() && #[trigger] defs[i] == (name, first_def(defs, name)->0),
    decreases defs.len(),
{
    if defs.len() > 0 {
        if defs[0].0 == name {
            assert(defs[0] == (name, first_def(defs, name)->0));
        } else {
            let rest = defs.drop_first();
            lemma_first_def_found(rest, name);
            if first_def(rest, name) is Some {
                let i = choose|i: int|
                    0 <= i < rest.len() && #[trigger] rest[i] == (name, first_def(rest, name)->0);
                assert(defs[i + 1] == rest[i]);
            }
            if exists|i: int| 0 <= i < defs.len() && (#[trigger] defs[i]).0 == name {
                let i = choose|i: int| 0 <= i < defs.len() && (#[trigger] defs[i]).0 == name;
                assert(rest[i - 1] == defs[i]);
            }
        }
    }
}

/// Replacing the value of the first definition of a name changes what
/// that name resolves to, and nothing else.
pub proof fn lemma_first_def_replaced<V>(
    defs: Seq<(Seq<char>, V)>,
    i: int,
    value: V,
    name: Seq<char>,
)
    requires
        0 <= i < defs.len(),
        forall|j: int| 0 <= j < i ==> (#[trigger] defs[j]).0 != defs[i].0,
    ensures
        first_def(defs.update(i, (defs[i].0, value)), name) == if name == defs[i].0 {
            Some(value)
        } else {
            first_def(defs, name)
        },
    decreases defs.len(),
{
    let changed = defs.update(i, (defs[i].0, value));
    if i > 0 {
        let rest = defs.drop_first();
        assert(rest[i - 1] == defs[i]);
        assert forall|j: int| 0 <= j < i - 1 implies (#[trigger] rest[j]).0 != rest[i - 1].0 by {
            assert(rest[j] == defs[j + 1]);
        }
        lemma_first_def_replaced(rest, i - 1, value, name);
        assert(changed.drop_first() =~= rest.update(i - 1, (rest[i - 1].0, value)));
        assert(changed[0] == defs[0]);
        assert(defs[0].0 != defs[i].0);
    } else {
        assert(changed.drop_first() =~= defs.drop_first());
    }
}

/// The definitions `defs` with `name` defined as `value`: in place of its
/// first definition where it has one, at the end where it has none.
pub open spec fn with_def<V>(defs: Seq<(Seq<char>, V)>, name: Seq<char>, value: V) -> Seq<
    (Seq<char>, V),
>
    decreases defs.len(),
{
    if defs.len() == 0 {
        seq![(name, value)]
    } else if defs[0].0 == name {
        seq![(name, value)] + defs.drop_first()
    } else {
        seq![defs[0]] + with_def(defs.drop_first(), name, value)
    }
}

/// The definitions `held` with `layer` laid under them: each definition of
/// the layer is added, in order, unless its name is defined by then.
pub open spec fn laid_under<V>(held: Seq<(Seq<char>, V)>, layer: Seq<(Seq<char>, V)>) -> Seq<
    (Seq<char>, V),
>
    decreases layer.len(),
{
    if layer.len() == 0 {
        held
    } else if first_def(held, layer[0].0) is None {
        laid_under(held.push(layer[0]), layer.drop_first())
    } else {
        laid_under(held, layer.drop_first())
    }
}

/// `with_def` replaces at the first occurrence of the name.
pub proof fn lemma_with_def_replaces<V>(
    defs: Seq<(Seq<char>, V)>,
    i: int,
    name: Seq<char>,
    value: V,
)
    requires
        0 <= i < defs.len(),
        defs[i].0 == name,
        forall|j: int| 0 <= j < i ==> (#[trigger] defs[j]).0 != name,
    ensures
        with_def(defs, name, value) == defs.update(i, (name, value)),
    decreases defs.len(),
{
    if i == 0 {
        assert(seq![(name, value)] + defs.drop_first() =~= defs.update(0, (name, value)));
    } else {
        let rest = defs.drop_first();
        assert(defs[0].0 != name);
        assert(rest[i - 1] == defs[i]);
        assert forall|j: int| 0 <= j < i - 1 implies (#[trigger] rest[j]).0 != name by {
            assert(rest[j] == defs[j + 1]);
        }
        lemma_with_def_replaces(rest, i - 1, name, value);
        assert(seq![defs[0]] + rest.update(i - 1, (name, value)) =~= defs.update(
            i,
            (name, value),
        ));
    }
}

/// `with_def` appends where the name does not occur.
pub proof fn lemma_with_def_appends<V>(defs: Seq<(Seq<char>, V)>, name: Seq<char>, value: V)
    requires
        forall|j: int| 0 <= j < defs.len() ==> (#[trigger] defs[j]).0 != name,
    ensures
        with_def(defs, name, value) == defs.push((name, value)),
    decreases defs.len(),
{
    if defs.len() == 0 {
        assert(seq![(name, value)] =~= defs.push((name, value)));
    } else {
        let rest = defs.drop_first();
        assert(defs[0].0 != name);
        assert forall|j: int| 0 <= j < rest.len() implies (#[trigger] rest[j]).0 != name by {
            assert(rest[j] == defs[j + 1]);
        }
        lemma_with_def_appends(rest, name, value);
        assert(seq![defs[0]] + rest.push((name, value)) =~= defs.push((name, value)));
    }
}

/// Over two layers a name resolves in the upper one where it is defined
/// there, and in the lower one where it is not.
pub proof fn lemma_first_def_layers<V>(
    upper: Seq<(Seq<char>, V)>,
    lower: Seq<(Seq<char>, V)>,
    name: Seq<char>,
)
    ensures
        first_def(upper + lower, name) == match first_def(upper, name) {
            Some(v) => Some(v),
            None => first_def(lower, name),
        },
    decreases upper.len(),
{
    if upper.len() == 0 {
        assert(upper + lower =~= lower);
    } else {
        assert((upper + lower)[0] == upper[0]);
        assert((upper + lower).drop_first() =~= upper.drop_first() + lower);
        lemma_first_def_layers(upper.drop_first(), lower, name);
    }
}

/// Precedence: a name that the upper layer defines resolves to the upper
/// definition, whatever the lower layer says of it.
pub proof fn lemma_upper_layer_wins<V>(
    upper: Seq<(Seq<char>, V)>,
    lower: Seq<(Seq<char>, V)>,
    name: Seq<char>,
)
    requires
        first_def(upper, name) is Some,
    ensures
        first_def(upper + lower, name) == first_def(upper, name),
{
    lemma_first_def_layers(upper, lower, name);
}

/// Union: where two layers define no name in common, every definition of
/// either resolves over both.
pub proof fn lemma_disjoint_layers_union<V>(
    upper: Seq<(Seq<char>, V)>,
    lower: Seq<(Seq<char>, V)>,
    name: Seq<char>,
)
    requires
        forall|n: Seq<char>|
            !(first_def(upper, n) is Some && first_def(lower, n) is Some),
    ensures
        first_def(upper, name) is Some ==> first_def(upper + lower, name) == first_def(
            upper,
            name,
        ),
        first_def(lower, name) is Some ==> first_def(upper + lower, name) == first_def(
            lower,
            name,
        ),
        first_def(upper + lower, name) is Some ==> first_def(upper, name) is Some || first_def(
            lower,
            name,
        ) is Some,
{
    lemma_first_def_layers(upper, lower, name);
}

/// Named values of which no two share a name, built up layer by layer: what
/// is there stays, and a new definition is taken only for a name not yet
/// defined.
pub struct Layered<T> {
    entries: Vec<(String, T)>,
}

impl<T: View> Layered<T> {
    /// The definitions held, in the order in which they were taken.
    pub closed spec fn defs(&self) -> Seq<(Seq<char>, T::V)> {
        defs_of(self.entries@)
    }

    /// No name is defined twice.
    pub open spec fn wf(&self) -> bool {
        names_distinct(self.defs())
    }

    /// What `name` resolves to.
    pub open spec fn lookup(&self, name: Seq<char>) -> Option<T::V> {
        first_def(self.defs(), name)
    }

    /// Nothing defined.
    pub fn new() -> (out: Self)
        ensures
            out.wf(),
            out.defs() == Seq::<(Seq<char>, T::V)>::empty(),
    {
        let out = Layered { entries: Vec::new() };
        assert(out.defs() =~= Seq::<(Seq<char>, T::V)>::empty());
        out
    }

    /// The number of names defined.
    pub fn len(&self) -> (n: usize)
        ensures
            n == self.defs().len(),
    {
        self.entries.len()
    }

    /// The value defined under `name`.
    pub fn get(&self, name: &str) -> (r: Option<&T>)
        ensures
            match r {
                Some(v) => self.lookup(name@) == Some(v@),
                None => self.lookup(name@) is None,
            },
    {
        match find_name(&self.entries, name) {
            Some(i) => {
                proof {
                    lemma_first_def_at(self.defs(), i as int);
                }
                Some(&self.entries[i].1)
            },
            None => {
                proof {
                    lemma_first_def_absent(self.defs(), name@);
                }
                None
            },
        }
    }

    /// Whether `name` is defined.
    pub fn contains(&self, name: &str) -> (r: bool)
        ensures
            r == self.lookup(name@) is Some,
    {
        self.get(name).is_some()
    }

    /// Takes the definition unless the name is defined already, and says
    /// whether it was taken.
    pub fn add(&mut self, name: String, value: T) -> (added: bool)
        requires
            old(self).wf(),
        ensures
            final(self).wf(),
            added == (old(self).lookup(name@) is None),
            final(self).defs() == if added {
                old(self).defs().push((name@, value@))
            } else {
                old(self).defs()
            },
            forall|k: Seq<char>|
                #[trigger] final(self).lookup(k) == match old(self).lookup(k) {
                    Some(v) => Some(v),
                    None => if k == name@ {
                        Some(value@)
                    } else {
                        None
                    },
                },
    {
        let ghost before_defs = self.defs();
        match find_name(&self.entries, name.as_str()) {
            Some(i) => {
                proof {
                    lemma_first_def_at(self.defs(), i as int);
                }
                false
            },
            None => {
                proof {
                    lemma_first_def_absent(self.defs(), name@);
                }
                self.entries.push((name, value));
                proof {
                    let one = seq![(name@, value@)];
                    assert(self.defs() =~= before_defs.push((name@, value@)));
                    assert(self.defs() =~= before_defs + one);
                    assert forall|k: Seq<char>|
                        #[trigger] first_def(self.defs(), k) == match first_def(before_defs, k) {
                            Some(v) => Some(v),
                            None => if k == name@ {
                                Some(value@)
                            } else {
                                None
                            },
                        } by {
                        lemma_first_def_layers(before_defs, one, k);
                        assert(first_def(one.drop_first(), k) is None);
                    }
                }
                true
            },
        }
    }

    /// Defines `name` as `value`, in place of what it was defined as
    /// before, if anything.
    pub fn set(&mut self, name: String, value: T)
        requires
            old(self).wf(),
        ensures
            final(self).wf(),
            final(self).defs() == with_def(old(self).defs(), name@, value@),
            forall|k: Seq<char>|
                #[trigger] final(self).lookup(k) == if k == name@ {
                    Some(value@)
                } else {
                    old(self).lookup(k)
                },
    {
        let ghost before_defs = self.defs();
        match find_name(&self.entries, name.as_str()) {
            Some(i) => {
                self.entries.set(i, (name, value));
                proof {
                    assert(self.defs() =~= before_defs.update(i as int, (name@, value@)));
                    lemma_with_def_replaces(before_defs, i as int, name@, value@);
                    assert forall|k: Seq<char>|
                        #[trigger] first_def(self.defs(), k) == if k == name@ {
                            Some(value@)
                        } else {
                            first_def(before_defs, k)
                        } by {
                        lemma_first_def_replaced(before_defs, i as int, value@, k);
                    }
                }
            },
            None => {
                proof {
                    lemma_first_def_absent(self.defs(), name@);
                    lemma_with_def_appends(before_defs, name@, value@);
                }
                self.add(name, value);
            },
        }
    }

    /// Lays `layer` under what is there: each of its definitions is taken
    /// for a name that nothing above defines, the first one where the layer
    /// itself names it twice.
    pub fn add_layer(&mut self, layer: Vec<(String, T)>)
        requires
            old(self).wf(),
        ensures
            final(self).wf(),
            final(self).defs() == laid_under(old(self).defs(), defs_of(layer@)),
            forall|k: Seq<char>|
                #[trigger] final(self).lookup(k) == match old(self).lookup(k) {
                    Some(v) => Some(v),
                    None => first_def(defs_of(layer@), k),
                },
    {
        let ghost start = *self;
        let ghost all = layer@;
        assert(defs_of(all.take(0)) =~= Seq::<(Seq<char>, T::V)>::empty());
        assert(all.skip(0) =~= all);
        let it = layer.into_iter();
        for item in iter: it
            invariant
                iter.seq() == all,
                self.wf(),
                laid_under(self.defs(), defs_of(all.skip(iter.index()))) == laid_under(
                    start.defs(),
                    defs_of(all),
                ),
                forall|k: Seq<char>|
                    #[trigger] self.lookup(k) == match start.lookup(k) {
                        Some(v) => Some(v),
                        None => first_def(defs_of(all.take(iter.index())), k),
                    },
        {
            let ghost i = iter.index();
            let ghost held = *self;
            let ghost pair = (item.0@, item.1@);
            proof {
                let left = defs_of(all.skip(i));
                assert(left[0] == pair);
                assert(left.drop_first() =~= defs_of(all.skip(i + 1)));
            }
            self.add(item.0, item.1);
            proof {
                let done = defs_of(all.take(i));
                let one = seq![pair];
                assert(defs_of(all.take(i + 1)) =~= done + one);
                assert forall|k: Seq<char>|
                    #[trigger] self.lookup(k) == match start.lookup(k) {
                        Some(v) => Some(v),
                        None => first_def(defs_of(all.take(i + 1)), k),
                    } by {
                    lemma_first_def_layers(done, one, k);
                    assert(first_def(one.drop_first(), k) is None);
                    assert(held.lookup(k) == match start.lookup(k) {
                        Some(v) => Some(v),
                        None => first_def(done, k),
                    });
                }
            }
        }
        assert(all.take(all.len() as int) =~= all);
        assert(defs_of(all.skip(all.len() as int)) =~= Seq::<(Seq<char>, T::V)>::empty());
    }

    /// The names defined, in the order of `defs`.
    pub fn names(&self) -> (out: Vec<String>)
        ensures
            out.len() == self.defs().len(),
            forall|i: int| 0 <= i < out.len() ==> out[i]@ == self.defs()[i].0,
    {
        let mut out: Vec<String> = Vec::new();
        let mut i: usize = 0;
        while i < self.entries.len()
            invariant
                i <= self.entries.len(),
                out.len() == i,
                forall|j: int| 0 <= j < i ==> out[j]@ == self.entries[j].0@,
            decreases self.entries.len() - i,
        {
            out.push(self.entries[i].0.clone());
            i += 1;
        }
        out
    }

    /// The named values held, in the order of `defs`.
    pub fn entries(&self) -> (out: &Vec<(String, T)>)
        ensures
            defs_of(out@) == self.defs(),
    {
        &self.entries
    }

    /// Gives up the named values held, in the order of `defs`.
    pub fn into_entries(self) -> (out: Vec<(String, T)>)
        ensures
            defs_of(out@) == self.defs(),
    {
        self.entries
    }
}

/// "Does not come after" is transitive.
pub proof fn lemma_not_after_transitive(a: Seq<char>, b: Seq<char>, c: Seq<char>)
    requires
        !before(b, a),
        !before(c, b),
    ensures
        !before(c, a),
{
    lemma_before_total(a, b);
    if before(c, a) {
        if before(a, b) {
            lemma_before_transitive(c, a, b);
        }
    }
}

/// Names in strict order are distinct.
pub proof fn lemma_strictly_ordered_distinct(names: Seq<Seq<char>>)
    requires
        strictly_ordered(names),
    ensures
        forall|i: int, j: int| 0 <= i < j < names.len() ==> names[i] != names[j],
{
    assert forall|i: int, j: int| 0 <= i < j < names.len() implies names[i] != names[j] by {
        crate::text::lemma_before_irreflexive(names[i]);
    }
}

/// Sorting items of distinct names leaves them in strict order.
pub proof fn lemma_sorted_distinct<T>(
    input: Seq<(String, T)>,
    output: Seq<(String, T)>,
    perm: Seq<int>,
)
    requires
        forall|i: int, j: int| 0 <= i < j < input.len() ==> input[i].0@ != input[j].0@,
        sorted_from(output, input, perm),
    ensures
        strictly_ordered(names_of(output)),
{
    let names = names_of(output);
    assert forall|i: int, j: int| 0 <= i < j < names.len() implies before(names[i], names[j]) by {
        lemma_before_total(names[i], names[j]);
        let a = perm[i];
        let b = perm[j];
        assert(output[i] == input[a]);
        assert(output[j] == input[b]);
        if a < b {
            assert(input[a].0@ != input[b].0@);
        } else {
            assert(input[b].0@ != input[a].0@);
        }
    }
}

/// The index of the first item under `name`.
pub fn find_name<T>(items: &Vec<(String, T)>, name: &str) -> (r: Option<usize>)
    ensures
        match r {
            Some(i) => i < items.len() && items[i as int].0@ == name@ && forall|j: int|
                0 <= j < i ==> items[j].0@ != name@,
            None => forall|j: int| 0 <= j < items.len() ==> items[j].0@ != name@,
        },
{
    let mut i: usize = 0;
    while i < items.len()
        invariant
            i <= items.len(),
            forall|j: int| 0 <= j < i ==> items[j].0@ != name@,
        decreases items.len() - i,
    {
        if same_text(items[i].0.as_str(), name) {
            return Some(i);
        }
        i += 1;
    }
    None
}

/// The items in dictionary order of their names. Nothing is added or lost,
/// and items of the same name keep the order in which they came.
pub fn sort_by_name<T>(items: Vec<(String, T)>) -> (out: Vec<(String, T)>)
    ensures
        out.len() == items.len(),
        exists|perm: Seq<int>| sorted_from(out@, items@, perm),
{
    let mut out: Vec<(String, T)> = Vec::new();
    let ghost all = items@;
    let ghost mut perm: Seq<int> = Seq::empty();
    let it = items.into_iter();
    for item in iter: it
        invariant
            iter.seq() == all,
            out.len() == iter.index(),
            perm.len() == iter.index(),
            forall|m: int| 0 <= m < perm.len() ==> 0 <= #[trigger] perm[m] < iter.index(),
            forall|a: int, b: int| 0 <= a < b < perm.len() ==> perm[a] != perm[b],
            forall|j: int| 0 <= j < iter.index() ==> #[trigger] lists(perm, j),
            forall|m: int| 0 <= m < out.len() ==> out@[m] == all[#[trigger] perm[m]],
            keeps_ties(names_of(all), perm),
            ordered(names_of(out@)),
    {
        let ghost k = iter.index();
        let mut pos: usize = out.len();
        while pos > 0 && comes_before(item.0.as_str(), out[pos - 1].0.as_str())
            invariant
                pos <= out.len(),
                forall|j: int| pos <= j < out.len() ==> before(item.0@, out@[j].0@),
            decreases pos,
        {
            pos -= 1;
        }
        let ghost prev = out@;
        let ghost old_perm = perm;
        out.insert(pos, item);
        proof {
            perm = old_perm.insert(pos as int, k);
            let names = names_of(out@);
            let old_names = names_of(prev);
            let source = names_of(all);
            assert forall|i: int, j: int| 0 <= i < j < names.len() implies !before(
                names[j],
                names[i],
            ) by {
                if j == pos {
                    assert(names[i] == old_names[i]);
                    if pos > 0 {
                        assert(!before(item.0@, old_names[pos - 1]));
                        if i < pos - 1 {
                            assert(!before(old_names[pos - 1], old_names[i]));
                            lemma_not_after_transitive(old_names[i], old_names[pos - 1], item.0@);
                        }
                    }
                } else if i == pos {
                    assert(names[j] == old_names[j - 1]);
                    assert(before(item.0@, prev[j - 1].0@));
                    lemma_before_asymmetric(item.0@, names[j]);
                } else {
                    let oi = if i < pos { i } else { i - 1 };
                    let oj = if j < pos { j } else { j - 1 };
                    assert(names[i] == old_names[oi]);
                    assert(names[j] == old_names[oj]);
                }
            }
            assert forall|j: int| 0 <= j < k + 1 implies #[trigger] lists(perm, j) by {
                if j < k {
                    assert(lists(old_perm, j));
                    let m = choose|m: int| 0 <= m < old_perm.len() && old_perm[m] == j;
                    if m < pos {
                        assert(perm[m] == j);
                    } else {
                        assert(perm[m + 1] == j);
                    }
                } else {
                    assert(perm[pos as int] == j);
                }
            }
            assert forall|a: int, b: int|
                0 <= a < b < perm.len() && source[perm[a]] == source[perm[b]] implies perm[a]
                < perm[b] by {
                if a == pos {
                    assert(perm[b] == old_perm[b - 1]);
                    assert(prev[b - 1] == all[old_perm[b - 1]]);
                    assert(before(item.0@, prev[b - 1].0@));
                    crate::text::lemma_before_irreflexive(item.0@);
                } else if b == pos {
                } else {
                    let oa = if a < pos { a } else { a - 1 };
                    let ob = if b < pos { b } else { b - 1 };
                    assert(perm[a] == old_perm[oa]);
                    assert(perm[b] == old_perm[ob]);
                }
            }
            assert forall|a: int, b: int| 0 <= a < b < perm.len() implies perm[a] != perm[b] by {
                let oa = if a < pos { a } else { a - 1 };
                let ob = if b < pos { b } else { b - 1 };
                if a != pos && b != pos {
                    assert(perm[a] == old_perm[oa]);
                    assert(perm[b] == old_perm[ob]);
                } else if a == pos {
                    assert(perm[b] == old_perm[ob]);
                } else {
                    assert(perm[a] == old_perm[oa]);
                }
            }
            assert forall|m: int| 0 <= m < out.len() implies out@[m] == all[#[trigger] perm[m]] by {
                if m < pos {
                    assert(perm[m] == old_perm[m]);
                } else if m > pos {
                    assert(perm[m] == old_perm[m - 1]);
                }
            }
            assert forall|m: int| 0 <= m < perm.len() implies 0 <= #[trigger] perm[m] < k + 1 by {
                if m < pos {
                    assert(perm[m] == old_perm[m]);
                } else if m > pos {
                    assert(perm[m] == old_perm[m - 1]);
                }
            }
        }
    }
    proof {
        assert(sorted_from(out@, all, perm));
    }
    out
}

/// The values of a list of named values, in order.
pub fn values_of<T>(items: Vec<(String, T)>) -> (out: Vec<T>)
    ensures
        out.len() == items.len(),
        forall|k: int| 0 <= k < out.len() ==> out@[k] == (#[trigger] items@[k]).1,
{
    let mut out: Vec<T> = Vec::new();
    let ghost all = items@;
    let it = items.into_iter();
    for pair in iter: it
        invariant
            iter.seq() == all,
            out.len() == iter.index(),
            forall|k: int| 0 <= k < out.len() ==> out@[k] == (#[trigger] all[k]).1,
    {
        out.push(pair.1);
    }
    out
}

} // verus!
