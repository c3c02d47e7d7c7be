//! The state of a popup that suggests agents: which agents a query lets
//! through, in which order, and which row is selected.
//!
//! Drawing is left to the caller; what is drawn is decided here.

use crate::layers::{
    keeps_ties, names_of, ordered, rearranged, sort_by_name, sorted_from, values_of,
};
use crate::registry::{AgentInfo, AgentInfoView};
use crate::text::{
    contains_char, contains_run, has_prefix, leading, lemma_leading_unique, lowercase_of,
    occurs_in, starts_with, to_chars, from_chars, to_lowercase,
};
use vstd::prelude::*;
use vstd::slice::slice_index_get;

verus! {

/// The largest number of rows that the popup shows at once.
pub const MAX_POPUP_ROWS: usize = 8;

// ---------------------------------------------------------------------
// Selection and scrolling
// ---------------------------------------------------------------------

/// Which row of a list is selected, and which row is the first in view.
#[derive(Debug, Clone, Copy, PartialEq, Eq, Structural)]
pub struct ScrollState {
    /// The index of the selected row.
    pub selected_idx: Option<usize>,
    /// The index of the first row in view.
    pub scroll_top: usize,
}

/// The state with its selection held to a list of `len` rows: none for an
/// empty list, else the selected row or the last one where the selection
/// lay beyond it, and the first row where nothing was selected.
pub open spec fn clamped(state: ScrollState, len: usize) -> ScrollState {
    if len == 0 {
        ScrollState { selected_idx: None, scroll_top: 0 }
    } else {
        let wanted = match state.selected_idx {
            Some(i) => i,
            None => 0,
        };
        ScrollState {
            selected_idx: Some(
                if wanted < len {
                    wanted
                } else {
                    (len - 1) as usize
                },
            ),
            scroll_top: state.scroll_top,
        }
    }
}

/// The state after the selection moved up by one row, from the first row
/// round to the last.
pub open spec fn moved_up(state: ScrollState, len: usize) -> ScrollState {
    if len == 0 {
        ScrollState { selected_idx: None, scroll_top: 0 }
    } else {
        ScrollState {
            selected_idx: Some(
                match state.selected_idx {
                    Some(i) => if i > 0 {
                        (i - 1) as usize
                    } else {
                        (len - 1) as usize
                    },
                    None => 0,
                },
            ),
            scroll_top: state.scroll_top,
        }
    }
}

/// The state after the selection moved down by one row, from the last row
/// round to the first.
pub open spec fn moved_down(state: ScrollState, len: usize) -> ScrollState {
    if len == 0 {
        ScrollState { selected_idx: None, scroll_top: 0 }
    } else {
        ScrollState {
            selected_idx: Some(
                match state.selected_idx {
                    Some(i) => if i + 1 < len {
                        (i + 1) as usize
                    } else {
                        0
                    },
                    None => 0,
                },
            ),
            scroll_top: state.scroll_top,
        }
    }
}

/// The state scrolled as little as brings the selected row into a view of
/// `visible_rows` rows.
pub open spec fn brought_into_view(state: ScrollState, len: usize, visible_rows: usize) -> ScrollState {
    if len == 0 || visible_rows == 0 {
        ScrollState { scroll_top: 0, ..state }
    } else {
        match state.selected_idx {
            Some(sel) => if sel < state.scroll_top {
                ScrollState { scroll_top: sel, ..state }
            } else if sel - state.scroll_top >= visible_rows {
                ScrollState { scroll_top: (sel + 1 - visible_rows) as usize, ..state }
            } else {
                state
            },
            None => ScrollState { scroll_top: 0, ..state },
        }
    }
}

/// Whether the selected row, if there is one, is a row of the list and
/// lies in a view of `visible_rows` rows.
pub open spec fn selection_in_view(state: ScrollState, len: usize, visible_rows: usize) -> bool {
    match state.selected_idx {
        Some(sel) => sel < len && state.scroll_top <= sel && sel - state.scroll_top < visible_rows,
        None => len == 0,
    }
}

/// The number of rows in view of a list of `len` rows.
pub open spec fn rows_in_view(len: usize) -> usize {
    if len < MAX_POPUP_ROWS {
        len
    } else {
        MAX_POPUP_ROWS
    }
}

/// Clamping, and moving either way, selects a row of the list, and
/// bringing it into view leaves it within the rows shown.
pub proof fn lemma_selection_stays_in_view(state: ScrollState, len: usize)
    ensures
        selection_in_view(
            brought_into_view(clamped(state, len), len, rows_in_view(len)),
            len,
            rows_in_view(len),
        ),
        selection_in_view(
            brought_into_view(moved_up(clamped(state, len), len), len, rows_in_view(len)),
            len,
            rows_in_view(len),
        ),
        selection_in_view(
            brought_into_view(moved_down(clamped(state, len), len), len, rows_in_view(len)),
            len,
            rows_in_view(len),
        ),
{
}

impl ScrollState {
    /// Nothing selected, the view at the top.
    pub fn new() -> (out: ScrollState)
        ensures
            out == (ScrollState { selected_idx: None, scroll_top: 0 }),
    {
        ScrollState { selected_idx: None, scroll_top: 0 }
    }

    /// Holds the selection to a list of `len` rows.
    pub fn clamp_selection(&mut self, len: usize)
        ensures
            *final(self) == clamped(*old(self), len),
    {
        if len == 0 {
            self.selected_idx = None;
            self.scroll_top = 0;
        } else {
            let wanted = match self.selected_idx {
                Some(i) => i,
                None => 0,
            };
            self.selected_idx = Some(
                if wanted < len {
                    wanted
                } else {
                    len - 1
                },
            );
        }
    }

    /// Moves the selection up by one row, from the first row round to the
    /// last.
    pub fn move_up_wrap(&mut self, len: usize)
        ensures
            *final(self) == moved_up(*old(self), len),
    {
        if len == 0 {
            self.selected_idx = None;
            self.scroll_top = 0;
            return;
        }
        self.selected_idx = Some(
            match self.selected_idx {
                Some(i) => if i > 0 {
                    i - 1
                } else {
                    len - 1
                },
                None => 0,
            },
        );
    }

    /// Moves the selection down by one row, from the last row round to the
    /// first.
    pub fn move_down_wrap(&mut self, len: usize)
        ensures
            *final(self) == moved_down(*old(self), len),
    {
        if len == 0 {
            self.selected_idx = None;
            self.scroll_top = 0;
            return;
        }
        self.selected_idx = Some(
            match self.selected_idx {
                Some(i) => if i < len - 1 {
                    i + 1
                } else {
                    0
                },
                None => 0,
            },
        );
    }

    /// Scrolls as little as brings the selected row into a view of
    /// `visible_rows` rows.
    pub fn ensure_visible(&mut self, len: usize, visible_rows: usize)
        ensures
            *final(self) == brought_into_view(*old(self), len, visible_rows),
    {
        if len == 0 || visible_rows == 0 {
            self.scroll_top = 0;
            return;
        }
        match self.selected_idx {
            Some(sel) => {
                if sel < self.scroll_top {
                    self.scroll_top = sel;
                } else if sel - self.scroll_top >= visible_rows {
                    self.scroll_top = sel - (visible_rows - 1);
                }
            },
            None => {
                self.scroll_top = 0;
            },
        }
    }
}

// ---------------------------------------------------------------------
// Queries
// ---------------------------------------------------------------------

/// The predicate "is a colon or a blank".
pub open spec fn colon_or_blank() -> spec_fn(char) -> bool {
    |c: char| c == ':' || c == ' '
}

/// What a query filters by, given the query in lower case: nothing where
/// the query is not led by the word `agent`, or holds nothing more than the
/// word and colons and blanks after it; else what follows these.
pub open spec fn needle_of(query_lower: Seq<char>) -> Option<Seq<char>> {
    if starts_with(query_lower, "agent"@) {
        let rest = query_lower.skip("agent"@.len() as int);
        let needle = rest.skip(leading(rest, colon_or_blank()) as int);
        if needle.len() == 0 {
            None
        } else {
            Some(needle)
        }
    } else {
        None
    }
}

/// The positions in `name_lower` of the characters that `query_lower`
/// holds, in rising order.
pub open spec fn positions_held(name_lower: Seq<char>, query_lower: Seq<char>) -> Seq<usize>
    decreases name_lower.len(),
{
    if name_lower.len() == 0 {
        Seq::empty()
    } else {
        let front = positions_held(name_lower.drop_last(), query_lower);
        if query_lower.contains(name_lower.last()) {
            front.push((name_lower.len() - 1) as usize)
        } else {
            front
        }
    }
}

/// What is highlighted of a name, given the name and the query in lower
/// case: the positions of the characters that the query holds, and nothing
/// where there is none.
pub open spec fn highlights(name_lower: Seq<char>, query_lower: Seq<char>) -> Option<Seq<usize>> {
    if positions_held(name_lower, query_lower).len() == 0 {
        None
    } else {
        Some(positions_held(name_lower, query_lower))
    }
}

/// The positions held are exactly the positions of the characters that the
/// query holds, each once, in rising order.
pub proof fn lemma_positions_held(name_lower: Seq<char>, query_lower: Seq<char>)
    requires
        name_lower.len() <= usize::MAX,
    ensures
        forall|k: int|
            0 <= k < positions_held(name_lower, query_lower).len() ==> (#[trigger] positions_held(
                name_lower,
                query_lower,
            )[k]) < name_lower.len() && query_lower.contains(
                name_lower[positions_held(name_lower, query_lower)[k] as int],
            ),
        forall|a: int, b: int|
            0 <= a < b < positions_held(name_lower, query_lower).len() ==> positions_held(
                name_lower,
                query_lower,
            )[a] < positions_held(name_lower, query_lower)[b],
        forall|i: int|
            0 <= i < name_lower.len() && query_lower.contains(#[trigger] name_lower[i])
                ==> positions_held(name_lower, query_lower).contains(i as usize),
    decreases name_lower.len(),
{
    if name_lower.len() > 0 {
        let front_name = name_lower.drop_last();
        let front = positions_held(front_name, query_lower);
        let all = positions_held(name_lower, query_lower);
        lemma_positions_held(front_name, query_lower);
        assert forall|k: int| 0 <= k < all.len() implies (#[trigger] all[k]) < name_lower.len()
            && query_lower.contains(name_lower[all[k] as int]) by {
            if k < front.len() {
                assert(all[k] == front[k]);
                assert(front_name[front[k] as int] == name_lower[front[k] as int]);
            }
        }
        assert forall|a: int, b: int| 0 <= a < b < all.len() implies all[a] < all[b] by {
            assert(all[a] == front[a]);
            if b < front.len() {
                assert(all[b] == front[b]);
            }
        }
        assert forall|i: int|
            0 <= i < name_lower.len() && query_lower.contains(
                #[trigger] name_lower[i],
            ) implies all.contains(i as usize) by {
            if i < front_name.len() {
                assert(front_name[i] == name_lower[i]);
                assert(front.contains(i as usize));
                let k = choose|k: int| 0 <= k < front.len() && front[k] == i as usize;
                assert(all[k] == i as usize);
            } else {
                assert(all[all.len() - 1] == i as usize);
            }
        }
    }
}

/// One row of the popup.
#[derive(Debug, Clone, PartialEq, Eq)]
pub struct DisplayRow {
    /// The agent's name.
    pub name: String,
    /// The positions of the name that are highlighted.
    pub match_indices: Option<Vec<usize>>,
    /// Whether the row stands for what is in use now.
    pub is_current: bool,
    /// The agent's description.
    pub description: Option<String>,
}

/// A `DisplayRow` as plain values.
pub struct DisplayRowView {
    pub name: Seq<char>,
    pub match_indices: Option<Seq<usize>>,
    pub is_current: bool,
    pub description: Option<Seq<char>>,
}

impl View for DisplayRow {
    type V = DisplayRowView;

    open spec fn view(&self) -> DisplayRowView {
        DisplayRowView {
            name: self.name@,
            match_indices: match self.match_indices {
                Some(v) => Some(v@),
                None => None,
            },
            is_current: self.is_current,
            description: match self.description {
                Some(d) => Some(d@),
                None => None,
            },
        }
    }
}

/// Whether an agent passes the filter: every agent where there is no
/// needle, else the agents whose name, in lower case, holds the needle.
pub open spec fn passes(agent: AgentInfoView, needle: Option<Seq<char>>) -> bool {
    match needle {
        Some(n) => occurs_in(n, lowercase_of(agent.name)),
        None => true,
    }
}

/// The row that shows an agent.
pub open spec fn row_for(agent: AgentInfoView, needle: Option<Seq<char>>) -> DisplayRowView {
    DisplayRowView {
        name: agent.name,
        match_indices: match needle {
            Some(n) => highlights(lowercase_of(agent.name), n),
            None => None,
        },
        is_current: false,
        description: Some(agent.description),
    }
}

/// The rows of the agents that pass the filter, in the order of the
/// agents.
pub open spec fn candidates(agents: Seq<AgentInfoView>, needle: Option<Seq<char>>) -> Seq<
    DisplayRowView,
>
    decreases agents.len(),
{
    if agents.len() == 0 {
        Seq::empty()
    } else {
        let front = candidates(agents.drop_last(), needle);
        if passes(agents.last(), needle) {
            front.push(row_for(agents.last(), needle))
        } else {
            front
        }
    }
}

/// The views of a list of agents.
pub open spec fn agent_views(agents: Seq<AgentInfo>) -> Seq<AgentInfoView> {
    Seq::new(agents.len(), |i: int| agents[i]@)
}

/// The views of a list of rows.
pub open spec fn row_views(rows: Seq<DisplayRow>) -> Seq<DisplayRowView> {
    Seq::new(rows.len(), |i: int| rows[i]@)
}

/// The names of a list of rows, in order.
pub open spec fn row_names(rows: Seq<DisplayRowView>) -> Seq<Seq<char>> {
    Seq::new(rows.len(), |i: int| rows[i].name)
}

/// Whether `out` is `input` sorted by name: the same rows, in dictionary
/// order of their names, those of one name in the order in which they
/// stood.
pub open spec fn sorted_rows(
    out: Seq<DisplayRowView>,
    input: Seq<DisplayRowView>,
    perm: Seq<int>,
) -> bool {
    &&& rearranged(out, input, perm)
    &&& keeps_ties(row_names(input), perm)
    &&& ordered(row_names(out))
}

/// What a query filters by, given the query in lower case.
pub fn query_needle(query_lower: &str) -> (r: Option<String>)
    ensures
        crate::agent::text_of(r) == needle_of(query_lower@),
{
    if !has_prefix(query_lower, "agent") {
        return None;
    }
    let chars = to_chars(query_lower);
    proof {
        reveal_strlit("agent");
    }
    let ghost rest = chars@.skip(5);
    let mut at: usize = 5;
    while at < chars.len() && (chars[at] == ':' || chars[at] == ' ')
        invariant
            5 <= at <= chars.len(),
            rest == chars@.skip(5),
            forall|i: int| 0 <= i < at - 5 ==> colon_or_blank()(#[trigger] rest[i]),
        decreases chars.len() - at,
    {
        at += 1;
    }
    proof {
        if at < chars.len() {
            assert(rest[at - 5] == chars@[at as int]);
        }
        lemma_leading_unique(rest, colon_or_blank(), at - 5);
        assert(rest.skip(at - 5) =~= chars@.subrange(at as int, chars.len() as int));
    }
    if at == chars.len() {
        None
    } else {
        Some(from_chars(&chars, at, chars.len()))
    }
}

/// What is highlighted of a name, given the name and the query in lower
/// case.
pub fn highlight_positions(name_lower: &str, query_lower: &str) -> (r: Option<Vec<usize>>)
    ensures
        match r {
            Some(v) => highlights(name_lower@, query_lower@) == Some(v@),
            None => highlights(name_lower@, query_lower@) is None,
        },
{
    let name = to_chars(name_lower);
    let query = to_chars(query_lower);
    let mut indices: Vec<usize> = Vec::new();
    let mut i: usize = 0;
    while i < name.len()
        invariant
            i <= name.len(),
            indices@ == positions_held(name@.take(i as int), query@),
        decreases name.len() - i,
    {
        proof {
            assert(name@.take(i + 1).drop_last() =~= name@.take(i as int));
            assert(name@.take(i + 1).last() == name@[i as int]);
        }
        if contains_char(&query, name[i]) {
            indices.push(i);
        }
        i += 1;
    }
    assert(name@.take(name.len() as int) =~= name@);
    if indices.len() == 0 {
        None
    } else {
        Some(indices)
    }
}

/// What is highlighted of an agent's name for a query in lower case: the
/// positions, in the name's lower-case form, of the characters that the
/// query holds; nothing where there is none.
pub fn highlight_indices(name: &str, query_lower: &str) -> (r: Option<Vec<usize>>)
    ensures
        match r {
            Some(v) => highlights(lowercase_of(name@), query_lower@) == Some(v@),
            None => highlights(lowercase_of(name@), query_lower@) is None,
        },
{
    if query_lower.is_empty() {
        assert(positions_held(lowercase_of(name@), query_lower@).len() == 0) by {
            lemma_nothing_held(lowercase_of(name@), query_lower@);
        }
        return None;
    }
    let name_lower = to_lowercase(name);
    highlight_positions(name_lower.as_str(), query_lower)
}

/// An empty query holds no character.
proof fn lemma_nothing_held(name_lower: Seq<char>, query_lower: Seq<char>)
    requires
        query_lower.len() == 0,
    ensures
        positions_held(name_lower, query_lower).len() == 0,
    decreases name_lower.len(),
{
    if name_lower.len() > 0 {
        lemma_nothing_held(name_lower.drop_last(), query_lower);
    }
}

/// The rows of the agents that pass the filter, sorted by name.
pub fn filter_agents(agents: &[AgentInfo], needle: Option<&str>) -> (rows: Vec<DisplayRow>)
    ensures
        exists|perm: Seq<int>|
            sorted_rows(
                row_views(rows@),
                candidates(agent_views(agents@), crate::agent::slice_text_of(needle)),
                perm,
            ),
{
    let ghost nv = crate::agent::slice_text_of(needle);
    let ghost av = agent_views(agents@);
    let mut pairs: Vec<(String, DisplayRow)> = Vec::new();
    let mut i: usize = 0;
    assert(av.take(0) =~= Seq::<AgentInfoView>::empty());
    while i < agents.len()
        invariant
            i <= agents.len(),
            av == agent_views(agents@),
            nv == crate::agent::slice_text_of(needle),
            pairs.len() == candidates(av.take(i as int), nv).len(),
            forall|k: int|
                0 <= k < pairs.len() ==> (#[trigger] pairs@[k]).1@ == candidates(
                    av.take(i as int),
                    nv,
                )[k] && pairs@[k].0@ == pairs@[k].1@.name,
        decreases agents.len() - i,
    {
        proof {
            assert(av.take(i + 1).drop_last() =~= av.take(i as int));
            assert(av.take(i + 1).last() == agents@[i as int]@);
        }
        let agent = slice_index_get(agents, i);
        match needle {
            Some(n) => {
                let name_lower = to_lowercase(agent.name.as_str());
                let hay = to_chars(name_lower.as_str());
                let run = to_chars(n);
                if contains_run(&hay, &run) {
                    let row = DisplayRow {
                        name: agent.name.clone(),
                        match_indices: highlight_indices(agent.name.as_str(), n),
                        is_current: false,
                        description: Some(agent.description.clone()),
                    };
                    pairs.push((agent.name.clone(), row));
                }
            },
            None => {
                let row = DisplayRow {
                    name: agent.name.clone(),
                    match_indices: None,
                    is_current: false,
                    description: Some(agent.description.clone()),
                };
                pairs.push((agent.name.clone(), row));
            },
        }
        i += 1;
    }
    assert(av.take(agents.len() as int) =~= av);
    let ghost input = candidates(av, nv);
    let ghost unsorted = pairs@;
    let sorted = sort_by_name(pairs);
    let ghost perm = choose|perm: Seq<int>| sorted_from(sorted@, unsorted, perm);
    let rows = values_of(sorted);
    proof {
        let views = row_views(rows@);
        assert forall|k: int| 0 <= k < views.len() implies views[k] == input[#[trigger] perm[k]] by {
            assert(sorted@[k] == unsorted[perm[k]]);
        }
        assert forall|a: int, b: int|
            0 <= a < b < perm.len() && row_names(input)[perm[a]] == row_names(
                input,
            )[perm[b]] implies perm[a] < perm[b] by {
            assert(names_of(unsorted)[perm[a]] == unsorted[perm[a]].0@);
            assert(names_of(unsorted)[perm[b]] == unsorted[perm[b]].0@);
        }
        assert forall|a: int, b: int| 0 <= a < b < views.len() implies !crate::text::before(
            row_names(views)[b],
            row_names(views)[a],
        ) by {
            assert(sorted@[a] == unsorted[perm[a]]);
            assert(sorted@[b] == unsorted[perm[b]]);
            assert(names_of(sorted@)[a] == row_names(views)[a]);
            assert(names_of(sorted@)[b] == row_names(views)[b]);
        }
        assert(sorted_rows(views, input, perm));
    }
    rows
}

// ---------------------------------------------------------------------
// The popup
// ---------------------------------------------------------------------

/// The popup that suggests agents.
pub struct AgentPopup {
    query: String,
    rows: Vec<DisplayRow>,
    state: ScrollState,
}

/// The state of the popup as plain values.
pub struct AgentPopupView {
    /// The query that the rows were made for.
    pub query: Seq<char>,
    /// The rows, in the order in which they are shown.
    pub rows: Seq<DisplayRowView>,
    /// The selection and the scroll position.
    pub state: ScrollState,
}

impl View for AgentPopup {
    type V = AgentPopupView;

    closed spec fn view(&self) -> AgentPopupView {
        AgentPopupView { query: self.query@, rows: row_views(self.rows@), state: self.state }
    }
}

impl AgentPopup {
    /// A popup without query, rows or selection.
    pub fn new() -> (out: AgentPopup)
        ensures
            out@ == (AgentPopupView {
                query: Seq::empty(),
                rows: Seq::empty(),
                state: ScrollState { selected_idx: None, scroll_top: 0 },
            }),
    {
        let out = AgentPopup { query: String::new(), rows: Vec::new(), state: ScrollState::new() };
        assert(row_views(out.rows@) =~= Seq::<DisplayRowView>::empty());
        out
    }

    /// Takes a new query and makes the rows for it from `agents`. A query
    /// that is the one held already changes nothing. Else the rows are
    /// those of the agents that pass the query's filter, sorted by name;
    /// the selection is held to the new rows and brought into view.
    pub fn set_query(&mut self, query: &str, agents: &[AgentInfo])
        ensures
            old(self)@.query == query@ ==> final(self)@ == old(self)@,
            old(self)@.query != query@ ==> {
                &&& final(self)@.query == query@
                &&& exists|perm: Seq<int>|
                    sorted_rows(
                        final(self)@.rows,
                        candidates(agent_views(agents@), needle_of(lowercase_of(query@))),
                        perm,
                    )
                &&& final(self)@.rows.len() <= usize::MAX
                &&& final(self)@.state == brought_into_view(
                    clamped(old(self)@.state, final(self)@.rows.len() as usize),
                    final(self)@.rows.len() as usize,
                    rows_in_view(final(self)@.rows.len() as usize),
                )
            },
    {
        if crate::text::same_text(self.query.as_str(), query) {
            return;
        }
        self.query = query.to_owned();
        let query_lower = to_lowercase(query);
        let needle = query_needle(query_lower.as_str());
        let rows = match &needle {
            Some(n) => filter_agents(agents, Some(n.as_str())),
            None => filter_agents(agents, None),
        };
        self.rows = rows;
        let len = self.rows.len();
        self.state.clamp_selection(len);
        self.state.ensure_visible(len, visible_rows(len));
    }

    /// Moves the selection up by one row, from the first row round to the
    /// last, and brings it into view.
    pub fn move_up(&mut self)
        ensures
            final(self)@.query == old(self)@.query,
            final(self)@.rows == old(self)@.rows,
            final(self)@.rows.len() <= usize::MAX,
            final(self)@.state == brought_into_view(
                moved_up(old(self)@.state, old(self)@.rows.len() as usize),
                old(self)@.rows.len() as usize,
                rows_in_view(old(self)@.rows.len() as usize),
            ),
    {
        let len = self.rows.len();
        self.state.move_up_wrap(len);
        self.state.ensure_visible(len, visible_rows(len));
    }

    /// Moves the selection down by one row, from the last row round to the
    /// first, and brings it into view.
    pub fn move_down(&mut self)
        ensures
            final(self)@.query == old(self)@.query,
            final(self)@.rows == old(self)@.rows,
            final(self)@.rows.len() <= usize::MAX,
            final(self)@.state == brought_into_view(
                moved_down(old(self)@.state, old(self)@.rows.len() as usize),
                old(self)@.rows.len() as usize,
                rows_in_view(old(self)@.rows.len() as usize),
            ),
    {
        let len = self.rows.len();
        self.state.move_down_wrap(len);
        self.state.ensure_visible(len, visible_rows(len));
    }

    /// The name of the selected agent: none where no row is selected or the
    /// selection lies beyond the rows.
    pub fn selected_agent(&self) -> (r: Option<&str>)
        ensures
            match self@.state.selected_idx {
                Some(i) => if i < self@.rows.len() {
                    r matches Some(name) && name@ == self@.rows[i as int].name
                } else {
                    r is None
                },
                None => r is None,
            },
    {
        match self.state.selected_idx {
            Some(i) => if i < self.rows.len() {
                Some(self.rows[i].name.as_str())
            } else {
                None
            },
            None => None,
        }
    }

    /// The rows, in the order in which they are shown.
    pub fn rows(&self) -> (out: &Vec<DisplayRow>)
        ensures
            row_views(out@) == self@.rows,
    {
        &self.rows
    }

    /// The selection and the scroll position.
    pub fn scroll_state(&self) -> (out: ScrollState)
        ensures
            out == self@.state,
    {
        self.state
    }

    /// The query that the rows were made for.
    pub fn query(&self) -> (out: &str)
        ensures
            out@ == self@.query,
    {
        self.query.as_str()
    }
}

/// The number of rows in view of a list of `len` rows.
pub fn visible_rows(len: usize) -> (n: usize)
    ensures
        n == rows_in_view(len),
{
    if len < MAX_POPUP_ROWS {
        len
    } else {
        MAX_POPUP_ROWS
    }
}

} // verus!
