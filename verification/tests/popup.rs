use codex_agents::agent_popup::{
    filter_agents, highlight_indices, highlight_positions, query_needle, visible_rows, AgentPopup,
    DisplayRow, ScrollState, MAX_POPUP_ROWS,
};
use codex_agents::registry::AgentInfo;

fn agent(name: &str) -> AgentInfo {
    AgentInfo {
        name: name.to_string(),
        description: format!("about {name}"),
        is_builtin: name == "general",
    }
}

fn agents() -> Vec<AgentInfo> {
    vec![agent("general"), agent("Writer"), agent("code-critic"), agent("planner")]
}

fn row(name: &str, match_indices: Option<Vec<usize>>) -> DisplayRow {
    DisplayRow {
        name: name.to_string(),
        match_indices,
        is_current: false,
        description: Some(format!("about {name}")),
    }
}

fn names(popup: &AgentPopup) -> Vec<String> {
    popup.rows().iter().map(|r| r.name.clone()).collect()
}

#[test]
fn new_popup_is_empty() {
    let popup = AgentPopup::new();
    assert_eq!(popup.query(), "");
    assert!(popup.rows().is_empty());
    assert_eq!(popup.scroll_state(), ScrollState { selected_idx: None, scroll_top: 0 });
    assert_eq!(popup.selected_agent(), None);
}

#[test]
fn the_bare_word_lists_all_agents_by_name() {
    for query in ["agent", "agent:", "agent ", "AGENT", "Agent: ", "agent::  :", "other", "age"] {
        let mut popup = AgentPopup::new();
        popup.set_query(query, &agents());
        assert_eq!(
            popup.rows(),
            &vec![
                row("Writer", None),
                row("code-critic", None),
                row("general", None),
                row("planner", None),
            ],
            "{query:?}"
        );
        assert_eq!(popup.query(), query);
        assert_eq!(popup.selected_agent(), Some("Writer"));
    }
}

#[test]
fn a_remainder_filters_by_name() {
    let mut popup = AgentPopup::new();
    popup.set_query("agent:er", &agents());
    assert_eq!(
        popup.rows(),
        &vec![
            row("Writer", Some(vec![1, 4, 5])),
            row("general", Some(vec![1, 3, 4])),
            row("planner", Some(vec![5, 6])),
        ]
    );

    popup.set_query("Agent WRI", &agents());
    assert_eq!(popup.rows(), &vec![row("Writer", Some(vec![0, 1, 2, 5]))]);
    assert_eq!(popup.selected_agent(), Some("Writer"));

    popup.set_query("agent:zzz", &agents());
    assert!(popup.rows().is_empty());
    assert_eq!(popup.selected_agent(), None);
    assert_eq!(popup.scroll_state(), ScrollState { selected_idx: None, scroll_top: 0 });

    popup.set_query("agents", &agents());
    assert_eq!(names(&popup), Vec::<String>::new());
    popup.set_query("agent -c", &agents());
    assert_eq!(names(&popup), vec!["code-critic"]);
}

#[test]
fn the_same_query_changes_nothing() {
    let mut popup = AgentPopup::new();
    // A fresh popup holds the empty query already.
    popup.set_query("", &agents());
    assert!(popup.rows().is_empty());

    popup.set_query("agent", &agents());
    assert_eq!(popup.rows().len(), 4);
    popup.move_down();
    popup.set_query("agent", &[agent("other")]);
    assert_eq!(popup.rows().len(), 4);
    assert_eq!(popup.selected_agent(), Some("code-critic"));

    popup.set_query("", &[agent("other")]);
    assert_eq!(names(&popup), vec!["other"]);
    // The selection is held to the rows that are left.
    assert_eq!(popup.selected_agent(), Some("other"));
}

#[test]
fn selection_moves_round() {
    let mut popup = AgentPopup::new();
    popup.move_up();
    assert_eq!(popup.selected_agent(), None);
    popup.move_down();
    assert_eq!(popup.selected_agent(), None);

    popup.set_query("agent", &agents());
    assert_eq!(popup.selected_agent(), Some("Writer"));
    popup.move_down();
    assert_eq!(popup.selected_agent(), Some("code-critic"));
    popup.move_down();
    popup.move_down();
    assert_eq!(popup.selected_agent(), Some("planner"));
    popup.move_down();
    assert_eq!(popup.selected_agent(), Some("Writer"));
    popup.move_up();
    assert_eq!(popup.selected_agent(), Some("planner"));
    popup.move_up();
    assert_eq!(popup.selected_agent(), Some("general"));
    assert_eq!(popup.scroll_state(), ScrollState { selected_idx: Some(2), scroll_top: 0 });
}

#[test]
fn a_long_list_scrolls_with_the_selection() {
    let many: Vec<AgentInfo> = (0..12).map(|i| agent(&format!("agent-{i:02}"))).collect();
    let mut popup = AgentPopup::new();
    popup.set_query("agent", &many);
    assert_eq!(popup.rows().len(), 12);
    assert_eq!(popup.scroll_state(), ScrollState { selected_idx: Some(0), scroll_top: 0 });
    for _ in 0..7 {
        popup.move_down();
    }
    assert_eq!(popup.scroll_state(), ScrollState { selected_idx: Some(7), scroll_top: 0 });
    popup.move_down();
    assert_eq!(popup.scroll_state(), ScrollState { selected_idx: Some(8), scroll_top: 1 });
    assert_eq!(popup.selected_agent(), Some("agent-08"));
    for _ in 0..3 {
        popup.move_down();
    }
    assert_eq!(popup.scroll_state(), ScrollState { selected_idx: Some(11), scroll_top: 4 });
    popup.move_down();
    assert_eq!(popup.scroll_state(), ScrollState { selected_idx: Some(0), scroll_top: 0 });
    popup.move_up();
    assert_eq!(popup.scroll_state(), ScrollState { selected_idx: Some(11), scroll_top: 4 });
    popup.move_up();
    assert_eq!(popup.scroll_state(), ScrollState { selected_idx: Some(10), scroll_top: 4 });

    // A shorter list holds the selection to its last row.
    popup.set_query("agent:agent-0", &many);
    assert_eq!(popup.rows().len(), 10);
    assert_eq!(popup.scroll_state(), ScrollState { selected_idx: Some(9), scroll_top: 4 });
    assert_eq!(popup.selected_agent(), Some("agent-09"));
}

#[test]
fn scroll_state_steps() {
    let mut state = ScrollState::new();
    assert_eq!(state, ScrollState { selected_idx: None, scroll_top: 0 });
    state.clamp_selection(3);
    assert_eq!(state.selected_idx, Some(0));
    state.move_up_wrap(3);
    assert_eq!(state.selected_idx, Some(2));
    state.move_down_wrap(3);
    assert_eq!(state.selected_idx, Some(0));
    state.move_down_wrap(3);
    assert_eq!(state.selected_idx, Some(1));

    let mut state = ScrollState { selected_idx: Some(9), scroll_top: 5 };
    state.clamp_selection(4);
    assert_eq!(state, ScrollState { selected_idx: Some(3), scroll_top: 5 });
    state.ensure_visible(4, 2);
    assert_eq!(state, ScrollState { selected_idx: Some(3), scroll_top: 3 });
    state.ensure_visible(4, 0);
    assert_eq!(state, ScrollState { selected_idx: Some(3), scroll_top: 0 });
    state.ensure_visible(4, 2);
    assert_eq!(state, ScrollState { selected_idx: Some(3), scroll_top: 2 });
    state.ensure_visible(4, 4);
    assert_eq!(state, ScrollState { selected_idx: Some(3), scroll_top: 2 });
    state.clamp_selection(0);
    assert_eq!(state, ScrollState { selected_idx: None, scroll_top: 0 });

    let mut state = ScrollState { selected_idx: None, scroll_top: 7 };
    state.ensure_visible(3, 3);
    assert_eq!(state.scroll_top, 0);
    let mut state = ScrollState { selected_idx: Some(1), scroll_top: 7 };
    state.move_up_wrap(0);
    assert_eq!(state, ScrollState { selected_idx: None, scroll_top: 0 });
    let mut state = ScrollState { selected_idx: None, scroll_top: 2 };
    state.move_up_wrap(5);
    assert_eq!(state, ScrollState { selected_idx: Some(0), scroll_top: 2 });
    let mut state = ScrollState { selected_idx: None, scroll_top: 2 };
    state.move_down_wrap(5);
    assert_eq!(state, ScrollState { selected_idx: Some(0), scroll_top: 2 });
    let mut state = ScrollState { selected_idx: Some(usize::MAX), scroll_top: 0 };
    state.move_down_wrap(5);
    assert_eq!(state.selected_idx, Some(0));

    assert_eq!(MAX_POPUP_ROWS, 8);
    assert_eq!(visible_rows(0), 0);
    assert_eq!(visible_rows(5), 5);
    assert_eq!(visible_rows(8), 8);
    assert_eq!(visible_rows(100), 8);
}

#[test]
fn the_needle_of_a_query() {
    assert_eq!(query_needle("agent"), None);
    assert_eq!(query_needle("agent:"), None);
    assert_eq!(query_needle("agent "), None);
    assert_eq!(query_needle("agent: : "), None);
    assert_eq!(query_needle(""), None);
    assert_eq!(query_needle("gent:x"), None);
    assert_eq!(query_needle("an agent"), None);
    assert_eq!(query_needle("agent:x"), Some("x".to_string()));
    assert_eq!(query_needle("agent x y "), Some("x y ".to_string()));
    assert_eq!(query_needle("agents"), Some("s".to_string()));
    assert_eq!(query_needle("agent\tx"), Some("\tx".to_string()));
    assert_eq!(query_needle("agent: :\u{e9}:"), Some("\u{e9}:".to_string()));
    // What the standard library makes of it.
    for q in ["agent", "agent::x", "agentx", "agent :y: ", "age", "agent:\u{a0}z"] {
        let expected = q
            .strip_prefix("agent")
            .map(|rest| rest.trim_start_matches([':', ' ']))
            .filter(|rest| !rest.is_empty())
            .map(String::from);
        assert_eq!(query_needle(q), expected, "{q:?}");
    }
}

#[test]
fn highlighted_positions() {
    assert_eq!(highlight_positions("writer", "er"), Some(vec![1, 4, 5]));
    assert_eq!(highlight_positions("writer", "xyz"), None);
    assert_eq!(highlight_positions("writer", ""), None);
    assert_eq!(highlight_positions("", "abc"), None);
    assert_eq!(highlight_positions("aaa", "a"), Some(vec![0, 1, 2]));
    assert_eq!(highlight_positions("\u{e9}a\u{e9}", "\u{e9}"), Some(vec![0, 2]));

    // The name is put in lower case, the query is taken as it is.
    assert_eq!(highlight_indices("WRITER", "er"), Some(vec![1, 4, 5]));
    assert_eq!(highlight_indices("WRITER", "ER"), None);
    assert_eq!(highlight_indices("Writer", ""), None);
    assert_eq!(highlight_indices("\u{c9}cole", "\u{e9}"), Some(vec![0]));
    // A character whose lower-case form is longer moves what follows it.
    assert_eq!(highlight_indices("\u{130}x", "x"), Some(vec![2]));
    // The lower-case form is that of Unicode: a sigma at the end of a word
    // is the final sigma.
    assert_eq!(highlight_indices("\u{39f}\u{3a3}", "\u{3c2}"), Some(vec![1]));
    assert_eq!(highlight_indices("\u{39f}\u{3a3}", "\u{3c3}"), None);
    for name in ["Writer", "\u{c9}COLE", "\u{130}stanbul", "code-CRITIC", ""] {
        let lower: Vec<char> = name.to_lowercase().chars().collect();
        let all: Vec<usize> = (0..lower.len()).collect();
        let query: String = lower.iter().collect();
        let expected = if all.is_empty() { None } else { Some(all) };
        assert_eq!(highlight_indices(name, &query), expected, "{name:?}");
    }
}

#[test]
fn filtering_agents() {
    assert_eq!(
        filter_agents(&agents(), None),
        vec![row("Writer", None), row("code-critic", None), row("general", None), row("planner", None)]
    );
    assert_eq!(
        filter_agents(&agents(), Some("n")),
        vec![row("general", Some(vec![2])), row("planner", Some(vec![3, 4]))]
    );
    assert_eq!(filter_agents(&agents(), Some("N")), Vec::new());
    assert_eq!(filter_agents(&[], Some("n")), Vec::new());
    // Agents of one name keep their order.
    let mut first = agent("twin");
    first.description = "first".to_string();
    let mut second = agent("twin");
    second.description = "second".to_string();
    let rows = filter_agents(&[agent("zed"), first, agent("alpha"), second], None);
    let shown: Vec<(String, Option<String>)> =
        rows.into_iter().map(|r| (r.name, r.description)).collect();
    assert_eq!(
        shown,
        vec![
            ("alpha".to_string(), Some("about alpha".to_string())),
            ("twin".to_string(), Some("first".to_string())),
            ("twin".to_string(), Some("second".to_string())),
            ("zed".to_string(), Some("about zed".to_string())),
        ]
    );
}
