use codex_agents::layers::{find_name, sort_by_name, values_of, Layered};
use codex_agents::text::{
    char_ascii_lower, char_is_space, comes_before, contains_text, from_chars, has_prefix,
    same_text, to_ascii_lower, to_chars, trim,
};

const SAMPLES: [&str; 24] = [
    "",
    " ",
    "a",
    "A",
    "ab",
    "aB",
    "b",
    "abc",
    "abd",
    "  padded  ",
    "\t\n tabs and lines \r\n",
    "\u{a0}nbsp\u{a0}",
    "\u{3000}wide\u{2003}",
    "\u{85}next line\u{1680}",
    "\u{200b}zero width\u{200b}",
    "Z",
    "[",
    "\u{e9}",
    "\u{c9}",
    "\u{10000}",
    "\u{ffff}",
    "\u{1f600} smile",
    "MiXeD Case 123 \u{c9}",
    "agent: x",
];

#[test]
fn white_space_is_that_of_unicode() {
    let mut c = '\0';
    loop {
        assert_eq!(char_is_space(c), c.is_whitespace(), "{c:?}");
        if c == char::MAX {
            break;
        }
        c = match char::from_u32(c as u32 + 1) {
            Some(next) => next,
            None => '\u{e000}',
        };
    }
}

#[test]
fn ascii_lower_case_is_that_of_the_standard_library() {
    let mut c = '\0';
    while c < '\u{3000}' {
        assert_eq!(char_ascii_lower(c), c.to_ascii_lowercase(), "{c:?}");
        c = char::from_u32(c as u32 + 1).unwrap();
    }
    for s in SAMPLES {
        assert_eq!(to_ascii_lower(s), s.to_ascii_lowercase(), "{s:?}");
    }
    assert_eq!(to_ascii_lower("Read-ONLY \u{c9}"), "read-only \u{c9}");
}

#[test]
fn trimming_is_that_of_the_standard_library() {
    for s in SAMPLES {
        assert_eq!(trim(s), s.trim(), "{s:?}");
    }
    assert_eq!(trim("  gpt-4o-mini  "), "gpt-4o-mini");
    assert_eq!(trim("   "), "");
    assert_eq!(trim("a b"), "a b");
}

#[test]
fn characters_go_in_and_out_unchanged() {
    for s in SAMPLES {
        let chars = to_chars(s);
        assert_eq!(chars, s.chars().collect::<Vec<char>>());
        assert_eq!(from_chars(&chars, 0, chars.len()), s);
    }
    let chars = to_chars("h\u{e9}llo");
    assert_eq!(from_chars(&chars, 1, 3), "\u{e9}l");
    assert_eq!(from_chars(&chars, 2, 2), "");
}

#[test]
fn dictionary_order_is_that_of_the_standard_library() {
    for a in SAMPLES {
        for b in SAMPLES {
            assert_eq!(comes_before(a, b), a < b, "{a:?} < {b:?}");
            assert_eq!(same_text(a, b), a == b, "{a:?} == {b:?}");
        }
    }
    assert!(comes_before("Beta", "alpha"));
    assert!(comes_before("a", "ab"));
    assert!(!comes_before("a", "a"));
    assert!(comes_before("\u{ffff}", "\u{10000}"));
}

#[test]
fn prefixes_and_runs() {
    for a in SAMPLES {
        for b in SAMPLES {
            assert_eq!(has_prefix(a, b), a.starts_with(b), "{a:?} starts with {b:?}");
            assert_eq!(contains_text(a, b), a.contains(b), "{a:?} contains {b:?}");
        }
    }
    assert!(contains_text("code-critic", "crit"));
    assert!(!contains_text("code-critic", "cri-"));
    assert!(contains_text("abc", ""));
    assert!(contains_text("", ""));
}

fn named(names: &[&str]) -> Vec<(String, usize)> {
    names.iter().enumerate().map(|(i, n)| (n.to_string(), i)).collect()
}

#[test]
fn sorting_is_stable_and_complete() {
    let items = named(&["pear", "apple", "fig", "apple", "Fig", "", "fig", "apple"]);
    let mut expected = items.clone();
    expected.sort_by(|a, b| a.0.cmp(&b.0));
    let sorted = sort_by_name(items);
    assert_eq!(sorted, expected);
    assert_eq!(
        sorted,
        vec![
            ("".to_string(), 5),
            ("Fig".to_string(), 4),
            ("apple".to_string(), 1),
            ("apple".to_string(), 3),
            ("apple".to_string(), 7),
            ("fig".to_string(), 2),
            ("fig".to_string(), 6),
            ("pear".to_string(), 0),
        ]
    );
    assert_eq!(values_of(sorted), vec![5, 4, 1, 3, 7, 2, 6, 0]);
    assert_eq!(sort_by_name(Vec::<(String, u8)>::new()), Vec::new());
}

#[test]
fn first_definition_of_a_name_is_found() {
    let items = named(&["a", "b", "a", "c"]);
    assert_eq!(find_name(&items, "a"), Some(0));
    assert_eq!(find_name(&items, "c"), Some(3));
    assert_eq!(find_name(&items, "d"), None);
    assert_eq!(find_name(&items, ""), None);
}

#[test]
fn layers_fill_gaps_only() {
    let mut layered: Layered<String> = Layered::new();
    assert_eq!(layered.len(), 0);
    layered.add_layer(vec![
        ("x".to_string(), "upper x".to_string()),
        ("y".to_string(), "upper y".to_string()),
        ("x".to_string(), "upper x again".to_string()),
    ]);
    layered.add_layer(vec![
        ("y".to_string(), "lower y".to_string()),
        ("z".to_string(), "lower z".to_string()),
    ]);
    assert_eq!(layered.len(), 3);
    assert_eq!(layered.get("x"), Some(&"upper x".to_string()));
    assert_eq!(layered.get("y"), Some(&"upper y".to_string()));
    assert_eq!(layered.get("z"), Some(&"lower z".to_string()));
    assert_eq!(layered.get("w"), None);
    assert!(layered.contains("z"));
    assert!(!layered.contains("Z"));
    assert_eq!(layered.names(), vec!["x", "y", "z"]);

    assert!(!layered.add("x".to_string(), "late".to_string()));
    assert!(layered.add("w".to_string(), "new".to_string()));
    assert_eq!(layered.get("x"), Some(&"upper x".to_string()));
    assert_eq!(layered.get("w"), Some(&"new".to_string()));

    layered.set("x".to_string(), "replaced".to_string());
    layered.set("v".to_string(), "set".to_string());
    assert_eq!(layered.get("x"), Some(&"replaced".to_string()));
    assert_eq!(layered.get("v"), Some(&"set".to_string()));
    assert_eq!(layered.get("y"), Some(&"upper y".to_string()));
    assert_eq!(layered.len(), 5);
    assert_eq!(layered.entries().len(), 5);
    let names: Vec<String> = layered.into_entries().into_iter().map(|e| e.0).collect();
    assert_eq!(names, vec!["x", "y", "z", "w", "v"]);
}
