use codex_agents::custom_prompts::{
    collect_prompts, default_prompts_dir, merge_prompts, project_prompts_dir, select_prompt_files,
    split_file_name, CustomPrompt, DirEntry, PromptFile,
};
use std::io::{Read, Write};
use std::path::Path;

// A directory of the given name below `parent`, removed when dropped.
fn make_dir(parent: &Path, name: &str) -> tempfile::TempDir {
    tempfile::Builder::new().prefix(name).rand_bytes(0).tempdir_in(parent).unwrap()
}

// A file of the given name and contents below `parent`, removed when
// dropped.
fn make_file(parent: &Path, name: &str, contents: &[u8]) -> tempfile::NamedTempFile {
    let mut file = tempfile::Builder::new().prefix(name).rand_bytes(0).tempfile_in(parent).unwrap();
    file.write_all(contents).unwrap();
    file.flush().unwrap();
    file
}

// The text of the file at `path`, where it is one of `files` and holds
// valid text.
fn read_text(path: &str, files: &[tempfile::NamedTempFile]) -> Option<String> {
    let file = files.iter().find(|f| f.path() == Path::new(path))?;
    let mut bytes = Vec::new();
    file.reopen().ok()?.read_to_end(&mut bytes).ok()?;
    String::from_utf8(bytes).ok()
}

// Discovers the prompts of a directory the way a caller does: list, select,
// read, collect.
fn discover_prompts_in_excluding(
    dir: &Path,
    exclude: &[&str],
    files: &[tempfile::NamedTempFile],
) -> Vec<CustomPrompt> {
    let mut entries = Vec::new();
    if let Ok(listing) = dir.read_dir() {
        for entry in listing.flatten() {
            let (Some(file_name), Some(path)) =
                (entry.file_name().to_str().map(String::from), entry.path().to_str().map(String::from))
            else {
                continue;
            };
            let is_file = entry.file_type().map(|t| t.is_file()).unwrap_or(false);
            entries.push(DirEntry { file_name, path, is_file });
        }
    }
    let exclude: Vec<String> = exclude.iter().map(|s| s.to_string()).collect();
    let selected = select_prompt_files(entries, &exclude);
    let read = selected
        .into_iter()
        .map(|file| {
            let text = read_text(&file.path, files);
            (file, text)
        })
        .collect();
    collect_prompts(read)
}

fn discover_prompts_in(dir: &Path, files: &[tempfile::NamedTempFile]) -> Vec<CustomPrompt> {
    discover_prompts_in_excluding(dir, &[], files)
}

fn prompt(name: &str, path: &str, content: &str) -> CustomPrompt {
    CustomPrompt { name: name.to_string(), path: path.to_string(), content: content.to_string() }
}

fn entry(file_name: &str, is_file: bool) -> DirEntry {
    DirEntry { file_name: file_name.to_string(), path: format!("/d/{file_name}"), is_file }
}

fn file(name: &str, path: &str) -> PromptFile {
    PromptFile { name: name.to_string(), path: path.to_string() }
}

#[test]
fn empty_when_dir_missing() {
    let tmp = tempfile::tempdir().expect("create TempDir");
    let missing = tmp.path().join("nope");
    let found = discover_prompts_in(&missing, &[]);
    assert!(found.is_empty());
}

#[test]
fn discovers_and_sorts_files() {
    let tmp = tempfile::tempdir().expect("create TempDir");
    let dir = tmp.path();
    let files = [make_file(dir, "b.md", b"b"), make_file(dir, "a.md", b"a")];
    let _subdir = make_dir(dir, "subdir");
    let found = discover_prompts_in(dir, &files);
    let names: Vec<String> = found.into_iter().map(|e| e.name).collect();
    assert_eq!(names, vec!["a", "b"]);
}

#[test]
fn excludes_builtins() {
    let tmp = tempfile::tempdir().expect("create TempDir");
    let dir = tmp.path();
    let files = [make_file(dir, "init.md", b"ignored"), make_file(dir, "foo.md", b"ok")];
    let found = discover_prompts_in_excluding(dir, &["init"], &files);
    let names: Vec<String> = found.into_iter().map(|e| e.name).collect();
    assert_eq!(names, vec!["foo"]);
}

#[test]
fn skips_non_utf8_files() {
    let tmp = tempfile::tempdir().expect("create TempDir");
    let dir = tmp.path();
    // Valid UTF-8 file, and invalid UTF-8 content in .md file (e.g., lone 0xFF byte)
    let files =
        [make_file(dir, "good.md", b"hello"), make_file(dir, "bad.md", &[0xFF, 0xFE, b'\n'])];
    let found = discover_prompts_in(dir, &files);
    let names: Vec<String> = found.into_iter().map(|e| e.name).collect();
    assert_eq!(names, vec!["good"]);
}

#[test]
fn project_overrides_personal_and_merges() {
    let tmp = tempfile::tempdir().expect("create TempDir");
    let root = tmp.path();
    let proj_dir = project_prompts_dir(root.to_str().unwrap());
    let codex = make_dir(root, ".codex");
    let prompts = make_dir(codex.path(), "prompts");
    assert_eq!(prompts.path(), Path::new(&proj_dir));
    // project: shared.md overrides, and x.md unique
    // personal: shared.md (should be ignored), and y.md unique
    let personal = make_dir(root, "personal");
    let files = [
        make_file(prompts.path(), "shared.md", b"project"),
        make_file(prompts.path(), "x.md", b"x"),
        make_file(personal.path(), "shared.md", b"personal"),
        make_file(personal.path(), "y.md", b"y"),
    ];

    let found = merge_prompts(
        discover_prompts_in(Path::new(&proj_dir), &files),
        discover_prompts_in(personal.path(), &files),
    );
    let mut names: Vec<(String, String)> =
        found.into_iter().map(|e| (e.name.clone(), e.content)).collect();
    names.sort_by(|a, b| a.0.cmp(&b.0));
    assert_eq!(
        names,
        vec![
            ("shared".to_string(), "project".to_string()),
            ("x".to_string(), "x".to_string()),
            ("y".to_string(), "y".to_string()),
        ]
    );
}

#[test]
fn discovered_prompts_carry_path_and_content() {
    let tmp = tempfile::tempdir().expect("create TempDir");
    let dir = tmp.path();
    let files = [make_file(dir, "Notes.MD", b"# Notes\n"), make_file(dir, "todo.txt", b"no")];
    let found = discover_prompts_in(dir, &files);
    assert_eq!(
        found,
        vec![prompt("Notes", dir.join("Notes.MD").to_str().unwrap(), "# Notes\n")]
    );
}

#[test]
fn selection_keeps_markdown_files_in_listing_order() {
    let entries = vec![
        entry("b.md", true),
        entry("a.md", true),
        entry("subdir", false),
        entry("dir.md", false),
        entry("UPPER.MD", true),
        entry("mixed.Md", true),
        entry("notes.txt", true),
        entry("md", true),
        entry(".md", true),
        entry("archive.tar.md", true),
        entry("trailing.md.", true),
        entry("init.md", true),
        entry("..md", true),
        entry("x.mdx", true),
        entry("\u{e9}t\u{e9}.md", true),
    ];
    let exclude = vec!["init".to_string(), "unused".to_string()];
    let selected = select_prompt_files(entries, &exclude);
    assert_eq!(
        selected,
        vec![
            file("b", "/d/b.md"),
            file("a", "/d/a.md"),
            file("UPPER", "/d/UPPER.MD"),
            file("mixed", "/d/mixed.Md"),
            file("archive.tar", "/d/archive.tar.md"),
            file(".", "/d/..md"),
            file("\u{e9}t\u{e9}", "/d/\u{e9}t\u{e9}.md"),
        ]
    );
    assert_eq!(select_prompt_files(Vec::new(), &exclude), Vec::new());
}

#[test]
fn an_excluded_name_is_compared_with_the_stem() {
    let entries = vec![entry("init.md", true), entry("Init.md", true), entry("init.MD", true)];
    let selected = select_prompt_files(entries, &vec!["init".to_string()]);
    assert_eq!(selected, vec![file("Init", "/d/Init.md")]);
}

#[test]
fn file_names_split_as_in_the_standard_library() {
    let names = [
        "a.md", "a", ".md", "..", ".", "", "a.", "a.b.c", "..md", "...", ".a.b", "a..b", "README",
        "x.MD", ".hidden", "\u{e9}.\u{fc}", "a b.c d", "a.tar.gz",
    ];
    for name in names {
        let path = Path::new(name);
        let stem = path.file_stem().map(|s| s.to_str().unwrap().to_string());
        let ext = path.extension().map(|s| s.to_str().unwrap().to_string());
        let (our_stem, our_ext) = split_file_name(name);
        if name.is_empty() || name == "." || name == ".." {
            // These name no file: the whole name is the stem.
            assert_eq!((our_stem.as_str(), our_ext), (name, None), "{name:?}");
        } else {
            assert_eq!((Some(our_stem), our_ext), (stem, ext), "{name:?}");
        }
    }
    assert_eq!(split_file_name("shared.md"), ("shared".to_string(), Some("md".to_string())));
}

#[test]
fn collecting_skips_unread_files_and_sorts_by_name() {
    let read = vec![
        (file("b", "/d/b.md"), Some("B".to_string())),
        (file("bad", "/d/bad.md"), None),
        (file("a", "/d/a.md"), Some("A".to_string())),
        (file("b", "/d/b.MD"), Some("second B".to_string())),
        (file("Z", "/d/Z.md"), Some(String::new())),
    ];
    assert_eq!(
        collect_prompts(read),
        vec![
            prompt("Z", "/d/Z.md", ""),
            prompt("a", "/d/a.md", "A"),
            prompt("b", "/d/b.md", "B"),
            prompt("b", "/d/b.MD", "second B"),
        ]
    );
    assert_eq!(collect_prompts(Vec::new()), Vec::new());
    assert_eq!(collect_prompts(vec![(file("x", "/x.md"), None)]), Vec::new());
}

#[test]
fn merging_prefers_the_project_and_sorts_by_name() {
    let project = vec![prompt("shared", "/p/shared.md", "project"), prompt("x", "/p/x.md", "x")];
    let personal = vec![prompt("shared", "/h/shared.md", "personal"), prompt("y", "/h/y.md", "y")];
    assert_eq!(
        merge_prompts(project, personal),
        vec![
            prompt("shared", "/p/shared.md", "project"),
            prompt("x", "/p/x.md", "x"),
            prompt("y", "/h/y.md", "y"),
        ]
    );
}

#[test]
fn merging_resolves_repeated_names() {
    // Of two prompts of the project under one name the later counts, of two
    // personal ones the earlier.
    let project = vec![prompt("p", "/p/p.md", "first"), prompt("p", "/p/p.MD", "second")];
    let personal = vec![
        prompt("q", "/h/q.md", "first"),
        prompt("q", "/h/q.MD", "second"),
        prompt("a", "/h/a.md", "a"),
    ];
    assert_eq!(
        merge_prompts(project, personal),
        vec![
            prompt("a", "/h/a.md", "a"),
            prompt("p", "/p/p.MD", "second"),
            prompt("q", "/h/q.md", "first"),
        ]
    );
    assert_eq!(merge_prompts(Vec::new(), Vec::new()), Vec::new());
    assert_eq!(
        merge_prompts(Vec::new(), vec![prompt("only", "/h/only.md", "o")]),
        vec![prompt("only", "/h/only.md", "o")]
    );
}

#[test]
fn prompt_directories() {
    assert_eq!(project_prompts_dir("/work"), "/work/.codex/prompts");
    assert_eq!(project_prompts_dir("/work/"), "/work/.codex/prompts");
    assert_eq!(project_prompts_dir(""), ".codex/prompts");
    assert_eq!(default_prompts_dir(Some("/home/u/.codex")), Some("/home/u/.codex/prompts".to_string()));
    assert_eq!(default_prompts_dir(None), None);
}
