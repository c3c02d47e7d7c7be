use codex_agents::error::AgentError;
use codex_agents::guard::{
    get_agents_directory, personal_root, personal_root_under, prompt_candidate, TrustedRoots,
};
use codex_agents::paths::{join_path, path_within};
use std::io::Write;
use std::path::{Path, PathBuf};

fn canonical(path: &str) -> Option<String> {
    Path::new(path).canonicalize().ok().and_then(|p| p.to_str().map(String::from))
}

// Resolves a request the way a caller does: ask the file system, then the
// guard.
fn validate(base_dir: &Path, requested: &str) -> Result<String, AgentError> {
    let base = base_dir.to_str().unwrap();
    let personal = personal_root();
    let personal_canonical = personal.as_deref().and_then(canonical);
    let roots = TrustedRoots::new(base, canonical(base), personal, personal_canonical);
    let candidate = prompt_candidate(base, requested);
    roots.validate_prompt_path(canonical(&candidate))
}

// A directory of the given name below `parent`, removed when dropped.
fn make_dir(parent: &Path, name: &str) -> tempfile::TempDir {
    tempfile::Builder::new().prefix(name).rand_bytes(0).tempdir_in(parent).unwrap()
}

// A file of the given name and contents below `parent`, removed when
// dropped.
fn make_file(parent: &Path, name: &str, contents: &[u8]) -> tempfile::NamedTempFile {
    let mut file = tempfile::Builder::new().prefix(name).rand_bytes(0).tempfile_in(parent).unwrap();
    file.write_all(contents).unwrap();
    file.flush().unwrap();
    file
}

#[test]
fn test_path_traversal_prevention() {
    // Create a temporary directory structure
    let temp_dir = tempfile::TempDir::new().unwrap();
    let base_dir = temp_dir.path();

    // Create a safe file
    let safe_dir = make_dir(base_dir, "prompts");
    let _safe_file = make_file(safe_dir.path(), "test.txt", b"safe content");

    // Test that normal paths work
    let result = validate(base_dir, "prompts/test.txt");
    assert!(result.is_ok());

    // Test that path traversal is blocked
    let result = validate(base_dir, "../../../etc/passwd");
    assert!(result.is_err());
    assert!(result.unwrap_err().message().contains("Security error"));

    // Test that absolute paths outside allowed dirs are blocked
    let result = validate(base_dir, "/etc/passwd");
    assert!(result.is_err());
}

#[test]
fn a_detour_is_judged_by_where_it_ends() {
    let temp_dir = tempfile::TempDir::new().unwrap();
    let base_dir = temp_dir.path();
    let sub = make_dir(base_dir, "sub");
    let _inside = make_file(base_dir, "real.txt", b"fine");
    let real = base_dir.join("real.txt").canonicalize().unwrap().to_str().unwrap().to_string();

    // A detour that ends up inside is accepted, under its canonical path.
    assert_eq!(validate(base_dir, "sub/../real.txt"), Ok(real.clone()));
    assert_eq!(validate(base_dir, "./sub/.././real.txt"), Ok(real.clone()));
    // So is an absolute path that lies inside.
    assert_eq!(validate(base_dir, &real), Ok(real.clone()));

    // A file beside the root is rejected, however it is reached.
    let outside = tempfile::TempDir::new().unwrap();
    let _secret = make_file(outside.path(), "secret.txt", b"secret");
    let secret = outside.path().join("secret.txt");
    assert_eq!(validate(base_dir, secret.to_str().unwrap()), Err(AgentError::OutsideTrustedRoots));
    let name = outside.path().file_name().unwrap().to_str().unwrap();
    let detour = format!("../{name}/secret.txt");
    assert!(base_dir.join(&detour).canonicalize().is_ok());
    assert_eq!(validate(base_dir, &detour), Err(AgentError::OutsideTrustedRoots));

    // From the directory below, the root's own file is outside.
    assert_eq!(validate(sub.path(), "../real.txt"), Err(AgentError::OutsideTrustedRoots));

    // A file that does not exist cannot be resolved.
    assert_eq!(validate(base_dir, "nothing.txt"), Err(AgentError::OutsideTrustedRoots));
}

#[test]
fn guard_decides_on_canonical_paths() {
    let roots = TrustedRoots::new(
        "/work/.codex",
        Some("/real/work/.codex".to_string()),
        Some("/home/u/.codex".to_string()),
        None,
    );
    assert_eq!(roots.base, "/real/work/.codex");
    assert_eq!(roots.personal, Some("/home/u/.codex".to_string()));
    let ok = |p: &str| roots.validate_prompt_path(Some(p.to_string()));
    assert_eq!(ok("/real/work/.codex/prompts/a.txt"), Ok("/real/work/.codex/prompts/a.txt".into()));
    assert_eq!(ok("/real/work/.codex"), Ok("/real/work/.codex".into()));
    assert_eq!(ok("/home/u/.codex/p.md"), Ok("/home/u/.codex/p.md".into()));
    assert_eq!(ok("/work/.codex/prompts/a.txt"), Err(AgentError::OutsideTrustedRoots));
    assert_eq!(ok("/real/work/.codex-other/a.txt"), Err(AgentError::OutsideTrustedRoots));
    assert_eq!(ok("/etc/passwd"), Err(AgentError::OutsideTrustedRoots));
    assert_eq!(ok("/home/u"), Err(AgentError::OutsideTrustedRoots));
    assert_eq!(roots.validate_prompt_path(None), Err(AgentError::OutsideTrustedRoots));
    assert!(roots.contains("/home/u/.codex/x"));
    assert!(!roots.contains("/home/u/.codexx"));
}

#[test]
fn guard_falls_back_to_the_written_root() {
    let roots = TrustedRoots::new("/work/.codex", None, None, Some("/ignored".to_string()));
    assert_eq!(roots.base, "/work/.codex");
    assert_eq!(roots.personal, None);
    assert!(roots.contains("/work/.codex/a"));
    assert!(!roots.contains("/ignored/a"));

    let roots = TrustedRoots::new(
        "/work/.codex",
        None,
        Some("/home/u/.codex".to_string()),
        Some("/mnt/home/u/.codex".to_string()),
    );
    assert_eq!(roots.personal, Some("/mnt/home/u/.codex".to_string()));
    assert!(roots.contains("/mnt/home/u/.codex/a"));
    assert!(!roots.contains("/home/u/.codex/a"));
}

#[test]
fn joining_agrees_with_the_standard_library() {
    let bases = ["", "/", "/a", "/a/", "a", "a/b", "a/b/", ".", "..", "/a//", "\u{e9}t\u{e9}"];
    let rels = ["", "x", "x/y", "/x", "/", "./x", "../x", "x/", "\u{fc}", ".codex", "//x"];
    for base in bases {
        for rel in rels {
            let expected: PathBuf = Path::new(base).join(rel);
            assert_eq!(join_path(base, rel), expected.to_str().unwrap(), "{base:?} + {rel:?}");
        }
    }
    assert_eq!(join_path("/tmp/x", "prompts/test.txt"), "/tmp/x/prompts/test.txt");
    assert_eq!(prompt_candidate("/tmp/x", "/etc/passwd"), "/etc/passwd");
    assert_eq!(prompt_candidate("/tmp/x", "../../../etc/passwd"), "/tmp/x/../../../etc/passwd");
}

#[test]
fn containment_agrees_with_the_standard_library() {
    let paths = [
        "", "/", "/a", "/a/", "/a/b", "/a/b/c", "/a//b", "/a/./b", "/ab", "/a/bc", "a", "a/b",
        "a/b/c", "/a/../b", "/a/..", "/b", "//a/b", "/a/b/", "/a/b/.", "ab/c", "/\u{e9}/x",
        "/\u{e9}", "/a/b/..", "/..",
    ];
    for path in paths {
        for root in paths {
            if root.is_empty() {
                // No path that starts at the root of the file system lies
                // within a root that names nothing.
                assert_eq!(path_within(path, root), !path.starts_with('/'), "{path:?}");
                continue;
            }
            assert_eq!(
                path_within(path, root),
                Path::new(path).starts_with(Path::new(root)),
                "{path:?} within {root:?}"
            );
        }
    }
    assert!(path_within("/tmp/x/prompts/test.txt", "/tmp/x"));
    assert!(!path_within("/etc/passwd", "/tmp/x"));
    assert!(!path_within("/tmp/xy", "/tmp/x"));
}

#[test]
fn personal_root_lies_below_the_home_directory() {
    assert_eq!(personal_root_under(Some("/home/u")), Some("/home/u/.codex".to_string()));
    assert_eq!(personal_root_under(Some("/home/u/")), Some("/home/u/.codex".to_string()));
    assert_eq!(personal_root_under(None), None);
    let expected = dirs::home_dir().map(|h| h.join(".codex").to_str().unwrap().to_string());
    assert_eq!(personal_root(), expected);
}

#[test]
fn agents_directory_prefers_home() {
    assert_eq!(
        get_agents_directory(Some("/home/u"), Some("C:/Users/u")),
        Some("/home/u/.codex".to_string())
    );
    assert_eq!(get_agents_directory(None, Some("/users/u")), Some("/users/u/.codex".to_string()));
    assert_eq!(get_agents_directory(None, None), None);
}
