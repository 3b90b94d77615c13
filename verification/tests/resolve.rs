use docmerge::embed::{directive_target, ArgValue, DirectiveArg, EmbedError, FileEmbedder};
use docmerge::resolve::{find_index, find_unique, ResolveError, RootEntry, SearchRoot};

fn entry(path: &str, content: Option<&str>) -> RootEntry {
    RootEntry { path: path.to_string(), content: content.map(|c| c.to_string()) }
}

fn root() -> SearchRoot {
    SearchRoot {
        dir: "docs".to_string(),
        entries: vec![
            entry("docs/intro.md", Some("intro")),
            entry("docs/snippets", None),
            entry("docs/snippets/x.md", Some("line one\n  line <two> & \"three\"\n")),
            entry("docs/a/twice.txt", Some("first")),
            entry("docs/b/twice.txt", Some("second")),
            entry("docs/b/binary.dat", None),
        ],
    }
}

fn text_arg(name: &str, value: &str) -> DirectiveArg {
    DirectiveArg { name: name.to_string(), value: ArgValue::Text(value.to_string()) }
}

#[test]
fn find_unique_returns_the_one_file() {
    assert_eq!(find_unique(&root(), "x.md").unwrap(), "docs/snippets/x.md");
    assert_eq!(find_index(&root(), "x.md").unwrap(), 2);
}

#[test]
fn find_unique_finds_directories_too() {
    assert_eq!(find_unique(&root(), "snippets").unwrap(), "docs/snippets");
}

#[test]
fn find_unique_fails_on_no_match() {
    match find_unique(&root(), "missing.md") {
        Err(ResolveError::NotFound { root, name }) => {
            assert_eq!(root, "docs");
            assert_eq!(name, "missing.md");
        }
        other => panic!("unexpected: {:?}", other),
    }
}

#[test]
fn find_unique_fails_on_several_matches() {
    match find_unique(&root(), "twice.txt") {
        Err(ResolveError::Ambiguous { root, name, matches }) => {
            assert_eq!(root, "docs");
            assert_eq!(name, "twice.txt");
            assert_eq!(matches, 2);
        }
        other => panic!("unexpected: {:?}", other),
    }
}

#[test]
fn find_unique_in_an_empty_root_finds_nothing() {
    let empty = SearchRoot { dir: ".".to_string(), entries: Vec::new() };
    assert!(matches!(find_unique(&empty, "x.md"), Err(ResolveError::NotFound { .. })));
}

#[test]
fn find_unique_wants_the_whole_file_name() {
    assert!(matches!(find_unique(&root(), "x"), Err(ResolveError::NotFound { .. })));
    assert!(matches!(find_unique(&root(), "snippets/x.md"), Err(ResolveError::NotFound { .. })));
    assert!(matches!(find_unique(&root(), "*.md"), Err(ResolveError::NotFound { .. })));
}

#[test]
fn resolve_errors_name_root_and_file() {
    let not_found = ResolveError::NotFound { root: "docs".to_string(), name: "x.md".to_string() };
    assert_eq!(not_found.message(), "Found zero files with name x.md below docs");
    let ambiguous =
        ResolveError::Ambiguous { root: "docs".to_string(), name: "x.md".to_string(), matches: 12 };
    assert_eq!(ambiguous.message(), "Found 12 files with name x.md below docs");
}

#[test]
fn embedding_gives_the_content_unchanged() {
    let embedder = FileEmbedder::new(root());
    assert_eq!(embedder.resolve("x.md").unwrap(), "line one\n  line <two> & \"three\"\n");
    assert_eq!(
        embedder.call(&vec![text_arg("path", "x.md")]).unwrap(),
        "line one\n  line <two> & \"three\"\n"
    );
}

#[test]
fn embedding_fails_as_resolving_fails() {
    let embedder = FileEmbedder::new(root());
    assert!(matches!(
        embedder.resolve("missing.md"),
        Err(EmbedError::Unresolved(ResolveError::NotFound { .. }))
    ));
    assert!(matches!(
        embedder.resolve("twice.txt"),
        Err(EmbedError::Unresolved(ResolveError::Ambiguous { matches: 2, .. }))
    ));
}

#[test]
fn embedding_an_unreadable_file_fails() {
    let embedder = FileEmbedder::new(root());
    match embedder.resolve("binary.dat") {
        Err(EmbedError::Unreadable { path }) => assert_eq!(path, "docs/b/binary.dat"),
        other => panic!("unexpected: {:?}", other),
    }
}

#[test]
fn directive_needs_a_path_that_is_a_string() {
    assert_eq!(directive_target(&vec![text_arg("path", "x.md")]).unwrap(), "x.md");
    assert_eq!(
        directive_target(&vec![text_arg("other", "y"), text_arg("path", "x.md")]).unwrap(),
        "x.md"
    );
    assert!(matches!(directive_target(&Vec::new()), Err(EmbedError::InvalidArgument)));
    assert!(matches!(
        directive_target(&vec![text_arg("file", "x.md")]),
        Err(EmbedError::InvalidArgument)
    ));
    let wrong_type = DirectiveArg { name: "path".to_string(), value: ArgValue::Other };
    assert!(matches!(directive_target(&vec![wrong_type.clone()]), Err(EmbedError::InvalidArgument)));
    let embedder = FileEmbedder::new(root());
    assert!(matches!(embedder.call(&vec![wrong_type]), Err(EmbedError::InvalidArgument)));
}

#[test]
fn embed_errors_read_well() {
    assert_eq!(
        EmbedError::InvalidArgument.message(),
        "The directive needs a `path` argument that is a string"
    );
    assert_eq!(
        EmbedError::Unreadable { path: "docs/b.dat".to_string() }.message(),
        "Could not read docs/b.dat as text"
    );
    let inner = ResolveError::NotFound { root: "r".to_string(), name: "n".to_string() };
    assert_eq!(EmbedError::Unresolved(inner).message(), "Found zero files with name n below r");
}
