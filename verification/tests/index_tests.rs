use normd::args::note_file_name;
use normd::config::Config;
use normd::index::IndexWalk;

#[test]
fn walk_collects_files_under_their_directories() {
    // A tree with a.md at the root and b.md under sub.
    let mut walk = IndexWalk::new();
    let root = walk.next_dir().unwrap();
    assert_eq!(root, "");
    walk.record_entry(&root, "a.md", false);
    walk.record_entry(&root, "sub", true);
    let dir = walk.next_dir().unwrap();
    assert_eq!(dir, "sub");
    walk.record_entry(&dir, "b.md", false);
    assert!(walk.done());
    assert!(walk.next_dir().is_none());
    let files = walk.into_files();
    assert_eq!(files, vec!["a.md".to_string(), "sub/b.md".to_string()]);
}

#[test]
fn walk_of_an_empty_root_finds_nothing() {
    let mut walk = IndexWalk::new();
    let root = walk.next_dir().unwrap();
    assert_eq!(root, "");
    assert!(walk.done());
    assert_eq!(walk.into_files(), Vec::<String>::new());
}

#[test]
fn note_names_get_the_extension_once() {
    assert_eq!(note_file_name("today"), "today.md");
    assert_eq!(note_file_name("today.md"), "today.md");
    assert_eq!(note_file_name(""), ".md");
    assert_eq!(note_file_name("a.b"), "a.b.md");
}

#[test]
fn fallback_config_sits_under_home() {
    let config = Config::default_for_home("/home/someone");
    assert!(config.editor.is_none());
    assert_eq!(config.notes_dir, "/home/someone/notes");
    assert_eq!(config.port, 8080);
}
