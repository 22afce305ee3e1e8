use edit_context::config::keys_from_config;
use edit_context::parsing::{
    extended_path_value, folderize_title, sanitize, sanitize_command, sanitize_path,
};
use edit_context::paths::PathArena;
use edit_context::pixels::bgra_to_rgba;
use edit_context::types::{ContextCommandInfo, Key, KeyProps};

#[test]
fn sanitize_trims_surrounding_whitespace() {
    assert_eq!(sanitize(String::from("  hello world \r\n")), "hello world");
    assert_eq!(sanitize(String::from("\t\n")), "");
    assert_eq!(sanitize(String::from("plain")), "plain");
}

#[test]
fn folderize_removes_spaces_only() {
    assert_eq!(folderize_title(&String::from("Add To Path")), "AddToPath");
    assert_eq!(folderize_title(&String::from("solid")), "solid");
    assert_eq!(folderize_title(&String::from(" a\tb ")), "a\tb");
}

#[test]
fn sanitize_path_cuts_icon_index() {
    let cleaned = sanitize_path(String::from("C:\\app\\tool.exe,0"), None);
    assert_eq!(cleaned, "C:\\app\\tool.exe");
}

#[test]
fn sanitize_path_expands_home_placeholder() {
    let cleaned = sanitize_path(
        String::from("%USERPROFILE%\\bin\\tool.exe"),
        Some("C:\\Users\\sam"),
    );
    assert_eq!(cleaned, "C:\\Users\\sam\\bin\\tool.exe");
}

#[test]
fn sanitize_path_drops_placeholder_without_home() {
    let cleaned = sanitize_path(String::from("%USERPROFILE%\\bin\\tool.exe"), None);
    assert_eq!(cleaned, "\\bin\\tool.exe");
}

#[test]
fn sanitize_path_leaves_plain_paths_alone() {
    let cleaned = sanitize_path(String::from("C:\\plain\\path.exe"), Some("C:\\Users\\sam"));
    assert_eq!(cleaned, "C:\\plain\\path.exe");
}

#[test]
fn sanitize_command_cleans_title_and_icon() {
    let mut arena = PathArena::new();
    let path = edit_context::store::convert_subkey(&["Directory", "shell"], &mut arena);
    let cmd = ContextCommandInfo::new(
        String::from("Tool,3"),
        String::from("%USERPROFILE%\\tool.exe"),
        String::from("run %V"),
        String::from("Tool"),
        path,
    );
    let cleaned = sanitize_command(cmd, Some("D:\\home"));
    assert_eq!(cleaned.title, "Tool");
    assert_eq!(cleaned.icon, "D:\\home\\tool.exe");
    assert_eq!(cleaned.command, "run %V");
    assert_eq!(cleaned.folder, "Tool");
}

#[test]
fn extended_path_value_appends_with_semicolon() {
    assert_eq!(extended_path_value("C:\\a;C:\\b", "C:\\c"), "C:\\a;C:\\b;C:\\c");
}

#[test]
fn bgra_groups_swap_to_rgba() {
    let rgba = bgra_to_rgba(vec![1, 2, 3, 4, 5, 6, 7, 8]);
    assert_eq!(rgba, vec![3, 2, 1, 4, 7, 6, 5, 8]);
}

#[test]
fn bgra_trailing_bytes_copied_unchanged() {
    let rgba = bgra_to_rgba(vec![1, 2, 3, 4, 9, 9]);
    assert_eq!(rgba, vec![3, 2, 1, 4, 9, 9]);
}

#[test]
fn key_props_parse_from_names() {
    assert_eq!(KeyProps::from("HasExt"), KeyProps::HasExt);
    assert_eq!(KeyProps::from("anything"), KeyProps::Plain);
    assert_eq!(KeyProps::from(""), KeyProps::Plain);
}

#[test]
fn with_path_splits_on_slashes() {
    let mut arena = PathArena::new();
    let key = Key::new(String::from("Files"), &mut arena).with_path("*/shell", &mut arena);
    let segs = arena.segments(key.clone_path());
    assert_eq!(segs, &vec![String::from("*"), String::from("shell")]);
}

#[test]
fn shared_path_mutation_is_visible_to_all_holders() {
    let mut arena = PathArena::new();
    let key = Key::new(String::from("Ext"), &mut arena)
        .with_path("txt/shell", &mut arena)
        .with_props(KeyProps::HasExt);
    let shared = key.clone_path();
    let key = key.with_extension(String::from("md"), &mut arena);
    assert_eq!(arena.segments(shared)[0], "md");
    assert_eq!(arena.segments(key.clone_path())[0], "md");
}

#[test]
fn plain_key_ignores_extension_swap() {
    let mut arena = PathArena::new();
    let key = Key::new(String::from("Dirs"), &mut arena).with_path("Directory/shell", &mut arena);
    let key = key.with_extension(String::from("md"), &mut arena);
    assert_eq!(arena.segments(key.clone_path())[0], "Directory");
}

#[test]
fn deep_clone_gives_independent_path() {
    let mut arena = PathArena::new();
    let key = Key::new(String::from("Ext"), &mut arena)
        .with_path("txt/shell", &mut arena)
        .with_props(KeyProps::HasExt);
    let copy = key.deep_clone(&mut arena);
    let copy = copy.with_extension(String::from("md"), &mut arena);
    assert_eq!(arena.segments(key.clone_path())[0], "txt");
    assert_eq!(arena.segments(copy.clone_path())[0], "md");
}

#[test]
fn entries_compare_by_identity_not_content() {
    let mut arena = PathArena::new();
    let path = edit_context::store::convert_subkey(&["Directory"], &mut arena);
    let a = ContextCommandInfo::new(
        String::from("Same"),
        String::from("icon"),
        String::from("cmd"),
        String::from("Same"),
        path,
    );
    let b = ContextCommandInfo::new(
        String::from("Same"),
        String::from("icon"),
        String::from("cmd"),
        String::from("Same"),
        path,
    );
    assert_ne!(a, b);
    let copy = a.clone();
    assert_eq!(a, copy);
}

#[test]
fn display_string_shows_title_and_command() {
    let mut arena = PathArena::new();
    let path = edit_context::store::convert_subkey(&["Directory"], &mut arena);
    let a = ContextCommandInfo::new(
        String::from("Open"),
        String::from("icon"),
        String::from("cmd /c"),
        String::from("Open"),
        path,
    );
    assert_eq!(a.display_string(), "Title: Open, Command: cmd /c");
}

#[test]
fn keys_from_config_applies_first_matching_prop() {
    let mut arena = PathArena::new();
    let key_entries = vec![
        (String::from("Files"), String::from("*/shell")),
        (String::from("Ext"), String::from("txt/shell")),
    ];
    let prop_entries = vec![
        (String::from("Ext"), String::from("HasExt")),
        (String::from("Ext"), String::from("ignored")),
        (String::from("Other"), String::from("HasExt")),
    ];
    let keys = keys_from_config(&key_entries, &prop_entries, &mut arena);
    assert_eq!(keys.len(), 2);
    assert_eq!(keys[0].name, "Files");
    assert_eq!(keys[0].properties, KeyProps::Plain);
    assert_eq!(arena.segments(keys[0].clone_path()), &vec![String::from("*"), String::from("shell")]);
    assert_eq!(keys[1].name, "Ext");
    assert_eq!(keys[1].properties, KeyProps::HasExt);
    assert_eq!(arena.segments(keys[1].clone_path()), &vec![String::from("txt"), String::from("shell")]);
}
