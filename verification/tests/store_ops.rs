use edit_context::paths::{PathArena, PathHandle};
use edit_context::store::{
    add_to_context_window, convert_subkey, get_current_context_window, remove_from_context_window,
    validate_command_info, Node, RegValue,
};
use edit_context::types::ContextCommandInfo;
use edit_context::Error;

fn root_with_shell() -> Node {
    let shell = Node { values: vec![], children: vec![] };
    let directory = Node {
        values: vec![],
        children: vec![(String::from("shell"), shell)],
    };
    Node {
        values: vec![],
        children: vec![(String::from("Directory"), directory)],
    }
}

fn shell_path(arena: &mut PathArena) -> PathHandle {
    convert_subkey(&["Directory", "shell"], arena)
}

fn entry(title: &str, command: &str, path: PathHandle) -> ContextCommandInfo {
    ContextCommandInfo::new(
        String::from(title),
        String::from("cmd.exe"),
        String::from(command),
        String::from(title),
        path,
    )
}

#[test]
fn created_entry_shows_up_in_listing() {
    let mut store = root_with_shell();
    let mut arena = PathArena::new();
    let path = shell_path(&mut arena);
    let info = entry("Open", "cmd.exe /c", path);
    add_to_context_window(&mut store, &arena, &info).unwrap();
    let listed = get_current_context_window(&store, &arena, path).unwrap();
    assert_eq!(listed.len(), 1);
    assert_eq!(listed[0].title, "Open");
    assert_eq!(listed[0].icon, "cmd.exe");
    assert_eq!(listed[0].command, "cmd.exe /c");
    assert_eq!(listed[0].folder, "Open");
}

#[test]
fn folder_only_entry_is_not_listed() {
    // An empty command creates no nested command container, and the listing
    // skips children without one.
    let mut store = root_with_shell();
    let mut arena = PathArena::new();
    let path = shell_path(&mut arena);
    let info = entry("Group", "", path);
    add_to_context_window(&mut store, &arena, &info).unwrap();
    let listed = get_current_context_window(&store, &arena, path).unwrap();
    assert_eq!(listed.len(), 0);
}

#[test]
fn create_twice_gives_same_store_as_once() {
    let mut once = root_with_shell();
    let mut twice = root_with_shell();
    let mut arena = PathArena::new();
    let path = shell_path(&mut arena);
    let info = entry("Open", "cmd.exe /c", path);
    add_to_context_window(&mut once, &arena, &info).unwrap();
    add_to_context_window(&mut twice, &arena, &info).unwrap();
    add_to_context_window(&mut twice, &arena, &info).unwrap();
    assert_eq!(once, twice);
}

#[test]
fn update_overwrites_existing_values() {
    let mut store = root_with_shell();
    let mut arena = PathArena::new();
    let path = shell_path(&mut arena);
    let first = entry("Open", "cmd.exe /c", path);
    add_to_context_window(&mut store, &arena, &first).unwrap();
    let second = ContextCommandInfo::new(
        String::from("Open"),
        String::from("other.exe"),
        String::from("other /x"),
        String::from("Open"),
        path,
    );
    add_to_context_window(&mut store, &arena, &second).unwrap();
    let listed = get_current_context_window(&store, &arena, path).unwrap();
    assert_eq!(listed.len(), 1);
    assert_eq!(listed[0].icon, "other.exe");
    assert_eq!(listed[0].command, "other /x");
}

#[test]
fn delete_removes_folder_from_listing() {
    let mut store = root_with_shell();
    let mut arena = PathArena::new();
    let path = shell_path(&mut arena);
    let info = entry("Open", "cmd.exe /c", path);
    add_to_context_window(&mut store, &arena, &info).unwrap();
    remove_from_context_window(&mut store, &arena, &info).unwrap();
    let listed = get_current_context_window(&store, &arena, path).unwrap();
    assert!(listed.is_empty());
}

#[test]
fn create_rejects_empty_title_without_touching_store() {
    let mut store = root_with_shell();
    let untouched = root_with_shell();
    let mut arena = PathArena::new();
    let path = shell_path(&mut arena);
    let info = ContextCommandInfo::new(
        String::new(),
        String::from("cmd.exe"),
        String::from("cmd.exe /c"),
        String::from("Open"),
        path,
    );
    let result = add_to_context_window(&mut store, &arena, &info);
    assert_eq!(result, Err(Error::ValidationError));
    assert_eq!(store, untouched);
}

#[test]
fn create_rejects_empty_folder() {
    let mut store = root_with_shell();
    let mut arena = PathArena::new();
    let path = shell_path(&mut arena);
    let info = ContextCommandInfo::new(
        String::from("Open"),
        String::from("cmd.exe"),
        String::from("cmd.exe /c"),
        String::new(),
        path,
    );
    assert_eq!(add_to_context_window(&mut store, &arena, &info), Err(Error::ValidationError));
}

#[test]
fn create_rejects_empty_path_segment() {
    let mut store = root_with_shell();
    let mut arena = PathArena::new();
    let path = convert_subkey(&["Directory", ""], &mut arena);
    let info = entry("Open", "cmd.exe /c", path);
    assert_eq!(add_to_context_window(&mut store, &arena, &info), Err(Error::ValidationError));
}

#[test]
fn delete_rejects_invalid_entry_without_touching_store() {
    let mut store = root_with_shell();
    let untouched = root_with_shell();
    let mut arena = PathArena::new();
    let empty_path = convert_subkey(&[], &mut arena);
    let info = entry("Open", "cmd.exe /c", empty_path);
    assert_eq!(remove_from_context_window(&mut store, &arena, &info), Err(Error::ValidationError));
    assert_eq!(store, untouched);
}

#[test]
fn create_fails_with_not_found_on_missing_ancestor() {
    let mut store = root_with_shell();
    let untouched = root_with_shell();
    let mut arena = PathArena::new();
    let path = convert_subkey(&["Directory", "missing"], &mut arena);
    let info = entry("Open", "cmd.exe /c", path);
    assert_eq!(add_to_context_window(&mut store, &arena, &info), Err(Error::NotFound));
    assert_eq!(store, untouched);
}

#[test]
fn delete_fails_with_not_found_on_missing_folder() {
    let mut store = root_with_shell();
    let mut arena = PathArena::new();
    let path = shell_path(&mut arena);
    let info = entry("Never", "cmd.exe /c", path);
    assert_eq!(remove_from_context_window(&mut store, &arena, &info), Err(Error::NotFound));
}

#[test]
fn listing_fails_with_not_found_on_missing_path() {
    let store = root_with_shell();
    let mut arena = PathArena::new();
    let path = convert_subkey(&["NoSuch"], &mut arena);
    assert_eq!(get_current_context_window(&store, &arena, path), Err(Error::NotFound));
}

#[test]
fn listing_skips_child_missing_icon_but_succeeds() {
    let command_node = Node {
        values: vec![(String::new(), RegValue::Str(String::from("run")))],
        children: vec![],
    };
    let broken = Node {
        values: vec![(String::new(), RegValue::Str(String::from("Broken")))],
        children: vec![(String::from("command"), command_node)],
    };
    let good_command = Node {
        values: vec![(String::new(), RegValue::Str(String::from("go")))],
        children: vec![],
    };
    let good = Node {
        values: vec![
            (String::new(), RegValue::Str(String::from("Good"))),
            (String::from("icon"), RegValue::Str(String::from("app.exe"))),
        ],
        children: vec![(String::from("command"), good_command)],
    };
    let shell = Node {
        values: vec![],
        children: vec![
            (String::from("BrokenFolder"), broken),
            (String::from("GoodFolder"), good),
        ],
    };
    let store = Node {
        values: vec![],
        children: vec![(String::from("shell"), shell)],
    };
    let mut arena = PathArena::new();
    let path = convert_subkey(&["shell"], &mut arena);
    let listed = get_current_context_window(&store, &arena, path).unwrap();
    assert_eq!(listed.len(), 1);
    assert_eq!(listed[0].folder, "GoodFolder");
}

#[test]
fn listing_skips_child_with_non_string_title() {
    let shell = Node {
        values: vec![],
        children: vec![(
            String::from("Odd"),
            Node {
                values: vec![
                    (String::new(), RegValue::Dword(7)),
                    (String::from("icon"), RegValue::Str(String::from("x"))),
                ],
                children: vec![],
            },
        )],
    };
    let store = Node {
        values: vec![],
        children: vec![(String::from("shell"), shell)],
    };
    let mut arena = PathArena::new();
    let path = convert_subkey(&["shell"], &mut arena);
    assert!(get_current_context_window(&store, &arena, path).unwrap().is_empty());
}

#[test]
fn update_keeps_unrelated_values_in_folder() {
    let foreign = Node {
        values: vec![(String::from("keep"), RegValue::Dword(7))],
        children: vec![],
    };
    let shell = Node {
        values: vec![],
        children: vec![(String::from("Open"), foreign)],
    };
    let mut store = Node {
        values: vec![],
        children: vec![(String::from("shell"), shell)],
    };
    let mut arena = PathArena::new();
    let path = convert_subkey(&["shell"], &mut arena);
    let info = entry("Open", "cmd.exe /c", path);
    add_to_context_window(&mut store, &arena, &info).unwrap();
    let folder = &store.children[0].1.children[0].1;
    assert!(folder.values.iter().any(|(name, value)| name == "keep" && *value == RegValue::Dword(7)));
    assert!(folder.values.iter().any(|(name, _)| name.is_empty()));
}

#[test]
fn submenu_node_can_hold_nested_commands() {
    let mut store = root_with_shell();
    let mut arena = PathArena::new();
    let top = shell_path(&mut arena);
    let group = entry("Tools", "", top);
    add_to_context_window(&mut store, &arena, &group).unwrap();
    let nested_path = convert_subkey(&["Directory", "shell", "Tools"], &mut arena);
    let nested = entry("Inner", "run %V", nested_path);
    add_to_context_window(&mut store, &arena, &nested).unwrap();
    let listed = get_current_context_window(&store, &arena, nested_path).unwrap();
    assert_eq!(listed.len(), 1);
    assert_eq!(listed[0].title, "Inner");
}

#[test]
fn validation_accepts_complete_entry() {
    let mut arena = PathArena::new();
    let path = shell_path(&mut arena);
    let info = entry("Open", "", path);
    assert!(validate_command_info(&info, &arena));
}

#[test]
fn error_messages_name_the_failure() {
    assert_eq!(Error::ValidationError.message(), "one or more required arguments are empty");
    assert_eq!(Error::NotFound.message(), "the requested path or folder was not found");
    assert_eq!(Error::AccessDenied.message(), "access to the store was denied");
    assert_eq!(Error::StoreError.message(), "the backing store reported a failure");
}
