use edit_context::export::{backup_file_name, backup_file_name_for, encode_value, export_paths};
use edit_context::paths::PathArena;
use edit_context::store::{Node, RegValue};
use edit_context::Error;

fn entry_store() -> Node {
    let command_node = Node {
        values: vec![(String::new(), RegValue::Str(String::from("cmd.exe /c")))],
        children: vec![],
    };
    let shell = Node {
        values: vec![
            (String::new(), RegValue::Str(String::from("Open"))),
            (String::from("icon"), RegValue::Str(String::from("cmd.exe"))),
            (String::from("num"), RegValue::Dword(0x000001A2)),
            (String::from("exp"), RegValue::Expand(vec![0x25, 0x00])),
            (String::from("other"), RegValue::Other),
        ],
        children: vec![(String::from("command"), command_node)],
    };
    let directory = Node {
        values: vec![],
        children: vec![(String::from("shell"), shell)],
    };
    Node {
        values: vec![],
        children: vec![(String::from("Directory"), directory)],
    }
}

#[test]
fn dword_encodes_little_endian_lowercase() {
    let encoded = encode_value(&RegValue::Dword(0x000001A2));
    assert_eq!(encoded, "dword:a2010000");
}

#[test]
fn expandable_string_encodes_hex_pairs_without_trailing_comma() {
    let encoded = encode_value(&RegValue::Expand(vec![0x25, 0x00]));
    assert_eq!(encoded, "hex(2):25,00");
}

#[test]
fn string_escapes_embedded_quote() {
    let encoded = encode_value(&RegValue::Str(String::from("say \"hi\"")));
    assert_eq!(encoded, "\"say \\\"hi\\\"\"");
}

#[test]
fn unknown_kind_encodes_as_empty_quoted_string() {
    let encoded = encode_value(&RegValue::Other);
    assert_eq!(encoded, "\"\"");
}

#[test]
fn single_byte_expandable_has_no_comma() {
    let encoded = encode_value(&RegValue::Expand(vec![0xAB]));
    assert_eq!(encoded, "hex(2):ab");
}

#[test]
fn empty_expandable_encodes_bare_tag() {
    let encoded = encode_value(&RegValue::Expand(vec![]));
    assert_eq!(encoded, "hex(2):");
}

#[test]
fn export_renders_sections_values_and_children() {
    let store = entry_store();
    let mut arena = PathArena::new();
    let shell_path = edit_context::store::convert_subkey(&["Directory", "shell"], &mut arena);
    let doc = export_paths(&store, &arena, "HKEY_CLASSES_ROOT", &vec![shell_path]).unwrap();
    let expected = String::from("Windows Registry Editor Version 5.00\n")
        + "\n[HKEY_CLASSES_ROOT\\Directory\\shell]\n"
        + "@=\"Open\"\n"
        + "\"icon\"=\"cmd.exe\"\n"
        + "\"num\"=dword:a2010000\n"
        + "\"exp\"=hex(2):25,00\n"
        + "\"other\"=\"\"\n"
        + "\n[HKEY_CLASSES_ROOT\\Directory\\shell\\command]\n"
        + "@=\"cmd.exe /c\"\n";
    assert_eq!(doc, expected);
}

#[test]
fn export_partial_failure_keeps_resolving_path() {
    let store = entry_store();
    let mut arena = PathArena::new();
    let good = edit_context::store::convert_subkey(&["Directory", "shell"], &mut arena);
    let missing = edit_context::store::convert_subkey(&["NoSuch", "shell"], &mut arena);
    let doc = export_paths(&store, &arena, "HKEY_CLASSES_ROOT", &vec![good, missing]).unwrap();
    assert!(doc.contains("[HKEY_CLASSES_ROOT\\Directory\\shell]"));
    assert!(!doc.contains("NoSuch"));
}

#[test]
fn export_fails_when_no_requested_path_resolves() {
    let store = entry_store();
    let mut arena = PathArena::new();
    let missing = edit_context::store::convert_subkey(&["NoSuch"], &mut arena);
    let result = export_paths(&store, &arena, "HKEY_CLASSES_ROOT", &vec![missing]);
    assert_eq!(result, Err(Error::NotFound));
}

#[test]
fn export_of_empty_request_is_bare_header() {
    let store = entry_store();
    let arena = PathArena::new();
    let doc = export_paths(&store, &arena, "HKEY_CLASSES_ROOT", &vec![]).unwrap();
    assert_eq!(doc, "Windows Registry Editor Version 5.00\n");
}

#[test]
fn export_skips_children_with_empty_names() {
    let odd = Node {
        values: vec![],
        children: vec![(
            String::new(),
            Node { values: vec![(String::new(), RegValue::Str(String::from("x")))], children: vec![] },
        )],
    };
    let root = Node {
        values: vec![],
        children: vec![(String::from("Top"), odd)],
    };
    let mut arena = PathArena::new();
    let top = edit_context::store::convert_subkey(&["Top"], &mut arena);
    let doc = export_paths(&root, &arena, "ROOT", &vec![top]).unwrap();
    assert_eq!(doc, "Windows Registry Editor Version 5.00\n\n[ROOT\\Top]\n");
}

#[test]
fn backup_name_embeds_root_and_timestamp() {
    let name = backup_file_name_for("HKEY_CLASSES_ROOT", "2024-01-02-03-04-05");
    assert_eq!(name, "backup-HKEY_CLASSES_ROOT-2024-01-02-03-04-05.reg");
}

#[test]
fn backup_name_uses_current_clock() {
    let name = backup_file_name("ROOT");
    assert!(name.starts_with("backup-ROOT-"));
    assert!(name.ends_with(".reg"));
    // YYYY-MM-DD-HH-MM-SS is nineteen characters.
    assert_eq!(name.len(), "backup-ROOT-".len() + 19 + ".reg".len());
}
