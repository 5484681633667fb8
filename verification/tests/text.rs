use git_integrity::local_drive::browsing::{list_local_directory_inner, ListedItem};
use git_integrity::local_drive::merge::{comparison_key, configured_submodule_keys, safe_relative_path};
use git_integrity::local_drive::EntryType;
use git_integrity::numerals::{decimal_text, hex_text};
use git_integrity::paths::{contains_git_metadata, path_string, require_absolute, safe_new_folder_name};
use git_integrity::pieces::{join, split_at_char, split_once};
use git_integrity::text::{
    ascii_lowercase, contains_char, eq_ignore_ascii_case, replace_char, same_text, strip, text_before, trim,
    white_space,
};
use git_integrity::text_map::TextMap;

#[test]
fn white_space_is_that_of_unicode() {
    for code in 0..0x110000u32 {
        if let Some(c) = char::from_u32(code) {
            assert_eq!(white_space(c), c.is_whitespace(), "{code:x}");
        }
    }
}

#[test]
fn trimming_and_stripping_leave_the_middle() {
    for sample in ["", " ", "a", " a b ", "\t\u{3000}x\u{a0}", "no"] {
        assert_eq!(trim(sample), sample.trim());
    }
    assert_eq!(strip("//a/b/", '/'), "a/b");
    assert_eq!(strip("///", '/'), "");
    assert_eq!(replace_char("a\\b\\", '\\', '/'), "a/b/");
    assert!(contains_char("a:b", ':'));
    assert!(!contains_char("ab", ':'));
}

#[test]
fn texts_compare_by_their_characters() {
    assert!(same_text("é", "é"));
    assert!(!same_text("é", "e"));
    assert!(eq_ignore_ascii_case(".GiT", ".git"));
    assert!(!eq_ignore_ascii_case("É", "é"));
    assert_eq!(ascii_lowercase("AÉz"), "aÉz");
    let samples = ["", "a", "ab", "b", "é", "\u{ffff}", "\u{10000}", "A"];
    for a in samples {
        for b in samples {
            assert_eq!(text_before(a, b), a < b);
        }
    }
}

#[test]
fn pieces_are_split_and_joined() {
    for sample in ["", "/", "a", "a/b", "/a//b/"] {
        let expected: Vec<String> = sample.split('/').map(String::from).collect();
        assert_eq!(split_at_char(sample, '/'), expected);
        assert_eq!(join(&expected, "/"), sample);
    }
    assert_eq!(split_once("a=b=c", '='), Some(("a".to_string(), "b=c".to_string())));
    assert_eq!(split_once("abc", '='), None);
}

#[test]
fn numbers_are_written_like_the_standard_library_writes_them() {
    for n in [0u64, 9, 10, 12345, u64::MAX] {
        assert_eq!(decimal_text(n), n.to_string());
        assert_eq!(hex_text(n, 16), format!("{n:016x}"));
    }
}

#[test]
fn a_text_map_keeps_its_keys_in_order() {
    let mut map: TextMap<u32> = TextMap::new();
    for (n, key) in ["m", "b", "z", "a", "b"].iter().enumerate() {
        map.insert(key.to_string(), n as u32);
    }
    assert_eq!(map.len(), 4);
    let keys: Vec<&str> = (0..map.len()).map(|i| map.key_at(i).as_str()).collect();
    assert_eq!(keys, vec!["a", "b", "m", "z"]);
    assert_eq!(map.get("b"), Some(&4));
    assert_eq!(*map.value_at(0), 3);
    map.remove("m");
    map.remove("nothing");
    assert!(!map.contains_key("m"));
    assert_eq!(map.len(), 3);
    assert_eq!(map.get("m"), None);
    assert!(!map.is_empty());
}

#[test]
fn absolute_paths_are_asked_for() {
    assert_eq!(require_absolute(" /tmp/x ").unwrap(), "/tmp/x");
    assert_eq!(require_absolute("").unwrap_err(), "Choose a local folder first");
    assert_eq!(require_absolute("tmp").unwrap_err(), "Local Drive accepts only absolute paths");
}

#[test]
fn git_metadata_is_recognised_in_every_case() {
    assert!(contains_git_metadata("/a/.git/config"));
    assert!(contains_git_metadata("/a/.GIT"));
    assert!(!contains_git_metadata("/a/.github/.gitignore"));
    assert!(!contains_git_metadata("/"));
}

#[test]
fn paths_are_put_together() {
    assert_eq!(path_string("/a", "b/c"), "/a/b/c");
    assert_eq!(path_string("/a/", "b"), "/a/b");
    assert_eq!(path_string("", "b"), "b");
}

#[test]
fn names_of_new_folders_are_checked() {
    assert_eq!(safe_new_folder_name("  new folder ").unwrap(), "new folder");
    assert_eq!(safe_new_folder_name("...").unwrap(), "...");
    assert_eq!(safe_new_folder_name(" ").unwrap_err(), "Enter a folder name");
    assert_eq!(safe_new_folder_name("a/b").unwrap_err(), "Enter one folder name, without a path");
    assert_eq!(safe_new_folder_name("a\\b").unwrap_err(), "Enter one folder name, without a path");
    assert_eq!(safe_new_folder_name(".").unwrap_err(), "Enter one folder name, without a path");
    assert_eq!(safe_new_folder_name("..").unwrap_err(), "Enter one folder name, without a path");
    assert_eq!(safe_new_folder_name(".Git").unwrap_err(), "That folder name is protected");
}

#[test]
fn merge_items_stay_inside() {
    let accepted = safe_relative_path(" a//b/./c ").unwrap();
    assert_eq!(accepted.text, "a//b/./c");
    assert_eq!(accepted.names, vec!["a", "b", "c"]);
    let outside = "The merge item must stay inside the selected folders and cannot include .git metadata";
    let refusal = |path: &str| safe_relative_path(path).err().unwrap();
    assert_eq!(refusal("a/../b"), outside);
    assert_eq!(refusal("./a"), outside);
    assert_eq!(refusal("a/.GIT/b"), outside);
    assert_eq!(refusal("/a"), "Choose one item inside the compared folder");
    assert_eq!(refusal("  "), "Choose one item inside the compared folder");
}

#[test]
fn keys_ignore_separators_and_on_windows_case() {
    assert_eq!(comparison_key("Dir\\File", false), "Dir/File");
    assert_eq!(comparison_key("DIR\\ÉΣ", true), "DIR/ÉΣ".to_lowercase());
}

#[test]
fn declared_submodules_become_keys() {
    let mut keys = TextMap::new();
    configured_submodule_keys(
        "[submodule \"x\"]\r\n\tpath = Mods/x \r\n\turl = y\npath=../out\n path = /abs\npaths = no\npath = z=1\n",
        true,
        &mut keys,
    );
    assert_eq!(keys.len(), 2);
    assert!(keys.contains_key("mods/x"));
    assert!(keys.contains_key("z=1"));
    configured_submodule_keys("path = Mods/x\n", false, &mut keys);
    assert!(keys.contains_key("Mods/x"));
    assert_eq!(keys.len(), 3);
}

#[test]
fn the_parent_of_a_listed_folder_is_the_path_without_its_last_name() {
    let none: Vec<ListedItem> = Vec::new();
    let parent = |path: &str| list_local_directory_inner(path, &none).parent;
    for path in ["/a/b", "/a/b/", "/a//b", "/a", "/", "", "a", "a/./b", "./a", ".", "/."] {
        let expected = std::path::Path::new(path).parent().map(|p| p.to_string_lossy().into_owned());
        assert_eq!(parent(path), expected);
    }
    assert_eq!(parent("/a/b"), Some("/a".to_string()));
    assert_eq!(parent("/"), None);
}

#[test]
fn a_listing_orders_by_the_lower_case_of_all_letters() {
    let item = |name: &str| ListedItem {
        name: name.to_string(),
        path: format!("/{name}"),
        entry: EntryType::Directory,
        modified: None,
    };
    let names = ["Éa", "éb", "Z", "ÉC", "a"];
    let listed = list_local_directory_inner("/", &names.iter().map(|name| item(name)).collect());
    let mut expected: Vec<&str> = names.to_vec();
    expected.sort_by_cached_key(|name| name.to_lowercase());
    assert_eq!(listed.entries.iter().map(|entry| entry.name.as_str()).collect::<Vec<_>>(), expected);
}

#[test]
fn an_order_of_equal_names_is_that_in_which_they_were_found() {
    let item = |name: &str, path: &str| ListedItem {
        name: name.to_string(),
        path: path.to_string(),
        entry: EntryType::File { bytes: 0 },
        modified: None,
    };
    let items = vec![item("X", "1"), item("a", "2"), item("x", "3"), item("A", "4"), item("x", "5")];
    let listed = list_local_directory_inner("/", &items);
    let places: Vec<&str> = listed.entries.iter().map(|entry| entry.path.as_str()).collect();
    assert_eq!(places, vec!["2", "4", "1", "3", "5"]);
}
