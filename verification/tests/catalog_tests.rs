use bw_env::catalog::{
    find_folder_by_id, get_all_items_in_subtree, get_bw_env_related_folders, get_folder_info,
    group_items_by_dir, list_items, vault_item_url,
};
use bw_env::hierarchy::{ensure_path, store_env_into};
use bw_env::model::{VaultFolder, VaultItem, VaultState};

fn folder(id: &str, name: &str) -> VaultFolder {
    VaultFolder { id: id.to_string(), name: name.to_string() }
}

fn item_in(id: &str, name: &str, folder_id: Option<&str>) -> VaultItem {
    VaultItem {
        id: id.to_string(),
        name: name.to_string(),
        content: String::new(),
        folder_id: folder_id.map(|s| s.to_string()),
    }
}

#[test]
fn subtree_keeps_root_and_nested_folders_only() {
    let folders = vec![
        folder("f1", "bw-env"),
        folder("f2", "bw-env/acme"),
        folder("f3", "bw-envelope"),
        folder("f4", "elsewhere"),
        folder("f5", "bw-env/acme/widgets"),
    ];
    let ids = get_bw_env_related_folders(&folders, "bw-env");
    assert_eq!(ids, vec!["f1", "f2", "f5"]);
}

#[test]
fn list_items_filters_by_folder() {
    let items = vec![
        item_in("i1", "a", Some("f1")),
        item_in("i2", "b", Some("f2")),
        item_in("i3", "c", Some("f1")),
        item_in("i4", "d", None),
    ];
    let got = list_items(&items, "f1");
    let names: Vec<&str> = got.iter().map(|i| i.name.as_str()).collect();
    assert_eq!(names, vec!["a", "c"]);
}

#[test]
fn subtree_items_follow_folder_then_listing_order() {
    let mut state = VaultState::new();
    store_env_into(&mut state, "acme/widgets/.env", "A=1", true).unwrap();
    store_env_into(&mut state, "acme/.env", "B=2", true).unwrap();
    store_env_into(&mut state, "top.env", "C=3", false).unwrap();
    let all = get_all_items_in_subtree(&state);
    let names: Vec<&str> = all.iter().map(|i| i.name.as_str()).collect();
    // Folders are listed in creation order: bw-env, bw-env/acme,
    // bw-env/acme/widgets; items follow their folders.
    assert_eq!(names, vec!["top.env", ".env", ".env"]);
    assert_eq!(all[1].content, "B=2");
    assert_eq!(all[2].content, "A=1");
}

#[test]
fn find_folder_by_id_first_match() {
    let folders = vec![folder("f1", "bw-env"), folder("f2", "bw-env/acme")];
    let got = find_folder_by_id(&folders, "f2").unwrap();
    assert_eq!(got.name, "bw-env/acme");
    assert!(find_folder_by_id(&folders, "nope").is_none());
}

#[test]
fn folder_info_resolves_known_folder() {
    let folders = vec![folder("f1", "bw-env"), folder("f2", "bw-env/acme")];
    let it = item_in("i1", "x", Some("f2"));
    assert_eq!(
        get_folder_info(&it, &folders),
        ("bw-env/acme".to_string(), "f2".to_string())
    );
}

#[test]
fn folder_info_falls_back_for_unknown_or_missing_folder() {
    let folders = vec![folder("f1", "bw-env")];
    let unknown = item_in("i1", "x", Some("gone"));
    assert_eq!(
        get_folder_info(&unknown, &folders),
        ("bw-env".to_string(), "gone".to_string())
    );
    let orphan = item_in("i2", "y", None);
    assert_eq!(
        get_folder_info(&orphan, &folders),
        ("bw-env".to_string(), "f1".to_string())
    );
    let no_root = item_in("i3", "z", None);
    assert_eq!(
        get_folder_info(&no_root, &Vec::new()),
        ("bw-env".to_string(), "unknown".to_string())
    );
}

#[test]
fn vault_link_format() {
    assert_eq!(
        vault_item_url("f9", "i7"),
        "https://vault.bitwarden.com/#/vault?folderId=f9&itemId=i7&action=view"
    );
}

#[test]
fn grouping_first_seen_order_with_duplicate_keys() {
    let items = vec![
        item_in("i1", "b/x", None),
        item_in("i2", "a/y", None),
        item_in("i3", "b/z", None),
        item_in("i4", "plain", None),
    ];
    let groups = group_items_by_dir(&items);
    assert_eq!(groups.len(), 2);
    assert_eq!(groups[0].dir, "b");
    assert_eq!(groups[0].indices, vec![0, 2]);
    assert_eq!(groups[1].dir, "a");
    assert_eq!(groups[1].indices, vec![1]);
}

#[test]
fn grouping_of_empty_list() {
    let items: Vec<VaultItem> = Vec::new();
    assert!(group_items_by_dir(&items).is_empty());
}

#[test]
fn minted_folder_ids_resolve_back() {
    let mut state = VaultState::new();
    let r = ensure_path(&mut state, "bw-env/acme").unwrap();
    let found = find_folder_by_id(&state.folders, &r.folder_id).unwrap();
    assert_eq!(found.name, "bw-env/acme");
}

#[test]
fn template_type_names() {
    assert_eq!(bw_env::TemplateType::Item.as_str(), "item");
    assert_eq!(bw_env::TemplateType::Folder.as_str(), "folder");
}
