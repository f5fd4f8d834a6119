use bw_env::hierarchy::{ensure_path, prefixes_of, store_env_into};
use bw_env::model::{find_folder_by_name, VaultState};
use bw_env::VaultError;

fn folder_names(state: &VaultState) -> Vec<String> {
    state.folders.iter().map(|f| f.name.clone()).collect()
}

#[test]
fn prefixes_of_nested_path() {
    assert_eq!(
        prefixes_of("bw-env/acme/widgets"),
        vec!["bw-env", "bw-env/acme", "bw-env/acme/widgets"]
    );
    assert_eq!(prefixes_of("bw-env"), vec!["bw-env"]);
}

#[test]
fn ensure_path_creates_whole_chain() {
    let mut state = VaultState::new();
    let r = ensure_path(&mut state, "bw-env/acme/widgets").unwrap();
    assert_eq!(r.created, 3);
    assert_eq!(
        folder_names(&state),
        vec!["bw-env", "bw-env/acme", "bw-env/acme/widgets"]
    );
    assert_eq!(
        find_folder_by_name(&state.folders, "bw-env/acme/widgets"),
        Some(r.folder_id)
    );
}

#[test]
fn ensure_path_idempotent() {
    // With no intervening external mutation the second call returns the
    // same leaf folder id and triggers no further creation call.
    let mut state = VaultState::new();
    let first = ensure_path(&mut state, "bw-env/acme/widgets").unwrap();
    let creations_after_first = state.creations;
    let second = ensure_path(&mut state, "bw-env/acme/widgets").unwrap();
    assert_eq!(second.folder_id, first.folder_id);
    assert_eq!(second.created, 0);
    assert_eq!(state.creations, creations_after_first);
    assert_eq!(state.folders.len(), 3);
}

#[test]
fn ensure_path_reuses_shared_prefixes() {
    let mut state = VaultState::new();
    ensure_path(&mut state, "bw-env/acme/widgets").unwrap();
    let r = ensure_path(&mut state, "bw-env/acme/gadgets").unwrap();
    assert_eq!(r.created, 1);
    assert_eq!(state.folders.len(), 4);
}

#[test]
fn ensure_path_rejects_malformed_path() {
    let mut state = VaultState::new();
    assert!(matches!(ensure_path(&mut state, "bw-env//x"), Err(VaultError::Path)));
    assert!(matches!(ensure_path(&mut state, "outside/x"), Err(VaultError::Path)));
    assert!(state.folders.is_empty());
}

#[test]
fn scenario_store_folder_mode_with_git_context() {
    // Storing `./service/.env` with the git remote
    // `git@github.com:acme/widgets.git` materializes the chain
    // root/acme/widgets and an item named `.env` inside its leaf.
    let git = bw_env::resolver::parse_github_remote("git@github.com:acme/widgets.git\n");
    let candidates =
        bw_env::resolver::build_name_candidates(".env", "service", &git);
    let candidate = bw_env::resolver::select_candidate(&candidates, None, 1).unwrap();
    assert_eq!(candidate, "acme/widgets/.env");

    let mut state = VaultState::new();
    let item_id = store_env_into(&mut state, &candidate, "KEY=VALUE", true).unwrap();
    assert_eq!(
        folder_names(&state),
        vec!["bw-env", "bw-env/acme", "bw-env/acme/widgets"]
    );
    assert_eq!(state.items.len(), 1);
    let item = &state.items[0];
    assert_eq!(item.id, item_id);
    assert_eq!(item.name, ".env");
    assert_eq!(item.content, "KEY=VALUE");
    let leaf = find_folder_by_name(&state.folders, "bw-env/acme/widgets").unwrap();
    assert_eq!(item.folder_id.as_deref(), Some(leaf.as_str()));

    // Storing again reuses the chain and only appends a duplicate item.
    store_env_into(&mut state, &candidate, "KEY=VALUE", true).unwrap();
    assert_eq!(state.folders.len(), 3);
    assert_eq!(state.items.len(), 2);
}

#[test]
fn store_flat_mode_keeps_path_in_item_name() {
    let mut state = VaultState::new();
    store_env_into(&mut state, "service/.env", "A=1", false).unwrap();
    assert_eq!(folder_names(&state), vec!["bw-env"]);
    assert_eq!(state.items[0].name, "service/.env");
    let root = find_folder_by_name(&state.folders, "bw-env").unwrap();
    assert_eq!(state.items[0].folder_id.as_deref(), Some(root.as_str()));
}

#[test]
fn store_folder_mode_rejects_empty_segment() {
    let mut state = VaultState::new();
    assert_eq!(
        store_env_into(&mut state, "acme//widgets/.env", "A=1", true),
        Err(VaultError::Path)
    );
    assert!(state.folders.is_empty());
    assert!(state.items.is_empty());
}
