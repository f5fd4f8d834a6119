use bw_env::resolver::{
    build_name_candidates, check_folder_path, format_date, item_dir, last_segment,
    parse_github_remote, resolve_store_name, sanitize_filename, select_candidate,
};
use bw_env::text::parse_selection;
use bw_env::VaultError;

#[test]
fn sanitize_keeps_trailing_segment() {
    assert_eq!(sanitize_filename("a/b/c.env"), "c.env");
}

#[test]
fn sanitize_no_separator_unchanged() {
    assert_eq!(sanitize_filename("config.env"), "config.env");
}

#[test]
fn sanitize_empty_result_falls_back() {
    assert_eq!(sanitize_filename("a/b/"), "env");
    assert_eq!(sanitize_filename(""), "env");
}

#[test]
fn sanitize_backslash_separator() {
    assert_eq!(sanitize_filename("a\\b\\c.env"), "c.env");
    assert_eq!(last_segment("x\\y"), "y");
}

#[test]
fn item_dir_cases() {
    assert_eq!(item_dir("acme/widgets/.env"), Some("acme/widgets".to_string()));
    assert_eq!(item_dir("plain.env"), None);
    assert_eq!(item_dir("/leading"), None);
}

#[test]
fn format_date_truncates_timestamp() {
    assert_eq!(format_date("2024-05-17T12:34:56.000Z"), "2024-05-17");
    assert_eq!(format_date("short"), "short");
}

#[test]
fn parse_remote_ssh_with_git_suffix() {
    let r = parse_github_remote("git@github.com:acme/widgets.git");
    assert_eq!(r, Some(("acme".to_string(), "widgets".to_string())));
}

#[test]
fn parse_remote_https_without_suffix() {
    let r = parse_github_remote("https://github.com/acme/widgets");
    assert_eq!(r, Some(("acme".to_string(), "widgets".to_string())));
}

#[test]
fn parse_remote_trims_whitespace() {
    let r = parse_github_remote("  https://github.com/acme/widgets.git\n");
    assert_eq!(r, Some(("acme".to_string(), "widgets".to_string())));
}

#[test]
fn parse_remote_other_host_is_no_context() {
    assert_eq!(parse_github_remote("git@gitlab.com:acme/widgets.git"), None);
    assert_eq!(parse_github_remote("not a url"), None);
    assert_eq!(parse_github_remote(""), None);
}

#[test]
fn parse_remote_wrong_part_count_is_no_context() {
    assert_eq!(parse_github_remote("https://github.com/acme"), None);
    assert_eq!(parse_github_remote("https://github.com/a/b/c.git"), None);
}

#[test]
fn candidates_with_context() {
    let git = Some(("acme".to_string(), "widgets".to_string()));
    let c = build_name_candidates(".env", "service", &git);
    assert_eq!(c, vec!["acme/widgets/.env", "service/.env", ".env"]);
}

#[test]
fn candidates_without_context_omit_git_entry() {
    let c = build_name_candidates(".env", "service", &None);
    assert_eq!(c, vec!["service/.env", ".env"]);
}

#[test]
fn candidates_deterministic_across_calls() {
    let git = Some(("acme".to_string(), "widgets".to_string()));
    let a = build_name_candidates(".env", "service", &git);
    let b = build_name_candidates(".env", "service", &git);
    assert_eq!(a, b);
}

#[test]
fn select_candidate_by_number() {
    let c = build_name_candidates(".env", "service", &None);
    assert_eq!(select_candidate(&c, None, 1), Ok("service/.env".to_string()));
    assert_eq!(select_candidate(&c, None, 2), Ok(".env".to_string()));
}

#[test]
fn select_candidate_custom_entry() {
    let c = build_name_candidates(".env", "service", &None);
    assert_eq!(select_candidate(&c, Some(" my/own/path \n"), 3), Ok("my/own/path".to_string()));
    assert_eq!(select_candidate(&c, Some("   "), 3), Err(VaultError::Path));
}

#[test]
fn select_candidate_out_of_range() {
    let c = build_name_candidates(".env", "service", &None);
    assert_eq!(select_candidate(&c, None, 0), Err(VaultError::Input));
    assert_eq!(select_candidate(&c, None, 4), Err(VaultError::Input));
}

#[test]
fn folder_mode_splits_candidate_under_root() {
    let sn = resolve_store_name("acme/widgets/.env", true);
    assert_eq!(sn.folder_path, Some("bw-env/acme/widgets".to_string()));
    assert_eq!(sn.item_name, ".env");
}

#[test]
fn folder_mode_bare_filename_lands_in_root() {
    let sn = resolve_store_name(".env", true);
    assert_eq!(sn.folder_path, Some("bw-env".to_string()));
    assert_eq!(sn.item_name, ".env");
}

#[test]
fn flat_mode_keeps_candidate_as_item_name() {
    let sn = resolve_store_name("service/.env", false);
    assert_eq!(sn.folder_path, None);
    assert_eq!(sn.item_name, "service/.env");
}

#[test]
fn folder_path_prefix_invariant() {
    // Every folder-mode candidate with a separator resolves to a folder
    // path under "root/"; a bare one resolves to the root itself.
    for cand in ["acme/widgets/.env", "a/b", "x/y/z/w.env"] {
        let sn = resolve_store_name(cand, true);
        let fp = sn.folder_path.expect("folder mode yields a folder path");
        assert!(fp.starts_with("bw-env/"));
    }
    let sn = resolve_store_name("solo", true);
    assert!(sn.folder_path.unwrap().starts_with("bw-env"));
}

#[test]
fn check_folder_path_accepts_root_and_nested() {
    assert_eq!(check_folder_path("bw-env"), Ok(()));
    assert_eq!(check_folder_path("bw-env/acme/widgets"), Ok(()));
}

#[test]
fn check_folder_path_rejects_malformed() {
    assert_eq!(check_folder_path(""), Err(VaultError::Path));
    assert_eq!(check_folder_path("bw-env/"), Err(VaultError::Path));
    assert_eq!(check_folder_path("/bw-env"), Err(VaultError::Path));
    assert_eq!(check_folder_path("bw-env//x"), Err(VaultError::Path));
    assert_eq!(check_folder_path("elsewhere/x"), Err(VaultError::Path));
}

#[test]
fn parse_selection_accepts_plain_numbers() {
    assert_eq!(parse_selection("2\n"), Ok(2));
    assert_eq!(parse_selection("  7 \t"), Ok(7));
    assert_eq!(parse_selection("0"), Ok(0));
}

#[test]
fn parse_selection_rejects_non_numeric() {
    assert_eq!(parse_selection("abc"), Err(VaultError::Input));
    assert_eq!(parse_selection(""), Err(VaultError::Input));
    assert_eq!(parse_selection("  "), Err(VaultError::Input));
    assert_eq!(parse_selection("1a"), Err(VaultError::Input));
    assert_eq!(parse_selection("-3"), Err(VaultError::Input));
}

#[test]
fn parse_selection_rejects_overflow() {
    assert_eq!(parse_selection("999999999999999999999999"), Err(VaultError::Input));
}

#[test]
fn error_descriptions() {
    assert_eq!(VaultError::Input.describe(), "invalid selection");
    assert_eq!(VaultError::Path.describe(), "invalid folder path");
}
