use bw_env::menu::{build_menu, build_options, resolve, MenuKind};
use bw_env::model::VaultItem;
use bw_env::VaultError;

fn item(id: &str, name: &str) -> VaultItem {
    VaultItem {
        id: id.to_string(),
        name: name.to_string(),
        content: String::new(),
        folder_id: None,
    }
}

#[test]
fn scenario_retrieve_with_matching_context() {
    // Items `acme/widgets/.env` and `acme/widgets/.env.prod` with context
    // `acme/widgets`: the aggregate option first, both items individually,
    // and no section of other items.
    let items = vec![
        item("i1", "acme/widgets/.env"),
        item("i2", "acme/widgets/.env.prod"),
    ];
    let ctx = Some("acme/widgets".to_string());
    let opts = build_menu(&items, &ctx);
    assert_eq!(opts.len(), 3);
    assert_eq!(opts[0].label, "Download everything (.env, .env.prod)");
    assert!(matches!(&opts[0].kind, MenuKind::Group(v) if *v == vec![0, 1]));
    assert_eq!(opts[1].label, "acme/widgets/.env");
    assert!(matches!(opts[1].kind, MenuKind::Single(0)));
    assert_eq!(opts[2].label, "acme/widgets/.env.prod");
    assert!(matches!(opts[2].kind, MenuKind::Single(1)));
}

#[test]
fn scenario_retrieve_without_context() {
    // Items `a/x` and `b/y` with no shared prefixes and no context: both
    // render as plain singles with no group header.
    let items = vec![item("i1", "a/x"), item("i2", "b/y")];
    let opts = build_menu(&items, &None);
    assert_eq!(opts.len(), 2);
    assert_eq!(opts[0].label, "a/x");
    assert!(matches!(opts[0].kind, MenuKind::Single(0)));
    assert_eq!(opts[1].label, "b/y");
    assert!(matches!(opts[1].kind, MenuKind::Single(1)));
}

#[test]
fn fallback_groups_shared_prefixes() {
    let items = vec![
        item("i1", "svc/.env"),
        item("i2", "other/config"),
        item("i3", "svc/.env.prod"),
        item("i4", "plain"),
    ];
    let opts = build_options(&items);
    // One multi-member group (svc), then its two members indented, then the
    // two items that belong to no multi-member group, in original order.
    assert_eq!(opts.len(), 5);
    assert_eq!(opts[0].label, "svc/* (2 items)");
    assert!(matches!(&opts[0].kind, MenuKind::Group(v) if *v == vec![0, 2]));
    assert_eq!(opts[1].label, "  - svc/.env");
    assert!(matches!(opts[1].kind, MenuKind::Single(0)));
    assert_eq!(opts[2].label, "  - svc/.env.prod");
    assert!(matches!(opts[2].kind, MenuKind::Single(2)));
    assert_eq!(opts[3].label, "other/config");
    assert!(matches!(opts[3].kind, MenuKind::Single(1)));
    assert_eq!(opts[4].label, "plain");
    assert!(matches!(opts[4].kind, MenuKind::Single(3)));
}

#[test]
fn singleton_prefix_never_groups() {
    let items = vec![item("i1", "solo/config"), item("i2", "top")];
    let opts = build_options(&items);
    assert_eq!(opts.len(), 2);
    for o in &opts {
        assert!(matches!(o.kind, MenuKind::Single(_)));
    }
}

#[test]
fn context_matching_nothing_falls_back() {
    let items = vec![
        item("i1", "svc/.env"),
        item("i2", "svc/.env.prod"),
    ];
    let ctx = Some("absent/dir".to_string());
    let with_ctx = build_menu(&items, &ctx);
    let fallback = build_options(&items);
    assert_eq!(with_ctx.len(), fallback.len());
    for (a, b) in with_ctx.iter().zip(fallback.iter()) {
        assert_eq!(a.label, b.label);
    }
    assert_eq!(with_ctx[0].label, "svc/* (2 items)");
}

#[test]
fn context_with_single_member_offers_no_aggregate() {
    let items = vec![item("i1", "svc/.env"), item("i2", "other/x")];
    let ctx = Some("svc".to_string());
    let opts = build_menu(&items, &ctx);
    assert_eq!(opts.len(), 2);
    assert_eq!(opts[0].label, "svc/.env");
    assert!(matches!(opts[0].kind, MenuKind::Single(0)));
    assert_eq!(opts[1].label, "other/x");
    assert!(matches!(opts[1].kind, MenuKind::Single(1)));
}

#[test]
fn aggregate_label_deduplicates_segments() {
    let items = vec![
        item("i1", "svc/.env"),
        item("i2", "svc/.env"),
        item("i3", "svc/.env.prod"),
    ];
    let ctx = Some("svc".to_string());
    let opts = build_menu(&items, &ctx);
    assert_eq!(opts[0].label, "Download everything (.env, .env.prod)");
}

#[test]
fn duplicate_names_stay_distinguishable_by_position() {
    let items = vec![item("i1", "svc/.env"), item("i2", "svc/.env")];
    let ctx = Some("svc".to_string());
    let opts = build_menu(&items, &ctx);
    assert_eq!(opts.len(), 3);
    assert!(matches!(opts[1].kind, MenuKind::Single(0)));
    assert!(matches!(opts[2].kind, MenuKind::Single(1)));
}

#[test]
fn empty_item_list_builds_empty_menu() {
    let items: Vec<VaultItem> = Vec::new();
    assert!(build_options(&items).is_empty());
    assert!(build_menu(&items, &None).is_empty());
}

#[test]
fn resolve_follows_printed_order() {
    // The list `build` returns is the list the caller prints, so resolving
    // each valid k yields exactly the k-th printed option.
    let items = vec![
        item("i1", "svc/.env"),
        item("i2", "other/config"),
        item("i3", "svc/.env.prod"),
    ];
    let opts = build_menu(&items, &None);
    for k in 1..=opts.len() {
        assert_eq!(resolve(&opts, k), Ok(k - 1));
    }
}

#[test]
fn group_label_counts_in_decimal() {
    let items: Vec<bw_env::model::VaultItem> =
        (0..12).map(|i| item(&format!("i{}", i), &format!("d/f{}", i))).collect();
    let opts = build_options(&items);
    assert_eq!(opts[0].label, "d/* (12 items)");
}

#[test]
fn parse_selection_multi_digit() {
    assert_eq!(bw_env::text::parse_selection("12\n"), Ok(12));
    assert_eq!(bw_env::text::parse_selection("105"), Ok(105));
}

#[test]
fn resolve_rejects_out_of_range() {
    let items = vec![item("i1", "a/x")];
    let opts = build_options(&items);
    assert_eq!(resolve(&opts, 0), Err(VaultError::Input));
    assert_eq!(resolve(&opts, opts.len() + 1), Err(VaultError::Input));
}
