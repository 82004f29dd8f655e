use roll_flow::branches::{BranchLocation, RollInfo, RollState};
use roll_flow::config::Config;
use roll_flow::ops::names::{
    create, create_branch, current_mmdd, hotfix_create, hotfix_land, hotfix_short_name, integrate,
    mmdd_from, next_hotfix_number, normalize_slug, validate_mmdd, NowText,
};
use roll_flow::ops::route::{
    branch_tier, ensure_clean_state, infer_route, promotion_readiness, MergeFacts, ReadinessFacts,
    Route,
};

fn config() -> Config {
    let text = "rolling_branch = \"rolling\"\nstable_branch = \"main\"\nroll_prefix = \"roll/\"\n";
    Config::parse(text, "/repo").expect("the required keys are there").0
}

fn roll(number: u32) -> RollInfo {
    RollInfo {
        branch: format!("roll/{number}-x"),
        number,
        state: RollState::Active,
        location: BranchLocation::Local,
        is_current: false,
        deps: Vec::new(),
        dependents: Vec::new(),
        graduation_commit: None,
    }
}

fn mergeable() -> MergeFacts {
    MergeFacts {
        target_exists: true,
        source_sha: Ok("s".to_string()),
        target_sha: Ok("t".to_string()),
        source_in_target: Ok(false),
        target_in_source: Ok(true),
        has_base: true,
    }
}

#[test]
fn slugs_are_normalised() {
    assert_eq!(normalize_slug("  New_Theme idea ").expect("a slug"), "new-theme-idea");
    assert_eq!(normalize_slug("-x-").expect("a slug"), "x");
    // Only the letter without a mark is a plain one.
    assert!(normalize_slug("CAFÉ").is_err());
    assert_eq!(normalize_slug("   ").unwrap_err().to_string(), "slug cannot be empty");
    assert_eq!(
        normalize_slug("a/b").unwrap_err().to_string(),
        "slug may only contain [a-z0-9-]"
    );
}

#[test]
fn dates_are_months_and_days() {
    assert!(validate_mmdd("0131").is_ok());
    assert!(validate_mmdd("1231").is_ok());
    assert_eq!(validate_mmdd("1301").unwrap_err().to_string(), "invalid MMDD date");
    assert_eq!(validate_mmdd("0100").unwrap_err().to_string(), "invalid MMDD date");
    assert_eq!(validate_mmdd("131").unwrap_err().to_string(), "date must be MMDD");
    assert_eq!(validate_mmdd("01a1").unwrap_err().to_string(), "date must be MMDD");
}

#[test]
fn the_current_date_is_a_month_and_a_day() {
    let today = current_mmdd().expect("the clock can be read");
    assert_eq!(today.len(), 4);
    assert!(validate_mmdd(&today).is_ok());
}

#[test]
fn a_formatted_time_gives_a_month_and_a_day_or_a_reason() {
    assert_eq!(mmdd_from(NowText::Text("0611".to_string())).expect("a date"), "0611");
    let no_date = mmdd_from(NowText::Text("6/11".to_string())).unwrap_err();
    assert_eq!(no_date.chain, ["date must be MMDD"]);
    let no_month = mmdd_from(NowText::Text("1301".to_string())).unwrap_err();
    assert_eq!(no_month.chain, ["invalid MMDD date"]);
    let bad = mmdd_from(NowText::BadDescription("odd".to_string())).unwrap_err();
    assert_eq!(bad.chain, ["bad date format", "odd"]);
    let unformatted = mmdd_from(NowText::Unformatted("odd".to_string())).unwrap_err();
    assert_eq!(unformatted.chain, ["failed to format current date", "odd"]);
}

#[test]
fn a_new_branch_without_a_date_takes_the_current_one() {
    let o = create(&config(), true, "Theme", None, &vec![roll(3)], true).expect("a slug is enough");
    let rest = o.branch.strip_prefix("roll/4-").expect("the next number");
    let mmdd = rest.strip_suffix("-theme").expect("the slug comes last");
    assert!(validate_mmdd(mmdd).is_ok());
    assert!(create(&config(), true, "a/b", None, &vec![roll(3)], true).is_err());
}

#[test]
fn a_new_roll_takes_the_next_number() {
    let rolls = vec![roll(3), roll(12), roll(7)];
    let o = create(&config(), true, "Theme", Some("0611".to_string()), &rolls, true)
        .expect("a valid request");
    assert_eq!(o.branch, "roll/13-0611-theme");
    assert_eq!(o.stable, "main");
    assert!(create(&config(), false, "Theme", Some("0611".to_string()), &rolls, true).is_err());
    // A dry run creates nothing, and an existing branch is refused.
    assert!(create_branch(&o, "roll", false).expect("a dry run").is_none());
    let real = create(&config(), true, "theme", Some("0611".to_string()), &rolls, false)
        .expect("a valid request");
    assert_eq!(
        create_branch(&real, "roll", false).expect("a new branch").expect("a command"),
        ["checkout", "-b", "roll/13-0611-theme", "main"]
    );
    assert!(create_branch(&real, "roll", true).is_err());
}

#[test]
fn hotfixes_are_numbered_on_their_own() {
    let names = vec!["hotfix/2-0101-a".to_string(), "hotfix/x".to_string(), "roll/9-y".to_string()];
    assert_eq!(next_hotfix_number(&names), 3);
    let o = hotfix_create(&config(), true, "fix", Some("0102".to_string()), &names, false)
        .expect("a valid request");
    assert_eq!(o.branch, "hotfix/3-0102-fix");
    assert_eq!(hotfix_short_name("hotfix/3-0102-fix").as_deref(), Some("hotfix/3-fix"));
    assert_eq!(hotfix_short_name("roll/3-0102-fix"), None);
}

#[test]
fn landing_a_hotfix_merges_twice() {
    let plan = hotfix_land(&config(), "hotfix/3-0102-fix", true, &mergeable()).expect("viable");
    assert_eq!(plan.current, "hotfix/3-0102-fix");
    assert_eq!(plan.stable, "main");
    assert_eq!(plan.rolling, "rolling");
    assert!(hotfix_land(&config(), "roll/1-x", true, &mergeable()).is_err());
}

#[test]
fn integrating_needs_a_roll_and_an_existing_branch() {
    let args = integrate(&config(), "roll/1-x", "feature/a", true).expect("on a roll");
    assert!(args.contains(&"feature/a".to_string()), "{args:?}");
    assert!(integrate(&config(), "main", "feature/a", true).is_err());
    assert!(integrate(&config(), "roll/1-x", "feature/a", false).is_err());
}

#[test]
fn the_branch_decides_where_a_merge_goes() {
    assert!(matches!(infer_route(&config(), "rolling"), Some(Route::Promote)));
    assert!(matches!(infer_route(&config(), "roll/1-x"), Some(Route::Graduate { roll }) if roll == "roll/1-x"));
    assert!(infer_route(&config(), "main").is_none());
    assert_eq!(branch_tier(&config(), "main", false), "main");
    assert_eq!(branch_tier(&config(), "rolling", false), "rolling");
    assert_eq!(branch_tier(&config(), "roll/1-x", false), "roll");
}

#[test]
fn work_starts_from_a_clean_branch() {
    assert!(ensure_clean_state(false, "").is_ok());
    assert!(ensure_clean_state(true, "").is_err());
    assert!(ensure_clean_state(false, " M src/lib.rs\n").is_err());
}

#[test]
fn readiness_says_what_is_missing() {
    let facts = || ReadinessFacts {
        clean: true,
        detached: false,
        promoted: false,
        graduated: false,
        target_on_origin: true,
        merge: mergeable(),
    };
    let ready = promotion_readiness(&config(), "rolling", &facts());
    assert!(ready.ready);
    assert_eq!(ready.reason, None);
    let dirty = promotion_readiness(&config(), "rolling", &ReadinessFacts { clean: false, ..facts() });
    assert!(!dirty.ready);
    assert!(dirty.reason.is_some());
    let promoted =
        promotion_readiness(&config(), "roll/1-x", &ReadinessFacts { promoted: true, ..facts() });
    assert!(!promoted.ready);
    assert!(promoted.reason.is_some());
    assert!(!promotion_readiness(&config(), "main", &facts()).ready);
}
