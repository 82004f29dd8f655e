use roll_flow::config::Config;
use roll_flow::ops::release::{
    apply_version_bump, offer_tag_push, plan_tag, prompt_bump_level, render_version_check,
    resolve_version_gate, step_version_gate, tag_message, tag_push_line, version_check,
    version_gated_merge, TagOutcome, TagPush, VersionAsk, VersionStep,
};
use roll_flow::version::{
    check, manifest_specs, versions_at, write_version, BumpLevel, Semver, VersionCheck,
    VersionStatus,
};

fn config(extra: &str) -> Config {
    let text = format!(
        "rolling_branch = \"rolling\"\nstable_branch = \"main\"\nroll_prefix = \"roll/\"\n{extra}"
    );
    Config::parse(&text, "/repo").expect("the required keys are there").0
}

fn manifest(version: &str) -> Option<String> {
    Some(format!("[package]\nname = \"x\"\nversion = \"{version}\"\n"))
}

fn ask() -> VersionAsk {
    VersionAsk { bump: None, yes: false, forced: false, dry_run: false, terminal: false }
}

fn unchanged() -> VersionCheck {
    check(&manifest("0.2.3"), &manifest("0.2.3"))
}

#[test]
fn versions_are_compared_across_branches() {
    assert_eq!(check(&manifest("0.2.4"), &manifest("0.2.3")).status, VersionStatus::Raised);
    assert_eq!(unchanged().status, VersionStatus::Unchanged);
    assert_eq!(check(&manifest("0.2.2"), &manifest("0.2.3")).status, VersionStatus::Lower);
    assert_eq!(
        check(&manifest("0.2.3-roll4"), &manifest("0.2.2")).status,
        VersionStatus::DevVersion
    );
    assert_eq!(
        check(&Some("no manifest".to_string()), &manifest("0.2.3")).status,
        VersionStatus::Unreadable
    );
    assert_eq!(check(&None, &None).status, VersionStatus::NotApplicable);
}

#[test]
fn the_check_can_be_switched_off() {
    let off = config("version_gate = false\n");
    let c = version_check(&off, &manifest("0.2.2"), &manifest("0.2.3"));
    assert_eq!(c.status, VersionStatus::NotApplicable);
    assert_eq!(render_version_check(&c, "rolling", "main"), None);
    let on = version_check(&config(""), &manifest("0.2.2"), &manifest("0.2.3"));
    assert_eq!(on.status, VersionStatus::Lower);
}

#[test]
fn a_lower_version_is_refused_whatever_is_asked() {
    let lower = check(&manifest("0.2.2"), &manifest("0.2.3"));
    let eager = VersionAsk { bump: Some(BumpLevel::Major), yes: true, forced: true, ..ask() };
    match resolve_version_gate(&lower, "rolling", "rolling", "main", &eager) {
        VersionStep::Refuse { said: None, failure } => {
            assert!(failure.to_string().contains("0.2.2"), "{failure:?}");
        }
        other => panic!("a lower version cannot be mended: {other:?}"),
    }
}

#[test]
fn an_unchanged_version_is_bumped_on_demand() {
    let line = "Version: 0.2.3 on 'rolling' is unchanged from 'main'; a bump is required";
    let step = |a: &VersionAsk| resolve_version_gate(&unchanged(), "rolling", "rolling", "main", a);
    assert!(matches!(step(&VersionAsk { bump: Some(BumpLevel::Minor), ..ask() }),
        VersionStep::Bump { line: l, level: BumpLevel::Minor } if l == line));
    assert!(matches!(
        step(&VersionAsk { yes: true, ..ask() }),
        VersionStep::Bump { level: BumpLevel::Patch, .. }
    ));
    assert!(matches!(step(&VersionAsk { terminal: true, ..ask() }), VersionStep::Ask { .. }));
    assert!(matches!(step(&VersionAsk { forced: true, ..ask() }), VersionStep::Warn { .. }));
    assert!(matches!(step(&ask()), VersionStep::Refuse { said: Some(_), .. }));
    assert!(matches!(step(&VersionAsk { dry_run: true, ..ask() }), VersionStep::Report { .. }));
    let raised = check(&manifest("0.2.4"), &manifest("0.2.3"));
    assert!(matches!(
        resolve_version_gate(&raised, "rolling", "rolling", "main", &ask()),
        VersionStep::Proceed
    ));
}

#[test]
fn a_bump_only_lands_on_the_branch_that_is_merged() {
    let a = VersionAsk { yes: true, ..ask() };
    match resolve_version_gate(&unchanged(), "roll/1-x", "rolling", "main", &a) {
        VersionStep::Refuse { failure, .. } => assert_eq!(
            failure.to_string(),
            "refusing to bump the version: expected to be on 'rolling' but 'roll/1-x' is checked out"
        ),
        other => panic!("nothing may be bumped: {other:?}"),
    }
}

#[test]
fn only_promotions_carry_the_version_requirement() {
    assert_eq!(
        version_gated_merge(&config(""), "rolling"),
        Some(("rolling".to_string(), "main".to_string()))
    );
    assert_eq!(version_gated_merge(&config(""), "roll/1-x"), None);
    assert!(step_version_gate(&unchanged(), "abc", "main", false, false).is_err());
    assert!(step_version_gate(&unchanged(), "abc", "main", true, false).is_ok());
    assert!(step_version_gate(&unchanged(), "abc", "main", false, true).is_ok());
}

#[test]
fn the_answer_to_the_bump_question_is_case_sensitive() {
    assert_eq!(prompt_bump_level(" m\n"), Some(BumpLevel::Minor));
    assert_eq!(prompt_bump_level("M\n"), Some(BumpLevel::Major));
    assert_eq!(prompt_bump_level("\n"), Some(BumpLevel::Patch));
    assert_eq!(prompt_bump_level("n"), None);
}

#[test]
fn bumping_rewrites_the_manifest() {
    let plan = apply_version_bump(&manifest("0.2.3"), BumpLevel::Minor, "rolling", "Cargo.toml")
        .expect("a readable version");
    assert_eq!(plan.from.to_string(), "0.2.3");
    assert_eq!(plan.to.to_string(), "0.3.0");
    assert_eq!(Some(plan.text), manifest("0.3.0"));
    assert_eq!(plan.message, "chore(release): bump version to 0.3.0 for rolling");
    assert!(apply_version_bump(&None, BumpLevel::Minor, "rolling", "Cargo.toml").is_err());
    let highest = format!("0.0.{}", u64::MAX);
    assert!(apply_version_bump(&manifest(&highest), BumpLevel::Patch, "r", "Cargo.toml").is_err());
    assert!(write_version("[package]\n", Semver::parse("1.0.0").unwrap(), "Cargo.toml").is_err());
}

#[test]
fn a_release_is_tagged_once() {
    let head = Semver::parse("1.2.3");
    let tag = |asked, exists, dry| plan_tag(&config(""), asked, head, exists, dry);
    assert!(matches!(tag(true, false, false), TagOutcome::Created { tag } if tag == "v1.2.3"));
    assert!(matches!(tag(true, true, false), TagOutcome::Exists { .. }));
    assert!(matches!(tag(true, false, true), TagOutcome::Planned { .. }));
    assert!(matches!(tag(false, false, false), TagOutcome::Skipped));
    let off = config("tag_on_promote = false\n");
    assert!(matches!(plan_tag(&off, true, head, false, false), TagOutcome::Skipped));
    assert_eq!(tag(true, false, false).created_tag().as_deref(), Some("v1.2.3"));
    assert_eq!(tag(true, true, false).created_tag(), None);
    assert_eq!(tag(false, false, false).describe(), None);
    assert!(tag_message("v1.2.3", &Some("Rolls:\n".to_string())).starts_with("Release v1.2.3\n\n"));
}

#[test]
fn a_tag_is_pushed_only_on_demand() {
    let c = config("");
    assert!(matches!(offer_tag_push(&c, "v1", true, true, false), TagPush::Push));
    assert!(matches!(offer_tag_push(&c, "v1", true, false, true),
        TagPush::Ask { question } if question == "Push tag v1 to origin? [y/N] "));
    assert!(matches!(offer_tag_push(&c, "v1", true, false, false), TagPush::Say { .. }));
    assert!(matches!(offer_tag_push(&c, "v1", false, true, true), TagPush::Leave));
    let off = config("push_tag = false\n");
    assert!(matches!(offer_tag_push(&off, "v1", true, true, true), TagPush::Leave));
    assert_eq!(tag_push_line("v1", true), "Pushed tag v1 to origin");
}

#[test]
fn versions_are_read_at_several_places_at_once() {
    let refs = vec!["main".to_string(), "roll/1".to_string(), "bad".to_string()];
    assert_eq!(manifest_specs(&refs)[0], "main:Cargo.toml");
    let blobs = vec![
        ("main:Cargo.toml".to_string(), manifest("1.0.0").unwrap()),
        ("bad:Cargo.toml".to_string(), "not a manifest".to_string()),
    ];
    let found = versions_at(&refs, &blobs);
    assert_eq!(found.len(), 1);
    assert_eq!(found[0].0, "main");
    assert_eq!(found[0].1, Semver::parse("1.0.0").unwrap());
}
