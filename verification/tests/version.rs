use roll_flow::version::{parse_version, replace_package_version, BumpLevel, Semver, VersionCheck};

#[test]
fn a_dev_version_sorts_below_the_release_it_marks() {
    let dev = Semver::parse("0.2.4-roll9").expect("dev version parses");
    let release = Semver::parse("0.2.4").expect("release parses");

    assert_eq!(dev.dev_roll, Some(9));
    assert!(dev.is_dev());
    assert!(!release.is_dev());

    // The whole reason `Ord` is hand-written: the derived one puts `None`
    // below `Some`, which would let a roll's dev version promote over the
    // release it branched from.
    assert!(dev < release, "{dev:?} !< {release:?}");
    assert!(release > dev);
    // And the numbers still dominate the marker.
    assert!(Semver::parse("0.2.5-roll9").unwrap() > release);
    assert!(dev < Semver::parse("0.2.4-roll10").unwrap());
}

#[test]
fn a_dev_version_round_trips_and_strips() {
    let dev = Semver::parse("1.10.3-roll42").unwrap();
    assert_eq!(dev.to_string(), "1.10.3-roll42");
    assert_eq!(dev.released().to_string(), "1.10.3");
    assert_eq!(Semver::parse("1.10.3").unwrap().as_dev(42), dev);

    // A bump on a roll branch keeps the marker, raising the base that
    // graduation will strip back to.
    assert_eq!(dev.bump(BumpLevel::Patch).to_string(), "1.10.4-roll42");
    assert_eq!(dev.bump(BumpLevel::Minor).to_string(), "1.11.0-roll42");
    assert_eq!(dev.bump(BumpLevel::Major).to_string(), "2.0.0-roll42");
}

#[test]
fn suffixes_that_are_not_roll_markers_are_still_rejected() {
    // Unchanged behaviour: anything this crate cannot represent exactly is
    // refused rather than silently dropped, since dropping it could let a
    // lower version read as higher.
    for raw in [
        "0.2.4-beta",
        "0.2.4-roll",
        "0.2.4-rollx",
        "0.2.4-1",
        "0.2.4+build",
    ] {
        assert_eq!(Semver::parse(raw), None, "{raw} should not parse");
    }
}

#[test]
fn parses_and_orders_versions() {
    assert_eq!(
        Semver::parse("0.1.2"),
        Some(Semver {
            major: 0,
            minor: 1,
            patch: 2,
            dev_roll: None,
        })
    );
    assert!(Semver::parse("0.1.3").unwrap() > Semver::parse("0.1.2").unwrap());
    assert!(Semver::parse("0.2.0").unwrap() > Semver::parse("0.1.99").unwrap());
    assert!(Semver::parse("1.0.0").unwrap() > Semver::parse("0.99.99").unwrap());
}

#[test]
fn rejects_malformed_versions() {
    assert_eq!(Semver::parse("0.1"), None);
    assert_eq!(Semver::parse("0.1.2.3"), None);
    assert_eq!(Semver::parse("0.1.2-rc1"), None);
    assert_eq!(Semver::parse("not-a-version"), None);
}

#[test]
fn bump_zeroes_lower_fields() {
    let v = Semver::parse("1.2.3").unwrap();
    assert_eq!(v.bump(BumpLevel::Patch).to_string(), "1.2.4");
    assert_eq!(v.bump(BumpLevel::Minor).to_string(), "1.3.0");
    assert_eq!(v.bump(BumpLevel::Major).to_string(), "2.0.0");
}

#[test]
fn tag_matches_ci_format() {
    assert_eq!(Semver::parse("0.1.3").unwrap().tag(), "v0.1.3");
}

#[test]
fn reads_package_version_not_dependency_version() {
    let manifest = r#"
[package]
name = "roll-flow"
version = "0.1.2"

[dependencies]
clap = { version = "4.6.1" }

[dependencies.serde]
version = "1.0.228"
"#;
    assert_eq!(parse_version(manifest), Semver::parse("0.1.2"));
}

#[test]
fn rewrite_preserves_comments_and_layout() {
    let manifest = "[package]\n\
                    name = \"roll-flow\"  # the binary\n\
                    version = \"0.1.2\"\n\
                    edition = \"2021\"\n\
                    \n\
                    [dependencies]\n\
                    toml = \"1.1.2\"\n";
    let out = replace_package_version(manifest, Semver::parse("0.1.3").unwrap()).unwrap();
    assert!(out.contains("version = \"0.1.3\""));
    assert!(out.contains("name = \"roll-flow\"  # the binary"));
    assert!(out.contains("edition = \"2021\""));
    // The dependency version must be untouched.
    assert!(out.contains("toml = \"1.1.2\""));
    assert_eq!(parse_version(&out), Semver::parse("0.1.3"));
}

#[test]
fn rewrite_ignores_version_keys_outside_package() {
    let manifest = "[dependencies]\n\
                    version = \"9.9.9\"\n\
                    \n\
                    [package]\n\
                    version = \"0.1.2\"\n";
    let out = replace_package_version(manifest, Semver::parse("0.2.0").unwrap()).unwrap();
    assert!(out.contains("version = \"9.9.9\""));
    assert!(out.contains("version = \"0.2.0\""));
}

#[test]
fn rewrite_reports_missing_version_key() {
    let manifest = "[package]\nname = \"x\"\n";
    assert_eq!(
        replace_package_version(manifest, Semver::parse("1.0.0").unwrap()),
        None
    );
}

#[test]
fn not_applicable_is_satisfied() {
    assert!(VersionCheck::not_applicable().is_satisfied());
}

#[test]
fn bumps_of_more_weight_stand_higher() {
    let v = Semver::parse("1.2.3").expect("a version");
    let patch = v.bump(BumpLevel::Patch);
    let minor = v.bump(BumpLevel::Minor);
    let major = v.bump(BumpLevel::Major);
    assert!(v < patch && patch < minor && minor < major);
}
