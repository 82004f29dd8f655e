//! Crate-version policy: read, compare and raise the version in `Cargo.toml`.
//!
//! A promotion must raise the version strictly above the branch it targets and
//! must not carry a roll's `-roll<N>` dev marker. A dev version sorts below
//! the release it marks.
use std::cmp::Ordering;

use vstd::prelude::*;

use crate::document::{
    find_text_in_table, read_toml, text_in_table, toml_document, ScalarView, TomlValue, ValueView,
};
use crate::error::{RfError, RfErrorView};
use crate::num::{
    decimal, law_decimal_reads_back, lemma_decimal_value, number_in, parse_number, parse_u32,
    to_decimal,
};
use crate::seqs::law_lookup_finds_the_first;
use crate::text::{
    after_prefix, begins, cat, cat3, cat4, cat5, cut, digit, ends, ends_with, join, joined,
    law_joined_lines_read_back, lemma_found_char, lemma_parts_cat, lemma_parts_single, lemma_pos,
    lemma_pos_cat, lemma_trimmed_as_is, lemma_trimmed_start_len, lines, lines_of, parts_on, same,
    split_on, split_once, starts_with, strip_prefix, trim, trim_start, trimmed, trimmed_start,
    white,
};

verus! {

/// The file that the crate version is read from and written to.
pub const VERSION_FILE: &'static str = "Cargo.toml";

// ── Versions ────────────────────────────────────────────────────────────────

/// Three numbers, with the dev marker that a roll branch wears: `0.2.4-roll9`.
#[derive(Debug, Clone, Copy, PartialEq, Eq, Structural)]
pub struct Semver {
    pub major: u64,
    pub minor: u64,
    pub patch: u64,
    /// `Some(n)` on a roll branch's dev version, `None` on a release version.
    pub dev_roll: Option<u32>,
}

impl DeepView for Semver {
    type V = Semver;

    open spec fn deep_view(&self) -> Semver {
        *self
    }
}

/// Which field to raise.
#[derive(Debug, Clone, Copy, PartialEq, Eq, Structural)]
pub enum BumpLevel {
    Patch,
    Minor,
    Major,
}

/// The place of a dev marker among versions with the same numbers: a release
/// stands above every dev version, and dev versions stand by roll number.
pub open spec fn marker_rank(dev_roll: Option<u32>) -> int {
    match dev_roll {
        Some(n) => n as int,
        None => u32::MAX + 1,
    }
}

impl Semver {
    /// Whether `self` stands strictly below `other`: the numbers decide first,
    /// from the major one down, and the dev marker last.
    pub open spec fn below(self, other: Semver) -> bool {
        if self.major != other.major {
            self.major < other.major
        } else if self.minor != other.minor {
            self.minor < other.minor
        } else if self.patch != other.patch {
            self.patch < other.patch
        } else {
            marker_rank(self.dev_roll) < marker_rank(other.dev_roll)
        }
    }

    /// The version as text.
    pub open spec fn text(self) -> Seq<char> {
        let numbers = decimal(self.major as nat) + "."@ + decimal(self.minor as nat) + "."@
            + decimal(self.patch as nat);
        match self.dev_roll {
            Some(n) => numbers + "-roll"@ + decimal(n as nat),
            None => numbers,
        }
    }

    /// Whether the field that `level` raises has room for it.
    pub open spec fn can_bump(self, level: BumpLevel) -> bool {
        match level {
            BumpLevel::Patch => self.patch < u64::MAX,
            BumpLevel::Minor => self.minor < u64::MAX,
            BumpLevel::Major => self.major < u64::MAX,
        }
    }

    /// The next version at `level`: the fields below it are zero, and the dev
    /// marker stays.
    pub open spec fn bumped(self, level: BumpLevel) -> Semver {
        match level {
            BumpLevel::Patch => (Semver { patch: (self.patch + 1) as u64, ..self }),
            BumpLevel::Minor => (Semver { minor: (self.minor + 1) as u64, patch: 0, ..self }),
            BumpLevel::Major => (Semver {
                major: (self.major + 1) as u64,
                minor: 0,
                patch: 0,
                ..self
            }),
        }
    }
}

impl vstd::std_specs::cmp::PartialOrdSpecImpl for Semver {
    open spec fn obeys_partial_cmp_spec() -> bool {
        true
    }

    open spec fn partial_cmp_spec(&self, other: &Semver) -> Option<Ordering> {
        if self.below(*other) {
            Some(Ordering::Less)
        } else if other.below(*self) {
            Some(Ordering::Greater)
        } else {
            Some(Ordering::Equal)
        }
    }
}

impl PartialOrd for Semver {
    fn partial_cmp(&self, other: &Semver) -> (r: Option<Ordering>) {
        if self.is_below(*other) {
            Some(Ordering::Less)
        } else if other.is_below(*self) {
            Some(Ordering::Greater)
        } else {
            Some(Ordering::Equal)
        }
    }
}

/// The version that `X.Y.Z` writes down, with `dev_roll` for its marker.
pub open spec fn version_with(numbers: Seq<char>, dev_roll: Option<u32>) -> Option<Semver> {
    let p = parts_on(numbers, '.');
    if p.len() == 3 {
        match (
            number_in(p[0], u64::MAX as nat),
            number_in(p[1], u64::MAX as nat),
            number_in(p[2], u64::MAX as nat),
        ) {
            (Some(a), Some(b), Some(c)) => Some(
                Semver { major: a as u64, minor: b as u64, patch: c as u64, dev_roll },
            ),
            _ => None,
        }
    } else {
        None
    }
}

/// The version that a text writes down: `X.Y.Z` or `X.Y.Z-roll<N>`, with white
/// space around it, and nothing else.
pub open spec fn version_in(raw: Seq<char>) -> Option<Semver> {
    let t = trimmed(raw);
    match cut(t, "-"@) {
        Some((numbers, suffix)) => match after_prefix(suffix, "roll"@) {
            Some(n) => match number_in(n, u32::MAX as nat) {
                Some(k) => version_with(numbers, Some(k as u32)),
                None => None,
            },
            None => None,
        },
        None => version_with(t, None),
    }
}

impl Semver {
    fn is_below(self, other: Semver) -> (r: bool)
        ensures
            r == self.below(other),
    {
        if self.major != other.major {
            self.major < other.major
        } else if self.minor != other.minor {
            self.minor < other.minor
        } else if self.patch != other.patch {
            self.patch < other.patch
        } else {
            match (self.dev_roll, other.dev_roll) {
                (None, _) => false,
                (Some(_), None) => true,
                (Some(a), Some(b)) => a < b,
            }
        }
    }

    fn with_numbers(numbers: &str, dev_roll: Option<u32>) -> (r: Option<Semver>)
        ensures
            r == version_with(numbers@, dev_roll),
    {
        let p = split_on(numbers, '.');
        assert(p.deep_view().len() == p@.len());
        if p.len() != 3 {
            return None;
        }
        let a = parse_number(p[0].as_str(), u64::MAX);
        let b = parse_number(p[1].as_str(), u64::MAX);
        let c = parse_number(p[2].as_str(), u64::MAX);
        assert(p.deep_view()[0] == p@[0]@ && p.deep_view()[1] == p@[1]@ && p.deep_view()[2]
            == p@[2]@);
        match (a, b, c) {
            (Some(major), Some(minor), Some(patch)) => Some(
                Semver { major, minor, patch, dev_roll },
            ),
            _ => None,
        }
    }

    /// Reads `X.Y.Z`, or `X.Y.Z-roll<N>` for a roll branch's dev version. Every
    /// other suffix is refused rather than dropped.
    pub fn parse(raw: &str) -> (r: Option<Semver>)
        ensures
            r == version_in(raw@),
    {
        let t = trim(raw);
        match split_once(t, "-") {
            Some((numbers, suffix)) => match strip_prefix(suffix, "roll") {
                Some(n) => match parse_u32(n) {
                    Some(k) => Semver::with_numbers(numbers, Some(k)),
                    None => None,
                },
                None => None,
            },
            None => Semver::with_numbers(t, None),
        }
    }

    /// Whether this is a roll branch's dev version rather than a release.
    pub fn is_dev(self) -> (r: bool)
        ensures
            r == (self.dev_roll is Some),
    {
        self.dev_roll.is_some()
    }

    /// The same version without the dev marker.
    pub fn released(self) -> (r: Semver)
        ensures
            r == (Semver { dev_roll: None, ..self }),
    {
        Semver { dev_roll: None, ..self }
    }

    /// The same numbers marked as roll `n`'s dev version.
    pub fn as_dev(self, n: u32) -> (r: Semver)
        ensures
            r == (Semver { dev_roll: Some(n), ..self }),
    {
        Semver { dev_roll: Some(n), ..self }
    }

    /// The next version at `level`.
    pub fn bump(self, level: BumpLevel) -> (r: Semver)
        requires
            self.can_bump(level),
        ensures
            r == self.bumped(level),
    {
        match level {
            BumpLevel::Patch => Semver { patch: self.patch + 1, ..self },
            BumpLevel::Minor => Semver { minor: self.minor + 1, patch: 0, ..self },
            BumpLevel::Major => Semver { major: self.major + 1, minor: 0, patch: 0, ..self },
        }
    }

    /// The version as text.
    pub fn to_string(&self) -> (r: String)
        ensures
            r@ == self.text(),
    {
        let a = to_decimal(self.major);
        let b = to_decimal(self.minor);
        let c = to_decimal(self.patch);
        let numbers = cat5(a.as_str(), ".", b.as_str(), ".", c.as_str());
        match self.dev_roll {
            Some(n) => {
                let d = to_decimal(n as u64);
                cat3(numbers.as_str(), "-roll", d.as_str())
            },
            None => numbers,
        }
    }

    /// The release tag of this version, such as `v0.1.3`.
    pub fn tag(self) -> (r: String)
        ensures
            r@ == "v"@ + self.text(),
    {
        let t = self.to_string();
        cat("v", t.as_str())
    }
}

impl BumpLevel {
    /// The name of the level.
    pub open spec fn text(self) -> Seq<char> {
        match self {
            BumpLevel::Patch => "patch"@,
            BumpLevel::Minor => "minor"@,
            BumpLevel::Major => "major"@,
        }
    }

    /// The name of the level.
    pub fn to_string(&self) -> (r: String)
        ensures
            r@ == self.text(),
    {
        match self {
            BumpLevel::Patch => "patch".to_owned(),
            BumpLevel::Minor => "minor".to_owned(),
            BumpLevel::Major => "major".to_owned(),
        }
    }
}

// ── Laws of versions ────────────────────────────────────────────────────────

/// The order of versions is strict: nothing stands below itself, and of two
/// different versions exactly one stands below the other.
pub proof fn law_order_is_total(a: Semver, b: Semver)
    ensures
        !a.below(a),
        a.below(b) ==> !b.below(a),
        a != b ==> a.below(b) || b.below(a),
{
}

/// The order of versions is transitive.
pub proof fn law_order_is_transitive(a: Semver, b: Semver, c: Semver)
    requires
        a.below(b),
        b.below(c),
    ensures
        a.below(c),
{
}

/// A dev version stands below the release it marks, and above every version
/// that stands below that release without carrying its numbers.
pub proof fn law_dev_version_precedes_its_release(v: Semver, n: u32, w: Semver)
    requires
        v.dev_roll is None,
    ensures
        (Semver { dev_roll: Some(n), ..v }).below(v),
        w.below(v) && (w.major, w.minor, w.patch) != (v.major, v.minor, v.patch) ==> w.below(
            (Semver { dev_roll: Some(n), ..v }),
        ),
{
}

/// Raising any field gives a version strictly above, and the more the field weighs
/// the higher: a patch stands below a minor bump, and that below a major one.
pub proof fn law_bump_raises(v: Semver, level: BumpLevel)
    requires
        v.can_bump(level),
    ensures
        v.below(v.bumped(level)),
        v.bumped(level).dev_roll == v.dev_roll,
        v.can_bump(BumpLevel::Patch) && v.can_bump(BumpLevel::Minor) ==> v.bumped(
            BumpLevel::Patch,
        ).below(v.bumped(BumpLevel::Minor)),
        v.can_bump(BumpLevel::Minor) && v.can_bump(BumpLevel::Major) ==> v.bumped(
            BumpLevel::Minor,
        ).below(v.bumped(BumpLevel::Major)),
{
}

/// What is written as text reads back as the same version.
pub proof fn law_version_reads_back(v: Semver)
    ensures
        version_in(v.text()) == Some(v),
{
    reveal_strlit(".");
    reveal_strlit("-");
    reveal_strlit("-roll");
    reveal_strlit("roll");
    let a = decimal(v.major as nat);
    let b = decimal(v.minor as nat);
    let c = decimal(v.patch as nat);
    lemma_decimal_value(v.major as nat);
    lemma_decimal_value(v.minor as nat);
    lemma_decimal_value(v.patch as nat);
    law_decimal_reads_back(v.major as nat, u64::MAX as nat);
    law_decimal_reads_back(v.minor as nat, u64::MAX as nat);
    law_decimal_reads_back(v.patch as nat, u64::MAX as nat);
    let numbers = a + "."@ + b + "."@ + c;
    assert("."@ =~= seq!['.']);
    assert("-"@ =~= seq!['-']);
    assert(forall|i: int| 0 <= i < a.len() ==> digit(#[trigger] a[i]));
    assert(forall|i: int| 0 <= i < b.len() ==> digit(#[trigger] b[i]));
    assert(forall|i: int| 0 <= i < c.len() ==> digit(#[trigger] c[i]));
    assert(numbers =~= a + seq!['.'] + (b + seq!['.'] + c));
    lemma_parts_cat(a, b + seq!['.'] + c, '.');
    lemma_parts_cat(b, c, '.');
    lemma_parts_single(c, '.');
    assert(parts_on(numbers, '.') =~= seq![a, b, c]);
    assert(forall|i: int| 0 <= i < numbers.len() ==> #[trigger] numbers[i] != '-');
    assert(!white(numbers[0]));
    match v.dev_roll {
        Some(n) => {
            let d = decimal(n as nat);
            lemma_decimal_value(n as nat);
            law_decimal_reads_back(n as nat, u32::MAX as nat);
            let t = v.text();
            assert(t.last() == d.last());
            assert(digit(d[d.len() - 1]));
            lemma_trimmed_as_is(t);
            let rest = "-roll"@ + d;
            assert(t =~= numbers + rest);
            lemma_pos_cat(numbers, rest, '-');
            lemma_found_char(t, '-');
            let suffix = "roll"@ + d;
            assert(t.take(numbers.len() as int) =~= numbers);
            assert(t.skip(numbers.len() as int + 1) =~= suffix);
            assert(cut(t, "-"@) == Some((numbers, suffix)));
            assert(suffix.take(4) =~= "roll"@);
            assert(suffix.skip(4) =~= d);
        },
        None => {
            assert(numbers.last() == c.last());
            assert(digit(c[c.len() - 1]));
            lemma_trimmed_as_is(numbers);
            lemma_pos(numbers, '-');
            lemma_found_char(numbers, '-');
        },
    }
}

// ── Comparing two branches ──────────────────────────────────────────────────

/// Verdict of comparing a source branch's version to its merge target's.
#[derive(Debug, Clone, Copy, PartialEq, Eq, Structural)]
pub enum VersionStatus {
    /// The source is strictly above the target.
    Raised,
    /// The source equals the target: no bump was made.
    Unchanged,
    /// The source is below the target. Never valid.
    Lower,
    /// A manifest exists, but its version cannot be read.
    Unreadable,
    /// The source still carries a roll branch's dev marker.
    DevVersion,
    /// No manifest on either side, or the check is off.
    NotApplicable,
}

/// The two versions that were compared, and the verdict.
#[derive(Debug, Clone, Copy, PartialEq, Eq, Structural)]
pub struct VersionCheck {
    pub head: Option<Semver>,
    pub base: Option<Semver>,
    pub status: VersionStatus,
}

impl VersionCheck {
    /// The check of a repository that is not versioned this way.
    pub fn not_applicable() -> (r: VersionCheck)
        ensures
            r == (VersionCheck { head: None, base: None, status: VersionStatus::NotApplicable }),
    {
        VersionCheck { head: None, base: None, status: VersionStatus::NotApplicable }
    }

    /// Whether the check neither blocks nor has anything to report.
    pub fn is_satisfied(&self) -> (r: bool)
        ensures
            r == (self.status is Raised || self.status is NotApplicable),
    {
        matches!(self.status, VersionStatus::Raised | VersionStatus::NotApplicable)
    }
}

/// The verdict on a source whose manifest exists and reads as `head`, against a
/// target whose manifest exists or not and reads as `base`. A dev version is
/// refused whatever its numbers; a manifest that the source adds is a bump from
/// nothing.
pub open spec fn status_of(
    head: Option<Semver>,
    base: Option<Semver>,
    base_exists: bool,
) -> VersionStatus {
    match (head, base) {
        (Some(h), Some(b)) => if h.dev_roll is Some {
            VersionStatus::DevVersion
        } else if b.below(h) {
            VersionStatus::Raised
        } else if h == b {
            VersionStatus::Unchanged
        } else {
            VersionStatus::Lower
        },
        (Some(h), None) => if h.dev_roll is Some {
            VersionStatus::DevVersion
        } else if !base_exists {
            VersionStatus::Raised
        } else {
            VersionStatus::Unreadable
        },
        (None, _) => VersionStatus::Unreadable,
    }
}

/// The check of two manifests that may exist and may be readable.
pub open spec fn check_of(
    head_exists: bool,
    head: Option<Semver>,
    base_exists: bool,
    base: Option<Semver>,
) -> VersionCheck {
    if !head_exists && !base_exists {
        VersionCheck { head: None, base: None, status: VersionStatus::NotApplicable }
    } else {
        VersionCheck { head, base, status: status_of(head, base, base_exists) }
    }
}

/// Compares the versions that two manifests were read as.
pub fn compare_versions(
    head_exists: bool,
    head: Option<Semver>,
    base_exists: bool,
    base: Option<Semver>,
) -> (r: VersionCheck)
    ensures
        r == check_of(head_exists, head, base_exists, base),
{
    if !head_exists && !base_exists {
        return VersionCheck::not_applicable();
    }
    let status = match (head, base) {
        (Some(h), Some(b)) => if h.is_dev() {
            VersionStatus::DevVersion
        } else if h > b {
            VersionStatus::Raised
        } else if h == b {
            VersionStatus::Unchanged
        } else {
            VersionStatus::Lower
        },
        (Some(h), None) => if h.is_dev() {
            VersionStatus::DevVersion
        } else if !base_exists {
            VersionStatus::Raised
        } else {
            VersionStatus::Unreadable
        },
        (None, _) => VersionStatus::Unreadable,
    };
    VersionCheck { head, base, status }
}

/// A check passes only with a release version on the source, strictly above
/// whatever release the target has; a lower version never passes, and neither
/// does a dev version.
pub proof fn law_only_a_higher_release_passes(
    head: Option<Semver>,
    base_exists: bool,
    base: Option<Semver>,
)
    requires
        check_of(true, head, base_exists, base).status is Raised,
    ensures
        head matches Some(h) && h.dev_roll is None && (base matches Some(b) ==> b.below(h)),
{
}

/// The order reads the numbers from the major one down: the first in which two
/// versions differ decides, by its size. With the same numbers a dev version
/// stands below the release, and of two dev versions the one of the lower roll
/// stands below the other.
pub proof fn law_first_difference_decides(a: Semver, b: Semver)
    ensures
        a.major < b.major ==> a.below(b),
        a.major == b.major && a.minor < b.minor ==> a.below(b),
        a.major == b.major && a.minor == b.minor && a.patch < b.patch ==> a.below(b),
        a.major == b.major && a.minor == b.minor && a.patch == b.patch ==> match (
            a.dev_roll,
            b.dev_roll,
        ) {
            (Some(m), Some(n)) => a.below(b) == (m < n),
            (Some(_), None) => a.below(b),
            (None, _) => !a.below(b),
        },
        a.below(b) ==> a.major <= b.major && (a.major == b.major ==> a.minor <= b.minor && (a.minor
            == b.minor ==> a.patch <= b.patch)),
{
}

/// A release on the source is raised over every readable version that the target
/// declares below it, unchanged against its own, and lower than every one above
/// it; which of the numbers makes the difference does not matter.
pub proof fn law_release_check_is_the_order(h: Semver, b: Semver)
    requires
        h.dev_roll is None,
    ensures
        ({
            let c = check_of(true, Some(h), true, Some(b));
            let higher = h.major > b.major || (h.major == b.major && (h.minor > b.minor || (h.minor
                == b.minor && (h.patch > b.patch || (h.patch == b.patch && b.dev_roll is Some)))));
            let same = h.major == b.major && h.minor == b.minor && h.patch == b.patch
                && b.dev_roll is None;
            &&& b.below(h) ==> c.status is Raised
            &&& c.status is Lower ==> h.below(b)
            &&& c.status is Raised <==> higher
            &&& c.status is Unchanged <==> same
            &&& c.status is Lower <==> !higher && !same
            &&& c.head == Some(h) && c.base == Some(b)
        }),
{
}

/// A dev version on the source is never passed, whatever the target declares; a
/// manifest that cannot be read is never passed; a release in a manifest that the
/// target lacks is a bump; and only a pair of branches without a manifest is left
/// alone.
pub proof fn law_every_source_is_judged(
    head_exists: bool,
    head: Option<Semver>,
    base_exists: bool,
    base: Option<Semver>,
)
    requires
        head is Some ==> head_exists,
        base is Some ==> base_exists,
    ensures
        ({
            let c = check_of(head_exists, head, base_exists, base);
            &&& c.status is NotApplicable <==> !head_exists && !base_exists
            &&& c.status is DevVersion <==> (head matches Some(h) && h.dev_roll is Some)
            &&& c.status is Unreadable <==> (head is None && (head_exists || base_exists)) || (
            head matches Some(h) && h.dev_roll is None && base_exists && base is None)
            &&& (head matches Some(h) && h.dev_roll is None && !base_exists) ==> c.status is Raised
            &&& c.head == head && c.base == base
        }),
{
}

/// Graduation strips a roll's version back to the one it branched from, so that
/// promoting it to a branch with that version asks for a real bump.
pub proof fn law_stripped_version_is_unchanged(v: Semver, n: u32)
    requires
        v.dev_roll is None,
    ensures
        (Semver { dev_roll: None, ..(Semver { dev_roll: Some(n), ..v }) }) == v,
        check_of(
            true,
            Some((Semver { dev_roll: None, ..(Semver { dev_roll: Some(n), ..v }) })),
            true,
            Some(v),
        ).status is Unchanged,
        check_of(true, Some((Semver { dev_roll: Some(n), ..v })), true, Some(v)).status
            is DevVersion,
{
}

// ── Reading a manifest ──────────────────────────────────────────────────────

/// The version that the value of `package.version` writes down.
pub open spec fn declared_version(raw: Option<Seq<char>>) -> Option<Semver> {
    match raw {
        Some(t) => version_in(t),
        None => None,
    }
}

/// Reads the version that the value of `package.version`, if there is one,
/// writes down.
pub fn version_declared(raw: Option<String>) -> (r: Option<Semver>)
    ensures
        r == declared_version(raw.deep_view()),
{
    match raw {
        Some(t) => Semver::parse(t.as_str()),
        None => None,
    }
}

/// The version that a manifest declares, given what its text was read as.
pub open spec fn document_version(
    doc: Result<Seq<(Seq<char>, ValueView)>, Seq<char>>,
) -> Option<Semver> {
    match doc {
        Ok(d) => declared_version(text_in_table(d, "package"@, "version"@)),
        Err(_) => None,
    }
}

/// Reads the version that a manifest declares, given what its text was read as.
/// Section nesting is honoured: the version of a dependency is never taken for
/// it.
pub fn version_in_document(doc: &Vec<(String, TomlValue)>) -> (r: Option<Semver>)
    ensures
        r == document_version(Ok(doc.deep_view())),
{
    version_declared(find_text_in_table(doc, "package", "version"))
}

/// The version in the text of a manifest.
pub open spec fn manifest_version(cargo_toml: Seq<char>) -> Option<Semver> {
    document_version(toml_document(cargo_toml))
}

/// Reads `package.version` from the text of `Cargo.toml`.
pub fn parse_version(cargo_toml: &str) -> (r: Option<Semver>)
    ensures
        r == manifest_version(cargo_toml@),
{
    match read_toml(cargo_toml) {
        Ok(doc) => version_in_document(&doc),
        Err(_) => None,
    }
}

/// The version in a manifest that may not exist.
pub open spec fn version_of(text: Option<Seq<char>>) -> Option<Semver> {
    match text {
        Some(t) => manifest_version(t),
        None => None,
    }
}

/// Reads the version in a manifest that may not exist.
pub fn read_version(text: &Option<String>) -> (r: Option<Semver>)
    ensures
        r == version_of(text.deep_view()),
{
    match text {
        Some(t) => parse_version(t.as_str()),
        None => None,
    }
}

/// Compares the manifest on a source branch to the one on its target.
pub fn check(head_text: &Option<String>, base_text: &Option<String>) -> (r: VersionCheck)
    ensures
        r == check_of(
            head_text is Some,
            version_of(head_text.deep_view()),
            base_text is Some,
            version_of(base_text.deep_view()),
        ),
{
    let head = read_version(head_text);
    let base = read_version(base_text);
    compare_versions(head_text.is_some(), head, base_text.is_some(), base)
}

/// The object name of the manifest at `reference`.
pub open spec fn manifest_spec(reference: Seq<char>) -> Seq<char> {
    reference + ":"@ + VERSION_FILE@
}

/// The object names of the manifests at `refs`, in order.
pub fn manifest_specs(refs: &Vec<String>) -> (r: Vec<String>)
    ensures
        r.deep_view() == refs.deep_view().map_values(|t: Seq<char>| manifest_spec(t)),
{
    let mut r: Vec<String> = Vec::new();
    let mut i: usize = 0;
    while i < refs.len()
        invariant
            i <= refs@.len(),
            r@.len() == i,
            forall|k: int| 0 <= k < i ==> (#[trigger] r@[k])@ == manifest_spec(refs@[k]@),
        decreases refs@.len() - i,
    {
        r.push(cat3(refs[i].as_str(), ":", VERSION_FILE));
        i += 1;
    }
    assert(r.deep_view() =~= refs.deep_view().map_values(|t: Seq<char>| manifest_spec(t)));
    r
}

/// The text beside the last entry with the name `key`.
pub open spec fn blob_at(blobs: Seq<(Seq<char>, Seq<char>)>, key: Seq<char>) -> Option<Seq<char>>
    decreases blobs.len(),
{
    if blobs.len() == 0 {
        None
    } else if blobs.last().0 == key {
        Some(blobs.last().1)
    } else {
        blob_at(blobs.drop_last(), key)
    }
}

/// Looks a text up by its name.
pub fn find_blob<'a>(blobs: &'a Vec<(String, String)>, key: &str) -> (r: Option<&'a String>)
    ensures
        r.deep_view() == blob_at(blobs.deep_view(), key@),
{
    let mut i: usize = blobs.len();
    assert(blobs.deep_view().take(i as int) =~= blobs.deep_view());
    while i > 0
        invariant
            i <= blobs@.len(),
            blob_at(blobs.deep_view(), key@) == blob_at(blobs.deep_view().take(i as int), key@),
        decreases i,
    {
        assert(blobs.deep_view().take(i as int).drop_last() =~= blobs.deep_view().take(i - 1));
        i -= 1;
        if same(blobs[i].0.as_str(), key) {
            return Some(&blobs[i].1);
        }
    }
    None
}

/// The version at `reference`, where its manifest is among `blobs` and holds one.
pub open spec fn version_at(
    reference: Seq<char>,
    blobs: Seq<(Seq<char>, Seq<char>)>,
) -> Option<Semver> {
    version_of(blob_at(blobs, manifest_spec(reference)))
}

/// Each of `refs` that has a version, beside it.
pub open spec fn version_table(
    refs: Seq<Seq<char>>,
    blobs: Seq<(Seq<char>, Seq<char>)>,
) -> Seq<(Seq<char>, Semver)>
    decreases refs.len(),
{
    if refs.len() == 0 {
        seq![]
    } else {
        let before = version_table(refs.drop_last(), blobs);
        match version_at(refs.last(), blobs) {
            Some(v) => before.push((refs.last(), v)),
            None => before,
        }
    }
}

/// The version at each of `refs`. `blobs` holds the manifests that were found,
/// by object name; a reference without a readable version is left out.
pub fn versions_at(refs: &Vec<String>, blobs: &Vec<(String, String)>) -> (r: Vec<(String, Semver)>)
    ensures
        r.deep_view() == version_table(refs.deep_view(), blobs.deep_view()),
{
    let mut r: Vec<(String, Semver)> = Vec::new();
    let mut i: usize = 0;
    assert(r.deep_view() =~= version_table(refs.deep_view().take(0), blobs.deep_view()));
    while i < refs.len()
        invariant
            i <= refs@.len(),
            r.deep_view() == version_table(refs.deep_view().take(i as int), blobs.deep_view()),
        decreases refs@.len() - i,
    {
        let ghost done = refs.deep_view().take(i + 1);
        assert(done.drop_last() =~= refs.deep_view().take(i as int));
        assert(done.last() == refs@[i as int]@);
        let spec = cat3(refs[i].as_str(), ":", VERSION_FILE);
        let ghost before = r.deep_view();
        match find_blob(blobs, spec.as_str()) {
            Some(text) => match parse_version(text.as_str()) {
                Some(v) => {
                    r.push((refs[i].clone(), v));
                    assert(r.deep_view() =~= before.push((refs@[i as int]@, v)));
                },
                None => {},
            },
            None => {},
        }
        i += 1;
    }
    assert(refs.deep_view().take(refs@.len() as int) =~= refs.deep_view());
    r
}

// ── Rewriting a manifest ────────────────────────────────────────────────────

/// Whether a line is a section header.
pub open spec fn is_header(line: Seq<char>) -> bool {
    begins(trimmed_start(line), "["@)
}

/// Whether a line opens the `[package]` table.
pub open spec fn opens_package(line: Seq<char>) -> bool {
    begins(trimmed_start(line), "[package]"@)
}

/// Whether a line without its indentation assigns to the key `version`.
pub open spec fn assigns_version(t: Seq<char>) -> bool {
    match after_prefix(t, "version"@) {
        Some(rest) => begins(trimmed_start(rest), "="@),
        None => false,
    }
}

/// Whether the last header before line `i` opens the `[package]` table.
pub open spec fn in_package(lines: Seq<Seq<char>>, i: int) -> bool
    decreases i,
{
    if i <= 0 {
        false
    } else if is_header(lines[i - 1]) {
        opens_package(lines[i - 1])
    } else {
        in_package(lines, i - 1)
    }
}

/// Whether line `i` assigns the package's version.
pub open spec fn is_version_line(lines: Seq<Seq<char>>, i: int) -> bool {
    &&& 0 <= i < lines.len()
    &&& !is_header(lines[i])
    &&& in_package(lines, i)
    &&& assigns_version(trimmed_start(lines[i]))
}

/// The first line from `i` on that assigns the package's version.
pub open spec fn version_line_from(lines: Seq<Seq<char>>, i: int) -> Option<int>
    decreases lines.len() - i,
{
    if i < 0 || i >= lines.len() {
        None
    } else if is_version_line(lines, i) {
        Some(i)
    } else {
        version_line_from(lines, i + 1)
    }
}

/// The white space at the start of a line.
pub open spec fn indent_of(line: Seq<char>) -> Seq<char> {
    line.take(line.len() - trimmed_start(line).len())
}

/// A version line with the indentation of `line` that assigns `v`.
pub open spec fn version_line(line: Seq<char>, v: Semver) -> Seq<char> {
    indent_of(line) + "version = \""@ + v.text() + "\""@
}

/// The manifest `text` with the first version assignment of the `[package]`
/// table replaced, and every other line as it was; `None` where there is no
/// such assignment. A line feed ends the last line if it did before.
pub open spec fn with_version(text: Seq<char>, v: Semver) -> Option<Seq<char>> {
    let lines = lines_of(text);
    match version_line_from(lines, 0) {
        Some(i) => {
            let body = joined(lines.update(i, version_line(lines[i], v)), "\n"@);
            Some(
                if ends(text, "\n"@) {
                    body + "\n"@
                } else {
                    body
                },
            )
        },
        None => None,
    }
}

/// Whether a line without its indentation assigns to the key `version`.
fn is_version_key(trimmed: &str) -> (r: bool)
    ensures
        r == assigns_version(trimmed@),
{
    match strip_prefix(trimmed, "version") {
        Some(rest) => starts_with(trim_start(rest), "="),
        None => false,
    }
}

/// The first line that assigns the package's version.
fn find_version_line(lines: &Vec<String>) -> (r: Option<usize>)
    ensures
        match version_line_from(lines.deep_view(), 0) {
            Some(i) => r matches Some(k) && k == i && k < lines@.len(),
            None => r is None,
        },
{
    let mut inside = false;
    let mut i: usize = 0;
    while i < lines.len()
        invariant
            i <= lines@.len(),
            inside == in_package(lines.deep_view(), i as int),
            version_line_from(lines.deep_view(), 0) == version_line_from(
                lines.deep_view(),
                i as int,
            ),
        decreases lines@.len() - i,
    {
        assert(lines.deep_view()[i as int] == lines@[i as int]@);
        let t = trim_start(lines[i].as_str());
        if starts_with(t, "[") {
            inside = starts_with(t, "[package]");
        } else if inside && is_version_key(t) {
            return Some(i);
        }
        i += 1;
    }
    None
}

/// Replaces the version in the text of a manifest. Line by line, so that
/// comments, order and layout stay.
pub fn replace_package_version(text: &str, new: Semver) -> (r: Option<String>)
    ensures
        r.deep_view() == with_version(text@, new),
{
    let mut all = lines(text);
    match find_version_line(&all) {
        Some(i) => {
            let ghost before = all.deep_view();
            let line = all[i].clone();
            assert(before[i as int] == line@);
            let n = line.as_str().unicode_len();
            let t = trim_start(line.as_str());
            let k = t.unicode_len();
            proof {
                lemma_trimmed_start_len(line@);
            }
            let indent = line.as_str().substring_char(0, n - k);
            assert(indent@ =~= indent_of(line@));
            let v = new.to_string();
            let replaced = cat4(indent, "version = \"", v.as_str(), "\"");
            all.set(i, replaced);
            assert(all.deep_view() =~= before.update(i as int, version_line(line@, new)));
            let body = join(&all, "\n");
            if ends_with(text, "\n") {
                Some(cat(body.as_str(), "\n"))
            } else {
                Some(body)
            }
        },
        None => None,
    }
}

/// The error that says a manifest has no version to replace.
pub open spec fn no_version_key(path: Seq<char>) -> RfErrorView {
    RfErrorView::Git("could not find a `version` key in the [package] table of "@ + path)
}

/// The text to write back to the manifest at `path` so that it declares `new`.
pub fn write_version(text: &str, new: Semver, path: &str) -> (r: Result<String, RfError>)
    ensures
        match with_version(text@, new) {
            Some(t) => r matches Ok(out) && out@ == t,
            None => r matches Err(e) && e.deep_view() == no_version_key(path@),
        },
{
    match replace_package_version(text, new) {
        Some(out) => Ok(out),
        None => Err(
            RfError::Git(
                cat("could not find a `version` key in the [package] table of ", path),
            ),
        ),
    }
}

/// A header stays a header and a version line stays one when the version on
/// line `at` is replaced.
proof fn lemma_version_line_kept(lines: Seq<Seq<char>>, at: int, v: Semver, i: int)
    requires
        is_version_line(lines, at),
        0 <= i <= lines.len(),
    ensures
        !is_header(version_line(lines[at], v)),
        assigns_version(trimmed_start(version_line(lines[at], v))),
        in_package(lines.update(at, version_line(lines[at], v)), i) == in_package(lines, i),
    decreases i,
{
    let line = lines[at];
    let new = version_line(line, v);
    lemma_version_line_text(line, v);
    if i > 0 {
        lemma_version_line_kept(lines, at, v, i - 1);
    }
}

/// The indentation is all white space, and what follows it starts otherwise.
proof fn lemma_indent(line: Seq<char>, rest: Seq<char>)
    requires
        rest.len() > 0,
        !white(rest[0]),
    ensures
        trimmed_start(indent_of(line) + rest) == rest,
    decreases line.len(),
{
    lemma_trimmed_start_len(line);
    if line.len() > 0 && white(line[0]) {
        lemma_trimmed_start_len(line.skip(1));
        lemma_indent(line.skip(1), rest);
        assert((indent_of(line) + rest).skip(1) =~= indent_of(line.skip(1)) + rest);
        assert(indent_of(line)[0] == line[0]);
    } else {
        assert(indent_of(line) + rest =~= rest);
    }
}

/// A version line, seen without its indentation.
proof fn lemma_version_line_text(line: Seq<char>, v: Semver)
    ensures
        !is_header(version_line(line, v)),
        assigns_version(trimmed_start(version_line(line, v))),
{
    reveal_strlit("version = \"");
    reveal_strlit("version");
    reveal_strlit("[");
    reveal_strlit("=");
    let tail = "version = \""@ + v.text() + "\""@;
    assert(version_line(line, v) =~= indent_of(line) + tail);
    assert(tail[0] == 'v');
    lemma_indent(line, tail);
    assert(tail.take(1)[0] == 'v');
    assert(tail.take(7) =~= "version"@);
    let rest = tail.skip(7);
    assert(rest[0] == ' ');
    assert(rest.skip(1)[0] == '=');
    assert(trimmed_start(rest) == trimmed_start(rest.skip(1)));
    assert(trimmed_start(rest.skip(1)) == rest.skip(1));
    assert(rest.skip(1).take(1) =~= "="@);
}

proof fn lemma_version_line_found(lines: Seq<Seq<char>>, i: int)
    requires
        0 <= i <= lines.len(),
    ensures
        version_line_from(lines, i) matches Some(k) ==> i <= k && is_version_line(lines, k),
    decreases lines.len() - i,
{
    if i < lines.len() && !is_version_line(lines, i) {
        lemma_version_line_found(lines, i + 1);
    }
}

proof fn lemma_version_line_again(lines: Seq<Seq<char>>, i: int, v: Semver)
    requires
        0 <= i <= lines.len(),
        version_line_from(lines, i) is Some,
    ensures
        ({
            let k = version_line_from(lines, i)->0;
            version_line_from(lines.update(k, version_line(lines[k], v)), i) == Some(k)
        }),
    decreases lines.len() - i,
{
    lemma_version_line_found(lines, i);
    let k = version_line_from(lines, i)->0;
    let after = lines.update(k, version_line(lines[k], v));
    lemma_version_line_kept(lines, k, v, i);
    if is_version_line(lines, i) {
    } else {
        lemma_version_line_again(lines, i + 1, v);
    }
}

/// Rewriting the version touches one line: the first version assignment of the
/// `[package]` table. It is still the first afterwards, every other line is as
/// it was, and the new line declares the new version behind the old
/// indentation.
pub proof fn law_rewriting_touches_one_line(text: Seq<char>, v: Semver)
    requires
        with_version(text, v) is Some,
    ensures
        ({
            let before = lines_of(text);
            let at = version_line_from(before, 0)->0;
            let after = before.update(at, version_line(before[at], v));
            &&& 0 <= at < before.len()
            &&& version_line_from(after, 0) == Some(at)
            &&& forall|i: int| 0 <= i < before.len() && i != at ==> after[i] == before[i]
            &&& trimmed_start(after[at]) == "version = \""@ + v.text() + "\""@
        }),
{
    let before = lines_of(text);
    lemma_version_line_found(before, 0);
    lemma_version_line_again(before, 0, v);
    let at = version_line_from(before, 0)->0;
    let tail = "version = \""@ + v.text() + "\""@;
    reveal_strlit("version = \"");
    assert(version_line(before[at], v) =~= indent_of(before[at]) + tail);
    assert(tail[0] == 'v');
    lemma_indent(before[at], tail);
}

proof fn lemma_in_package(lines: Seq<Seq<char>>, i: int)
    requires
        0 <= i <= lines.len(),
    ensures
        in_package(lines, i) <==> exists|h: int|
            0 <= h < i && begins(trimmed_start(#[trigger] lines[h]), "[package]"@) && forall|j: int|
                h < j < i ==> !begins(trimmed_start(#[trigger] lines[j]), "["@),
    decreases i,
{
    if i > 0 {
        lemma_in_package(lines, i - 1);
        reveal_strlit("[");
        reveal_strlit("[package]");
        if is_header(lines[i - 1]) {
            if opens_package(lines[i - 1]) {
                assert(begins(trimmed_start(lines[i - 1]), "[package]"@));
            }
            if exists|h: int|
                0 <= h < i && begins(trimmed_start(#[trigger] lines[h]), "[package]"@) && forall|
                    j: int,
                |
                    h < j < i ==> !begins(trimmed_start(#[trigger] lines[j]), "["@) {
                let h = choose|h: int|
                    0 <= h < i && begins(trimmed_start(#[trigger] lines[h]), "[package]"@)
                        && forall|j: int|
                        h < j < i ==> !begins(trimmed_start(#[trigger] lines[j]), "["@);
                if h < i - 1 {
                    assert(!begins(trimmed_start(lines[i - 1]), "["@));
                }
            }
        } else {
            if in_package(lines, i - 1) {
                let h = choose|h: int|
                    0 <= h < i - 1 && begins(trimmed_start(#[trigger] lines[h]), "[package]"@)
                        && forall|j: int|
                        h < j < i - 1 ==> !begins(trimmed_start(#[trigger] lines[j]), "["@);
                assert(begins(trimmed_start(lines[h]), "[package]"@));
            }
            if exists|h: int|
                0 <= h < i && begins(trimmed_start(#[trigger] lines[h]), "[package]"@) && forall|
                    j: int,
                |
                    h < j < i ==> !begins(trimmed_start(#[trigger] lines[j]), "["@) {
                let h = choose|h: int|
                    0 <= h < i && begins(trimmed_start(#[trigger] lines[h]), "[package]"@)
                        && forall|j: int|
                        h < j < i ==> !begins(trimmed_start(#[trigger] lines[j]), "["@);
                let t = trimmed_start(lines[h]);
                assert(t.take(1) =~= "["@) by {
                    assert(t.take("[package]"@.len() as int)[0] == '[');
                }
                assert(is_header(lines[h]));
                assert(h < i - 1);
            }
        }
    }
}

/// Whether line `i` assigns to `version` under the header `[package]`: such a header
/// stands before it, no other header between the two, and the line itself, behind
/// its indentation, is `version` with an equals sign behind it.
pub open spec fn declares_package_version(lines: Seq<Seq<char>>, i: int) -> bool {
    &&& 0 <= i < lines.len()
    &&& exists|h: int|
        0 <= h < i && begins(trimmed_start(#[trigger] lines[h]), "[package]"@) && forall|j: int|
            h < j < i ==> !begins(trimmed_start(#[trigger] lines[j]), "["@)
    &&& begins(trimmed_start(lines[i]), "version"@)
    &&& begins(trimmed_start(trimmed_start(lines[i]).skip(7)), "="@)
}

proof fn lemma_declares(lines: Seq<Seq<char>>, i: int)
    requires
        0 <= i < lines.len(),
    ensures
        is_version_line(lines, i) == declares_package_version(lines, i),
{
    lemma_in_package(lines, i);
    reveal_strlit("[");
    reveal_strlit("version");
    let t = trimmed_start(lines[i]);
    if begins(t, "version"@) && begins(t, "["@) {
        assert(t.take(7)[0] == 'v');
        assert(t.take(1)[0] == '[');
    }
}

proof fn lemma_first_version_line(lines: Seq<Seq<char>>, from: int, i: int)
    requires
        0 <= from <= i < lines.len(),
        is_version_line(lines, i),
    ensures
        version_line_from(lines, from) matches Some(k) && k <= i,
    decreases i - from,
{
    if !is_version_line(lines, from) {
        lemma_first_version_line(lines, from + 1, i);
    }
}

/// The version is rewritten exactly where the `[package]` table declares one, and
/// then on the first line that does. The manifest that comes out has the lines that
/// went in, except for that one, which declares the new version.
pub proof fn law_rewritten_manifests_declare_the_version(text: Seq<char>, v: Semver, i: int) -> (at:
    int)
    requires
        0 <= i < lines_of(text).len(),
        declares_package_version(lines_of(text), i),
        forall|k: int, j: int|
            0 <= k < lines_of(text).len() && 0 <= j < lines_of(text)[k].len()
                ==> #[trigger] lines_of(text)[k][j] != '\n' && lines_of(text)[k][j] != '\r',
        ends(text, "\n"@) || lines_of(text).last().len() > 0,
    ensures
        with_version(text, v) is Some,
        ({
            let before = lines_of(text);
            let after = lines_of(with_version(text, v)->0);
            &&& 0 <= at <= i
            &&& declares_package_version(before, at)
            &&& forall|k: int| 0 <= k < at ==> !#[trigger] declares_package_version(before, k)
            &&& after.len() == before.len()
            &&& forall|k: int|
                0 <= k < before.len() && k != at ==> #[trigger] after[k] == before[k]
            &&& trimmed_start(after[at]) == "version = \""@ + v.text() + "\""@
        }),
{
    let before = lines_of(text);
    lemma_declares(before, i);
    lemma_first_version_line(before, 0, i);
    lemma_version_line_found(before, 0);
    let at = version_line_from(before, 0)->0;
    lemma_declares(before, at);
    law_rewriting_touches_one_line(text, v);
    let line = version_line(before[at], v);
    let after = before.update(at, line);
    assert forall|k: int| 0 <= k < at implies !#[trigger] declares_package_version(before, k) by {
        lemma_declares(before, k);
        if is_version_line(before, k) {
            lemma_first_version_line(before, 0, k);
        }
    }
    lemma_version_line_plain(before[at], v);
    assert forall|k: int, j: int|
        0 <= k < after.len() && 0 <= j < after[k].len() implies #[trigger] after[k][j] != '\n'
        && after[k][j] != '\r' by {
        if k == at {
            let n = indent_of(before[at]).len();
            if j < n {
                assert(line[j] == before[at][j]);
            }
        } else {
            assert(after[k] == before[k]);
            assert(before[k][j] != '\n');
        }
    }
    reveal_strlit("\n");
    assert("\n"@ =~= seq!['\n']);
    let closed = ends(text, "\n"@);
    if !closed {
        if at == before.len() - 1 {
            assert(after.last() == line);
            reveal_strlit("version = \"");
            assert(line.len() > 0);
        } else {
            assert(after.last() == before.last());
        }
    }
    law_joined_lines_read_back(after, closed);
    at
}

proof fn lemma_version_line_plain(line: Seq<char>, v: Semver)
    ensures
        indent_of(line).len() <= line.len(),
        forall|j: int|
            indent_of(line).len() <= j < version_line(line, v).len() ==> #[trigger] version_line(
                line,
                v,
            )[j] != '\n' && version_line(line, v)[j] != '\r',
        forall|j: int|
            0 <= j < indent_of(line).len() ==> #[trigger] version_line(line, v)[j] == line[j],
{
    reveal_strlit("version = \"");
    reveal_strlit("\"");
    reveal_strlit(".");
    reveal_strlit("-roll");
    lemma_trimmed_start_len(line);
    lemma_decimal_value(v.major as nat);
    lemma_decimal_value(v.minor as nat);
    lemma_decimal_value(v.patch as nat);
    let a = decimal(v.major as nat);
    let b = decimal(v.minor as nat);
    let c = decimal(v.patch as nat);
    assert(forall|i: int| 0 <= i < a.len() ==> digit(#[trigger] a[i]));
    assert(forall|i: int| 0 <= i < b.len() ==> digit(#[trigger] b[i]));
    assert(forall|i: int| 0 <= i < c.len() ==> digit(#[trigger] c[i]));
    let numbers = a + "."@ + b + "."@ + c;
    assert(forall|i: int|
        0 <= i < numbers.len() ==> #[trigger] numbers[i] != '\n' && numbers[i] != '\r');
    let t = v.text();
    match v.dev_roll {
        Some(n) => {
            lemma_decimal_value(n as nat);
            let d = decimal(n as nat);
            assert(forall|i: int| 0 <= i < d.len() ==> digit(#[trigger] d[i]));
            assert(t =~= numbers + "-roll"@ + d);
        },
        None => {},
    }
    assert(forall|i: int| 0 <= i < t.len() ==> #[trigger] t[i] != '\n' && t[i] != '\r');
    let p = "version = \""@;
    assert(forall|i: int| 0 <= i < p.len() ==> #[trigger] p[i] != '\n' && p[i] != '\r');
    let rest = p + t + "\""@;
    assert(forall|i: int| 0 <= i < rest.len() ==> #[trigger] rest[i] != '\n' && rest[i] != '\r');
    let n = indent_of(line);
    let whole = version_line(line, v);
    assert(whole =~= n + rest);
    assert forall|j: int| n.len() <= j < whole.len() implies #[trigger] whole[j] != '\n' && whole[j]
        != '\r' by {
        assert(whole[j] == rest[j - n.len()]);
    }
    assert forall|j: int| 0 <= j < n.len() implies #[trigger] whole[j] == line[j] by {
        assert(whole[j] == n[j]);
    }
}

/// A suffix other than a roll's marker makes a text no version.
pub proof fn law_other_suffixes_are_refused(v: Semver, suffix: Seq<char>)
    requires
        v.dev_roll is None,
        suffix.len() > 0,
        !white(suffix.last()),
        !begins(suffix, "roll"@),
    ensures
        version_in(v.text() + seq!['-'] + suffix) is None,
{
    reveal_strlit(".");
    reveal_strlit("-");
    let a = decimal(v.major as nat);
    let b = decimal(v.minor as nat);
    let c = decimal(v.patch as nat);
    lemma_decimal_value(v.major as nat);
    lemma_decimal_value(v.minor as nat);
    lemma_decimal_value(v.patch as nat);
    assert(forall|i: int| 0 <= i < a.len() ==> digit(#[trigger] a[i]));
    assert(forall|i: int| 0 <= i < b.len() ==> digit(#[trigger] b[i]));
    assert(forall|i: int| 0 <= i < c.len() ==> digit(#[trigger] c[i]));
    let numbers = v.text();
    assert(numbers =~= a + "."@ + b + "."@ + c);
    assert(forall|i: int| 0 <= i < numbers.len() ==> #[trigger] numbers[i] != '-');
    let t = numbers + seq!['-'] + suffix;
    assert(t[0] == a[0]);
    assert(!white(t[0]));
    assert(t.last() == suffix.last());
    lemma_trimmed_as_is(t);
    assert("-"@ =~= seq!['-']);
    assert(t =~= numbers + (seq!['-'] + suffix));
    lemma_pos_cat(numbers, seq!['-'] + suffix, '-');
    lemma_found_char(t, '-');
    assert(t.skip(numbers.len() as int + 1) =~= suffix);
}

/// The version of a manifest is the string at `version` in its table `package`, and
/// nothing else in it; without one there is no version. `k` and `m` are the places
/// of the two.
pub proof fn law_versions_come_from_the_package_table(
    doc: Seq<(Seq<char>, ValueView)>,
    table: Seq<(Seq<char>, ScalarView)>,
    raw: Seq<char>,
    k: int,
    m: int,
)
    requires
        0 <= k < doc.len(),
        doc[k] == ("package"@, ValueView::Table(table)),
        forall|j: int| 0 <= j < k ==> (#[trigger] doc[j]).0 != "package"@,
        0 <= m <= table.len(),
        m < table.len() ==> table[m] == ("version"@, ScalarView::Text(raw)),
        forall|j: int| 0 <= j < m ==> (#[trigger] table[j]).0 != "version"@,
    ensures
        m < table.len() ==> document_version(Ok(doc)) == version_in(raw),
        m == table.len() ==> document_version(Ok(doc)) is None,
{
    law_lookup_finds_the_first(doc, "package"@, k);
    law_lookup_finds_the_first(table, "version"@, m);
}

/// The table of versions holds exactly the references at which a version was found,
/// each with that version.
pub proof fn law_version_tables_hold_what_is_found(
    refs: Seq<Seq<char>>,
    blobs: Seq<(Seq<char>, Seq<char>)>,
    reference: Seq<char>,
    v: Semver,
)
    ensures
        version_table(refs, blobs).contains((reference, v)) <==> refs.contains(reference)
            && version_at(reference, blobs) == Some(v),
    decreases refs.len(),
{
    let table = version_table(refs, blobs);
    if refs.len() > 0 {
        let rest = refs.drop_last();
        let before = version_table(rest, blobs);
        law_version_tables_hold_what_is_found(rest, blobs, reference, v);
        if table.contains((reference, v)) {
            let k = choose|k: int| 0 <= k < table.len() && table[k] == (reference, v);
            if k < before.len() {
                assert(before[k] == (reference, v));
                let i = choose|i: int| 0 <= i < rest.len() && rest[i] == reference;
                assert(refs[i] == reference);
            } else {
                assert(refs[refs.len() - 1] == reference);
            }
        }
        if refs.contains(reference) && version_at(reference, blobs) == Some(v) {
            let i = choose|i: int| 0 <= i < refs.len() && refs[i] == reference;
            if i < rest.len() {
                assert(rest[i] == reference);
                let k = choose|k: int| 0 <= k < before.len() && before[k] == (reference, v);
                assert(table[k] == (reference, v));
            } else {
                assert(table[table.len() - 1] == (reference, v));
            }
        }
    }
}

/// A manifest is found by its object name; where a name stands twice, the last one
/// counts. `k` is its place, or less than zero where there is none.
pub proof fn law_manifests_are_found_by_name(
    blobs: Seq<(Seq<char>, Seq<char>)>,
    key: Seq<char>,
    k: int,
)
    requires
        -1 <= k < blobs.len(),
        k >= 0 ==> blobs[k].0 == key,
        forall|j: int| k < j < blobs.len() ==> (#[trigger] blobs[j]).0 != key,
    ensures
        k >= 0 ==> blob_at(blobs, key) == Some(blobs[k].1),
        k < 0 ==> blob_at(blobs, key) is None,
    decreases blobs.len(),
{
    if blobs.len() > 0 && k < blobs.len() - 1 {
        assert(blobs[blobs.len() - 1].0 != key);
        let rest = blobs.drop_last();
        assert forall|j: int| k < j < rest.len() implies (#[trigger] rest[j]).0 != key by {
            assert(blobs[j].0 != key);
        }
        law_manifests_are_found_by_name(rest, key, k);
    }
}

} // verus!
