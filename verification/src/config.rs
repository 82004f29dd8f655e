//! The configuration: its keys and defaults, how layers of it are laid over
//! each other, and how it is guessed for a repository without one.
use vstd::prelude::*;

use crate::document::{
    as_choice, as_text, bools_of, choice_of, read_bools, read_texts, read_toml, text_of, texts_of,
    toml_document, DocumentView, ScalarView, TomlScalar, TomlValue, ValueView,
};
use crate::error::{RfError, RfErrorView};
use crate::git::{listed_branch, read_listed_branch};
use crate::num::{decimal, to_decimal};
use crate::seqs::{
    find_value, in_order, kept, law_lookup_finds_the_first, law_text_order_is_total, law_text_order_is_transitive,
    lemma_kept_contains, lemma_kept_ends, lemma_kept_step, lemma_lookup_absent, lemma_lookup_push,
    lookup, precedes, text_before,
};
use crate::text::{
    ascii_alnum, ascii_smalls, begins, cat, cat3, cat5, chars_of, contains, copy_texts, cut, ends,
    ends_with, find, found, join, joined, last_cut, law_cuts_are_at_the_first, lemma_found_char,
    lemma_parts_cat, lemma_parts_single, lemma_pos, lemma_pos_cat, lemma_trimmed_as_is, lines,
    lines_of, occurs, owned, parts_on, pos, pos_from, same, split_last, split_on, split_once,
    starts_with, string_from, to_ascii_smalls, trim, trim_end, trimmed, trimmed_end, trimmed_start,
    white,
};

verus! {

/// The name of a repository's configuration file.
pub const CONFIG_NAME: &'static str = ".roll-flow.toml";

/// The version of the configuration's form that this library writes.
pub const CONFIG_VERSION: u32 = 1;

// ── Modes ───────────────────────────────────────────────────────────────────

/// Who drives the workflow.
#[derive(Debug, Clone, Copy, PartialEq, Eq, Structural)]
pub enum Mode {
    /// The tool does.
    Manage,
    /// A human does; the tool reports.
    Assist,
}

impl DeepView for Mode {
    type V = Mode;

    open spec fn deep_view(&self) -> Mode {
        *self
    }
}

impl Default for Mode {
    fn default() -> (r: Mode)
        ensures
            r == Mode::Manage,
    {
        Mode::Manage
    }
}

/// The mode that a word names.
pub open spec fn mode_named(word: Seq<char>) -> Option<Mode> {
    if word == "manage"@ {
        Some(Mode::Manage)
    } else if word == "assist"@ {
        Some(Mode::Assist)
    } else {
        None
    }
}

fn find_mode(word: &str) -> (r: Option<Mode>)
    ensures
        r == mode_named(word@),
{
    if same(word, "manage") {
        Some(Mode::Manage)
    } else if same(word, "assist") {
        Some(Mode::Assist)
    } else {
        None
    }
}

impl Mode {
    /// Reads a mode that a user named, in any case and with white space around.
    pub fn parse(s: &str) -> (r: Result<Mode, RfError>)
        ensures
            match mode_named(ascii_smalls(trimmed(s@))) {
                Some(m) => r == Ok::<Mode, RfError>(m),
                None => r matches Err(e) && e.deep_view() == RfErrorView::Config(
                    "invalid --mode '"@ + ascii_smalls(trimmed(s@))
                        + "' (expected 'manage' or 'assist')"@,
                ),
            },
    {
        let word = to_ascii_smalls(trim(s));
        match find_mode(word.as_str()) {
            Some(m) => Ok(m),
            None => Err(
                RfError::Config(
                    cat3(
                        "invalid --mode '",
                        word.as_str(),
                        "' (expected 'manage' or 'assist')",
                    ),
                ),
            ),
        }
    }
}

/// What pulling does to the checked-out branch.
#[derive(Debug, Clone, Copy, PartialEq, Eq, Structural)]
pub enum PullMode {
    /// Fast-forward or fail.
    FfOnly,
    /// Git's default, which merges on divergence.
    Merge,
    /// Replay local commits on the upstream.
    Rebase,
}

impl DeepView for PullMode {
    type V = PullMode;

    open spec fn deep_view(&self) -> PullMode {
        *self
    }
}

impl Default for PullMode {
    fn default() -> (r: PullMode)
        ensures
            r == PullMode::FfOnly,
    {
        PullMode::FfOnly
    }
}

/// The pull mode that a word names.
pub open spec fn pull_mode_named(word: Seq<char>) -> Option<PullMode> {
    if word == "ff-only"@ {
        Some(PullMode::FfOnly)
    } else if word == "merge"@ {
        Some(PullMode::Merge)
    } else if word == "rebase"@ {
        Some(PullMode::Rebase)
    } else {
        None
    }
}

fn find_pull_mode(word: &str) -> (r: Option<PullMode>)
    ensures
        r == pull_mode_named(word@),
{
    if same(word, "ff-only") {
        Some(PullMode::FfOnly)
    } else if same(word, "merge") {
        Some(PullMode::Merge)
    } else if same(word, "rebase") {
        Some(PullMode::Rebase)
    } else {
        None
    }
}

/// `s` with dashes for underscores.
pub open spec fn dashed(s: Seq<char>) -> Seq<char> {
    Seq::new(
        s.len(),
        |i: int|
            if s[i] == '_' {
                '-'
            } else {
                s[i]
            },
    )
}

fn with_dashes(s: &str) -> (r: String)
    ensures
        r@ == dashed(s@),
{
    let v = chars_of(s);
    let mut r = String::new();
    let mut i: usize = 0;
    assert(r@ =~= dashed(s@).take(0));
    while i < v.len()
        invariant
            v@ == s@,
            i <= v@.len(),
            r@ == dashed(s@).take(i as int),
        decreases v@.len() - i,
    {
        if v[i] == '_' {
            r.push('-');
        } else {
            r.push(v[i]);
        }
        i += 1;
        assert(r@ =~= dashed(s@).take(i as int));
    }
    assert(dashed(s@).take(s@.len() as int) =~= dashed(s@));
    r
}

impl PullMode {
    /// Reads a pull mode that a user named. Dashes and underscores both do.
    pub fn parse(s: &str) -> (r: Result<PullMode, RfError>)
        ensures
            match pull_mode_named(dashed(ascii_smalls(trimmed(s@)))) {
                Some(m) => r == Ok::<PullMode, RfError>(m),
                None => r matches Err(e) && e.deep_view() == RfErrorView::Config(
                    "invalid pull_mode '"@ + dashed(ascii_smalls(trimmed(s@)))
                        + "' (expected 'ff-only', 'merge' or 'rebase')"@,
                ),
            },
    {
        let small = to_ascii_smalls(trim(s));
        let word = with_dashes(small.as_str());
        match find_pull_mode(word.as_str()) {
            Some(m) => Ok(m),
            None => Err(
                RfError::Config(
                    cat3(
                        "invalid pull_mode '",
                        word.as_str(),
                        "' (expected 'ff-only', 'merge' or 'rebase')",
                    ),
                ),
            ),
        }
    }

    /// The flag that the mode adds to `git pull`.
    pub open spec fn flag_text(self) -> Option<Seq<char>> {
        match self {
            PullMode::FfOnly => Some("--ff-only"@),
            PullMode::Merge => None,
            PullMode::Rebase => Some("--rebase"@),
        }
    }

    /// The flag that the mode adds to `git pull`.
    pub fn flag(&self) -> (r: Option<&'static str>)
        ensures
            r.deep_view() == self.flag_text(),
    {
        match self {
            PullMode::FfOnly => Some("--ff-only"),
            PullMode::Merge => None,
            PullMode::Rebase => Some("--rebase"),
        }
    }
}

// ── The configuration ───────────────────────────────────────────────────────

/// The configuration of a repository.
#[derive(Debug)]
pub struct Config {
    pub config_version: u32,
    /// Where the checkout is: always what git says, never what a file says.
    pub repo_root: String,
    pub rolling_branch: String,
    pub stable_branch: String,
    pub roll_prefix: String,
    /// Whether a promotion needs a version bump.
    pub version_gate: bool,
    /// Whether a promotion is tagged.
    pub tag_on_promote: bool,
    /// Whether pushing a release tag is offered.
    pub push_tag: bool,
    pub mode: Mode,
    pub username: String,
    /// The order of the hosts; may be empty.
    pub hosts: Vec<String>,
    /// Which hosts are active, in the order of their names.
    pub host_active: Vec<(String, bool)>,
    pub roll_to_rolling_gates: Vec<String>,
    pub rolling_to_main_gates: Vec<String>,
    /// Commands run for every active host, with its name for `{host}`.
    pub host_gates: Vec<String>,
    /// Branches that a clean never deletes.
    pub clean_protect: Vec<String>,
    pub pull_mode: PullMode,
    pub lazygit_command: String,
}

/// [`Config`] by its characters.
pub struct ConfigView {
    pub config_version: u32,
    pub repo_root: Seq<char>,
    pub rolling_branch: Seq<char>,
    pub stable_branch: Seq<char>,
    pub roll_prefix: Seq<char>,
    pub version_gate: bool,
    pub tag_on_promote: bool,
    pub push_tag: bool,
    pub mode: Mode,
    pub username: Seq<char>,
    pub hosts: Seq<Seq<char>>,
    pub host_active: Seq<(Seq<char>, bool)>,
    pub roll_to_rolling_gates: Seq<Seq<char>>,
    pub rolling_to_main_gates: Seq<Seq<char>>,
    pub host_gates: Seq<Seq<char>>,
    pub clean_protect: Seq<Seq<char>>,
    pub pull_mode: PullMode,
    pub lazygit_command: Seq<char>,
}

impl DeepView for Config {
    type V = ConfigView;

    open spec fn deep_view(&self) -> ConfigView {
        ConfigView {
            config_version: self.config_version,
            repo_root: self.repo_root@,
            rolling_branch: self.rolling_branch@,
            stable_branch: self.stable_branch@,
            roll_prefix: self.roll_prefix@,
            version_gate: self.version_gate,
            tag_on_promote: self.tag_on_promote,
            push_tag: self.push_tag,
            mode: self.mode,
            username: self.username@,
            hosts: self.hosts.deep_view(),
            host_active: self.host_active.deep_view(),
            roll_to_rolling_gates: self.roll_to_rolling_gates.deep_view(),
            rolling_to_main_gates: self.rolling_to_main_gates.deep_view(),
            host_gates: self.host_gates.deep_view(),
            clean_protect: self.clean_protect.deep_view(),
            pull_mode: self.pull_mode,
            lazygit_command: self.lazygit_command@,
        }
    }
}

/// A copy of a table of booleans.
pub fn copy_bools(v: &Vec<(String, bool)>) -> (r: Vec<(String, bool)>)
    ensures
        r.deep_view() == v.deep_view(),
{
    let mut r: Vec<(String, bool)> = Vec::new();
    let mut i: usize = 0;
    while i < v.len()
        invariant
            i <= v@.len(),
            r@.len() == i,
            forall|k: int| 0 <= k < i ==> (#[trigger] r@[k]).deep_view() == v@[k].deep_view(),
        decreases v@.len() - i,
    {
        r.push((v[i].0.clone(), v[i].1));
        assert(r@[i as int].deep_view() == v@[i as int].deep_view());
        i += 1;
    }
    assert(r.deep_view() =~= v.deep_view());
    r
}

impl Config {
    /// A copy of the configuration.
    pub fn copy(&self) -> (r: Config)
        ensures
            r.deep_view() == self.deep_view(),
    {
        Config {
            config_version: self.config_version,
            repo_root: self.repo_root.clone(),
            rolling_branch: self.rolling_branch.clone(),
            stable_branch: self.stable_branch.clone(),
            roll_prefix: self.roll_prefix.clone(),
            version_gate: self.version_gate,
            tag_on_promote: self.tag_on_promote,
            push_tag: self.push_tag,
            mode: self.mode,
            username: self.username.clone(),
            hosts: copy_texts(&self.hosts),
            host_active: copy_bools(&self.host_active),
            roll_to_rolling_gates: copy_texts(&self.roll_to_rolling_gates),
            rolling_to_main_gates: copy_texts(&self.rolling_to_main_gates),
            host_gates: copy_texts(&self.host_gates),
            clean_protect: copy_texts(&self.clean_protect),
            pull_mode: self.pull_mode,
            lazygit_command: self.lazygit_command.clone(),
        }
    }
}

impl Clone for Config {
    fn clone(&self) -> (r: Config)
        ensures
            r.deep_view() == self.deep_view(),
    {
        self.copy()
    }
}

/// The hosts in the order in which they are gone through: `hosts`, or the names
/// of the table where that is empty.
pub open spec fn host_order(hosts: Seq<Seq<char>>, active: Seq<(Seq<char>, bool)>) -> Seq<
    Seq<char>,
> {
    if hosts.len() == 0 {
        Seq::new(active.len(), |i: int| active[i].0)
    } else {
        hosts
    }
}

/// Whether a table stands in the order of its names, each once.
pub open spec fn by_name(table: Seq<(Seq<char>, bool)>) -> bool {
    forall|i: int, j: int| 0 <= i < j < table.len() ==> precedes(table[i].0, table[j].0)
}

impl ConfigView {
    /// Whether the configuration is as every reader makes it: the table of hosts
    /// stands in the order of their names, each once.
    pub open spec fn wf(self) -> bool {
        by_name(self.host_active)
    }
}

/// What is kept of texts in order is in order.
proof fn lemma_kept_in_order(
    names: Seq<Seq<char>>,
    f: spec_fn(Seq<char>) -> Option<Seq<char>>,
)
    requires
        in_order(names),
        forall|h: Seq<char>| #[trigger] f(h) is Some ==> f(h) == Some(h),
    ensures
        in_order(kept(names, f)),
    decreases names.len(),
{
    if names.len() > 0 {
        let front = names.drop_last();
        assert forall|i: int, j: int| 0 <= i < j < front.len() implies precedes(
            front[i],
            front[j],
        ) by {
            assert(precedes(names[i], names[j]));
        }
        lemma_kept_in_order(front, f);
        let r = kept(names, f);
        assert forall|i: int, j: int| 0 <= i < j < r.len() implies precedes(r[i], r[j]) by {
            let k = kept(front, f);
            if j == k.len() {
                assert(k.contains(k[i]));
                lemma_kept_contains(front, f, k[i]);
                let at = choose|at: int|
                    0 <= at < front.len() && f(#[trigger] front[at]) == Some(k[i]);
                assert(precedes(names[at], names[names.len() - 1]));
            } else {
                assert(precedes(k[i], k[j]));
            }
        }
    }
}

/// Whether a host is active: what the table says, and yes where it says
/// nothing.
pub open spec fn is_active(active: Seq<(Seq<char>, bool)>, host: Seq<char>) -> bool {
    match lookup(active, host) {
        Some(b) => b,
        None => true,
    }
}

/// The hosts that are active.
pub open spec fn active_hosts_of(hosts: Seq<Seq<char>>, active: Seq<(Seq<char>, bool)>) -> Seq<
    Seq<char>,
> {
    kept(
        host_order(hosts, active),
        |h: Seq<char>|
            if is_active(active, h) {
                Some(h)
            } else {
                None
            },
    )
}

fn names_of(active: &Vec<(String, bool)>) -> (r: Vec<String>)
    ensures
        r.deep_view() == Seq::new(active@.len(), |i: int| active.deep_view()[i].0),
{
    let mut r: Vec<String> = Vec::new();
    let mut i: usize = 0;
    while i < active.len()
        invariant
            i <= active@.len(),
            r@.len() == i,
            forall|k: int| 0 <= k < i ==> (#[trigger] r@[k])@ == active@[k].0@,
        decreases active@.len() - i,
    {
        r.push(active[i].0.clone());
        i += 1;
    }
    assert(r.deep_view() =~= Seq::new(active@.len(), |i: int| active.deep_view()[i].0));
    r
}

fn host_is_active(active: &Vec<(String, bool)>, host: &str) -> (r: bool)
    ensures
        r == is_active(active.deep_view(), host@),
{
    match find_value(active, host) {
        Some(b) => *b,
        None => true,
    }
}

/// `root` and `name` as one path.
pub open spec fn joined_path(root: Seq<char>, name: Seq<char>) -> Seq<char> {
    if root.len() == 0 || ends(root, "/"@) {
        root + name
    } else {
        root + "/"@ + name
    }
}

/// Joins a directory and a relative name to a path.
pub fn join_path(root: &str, name: &str) -> (r: String)
    ensures
        r@ == joined_path(root@, name@),
{
    if root.is_empty() || ends_with(root, "/") {
        cat(root, name)
    } else {
        cat3(root, "/", name)
    }
}

impl Config {
    /// The hosts that are active. The table counts; `hosts` only fixes the
    /// order, and where it is empty the table's own names are used.
    pub fn active_hosts(&self) -> (r: Vec<String>)
        ensures
            r.deep_view() == active_hosts_of(self.deep_view().hosts, self.deep_view().host_active),
            self.deep_view().wf() && self.hosts@.len() == 0 ==> in_order(r.deep_view()),
    {
        let order = if self.hosts.is_empty() {
            names_of(&self.host_active)
        } else {
            copy_texts(&self.hosts)
        };
        let ghost active = self.host_active.deep_view();
        let ghost all = order.deep_view();
        assert(all == host_order(self.hosts.deep_view(), active));
        let ghost f = |h: Seq<char>|
            if is_active(active, h) {
                Some(h)
            } else {
                None
            };
        let mut r: Vec<String> = Vec::new();
        let mut i: usize = 0;
        proof {
            lemma_kept_ends(all, f);
        }
        assert(r.deep_view() =~= seq![]);
        while i < order.len()
            invariant
                i <= order@.len(),
                active == self.host_active.deep_view(),
                all == order.deep_view(),
                f == (|h: Seq<char>|
                    if is_active(active, h) {
                        Some(h)
                    } else {
                        None
                    }),
                r.deep_view() == kept(all.take(i as int), f),
            decreases order@.len() - i,
        {
            proof {
                lemma_kept_step(all, i as int, f);
            }
            let ghost before = r.deep_view();
            if host_is_active(&self.host_active, order[i].as_str()) {
                r.push(order[i].clone());
                assert(r.deep_view() =~= before.push(order@[i as int]@));
            }
            i += 1;
        }
        proof {
            if self.deep_view().wf() && self.hosts@.len() == 0 {
                assert forall|i: int, j: int| 0 <= i < j < all.len() implies precedes(
                    all[i],
                    all[j],
                ) by {
                    assert(precedes(active[i].0, active[j].0));
                }
                lemma_kept_in_order(all, f);
            }
        }
        r
    }

    /// The path of a repository's configuration file.
    pub fn config_path(repo_root: &str) -> (r: String)
        ensures
            r@ == joined_path(repo_root@, CONFIG_NAME@),
    {
        join_path(repo_root, CONFIG_NAME)
    }

    /// The path of the machine-wide file: under `$XDG_CONFIG_HOME` where that
    /// is an absolute path, else under `$HOME/.config`.
    pub fn global_config_path(xdg_config_home: &Option<String>, home: &Option<String>) -> (r: Option<
        String,
    >)
        ensures
            r.deep_view() == global_path(xdg_config_home.deep_view(), home.deep_view()),
    {
        match xdg_config_home {
            Some(x) => {
                if starts_with(x.as_str(), "/") {
                    return Some(join_path(x.as_str(), "roll-flow/config.toml"));
                }
            },
            None => {},
        }
        match home {
            Some(h) => {
                let base = join_path(h.as_str(), ".config");
                Some(join_path(base.as_str(), "roll-flow/config.toml"))
            },
            None => None,
        }
    }

    /// Whether the tool assists rather than drives.
    pub fn is_assist(&self) -> (r: bool)
        ensures
            r == (self.mode is Assist),
    {
        matches!(self.mode, Mode::Assist)
    }

    /// The error of a repository without a configuration.
    pub fn missing(path: &str) -> (r: RfError)
        ensures
            r.deep_view() == RfErrorView::Config(
                "no roll-flow config found at "@ + path@ + "; run `rf init` first"@,
            ),
    {
        RfError::Config(cat3("no roll-flow config found at ", path, "; run `rf init` first"))
    }
}

/// The path of the machine-wide file.
pub open spec fn global_path(xdg: Option<Seq<char>>, home: Option<Seq<char>>) -> Option<Seq<char>> {
    let usable = xdg matches Some(x) && begins(x, "/"@);
    if usable {
        Some(joined_path(xdg->0, "roll-flow/config.toml"@))
    } else {
        match home {
            Some(h) => Some(joined_path(joined_path(h, ".config"@), "roll-flow/config.toml"@)),
            None => None,
        }
    }
}

// ── Overrides ───────────────────────────────────────────────────────────────

/// A prefix with the slash that ends it.
pub open spec fn slashed(prefix: Seq<char>) -> Seq<char> {
    if ends(prefix, "/"@) {
        prefix
    } else {
        prefix + "/"@
    }
}

/// Ends a prefix with a slash.
pub fn with_slash(prefix: &str) -> (r: String)
    ensures
        r@ == slashed(prefix@),
{
    if ends_with(prefix, "/") {
        owned(prefix)
    } else {
        cat(prefix, "/")
    }
}

/// The text of a part of a list, if it holds any.
pub open spec fn list_part(part: Seq<char>) -> Option<Seq<char>> {
    let t = trimmed(part);
    if t.len() == 0 {
        None
    } else {
        Some(t)
    }
}

/// The names in a list with commas between them.
pub open spec fn comma_list(list: Seq<char>) -> Seq<Seq<char>> {
    kept(parts_on(list, ','), |p: Seq<char>| list_part(p))
}

/// Reads a list with commas between the names.
pub fn parse_comma_list(list: &str) -> (r: Vec<String>)
    ensures
        r.deep_view() == comma_list(list@),
{
    let parts = split_on(list, ',');
    let ghost all = parts.deep_view();
    let ghost f = |p: Seq<char>| list_part(p);
    let mut r: Vec<String> = Vec::new();
    let mut i: usize = 0;
    proof {
        lemma_kept_ends(all, f);
    }
    assert(r.deep_view() =~= seq![]);
    while i < parts.len()
        invariant
            i <= parts@.len(),
            all == parts.deep_view(),
            f == (|p: Seq<char>| list_part(p)),
            r.deep_view() == kept(all.take(i as int), f),
        decreases parts@.len() - i,
    {
        proof {
            lemma_kept_step(all, i as int, f);
        }
        let ghost before = r.deep_view();
        let t = trim(parts[i].as_str());
        if !t.is_empty() {
            r.push(owned(t));
            assert(r.deep_view() =~= before.push(t@));
        }
        i += 1;
    }
    r
}

/// `given`, or `old` where nothing is given.
pub open spec fn or_else<A>(given: Option<A>, old: A) -> A {
    match given {
        Some(v) => v,
        None => old,
    }
}

/// The configuration with what a user gave in place of what was there. A list
/// of hosts without a name in it changes nothing.
pub open spec fn overridden(
    c: ConfigView,
    rolling_branch: Option<Seq<char>>,
    stable_branch: Option<Seq<char>>,
    roll_prefix: Option<Seq<char>>,
    username: Option<Seq<char>>,
    hosts: Option<Seq<char>>,
) -> ConfigView {
    ConfigView {
        rolling_branch: or_else(rolling_branch, c.rolling_branch),
        stable_branch: or_else(stable_branch, c.stable_branch),
        roll_prefix: match roll_prefix {
            Some(p) => slashed(p),
            None => c.roll_prefix,
        },
        username: or_else(username, c.username),
        hosts: match hosts {
            Some(h) => if comma_list(h).len() > 0 {
                comma_list(h)
            } else {
                c.hosts
            },
            None => c.hosts,
        },
        ..c
    }
}

impl Config {
    /// The configuration with what a user gave in place of what was there.
    pub fn with_overrides(
        &self,
        rolling_branch: Option<String>,
        stable_branch: Option<String>,
        roll_prefix: Option<String>,
        username: Option<String>,
        hosts: Option<String>,
    ) -> (r: Config)
        ensures
            r.deep_view() == overridden(
                self.deep_view(),
                rolling_branch.deep_view(),
                stable_branch.deep_view(),
                roll_prefix.deep_view(),
                username.deep_view(),
                hosts.deep_view(),
            ),
            self.deep_view().wf() ==> r.deep_view().wf(),
    {
        let mut updated = self.copy();
        if let Some(v) = rolling_branch {
            updated.rolling_branch = v;
        }
        if let Some(v) = stable_branch {
            updated.stable_branch = v;
        }
        if let Some(v) = roll_prefix {
            updated.roll_prefix = with_slash(v.as_str());
        }
        if let Some(v) = username {
            updated.username = v;
        }
        if let Some(v) = hosts {
            let parsed = parse_comma_list(v.as_str());
            assert(parsed.deep_view().len() == parsed@.len());
            if !parsed.is_empty() {
                updated.hosts = parsed;
            }
        }
        updated
    }
}

// ── Layers ──────────────────────────────────────────────────────────────────

/// Documents with the labels of the files they come from, lowest precedence
/// first.
pub type LayersView = Seq<(Seq<char>, DocumentView)>;

/// The value of a key: what the last layer that has it says, whole.
pub open spec fn layered(docs: LayersView, key: Seq<char>) -> Option<ValueView>
    decreases docs.len(),
{
    if docs.len() == 0 {
        None
    } else {
        match lookup(docs.last().1, key) {
            Some(v) => Some(v),
            None => layered(docs.drop_last(), key),
        }
    }
}

/// A key that the last layer has is taken from it, and every other key from
/// the layers below: nothing of a lower layer's value leaks through.
pub proof fn law_last_layer_wins(docs: LayersView, label: Seq<char>, doc: DocumentView, key: Seq<char>)
    ensures
        lookup(doc, key) is Some ==> layered(docs.push((label, doc)), key) == lookup(doc, key),
        lookup(doc, key) is None ==> layered(docs.push((label, doc)), key) == layered(docs, key),
{
    assert(docs.push((label, doc)).drop_last() =~= docs);
}

fn find_layered<'a>(docs: &'a Vec<(String, Vec<(String, TomlValue)>)>, key: &str) -> (r: Option<
    &'a TomlValue,
>)
    ensures
        r.deep_view() == layered(docs.deep_view(), key@),
{
    let ghost all = docs.deep_view();
    let mut i: usize = docs.len();
    assert(all.take(i as int) =~= all);
    while i > 0
        invariant
            i <= docs@.len(),
            all == docs.deep_view(),
            layered(all, key@) == layered(all.take(i as int), key@),
        decreases i,
    {
        assert(all.take(i as int).drop_last() =~= all.take(i - 1));
        i -= 1;
        match find_value(&docs[i].1, key) {
            Some(v) => {
                return Some(v);
            },
            None => {},
        }
    }
    None
}

/// Whether the configuration has a key of this name.
pub open spec fn known_key(key: Seq<char>) -> bool {
    key == "config_version"@
        || key == "repo_root"@
        || key == "rolling_branch"@
        || key == "stable_branch"@
        || key == "roll_prefix"@
        || key == "version_gate"@
        || key == "tag_on_promote"@
        || key == "push_tag"@
        || key == "mode"@
        || key == "username"@
        || key == "hosts"@
        || key == "host_active"@
        || key == "roll_to_rolling_gates"@
        || key == "rolling_to_main_gates"@
        || key == "host_gates"@
        || key == "clean_protect"@
        || key == "pull_mode"@
        || key == "lazygit_command"@
}

/// Whether the configuration has a key of this name.
pub fn is_known_key(key: &str) -> (r: bool)
    ensures
        r == known_key(key@),
{
    same(key, "config_version")
        || same(key, "repo_root")
        || same(key, "rolling_branch")
        || same(key, "stable_branch")
        || same(key, "roll_prefix")
        || same(key, "version_gate")
        || same(key, "tag_on_promote")
        || same(key, "push_tag")
        || same(key, "mode")
        || same(key, "username")
        || same(key, "hosts")
        || same(key, "host_active")
        || same(key, "roll_to_rolling_gates")
        || same(key, "rolling_to_main_gates")
        || same(key, "host_gates")
        || same(key, "clean_protect")
        || same(key, "pull_mode")
        || same(key, "lazygit_command")
}

/// Whether the value of a key is a string.
pub open spec fn text_key(key: Seq<char>) -> bool {
    key == "repo_root"@
        || key == "rolling_branch"@
        || key == "stable_branch"@
        || key == "roll_prefix"@
        || key == "username"@
        || key == "lazygit_command"@
}

/// Whether the value of a key is a boolean.
pub open spec fn bool_key(key: Seq<char>) -> bool {
    key == "version_gate"@
        || key == "tag_on_promote"@
        || key == "push_tag"@
}

/// Whether the value of a key is a list of strings.
pub open spec fn list_key(key: Seq<char>) -> bool {
    key == "hosts"@
        || key == "roll_to_rolling_gates"@
        || key == "rolling_to_main_gates"@
        || key == "host_gates"@
        || key == "clean_protect"@
}

/// Whether a value has the form that its key asks for.
pub open spec fn well_formed(key: Seq<char>, v: ValueView) -> bool {
    if text_key(key) {
        v matches ValueView::Scalar(s) && text_of(s) is Some
    } else if bool_key(key) {
        v matches ValueView::Scalar(ScalarView::Bool(_))
    } else if list_key(key) {
        v matches ValueView::List(l) && texts_of(l) is Some
    } else if key == "config_version"@ {
        v matches ValueView::Scalar(ScalarView::Int(i)) && 0 <= i <= u32::MAX
    } else if key == "host_active"@ {
        v matches ValueView::Table(t) && bools_of(t) is Some
    } else if key == "mode"@ {
        choice_of(v) matches Some(t) && mode_named(t) is Some
    } else if key == "pull_mode"@ {
        choice_of(v) matches Some(t) && pull_mode_named(t) is Some
    } else {
        true
    }
}

fn is_well_formed(key: &str, v: &TomlValue) -> (r: bool)
    ensures
        r == well_formed(key@, v.deep_view()),
{
    if same(key, "repo_root")
        || same(key, "rolling_branch")
        || same(key, "stable_branch")
        || same(key, "roll_prefix")
        || same(key, "username")
        || same(key, "lazygit_command")
    {
        match v {
            TomlValue::Scalar(s) => as_text(s).is_some(),
            _ => false,
        }
    } else if same(key, "version_gate")
        || same(key, "tag_on_promote")
        || same(key, "push_tag")
    {
        matches!(v, TomlValue::Scalar(TomlScalar::Bool(_)))
    } else if same(key, "hosts")
        || same(key, "roll_to_rolling_gates")
        || same(key, "rolling_to_main_gates")
        || same(key, "host_gates")
        || same(key, "clean_protect")
    {
        match v {
            TomlValue::List(l) => read_texts(l).is_some(),
            _ => false,
        }
    } else if same(key, "config_version") {
        match v {
            TomlValue::Scalar(TomlScalar::Int(i)) => 0 <= *i && *i <= u32::MAX as i64,
            _ => false,
        }
    } else if same(key, "host_active") {
        match v {
            TomlValue::Table(t) => read_bools(t).is_some(),
            _ => false,
        }
    } else if same(key, "mode") {
        match as_choice(v) {
            Some(t) => find_mode(t.as_str()).is_some(),
            None => false,
        }
    } else if same(key, "pull_mode") {
        match as_choice(v) {
            Some(t) => find_pull_mode(t.as_str()).is_some(),
            None => false,
        }
    } else {
        true
    }
}

/// The keys in the order of their names.
pub open spec fn keys_in_order() -> Seq<Seq<char>> {
    seq![
        "clean_protect"@,
        "config_version"@,
        "host_active"@,
        "host_gates"@,
        "hosts"@,
        "lazygit_command"@,
        "mode"@,
        "pull_mode"@,
        "push_tag"@,
        "repo_root"@,
        "roll_prefix"@,
        "roll_to_rolling_gates"@,
        "rolling_branch"@,
        "rolling_to_main_gates"@,
        "stable_branch"@,
        "tag_on_promote"@,
        "username"@,
        "version_gate"@,
    ]
}

/// The first of `keys` whose value does not have the form it should.
pub open spec fn first_bad_key(docs: LayersView, keys: Seq<Seq<char>>) -> Option<Seq<char>>
    decreases keys.len(),
{
    if keys.len() == 0 {
        None
    } else {
        match layered(docs, keys[0]) {
            Some(v) => if well_formed(keys[0], v) {
                first_bad_key(docs, keys.skip(1))
            } else {
                Some(keys[0])
            },
            None => first_bad_key(docs, keys.skip(1)),
        }
    }
}

fn find_bad_key(docs: &Vec<(String, Vec<(String, TomlValue)>)>) -> (r: Option<String>)
    ensures
        r.deep_view() == first_bad_key(docs.deep_view(), keys_in_order()),
{
    let keys = vec![
        "clean_protect".to_owned(),
        "config_version".to_owned(),
        "host_active".to_owned(),
        "host_gates".to_owned(),
        "hosts".to_owned(),
        "lazygit_command".to_owned(),
        "mode".to_owned(),
        "pull_mode".to_owned(),
        "push_tag".to_owned(),
        "repo_root".to_owned(),
        "roll_prefix".to_owned(),
        "roll_to_rolling_gates".to_owned(),
        "rolling_branch".to_owned(),
        "rolling_to_main_gates".to_owned(),
        "stable_branch".to_owned(),
        "tag_on_promote".to_owned(),
        "username".to_owned(),
        "version_gate".to_owned(),
    ];
    let ghost all = keys.deep_view();
    assert(all =~= keys_in_order());
    let mut i: usize = 0;
    assert(all.skip(0) =~= all);
    while i < keys.len()
        invariant
            i <= keys@.len(),
            all == keys.deep_view(),
            all == keys_in_order(),
            first_bad_key(docs.deep_view(), all) == first_bad_key(
                docs.deep_view(),
                all.skip(i as int),
            ),
        decreases keys@.len() - i,
    {
        assert(all.skip(i as int).skip(1) =~= all.skip(i + 1));
        match find_layered(docs, keys[i].as_str()) {
            Some(v) => {
                if !is_well_formed(keys[i].as_str(), v) {
                    return Some(keys[i].clone());
                }
            },
            None => {},
        }
        i += 1;
    }
    None
}

/// The string at a key, or what stands in for it.
pub open spec fn text_at(docs: LayersView, key: Seq<char>, default: Seq<char>) -> Seq<char> {
    match layered(docs, key) {
        Some(ValueView::Scalar(s)) => or_else(text_of(s), default),
        _ => default,
    }
}

fn read_text(docs: &Vec<(String, Vec<(String, TomlValue)>)>, key: &str, default: &str) -> (r: String)
    ensures
        r@ == text_at(docs.deep_view(), key@, default@),
{
    match find_layered(docs, key) {
        Some(TomlValue::Scalar(s)) => match as_text(s) {
            Some(t) => t.clone(),
            None => owned(default),
        },
        _ => owned(default),
    }
}

/// The word at a key that picks one of several alternatives, or a default.
pub open spec fn choice_at(docs: LayersView, key: Seq<char>, default: Seq<char>) -> Seq<char> {
    match layered(docs, key) {
        Some(v) => or_else(choice_of(v), default),
        None => default,
    }
}

fn read_choice(docs: &Vec<(String, Vec<(String, TomlValue)>)>, key: &str, default: &str) -> (r:
    String)
    ensures
        r@ == choice_at(docs.deep_view(), key@, default@),
{
    match find_layered(docs, key) {
        Some(v) => match as_choice(v) {
            Some(t) => t.clone(),
            None => owned(default),
        },
        None => owned(default),
    }
}

/// The boolean at a key, or yes.
pub open spec fn bool_at(docs: LayersView, key: Seq<char>) -> bool {
    match layered(docs, key) {
        Some(ValueView::Scalar(ScalarView::Bool(b))) => b,
        _ => true,
    }
}

fn read_bool(docs: &Vec<(String, Vec<(String, TomlValue)>)>, key: &str) -> (r: bool)
    ensures
        r == bool_at(docs.deep_view(), key@),
{
    match find_layered(docs, key) {
        Some(TomlValue::Scalar(TomlScalar::Bool(b))) => *b,
        _ => true,
    }
}

/// The strings at a key, or none.
pub open spec fn texts_at(docs: LayersView, key: Seq<char>) -> Seq<Seq<char>> {
    match layered(docs, key) {
        Some(ValueView::List(l)) => or_else(texts_of(l), seq![]),
        _ => seq![],
    }
}

fn read_list(docs: &Vec<(String, Vec<(String, TomlValue)>)>, key: &str) -> (r: Vec<String>)
    ensures
        r.deep_view() == texts_at(docs.deep_view(), key@),
{
    let none: Vec<String> = Vec::new();
    assert(none.deep_view() =~= seq![]);
    match find_layered(docs, key) {
        Some(TomlValue::List(l)) => match read_texts(l) {
            Some(v) => v,
            None => none,
        },
        _ => none,
    }
}

/// The table of active hosts, in the order of their names, or an empty one.
pub open spec fn bools_at(docs: LayersView, key: Seq<char>) -> Seq<(Seq<char>, bool)> {
    match layered(docs, key) {
        Some(ValueView::Table(t)) => table_of(or_else(bools_of(t), seq![])),
        _ => seq![],
    }
}

fn read_table(docs: &Vec<(String, Vec<(String, TomlValue)>)>, key: &str) -> (r: Vec<(String, bool)>)
    ensures
        r.deep_view() == bools_at(docs.deep_view(), key@),
{
    let none: Vec<(String, bool)> = Vec::new();
    assert(none.deep_view() =~= seq![]);
    match find_layered(docs, key) {
        Some(TomlValue::Table(t)) => match read_bools(t) {
            Some(v) => collect_table(&v),
            None => none,
        },
        _ => none,
    }
}

/// The configuration that well-formed layers describe, as it stands in them.
pub open spec fn config_in(docs: LayersView, repo_root: Seq<char>) -> ConfigView {
    ConfigView {
        config_version: match layered(docs, "config_version"@) {
            Some(ValueView::Scalar(ScalarView::Int(i))) => i as u32,
            _ => 1,
        },
        repo_root,
        rolling_branch: text_at(docs, "rolling_branch"@, ""@),
        stable_branch: text_at(docs, "stable_branch"@, ""@),
        roll_prefix: slashed(text_at(docs, "roll_prefix"@, ""@)),
        version_gate: bool_at(docs, "version_gate"@),
        tag_on_promote: bool_at(docs, "tag_on_promote"@),
        push_tag: bool_at(docs, "push_tag"@),
        mode: or_else(mode_named(choice_at(docs, "mode"@, "manage"@)), Mode::Manage),
        username: text_at(docs, "username"@, ""@),
        hosts: texts_at(docs, "hosts"@),
        host_active: bools_at(docs, "host_active"@),
        roll_to_rolling_gates: texts_at(docs, "roll_to_rolling_gates"@),
        rolling_to_main_gates: texts_at(docs, "rolling_to_main_gates"@),
        host_gates: texts_at(docs, "host_gates"@),
        clean_protect: texts_at(docs, "clean_protect"@),
        pull_mode: or_else(
            pull_mode_named(choice_at(docs, "pull_mode"@, "ff-only"@)),
            PullMode::FfOnly,
        ),
        lazygit_command: text_at(docs, "lazygit_command"@, "lazygit"@),
    }
}

fn read_config(docs: &Vec<(String, Vec<(String, TomlValue)>)>, repo_root: &str) -> (r: Config)
    requires
        first_bad_key(docs.deep_view(), keys_in_order()) is None,
    ensures
        r.deep_view() == config_in(docs.deep_view(), repo_root@),
{
    proof {
        lemma_version_fits(docs.deep_view());
    }
    let config_version = match find_layered(docs, "config_version") {
        Some(TomlValue::Scalar(TomlScalar::Int(i))) => *i as u32,
        _ => 1,
    };
    let prefix = read_text(docs, "roll_prefix", "");
    let mode = read_choice(docs, "mode", "manage");
    let pull_mode = read_choice(docs, "pull_mode", "ff-only");
    Config {
        config_version,
        repo_root: owned(repo_root),
        rolling_branch: read_text(docs, "rolling_branch", ""),
        stable_branch: read_text(docs, "stable_branch", ""),
        roll_prefix: with_slash(prefix.as_str()),
        version_gate: read_bool(docs, "version_gate"),
        tag_on_promote: read_bool(docs, "tag_on_promote"),
        push_tag: read_bool(docs, "push_tag"),
        mode: match find_mode(mode.as_str()) {
            Some(m) => m,
            None => Mode::Manage,
        },
        username: read_text(docs, "username", ""),
        hosts: read_list(docs, "hosts"),
        host_active: read_table(docs, "host_active"),
        roll_to_rolling_gates: read_list(docs, "roll_to_rolling_gates"),
        rolling_to_main_gates: read_list(docs, "rolling_to_main_gates"),
        host_gates: read_list(docs, "host_gates"),
        clean_protect: read_list(docs, "clean_protect"),
        pull_mode: match find_pull_mode(pull_mode.as_str()) {
            Some(m) => m,
            None => PullMode::FfOnly,
        },
        lazygit_command: read_text(docs, "lazygit_command", "lazygit"),
    }
}

proof fn lemma_good_keys(docs: LayersView, keys: Seq<Seq<char>>, i: int)
    requires
        first_bad_key(docs, keys) is None,
        0 <= i < keys.len(),
    ensures
        layered(docs, keys[i]) matches Some(v) ==> well_formed(keys[i], v),
    decreases keys.len(),
{
    if i > 0 {
        lemma_good_keys(docs, keys.skip(1), i - 1);
        assert(keys.skip(1)[i - 1] == keys[i]);
    }
}

proof fn lemma_version_fits(docs: LayersView)
    requires
        first_bad_key(docs, keys_in_order()) is None,
    ensures
        layered(docs, "config_version"@) matches Some(ValueView::Scalar(ScalarView::Int(i)))
            ==> 0 <= i <= u32::MAX,
{
    lemma_good_keys(docs, keys_in_order(), 1);
    lemma_keys_differ();
}

/// The key of the form's version is neither a string, a boolean nor a list.
proof fn lemma_keys_differ()
    ensures
        !text_key("config_version"@),
        !bool_key("config_version"@),
        !list_key("config_version"@),
{
    reveal_strlit("config_version");
    reveal_strlit("repo_root");
    reveal_strlit("rolling_branch");
    reveal_strlit("stable_branch");
    reveal_strlit("roll_prefix");
    reveal_strlit("username");
    reveal_strlit("lazygit_command");
    reveal_strlit("version_gate");
    reveal_strlit("tag_on_promote");
    reveal_strlit("push_tag");
    reveal_strlit("hosts");
    reveal_strlit("roll_to_rolling_gates");
    reveal_strlit("rolling_to_main_gates");
    reveal_strlit("host_gates");
    reveal_strlit("clean_protect");
    let v = "config_version"@;
    assert(v[0] == 'c' && v[1] == 'o' && v.len() == 14);
    assert("repo_root"@.len() != 14 || "repo_root"@[0] != 'c' || "repo_root"@[1] != 'o');
    assert("rolling_branch"@.len() != 14 || "rolling_branch"@[0] != 'c' || "rolling_branch"@[1] != 'o');
    assert("stable_branch"@.len() != 14 || "stable_branch"@[0] != 'c' || "stable_branch"@[1] != 'o');
    assert("roll_prefix"@.len() != 14 || "roll_prefix"@[0] != 'c' || "roll_prefix"@[1] != 'o');
    assert("username"@.len() != 14 || "username"@[0] != 'c' || "username"@[1] != 'o');
    assert("lazygit_command"@.len() != 14 || "lazygit_command"@[0] != 'c' || "lazygit_command"@[1] != 'o');
    assert("version_gate"@.len() != 14 || "version_gate"@[0] != 'c' || "version_gate"@[1] != 'o');
    assert("tag_on_promote"@.len() != 14 || "tag_on_promote"@[0] != 'c' || "tag_on_promote"@[1] != 'o');
    assert("push_tag"@.len() != 14 || "push_tag"@[0] != 'c' || "push_tag"@[1] != 'o');
    assert("hosts"@.len() != 14 || "hosts"@[0] != 'c' || "hosts"@[1] != 'o');
    assert("roll_to_rolling_gates"@.len() != 14 || "roll_to_rolling_gates"@[0] != 'c' || "roll_to_rolling_gates"@[1] != 'o');
    assert("rolling_to_main_gates"@.len() != 14 || "rolling_to_main_gates"@[0] != 'c' || "rolling_to_main_gates"@[1] != 'o');
    assert("host_gates"@.len() != 14 || "host_gates"@[0] != 'c' || "host_gates"@[1] != 'o');
    assert("clean_protect"@.len() != 14 || "clean_protect"@[0] != 'c' || "clean_protect"@[1] != 'o');
}

/// The warnings about the keys of one layer that the configuration does not
/// have.
pub open spec fn unknown_in(label: Seq<char>, doc: DocumentView) -> Seq<Seq<char>> {
    kept(
        doc,
        |e: (Seq<char>, ValueView)|
            if known_key(e.0) {
                None
            } else {
                Some("unknown key '"@ + e.0 + "' in "@ + label + " is ignored"@)
            },
    )
}

/// The warnings about unknown keys, layer by layer.
pub open spec fn unknown_keys(docs: LayersView) -> Seq<Seq<char>>
    decreases docs.len(),
{
    if docs.len() == 0 {
        seq![]
    } else {
        unknown_keys(docs.drop_last()) + unknown_in(docs.last().0, docs.last().1)
    }
}

fn append_unknown(r: &mut Vec<String>, label: &str, doc: &Vec<(String, TomlValue)>)
    ensures
        final(r).deep_view() == old(r).deep_view() + unknown_in(label@, doc.deep_view()),
{
    let ghost start = r.deep_view();
    let ghost all = doc.deep_view();
    let ghost f = |e: (Seq<char>, ValueView)|
        if known_key(e.0) {
            None
        } else {
            Some("unknown key '"@ + e.0 + "' in "@ + label@ + " is ignored"@)
        };
    let mut i: usize = 0;
    proof {
        lemma_kept_ends(all, f);
        assert(start + Seq::<Seq<char>>::empty() =~= start);
    }
    while i < doc.len()
        invariant
            i <= doc@.len(),
            all == doc.deep_view(),
            f == (|e: (Seq<char>, ValueView)|
                if known_key(e.0) {
                    None
                } else {
                    Some("unknown key '"@ + e.0 + "' in "@ + label@ + " is ignored"@)
                }),
            r.deep_view() == start + kept(all.take(i as int), f),
        decreases doc@.len() - i,
    {
        proof {
            lemma_kept_step(all, i as int, f);
        }
        let ghost before = r.deep_view();
        let ghost done = kept(all.take(i as int), f);
        if !is_known_key(doc[i].0.as_str()) {
            let w = cat5("unknown key '", doc[i].0.as_str(), "' in ", label, " is ignored");
            let ghost wv = w@;
            r.push(w);
            assert(r.deep_view() =~= before.push(wv));
            assert(before.push(wv) =~= start + done.push(wv));
        }
        i += 1;
    }
}

/// The warning about another version of the configuration's form.
pub open spec fn version_warning(version: u32) -> Seq<Seq<char>> {
    if version != CONFIG_VERSION {
        seq![
            "config_version is "@ + decimal(version as nat) + " but this rf writes "@ + decimal(
                CONFIG_VERSION as nat,
            ) + "; it still loads"@,
        ]
    } else {
        seq![]
    }
}

/// The warning about a prefix that does not end in a slash.
pub open spec fn prefix_warning(prefix: Seq<char>) -> Seq<Seq<char>> {
    if ends(prefix, "/"@) {
        seq![]
    } else {
        seq![
            "roll_prefix '"@ + prefix + "' does not end in '/'; using '"@ + prefix + "/'"@,
        ]
    }
}

/// The warning about a host gate without a placeholder.
pub open spec fn gate_warning(gate: Seq<char>) -> Option<Seq<char>> {
    if occurs(gate, "{host}"@) {
        None
    } else {
        Some(
            "host gate '"@ + gate
                + "' has no {host} placeholder and will run identically for every host"@,
        )
    }
}

/// The warning about a host that the table does not mention.
pub open spec fn host_warning(active: Seq<(Seq<char>, bool)>, host: Seq<char>) -> Option<Seq<char>> {
    if lookup(active, host) is Some {
        None
    } else {
        Some(
            "host '"@ + host
                + "' is listed in hosts but not in [host_active]; treated as active"@,
        )
    }
}

/// Every warning that layers earn.
pub open spec fn warnings_of(docs: LayersView, c: ConfigView) -> Seq<Seq<char>> {
    unknown_keys(docs) + version_warning(c.config_version) + prefix_warning(
        text_at(docs, "roll_prefix"@, ""@),
    ) + kept(c.host_gates, |g: Seq<char>| gate_warning(g)) + kept(
        c.hosts,
        |h: Seq<char>| host_warning(c.host_active, h),
    )
}

fn collect_warnings(docs: &Vec<(String, Vec<(String, TomlValue)>)>, config: &Config) -> (r: Vec<
    String,
>)
    ensures
        r.deep_view() == warnings_of(docs.deep_view(), config.deep_view()),
{
    let ghost all = docs.deep_view();
    let ghost c = config.deep_view();
    let mut r: Vec<String> = Vec::new();
    let mut i: usize = 0;
    assert(r.deep_view() =~= unknown_keys(all.take(0)));
    while i < docs.len()
        invariant
            i <= docs@.len(),
            all == docs.deep_view(),
            r.deep_view() == unknown_keys(all.take(i as int)),
        decreases docs@.len() - i,
    {
        assert(all.take(i + 1).drop_last() =~= all.take(i as int));
        append_unknown(&mut r, docs[i].0.as_str(), &docs[i].1);
        i += 1;
    }
    assert(all.take(all.len() as int) =~= all);
    let ghost w0 = unknown_keys(all);
    if config.config_version != CONFIG_VERSION {
        let n = to_decimal(config.config_version as u64);
        let m = to_decimal(CONFIG_VERSION as u64);
        let w = cat5(
            "config_version is ",
            n.as_str(),
            " but this rf writes ",
            m.as_str(),
            "; it still loads",
        );
        r.push(w);
    }
    assert(r.deep_view() =~= w0 + version_warning(c.config_version));
    let ghost w1 = r.deep_view();
    let prefix = read_text(docs, "roll_prefix", "");
    if !ends_with(prefix.as_str(), "/") {
        let w = cat5(
            "roll_prefix '",
            prefix.as_str(),
            "' does not end in '/'; using '",
            prefix.as_str(),
            "/'",
        );
        r.push(w);
    }
    assert(r.deep_view() =~= w1 + prefix_warning(prefix@));
    let ghost w2 = r.deep_view();
    let ghost f = |g: Seq<char>| gate_warning(g);
    let mut j: usize = 0;
    proof {
        lemma_kept_ends(c.host_gates, f);
        assert(w2 + Seq::<Seq<char>>::empty() =~= w2);
    }
    while j < config.host_gates.len()
        invariant
            j <= config.host_gates@.len(),
            c == config.deep_view(),
            f == (|g: Seq<char>| gate_warning(g)),
            r.deep_view() == w2 + kept(c.host_gates.take(j as int), f),
        decreases config.host_gates@.len() - j,
    {
        proof {
            lemma_kept_step(c.host_gates, j as int, f);
        }
        let ghost before = r.deep_view();
        let ghost done = kept(c.host_gates.take(j as int), f);
        if !contains(config.host_gates[j].as_str(), "{host}") {
            let w = cat3(
                "host gate '",
                config.host_gates[j].as_str(),
                "' has no {host} placeholder and will run identically for every host",
            );
            let ghost wv = w@;
            r.push(w);
            assert(r.deep_view() =~= before.push(wv));
            assert(before.push(wv) =~= w2 + done.push(wv));
        }
        j += 1;
    }
    let ghost w3 = r.deep_view();
    let ghost g = |h: Seq<char>| host_warning(c.host_active, h);
    let mut k: usize = 0;
    proof {
        lemma_kept_ends(c.hosts, g);
        assert(w3 + Seq::<Seq<char>>::empty() =~= w3);
    }
    while k < config.hosts.len()
        invariant
            k <= config.hosts@.len(),
            c == config.deep_view(),
            g == (|h: Seq<char>| host_warning(c.host_active, h)),
            r.deep_view() == w3 + kept(c.hosts.take(k as int), g),
        decreases config.hosts@.len() - k,
    {
        proof {
            lemma_kept_step(c.hosts, k as int, g);
        }
        let ghost before = r.deep_view();
        let ghost done = kept(c.hosts.take(k as int), g);
        if find_value(&config.host_active, config.hosts[k].as_str()).is_none() {
            let w = cat3(
                "host '",
                config.hosts[k].as_str(),
                "' is listed in hosts but not in [host_active]; treated as active",
            );
            let ghost wv = w@;
            r.push(w);
            assert(r.deep_view() =~= before.push(wv));
            assert(before.push(wv) =~= w3 + done.push(wv));
        }
        k += 1;
    }
    r
}

/// The error of layers that do not make a configuration.
pub open spec fn unusable(what: Seq<char>) -> RfErrorView {
    RfErrorView::Config(what + "; run `rf init` to regenerate the file"@)
}

/// The configuration that layers describe, with the warnings they earn. A value
/// of the wrong form is an error, and so is a missing branch key: the first in
/// the order of the names, and only then the first that is missing.
pub open spec fn config_of(docs: LayersView, repo_root: Seq<char>) -> Result<
    (ConfigView, Seq<Seq<char>>),
    RfErrorView,
> {
    match first_bad_key(docs, keys_in_order()) {
        Some(key) => Err(unusable("invalid value for key `"@ + key + "`"@)),
        None => if layered(docs, "rolling_branch"@) is None {
            Err(unusable("missing field `rolling_branch`"@))
        } else if layered(docs, "stable_branch"@) is None {
            Err(unusable("missing field `stable_branch`"@))
        } else if layered(docs, "roll_prefix"@) is None {
            Err(unusable("missing field `roll_prefix`"@))
        } else {
            let c = config_in(docs, repo_root);
            Ok((c, warnings_of(docs, c)))
        },
    }
}

/// Texts read as documents, with their labels, or the error of the first that
/// cannot be read.
pub open spec fn layers_read(layers: Seq<(Seq<char>, Seq<char>)>) -> Result<LayersView, RfErrorView>
    decreases layers.len(),
{
    if layers.len() == 0 {
        Ok(seq![])
    } else {
        match layers_read(layers.drop_last()) {
            Ok(front) => match toml_document(layers.last().1) {
                Ok(d) => Ok(front.push((layers.last().0, d))),
                Err(w) => Err(RfErrorView::Config(layers.last().0 + ": "@ + trimmed_end(w))),
            },
            Err(e) => Err(e),
        }
    }
}

/// The first error decides.
proof fn lemma_layers_read_prefix(layers: Seq<(Seq<char>, Seq<char>)>, i: int)
    requires
        0 <= i <= layers.len(),
        layers_read(layers.take(i)) is Err,
    ensures
        layers_read(layers) == layers_read(layers.take(i)),
    decreases layers.len() - i,
{
    if i < layers.len() {
        assert(layers.take(i + 1).drop_last() =~= layers.take(i));
        lemma_layers_read_prefix(layers, i + 1);
    } else {
        assert(layers.take(i) =~= layers);
    }
}

fn unusable_error(what: &str) -> (r: RfError)
    ensures
        r.deep_view() == unusable(what@),
{
    RfError::Config(cat(what, "; run `rf init` to regenerate the file"))
}

impl Config {
    /// The configuration that documents, lowest precedence first, describe, and
    /// the warnings they earn. Merging is by key: a key in a later layer
    /// replaces the earlier one whole.
    pub fn from_documents(
        docs: &Vec<(String, Vec<(String, TomlValue)>)>,
        repo_root: &str,
    ) -> (r: Result<(Config, Vec<String>), RfError>)
        ensures
            match (r, config_of(docs.deep_view(), repo_root@)) {
                (Ok((c, w)), Ok((cv, wv))) => c.deep_view() == cv && w.deep_view() == wv,
                (Err(e), Err(ev)) => e.deep_view() == ev,
                _ => false,
            },
            r matches Ok(read) ==> read.0.deep_view().wf(),
    {
        proof {
            law_configurations_are_well_formed(docs.deep_view(), repo_root@, None, None, None);
        }
        match find_bad_key(docs) {
            Some(key) => {
                let what = cat3("invalid value for key `", key.as_str(), "`");
                return Err(unusable_error(what.as_str()));
            },
            None => {},
        }
        if find_layered(docs, "rolling_branch").is_none() {
            return Err(unusable_error("missing field `rolling_branch`"));
        }
        if find_layered(docs, "stable_branch").is_none() {
            return Err(unusable_error("missing field `stable_branch`"));
        }
        if find_layered(docs, "roll_prefix").is_none() {
            return Err(unusable_error("missing field `roll_prefix`"));
        }
        let config = read_config(docs, repo_root);
        let warnings = collect_warnings(docs, &config);
        Ok((config, warnings))
    }

    /// Reads and merges the texts of configuration files, lowest precedence
    /// first, each with its label.
    pub fn from_layers(layers: &Vec<(String, String)>, repo_root: &str) -> (r: Result<
        (Config, Vec<String>),
        RfError,
    >)
        ensures
            match layers_read(layers.deep_view()) {
                Ok(docs) => match (r, config_of(docs, repo_root@)) {
                    (Ok((c, w)), Ok((cv, wv))) => c.deep_view() == cv && w.deep_view() == wv,
                    (Err(e), Err(ev)) => e.deep_view() == ev,
                    _ => false,
                },
                Err(ev) => r matches Err(e) && e.deep_view() == ev,
            },
            r matches Ok(read) ==> read.0.deep_view().wf(),
    {
        let ghost all = layers.deep_view();
        let mut docs: Vec<(String, Vec<(String, TomlValue)>)> = Vec::new();
        let mut i: usize = 0;
        assert(docs.deep_view() =~= seq![]);
        while i < layers.len()
            invariant
                i <= layers@.len(),
                all == layers.deep_view(),
                layers_read(all.take(i as int)) == Ok::<LayersView, RfErrorView>(docs.deep_view()),
            decreases layers@.len() - i,
        {
            assert(all.take(i + 1).drop_last() =~= all.take(i as int));
            let ghost before = docs.deep_view();
            match read_toml(layers[i].1.as_str()) {
                Ok(d) => {
                    let ghost dv = d.deep_view();
                    docs.push((layers[i].0.clone(), d));
                    assert(docs.deep_view() =~= before.push((layers@[i as int].0@, dv)));
                },
                Err(e) => {
                    proof {
                        lemma_layers_read_prefix(all, i + 1);
                    }
                    return Err(
                        RfError::Config(
                            cat3(layers[i].0.as_str(), ": ", trim_end(e.as_str())),
                        ),
                    );
                },
            }
            i += 1;
        }
        assert(all.take(all.len() as int) =~= all);
        Config::from_documents(&docs, repo_root)
    }

    /// Reads the text of one configuration file on its own.
    pub fn parse(content: &str, repo_root: &str) -> (r: Result<(Config, Vec<String>), RfError>)
        ensures
            match layers_read(seq![(CONFIG_NAME@, content@)]) {
                Ok(docs) => match (r, config_of(docs, repo_root@)) {
                    (Ok((c, w)), Ok((cv, wv))) => c.deep_view() == cv && w.deep_view() == wv,
                    (Err(e), Err(ev)) => e.deep_view() == ev,
                    _ => false,
                },
                Err(ev) => r matches Err(e) && e.deep_view() == ev,
            },
            r matches Ok(read) ==> read.0.deep_view().wf(),
    {
        let layers = vec![(CONFIG_NAME.to_owned(), owned(content))];
        assert(layers.deep_view() =~= seq![(CONFIG_NAME@, content@)]);
        Config::from_layers(&layers, repo_root)
    }
}

/// Whatever the files say, the checkout is where git says it is, and the roll
/// prefix ends in a slash.
pub proof fn law_root_and_prefix(docs: LayersView, repo_root: Seq<char>)
    requires
        config_of(docs, repo_root) is Ok,
    ensures
        config_of(docs, repo_root)->Ok_0.0.repo_root == repo_root,
        ends(config_of(docs, repo_root)->Ok_0.0.roll_prefix, "/"@),
{
    let p = text_at(docs, "roll_prefix"@, ""@);
    let q = p + "/"@;
    reveal_strlit("/");
    assert(q.skip(q.len() - 1) =~= "/"@);
}

// ── Reading `vars/hosts.nix` and `vars/default.nix` ─────────────────────────

/// A line up to its comment.
pub open spec fn uncommented_line(line: Seq<char>) -> Seq<char> {
    line.take(pos(line, '#') as int)
}

/// A text without the comments of its lines.
pub open spec fn uncommented(content: Seq<char>) -> Seq<char> {
    joined(
        Seq::new(lines_of(content).len(), |i: int| uncommented_line(lines_of(content)[i])),
        "\n"@,
    )
}

/// Drops the comments, so that what is commented out is not read.
pub fn strip_nix_comments(content: &str) -> (r: String)
    ensures
        r@ == uncommented(content@),
{
    let all = lines(content);
    let ghost ls = lines_of(content@);
    let mut r: Vec<String> = Vec::new();
    let mut i: usize = 0;
    while i < all.len()
        invariant
            i <= all@.len(),
            all.deep_view() == ls,
            r@.len() == i,
            forall|k: int| 0 <= k < i ==> (#[trigger] r@[k])@ == uncommented_line(ls[k]),
        decreases all@.len() - i,
    {
        assert(ls[i as int] == all@[i as int]@);
        let v = chars_of(all[i].as_str());
        assert(v@.skip(0) =~= v@);
        let k = pos_from(&v, 0, '#');
        let t = string_from(&v, 0, k);
        assert(t@ =~= uncommented_line(ls[i as int]));
        r.push(t);
        i += 1;
    }
    assert(r.deep_view() =~= Seq::new(ls.len(), |i: int| uncommented_line(ls[i])));
    join(&r, "\n")
}

/// What stands between the first `open` and the first `close` behind it.
pub open spec fn enclosed(content: Seq<char>, open: Seq<char>, close: Seq<char>) -> Option<
    Seq<char>,
> {
    match cut(content, open) {
        Some((_, rest)) => match cut(rest, close) {
            Some((inner, _)) => Some(inner),
            None => None,
        },
        None => None,
    }
}

fn find_enclosed<'a>(content: &'a str, open: &str, close: &str) -> (r: Option<&'a str>)
    ensures
        r.deep_view() == enclosed(content@, open@, close@),
{
    match split_once(content, open) {
        Some((_, rest)) => match split_once(rest, close) {
            Some((inner, _)) => Some(inner),
            None => None,
        },
        None => None,
    }
}

/// Every second part, from the second on.
pub open spec fn odd_parts(parts: Seq<Seq<char>>) -> Seq<Seq<char>> {
    Seq::new(parts.len() / 2, |i: int| parts[2 * i + 1])
}

/// The strings of the list that `key` is bound to: what stands between double
/// quotes, up to the first closing bracket.
pub open spec fn nix_list(content: Seq<char>, key: Seq<char>) -> Option<Seq<Seq<char>>> {
    match enclosed(content, key + " = ["@, "]"@) {
        Some(inner) => Some(odd_parts(parts_on(inner, '"'))),
        None => None,
    }
}

/// Reads the strings of the list that `key` is bound to.
pub fn parse_nix_string_list(content: &str, key: &str) -> (r: Option<Vec<String>>)
    ensures
        r.deep_view() == nix_list(content@, key@),
{
    let marker = cat(key, " = [");
    match find_enclosed(content, marker.as_str(), "]") {
        Some(inner) => {
            let parts = split_on(inner, '"');
            let ghost all = parts.deep_view();
            let m = parts.len();
            let n = m / 2;
            let mut r: Vec<String> = Vec::new();
            let mut i: usize = 0;
            while i < n
                invariant
                    all == parts.deep_view(),
                    m == parts@.len(),
                    n == m / 2,
                    i <= n,
                    r@.len() == i,
                    forall|k: int| 0 <= k < i ==> (#[trigger] r@[k])@ == all[2 * k + 1],
                decreases n - i,
            {
                assert(all[2 * i + 1] == parts@[2 * i + 1]@);
                r.push(parts[2 * i + 1].clone());
                i += 1;
            }
            assert(r.deep_view() =~= odd_parts(all));
            Some(r)
        },
        None => None,
    }
}

/// The string that `key` is bound to.
pub open spec fn nix_string(content: Seq<char>, key: Seq<char>) -> Option<Seq<char>> {
    enclosed(content, key + " = \""@, "\""@)
}

/// Reads the string that `key` is bound to.
pub fn parse_nix_string_value(content: &str, key: &str) -> (r: Option<String>)
    ensures
        r.deep_view() == nix_string(content@, key@),
{
    let marker = cat(key, " = \"");
    match find_enclosed(content, marker.as_str(), "\"") {
        Some(t) => Some(owned(t)),
        None => None,
    }
}

/// Whether a character is a letter or a digit in the sense of Unicode.
pub uninterp spec fn alphanumeric(c: char) -> bool;

/// `char::is_alphanumeric` says whether a character is a letter or a digit. The
/// contract names its answer, which the character determines, and says what it
/// is on ASCII.
pub assume_specification[ char::is_alphanumeric ](c: char) -> (r: bool)
    ensures
        r == alphanumeric(c),
        (c as u32) < 128 ==> r == ascii_alnum(c),
;

/// Whether a text can be the name of a host.
pub open spec fn host_name(name: Seq<char>) -> bool {
    name.len() > 0 && forall|i: int|
        0 <= i < name.len() ==> alphanumeric(#[trigger] name[i]) || name[i] == '_' || name[i] == '-'
}

fn is_host_name(name: &str) -> (r: bool)
    ensures
        r == host_name(name@),
{
    let v = chars_of(name);
    if v.len() == 0 {
        return false;
    }
    let mut i: usize = 0;
    while i < v.len()
        invariant
            v@ == name@,
            i <= v@.len(),
            forall|k: int|
                0 <= k < i ==> alphanumeric(#[trigger] name@[k]) || name@[k] == '_' || name@[k]
                    == '-',
        decreases v@.len() - i,
    {
        let c = v[i];
        if !(c.is_alphanumeric() || c == '_' || c == '-') {
            assert(!(alphanumeric(name@[i as int]) || name@[i as int] == '_' || name@[i as int]
                == '-'));
            return false;
        }
        i += 1;
    }
    true
}

/// The binding of a name to a boolean.
pub open spec fn bool_binding(part: Seq<char>) -> Option<(Seq<char>, bool)> {
    match cut(trimmed(part), "="@) {
        Some((name, val)) => if !host_name(trimmed(name)) {
            None
        } else if trimmed(val) == "true"@ {
            Some((trimmed(name), true))
        } else if trimmed(val) == "false"@ {
            Some((trimmed(name), false))
        } else {
            None
        },
        None => None,
    }
}

fn parse_binding(part: &str) -> (r: Option<(String, bool)>)
    ensures
        r.deep_view() == bool_binding(part@),
{
    match split_once(trim(part), "=") {
        Some((name, val)) => {
            let n = trim(name);
            let v = trim(val);
            if !is_host_name(n) {
                None
            } else if same(v, "true") {
                Some((owned(n), true))
            } else if same(v, "false") {
                Some((owned(n), false))
            } else {
                None
            }
        },
        None => None,
    }
}

/// The bindings of names to booleans, in order; anything else is skipped.
pub open spec fn bool_bindings(slice: Seq<char>) -> Seq<(Seq<char>, bool)> {
    kept(parts_on(slice, ';'), |p: Seq<char>| bool_binding(p))
}

/// Reads the bindings of names to booleans.
pub fn parse_bool_bindings(slice: &str) -> (r: Vec<(String, bool)>)
    ensures
        r.deep_view() == bool_bindings(slice@),
{
    let parts = split_on(slice, ';');
    let ghost all = parts.deep_view();
    let ghost f = |p: Seq<char>| bool_binding(p);
    let mut r: Vec<(String, bool)> = Vec::new();
    let mut i: usize = 0;
    proof {
        lemma_kept_ends(all, f);
    }
    assert(r.deep_view() =~= seq![]);
    while i < parts.len()
        invariant
            i <= parts@.len(),
            all == parts.deep_view(),
            f == (|p: Seq<char>| bool_binding(p)),
            r.deep_view() == kept(all.take(i as int), f),
        decreases parts@.len() - i,
    {
        proof {
            lemma_kept_step(all, i as int, f);
        }
        let ghost before = r.deep_view();
        match parse_binding(parts[i].as_str()) {
            Some(b) => {
                let ghost v = b.deep_view();
                r.push(b);
                assert(r.deep_view() =~= before.push(v));
            },
            None => {},
        }
        i += 1;
    }
    r
}

/// A table with `key` bound to `value`, in the order of its names.
pub open spec fn with_entry(t: Seq<(Seq<char>, bool)>, key: Seq<char>, value: bool) -> Seq<
    (Seq<char>, bool),
>
    decreases t.len(),
{
    if t.len() == 0 || precedes(t.last().0, key) {
        t.push((key, value))
    } else if t.last().0 == key {
        t.drop_last().push((key, value))
    } else {
        with_entry(t.drop_last(), key, value).push(t.last())
    }
}

/// The table of bindings, in the order of the names; of two bindings of one
/// name the later counts.
pub open spec fn table_of(bindings: Seq<(Seq<char>, bool)>) -> Seq<(Seq<char>, bool)>
    decreases bindings.len(),
{
    if bindings.len() == 0 {
        seq![]
    } else {
        with_entry(table_of(bindings.drop_last()), bindings.last().0, bindings.last().1)
    }
}

proof fn lemma_with_entry(t: Seq<(Seq<char>, bool)>, key: Seq<char>, value: bool)
    requires
        by_name(t),
    ensures
        by_name(with_entry(t, key, value)),
        forall|i: int|
            0 <= i < with_entry(t, key, value).len() ==> (#[trigger] with_entry(t, key, value)[i]).0
                == key || exists|j: int|
                0 <= j < t.len() && (#[trigger] t[j]).0 == with_entry(t, key, value)[i].0,
        forall|name: Seq<char>| #[trigger]
            lookup(with_entry(t, key, value), name) == (if name == key {
                Some(value)
            } else {
                lookup(t, name)
            }),
    decreases t.len(),
{
    let r = with_entry(t, key, value);
    law_text_order_is_total(key, key);
    if t.len() == 0 {
        assert(r =~= seq![(key, value)]);
        assert(r.skip(1) =~= seq![]);
        assert forall|name: Seq<char>| #[trigger] lookup(r, name) == (if name == key {
            Some(value)
        } else {
            lookup(t, name)
        }) by {
            lemma_lookup_push(t, (key, value), name);
        }
    } else {
        let front = t.drop_last();
        let last = t.last();
        assert(t =~= front.push(last));
        law_text_order_is_total(last.0, key);
        if precedes(last.0, key) {
            assert forall|i: int, j: int| 0 <= i < j < r.len() implies precedes(r[i].0, r[j].0) by {
                if j == r.len() - 1 && i < t.len() - 1 {
                    law_text_order_is_transitive(t[i].0, last.0, key);
                }
            }
            assert forall|i: int| 0 <= i < r.len() implies (#[trigger] r[i]).0 == key || exists|
                j: int,
            |
                0 <= j < t.len() && (#[trigger] t[j]).0 == r[i].0 by {
                if i < t.len() {
                    assert(t[i].0 == r[i].0);
                }
            }
            assert(forall|j: int| 0 <= j < t.len() ==> (#[trigger] t[j]).0 != key) by {
                assert forall|j: int| 0 <= j < t.len() implies (#[trigger] t[j]).0 != key by {
                    if j < t.len() - 1 {
                        law_text_order_is_total(t[j].0, last.0);
                    }
                }
            }
            lemma_lookup_absent(t, key);
            assert forall|name: Seq<char>| #[trigger] lookup(r, name) == (if name == key {
                Some(value)
            } else {
                lookup(t, name)
            }) by {
                lemma_lookup_push(t, (key, value), name);
            }
        } else if last.0 == key {
            assert forall|i: int| 0 <= i < r.len() implies (#[trigger] r[i]).0 == key || exists|
                j: int,
            |
                0 <= j < t.len() && (#[trigger] t[j]).0 == r[i].0 by {
                assert(t[i].0 == r[i].0);
            }
            assert forall|j: int| 0 <= j < front.len() implies (#[trigger] front[j]).0 != key by {
                assert(precedes(t[j].0, t[t.len() - 1].0));
            }
            lemma_lookup_absent(front, key);
            assert forall|name: Seq<char>| #[trigger] lookup(r, name) == (if name == key {
                Some(value)
            } else {
                lookup(t, name)
            }) by {
                lemma_lookup_push(front, (key, value), name);
                lemma_lookup_push(front, last, name);
            }
        } else {
            lemma_with_entry(front, key, value);
            let u = with_entry(front, key, value);
            assert forall|i: int| 0 <= i < r.len() implies (#[trigger] r[i]).0 == key || exists|
                j: int,
            |
                0 <= j < t.len() && (#[trigger] t[j]).0 == r[i].0 by {
                if i < u.len() {
                    assert(r[i] == u[i]);
                    if u[i].0 != key {
                        let j = choose|j: int| 0 <= j < front.len() && (#[trigger] front[j]).0
                            == u[i].0;
                        assert(t[j].0 == r[i].0);
                    }
                } else {
                    assert(t[t.len() - 1].0 == r[i].0);
                }
            }
            assert forall|i: int, j: int| 0 <= i < j < r.len() implies precedes(r[i].0, r[j].0) by {
                if j == r.len() - 1 {
                    assert(r[i] == u[i]);
                    if u[i].0 != key {
                        let k = choose|k: int| 0 <= k < front.len() && (#[trigger] front[k]).0
                            == u[i].0;
                        assert(precedes(t[k].0, t[t.len() - 1].0));
                    }
                } else {
                    assert(precedes(u[i].0, u[j].0));
                }
            }
            assert forall|name: Seq<char>| #[trigger] lookup(r, name) == (if name == key {
                Some(value)
            } else {
                lookup(t, name)
            }) by {
                lemma_lookup_push(u, last, name);
                lemma_lookup_push(front, last, name);
                assert(lookup(u, name) == (if name == key {
                    Some(value)
                } else {
                    lookup(front, name)
                }));
            }
        }
    }
}

/// A table stands in the order of its names, each once, and a binding behind all
/// others is the one that counts.
pub proof fn law_tables_are_by_name(bindings: Seq<(Seq<char>, bool)>, name: Seq<char>, value: bool)
    ensures
        by_name(table_of(bindings)),
        lookup(table_of(bindings.push((name, value))), name) == Some(value),
        by_name(bindings) ==> table_of(bindings) == bindings,
    decreases bindings.len(),
{
    let all = bindings.push((name, value));
    assert(all.drop_last() =~= bindings);
    if bindings.len() > 0 {
        let front = bindings.drop_last();
        let last = bindings.last();
        law_tables_are_by_name(front, last.0, last.1);
        lemma_with_entry(table_of(front), last.0, last.1);
        if by_name(bindings) {
            assert forall|i: int, j: int| 0 <= i < j < front.len() implies precedes(
                front[i].0,
                front[j].0,
            ) by {
                assert(precedes(bindings[i].0, bindings[j].0));
            }
            if front.len() > 0 {
                assert(precedes(bindings[front.len() - 1].0, bindings[front.len() as int].0));
            }
            assert(table_of(bindings) =~= front.push(last));
        }
    }
    lemma_with_entry(table_of(bindings), name, value);
}

/// Every configuration that is read or guessed is well formed.
pub proof fn law_configurations_are_well_formed(
    docs: LayersView,
    repo_root: Seq<char>,
    listing: Option<Seq<char>>,
    hosts_nix: Option<Seq<char>>,
    user: Option<Seq<char>>,
)
    ensures
        config_of(docs, repo_root) matches Ok(read) ==> read.0.wf(),
        guessed(repo_root, listing, hosts_nix, user).wf(),
{
    match layered(docs, "host_active"@) {
        Some(ValueView::Table(t)) => {
            law_tables_are_by_name(or_else(bools_of(t), seq![]), ""@, true);
        },
        _ => {},
    }
    match hosts_nix {
        Some(content) => {
            let text = uncommented(content);
            match enclosed(text, "host_active"@ + " = {"@, "}"@) {
                Some(inner) => {
                    law_tables_are_by_name(bool_bindings(inner), ""@, true);
                },
                None => {},
            }
            law_tables_are_by_name(bool_bindings(braced(text)), ""@, true);
        },
        None => {},
    }
}

fn insert_entry(t: &mut Vec<(String, bool)>, key: String, value: bool)
    ensures
        final(t).deep_view() == with_entry(old(t).deep_view(), key@, value),
{
    let ghost s = t.deep_view();
    let ghost kv = key@;
    let mut p: usize = t.len();
    assert(s.take(p as int) =~= s);
    assert(with_entry(s, kv, value) =~= with_entry(s.take(p as int), kv, value) + s.skip(p as int));
    while p > 0
        invariant
            t.deep_view() == s,
            s.len() == t@.len(),
            kv == key@,
            p <= s.len(),
            with_entry(s, kv, value) == with_entry(s.take(p as int), kv, value) + s.skip(p as int),
        ensures
            t.deep_view() == s,
            p <= s.len() == t@.len(),
            kv == key@,
            with_entry(s, kv, value) == with_entry(s.take(p as int), kv, value) + s.skip(p as int),
            p == 0 || precedes(s[p - 1].0, kv) || s[p - 1].0 == kv,
        decreases p,
    {
        assert(s[p - 1].0 == t@[p - 1].0@);
        if text_before(t[p - 1].0.as_str(), key.as_str()) {
            break;
        }
        if same(t[p - 1].0.as_str(), key.as_str()) {
            break;
        }
        proof {
            let f = s.take(p as int);
            assert(f.drop_last() =~= s.take(p - 1));
            assert(with_entry(f, kv, value) + s.skip(p as int) =~= with_entry(
                s.take(p - 1),
                kv,
                value,
            ) + s.skip(p - 1));
        }
        p -= 1;
    }
    if p > 0 && same(t[p - 1].0.as_str(), key.as_str()) && !text_before(
        t[p - 1].0.as_str(),
        key.as_str(),
    ) {
        assert(s[p - 1].0 == kv);
        t.set(p - 1, (key, value));
        proof {
            let f = s.take(p as int);
            assert(f.drop_last().push((kv, value)) + s.skip(p as int) =~= s.update(
                p - 1,
                (kv, value),
            ));
        }
        assert(t.deep_view() =~= s.update(p - 1, (kv, value)));
    } else {
        proof {
            if p > 0 {
                law_text_order_is_total(s[p - 1].0, kv);
            }
        }
        t.insert(p, (key, value));
        assert(s.take(p as int).push((kv, value)) + s.skip(p as int) =~= s.insert(
            p as int,
            (kv, value),
        ));
        assert(t.deep_view() =~= s.insert(p as int, (kv, value)));
    }
}

fn collect_table(bindings: &Vec<(String, bool)>) -> (r: Vec<(String, bool)>)
    ensures
        r.deep_view() == table_of(bindings.deep_view()),
{
    let ghost all = bindings.deep_view();
    let mut r: Vec<(String, bool)> = Vec::new();
    let mut i: usize = 0;
    assert(r.deep_view() =~= table_of(all.take(0)));
    while i < bindings.len()
        invariant
            i <= bindings@.len(),
            all == bindings.deep_view(),
            r.deep_view() == table_of(all.take(i as int)),
        decreases bindings@.len() - i,
    {
        assert(all.take(i + 1).drop_last() =~= all.take(i as int));
        insert_entry(&mut r, bindings[i].0.clone(), bindings[i].1);
        i += 1;
    }
    assert(all.take(all.len() as int) =~= all);
    r
}

/// The booleans of the set that `key` is bound to.
pub open spec fn nix_bools(content: Seq<char>, key: Seq<char>) -> Seq<(Seq<char>, bool)> {
    match enclosed(content, key + " = {"@, "}"@) {
        Some(inner) => table_of(bool_bindings(inner)),
        None => seq![],
    }
}

/// Reads the booleans of the set that `key` is bound to.
pub fn parse_nix_bool_attrs(content: &str, key: &str) -> (r: Vec<(String, bool)>)
    ensures
        r.deep_view() == nix_bools(content@, key@),
{
    let marker = cat(key, " = {");
    match find_enclosed(content, marker.as_str(), "}") {
        Some(inner) => {
            let b = parse_bool_bindings(inner);
            collect_table(&b)
        },
        None => {
            let none: Vec<(String, bool)> = Vec::new();
            assert(none.deep_view() =~= seq![]);
            none
        },
    }
}

/// What stands between the first opening and the last closing brace, or all of
/// it where there are none.
pub open spec fn braced(content: Seq<char>) -> Seq<char> {
    match (found(content, "{"@), last_cut(content, '}')) {
        (Some(open), Some((before, _))) => if before.len() > open {
            content.subrange(open as int + 1, before.len() as int)
        } else {
            content
        },
        _ => content,
    }
}

/// Reads the bindings at the top level of a bare set, in the order of the file.
pub fn parse_nix_bool_attrs_bare(content: &str) -> (r: Vec<(String, bool)>)
    ensures
        r.deep_view() == bool_bindings(braced(content@)),
{
    proof {
        lemma_last_cut_bounds(content@, '}');
    }
    match (find(content, "{"), split_last(content, '}')) {
        (Some(open), Some((before, _))) => {
            let close = before.unicode_len();
            if close > open {
                parse_bool_bindings(content.substring_char(open + 1, close))
            } else {
                parse_bool_bindings(content)
            }
        },
        _ => parse_bool_bindings(content),
    }
}

proof fn lemma_last_cut_bounds(s: Seq<char>, c: char)
    ensures
        last_cut(s, c) matches Some((a, _)) ==> a.len() < s.len(),
    decreases s.len(),
{
    if s.len() > 0 && s.last() != c {
        lemma_last_cut_bounds(s.drop_last(), c);
    }
}

/// The hosts that `vars/hosts.nix` describes, in order, and which are active:
/// from an explicit list with a table beside it, or else from a bare set of
/// names bound to booleans. `None` where it describes none.
pub open spec fn hosts_in(content: Seq<char>) -> Option<
    (Seq<Seq<char>>, Seq<(Seq<char>, bool)>),
> {
    let text = uncommented(content);
    match nix_list(text, "hosts"@) {
        Some(hosts) => Some((hosts, nix_bools(text, "host_active"@))),
        None => {
            let active = bool_bindings(braced(text));
            if active.len() == 0 {
                None
            } else {
                Some((Seq::new(active.len(), |i: int| active[i].0), table_of(active)))
            }
        },
    }
}

/// Reads `vars/hosts.nix`.
pub fn parse_hosts_nix(content: &str) -> (r: Option<(Vec<String>, Vec<(String, bool)>)>)
    ensures
        r.deep_view() == hosts_in(content@),
{
    let text = strip_nix_comments(content);
    match parse_nix_string_list(text.as_str(), "hosts") {
        Some(hosts) => {
            let active = parse_nix_bool_attrs(text.as_str(), "host_active");
            Some((hosts, active))
        },
        None => {
            let active = parse_nix_bool_attrs_bare(text.as_str());
            assert(active.deep_view().len() == active@.len());
            if active.is_empty() {
                return None;
            }
            let hosts = names_of(&active);
            let table = collect_table(&active);
            Some((hosts, table))
        },
    }
}

// ── Guessing a configuration ────────────────────────────────────────────────

/// Whether a listing of branches names one.
pub open spec fn lists_branch(listing: Seq<char>, name: Seq<char>) -> bool {
    exists|i: int|
        0 <= i < lines_of(listing).len() && listed_branch(#[trigger] lines_of(listing)[i]) == name
}

fn has_branch(all: &Vec<String>, name: &str) -> (r: bool)
    ensures
        r == exists|i: int|
            0 <= i < all@.len() && listed_branch(#[trigger] all.deep_view()[i]) == name@,
{
    let mut i: usize = 0;
    while i < all.len()
        invariant
            i <= all@.len(),
            forall|k: int| 0 <= k < i ==> listed_branch(#[trigger] all.deep_view()[k]) != name@,
        decreases all@.len() - i,
    {
        assert(all.deep_view()[i as int] == all@[i as int]@);
        if same(read_listed_branch(all[i].as_str()), name) {
            return true;
        }
        i += 1;
    }
    false
}

/// The rolling and the stable branch that a listing of local branches suggests.
pub open spec fn branches_guessed(listing: Seq<char>) -> (Seq<char>, Seq<char>) {
    let rolling = if lists_branch(listing, "rolling"@) {
        "rolling"@
    } else if lists_branch(listing, "develop"@) {
        "develop"@
    } else if lists_branch(listing, "integration"@) {
        "integration"@
    } else {
        "rolling"@
    };
    let stable = if lists_branch(listing, "main"@) {
        "main"@
    } else if lists_branch(listing, "master"@) {
        "master"@
    } else {
        "main"@
    };
    (rolling, stable)
}

/// Guesses the rolling and the stable branch from a listing of local branches.
pub fn detect_branches(listing: &str) -> (r: (String, String))
    ensures
        r.deep_view() == branches_guessed(listing@),
{
    let all = lines(listing);
    assert(all.deep_view().len() == all@.len());
    let rolling = if has_branch(&all, "rolling") {
        "rolling".to_owned()
    } else if has_branch(&all, "develop") {
        "develop".to_owned()
    } else if has_branch(&all, "integration") {
        "integration".to_owned()
    } else {
        "rolling".to_owned()
    };
    let stable = if has_branch(&all, "main") {
        "main".to_owned()
    } else if has_branch(&all, "master") {
        "master".to_owned()
    } else {
        "main".to_owned()
    };
    (rolling, stable)
}

/// The user that rolls are attributed to: what `vars/default.nix` says, else
/// the login name, else git's user name; nothing where none of them says.
pub open spec fn user_guessed(
    default_nix: Option<Seq<char>>,
    login: Option<Seq<char>>,
    git_name: Option<Seq<char>>,
) -> Option<Seq<char>> {
    let declared = match default_nix {
        Some(t) => nix_string(uncommented(t), "username"@),
        None => None,
    };
    if declared is Some {
        declared
    } else if login matches Some(u) && trimmed(u).len() > 0 {
        login
    } else if git_name matches Some(n) && n.len() > 0 {
        git_name
    } else {
        None
    }
}

/// Guesses the user that rolls are attributed to.
pub fn detect_username(
    default_nix: &Option<String>,
    login: &Option<String>,
    git_name: &Option<String>,
) -> (r: Option<String>)
    ensures
        r.deep_view() == user_guessed(
            default_nix.deep_view(),
            login.deep_view(),
            git_name.deep_view(),
        ),
{
    match default_nix {
        Some(t) => {
            let text = strip_nix_comments(t.as_str());
            let name = parse_nix_string_value(text.as_str(), "username");
            if name.is_some() {
                return name;
            }
        },
        None => {},
    }
    match login {
        Some(u) => {
            if !trim(u.as_str()).is_empty() {
                return Some(u.clone());
            }
        },
        None => {},
    }
    match git_name {
        Some(n) => {
            if !n.as_str().is_empty() {
                return Some(n.clone());
            }
        },
        None => {},
    }
    None
}

/// The configuration guessed for a repository without one.
pub open spec fn guessed(
    repo_root: Seq<char>,
    listing: Option<Seq<char>>,
    hosts_nix: Option<Seq<char>>,
    user: Option<Seq<char>>,
) -> ConfigView {
    let (rolling, stable) = match listing {
        Some(l) => branches_guessed(l),
        None => ("rolling"@, "main"@),
    };
    let (hosts, active) = match hosts_nix {
        Some(t) => match hosts_in(t) {
            Some(h) => h,
            None => (seq![], seq![]),
        },
        None => (seq![], seq![]),
    };
    ConfigView {
        config_version: 1,
        repo_root,
        rolling_branch: rolling,
        stable_branch: stable,
        roll_prefix: "roll/"@,
        version_gate: true,
        tag_on_promote: true,
        push_tag: true,
        mode: Mode::Manage,
        username: or_else(user, seq![]),
        hosts,
        host_active: active,
        roll_to_rolling_gates: seq![],
        rolling_to_main_gates: seq![],
        host_gates: seq![],
        clean_protect: seq![],
        pull_mode: PullMode::FfOnly,
        lazygit_command: "lazygit"@,
    }
}

fn no_texts() -> (r: Vec<String>)
    ensures
        r.deep_view() == Seq::<Seq<char>>::empty(),
{
    let r: Vec<String> = Vec::new();
    assert(r.deep_view() =~= seq![]);
    r
}

fn no_bools() -> (r: Vec<(String, bool)>)
    ensures
        r.deep_view() == Seq::<(Seq<char>, bool)>::empty(),
{
    let r: Vec<(String, bool)> = Vec::new();
    assert(r.deep_view() =~= seq![]);
    r
}

/// The arguments that list the local branches.
pub fn branch_listing_args() -> (r: Vec<String>)
    ensures
        r.deep_view() == seq!["branch"@, "--list"@],
{
    let r = vec!["branch".to_owned(), "--list".to_owned()];
    assert(r.deep_view() =~= seq!["branch"@, "--list"@]);
    r
}

/// The arguments that print git's user name.
pub fn git_name_args() -> (r: Vec<String>)
    ensures
        r.deep_view() == seq!["config"@, "user.name"@],
{
    let r = vec!["config".to_owned(), "user.name".to_owned()];
    assert(r.deep_view() =~= seq!["config"@, "user.name"@]);
    r
}

impl Config {
    /// Guesses the configuration of a repository from a listing of its local
    /// branches, its `vars/hosts.nix`, its `vars/default.nix`, the login name
    /// and git's user name, each as far as it could be read.
    pub fn auto_detect(
        repo_root: &str,
        listing: &Option<String>,
        hosts_nix: &Option<String>,
        default_nix: &Option<String>,
        login: &Option<String>,
        git_name: &Option<String>,
    ) -> (r: Config)
        ensures
            r.deep_view() == guessed(
                repo_root@,
                listing.deep_view(),
                hosts_nix.deep_view(),
                user_guessed(default_nix.deep_view(), login.deep_view(), git_name.deep_view()),
            ),
            r.deep_view().wf(),
    {
        proof {
            law_configurations_are_well_formed(
                seq![],
                repo_root@,
                listing.deep_view(),
                hosts_nix.deep_view(),
                user_guessed(default_nix.deep_view(), login.deep_view(), git_name.deep_view()),
            );
        }
        let (rolling_branch, stable_branch) = match listing {
            Some(l) => detect_branches(l.as_str()),
            None => ("rolling".to_owned(), "main".to_owned()),
        };
        let (hosts, host_active) = match hosts_nix {
            Some(t) => match parse_hosts_nix(t.as_str()) {
                Some(h) => h,
                None => (no_texts(), no_bools()),
            },
            None => (no_texts(), no_bools()),
        };
        let username = match detect_username(default_nix, login, git_name) {
            Some(u) => u,
            None => String::new(),
        };
        Config {
            config_version: 1,
            repo_root: owned(repo_root),
            rolling_branch,
            stable_branch,
            roll_prefix: "roll/".to_owned(),
            version_gate: true,
            tag_on_promote: true,
            push_tag: true,
            mode: Mode::Manage,
            username,
            hosts,
            host_active,
            roll_to_rolling_gates: no_texts(),
            rolling_to_main_gates: no_texts(),
            host_gates: no_texts(),
            clean_protect: no_texts(),
            pull_mode: PullMode::FfOnly,
            lazygit_command: "lazygit".to_owned(),
        }
    }
}

/// The command that the lazygit key runs where nothing else is configured.
pub fn default_lazygit() -> (r: String)
    ensures
        r@ == "lazygit"@,
{
    "lazygit".to_owned()
}

/// A host is active exactly when it is one of the hosts and the table does not say
/// otherwise; a host that the table does not mention is active. `k` is the first
/// entry of the table for the host, or the number of the entries where there is
/// none.
pub proof fn law_hosts_are_active_unless_switched_off(
    hosts: Seq<Seq<char>>,
    active: Seq<(Seq<char>, bool)>,
    host: Seq<char>,
    k: int,
)
    requires
        0 <= k <= active.len(),
        k < active.len() ==> active[k].0 == host,
        forall|j: int| 0 <= j < k ==> (#[trigger] active[j]).0 != host,
    ensures
        hosts.len() > 0 ==> (active_hosts_of(hosts, active).contains(host) <==> hosts.contains(host)
            && (k < active.len() ==> active[k].1)),
        hosts.len() == 0 ==> (active_hosts_of(hosts, active).contains(host) <==> k < active.len()
            && active[k].1),
{
    let order = host_order(hosts, active);
    let g = |h: Seq<char>|
        if is_active(active, h) {
            Some(h)
        } else {
            None
        };
    law_lookup_finds_the_first(active, host, k);
    lemma_kept_contains(order, g, host);
    if active_hosts_of(hosts, active).contains(host) {
        let i = choose|i: int| 0 <= i < order.len() && g(#[trigger] order[i]) == Some(host);
        assert(order[i] == host);
        if hosts.len() == 0 {
            assert(active[i].0 == host);
        }
    }
    if hosts.len() > 0 && hosts.contains(host) && (k < active.len() ==> active[k].1) {
        let i = choose|i: int| 0 <= i < hosts.len() && hosts[i] == host;
        assert(g(order[i]) == Some(host));
    }
    if hosts.len() == 0 && k < active.len() && active[k].1 {
        assert(order[k] == host);
        assert(g(order[k]) == Some(host));
    }
}

/// What a user gives takes the place of what was there, and everything else stays.
/// A prefix that is given ends in a slash.
pub proof fn law_overrides_replace_what_is_given(
    c: ConfigView,
    rolling_branch: Option<Seq<char>>,
    stable_branch: Option<Seq<char>>,
    roll_prefix: Option<Seq<char>>,
    username: Option<Seq<char>>,
    hosts: Option<Seq<char>>,
)
    ensures
        ({
            let r = overridden(c, rolling_branch, stable_branch, roll_prefix, username, hosts);
            &&& r.rolling_branch == (if rolling_branch is Some {
                rolling_branch->0
            } else {
                c.rolling_branch
            })
            &&& r.stable_branch == (if stable_branch is Some {
                stable_branch->0
            } else {
                c.stable_branch
            })
            &&& r.username == (if username is Some {
                username->0
            } else {
                c.username
            })
            &&& roll_prefix is None ==> r.roll_prefix == c.roll_prefix
            &&& roll_prefix matches Some(p) ==> r.roll_prefix.len() > 0 && r.roll_prefix.last()
                == '/' && (r.roll_prefix == p || r.roll_prefix == p + "/"@)
            &&& hosts is None ==> r.hosts == c.hosts
            &&& hosts matches Some(h) ==> (comma_list(h).len() > 0 ==> r.hosts == comma_list(h)) && (
            comma_list(h).len() == 0 ==> r.hosts == c.hosts)
            &&& r == (ConfigView {
                rolling_branch: r.rolling_branch,
                stable_branch: r.stable_branch,
                roll_prefix: r.roll_prefix,
                username: r.username,
                hosts: r.hosts,
                ..c
            })
        }),
{
    reveal_strlit("/");
    if roll_prefix is Some {
        let p = roll_prefix->0;
        if ends(p, "/"@) {
            assert(p.skip(p.len() - 1)[0] == '/');
        } else {
            assert((p + "/"@).last() == '/');
        }
    }
}

/// A list holds the names between its commas, without the white space around them;
/// an empty one names nothing.
pub proof fn law_lists_hold_their_names(list: Seq<char>, name: Seq<char>)
    ensures
        comma_list(list).contains(name) <==> name.len() > 0 && exists|i: int|
            0 <= i < parts_on(list, ',').len() && trimmed(#[trigger] parts_on(list, ',')[i])
                == name,
{
    let g = |p: Seq<char>| list_part(p);
    let parts = parts_on(list, ',');
    lemma_kept_contains(parts, g, name);
    if comma_list(list).contains(name) {
        let i = choose|i: int| 0 <= i < parts.len() && g(#[trigger] parts[i]) == Some(name);
        assert(trimmed(parts[i]) == name);
    }
    if name.len() > 0 && exists|i: int| 0 <= i < parts.len() && trimmed(#[trigger] parts[i]) == name {
        let i = choose|i: int| 0 <= i < parts.len() && trimmed(#[trigger] parts[i]) == name;
        assert(g(parts[i]) == Some(name));
    }
}

/// Every field is read from the key of its own name: a string, a boolean or a list
/// that stands there comes out as it stands.
pub proof fn law_fields_come_from_their_keys(
    docs: LayersView,
    repo_root: Seq<char>,
    t: Seq<char>,
    b: bool,
    l: Seq<ScalarView>,
)
    requires
        config_of(docs, repo_root) is Ok,
        texts_of(l) is Some,
    ensures
        ({
            let c = config_of(docs, repo_root)->Ok_0.0;
            let text = Some(ValueView::Scalar(ScalarView::Text(t)));
            let yes_no = Some(ValueView::Scalar(ScalarView::Bool(b)));
            let list = Some(ValueView::List(l));
            &&& layered(docs, "rolling_branch"@) == text ==> c.rolling_branch == t
            &&& layered(docs, "stable_branch"@) == text ==> c.stable_branch == t
            &&& layered(docs, "roll_prefix"@) == text ==> c.roll_prefix == t || c.roll_prefix == t
                + "/"@
            &&& layered(docs, "username"@) == text ==> c.username == t
            &&& layered(docs, "lazygit_command"@) == text ==> c.lazygit_command == t
            &&& layered(docs, "version_gate"@) == yes_no ==> c.version_gate == b
            &&& layered(docs, "tag_on_promote"@) == yes_no ==> c.tag_on_promote == b
            &&& layered(docs, "push_tag"@) == yes_no ==> c.push_tag == b
            &&& layered(docs, "hosts"@) == list ==> c.hosts == texts_of(l)->0
            &&& layered(docs, "roll_to_rolling_gates"@) == list ==> c.roll_to_rolling_gates
                == texts_of(l)->0
            &&& layered(docs, "rolling_to_main_gates"@) == list ==> c.rolling_to_main_gates
                == texts_of(l)->0
            &&& layered(docs, "host_gates"@) == list ==> c.host_gates == texts_of(l)->0
            &&& layered(docs, "clean_protect"@) == list ==> c.clean_protect == texts_of(l)->0
        }),
{
}

/// What no layer mentions has its default: every check and offer is on, the tool
/// drives, pulling only fast-forwards, and there are no hosts, gates or protected
/// branches.
pub proof fn law_unmentioned_keys_have_defaults(docs: LayersView, repo_root: Seq<char>)
    requires
        config_of(docs, repo_root) is Ok,
    ensures
        ({
            let c = config_of(docs, repo_root)->Ok_0.0;
            &&& layered(docs, "config_version"@) is None ==> c.config_version == 1
            &&& layered(docs, "version_gate"@) is None ==> c.version_gate
            &&& layered(docs, "tag_on_promote"@) is None ==> c.tag_on_promote
            &&& layered(docs, "push_tag"@) is None ==> c.push_tag
            &&& layered(docs, "mode"@) is None ==> c.mode is Manage
            &&& layered(docs, "pull_mode"@) is None ==> c.pull_mode is FfOnly
            &&& layered(docs, "username"@) is None ==> c.username.len() == 0
            &&& layered(docs, "hosts"@) is None ==> c.hosts.len() == 0
            &&& layered(docs, "host_active"@) is None ==> c.host_active.len() == 0
            &&& layered(docs, "roll_to_rolling_gates"@) is None ==> c.roll_to_rolling_gates.len()
                == 0
            &&& layered(docs, "rolling_to_main_gates"@) is None ==> c.rolling_to_main_gates.len()
                == 0
            &&& layered(docs, "host_gates"@) is None ==> c.host_gates.len() == 0
            &&& layered(docs, "clean_protect"@) is None ==> c.clean_protect.len() == 0
            &&& layered(docs, "lazygit_command"@) is None ==> c.lazygit_command == "lazygit"@
        }),
{
    reveal_strlit("manage");
    reveal_strlit("ff-only");
    reveal_strlit("");
}

/// A mode that a layer names is the one that is taken.
pub proof fn law_modes_are_taken_by_name(docs: LayersView, repo_root: Seq<char>, word: Seq<char>)
    requires
        config_of(docs, repo_root) is Ok,
    ensures
        ({
            let c = config_of(docs, repo_root)->Ok_0.0;
            let text = Some(ValueView::Scalar(ScalarView::Text(word)));
            &&& layered(docs, "mode"@) == text && word == "manage"@ ==> c.mode is Manage
            &&& layered(docs, "mode"@) == text && word == "assist"@ ==> c.mode is Assist
            &&& layered(docs, "pull_mode"@) == text && word == "ff-only"@ ==> c.pull_mode is FfOnly
            &&& layered(docs, "pull_mode"@) == text && word == "merge"@ ==> c.pull_mode is Merge
            &&& layered(docs, "pull_mode"@) == text && word == "rebase"@ ==> c.pull_mode is Rebase
        }),
{
    reveal_strlit("manage");
    reveal_strlit("assist");
    reveal_strlit("ff-only");
    reveal_strlit("merge");
    reveal_strlit("rebase");
    assert("manage"@[0] == 'm' && "assist"@[0] == 'a');
    assert("ff-only"@[0] == 'f' && "merge"@[0] == 'm' && "rebase"@[0] == 'r');
}

/// Layers make a configuration only where they name the rolling branch, the stable
/// branch and the roll prefix; and they do where they name these as strings and say
/// nothing else.
pub proof fn law_the_branches_must_be_named(docs: LayersView, repo_root: Seq<char>)
    ensures
        config_of(docs, repo_root) is Ok ==> layered(docs, "rolling_branch"@) is Some && layered(
            docs,
            "stable_branch"@,
        ) is Some && layered(docs, "roll_prefix"@) is Some,
        config_of(docs, repo_root) is Ok <==> first_bad_key(docs, keys_in_order()) is None
            && layered(docs, "rolling_branch"@) is Some && layered(docs, "stable_branch"@) is Some
            && layered(docs, "roll_prefix"@) is Some,
{
}

/// A value of the wrong form is never read past: a string, a boolean or a list
/// where another is asked for makes the layers unusable.
pub proof fn law_wrong_forms_are_refused(docs: LayersView, repo_root: Seq<char>, i: int)
    requires
        0 <= i < keys_in_order().len(),
        layered(docs, keys_in_order()[i]) is Some,
        !well_formed(keys_in_order()[i], layered(docs, keys_in_order()[i])->0),
    ensures
        config_of(docs, repo_root) is Err,
{
    if first_bad_key(docs, keys_in_order()) is None {
        lemma_good_keys(docs, keys_in_order(), i);
    }
}

/// The machine-wide file is under `$XDG_CONFIG_HOME` where that is an absolute path,
/// and under the home directory where it is not; without either there is none.
pub proof fn law_machine_wide_file_is_found(xdg: Option<Seq<char>>, home: Option<Seq<char>>)
    ensures
        ({
            let absolute = xdg is Some && xdg->0.len() > 0 && xdg->0[0] == '/';
            &&& global_path(xdg, home) is None <==> !absolute && home is None
            &&& absolute ==> global_path(xdg, home) == Some(
                joined_path(xdg->0, "roll-flow/config.toml"@),
            )
            &&& !absolute && home is Some ==> global_path(xdg, home) == Some(
                joined_path(joined_path(home->0, ".config"@), "roll-flow/config.toml"@),
            )
        }),
{
    reveal_strlit("/");
    if xdg is Some {
        let x = xdg->0;
        if x.len() > 0 && x[0] == '/' {
            assert(x.take(1) =~= "/"@);
        }
        if begins(x, "/"@) {
            assert(x.take(1)[0] == '/');
        }
    }
}

/// Without a listing the conventional branches are guessed. A listing that has them
/// gives the same, and one without them gives their usual stand-ins where it has
/// those.
pub proof fn law_listed_branches_are_guessed(listing: Seq<char>)
    ensures
        ({
            let (rolling, stable) = branches_guessed(listing);
            let listed = |name: Seq<char>| lists_branch(listing, name);
            &&& listed("rolling"@) ==> rolling == "rolling"@
            &&& !listed("rolling"@) && listed("develop"@) ==> rolling == "develop"@
            &&& !listed("rolling"@) && !listed("develop"@) && listed("integration"@) ==> rolling
                == "integration"@
            &&& listed(rolling) || rolling == "rolling"@
            &&& listed("main"@) ==> stable == "main"@
            &&& !listed("main"@) && listed("master"@) ==> stable == "master"@
            &&& listed(stable) || stable == "main"@
        }),
{
}

/// The user is the one that the repository declares, else the one that is logged
/// in, else the one that git knows.
pub proof fn law_users_are_looked_for_in_order(
    default_nix: Option<Seq<char>>,
    login: Option<Seq<char>>,
    git_name: Option<Seq<char>>,
)
    ensures
        ({
            let r = user_guessed(default_nix, login, git_name);
            let declared = default_nix is Some && nix_string(
                uncommented(default_nix->0),
                "username"@,
            ) is Some;
            let logged_in = login is Some && trimmed(login->0).len() > 0;
            let known = git_name is Some && git_name->0.len() > 0;
            &&& declared ==> r == nix_string(uncommented(default_nix->0), "username"@)
            &&& !declared && logged_in ==> r == login
            &&& !declared && !logged_in && known ==> r == git_name
            &&& r is None <==> !declared && !logged_in && !known
        }),
{
}

/// A guess drives the workflow with every check on and no gates, under the roll
/// prefix that is usual.
pub proof fn law_guesses_start_plain(
    repo_root: Seq<char>,
    listing: Option<Seq<char>>,
    hosts_nix: Option<Seq<char>>,
    user: Option<Seq<char>>,
)
    ensures
        ({
            let c = guessed(repo_root, listing, hosts_nix, user);
            &&& c.repo_root == repo_root
            &&& listing matches Some(l) ==> (c.rolling_branch, c.stable_branch) == branches_guessed(
                l,
            )
            &&& listing is None ==> c.rolling_branch == "rolling"@ && c.stable_branch == "main"@
            &&& c.roll_prefix == "roll/"@
            &&& c.version_gate && c.tag_on_promote && c.push_tag
            &&& c.mode is Manage && c.pull_mode is FfOnly
            &&& c.roll_to_rolling_gates.len() == 0 && c.rolling_to_main_gates.len() == 0
            &&& c.host_gates.len() == 0 && c.clean_protect.len() == 0
            &&& user matches Some(u) ==> c.username == u
            &&& hosts_nix is None ==> c.hosts.len() == 0 && c.host_active.len() == 0
        }),
{
}

/// What is enclosed is what stands between the first opening and the first closing
/// behind it.
pub proof fn law_the_first_enclosure_is_read(
    a: Seq<char>,
    open: Seq<char>,
    v: Seq<char>,
    close: Seq<char>,
    b: Seq<char>,
)
    requires
        forall|k: int|
            0 <= k < a.len() ==> !begins(#[trigger] (a + open + v + close + b).skip(k), open),
        forall|k: int| 0 <= k < v.len() ==> !begins(#[trigger] (v + close + b).skip(k), close),
    ensures
        enclosed(a + open + v + close + b, open, close) == Some(v),
{
    let s = a + open + v + close + b;
    let rest = v + close + b;
    assert(s.skip(a.len() as int).take(open.len() as int) =~= open);
    law_cuts_are_at_the_first(s, open, a.len() as int);
    let (x, y) = cut(s, open)->0;
    assert(s.skip(x.len() as int).take(open.len() as int) =~= open);
    assert(begins(s.skip(x.len() as int), open));
    assert(x.len() == a.len());
    assert(y =~= s.skip((a.len() + open.len()) as int));
    assert(y =~= rest);
    assert(rest.skip(v.len() as int).take(close.len() as int) =~= close);
    law_cuts_are_at_the_first(rest, close, v.len() as int);
    let (p, q) = cut(rest, close)->0;
    assert(rest.skip(p.len() as int).take(close.len() as int) =~= close);
    assert(begins(rest.skip(p.len() as int), close));
    assert(p.len() == v.len());
    assert(p =~= rest.take(v.len() as int));
    assert(rest.take(v.len() as int) =~= v);
}

/// A list's strings are read one by one: what stands between the first two quotes,
/// and then those of the rest.
pub proof fn law_quoted_strings_are_read(gap: Seq<char>, text: Seq<char>, rest: Seq<char>)
    requires
        forall|i: int| 0 <= i < gap.len() ==> #[trigger] gap[i] != '"',
        forall|i: int| 0 <= i < text.len() ==> #[trigger] text[i] != '"',
    ensures
        odd_parts(parts_on(gap + seq!['"'] + (text + seq!['"'] + rest), '"')) == seq![text]
            + odd_parts(parts_on(rest, '"')),
        odd_parts(parts_on(gap, '"')).len() == 0,
{
    lemma_parts_cat(gap, text + seq!['"'] + rest, '"');
    lemma_parts_cat(text, rest, '"');
    lemma_parts_single(gap, '"');
    let q = parts_on(rest, '"');
    let p = parts_on(gap + seq!['"'] + (text + seq!['"'] + rest), '"');
    assert(p =~= seq![gap, text] + q);
    assert(odd_parts(p) =~= seq![text] + odd_parts(q));
}

/// A binding of a host's name to `true` or `false` is read as such, with white space
/// around the name, the equals sign and the word.
pub proof fn law_bindings_are_read(name: Seq<char>, value: bool)
    requires
        host_name(name),
        forall|i: int| 0 <= i < name.len() ==> #[trigger] name[i] != '=' && !white(name[i]),
    ensures
        bool_binding(
            name + " = "@ + if value {
                "true"@
            } else {
                "false"@
            },
        ) == Some((name, value)),
{
    reveal_strlit(" = ");
    reveal_strlit("=");
    reveal_strlit(" ");
    reveal_strlit("true");
    reveal_strlit("false");
    let word = if value {
        "true"@
    } else {
        "false"@
    };
    let s = name + " = "@ + word;
    assert(s[0] == name[0]);
    assert(s.last() == word.last());
    assert(word.last() == 'e');
    lemma_trimmed_as_is(s);
    let front = name + " "@;
    let back = " "@ + word;
    assert(s =~= front + (seq!['='] + back));
    assert("="@ =~= seq!['=']);
    lemma_pos_cat(front, seq!['='] + back, '=');
    lemma_found_char(s, '=');
    assert(s.take(front.len() as int) =~= front);
    assert(s.skip(front.len() as int + 1) =~= back);
    lemma_trimmed_as_is(name);
    lemma_trimmed_as_is(word);
    assert(front.drop_last() =~= name);
    assert(front.last() == ' ');
    assert(back.skip(1) =~= word);
    assert(back[0] == ' ');
    assert(trimmed_start(front) == front);
    reveal_with_fuel(trimmed_end, 2);
    reveal_with_fuel(trimmed_start, 2);
    assert(trimmed(front) == name);
    assert(trimmed(back) == word);
    assert("true"@.len() == 4 && "false"@.len() == 5);
}

/// Nothing of a comment is read: a line is taken up to its first `#`, whole where it
/// has none.
pub proof fn law_comments_are_not_read(line: Seq<char>, comment: Seq<char>)
    requires
        forall|i: int| 0 <= i < line.len() ==> #[trigger] line[i] != '#',
    ensures
        uncommented_line(line + seq!['#'] + comment) == line,
        uncommented_line(line) == line,
{
    let s = line + seq!['#'] + comment;
    assert(s =~= line + (seq!['#'] + comment));
    lemma_pos_cat(line, seq!['#'] + comment, '#');
    assert(s.take(line.len() as int) =~= line);
    lemma_pos(line, '#');
    assert(line.take(line.len() as int) =~= line);
}

/// Layers earn a warning for each key that the configuration does not have, for
/// each host gate without a placeholder, and for each host that the table does not
/// mention.
pub proof fn law_doubtful_settings_are_warned_about(
    docs: LayersView,
    c: ConfigView,
    i: int,
    j: int,
)
    ensures
        0 <= i < docs.len() && 0 <= j < docs[i].1.len() && !known_key(docs[i].1[j].0)
            ==> warnings_of(docs, c).contains(
            "unknown key '"@ + docs[i].1[j].0 + "' in "@ + docs[i].0 + " is ignored"@,
        ),
        0 <= i < c.host_gates.len() && !occurs(c.host_gates[i], "{host}"@) ==> warnings_of(
            docs,
            c,
        ).contains(
            "host gate '"@ + c.host_gates[i]
                + "' has no {host} placeholder and will run identically for every host"@,
        ),
        0 <= i < c.hosts.len() && (forall|k: int|
            0 <= k < c.host_active.len() ==> (#[trigger] c.host_active[k]).0 != c.hosts[i])
            ==> warnings_of(docs, c).contains(
            "host '"@ + c.hosts[i]
                + "' is listed in hosts but not in [host_active]; treated as active"@,
        ),
{
    let unknown = unknown_keys(docs);
    let version = version_warning(c.config_version);
    let prefix = prefix_warning(text_at(docs, "roll_prefix"@, ""@));
    let fg = |g: Seq<char>| gate_warning(g);
    let fh = |h: Seq<char>| host_warning(c.host_active, h);
    let gates = kept(c.host_gates, fg);
    let hosts = kept(c.hosts, fh);
    let all = warnings_of(docs, c);
    assert(all =~= unknown + version + prefix + gates + hosts);
    if 0 <= i < docs.len() && 0 <= j < docs[i].1.len() && !known_key(docs[i].1[j].0) {
        let w = "unknown key '"@ + docs[i].1[j].0 + "' in "@ + docs[i].0 + " is ignored"@;
        lemma_unknown_keys(docs, i, j);
        let k = choose|k: int| 0 <= k < unknown.len() && unknown[k] == w;
        assert(all[k] == w);
    }
    if 0 <= i < c.host_gates.len() && !occurs(c.host_gates[i], "{host}"@) {
        let w = fg(c.host_gates[i])->0;
        lemma_kept_contains(c.host_gates, fg, w);
        assert(fg(c.host_gates[i]) == Some(w));
        let k = choose|k: int| 0 <= k < gates.len() && gates[k] == w;
        assert(all[unknown.len() + version.len() + prefix.len() + k] == w);
    }
    if 0 <= i < c.hosts.len() && (forall|k: int|
        0 <= k < c.host_active.len() ==> (#[trigger] c.host_active[k]).0 != c.hosts[i]) {
        lemma_lookup_absent(c.host_active, c.hosts[i]);
        let w = fh(c.hosts[i])->0;
        lemma_kept_contains(c.hosts, fh, w);
        assert(fh(c.hosts[i]) == Some(w));
        let k = choose|k: int| 0 <= k < hosts.len() && hosts[k] == w;
        assert(all[unknown.len() + version.len() + prefix.len() + gates.len() + k] == w);
    }
}

proof fn lemma_unknown_keys(docs: LayersView, i: int, j: int)
    requires
        0 <= i < docs.len(),
        0 <= j < docs[i].1.len(),
        !known_key(docs[i].1[j].0),
    ensures
        unknown_keys(docs).contains(
            "unknown key '"@ + docs[i].1[j].0 + "' in "@ + docs[i].0 + " is ignored"@,
        ),
    decreases docs.len(),
{
    let w = "unknown key '"@ + docs[i].1[j].0 + "' in "@ + docs[i].0 + " is ignored"@;
    let all = unknown_keys(docs);
    let before = unknown_keys(docs.drop_last());
    let here = unknown_in(docs.last().0, docs.last().1);
    if i == docs.len() - 1 {
        let label = docs.last().0;
        let f = |e: (Seq<char>, ValueView)|
            if known_key(e.0) {
                None
            } else {
                Some("unknown key '"@ + e.0 + "' in "@ + label + " is ignored"@)
            };
        lemma_kept_contains(docs.last().1, f, w);
        assert(f(docs.last().1[j]) == Some(w));
        assert(here =~= kept(docs.last().1, f));
        let k = choose|k: int| 0 <= k < here.len() && here[k] == w;
        assert(all[before.len() + k] == w);
    } else {
        assert(docs.drop_last()[i] == docs[i]);
        lemma_unknown_keys(docs.drop_last(), i, j);
        let k = choose|k: int| 0 <= k < before.len() && before[k] == w;
        assert(all[k] == w);
    }
}

/// A prefix is ended with one slash, and left alone where it has one.
pub proof fn law_prefixes_end_in_one_slash(prefix: Seq<char>)
    ensures
        slashed(prefix).last() == '/',
        slashed(slashed(prefix)) == slashed(prefix),
        prefix.len() > 0 && prefix.last() == '/' ==> slashed(prefix) == prefix,
        prefix.len() == 0 || prefix.last() != '/' ==> slashed(prefix) == prefix + "/"@,
{
    reveal_strlit("/");
    if prefix.len() > 0 && prefix.last() == '/' {
        assert(prefix.skip(prefix.len() - 1) =~= "/"@);
    }
    if ends(prefix, "/"@) {
        assert(prefix.skip(prefix.len() - 1)[0] == '/');
    }
    let t = prefix + "/"@;
    assert(t.skip(t.len() - 1) =~= "/"@);
}

/// The keys that are known are those whose values are looked at: no key is read that
/// would be called unknown, and none is known that is never looked at.
pub proof fn law_known_keys_are_looked_at(key: Seq<char>)
    ensures
        known_key(key) <==> keys_in_order().contains(key),
{
    let all = keys_in_order();
    assert(all.len() == 18);
    if all.contains(key) {
        let i = choose|i: int| 0 <= i < all.len() && all[i] == key;
        assert(known_key(all[i]));
    }
    if known_key(key) {
        assert(all[0] == "clean_protect"@ && all[1] == "config_version"@ && all[2]
            == "host_active"@ && all[3] == "host_gates"@ && all[4] == "hosts"@ && all[5]
            == "lazygit_command"@ && all[6] == "mode"@ && all[7] == "pull_mode"@ && all[8]
            == "push_tag"@);
        assert(all[9] == "repo_root"@ && all[10] == "roll_prefix"@ && all[11]
            == "roll_to_rolling_gates"@ && all[12] == "rolling_branch"@ && all[13]
            == "rolling_to_main_gates"@ && all[14] == "stable_branch"@ && all[15]
            == "tag_on_promote"@ && all[16] == "username"@ && all[17] == "version_gate"@);
    }
}

/// Names, paths and commands are strings, for which a date can stand, and switches
/// are booleans: a value of any other form is refused, and every value of that form is taken.
pub proof fn law_values_have_the_form_of_their_key(key: Seq<char>, v: ValueView)
    ensures
        seq![
            "repo_root"@,
            "rolling_branch"@,
            "stable_branch"@,
            "roll_prefix"@,
            "username"@,
            "lazygit_command"@,
        ].contains(key) ==> (well_formed(key, v) <==> (v matches ValueView::Scalar(s) && (s is Text
            || s is Date))),
        seq!["version_gate"@, "tag_on_promote"@, "push_tag"@].contains(key) ==> (well_formed(key, v)
            <==> (v matches ValueView::Scalar(s) && s is Bool)),
        !known_key(key) ==> well_formed(key, v),
{
    reveal_strlit("repo_root");
    reveal_strlit("rolling_branch");
    reveal_strlit("stable_branch");
    reveal_strlit("roll_prefix");
    reveal_strlit("username");
    reveal_strlit("lazygit_command");
    reveal_strlit("version_gate");
    reveal_strlit("tag_on_promote");
    reveal_strlit("push_tag");
    let texts = seq![
        "repo_root"@,
        "rolling_branch"@,
        "stable_branch"@,
        "roll_prefix"@,
        "username"@,
        "lazygit_command"@,
    ];
    let bools = seq!["version_gate"@, "tag_on_promote"@, "push_tag"@];
    if texts.contains(key) {
        let i = choose|i: int| 0 <= i < texts.len() && texts[i] == key;
        assert(text_key(texts[i]));
    }
    if bools.contains(key) {
        let i = choose|i: int| 0 <= i < bools.len() && bools[i] == key;
        assert(bool_key(bools[i]));
        assert(bools[0].len() == 12 && bools[1].len() == 14 && bools[2].len() == 8);
        assert(bools[1][0] == 't' && bools[2][0] == 'p');
        assert(texts[0].len() == 9 && texts[2].len() == 13 && texts[3].len() == 11 && texts[5].len()
            == 15);
        assert(texts[1].len() == 14 && texts[1][0] == 'r');
        assert(texts[4].len() == 8 && texts[4][0] == 'u');
        assert(!text_key(key));
    }
}

} // verus!
