//! Running a merge step by step.
//!
//! A merge checks out its target, merges, and goes back to where it started. A
//! gated merge is staged first, and only committed once the gates have passed
//! on the result. Whatever fails in between is undone: the merge is aborted and
//! the original branch checked out again.
use vstd::prelude::*;

use crate::failure::{headline, outcome, Failure};
use crate::seqs::{kept, lemma_kept_contains, lemma_kept_ends, lemma_kept_step};
use crate::text::{cat3, cat4, cat5, join, joined, lines, lines_of, owned, trim, trimmed};

verus! {

/// How far a merge has come.
pub enum MergeStage {
    /// The target is to be checked out.
    Checkout,
    /// The source is to be merged.
    Merge,
    /// The gates are to be run on the staged result.
    Gates,
    /// What the gates left unstaged is to be looked at.
    Inspect,
    /// The staged result is to be committed.
    Commit,
    /// The original branch is to be checked out again.
    Return,
    /// The merge is to be aborted because of a failure.
    Abort(Failure),
    /// The original branch is to be checked out after an abort.
    Restore(Failure),
    Done,
    Failed(Failure),
}

/// [`MergeStage`] by its characters.
pub enum StageView {
    Checkout,
    Merge,
    Gates,
    Inspect,
    Commit,
    Return,
    Abort(Seq<Seq<char>>),
    Restore(Seq<Seq<char>>),
    Done,
    Failed(Seq<Seq<char>>),
}

impl DeepView for MergeStage {
    type V = StageView;

    open spec fn deep_view(&self) -> StageView {
        match self {
            MergeStage::Checkout => StageView::Checkout,
            MergeStage::Merge => StageView::Merge,
            MergeStage::Gates => StageView::Gates,
            MergeStage::Inspect => StageView::Inspect,
            MergeStage::Commit => StageView::Commit,
            MergeStage::Return => StageView::Return,
            MergeStage::Abort(e) => StageView::Abort(e.deep_view()),
            MergeStage::Restore(e) => StageView::Restore(e.deep_view()),
            MergeStage::Done => StageView::Done,
            MergeStage::Failed(e) => StageView::Failed(e.deep_view()),
        }
    }
}

/// A merge of `source` into `target`, started from `original`.
pub struct MergeRun {
    pub source: String,
    pub target: String,
    pub original: String,
    pub subject: String,
    pub body: Option<String>,
    /// Whether gates run on the staged result.
    pub gated: bool,
    pub stage: MergeStage,
}

/// [`MergeRun`] by its characters.
pub struct MergeRunView {
    pub source: Seq<char>,
    pub target: Seq<char>,
    pub original: Seq<char>,
    pub subject: Seq<char>,
    pub body: Option<Seq<char>>,
    pub gated: bool,
    pub stage: StageView,
}

impl DeepView for MergeRun {
    type V = MergeRunView;

    open spec fn deep_view(&self) -> MergeRunView {
        MergeRunView {
            source: self.source@,
            target: self.target@,
            original: self.original@,
            subject: self.subject@,
            body: self.body.deep_view(),
            gated: self.gated,
            stage: self.stage.deep_view(),
        }
    }
}

/// What to do next in a merge.
pub enum MergeAction {
    /// Run git with these arguments.
    Git(Vec<String>),
    RunGates,
    /// List the tracked files that are modified but not staged.
    ListUnstaged,
    Finished,
    Failed(Failure),
}

/// [`MergeAction`] by its characters.
pub enum ActionView {
    Git(Seq<Seq<char>>),
    RunGates,
    ListUnstaged,
    Finished,
    Failed(Seq<Seq<char>>),
}

impl DeepView for MergeAction {
    type V = ActionView;

    open spec fn deep_view(&self) -> ActionView {
        match self {
            MergeAction::Git(args) => ActionView::Git(args.deep_view()),
            MergeAction::RunGates => ActionView::RunGates,
            MergeAction::ListUnstaged => ActionView::ListUnstaged,
            MergeAction::Finished => ActionView::Finished,
            MergeAction::Failed(e) => ActionView::Failed(e.deep_view()),
        }
    }
}

/// What came of an action.
pub enum MergeEvent {
    Git(Result<(), Failure>),
    Gates(Result<(), Failure>),
    /// The files that are modified but not staged; `None` where there are none.
    Unstaged(Option<String>),
}

/// [`MergeEvent`] by its characters.
pub enum EventView {
    Git(Result<(), Seq<Seq<char>>>),
    Gates(Result<(), Seq<Seq<char>>>),
    Unstaged(Option<Seq<char>>),
}

impl DeepView for MergeEvent {
    type V = EventView;

    open spec fn deep_view(&self) -> EventView {
        match self {
            MergeEvent::Git(r) => EventView::Git(outcome(*r)),
            MergeEvent::Gates(r) => EventView::Gates(outcome(*r)),
            MergeEvent::Unstaged(f) => EventView::Unstaged(f.deep_view()),
        }
    }
}

/// `-m` with the body of a commit message, where there is one.
pub open spec fn body_args(body: Option<Seq<char>>) -> Seq<Seq<char>> {
    match body {
        Some(b) => seq!["-m"@, b],
        None => seq![],
    }
}

/// What to do in a merge.
pub open spec fn action_of(run: MergeRunView) -> ActionView {
    match run.stage {
        StageView::Checkout => ActionView::Git(seq!["checkout"@, run.target]),
        StageView::Merge => if run.gated {
            ActionView::Git(
                seq!["merge"@, "--no-ff"@, "--no-commit"@, "--no-edit"@, run.source],
            )
        } else {
            ActionView::Git(
                seq!["merge"@, "--no-ff"@, "--no-edit"@, "-m"@, run.subject] + body_args(run.body)
                    + seq![run.source],
            )
        },
        StageView::Gates => ActionView::RunGates,
        StageView::Inspect => ActionView::ListUnstaged,
        StageView::Commit => ActionView::Git(
            seq!["commit"@, "--no-edit"@, "-m"@, run.subject] + body_args(run.body),
        ),
        StageView::Return => ActionView::Git(seq!["checkout"@, run.original]),
        StageView::Abort(_) => ActionView::Git(seq!["merge"@, "--abort"@]),
        StageView::Restore(_) => ActionView::Git(seq!["checkout"@, run.original]),
        StageView::Done => ActionView::Finished,
        StageView::Failed(e) => ActionView::Failed(e),
    }
}

/// What is said of a merge that git refused.
pub open spec fn merge_refused(run: MergeRunView, cause: Seq<Seq<char>>) -> Seq<char> {
    "merge of '"@ + run.source + "' into '"@ + run.target
        + "' failed (likely conflicts); the merge was aborted and you are back on '"@
        + run.original + "'. Resolve manually: git checkout "@ + run.target
        + " && git merge --no-ff "@ + run.source + " ("@ + headline(cause) + ")"@
}

/// What is said of a merge that the gates refused.
pub open spec fn rolled_back(run: MergeRunView) -> Seq<char> {
    "promotion of '"@ + run.source + "' into '"@ + run.target
        + "' was rolled back; the merge was aborted and you are back on '"@ + run.original + "'"@
}

/// What is said of gates that changed tracked files.
pub open spec fn gates_modified(run: MergeRunView, files: Seq<char>) -> Seq<char> {
    "a gate modified tracked files while '"@ + run.source + "' was staged for merge into '"@
        + run.target
        + "', so the merge would not contain what the gates checked. The merge was aborted and you are back on '"@
        + run.original + "'. Modified: "@ + files
}

/// What is said of a commit that git refused.
pub open spec fn commit_refused(run: MergeRunView, cause: Seq<Seq<char>>) -> Seq<char> {
    "gates passed but committing the merge of '"@ + run.source + "' into '"@ + run.target
        + "' failed; the merge was aborted and you are back on '"@ + run.original + "' ("@
        + headline(cause) + ")"@
}

/// What is said of a merge that went through with the way back barred.
pub open spec fn return_refused(run: MergeRunView) -> Seq<char> {
    "the merge into '"@ + run.target + "' succeeded, but checking out '"@ + run.original
        + "' again failed"@
}

/// The stage behind an event. An event that does not answer the stage's action
/// changes nothing.
pub open spec fn next_stage(run: MergeRunView, event: EventView) -> StageView {
    match (run.stage, event) {
        (StageView::Checkout, EventView::Git(Ok(()))) => StageView::Merge,
        (StageView::Checkout, EventView::Git(Err(e))) => StageView::Failed(
            seq!["failed to check out '"@ + run.target + "'"@] + e,
        ),
        (StageView::Merge, EventView::Git(Ok(()))) => if run.gated {
            StageView::Gates
        } else {
            StageView::Return
        },
        (StageView::Merge, EventView::Git(Err(e))) => StageView::Abort(seq![merge_refused(run, e)]),
        (StageView::Gates, EventView::Gates(Ok(()))) => StageView::Inspect,
        (StageView::Gates, EventView::Gates(Err(e))) => StageView::Abort(
            seq![rolled_back(run)] + e,
        ),
        (StageView::Inspect, EventView::Unstaged(None)) => StageView::Commit,
        (StageView::Inspect, EventView::Unstaged(Some(files))) => StageView::Abort(
            seq![gates_modified(run, files)],
        ),
        (StageView::Commit, EventView::Git(Ok(()))) => StageView::Return,
        (StageView::Commit, EventView::Git(Err(e))) => StageView::Abort(
            seq![commit_refused(run, e)],
        ),
        (StageView::Return, EventView::Git(Ok(()))) => StageView::Done,
        (StageView::Return, EventView::Git(Err(e))) => StageView::Failed(
            seq![return_refused(run)] + e,
        ),
        (StageView::Abort(e), EventView::Git(_)) => StageView::Restore(e),
        (StageView::Restore(e), EventView::Git(_)) => StageView::Failed(e),
        (stage, _) => stage,
    }
}

fn with_body(mut args: Vec<String>, body: &Option<String>) -> (r: Vec<String>)
    ensures
        r.deep_view() == args.deep_view() + body_args(body.deep_view()),
{
    let ghost before = args.deep_view();
    match body {
        Some(b) => {
            args.push("-m".to_owned());
            args.push(b.clone());
            assert(args.deep_view() =~= before + seq!["-m"@, b@]);
        },
        None => {
            assert(args.deep_view() =~= before + Seq::<Seq<char>>::empty());
        },
    }
    args
}

impl MergeRun {
    /// A merge that is committed at once.
    pub fn plain(
        source: &str,
        target: &str,
        original: &str,
        subject: &str,
        body: Option<String>,
    ) -> (r: MergeRun)
        ensures
            r.deep_view() == (MergeRunView {
                source: source@,
                target: target@,
                original: original@,
                subject: subject@,
                body: body.deep_view(),
                gated: false,
                stage: StageView::Checkout,
            }),
    {
        MergeRun {
            source: owned(source),
            target: owned(target),
            original: owned(original),
            subject: owned(subject),
            body,
            gated: false,
            stage: MergeStage::Checkout,
        }
    }

    /// A merge that is staged, and committed once the gates have passed.
    pub fn gated(
        source: &str,
        target: &str,
        original: &str,
        subject: &str,
        body: Option<String>,
    ) -> (r: MergeRun)
        ensures
            r.deep_view() == (MergeRunView {
                source: source@,
                target: target@,
                original: original@,
                subject: subject@,
                body: body.deep_view(),
                gated: true,
                stage: StageView::Checkout,
            }),
    {
        MergeRun {
            source: owned(source),
            target: owned(target),
            original: owned(original),
            subject: owned(subject),
            body,
            gated: true,
            stage: MergeStage::Checkout,
        }
    }

    /// What to do next.
    pub fn action(&self) -> (r: MergeAction)
        ensures
            r.deep_view() == action_of(self.deep_view()),
    {
        match &self.stage {
            MergeStage::Checkout => {
                let args = vec!["checkout".to_owned(), self.target.clone()];
                assert(args.deep_view() =~= seq!["checkout"@, self.target@]);
                MergeAction::Git(args)
            },
            MergeStage::Merge => {
                if self.gated {
                    let args = vec![
                        "merge".to_owned(),
                        "--no-ff".to_owned(),
                        "--no-commit".to_owned(),
                        "--no-edit".to_owned(),
                        self.source.clone(),
                    ];
                    assert(args.deep_view() =~= seq![
                        "merge"@,
                        "--no-ff"@,
                        "--no-commit"@,
                        "--no-edit"@,
                        self.source@,
                    ]);
                    MergeAction::Git(args)
                } else {
                    let front = vec![
                        "merge".to_owned(),
                        "--no-ff".to_owned(),
                        "--no-edit".to_owned(),
                        "-m".to_owned(),
                        self.subject.clone(),
                    ];
                    assert(front.deep_view() =~= seq![
                        "merge"@,
                        "--no-ff"@,
                        "--no-edit"@,
                        "-m"@,
                        self.subject@,
                    ]);
                    let mut args = with_body(front, &self.body);
                    let ghost before = args.deep_view();
                    args.push(self.source.clone());
                    assert(args.deep_view() =~= before + seq![self.source@]);
                    MergeAction::Git(args)
                }
            },
            MergeStage::Gates => MergeAction::RunGates,
            MergeStage::Inspect => MergeAction::ListUnstaged,
            MergeStage::Commit => {
                let front = vec![
                    "commit".to_owned(),
                    "--no-edit".to_owned(),
                    "-m".to_owned(),
                    self.subject.clone(),
                ];
                assert(front.deep_view() =~= seq!["commit"@, "--no-edit"@, "-m"@, self.subject@]);
                MergeAction::Git(with_body(front, &self.body))
            },
            MergeStage::Return => {
                let args = vec!["checkout".to_owned(), self.original.clone()];
                assert(args.deep_view() =~= seq!["checkout"@, self.original@]);
                MergeAction::Git(args)
            },
            MergeStage::Abort(_) => {
                let args = vec!["merge".to_owned(), "--abort".to_owned()];
                assert(args.deep_view() =~= seq!["merge"@, "--abort"@]);
                MergeAction::Git(args)
            },
            MergeStage::Restore(_) => {
                let args = vec!["checkout".to_owned(), self.original.clone()];
                assert(args.deep_view() =~= seq!["checkout"@, self.original@]);
                MergeAction::Git(args)
            },
            MergeStage::Done => MergeAction::Finished,
            MergeStage::Failed(e) => MergeAction::Failed(e.copy()),
        }
    }

    fn say_merge_refused(&self, cause: &Failure) -> (r: String)
        ensures
            r@ == merge_refused(self.deep_view(), cause.deep_view()),
    {
        let c = cause.to_string();
        let a = cat5(
            "merge of '",
            self.source.as_str(),
            "' into '",
            self.target.as_str(),
            "' failed (likely conflicts); the merge was aborted and you are back on '",
        );
        let b = cat4(
            a.as_str(),
            self.original.as_str(),
            "'. Resolve manually: git checkout ",
            self.target.as_str(),
        );
        let d = cat4(b.as_str(), " && git merge --no-ff ", self.source.as_str(), " (");
        cat3(d.as_str(), c.as_str(), ")")
    }

    fn say_rolled_back(&self) -> (r: String)
        ensures
            r@ == rolled_back(self.deep_view()),
    {
        let a = cat5(
            "promotion of '",
            self.source.as_str(),
            "' into '",
            self.target.as_str(),
            "' was rolled back; the merge was aborted and you are back on '",
        );
        cat3(a.as_str(), self.original.as_str(), "'")
    }

    fn say_gates_modified(&self, files: &str) -> (r: String)
        ensures
            r@ == gates_modified(self.deep_view(), files@),
    {
        let a = cat5(
            "a gate modified tracked files while '",
            self.source.as_str(),
            "' was staged for merge into '",
            self.target.as_str(),
            "', so the merge would not contain what the gates checked. The merge was aborted and you are back on '",
        );
        cat4(a.as_str(), self.original.as_str(), "'. Modified: ", files)
    }

    fn say_commit_refused(&self, cause: &Failure) -> (r: String)
        ensures
            r@ == commit_refused(self.deep_view(), cause.deep_view()),
    {
        let c = cause.to_string();
        let a = cat5(
            "gates passed but committing the merge of '",
            self.source.as_str(),
            "' into '",
            self.target.as_str(),
            "' failed; the merge was aborted and you are back on '",
        );
        cat5(a.as_str(), self.original.as_str(), "' (", c.as_str(), ")")
    }

    fn say_return_refused(&self) -> (r: String)
        ensures
            r@ == return_refused(self.deep_view()),
    {
        cat5(
            "the merge into '",
            self.target.as_str(),
            "' succeeded, but checking out '",
            self.original.as_str(),
            "' again failed",
        )
    }

    /// The merge behind an event.
    pub fn advance(self, event: MergeEvent) -> (r: MergeRun)
        ensures
            r.deep_view() == (MergeRunView {
                stage: next_stage(self.deep_view(), event.deep_view()),
                ..self.deep_view()
            }),
    {
        let mut run = self;
        let ghost before = run.deep_view();
        let ghost ev = event.deep_view();
        let stage = match event {
            MergeEvent::Git(Ok(())) => match run.stage {
                MergeStage::Checkout => MergeStage::Merge,
                MergeStage::Merge => if run.gated {
                    MergeStage::Gates
                } else {
                    MergeStage::Return
                },
                MergeStage::Commit => MergeStage::Return,
                MergeStage::Return => MergeStage::Done,
                MergeStage::Abort(e) => MergeStage::Restore(e),
                MergeStage::Restore(e) => MergeStage::Failed(e),
                other => other,
            },
            MergeEvent::Git(Err(cause)) => {
                let refused = run.say_merge_refused(&cause);
                let uncommitted = run.say_commit_refused(&cause);
                let stuck = run.say_return_refused();
                match run.stage {
                    MergeStage::Checkout => MergeStage::Failed(
                        cause.context(
                            cat3("failed to check out '", run.target.as_str(), "'"),
                        ),
                    ),
                    MergeStage::Merge => MergeStage::Abort(Failure::msg(refused)),
                    MergeStage::Commit => MergeStage::Abort(Failure::msg(uncommitted)),
                    MergeStage::Return => MergeStage::Failed(cause.context(stuck)),
                    MergeStage::Abort(e) => MergeStage::Restore(e),
                    MergeStage::Restore(e) => MergeStage::Failed(e),
                    other => other,
                }
            },
            MergeEvent::Gates(Ok(())) => match run.stage {
                MergeStage::Gates => MergeStage::Inspect,
                other => other,
            },
            MergeEvent::Gates(Err(cause)) => {
                let undone = run.say_rolled_back();
                match run.stage {
                    MergeStage::Gates => MergeStage::Abort(cause.context(undone)),
                    other => other,
                }
            },
            MergeEvent::Unstaged(None) => match run.stage {
                MergeStage::Inspect => MergeStage::Commit,
                other => other,
            },
            MergeEvent::Unstaged(Some(files)) => {
                let modified = run.say_gates_modified(files.as_str());
                match run.stage {
                    MergeStage::Inspect => MergeStage::Abort(Failure::msg(modified)),
                    other => other,
                }
            },
        };
        assert(stage.deep_view() == next_stage(before, ev));
        run.stage = stage;
        run
    }
}

/// The arguments behind [`unstaged_tracked_changes`].
pub fn unstaged_tracked_changes_args() -> (r: Vec<String>)
    ensures
        r.deep_view() == seq!["diff"@, "--name-only"@],
{
    let r = vec!["diff".to_owned(), "--name-only".to_owned()];
    assert(r.deep_view() =~= seq!["diff"@, "--name-only"@]);
    r
}

/// A line that holds more than white space, as it stands.
pub open spec fn filled_line(line: Seq<char>) -> Option<Seq<char>> {
    if trimmed(line).len() == 0 {
        None
    } else {
        Some(line)
    }
}

/// The files that `diff --name-only` printed, in one line; `None` where there
/// are none.
pub open spec fn unstaged_in(out: Seq<char>) -> Option<Seq<char>> {
    let files = kept(lines_of(out), |l: Seq<char>| filled_line(l));
    if files.len() == 0 {
        None
    } else {
        Some(joined(files, ", "@))
    }
}

/// The tracked files that are modified but not staged, from what
/// `diff --name-only` printed.
pub fn unstaged_tracked_changes(out: &str) -> (r: Option<String>)
    ensures
        r.deep_view() == unstaged_in(out@),
{
    let all = lines(out);
    let ghost ls = all.deep_view();
    let ghost f = |l: Seq<char>| filled_line(l);
    let mut files: Vec<String> = Vec::new();
    let mut i: usize = 0;
    proof {
        lemma_kept_ends(ls, f);
    }
    assert(files.deep_view() =~= seq![]);
    while i < all.len()
        invariant
            i <= all@.len(),
            ls == all.deep_view(),
            f == (|l: Seq<char>| filled_line(l)),
            files.deep_view() == kept(ls.take(i as int), f),
        decreases all@.len() - i,
    {
        proof {
            lemma_kept_step(ls, i as int, f);
        }
        let ghost before = files.deep_view();
        if !trim(all[i].as_str()).is_empty() {
            files.push(all[i].clone());
            assert(files.deep_view() =~= before.push(all@[i as int]@));
        }
        i += 1;
    }
    assert(files.deep_view().len() == files@.len());
    if files.is_empty() {
        return None;
    }
    Some(join(&files, ", "))
}

// ── Laws ────────────────────────────────────────────────────────────────────

/// A gated merge is only committed once the gates have passed on the staged
/// result and left no tracked file changed; a plain one never reaches that
/// stage.
pub proof fn law_commit_needs_gates(run: MergeRunView, event: EventView)
    requires
        run.stage !is Commit,
        next_stage(run, event) is Commit,
    ensures
        run.stage is Inspect,
        event == EventView::Unstaged(None),
        forall|before: MergeRunView, e: EventView|
            before.stage !is Inspect && #[trigger] next_stage(before, e) is Inspect
                ==> before.stage is Gates && e is Gates && e->Gates_0 is Ok,
{
}

/// A merge always leaves a merge commit of its own, under the subject that it was
/// given: git is never let to fast-forward, and it is handed the subject with the
/// merge, or, where gates run first, with the commit behind them.
pub proof fn law_merges_leave_a_commit(run: MergeRunView)
    requires
        run.stage is Merge || run.stage is Commit,
    ensures
        action_of(run) is Git,
        ({
            let args = action_of(run)->Git_0;
            &&& run.stage is Merge ==> args[0] == "merge"@ && args[1] == "--no-ff"@
            &&& run.stage is Merge && !run.gated ==> args[3] == "-m"@ && args[4] == run.subject
            &&& run.stage is Merge && run.gated ==> args[2] == "--no-commit"@
            &&& run.stage is Commit ==> args[0] == "commit"@ && args[2] == "-m"@ && args[3]
                == run.subject
        }),
{
}

/// A failure after the target was checked out is undone before it is reported:
/// the merge is aborted, the original branch is checked out, and only then the
/// failure comes out, whatever became of those two.
pub proof fn law_failures_are_undone(
    run: MergeRunView,
    first: Result<(), Seq<Seq<char>>>,
    second: Result<(), Seq<Seq<char>>>,
)
    requires
        run.stage is Abort,
    ensures
        ({
            let e = run.stage->Abort_0;
            let restoring = MergeRunView {
                stage: next_stage(run, EventView::Git(first)),
                ..run
            };
            let over = MergeRunView {
                stage: next_stage(restoring, EventView::Git(second)),
                ..restoring
            };
            &&& action_of(run) == ActionView::Git(seq!["merge"@, "--abort"@])
            &&& action_of(restoring) == ActionView::Git(seq!["checkout"@, run.original])
            &&& action_of(over) == ActionView::Failed(e)
        }),
{
}

/// A merge only ends by checking out the branch it started from, or because the
/// target could not be checked out in the first place.
pub proof fn law_merges_end_where_they_started(run: MergeRunView, event: EventView)
    requires
        run.stage !is Done,
        run.stage !is Failed,
        next_stage(run, event) is Done || next_stage(run, event) is Failed,
    ensures
        run.stage is Checkout || action_of(run) == ActionView::Git(
            seq!["checkout"@, run.original],
        ),
{
}

/// How many answers a merge still waits for at most.
pub open spec fn answers_left(stage: StageView) -> nat {
    match stage {
        StageView::Checkout => 8,
        StageView::Merge => 7,
        StageView::Gates => 6,
        StageView::Inspect => 5,
        StageView::Commit => 4,
        StageView::Return => 1,
        StageView::Abort(_) => 2,
        StageView::Restore(_) => 1,
        StageView::Done => 0,
        StageView::Failed(_) => 0,
    }
}

/// Whether an event answers what a stage asks for.
pub open spec fn answers(stage: StageView, event: EventView) -> bool {
    match stage {
        StageView::Gates => event is Gates,
        StageView::Inspect => event is Unstaged,
        StageView::Done => false,
        StageView::Failed(_) => false,
        _ => event is Git,
    }
}

/// Every answer brings a merge closer to its end.
pub proof fn law_merges_end(run: MergeRunView, event: EventView)
    requires
        answers(run.stage, event),
    ensures
        answers_left(next_stage(run, event)) < answers_left(run.stage),
{
}

/// The run behind an event.
pub open spec fn after(run: MergeRunView, event: EventView) -> MergeRunView {
    MergeRunView { stage: next_stage(run, event), ..run }
}

/// What git is told names the branches of the merge: the target is checked out, the
/// source is merged, what is said about it is handed over, and the branch that the
/// merge started from is checked out again.
pub proof fn law_merges_name_their_branches(run: MergeRunView)
    ensures
        run.stage is Checkout ==> action_of(run) == ActionView::Git(seq!["checkout"@, run.target]),
        run.stage is Merge ==> action_of(run) is Git && action_of(run)->Git_0.last() == run.source,
        run.stage is Merge && !run.gated && run.body is Some ==> action_of(run)->Git_0[6]
            == run.body->0,
        run.stage is Commit && run.body is Some ==> action_of(run) is Git
            && action_of(run)->Git_0.last() == run.body->0,
        run.stage is Return || run.stage is Restore ==> action_of(run) == ActionView::Git(
            seq!["checkout"@, run.original],
        ),
        run.stage is Abort ==> action_of(run) == ActionView::Git(seq!["merge"@, "--abort"@]),
        run.stage is Gates <==> action_of(run) is RunGates,
        run.stage is Inspect <==> action_of(run) is ListUnstaged,
        run.stage is Done <==> action_of(run) is Finished,
        run.stage is Failed <==> action_of(run) is Failed,
{
}

/// A plain merge that git lets through is done after three answers. A gated one
/// takes six: the target, the merge, the gates, a look at what they changed, the
/// commit and the way back.
pub proof fn law_merges_that_succeed_are_done(run: MergeRunView)
    requires
        run.stage is Checkout,
    ensures
        ({
            let ok = EventView::Git(Ok(()));
            let merged = after(after(run, ok), ok);
            &&& !run.gated ==> after(merged, ok).stage is Done
            &&& run.gated ==> after(
                after(
                    after(after(merged, EventView::Gates(Ok(()))), EventView::Unstaged(None)),
                    ok,
                ),
                ok,
            ).stage is Done
        }),
{
}

/// A refusal between the checkout of the target and the way back always leads to an
/// abort: of the merge, of the gates, of a look that finds changed files, and of
/// the commit. A target that cannot be checked out ends the merge at once.
pub proof fn law_refusals_abort(run: MergeRunView, cause: Seq<Seq<char>>, files: Seq<char>)
    ensures
        run.stage is Checkout ==> next_stage(run, EventView::Git(Err(cause))) is Failed,
        run.stage is Merge || run.stage is Commit ==> next_stage(run, EventView::Git(Err(cause)))
            is Abort,
        run.stage is Gates ==> (next_stage(run, EventView::Gates(Err(cause))) matches
            StageView::Abort(e) && e.len() == cause.len() + 1 && e.skip(1) == cause),
        run.stage is Inspect ==> next_stage(run, EventView::Unstaged(Some(files))) is Abort,
        run.stage is Return ==> next_stage(run, EventView::Git(Err(cause))) is Failed,
{
    if run.stage is Gates {
        assert((seq![rolled_back(run)] + cause).skip(1) =~= cause);
    }
}

/// Files count as changed exactly when `diff --name-only` printed a line with more
/// than white space.
pub proof fn law_any_printed_file_counts(out: Seq<char>)
    ensures
        unstaged_in(out) is Some <==> exists|i: int|
            0 <= i < lines_of(out).len() && trimmed(#[trigger] lines_of(out)[i]).len() > 0,
{
    let g = |l: Seq<char>| filled_line(l);
    let files = kept(lines_of(out), g);
    if files.len() > 0 {
        lemma_kept_contains(lines_of(out), g, files[0]);
        assert(files.contains(files[0]));
        let i = choose|i: int|
            0 <= i < lines_of(out).len() && g(#[trigger] lines_of(out)[i]) == Some(files[0]);
        assert(trimmed(lines_of(out)[i]).len() > 0);
    }
    if exists|i: int|
        0 <= i < lines_of(out).len() && trimmed(#[trigger] lines_of(out)[i]).len() > 0 {
        let i = choose|i: int|
            0 <= i < lines_of(out).len() && trimmed(#[trigger] lines_of(out)[i]).len() > 0;
        lemma_kept_contains(lines_of(out), g, lines_of(out)[i]);
        assert(g(lines_of(out)[i]) == Some(lines_of(out)[i]));
        assert(files.contains(lines_of(out)[i]));
    }
}

} // verus!
