//! Recording on a merge commit what was passed by force.
//!
//! Which gates were passed by force is only known once they have run, so the
//! record is amended onto the commit: the branch is checked out, the commit's
//! message read, the commit amended, and the original branch checked out again.
use vstd::prelude::*;

use crate::failure::{outcome, Failure};
use crate::text::{cat3, cat4, owned, trim_end, trimmed_end};

verus! {

/// A commit message with a trailer behind it.
pub open spec fn amended(existing: Seq<char>, trailer: Seq<char>) -> Seq<char> {
    trimmed_end(existing) + "\n\n"@ + trailer + "\n"@
}

/// A commit message with a trailer behind it.
pub fn message_with_trailer(existing: &str, trailer: &str) -> (r: String)
    ensures
        r@ == amended(existing@, trailer@),
{
    let t = trim_end(existing);
    cat4(t, "\n\n", trailer, "\n")
}

/// How far the recording has come.
pub enum TrailerStage {
    /// The branch is to be checked out.
    Checkout,
    /// The message of its tip is to be read.
    Read,
    /// The tip, whose message is this, is to be amended.
    Amend(String),
    /// The original branch is to be checked out again, behind an amendment that
    /// ended like this.
    Return(Result<(), Failure>),
    Done,
    Failed(Failure),
}

/// [`TrailerStage`] by its characters.
pub enum TrailerStageView {
    Checkout,
    Read,
    Amend(Seq<char>),
    Return(Result<(), Seq<Seq<char>>>),
    Done,
    Failed(Seq<Seq<char>>),
}

impl DeepView for TrailerStage {
    type V = TrailerStageView;

    open spec fn deep_view(&self) -> TrailerStageView {
        match self {
            TrailerStage::Checkout => TrailerStageView::Checkout,
            TrailerStage::Read => TrailerStageView::Read,
            TrailerStage::Amend(text) => TrailerStageView::Amend(text@),
            TrailerStage::Return(r) => TrailerStageView::Return(outcome(*r)),
            TrailerStage::Done => TrailerStageView::Done,
            TrailerStage::Failed(e) => TrailerStageView::Failed(e.deep_view()),
        }
    }
}

/// The recording of `trailer` on the tip of `branch`, started from `original`.
pub struct TrailerRun {
    pub branch: String,
    pub original: String,
    pub trailer: String,
    pub stage: TrailerStage,
}

/// [`TrailerRun`] by its characters.
pub struct TrailerRunView {
    pub branch: Seq<char>,
    pub original: Seq<char>,
    pub trailer: Seq<char>,
    pub stage: TrailerStageView,
}

impl DeepView for TrailerRun {
    type V = TrailerRunView;

    open spec fn deep_view(&self) -> TrailerRunView {
        TrailerRunView {
            branch: self.branch@,
            original: self.original@,
            trailer: self.trailer@,
            stage: self.stage.deep_view(),
        }
    }
}

/// What to do next in a recording.
pub enum TrailerAction {
    /// Run git with these arguments.
    Git(Vec<String>),
    /// Run git with these arguments and take what it prints.
    Capture(Vec<String>),
    Finished,
    Failed(Failure),
}

/// [`TrailerAction`] by its characters.
pub enum TrailerActionView {
    Git(Seq<Seq<char>>),
    Capture(Seq<Seq<char>>),
    Finished,
    Failed(Seq<Seq<char>>),
}

impl DeepView for TrailerAction {
    type V = TrailerActionView;

    open spec fn deep_view(&self) -> TrailerActionView {
        match self {
            TrailerAction::Git(args) => TrailerActionView::Git(args.deep_view()),
            TrailerAction::Capture(args) => TrailerActionView::Capture(args.deep_view()),
            TrailerAction::Finished => TrailerActionView::Finished,
            TrailerAction::Failed(e) => TrailerActionView::Failed(e.deep_view()),
        }
    }
}

/// What came of an action.
pub enum TrailerEvent {
    Git(Result<(), Failure>),
    Captured(Result<String, Failure>),
}

/// [`TrailerEvent`] by its characters.
pub enum TrailerEventView {
    Git(Result<(), Seq<Seq<char>>>),
    Captured(Result<Seq<char>, Seq<Seq<char>>>),
}

impl DeepView for TrailerEvent {
    type V = TrailerEventView;

    open spec fn deep_view(&self) -> TrailerEventView {
        match self {
            TrailerEvent::Git(r) => TrailerEventView::Git(outcome(*r)),
            TrailerEvent::Captured(r) => TrailerEventView::Captured(outcome(*r)),
        }
    }
}

/// What to do in a recording.
pub open spec fn trailer_action(run: TrailerRunView) -> TrailerActionView {
    match run.stage {
        TrailerStageView::Checkout => TrailerActionView::Git(seq!["checkout"@, run.branch]),
        TrailerStageView::Read => TrailerActionView::Capture(
            seq!["log"@, "-1"@, "--format=%B"@],
        ),
        TrailerStageView::Amend(text) => TrailerActionView::Git(
            seq!["commit"@, "--amend"@, "--no-edit"@, "-m"@, amended(text, run.trailer)],
        ),
        TrailerStageView::Return(_) => TrailerActionView::Git(seq!["checkout"@, run.original]),
        TrailerStageView::Done => TrailerActionView::Finished,
        TrailerStageView::Failed(e) => TrailerActionView::Failed(e),
    }
}

/// The stage behind an event. Not being able to return is reported before not
/// having amended. An event that does not answer the stage's action changes
/// nothing.
pub open spec fn trailer_next(run: TrailerRunView, event: TrailerEventView) -> TrailerStageView {
    match (run.stage, event) {
        (TrailerStageView::Checkout, TrailerEventView::Git(Ok(()))) => TrailerStageView::Read,
        (TrailerStageView::Checkout, TrailerEventView::Git(Err(e))) => TrailerStageView::Failed(
            seq!["failed to check out '"@ + run.branch + "' to record the force trailer"@] + e,
        ),
        (TrailerStageView::Read, TrailerEventView::Captured(Ok(text))) => {
            TrailerStageView::Amend(text)
        },
        (TrailerStageView::Read, TrailerEventView::Captured(Err(e))) => {
            TrailerStageView::Failed(e)
        },
        (TrailerStageView::Amend(_), TrailerEventView::Git(r)) => TrailerStageView::Return(r),
        (TrailerStageView::Return(_), TrailerEventView::Git(Err(e))) => TrailerStageView::Failed(
            seq![
                "recorded the force trailer, but checking out '"@ + run.original
                    + "' again failed"@,
            ] + e,
        ),
        (TrailerStageView::Return(Err(e)), TrailerEventView::Git(Ok(()))) => {
            TrailerStageView::Failed(
                seq!["failed to record the force trailer on '"@ + run.branch + "'"@] + e,
            )
        },
        (TrailerStageView::Return(Ok(())), TrailerEventView::Git(Ok(()))) => {
            TrailerStageView::Done
        },
        (stage, _) => stage,
    }
}

/// Starts recording a trailer on the tip of a branch.
pub fn append_commit_trailer(branch: &str, original: &str, trailer: &str) -> (r: TrailerRun)
    ensures
        r.deep_view() == (TrailerRunView {
            branch: branch@,
            original: original@,
            trailer: trailer@,
            stage: TrailerStageView::Checkout,
        }),
{
    TrailerRun {
        branch: owned(branch),
        original: owned(original),
        trailer: owned(trailer),
        stage: TrailerStage::Checkout,
    }
}

impl TrailerRun {
    /// What to do next.
    pub fn action(&self) -> (r: TrailerAction)
        ensures
            r.deep_view() == trailer_action(self.deep_view()),
    {
        let ghost run = self.deep_view();
        match &self.stage {
            TrailerStage::Checkout => {
                let args = vec!["checkout".to_owned(), owned(self.branch.as_str())];
                assert(args.deep_view() =~= seq!["checkout"@, run.branch]);
                TrailerAction::Git(args)
            },
            TrailerStage::Read => {
                let args = vec!["log".to_owned(), "-1".to_owned(), "--format=%B".to_owned()];
                assert(args.deep_view() =~= seq!["log"@, "-1"@, "--format=%B"@]);
                TrailerAction::Capture(args)
            },
            TrailerStage::Amend(text) => {
                let args = vec![
                    "commit".to_owned(),
                    "--amend".to_owned(),
                    "--no-edit".to_owned(),
                    "-m".to_owned(),
                    message_with_trailer(text.as_str(), self.trailer.as_str()),
                ];
                assert(args.deep_view() =~= seq![
                    "commit"@,
                    "--amend"@,
                    "--no-edit"@,
                    "-m"@,
                    amended(text@, run.trailer),
                ]);
                TrailerAction::Git(args)
            },
            TrailerStage::Return(_) => {
                let args = vec!["checkout".to_owned(), owned(self.original.as_str())];
                assert(args.deep_view() =~= seq!["checkout"@, run.original]);
                TrailerAction::Git(args)
            },
            TrailerStage::Done => TrailerAction::Finished,
            TrailerStage::Failed(e) => TrailerAction::Failed(e.copy()),
        }
    }

    /// The recording behind an event.
    pub fn advance(self, event: TrailerEvent) -> (r: TrailerRun)
        ensures
            r.deep_view() == (TrailerRunView {
                stage: trailer_next(self.deep_view(), event.deep_view()),
                ..self.deep_view()
            }),
    {
        let mut run = self;
        let ghost before = run.deep_view();
        let ghost ev = event.deep_view();
        let barred = cat3(
            "failed to check out '",
            run.branch.as_str(),
            "' to record the force trailer",
        );
        let stuck = cat3(
            "recorded the force trailer, but checking out '",
            run.original.as_str(),
            "' again failed",
        );
        let unrecorded = cat3("failed to record the force trailer on '", run.branch.as_str(), "'");
        let stage = match (run.stage, event) {
            (TrailerStage::Checkout, TrailerEvent::Git(Ok(()))) => TrailerStage::Read,
            (TrailerStage::Checkout, TrailerEvent::Git(Err(e))) => {
                TrailerStage::Failed(e.context(barred))
            },
            (TrailerStage::Read, TrailerEvent::Captured(Ok(text))) => TrailerStage::Amend(text),
            (TrailerStage::Read, TrailerEvent::Captured(Err(e))) => TrailerStage::Failed(e),
            (TrailerStage::Amend(_), TrailerEvent::Git(r)) => TrailerStage::Return(r),
            (TrailerStage::Return(_), TrailerEvent::Git(Err(e))) => {
                TrailerStage::Failed(e.context(stuck))
            },
            (TrailerStage::Return(Err(e)), TrailerEvent::Git(Ok(()))) => {
                TrailerStage::Failed(e.context(unrecorded))
            },
            (TrailerStage::Return(Ok(())), TrailerEvent::Git(Ok(()))) => TrailerStage::Done,
            (stage, _) => stage,
        };
        assert(stage.deep_view() == trailer_next(before, ev));
        run.stage = stage;
        run
    }
}

// ── Laws ────────────────────────────────────────────────────────────────────

/// Whatever came of amending, the original branch is checked out again before
/// the recording ends, and it only succeeds where both went through.
pub proof fn law_recording_returns(
    run: TrailerRunView,
    amend: Result<(), Seq<Seq<char>>>,
    back: Result<(), Seq<Seq<char>>>,
)
    requires
        run.stage is Amend,
    ensures
        ({
            let returning = TrailerRunView {
                stage: trailer_next(run, TrailerEventView::Git(amend)),
                ..run
            };
            let end = trailer_next(returning, TrailerEventView::Git(back));
            &&& trailer_action(returning) == TrailerActionView::Git(
                seq!["checkout"@, run.original],
            )
            &&& end is Done || end is Failed
            &&& end is Done <==> amend is Ok && back is Ok
        }),
{
}

/// An amended message keeps what was there, up to the white space at its end, and
/// ends with the trailer behind an empty line.
pub proof fn law_amendments_keep_the_message(existing: Seq<char>, trailer: Seq<char>)
    ensures
        ({
            let m = amended(existing, trailer);
            let kept_part = trimmed_end(existing);
            let tail = "\n\n"@ + trailer + "\n"@;
            &&& m.len() == kept_part.len() + tail.len()
            &&& m.take(kept_part.len() as int) == kept_part
            &&& m.skip(kept_part.len() as int) == tail
        }),
{
    let m = amended(existing, trailer);
    let kept_part = trimmed_end(existing);
    let tail = "\n\n"@ + trailer + "\n"@;
    assert(m =~= kept_part + tail);
    assert(m.take(kept_part.len() as int) =~= kept_part);
    assert(m.skip(kept_part.len() as int) =~= tail);
}

/// A recording checks out the branch, reads the message of its tip, amends it with
/// the trailer, and goes back; where git lets all of that through it is done.
pub proof fn law_recordings_amend_the_tip(run: TrailerRunView, text: Seq<char>)
    requires
        run.stage is Checkout,
    ensures
        ({
            let ok = TrailerEventView::Git(Ok(()));
            let reading = TrailerRunView { stage: trailer_next(run, ok), ..run };
            let amending = TrailerRunView {
                stage: trailer_next(reading, TrailerEventView::Captured(Ok(text))),
                ..run
            };
            let returning = TrailerRunView { stage: trailer_next(amending, ok), ..run };
            &&& trailer_action(run) == TrailerActionView::Git(seq!["checkout"@, run.branch])
            &&& trailer_action(reading) is Capture
            &&& trailer_action(amending) matches TrailerActionView::Git(args) && args[0]
                == "commit"@ && args[1] == "--amend"@ && args.last() == amended(text, run.trailer)
            &&& trailer_action(returning) == TrailerActionView::Git(
                seq!["checkout"@, run.original],
            )
            &&& trailer_next(returning, ok) is Done
        }),
{
}

} // verus!
