//! What the history says of the workflow.
//!
//! Nothing but the history records what has graduated and what was promoted. The
//! subjects and bodies that the merges are given are those that the listing of
//! the rolls looks for.
use vstd::prelude::*;

use crate::branches::{
    attributed, graduation_on, marks_promoted, merged_branch, names_graduation, promoted_names,
    RollView,
};
use crate::config::ConfigView;
use crate::git::commit_in;
use crate::ops::names::{landing_subject, reintegration_subject};
use crate::ops::promote::{
    graduation_subject, included_rolls, listed, promotion_body, promotion_subject, roll_step,
    update_subject,
};
use crate::ops::trailer::amended;
use crate::seqs::lemma_kept_contains;
use crate::text::{
    after_prefix, begins, lemma_found_char, lemma_leading_word, lemma_line_between, lemma_pos,
    lemma_pos_cat, lemma_trimmed_as_is, lemma_trimmed_end_cat, lemma_trimmed_end_keeps,
    lemma_trimmed_twice, lines_of, trimmed, trimmed_end, trimmed_start, white,
};

verus! {

/// Whether a name is one word.
pub open spec fn one_word(name: Seq<char>) -> bool {
    &&& name.len() > 0
    &&& forall|i: int| 0 <= i < name.len() ==> !white(#[trigger] name[i])
}

/// Whether a name can stand on a line of its own in the list of a promotion: it
/// keeps to one line, has no white space at its ends, and is not the heading.
pub open spec fn one_line(name: Seq<char>) -> bool {
    &&& name.len() > 0
    &&& !white(name[0])
    &&& !white(name.last())
    &&& forall|i: int| 0 <= i < name.len() ==> #[trigger] name[i] != '\n'
    &&& name != "Rolls:"@
}

/// What follows a prefix is what is left behind it.
proof fn lemma_after_prefix(p: Seq<char>, rest: Seq<char>)
    ensures
        after_prefix(p + rest, p) == Some(rest),
{
    assert((p + rest).take(p.len() as int) =~= p);
    assert((p + rest).skip(p.len() as int) =~= rest);
}

/// A text does not begin with one that has another first character.
proof fn lemma_begins_otherwise(s: Seq<char>, p: Seq<char>)
    requires
        s.len() > 0,
        p.len() > 0,
        s[0] != p[0],
    ensures
        !begins(s, p),
        after_prefix(s, p) is None,
{
    if p.len() <= s.len() {
        assert(s.take(p.len() as int)[0] == s[0]);
    }
}

// ── Graduations ─────────────────────────────────────────────────────────────

/// A graduation reads back: the subject of the merge that graduates a roll names
/// that roll, so a history which holds it says that the roll has graduated, and a
/// stable branch which holds it says that the roll was promoted.
pub proof fn law_graduation_is_read_back(
    subjects: Seq<Seq<char>>,
    roll: Seq<char>,
    rolling: Seq<char>,
    body: Seq<char>,
    i: int,
)
    requires
        one_word(roll),
        0 <= i < subjects.len(),
        subjects[i] == graduation_subject(roll, rolling),
    ensures
        merged_branch(graduation_subject(roll, rolling)) == Some(roll),
        names_graduation(subjects, roll),
        marks_promoted(graduation_subject(roll, rolling), body) == seq![roll],
{
    reveal_strlit("Merge branch '");
    reveal_strlit("Graduate ");
    reveal_strlit("Promote ");
    reveal_strlit(" into ");
    let s = graduation_subject(roll, rolling);
    let rest = " into "@ + rolling;
    assert(s =~= "Graduate "@ + (roll + rest));
    lemma_after_prefix("Graduate "@, roll + rest);
    lemma_begins_otherwise(s, "Merge branch '"@);
    lemma_begins_otherwise(s, "Promote "@);
    assert(rest[0] == ' ');
    lemma_leading_word(roll, rest);
}

/// A merge log finds the commit that graduated a roll: its line, a hash, a tab and
/// the subject, gives the roll with the hash.
pub proof fn law_graduation_commit_is_found(hash: Seq<char>, roll: Seq<char>, rolling: Seq<char>)
    requires
        one_word(roll),
        forall|i: int| 0 <= i < hash.len() ==> #[trigger] hash[i] != '\t',
    ensures
        graduation_on(hash + "\t"@ + graduation_subject(roll, rolling)) == Some((roll, hash)),
{
    reveal_strlit("\t");
    let subject = graduation_subject(roll, rolling);
    let line = hash + "\t"@ + subject;
    assert("\t"@ =~= seq!['\t']);
    assert(line =~= hash + ("\t"@ + subject));
    lemma_pos_cat(hash, "\t"@ + subject, '\t');
    lemma_found_char(line, '\t');
    assert(line.take(hash.len() as int) =~= hash);
    assert(line.skip(hash.len() as int + 1) =~= subject);
    law_graduation_is_read_back(seq![subject], roll, rolling, seq![], 0);
}

// ── Promotions ──────────────────────────────────────────────────────────────

/// The list up to one of its names, and what follows that name.
proof fn lemma_listed(names: Seq<Seq<char>>, i: int) -> (r: (Seq<char>, Seq<char>))
    requires
        0 <= i < names.len(),
    ensures
        listed(names) == r.0 + ("  "@ + names[i]) + r.1,
        r.0.len() == 0 || r.0.last() == '\n',
        r.1.len() > 0,
        r.1[0] == '\n',
    decreases names.len(),
{
    reveal_strlit("\n");
    let front = listed(names.drop_last());
    if i == names.len() - 1 {
        if names.len() > 1 {
            let (_, b) = lemma_listed(names.drop_last(), names.len() - 2);
            let before = listed(names.drop_last().drop_last()) + "  "@ + names.drop_last().last();
            assert(front =~= before + "\n"@);
            assert(front.last() == '\n');
        }
        assert(listed(names) =~= front + ("  "@ + names[i]) + "\n"@);
        (front, "\n"@)
    } else {
        let (a, b) = lemma_listed(names.drop_last(), i);
        let tail = "  "@ + names.last() + "\n"@;
        assert(listed(names) =~= a + ("  "@ + names[i]) + (b + tail));
        (a, b + tail)
    }
}

/// A name behind the indentation of the list is read off its line.
proof fn lemma_attributed(name: Seq<char>)
    requires
        one_line(name),
    ensures
        attributed("  "@ + name) == Some(name),
{
    reveal_strlit("  ");
    let line = "  "@ + name;
    assert(white(' '));
    assert(line.skip(1).skip(1) =~= name);
    assert(line[0] == ' ' && line.skip(1)[0] == ' ');
    assert(trimmed_start(name) == name);
    assert(trimmed_start(line.skip(1)) == trimmed_start(line.skip(1).skip(1)));
    assert(trimmed_start(line) == trimmed_start(line.skip(1)));
    lemma_trimmed_as_is(name);
}

/// A body marks the names that stand on lines of their own in it, whatever
/// follows.
proof fn lemma_body_marks(rest: Seq<char>, a: Seq<char>, name: Seq<char>, b: Seq<char>)
    requires
        one_line(name),
        a.len() > 0,
        !white(a[0]),
        a.last() == '\n',
        b.len() == 0 || b[0] == '\n',
    ensures
        marks_promoted("Promote "@ + rest, trimmed(a + ("  "@ + name) + b)).contains(name),
{
    reveal_strlit("  ");
    let line = "  "@ + name;
    let body = a + line + b;
    assert(line.last() == name.last());
    assert((a + line).last() == line.last());
    assert(body[0] == a[0]);
    let n = lemma_trimmed_end_keeps(a + line, b);
    let t = trimmed(body);
    assert(t == a + line + b.take(n));
    if n > 0 {
        assert(b.take(n)[0] == b[0]);
    }
    assert forall|i: int| 0 <= i < line.len() implies line[i] != '\n' by {
        if i >= 2 {
            assert(line[i] == name[i - 2]);
        }
    }
    assert(white('\r'));
    lemma_line_between(a, line, b.take(n));
    lemma_attributed(name);
    let f = |l: Seq<char>| attributed(l);
    let i = choose|i: int| 0 <= i < lines_of(t).len() && lines_of(t)[i] == line;
    assert(f(lines_of(t)[i]) == Some(name));
    lemma_kept_contains(lines_of(t), f, name);
    lemma_after_prefix("Promote "@, rest);
    let kept_lines = crate::seqs::kept(lines_of(t), f);
    let marks = marks_promoted("Promote "@ + rest, t);
    let j = choose|j: int| 0 <= j < kept_lines.len() && kept_lines[j] == name;
    assert(marks[marks.len() - kept_lines.len() + j] == name);
}

/// The body of a promotion with a list marks each of the names, with or without a
/// trailer behind it.
proof fn lemma_list_marks(rest: Seq<char>, names: Seq<Seq<char>>, i: int, trailer: Seq<char>)
    requires
        0 <= i < names.len(),
        one_line(names[i]),
    ensures
        ({
            let body = "Rolls:\n"@ + listed(names);
            &&& marks_promoted("Promote "@ + rest, trimmed(body)).contains(names[i])
            &&& marks_promoted("Promote "@ + rest, trimmed(amended(body, trailer))).contains(
                names[i],
            )
        }),
{
    reveal_strlit("Rolls:\n");
    reveal_strlit("  ");
    reveal_strlit("\n");
    reveal_strlit("\n\n");
    let (a, b) = lemma_listed(names, i);
    let name = names[i];
    let line = "  "@ + name;
    let body = "Rolls:\n"@ + listed(names);
    let front = "Rolls:\n"@ + a;
    assert(body =~= front + line + b);
    assert(front.last() == '\n');
    assert(front[0] == 'R');
    lemma_body_marks(rest, front, name, b);
    assert((front + line).last() == name.last());
    let n = lemma_trimmed_end_keeps(front + line, b);
    let behind = b.take(n) + ("\n\n"@ + trailer + "\n"@);
    assert(amended(body, trailer) =~= front + line + behind);
    assert(behind[0] == '\n');
    lemma_body_marks(rest, front, name, behind);
}

/// The promotion of one roll reads back: the merge of its step marks that roll as
/// promoted, with or without a record of what was passed by force.
pub proof fn law_roll_promotion_is_read_back(
    config: ConfigView,
    name: Seq<char>,
    hash: Seq<char>,
    trailer: Seq<char>,
)
    requires
        one_word(name) || one_line(name),
    ensures
        ({
            let step = roll_step(config, name, hash);
            &&& marks_promoted(step.subject, trimmed(step.body->0)).contains(name)
            &&& marks_promoted(step.subject, trimmed(amended(step.body->0, trailer))).contains(
                name,
            )
        }),
{
    let step = roll_step(config, name, hash);
    let tail = " to "@ + config.stable_branch;
    assert(step.subject =~= "Promote "@ + (name + tail));
    if one_line(name) {
        let names = seq![name];
        reveal_strlit("Rolls:\n");
        reveal_strlit("Rolls:\n  ");
        reveal_strlit("  ");
        assert(names.drop_last() =~= seq![]);
        assert(listed(names.drop_last()) == Seq::<char>::empty());
        assert(listed(names) =~= "  "@ + name + "\n"@);
        assert("Rolls:\n  "@ =~= "Rolls:\n"@ + "  "@);
        assert(step.body->0 =~= "Rolls:\n"@ + listed(names));
        lemma_list_marks(name + tail, names, 0, trailer);
    } else {
        reveal_strlit(" to ");
        assert(tail[0] == ' ');
        lemma_after_prefix("Promote "@, name + tail);
        lemma_leading_word(name, tail);
        assert(marks_promoted(step.subject, trimmed(step.body->0))[0] == name);
        assert(marks_promoted(step.subject, trimmed(amended(step.body->0, trailer)))[0] == name);
    }
}

/// The promotion of all of rolling reads back: its merge marks every roll that it
/// includes as promoted, with or without a record of what was passed by force.
pub proof fn law_promotion_is_read_back(
    config: ConfigView,
    rolls: Seq<RollView>,
    roll: Seq<char>,
    trailer: Seq<char>,
)
    requires
        included_rolls(rolls).contains(roll),
        one_line(roll),
    ensures
        promotion_body(rolls) is Some,
        ({
            let subject = promotion_subject(config, rolls);
            let body = promotion_body(rolls)->0;
            &&& marks_promoted(subject, trimmed(body)).contains(roll)
            &&& marks_promoted(subject, trimmed(amended(body, trailer))).contains(roll)
        }),
{
    let included = included_rolls(rolls);
    let i = choose|i: int| 0 <= i < included.len() && included[i] == roll;
    let named = if included.len() == 1 {
        included[0]
    } else {
        config.rolling_branch
    };
    let rest = named + " to "@ + config.stable_branch;
    assert(promotion_subject(config, rolls) =~= "Promote "@ + rest);
    lemma_list_marks(rest, included, i, trailer);
}

/// What one commit on the stable branch marks as promoted stays promoted, whatever
/// commits stand before and behind it.
pub proof fn law_promotions_last(commits: Seq<(Seq<char>, Seq<char>)>, i: int, name: Seq<char>)
    requires
        0 <= i < commits.len(),
        marks_promoted(commits[i].0, commits[i].1).contains(name),
    ensures
        promoted_names(commits).contains(name),
    decreases commits.len(),
{
    let front = promoted_names(commits.drop_last());
    let last = marks_promoted(commits.last().0, commits.last().1);
    if i == commits.len() - 1 {
        let j = choose|j: int| 0 <= j < last.len() && last[j] == name;
        assert(promoted_names(commits)[front.len() + j] == name);
    } else {
        law_promotions_last(commits.drop_last(), i, name);
        let j = choose|j: int| 0 <= j < front.len() && front[j] == name;
        assert(promoted_names(commits)[j] == name);
    }
}

/// A commit reads back from the log that is asked for: its subject on the first
/// line and its body behind that, with the white space around the body gone.
pub proof fn law_commit_is_read_back(subject: Seq<char>, body: Seq<char>)
    requires
        subject.len() > 0,
        !white(subject[0]),
        !white(subject.last()),
        forall|i: int| 0 <= i < subject.len() ==> #[trigger] subject[i] != '\n',
    ensures
        commit_in(subject + "\n"@ + body) == Some((subject, trimmed(body))),
{
    reveal_strlit("\n");
    assert("\n"@ =~= seq!['\n']);
    let record = subject + "\n"@ + body;
    assert(white('\n'));
    assert(record[0] == subject[0]);
    lemma_trimmed_as_is(subject);
    lemma_trimmed_twice(body);
    lemma_trimmed_end_cat(subject + "\n"@, body);
    let t = trimmed(record);
    if trimmed_end(body).len() == 0 {
        assert((subject + "\n"@).drop_last() =~= subject);
        assert(t == subject);
        lemma_pos(subject, '\n');
        lemma_found_char(subject, '\n');
        assert(trimmed_end(body) =~= seq![]);
    } else {
        let rest = trimmed_end(body);
        assert(t =~= subject + ("\n"@ + rest));
        lemma_pos_cat(subject, "\n"@ + rest, '\n');
        lemma_found_char(t, '\n');
        assert(t.take(subject.len() as int) =~= subject);
        assert(t.skip(subject.len() as int + 1) =~= rest);
    }
}

// ── Other merges ────────────────────────────────────────────────────────────

/// The other merges say nothing of graduations and promotions: bringing a roll up
/// to date, landing a hotfix and reintegrating it name no branch, and a promotion
/// is not taken for a graduation.
pub proof fn law_other_merges_name_nothing(
    a: Seq<char>,
    b: Seq<char>,
    c: Seq<char>,
    body: Seq<char>,
    config: ConfigView,
    rolls: Seq<RollView>,
)
    ensures
        merged_branch(update_subject(a, b)) is None,
        marks_promoted(update_subject(a, b), body) == Seq::<Seq<char>>::empty(),
        merged_branch(landing_subject(a, b)) is None,
        marks_promoted(landing_subject(a, b), body) == Seq::<Seq<char>>::empty(),
        merged_branch(reintegration_subject(a, b, c)) is None,
        marks_promoted(reintegration_subject(a, b, c), body) == Seq::<Seq<char>>::empty(),
        merged_branch(promotion_subject(config, rolls)) is None,
        merged_branch(roll_step(config, a, b).subject) is None,
{
    reveal_strlit("Update ");
    reveal_strlit("Hotfix ");
    reveal_strlit("Reintegrate ");
    reveal_strlit("Promote ");
    lemma_names_nothing(update_subject(a, b));
    lemma_names_nothing(landing_subject(a, b));
    lemma_names_nothing(reintegration_subject(a, b, c));
    lemma_names_nothing(promotion_subject(config, rolls));
    lemma_names_nothing(roll_step(config, a, b).subject);
    lemma_begins_otherwise(update_subject(a, b), "Promote "@);
    lemma_begins_otherwise(landing_subject(a, b), "Promote "@);
    lemma_begins_otherwise(reintegration_subject(a, b, c), "Promote "@);
}

/// A subject that begins with neither an `M` nor a `G` names no branch.
proof fn lemma_names_nothing(subject: Seq<char>)
    requires
        subject.len() > 0,
        subject[0] != 'M',
        subject[0] != 'G',
    ensures
        merged_branch(subject) is None,
{
    reveal_strlit("Merge branch '");
    reveal_strlit("Graduate ");
    reveal_strlit("Merge pull request #");
    lemma_begins_otherwise(subject, "Merge branch '"@);
    lemma_begins_otherwise(subject, "Graduate "@);
    lemma_begins_otherwise(subject, "Merge pull request #"@);
}

} // verus!
