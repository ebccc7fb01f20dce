//! When a source may be moved, when it may be removed, and what counts.

use vstd::prelude::*;

use crate::engine::{Outcome, Work};
use crate::messages::{source_incomplete, source_kept};
use crate::mvops::{
    is_clean, move_job_of, move_refusal, source_counted, Came, MoveOptions, MoveView, PairFacts,
};
use crate::plan::{nesting_of, FileKind, Nesting, RealPlaces};
use crate::text::shown;

verus! {

/// A source may be moved exactly when it is there, is not the file at its
/// destination, replaces like with like, and, a directory, does not go onto or
/// into itself.
pub proof fn moves_have_to_make_sense(
    src: Seq<u8>,
    dst: Seq<u8>,
    facts: PairFacts,
    places: RealPlaces,
    cwd: Seq<u8>,
)
    ensures
        move_refusal(src, dst, facts, places, cwd) is None <==> match (facts.src, facts.dst) {
            (None, _) => false,
            (Some(m), None) => m.kind == FileKind::Dir ==> stays_apart(src, dst, places, cwd),
            (Some(m), Some(d)) => {
                &&& m.dev != d.dev || m.ino != d.ino
                &&& m.kind == FileKind::Dir ==> facts.dst_reaches_dir && stays_apart(
                    src,
                    dst,
                    places,
                    cwd,
                )
                &&& m.kind != FileKind::Dir ==> d.kind != FileKind::Dir
            },
        },
{
}

/// By their names and by where links lead, `dst` lies outside of `src`.
pub open spec fn stays_apart(src: Seq<u8>, dst: Seq<u8>, places: RealPlaces, cwd: Seq<u8>) -> bool {
    nesting_of(src, dst, cwd) == Nesting::Apart && nesting_of(
        places.source@,
        places.destination@,
        cwd,
    ) == Nesting::Apart
}

/// A refused move is answered with words about the source or the destination.
pub proof fn refusals_say_what_is_refused(
    src: Seq<u8>,
    dst: Seq<u8>,
    facts: PairFacts,
    places: RealPlaces,
    cwd: Seq<u8>,
)
    ensures
        move_refusal(src, dst, facts, places, cwd) matches Some(text) ==> speaks_of(text, shown(src))
            || speaks_of(text, shown(dst)),
{
    if let Some(text) = move_refusal(src, dst, facts, places, cwd) {
        lemma_words(src, dst, facts, places, cwd, text);
    }
}

/// `part` stands somewhere in `text`.
#[verifier::opaque]
pub open spec fn speaks_of(text: Seq<char>, part: Seq<char>) -> bool {
    exists|i: int|
        0 <= i <= text.len() - part.len() && #[trigger] text.subrange(i, i + part.len()) == part
}

pub(crate) proof fn lemma_speaks(front: Seq<char>, part: Seq<char>, behind: Seq<char>)
    ensures
        speaks_of(front + part + behind, part),
{
    reveal(speaks_of);
    let text = front + part + behind;
    assert(text.subrange(front.len() as int, (front.len() + part.len()) as int) =~= part);
}

proof fn lemma_words(
    src: Seq<u8>,
    dst: Seq<u8>,
    facts: PairFacts,
    places: RealPlaces,
    cwd: Seq<u8>,
    text: Seq<char>,
)
    requires
        move_refusal(src, dst, facts, places, cwd) == Some(text),
    ensures
        speaks_of(text, shown(src)) || speaks_of(text, shown(dst)),
{
    let s = shown(src);
    let d = shown(dst);
    let q = "'"@;
    let a = "impossible d'accéder à "@;
    lemma_speaks(a + q, s, q);
    assert(a + q + s + q =~= crate::messages::cannot_access(src));
    let b = " et "@ + (q + d + q) + " sont le même fichier"@;
    lemma_speaks(q, s, q + b);
    assert(q + s + (q + b) =~= crate::messages::same_file(src, dst));
    let e = "impossible d'écraser "@;
    lemma_speaks(e + q, d, q + " par un répertoire"@);
    assert(e + q + d + (q + " par un répertoire"@) =~= crate::messages::directory_over_file(dst));
    let f = "impossible d'écraser le répertoire "@;
    lemma_speaks(f + q, d, q + " par un fichier"@);
    assert(f + q + d + (q + " par un fichier"@) =~= crate::messages::file_over_directory(dst));
    let g = "la source et la destination sont identiques : "@;
    lemma_speaks(g + q, s, q);
    assert(g + q + s + q =~= crate::messages::identical(src));
    let h = "impossible de copier "@;
    let i = " dans un de ses sous-répertoires ("@ + (q + d + q) + ")"@;
    lemma_speaks(h + q, s, q + i);
    assert(h + q + s + (q + i) =~= crate::messages::inside_itself(src, dst));
}

/// The run of a move keeps to the policy and to the backups asked for, and
/// copies nothing by itself.
pub proof fn moves_keep_to_the_options(opts: MoveOptions, dst: Seq<u8>)
    ensures
        move_job_of(opts, dst).work == Work::Move,
        move_job_of(opts, dst).overwrite == opts.overwrite,
        move_job_of(opts, dst).backup == opts.backup,
        !move_job_of(opts, dst).resume,
{
}

/// A source counts as renamed, as moved across or as skipped exactly when it
/// was; a source that was copied counts, and is gone, only when the plan and the
/// copy were complete and it could be removed.
pub proof fn each_source_has_its_count(st: MoveView, src: Seq<u8>, dst: Seq<u8>, came: Came)
    requires
        came.wf(),
    ensures
        ({
            let next = source_counted(st, src, dst, came);
            let renamed = came matches Came::Ended { outcome, .. } && outcome == Outcome::Renamed;
            let skipped = came matches Came::Ended { outcome, .. } && outcome == Outcome::Skipped;
            let across = came matches Came::Across { plan, copied, failure } && failure is None
                && plan.errors.len() == 0 && plan.excluded == 0 && plan.skipped.len() == 0
                && copied.errors.len() == 0 && copied.skipped == 0;
            &&& next.renamed == st.renamed + if renamed {
                1int
            } else {
                0
            }
            &&& next.skipped == st.skipped + if skipped {
                1int
            } else {
                0
            }
            &&& next.moved_across == st.moved_across + if across {
                1int
            } else {
                0
            }
            &&& renamed || skipped || across <==> !came.is_error()
        }),
{
}

/// What a copy came to is counted whether or not the source is removed after
/// it, and the errors of its plan are errors of the move.
pub proof fn copies_of_moves_are_counted(st: MoveView, src: Seq<u8>, dst: Seq<u8>, came: Came)
    requires
        came is Across,
    ensures
        ({
            let next = source_counted(st, src, dst, came);
            let (plan, copied) = (came->plan, came->copied);
            &&& next.copy.files_copied == st.copy.files_copied + copied.files_copied
            &&& next.copy.bytes_copied == st.copy.bytes_copied + copied.bytes_copied
            &&& next.copy.dirs_created == st.copy.dirs_created + copied.dirs_created
            &&& next.copy.skipped == st.copy.skipped + copied.skipped
            &&& next.copy.verified == st.copy.verified + copied.verified
            &&& next.copy.already_present == st.copy.already_present + copied.already_present
            &&& next.copy.errors == st.copy.errors + copied.errors
            &&& next.copy.warnings == st.copy.warnings + copied.warnings
            &&& next.errors.len() >= st.errors.len() + plan.errors.len()
            &&& next.errors.take((st.errors.len() + plan.errors.len()) as int) == st.errors
                + plan.errors
        }),
{
    let next = source_counted(st, src, dst, came);
    let plan = came->plan;
    assert(next.errors.take((st.errors.len() + plan.errors.len()) as int) =~= st.errors
        + plan.errors);
}

/// A source that stays is told last: with one word when there were errors, with
/// another when something was only left out, left aside or kept.
pub proof fn sources_that_stay_are_told(st: MoveView, src: Seq<u8>, dst: Seq<u8>, came: Came)
    requires
        came is Across,
        !is_clean(came->plan, came->copied),
    ensures
        ({
            let next = source_counted(st, src, dst, came);
            let faultless = came->plan.errors.len() == 0 && came->copied.errors.len() == 0;
            &&& next.errors.len() > 0
            &&& next.errors.last() == if faultless {
                source_incomplete(src)
            } else {
                source_kept(src)
            }
            &&& next.moved_across == st.moved_across
        }),
{
}

/// The error of a move that was refused, could not save what is there or failed
/// speaks of the destination.
pub proof fn errors_of_moves_speak_of_the_destination(
    st: MoveView,
    src: Seq<u8>,
    dst: Seq<u8>,
    outcome: Outcome,
    cause: Seq<char>,
)
    requires
        outcome is Refused || outcome is Failed,
    ensures
        ({
            let next = source_counted(st, src, dst, Came::Ended { outcome, cause });
            &&& next.errors.len() == st.errors.len() + 1
            &&& speaks_of(next.errors.last(), shown(dst))
            &&& outcome is Failed ==> speaks_of(next.errors.last(), cause)
        }),
{
    let (s, d) = (shown(src), shown(dst));
    let q = "'"@;
    let none = Seq::<char>::empty();
    lemma_speaks("non remplacé : "@ + q, d, q);
    assert("non remplacé : "@ + q + d + q =~= crate::messages::not_replaced(dst));
    let f = "sauvegarde de "@ + q;
    lemma_speaks(f, d, q + " : "@ + cause);
    assert(f + d + (q + " : "@ + cause) =~= crate::messages::not_saved(dst, cause));
    lemma_speaks(f + d + q + " : "@, cause, none);
    assert(f + d + q + " : "@ + cause + none =~= crate::messages::not_saved(dst, cause));
    lemma_speaks(s + " -> "@, d, " : "@ + cause);
    assert(s + " -> "@ + d + (" : "@ + cause) =~= crate::messages::not_copied(src, dst, cause));
    lemma_speaks(s + " -> "@ + d + " : "@, cause, none);
    assert(s + " -> "@ + d + " : "@ + cause + none =~= crate::messages::not_copied(
        src,
        dst,
        cause,
    ));
}

} // verus!
