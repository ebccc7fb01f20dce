//! What is said holds what it is about, and a dry run foretells the run.

use vstd::prelude::*;

use crate::copy::{destination_of, run_counted, source_of};
use crate::engine::{At, Facts, Job, Outcome, Reply, Work};
use crate::messages::{
    cannot_access_because, copied_note, dangling_link, directory_attributes_lost, inside_itself,
    linked_note, needs_recursive, not_copied, not_replaced, not_saved, overwrite_question, same_file,
    source_incomplete, source_kept, source_not_removed, special_file, trouble_with, walk_error,
};
use crate::move_laws::{lemma_speaks, speaks_of};
use crate::mvops::{MoveView, PlannedAction};
use crate::options::Overwrite;
use crate::plan::{EntryView, FileKind, PlanView};
use crate::report::{
    and_count, comma_joined, dirs_in, dry_run_lines, entry_json, entry_line, entry_lines,
    error_json, errors_text, first_file, move_json, move_line, moved_parts, overwrites,
    overwrites_in, plan_json, planned_json, planned_text, reported_size, summary_json, summary_of,
    totals_of, totals_text, would_be_kept, DestSeen, DryRun, Style,
};
use crate::run::no_room;
use crate::stats::StatsView;
use crate::text::{dec, human_size, shown};
use crate::utils::{duration_text, escaped, json_array, Elapsed};

verus! {

/// `t` begins with `p`.
pub open spec fn begins_with(t: Seq<char>, p: Seq<char>) -> bool {
    p.len() <= t.len() && t.take(p.len() as int) == p
}

proof fn lemma_shorter(t: Seq<char>, p: Seq<char>, x: Seq<char>)
    requires
        begins_with(t, p + x),
    ensures
        begins_with(t, p),
{
    assert(t.take(p.len() as int) =~= p) by {
        assert forall|i: int| 0 <= i < p.len() implies t[i] == p[i] by {
            assert(t.take((p + x).len() as int)[i] == (p + x)[i]);
        }
    }
}

proof fn lemma_two_shorter(t: Seq<char>, p: Seq<char>, x: Seq<char>, y: Seq<char>)
    requires
        begins_with(t, p + x + y),
    ensures
        begins_with(t, p),
{
    lemma_shorter(t, p + x, y);
    lemma_shorter(t, p, x);
}

proof fn lemma_field(t: Seq<char>, p: Seq<char>, x: Seq<char>, y: Seq<char>)
    requires
        begins_with(t, p + x + y),
    ensures
        speaks_of(t, x + y),
{
    let all = p + x + y;
    let rest = t.skip(all.len() as int);
    lemma_speaks(p, x + y, rest);
    assert(t =~= t.take(all.len() as int) + rest);
    assert(p + (x + y) + rest =~= t);
}

proof fn lemma_ended_field(t: Seq<char>, p: Seq<char>, x: Seq<char>, y: Seq<char>, z: Seq<char>)
    requires
        begins_with(t, p + x + y + z),
    ensures
        speaks_of(t, x + y + z),
{
    let all = p + x + y + z;
    let rest = t.skip(all.len() as int);
    lemma_speaks(p, x + y + z, rest);
    assert(t =~= t.take(all.len() as int) + rest);
    assert(p + (x + y + z) + rest =~= t);
}

proof fn lemma_whole_field(t: Seq<char>, x: Seq<char>, y: Seq<char>, z: Seq<char>)
    requires
        begins_with(t, x + y + z),
    ensures
        speaks_of(t, x + y + z),
{
    let none = Seq::<char>::empty();
    assert(none + x + y + z =~= x + y + z);
    lemma_ended_field(t, none, x, y, z);
}

// ---------------------------------------------------------------------------
// A dry run and the run
// ---------------------------------------------------------------------------

/// What a look comes to.
pub open spec fn look(seen: Option<Facts>) -> Reply {
    match seen {
        Some(f) => Reply::Saw(f),
        None => Reply::Failed,
    }
}

/// A run with this policy ends with the word that the destination is kept, when
/// it sees what was seen.
pub open spec fn run_keeps(job: Job, seen: DestSeen) -> bool {
    let a = job.next_at(At::Exists, look(seen.link));
    let b = if a is SourceTime {
        job.next_at(job.next_at(a, look(seen.source)), look(seen.reached))
    } else {
        a
    };
    b == At::Finished(Outcome::Skipped) || b == At::Finished(Outcome::Refused)
}

/// A dry run tells what the run does: a file is said to be kept when the run
/// would keep it, to be there already when the run would find it so, and to be
/// overwritten when something is there and neither holds.
pub proof fn a_dry_run_foretells_the_run(e: EntryView, job: Job, seen: DestSeen, how: DryRun)
    requires
        e is File,
        job.work == Work::File,
        job.size == e->File_size,
        job.overwrite == how.overwrite,
        job.resume == how.resume,
        job.overwrite != Overwrite::Interactive,
    ensures
        would_be_kept(seen, how) <==> run_keeps(job, seen),
        ({
            let found = job.resume && job.next_at(At::Resuming, look(seen.reached)) == At::Finished(
                Outcome::AlreadyPresent,
            );
            overwrites(e, seen, how) <==> seen.link is Some && !run_keeps(job, seen) && !found
        }),
        entry_line(e, seen, how) is Some,
        entry_line(e, seen, how).unwrap().style == Style::Yellow <==> overwrites(e, seen, how),
{
    reveal(Job::allowed);
    crate::engine_laws::lemma_opening(job);
}

/// Under `-i` nothing is said to be kept: the question is still to come.
pub proof fn questions_are_not_foretold(seen: DestSeen, how: DryRun)
    requires
        how.overwrite == Overwrite::Interactive || how.overwrite == Overwrite::Clobber,
    ensures
        !would_be_kept(seen, how),
{
}

/// The line of a file says which of four things becomes of it: it is kept, it is
/// there already, it overwrites, with a word on the backup where there is one,
/// or it is new.
pub proof fn lines_of_files_say_what_becomes_of_them(e: EntryView, seen: DestSeen, how: DryRun)
    requires
        e is File,
    ensures
        ({
            let t = entry_line(e, seen, how).unwrap().text;
            let kept = would_be_kept(seen, how);
            let found = how.resume && (seen.reached matches Some(f) && f.kind == FileKind::File
                && f.len == e->File_size);
            &&& kept ==> begins_with(t, "ignoré      "@)
            &&& !kept && found ==> begins_with(t, "présent     "@)
            &&& !kept && !found && seen.link is Some ==> begins_with(t, "écraser     "@)
            &&& !kept && !found && seen.link is None ==> begins_with(t, "copier      "@)
            &&& overwrites(e, seen, how) && how.backup is Some ==> speaks_of(t, " (sauvegarde)"@)
        }),
{
    let t = entry_line(e, seen, how).unwrap().text;
    let none = Seq::<char>::empty();
    let size = e->File_size;
    let s = shown(source_of(e));
    let d = shown(destination_of(e));
    let h = " ("@ + human_size(size) + ")"@;
    if would_be_kept(seen, how) {
        assert(t.take("ignoré      "@.len() as int) =~= "ignoré      "@);
    } else if how.resume && crate::engine::complete_file(seen.reached, size) {
        assert(t.take("présent     "@.len() as int) =~= "présent     "@);
    } else if seen.link is Some {
        assert(t.take("écraser     "@.len() as int) =~= "écraser     "@);
        if how.backup is Some {
            let front = "écraser     "@ + s + " -> "@ + d + h;
            lemma_speaks(front, " (sauvegarde)"@, none);
            assert(front + " (sauvegarde)"@ + none =~= t);
        }
    } else {
        assert(t.take("copier      "@.len() as int) =~= "copier      "@);
    }
}

/// Every entry has a line but a directory that is there, and only the lines of
/// files that are overwritten stand out.
pub proof fn entries_have_lines(e: EntryView, seen: DestSeen, how: DryRun)
    ensures
        entry_line(e, seen, how) is None <==> e is Dir && seen.reached is Some,
        entry_line(e, seen, how) matches Some(l) ==> speaks_of(l.text, shown(destination_of(e))),
        !(e is File) ==> !overwrites(e, seen, how) && (entry_line(e, seen, how) matches Some(l)
            ==> l.style == Style::Plain),
{
    let s = shown(source_of(e));
    let d = shown(destination_of(e));
    let none = Seq::<char>::empty();
    if let Some(l) = entry_line(e, seen, how) {
        let t = l.text;
        match e {
            EntryView::Dir { .. } => {
                lemma_speaks("créer dir   "@, d, none);
                assert("créer dir   "@ + d + none =~= t);
            },
            EntryView::Symlink { .. } => {
                lemma_speaks("lien        "@ + s + " -> "@, d, none);
                assert("lien        "@ + s + " -> "@ + d + none =~= t);
            },
            EntryView::HardLink { .. } => {
                lemma_speaks("lien dur    "@ + s + " == "@, d, none);
                assert("lien dur    "@ + s + " == "@ + d + none =~= t);
            },
            EntryView::Fifo { .. } => {
                lemma_speaks("fifo        "@ + s + " -> "@, d, none);
                assert("fifo        "@ + s + " -> "@ + d + none =~= t);
            },
            EntryView::Special { .. } => {
                lemma_speaks("spécial     "@ + s + " -> "@, d, none);
                assert("spécial     "@ + s + " -> "@ + d + none =~= t);
            },
            EntryView::File { size, .. } => {
                let h = " ("@ + human_size(size) + ")"@;
                lemma_speaks("ignoré      "@, d, " (existe déjà)"@);
                lemma_speaks("présent     "@ + s + " -> "@, d, " (ignoré)"@);
                lemma_speaks("écraser     "@ + s + " -> "@, d, h);
                lemma_speaks("écraser     "@ + s + " -> "@, d, h + " (sauvegarde)"@);
                lemma_speaks("copier      "@ + s + " -> "@, d, h);
                assert("ignoré      "@ + d + " (existe déjà)"@ =~= t || "présent     "@ + s + " -> "@
                    + d + " (ignoré)"@ =~= t || "écraser     "@ + s + " -> "@ + d + h =~= t
                    || "écraser     "@ + s + " -> "@ + d + (h + " (sauvegarde)"@) =~= t
                    || "copier      "@ + s + " -> "@ + d + h =~= t);
            },
        }
    }
}

/// A dry run has the lines of the entries, then one with the totals, which is a
/// warning when files are overwritten, and then one for what is left aside and
/// one for what is left out, where there is any.
pub proof fn dry_runs_end_with_totals(p: PlanView, seen: Seq<DestSeen>, how: DryRun)
    requires
        p.excluded >= 0,
    ensures
        ({
            let all = dry_run_lines(p, seen, how);
            let lines = entry_lines(p.entries, seen, how);
            let n = lines.len() as int;
            let over = overwrites_in(p.entries, seen, how);
            let aside = if p.skipped.len() > 0 {
                1int
            } else {
                0
            };
            let out = if p.excluded > 0 {
                1int
            } else {
                0
            };
            &&& all.len() == n + 1 + aside + out
            &&& all.take(n) == lines
            &&& all[n].style == Style::Warning <==> over > 0
            &&& speaks_of(all[n].text, dec(p.file_count as nat) + " fichier(s), "@)
            &&& speaks_of(all[n].text, dec(dirs_in(p.entries)) + " répertoire(s), "@)
            &&& speaks_of(all[n].text, human_size(p.total_bytes as u64) + " au total"@)
            &&& over > 0 ==> speaks_of(all[n].text, dec(over) + " écrasement(s)"@)
            &&& p.skipped.len() > 0 ==> all[n + 1].style == Style::Warning && speaks_of(
                all[n + 1].text,
                dec(p.skipped.len()),
            )
            &&& p.excluded > 0 ==> speaks_of(all.last().text, dec(p.excluded as nat))
        }),
{
    let all = dry_run_lines(p, seen, how);
    let lines = entry_lines(p.entries, seen, how);
    let n = lines.len() as int;
    let over = overwrites_in(p.entries, seen, how);
    assert(all.take(n) =~= lines);
    let t = all[n].text;
    let none = Seq::<char>::empty();
    let a = dec(p.file_count as nat);
    let b = dec(dirs_in(p.entries));
    let c = human_size(p.total_bytes as u64);
    let p1 = a + " fichier(s), "@;
    let p2 = p1 + b + " répertoire(s), "@;
    let p3 = p2 + c + " au total"@;
    assert(p3 == totals_text(p));
    assert(begins_with(t, p3)) by {
        assert(t.take(p3.len() as int) =~= p3);
    }
    lemma_field(t, p2, c, " au total"@);
    lemma_two_shorter(t, p2, c, " au total"@);
    lemma_field(t, p1, b, " répertoire(s), "@);
    lemma_two_shorter(t, p1, b, " répertoire(s), "@);
    assert(none + a + " fichier(s), "@ =~= p1);
    lemma_field(t, none, a, " fichier(s), "@);
    if over > 0 {
        let w = dec(over) + " écrasement(s)"@;
        let front = p3 + " — attention : "@;
        lemma_speaks(front, w, none);
        assert(front + w + none =~= t);
    }
    if p.skipped.len() > 0 {
        let w = dec(p.skipped.len());
        lemma_speaks(Seq::empty(), w, " fichier(s) spéciaux ignoré(s)"@);
        assert(Seq::empty() + w + " fichier(s) spéciaux ignoré(s)"@ =~= all[n + 1].text);
    }
    if p.excluded > 0 {
        let w = dec(p.excluded as nat);
        lemma_speaks(Seq::empty(), w, " élément(s) exclu(s)"@);
        assert(Seq::empty() + w + " élément(s) exclu(s)"@ =~= all.last().text);
    }
}

// ---------------------------------------------------------------------------
// JSON
// ---------------------------------------------------------------------------

/// An entry in JSON names what it does, from where and to where, and how many
/// bytes it copies.
pub proof fn entries_in_json_hold_their_fields(e: EntryView)
    ensures
        ({
            let t = entry_json(e);
            let word = match e {
                EntryView::File { .. } => "copy"@,
                EntryView::Symlink { .. } => "symlink"@,
                EntryView::Dir { .. } => "mkdir"@,
                EntryView::Fifo { .. } => "fifo"@,
                EntryView::Special { .. } => "special"@,
                EntryView::HardLink { .. } => "hardlink"@,
            };
            let size = match e {
                EntryView::File { size, .. } => size,
                _ => 0,
            };
            &&& speaks_of(t, "{\"action\":\""@ + word)
            &&& speaks_of(t, "\",\"src\":\""@ + escaped(shown(source_of(e))))
            &&& speaks_of(t, "\",\"dst\":\""@ + escaped(shown(destination_of(e))))
            &&& speaks_of(t, "\",\"size\":"@ + dec(size as nat) + "}"@)
        }),
{
    let t = entry_json(e);
    let none = Seq::<char>::empty();
    let a = "{\"action\":\""@ + crate::report::action_word(e);
    let b = "\",\"src\":\""@ + escaped(shown(source_of(e)));
    let c = "\",\"dst\":\""@ + escaped(shown(destination_of(e)));
    let d = "\",\"size\":"@ + dec(reported_size(e) as nat) + "}"@;
    lemma_speaks(none, a, b + c + d);
    assert(none + a + (b + c + d) =~= t);
    lemma_speaks(a, b, c + d);
    assert(a + b + (c + d) =~= t);
    lemma_speaks(a + b, c, d);
    assert(a + b + c + d =~= t);
    lemma_speaks(a + b + c, d, none);
    assert(a + b + c + d + none =~= t);
}

/// A summary in JSON holds every count under its own name.
pub proof fn summaries_in_json_hold_their_counts(p: PlanView, st: StatsView, duration: Seq<char>)
    ensures
        ({
            let t = summary_json(p, st, duration);
            &&& speaks_of(t, "{\"files_copied\":"@ + dec(st.files_copied as nat) + ",\"dirs_created\":"@)
            &&& speaks_of(t, ",\"dirs_created\":"@ + dec(st.dirs_created as nat) + ",\"bytes_copied\":"@)
            &&& speaks_of(t, ",\"bytes_copied\":"@ + dec(st.bytes_copied as nat) + ",\"already_present\":"@)
            &&& speaks_of(t, ",\"already_present\":"@ + dec(st.already_present as nat) + ",\"skipped\":"@)
            &&& speaks_of(t, ",\"skipped\":"@ + dec(st.skipped as nat) + ",\"excluded\":"@)
            &&& speaks_of(t, ",\"excluded\":"@ + dec(p.excluded as nat) + ",\"verified\":"@)
            &&& speaks_of(t, ",\"verified\":"@ + dec(st.verified as nat) + ",\"duration_secs\":"@)
            &&& speaks_of(t, ",\"duration_secs\":"@ + duration + ",\"warnings\":"@)
            &&& speaks_of(t, ",\"warnings\":"@ + json_array(st.warnings) + ",\"errors\":"@)
            &&& speaks_of(t, ",\"errors\":"@ + json_array(st.errors) + "}"@)
        }),
{
    let t = summary_json(p, st, duration);
    let p0 = "{\"files_copied\":"@ + dec(st.files_copied as nat);
    let p1 = p0 + ",\"dirs_created\":"@ + dec(st.dirs_created as nat);
    let p2 = p1 + ",\"bytes_copied\":"@ + dec(st.bytes_copied as nat);
    let p3 = p2 + ",\"already_present\":"@ + dec(st.already_present as nat);
    let p4 = p3 + ",\"skipped\":"@ + dec(st.skipped as nat);
    let p5 = p4 + ",\"excluded\":"@ + dec(p.excluded as nat);
    let p6 = p5 + ",\"verified\":"@ + dec(st.verified as nat);
    let p7 = p6 + ",\"duration_secs\":"@ + duration;
    let p8 = p7 + ",\"warnings\":"@ + json_array(st.warnings);
    let p9 = p8 + ",\"errors\":"@ + json_array(st.errors);
    assert(t == p9 + "}"@);
    assert(begins_with(t, t)) by {
        assert(t.take(t.len() as int) =~= t);
    }
    lemma_ended_field(t, p8, ",\"errors\":"@, json_array(st.errors), "}"@);
    lemma_shorter(t, p9, "}"@);
    lemma_shorter(t, p8 + ",\"errors\":"@, json_array(st.errors));
    lemma_ended_field(t, p7, ",\"warnings\":"@, json_array(st.warnings), ",\"errors\":"@);
    lemma_shorter(t, p8, ",\"errors\":"@);
    lemma_shorter(t, p7 + ",\"warnings\":"@, json_array(st.warnings));
    lemma_ended_field(t, p6, ",\"duration_secs\":"@, duration, ",\"warnings\":"@);
    lemma_shorter(t, p7, ",\"warnings\":"@);
    lemma_shorter(t, p6 + ",\"duration_secs\":"@, duration);
    lemma_ended_field(t, p5, ",\"verified\":"@, dec(st.verified as nat), ",\"duration_secs\":"@);
    lemma_shorter(t, p6, ",\"duration_secs\":"@);
    lemma_shorter(t, p5 + ",\"verified\":"@, dec(st.verified as nat));
    lemma_ended_field(t, p4, ",\"excluded\":"@, dec(p.excluded as nat), ",\"verified\":"@);
    lemma_shorter(t, p5, ",\"verified\":"@);
    lemma_shorter(t, p4 + ",\"excluded\":"@, dec(p.excluded as nat));
    lemma_ended_field(t, p3, ",\"skipped\":"@, dec(st.skipped as nat), ",\"excluded\":"@);
    lemma_shorter(t, p4, ",\"excluded\":"@);
    lemma_shorter(t, p3 + ",\"skipped\":"@, dec(st.skipped as nat));
    lemma_ended_field(t, p2, ",\"already_present\":"@, dec(st.already_present as nat), ",\"skipped\":"@);
    lemma_shorter(t, p3, ",\"skipped\":"@);
    lemma_shorter(t, p2 + ",\"already_present\":"@, dec(st.already_present as nat));
    lemma_ended_field(t, p1, ",\"bytes_copied\":"@, dec(st.bytes_copied as nat), ",\"already_present\":"@);
    lemma_shorter(t, p2, ",\"already_present\":"@);
    lemma_shorter(t, p1 + ",\"bytes_copied\":"@, dec(st.bytes_copied as nat));
    lemma_ended_field(t, p0, ",\"dirs_created\":"@, dec(st.dirs_created as nat), ",\"bytes_copied\":"@);
    lemma_shorter(t, p1, ",\"bytes_copied\":"@);
    lemma_shorter(t, p0 + ",\"dirs_created\":"@, dec(st.dirs_created as nat));
    lemma_whole_field(t, "{\"files_copied\":"@, dec(st.files_copied as nat), ",\"dirs_created\":"@);
}

/// The summary of a move in JSON holds every count under its own name.
pub proof fn move_summaries_in_json_hold_their_counts(st: MoveView, duration: Seq<char>)
    ensures
        ({
            let t = move_json(st, duration);
            &&& speaks_of(t, "{\"renamed\":"@ + dec(st.renamed as nat) + ",\"moved_across\":"@)
            &&& speaks_of(t, ",\"moved_across\":"@ + dec(st.moved_across as nat) + ",\"skipped\":"@)
            &&& speaks_of(t, ",\"skipped\":"@ + dec(st.skipped as nat) + ",\"files_copied\":"@)
            &&& speaks_of(t, ",\"files_copied\":"@ + dec(st.copy.files_copied as nat) + ",\"bytes_copied\":"@)
            &&& speaks_of(t, ",\"bytes_copied\":"@ + dec(st.copy.bytes_copied as nat) + ",\"verified\":"@)
            &&& speaks_of(t, ",\"verified\":"@ + dec(st.copy.verified as nat) + ",\"duration_secs\":"@)
            &&& speaks_of(t, ",\"duration_secs\":"@ + duration + ",\"errors\":"@)
            &&& speaks_of(t, ",\"errors\":"@ + json_array(st.errors) + "}"@)
        }),
{
    let t = move_json(st, duration);
    let p0 = "{\"renamed\":"@ + dec(st.renamed as nat);
    let p1 = p0 + ",\"moved_across\":"@ + dec(st.moved_across as nat);
    let p2 = p1 + ",\"skipped\":"@ + dec(st.skipped as nat);
    let p3 = p2 + ",\"files_copied\":"@ + dec(st.copy.files_copied as nat);
    let p4 = p3 + ",\"bytes_copied\":"@ + dec(st.copy.bytes_copied as nat);
    let p5 = p4 + ",\"verified\":"@ + dec(st.copy.verified as nat);
    let p6 = p5 + ",\"duration_secs\":"@ + duration;
    let p7 = p6 + ",\"errors\":"@ + json_array(st.errors);
    assert(t == p7 + "}"@);
    assert(begins_with(t, t)) by {
        assert(t.take(t.len() as int) =~= t);
    }
    lemma_ended_field(t, p6, ",\"errors\":"@, json_array(st.errors), "}"@);
    lemma_shorter(t, p7, "}"@);
    lemma_shorter(t, p6 + ",\"errors\":"@, json_array(st.errors));
    lemma_ended_field(t, p5, ",\"duration_secs\":"@, duration, ",\"errors\":"@);
    lemma_shorter(t, p6, ",\"errors\":"@);
    lemma_shorter(t, p5 + ",\"duration_secs\":"@, duration);
    lemma_ended_field(t, p4, ",\"verified\":"@, dec(st.copy.verified as nat), ",\"duration_secs\":"@);
    lemma_shorter(t, p5, ",\"duration_secs\":"@);
    lemma_shorter(t, p4 + ",\"verified\":"@, dec(st.copy.verified as nat));
    lemma_ended_field(t, p3, ",\"bytes_copied\":"@, dec(st.copy.bytes_copied as nat), ",\"verified\":"@);
    lemma_shorter(t, p4, ",\"verified\":"@);
    lemma_shorter(t, p3 + ",\"bytes_copied\":"@, dec(st.copy.bytes_copied as nat));
    lemma_ended_field(t, p2, ",\"files_copied\":"@, dec(st.copy.files_copied as nat), ",\"bytes_copied\":"@);
    lemma_shorter(t, p3, ",\"bytes_copied\":"@);
    lemma_shorter(t, p2 + ",\"files_copied\":"@, dec(st.copy.files_copied as nat));
    lemma_ended_field(t, p1, ",\"skipped\":"@, dec(st.skipped as nat), ",\"files_copied\":"@);
    lemma_shorter(t, p2, ",\"files_copied\":"@);
    lemma_shorter(t, p1 + ",\"skipped\":"@, dec(st.skipped as nat));
    lemma_ended_field(t, p0, ",\"moved_across\":"@, dec(st.moved_across as nat), ",\"skipped\":"@);
    lemma_shorter(t, p1, ",\"skipped\":"@);
    lemma_shorter(t, p0 + ",\"moved_across\":"@, dec(st.moved_across as nat));
    lemma_whole_field(t, "{\"renamed\":"@, dec(st.renamed as nat), ",\"moved_across\":"@);
}

/// A plan in JSON holds its totals, and each entry.
pub proof fn plans_in_json_hold_their_totals(p: PlanView, i: int)
    ensures
        ({
            let t = plan_json(p);
            &&& speaks_of(
                t,
                "],\"total_bytes\":"@ + dec(p.total_bytes as nat) + ",\"file_count\":"@,
            )
            &&& speaks_of(t, ",\"file_count\":"@ + dec(p.file_count as nat) + ",\"excluded\":"@)
            &&& speaks_of(t, ",\"excluded\":"@ + dec(p.excluded as nat) + "}"@)
            &&& 0 <= i < p.entries.len() ==> speaks_of(t, entry_json(p.entries[i]))
        }),
{
    let t = plan_json(p);
    let es = crate::report::entries_json(p.entries);
    let p0 = "{\"entries\":["@ + es;
    let a = dec(p.total_bytes as nat);
    let b = dec(p.file_count as nat);
    let c = dec(p.excluded as nat);
    let p1 = p0 + "],\"total_bytes\":"@ + a;
    let p2 = p1 + ",\"file_count\":"@ + b;
    let p3 = p2 + ",\"excluded\":"@ + c;
    assert(t == p3 + "}"@);
    assert(begins_with(t, t)) by {
        assert(t.take(t.len() as int) =~= t);
    }
    lemma_ended_field(t, p2, ",\"excluded\":"@, c, "}"@);
    lemma_shorter(t, p3, "}"@);
    lemma_shorter(t, p2 + ",\"excluded\":"@, c);
    lemma_ended_field(t, p1, ",\"file_count\":"@, b, ",\"excluded\":"@);
    lemma_shorter(t, p2, ",\"excluded\":"@);
    lemma_shorter(t, p1 + ",\"file_count\":"@, b);
    lemma_ended_field(t, p0, "],\"total_bytes\":"@, a, ",\"file_count\":"@);
    lemma_shorter(t, p1, ",\"file_count\":"@);
    lemma_shorter(t, p0 + "],\"total_bytes\":"@, a);
    lemma_shorter(t, p0, "],\"total_bytes\":"@);
    if 0 <= i < p.entries.len() {
        lemma_entry_there(p.entries, i);
        lemma_within(t, "{\"entries\":["@, es, entry_json(p.entries[i]));
    }
}

proof fn lemma_within(t: Seq<char>, front: Seq<char>, es: Seq<char>, e: Seq<char>)
    requires
        begins_with(t, front + es),
        speaks_of(es, e),
    ensures
        speaks_of(t, e),
{
    reveal(speaks_of);
    let k = choose|k: int|
        0 <= k <= es.len() - e.len() && #[trigger] es.subrange(k, k + e.len()) == e;
    let n = front.len() as int;
    assert(t.subrange(n + k, n + k + e.len()) =~= e) by {
        assert forall|j: int| 0 <= j < e.len() implies t[n + k + j] == e[j] by {
            assert(t.take((front + es).len() as int)[n + k + j] == (front + es)[n + k + j]);
            assert(es.subrange(k, k + e.len())[j] == e[j]);
        }
    }
}

proof fn lemma_entry_there(es: Seq<EntryView>, i: int)
    requires
        0 <= i < es.len(),
    ensures
        speaks_of(crate::report::entries_json(es), entry_json(es[i])),
    decreases es.len(),
{
    let all = crate::report::entries_json(es);
    let none = Seq::<char>::empty();
    let e = entry_json(es[i]);
    if es.len() == 1 {
        lemma_speaks(none, e, none);
        assert(none + e + none =~= all);
    } else if i == es.len() - 1 {
        let front = crate::report::entries_json(es.drop_last()) + ","@;
        lemma_speaks(front, e, none);
        assert(front + e + none =~= all);
    } else {
        let before = crate::report::entries_json(es.drop_last());
        lemma_entry_there(es.drop_last(), i);
        assert(all == before + ","@ + entry_json(es.last()));
        assert(begins_with(all, none + before)) by {
            assert(none + before =~= before);
            assert(all.take(before.len() as int) =~= before);
        }
        lemma_within(all, none, before, e);
    }
}

// ---------------------------------------------------------------------------
// The last line
// ---------------------------------------------------------------------------

/// A count that is not zero is told with its word; one that is zero is not.
pub proof fn counts_are_told_when_there_are_any(s: Seq<char>, n: nat, word: Seq<char>)
    ensures
        n == 0 ==> and_count(s, n, word) == s,
        n > 0 ==> speaks_of(and_count(s, n, word), dec(n) + word),
        speaks_of(and_count(s, n, word), s),
        and_count(s, n, word).take(s.len() as int) == s,
{
    let t = and_count(s, n, word);
    let none = Seq::<char>::empty();
    if n > 0 {
        lemma_speaks(s + ", "@, dec(n) + word, none);
        assert(s + ", "@ + (dec(n) + word) + none =~= t);
        lemma_speaks(none, s, ", "@ + dec(n) + word);
        assert(none + s + (", "@ + dec(n) + word) =~= t);
    } else {
        lemma_speaks(none, s, none);
        assert(none + s + none =~= s);
    }
    assert(t.take(s.len() as int) =~= s);
}

/// The first file is a file, and none is before it.
pub proof fn the_first_file_is_found(es: Seq<EntryView>)
    ensures
        match first_file(es) {
            Some(i) => 0 <= i < es.len() && es[i] is File && forall|k: int|
                0 <= k < i ==> !(#[trigger] es[k] is File),
            None => forall|k: int| 0 <= k < es.len() ==> !(#[trigger] es[k] is File),
        },
    decreases es.len(),
{
    if es.len() > 0 {
        the_first_file_is_found(es.drop_last());
        assert forall|k: int| 0 <= k < es.len() - 1 implies es.drop_last()[k] == #[trigger] es[k] by {}
    }
}

/// A single file that was copied without further ado is named, with its place
/// and its size; in every other case the totals are told.
pub proof fn single_files_are_named(p: PlanView, st: StatsView, d: Elapsed, speed: Option<u64>)
    ensures
        ({
            let single = p.file_count == 1 && st.errors.len() == 0 && st.already_present == 0
                && st.skipped == 0;
            let t = summary_of(p, st, d, speed);
            &&& single ==> match first_file(p.entries) {
                Some(i) => {
                    &&& t is Some
                    &&& speaks_of(t.unwrap(), shown(source_of(p.entries[i])))
                    &&& speaks_of(t.unwrap(), shown(destination_of(p.entries[i])))
                },
                None => t is None,
            }
            &&& !single ==> t is Some && speaks_of(
                t.unwrap(),
                dec((st.files_copied + st.dirs_created) as nat) + " élément(s) copié(s)"@,
            )
        }),
{
    let single = p.file_count == 1 && st.errors.len() == 0 && st.already_present == 0 && st.skipped
        == 0;
    if single {
        if let Some(i) = first_file(p.entries) {
            let e = p.entries[i];
            let (a, b) = (shown(source_of(e)), shown(destination_of(e)));
            let tail = " ("@ + human_size(reported_size(e)) + ")"@;
            let t = summary_of(p, st, d, speed).unwrap();
            lemma_speaks("Copied "@, a, " → "@ + b + tail);
            assert("Copied "@ + a + (" → "@ + b + tail) =~= t);
            lemma_speaks("Copied "@ + a + " → "@, b, tail);
            assert("Copied "@ + a + " → "@ + b + tail =~= t);
        }
    } else {
        lemma_totals(p, st, d, speed);
    }
}

proof fn lemma_grows(t: Seq<char>, part: Seq<char>, n: nat, word: Seq<char>)
    requires
        speaks_of(t, part),
    ensures
        speaks_of(and_count(t, n, word), part),
{
    reveal(speaks_of);
    let k = choose|k: int| 0 <= k <= t.len() - part.len() && #[trigger] t.subrange(k, k + part.len()) == part;
    let u = and_count(t, n, word);
    assert(u.subrange(k, k + part.len()) =~= part);
}

proof fn lemma_totals(p: PlanView, st: StatsView, d: Elapsed, speed: Option<u64>)
    ensures
        speaks_of(
            totals_of(p, st, d, speed),
            dec((st.files_copied + st.dirs_created) as nat) + " élément(s) copié(s)"@,
        ),
{
    let part = dec((st.files_copied + st.dirs_created) as nat) + " élément(s) copié(s)"@;
    let rest = human_size(st.bytes_copied as u64) + ") en "@ + duration_text(d) + " — "@
        + crate::report::speed_text(speed);
    let s0 = dec((st.files_copied + st.dirs_created) as nat) + " élément(s) copié(s) ("@
        + human_size(st.bytes_copied as u64) + ") en "@ + duration_text(d) + " — "@
        + crate::report::speed_text(speed);
    let none = Seq::<char>::empty();
    reveal_strlit(" élément(s) copié(s)");
    reveal_strlit(" élément(s) copié(s) (");
    reveal_strlit(" (");
    lemma_speaks(none, part, " ("@ + rest);
    assert(none + part + (" ("@ + rest) =~= s0);
    let s1 = and_count(s0, st.already_present as nat, " déjà présent(s)"@);
    let s2 = and_count(s1, st.skipped as nat, " ignoré(s)"@);
    let s3 = and_count(s2, p.excluded as nat, " exclu(s)"@);
    let s4 = and_count(s3, st.verified as nat, " vérifié(s)"@);
    let s5 = and_count(s4, st.warnings.len(), " avertissement(s)"@);
    lemma_grows(s0, part, st.already_present as nat, " déjà présent(s)"@);
    lemma_grows(s1, part, st.skipped as nat, " ignoré(s)"@);
    lemma_grows(s2, part, p.excluded as nat, " exclu(s)"@);
    lemma_grows(s3, part, st.verified as nat, " vérifié(s)"@);
    lemma_grows(s4, part, st.warnings.len(), " avertissement(s)"@);
    lemma_grows(s5, part, st.errors.len(), " erreur(s)"@);
}

/// The totals of a copy tell every count that is not zero.
pub proof fn totals_tell_every_count(p: PlanView, st: StatsView, d: Elapsed, speed: Option<u64>)
    ensures
        ({
            let t = totals_of(p, st, d, speed);
            &&& st.already_present > 0 ==> speaks_of(
                t,
                dec(st.already_present as nat) + " déjà présent(s)"@,
            )
            &&& st.skipped > 0 ==> speaks_of(t, dec(st.skipped as nat) + " ignoré(s)"@)
            &&& p.excluded > 0 ==> speaks_of(t, dec(p.excluded as nat) + " exclu(s)"@)
            &&& st.verified > 0 ==> speaks_of(t, dec(st.verified as nat) + " vérifié(s)"@)
            &&& st.warnings.len() > 0 ==> speaks_of(
                t,
                dec(st.warnings.len()) + " avertissement(s)"@,
            )
            &&& st.errors.len() > 0 ==> speaks_of(t, dec(st.errors.len()) + " erreur(s)"@)
        }),
{
    let s0 = dec((st.files_copied + st.dirs_created) as nat) + " élément(s) copié(s) ("@
        + human_size(st.bytes_copied as u64) + ") en "@ + duration_text(d) + " — "@
        + crate::report::speed_text(speed);
    let (na, nb, nc) = (st.already_present as nat, st.skipped as nat, p.excluded as nat);
    let (nd, ne, nf) = (st.verified as nat, st.warnings.len(), st.errors.len());
    let (wa, wb, wc) = (" déjà présent(s)"@, " ignoré(s)"@, " exclu(s)"@);
    let (wd, we, wf) = (" vérifié(s)"@, " avertissement(s)"@, " erreur(s)"@);
    let s1 = and_count(s0, na, wa);
    let s2 = and_count(s1, nb, wb);
    let s3 = and_count(s2, nc, wc);
    let s4 = and_count(s3, nd, wd);
    let s5 = and_count(s4, ne, we);
    let s6 = and_count(s5, nf, wf);
    assert(totals_of(p, st, d, speed) == s6);
    counts_are_told_when_there_are_any(s0, na, wa);
    counts_are_told_when_there_are_any(s1, nb, wb);
    counts_are_told_when_there_are_any(s2, nc, wc);
    counts_are_told_when_there_are_any(s3, nd, wd);
    counts_are_told_when_there_are_any(s4, ne, we);
    counts_are_told_when_there_are_any(s5, nf, wf);
    if na > 0 {
        lemma_grows(s1, dec(na) + wa, nb, wb);
        lemma_grows(s2, dec(na) + wa, nc, wc);
        lemma_grows(s3, dec(na) + wa, nd, wd);
        lemma_grows(s4, dec(na) + wa, ne, we);
        lemma_grows(s5, dec(na) + wa, nf, wf);
    }
    if nb > 0 {
        lemma_grows(s2, dec(nb) + wb, nc, wc);
        lemma_grows(s3, dec(nb) + wb, nd, wd);
        lemma_grows(s4, dec(nb) + wb, ne, we);
        lemma_grows(s5, dec(nb) + wb, nf, wf);
    }
    if nc > 0 {
        lemma_grows(s3, dec(nc) + wc, nd, wd);
        lemma_grows(s4, dec(nc) + wc, ne, we);
        lemma_grows(s5, dec(nc) + wc, nf, wf);
    }
    if nd > 0 {
        lemma_grows(s4, dec(nd) + wd, ne, we);
        lemma_grows(s5, dec(nd) + wd, nf, wf);
    }
    if ne > 0 {
        lemma_grows(s5, dec(ne) + we, nf, wf);
    }
}

/// The last line of a move is a success exactly when there was no error, and
/// tells how many sources were renamed, moved across, skipped or met an error.
pub proof fn move_lines_tell_every_count(st: MoveView, d: Elapsed)
    ensures
        ({
            let l = move_line(st, d);
            &&& l.style == Style::Success <==> st.errors.len() == 0
            &&& st.renamed > 0 ==> speaks_of(l.text, dec(st.renamed as nat) + " renommé(s)"@)
            &&& st.moved_across > 0 ==> speaks_of(
                l.text,
                dec(st.moved_across as nat) + " déplacé(s) cross-device ("@,
            )
            &&& st.skipped > 0 ==> speaks_of(l.text, dec(st.skipped as nat) + " ignoré(s)"@)
            &&& st.copy.verified > 0 ==> speaks_of(
                l.text,
                dec(st.copy.verified as nat) + " vérifié(s)"@,
            )
            &&& st.errors.len() > 0 ==> speaks_of(l.text, dec(st.errors.len()) + " erreur(s)"@)
        }),
{
    let none = Seq::<char>::empty();
    let parts = moved_parts(st);
    let end = " en "@ + duration_text(d);
    let s0 = parts + " en "@ + duration_text(d);
    assert(s0 =~= parts + end);
    let (na, nb, nc) = (st.skipped as nat, st.copy.verified as nat, st.errors.len());
    let (wa, wb, wc) = (" ignoré(s)"@, " vérifié(s)"@, " erreur(s)"@);
    let s1 = and_count(s0, na, wa);
    let s2 = and_count(s1, nb, wb);
    counts_are_told_when_there_are_any(s0, na, wa);
    counts_are_told_when_there_are_any(s1, nb, wb);
    counts_are_told_when_there_are_any(s2, nc, wc);
    if na > 0 {
        lemma_grows(s1, dec(na) + wa, nb, wb);
        lemma_grows(s2, dec(na) + wa, nc, wc);
    }
    if nb > 0 {
        lemma_grows(s2, dec(nb) + wb, nc, wc);
    }
    lemma_moved_parts(st, end);
    let r = dec(st.renamed as nat) + " renommé(s)"@;
    let m = dec(st.moved_across as nat) + " déplacé(s) cross-device ("@;
    if st.renamed > 0 {
        lemma_grows(s0, r, na, wa);
        lemma_grows(s1, r, nb, wb);
        lemma_grows(s2, r, nc, wc);
    }
    if st.moved_across > 0 {
        lemma_grows(s0, m, na, wa);
        lemma_grows(s1, m, nb, wb);
        lemma_grows(s2, m, nc, wc);
    }
}

proof fn lemma_moved_parts(st: MoveView, end: Seq<char>)
    ensures
        st.renamed > 0 ==> speaks_of(
            moved_parts(st) + end,
            dec(st.renamed as nat) + " renommé(s)"@,
        ),
        st.moved_across > 0 ==> speaks_of(
            moved_parts(st) + end,
            dec(st.moved_across as nat) + " déplacé(s) cross-device ("@,
        ),
{
    let none = Seq::<char>::empty();
    let text = moved_parts(st) + end;
    let r = dec(st.renamed as nat) + " renommé(s)"@;
    let m = dec(st.moved_across as nat) + " déplacé(s) cross-device ("@;
    let tail = human_size(st.copy.bytes_copied as u64) + ")"@;
    assert(moved_parts(st) =~= if st.renamed > 0 && st.moved_across > 0 {
        r + ", "@ + (m + tail)
    } else if st.renamed > 0 {
        r
    } else if st.moved_across > 0 {
        m + tail
    } else {
        moved_parts(st)
    });
    if st.renamed > 0 {
        let behind = if st.moved_across > 0 {
            ", "@ + (m + tail) + end
        } else {
            end
        };
        lemma_speaks(none, r, behind);
        assert(none + r + behind =~= text);
    }
    if st.moved_across > 0 {
        let front = if st.renamed > 0 {
            r + ", "@
        } else {
            none
        };
        lemma_speaks(front, m, tail + end);
        assert(front + m + (tail + end) =~= text);
    }
}

/// The error of a run that was refused, found a directory in its way or failed
/// speaks of the destination, and of what the system said.
pub proof fn errors_of_runs_speak_of_the_destination(
    st: StatsView,
    e: EntryView,
    job: Job,
    o: Outcome,
    bytes: u64,
    cause: Seq<char>,
)
    requires
        o is Refused || o is DirectoryInTheWay || o is Failed,
    ensures
        ({
            let text = run_counted(st, e, job, o, bytes, cause).errors.last();
            &&& speaks_of(text, shown(destination_of(e)))
            &&& o matches Outcome::Failed(why) ==> (why is Broken || why is Backup || why
                is Attributes ==> speaks_of(text, cause))
        }),
{
    let text = run_counted(st, e, job, o, bytes, cause).errors.last();
    let d = shown(destination_of(e));
    let dst = destination_of(e);
    let s = shown(source_of(e));
    let q = "'"@;
    let none = Seq::<char>::empty();
    match o {
        Outcome::Refused => {
            lemma_speaks("non remplacé : "@ + q, d, q);
            assert("non remplacé : "@ + q + d + q =~= text);
        },
        Outcome::DirectoryInTheWay => {
            let f = "impossible d'écraser le répertoire "@ + q;
            let b = if e is HardLink {
                q + " par un lien dur"@
            } else {
                q + " par un fichier"@
            };
            lemma_speaks(f, d, b);
            assert(f + d + b =~= text);
        },
        Outcome::Failed(why) => {
            if e is Dir {
                let f = "impossible de préserver les attributs de "@ + q;
                lemma_speaks(f, d, q + " : "@ + cause);
                assert(f + d + (q + " : "@ + cause) =~= text);
                lemma_speaks(f + d + (q + " : "@), cause, none);
                assert(f + d + (q + " : "@) + cause + none =~= text);
            } else {
                let w = crate::copy::why_text(why, dst, cause);
                lemma_speaks(s + " -> "@, d, " : "@ + w);
                assert(s + " -> "@ + d + (" : "@ + w) =~= text);
                let f = s + " -> "@ + d + " : "@;
                if why is Attributes {
                    let g = f + "impossible de préserver les attributs : "@;
                    lemma_speaks(g, cause, none);
                    assert(g + cause + none =~= text);
                } else if why is Broken || why is Backup {
                    lemma_speaks(f, cause, none);
                    assert(f + cause + none =~= text);
                }
            }
        },
        _ => {},
    }
}

/// What is said at the end, of errors and of missing room holds the numbers that
/// it is about.
pub proof fn complaints_hold_their_numbers(
    n: nat,
    doing: Seq<char>,
    total: u64,
    available: u64,
    probe: Seq<u8>,
)
    ensures
        begins_with(errors_text(n, doing), dec(n)),
        speaks_of(errors_text(n, doing), doing),
        names_in_turn(no_room(total, available, probe), human_size(total), human_size(available)),
        speaks_of(no_room(total, available, probe), shown(probe)),
        speaks_of(error_json(doing), escaped(doing)),
{
    let none = Seq::<char>::empty();
    let e = errors_text(n, doing);
    assert(e.take(dec(n).len() as int) =~= dec(n));
    lemma_speaks(dec(n) + " erreur(s) pendant "@, doing, none);
    assert(dec(n) + " erreur(s) pendant "@ + doing + none =~= e);
    let (a, b, p) = (human_size(total), human_size(available), shown(probe));
    let q = "'"@;
    let f = "espace disque insuffisant : "@;
    let m = " requis mais seulement "@;
    let r = " disponibles sur "@;
    let t = no_room(total, available, probe);
    lemma_in_turn(f, a, m, b, r + (q + p + q));
    assert(f + a + m + b + (r + (q + p + q)) =~= t);
    lemma_speaks(f + a + m + b + r + q, p, q);
    assert(f + a + m + b + r + q + p + q =~= t);
    lemma_speaks("{\"error\":\""@, escaped(doing), "\"}"@);
}

/// Values in an array stand one behind the other, with commas between.
pub proof fn values_are_joined_by_commas(list: Seq<Seq<char>>, x: Seq<char>)
    ensures
        comma_joined(Seq::<Seq<char>>::empty()) == Seq::<char>::empty(),
        list.len() == 0 ==> comma_joined(list.push(x)) == x,
        list.len() > 0 ==> comma_joined(list.push(x)) == comma_joined(list) + seq![','] + x,
{
    reveal_strlit(",");
    assert(","@ =~= seq![',']);
    assert(list.push(x).drop_last() =~= list);
}

// ---------------------------------------------------------------------------
// Messages
// ---------------------------------------------------------------------------

/// `text` names `a`, and `b` behind it.
#[verifier::opaque]
pub open spec fn names_in_turn(text: Seq<char>, a: Seq<char>, b: Seq<char>) -> bool {
    exists|i: int, j: int|
        0 <= i && i + a.len() <= j && j + b.len() <= text.len() && #[trigger] text.subrange(
            i,
            i + a.len(),
        ) == a && #[trigger] text.subrange(j, j + b.len()) == b
}

proof fn lemma_in_turn(
    front: Seq<char>,
    a: Seq<char>,
    between: Seq<char>,
    b: Seq<char>,
    behind: Seq<char>,
)
    ensures
        names_in_turn(front + a + between + b + behind, a, b),
{
    reveal(names_in_turn);
    let text = front + a + between + b + behind;
    let i = front.len() as int;
    let j = i + a.len() + between.len();
    assert(text.subrange(i, i + a.len()) =~= a);
    assert(text.subrange(j, j + b.len()) =~= b);
}

/// What is said about a source and its destination names both, the source
/// first.
pub proof fn messages_name_source_and_destination(p: Seq<u8>, d: Seq<u8>, more: Seq<char>)
    ensures
        names_in_turn(same_file(p, d), shown(p), shown(d)),
        names_in_turn(inside_itself(p, d), shown(p), shown(d)),
        names_in_turn(not_copied(p, d, more), shown(p), shown(d)),
        names_in_turn(copied_note(p, d, more), shown(p), shown(d)),
        names_in_turn(linked_note(p, d), shown(p), shown(d)),
{
    let (a, b) = (shown(p), shown(d));
    let q = "'"@;
    let none = Seq::<char>::empty();
    lemma_in_turn(q, a, q + " et "@ + q, b, q + " sont le même fichier"@);
    assert(q + a + (q + " et "@ + q) + b + (q + " sont le même fichier"@) =~= same_file(p, d));
    let w = q + " dans un de ses sous-répertoires ("@ + q;
    lemma_in_turn("impossible de copier "@ + q, a, w, b, q + ")"@);
    assert("impossible de copier "@ + q + a + w + b + (q + ")"@) =~= inside_itself(p, d));
    lemma_in_turn(none, a, " -> "@, b, " : "@ + more);
    assert(none + a + " -> "@ + b + (" : "@ + more) =~= not_copied(p, d, more));
    lemma_in_turn(none, a, " -> "@, b, " ("@ + more + ")"@);
    assert(none + a + " -> "@ + b + (" ("@ + more + ")"@) =~= copied_note(p, d, more));
    lemma_in_turn(none, a, " == "@, b, " (lien dur)"@);
    assert(none + a + " == "@ + b + " (lien dur)"@ =~= linked_note(p, d));
}

/// What is said about a path names it, and what the system said follows.
pub proof fn messages_name_paths_and_causes(p: Seq<u8>, cause: Seq<char>)
    ensures
        names_in_turn(cannot_access_because(p, cause), shown(p), cause),
        names_in_turn(trouble_with(p, cause), shown(p), cause),
        names_in_turn(not_saved(p, cause), shown(p), cause),
        names_in_turn(directory_attributes_lost(p, cause), shown(p), cause),
        names_in_turn(source_not_removed(p, cause), shown(p), cause),
        speaks_of(needs_recursive(p), shown(p)),
        speaks_of(special_file(p), shown(p)),
        speaks_of(dangling_link(p), shown(p)),
        speaks_of(not_replaced(p), shown(p)),
        speaks_of(overwrite_question(p), shown(p)),
        speaks_of(source_kept(p), shown(p)),
        speaks_of(source_incomplete(p), shown(p)),
        speaks_of(walk_error(cause), cause),
{
    let a = shown(p);
    let q = "'"@;
    let none = Seq::<char>::empty();
    let f = "impossible d'accéder à "@ + q;
    lemma_in_turn(f, a, q + ": "@, cause, none);
    assert(f + a + (q + ": "@) + cause + none =~= cannot_access_because(p, cause));
    lemma_in_turn(none, a, " : "@, cause, none);
    assert(none + a + " : "@ + cause + none =~= trouble_with(p, cause));
    let f = "sauvegarde de "@ + q;
    lemma_in_turn(f, a, q + " : "@, cause, none);
    assert(f + a + (q + " : "@) + cause + none =~= not_saved(p, cause));
    let f = "impossible de préserver les attributs de "@ + q;
    lemma_in_turn(f, a, q + " : "@, cause, none);
    assert(f + a + (q + " : "@) + cause + none =~= directory_attributes_lost(p, cause));
    let f = "copie réussie mais impossible de supprimer la source "@ + q;
    lemma_in_turn(f, a, q + " : "@, cause, none);
    assert(f + a + (q + " : "@) + cause + none =~= source_not_removed(p, cause));
    let f = "-r non spécifié ; omission du répertoire "@ + q;
    lemma_speaks(f, a, q);
    assert(f + a + q =~= needs_recursive(p));
    let b = q + " est un fichier spécial, copie non supportée"@;
    lemma_speaks(q, a, b);
    assert(q + a + b =~= special_file(p));
    let f = "pas d'écriture à travers le lien symbolique rompu "@ + q;
    lemma_speaks(f, a, q);
    assert(f + a + q =~= dangling_link(p));
    let f = "non remplacé : "@ + q;
    lemma_speaks(f, a, q);
    assert(f + a + q =~= not_replaced(p));
    let f = "wcp : écraser "@ + q;
    let b = q + " ? "@;
    lemma_speaks(f, a, b);
    assert(f + a + b =~= overwrite_question(p));
    let b = q + " conservée suite aux erreurs de copie"@;
    lemma_speaks(q, a, b);
    assert(q + a + b =~= source_kept(p));
    let b = q + " conservée : la copie n'est pas complète"@;
    lemma_speaks(q, a, b);
    assert(q + a + b =~= source_incomplete(p));
    lemma_speaks("erreur lors du parcours : "@, cause, none);
    assert("erreur lors du parcours : "@ + cause + none =~= walk_error(cause));
}

/// A move that is only looked at is told with its source, its destination and,
/// for a copy, how much there is to copy.
pub proof fn planned_moves_are_told(src: Seq<u8>, dst: Seq<u8>, a: PlannedAction)
    ensures
        names_in_turn(planned_text(src, dst, a), shown(src), shown(dst)),
        names_in_turn(planned_json(src, dst, a), escaped(shown(src)), escaped(shown(dst))),
        a matches PlannedAction::CopyThenDelete { bytes, files } ==> names_in_turn(
            planned_text(src, dst, a),
            dec(files as nat),
            human_size(bytes),
        ),
{
    let (s, d) = (shown(src), shown(dst));
    let verb = match a {
        PlannedAction::Rename => "renommer     "@,
        PlannedAction::CopyThenDelete { .. } => "copier+suppr "@,
    };
    let detail = crate::report::action_texts(a).1;
    lemma_in_turn(verb, s, " -> "@, d, " ("@ + detail + ")"@);
    assert(verb + s + " -> "@ + d + (" ("@ + detail + ")"@) =~= planned_text(src, dst, a));
    let f = "{\"action\":\""@ + crate::report::action_texts(a).0 + "\",\"src\":\""@;
    let b = "\",\"detail\":\""@ + escaped(detail) + "\"}"@;
    lemma_in_turn(f, escaped(s), "\",\"dst\":\""@, escaped(d), b);
    assert(f + escaped(s) + "\",\"dst\":\""@ + escaped(d) + b =~= planned_json(src, dst, a));
    if let PlannedAction::CopyThenDelete { bytes, files } = a {
        let front = verb + s + " -> "@ + d + " ("@ + "cross-device, "@;
        lemma_in_turn(front, dec(files as nat), " fichier(s), "@, human_size(bytes), ")"@);
        assert(front + dec(files as nat) + " fichier(s), "@ + human_size(bytes) + ")"@
            =~= planned_text(src, dst, a));
    }
}

} // verus!
