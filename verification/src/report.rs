//! What is printed before and after a copy or a move.

use vstd::prelude::*;
use vstd::string::*;

use crate::copy::{destination_of, source_of};
use crate::engine::{
    complete_file, is_known_newer, is_up_to_date, known_newer, would_overwrite, Facts, Stamp,
};
use crate::mvops::{MoveStats, MoveView, PlannedAction};
use crate::options::{BackupControl, Overwrite};
use crate::path::RawPath;
use crate::plan::{CopyPlan, EntryView, PlanEntry, PlanView};
use crate::stats::{CopyStats, StatsView};
use crate::text::{append_dec, dec, display, human_size, shown, size_text, texts};
use crate::utils::{
    duration_text, escaped, format_duration, json_array, json_escape, json_string_array, Elapsed,
};

verus! {

// ---------------------------------------------------------------------------
// JSON
// ---------------------------------------------------------------------------

/// What an entry does, in a word.
pub open spec fn action_word(e: EntryView) -> Seq<char> {
    match e {
        EntryView::File { .. } => "copy"@,
        EntryView::Symlink { .. } => "symlink"@,
        EntryView::Dir { .. } => "mkdir"@,
        EntryView::Fifo { .. } => "fifo"@,
        EntryView::Special { .. } => "special"@,
        EntryView::HardLink { .. } => "hardlink"@,
    }
}

/// The size that is reported of an entry.
pub open spec fn reported_size(e: EntryView) -> u64 {
    match e {
        EntryView::File { size, .. } => size,
        _ => 0,
    }
}

/// An entry as a JSON object.
pub open spec fn entry_json(e: EntryView) -> Seq<char> {
    "{\"action\":\""@ + action_word(e) + "\",\"src\":\""@ + escaped(shown(source_of(e)))
        + "\",\"dst\":\""@ + escaped(shown(destination_of(e))) + "\",\"size\":"@ + dec(
        reported_size(e) as nat,
    ) + "}"@
}

/// Entries as JSON objects, with a comma between each two.
pub open spec fn entries_json(es: Seq<EntryView>) -> Seq<char>
    decreases es.len(),
{
    if es.len() == 0 {
        Seq::empty()
    } else if es.len() == 1 {
        entry_json(es[0])
    } else {
        entries_json(es.drop_last()) + ","@ + entry_json(es.last())
    }
}

/// A plan as a JSON object.
pub open spec fn plan_json(p: PlanView) -> Seq<char> {
    "{\"entries\":["@ + entries_json(p.entries) + "],\"total_bytes\":"@ + dec(p.total_bytes as nat)
        + ",\"file_count\":"@ + dec(p.file_count as nat) + ",\"excluded\":"@ + dec(
        p.excluded as nat,
    ) + "}"@
}

/// Appends a path as it stands in a JSON string.
fn append_path(s: &mut String, p: &RawPath)
    ensures
        final(s)@ == old(s)@ + escaped(shown(p@)),
{
    let t: String = display(p);
    let e: String = json_escape(t.as_str());
    s.append(e.as_str());
}

fn entry_to_json(entry: &PlanEntry) -> (r: String)
    ensures
        r@ == entry_json(entry@),
{
    let mut s: String = "{\"action\":\"".to_owned();
    match entry {
        PlanEntry::File { .. } => s.append("copy"),
        PlanEntry::Symlink { .. } => s.append("symlink"),
        PlanEntry::Dir { .. } => s.append("mkdir"),
        PlanEntry::Fifo { .. } => s.append("fifo"),
        PlanEntry::Special { .. } => s.append("special"),
        PlanEntry::HardLink { .. } => s.append("hardlink"),
    }
    let size: u64 = match entry {
        PlanEntry::File { size, .. } => *size,
        _ => 0,
    };
    s.append("\",\"src\":\"");
    append_path(&mut s, entry.source());
    s.append("\",\"dst\":\"");
    append_path(&mut s, entry.destination());
    s.append("\",\"size\":");
    append_dec(&mut s, size);
    s.append("}");
    s
}

/// A plan as a JSON object.
pub fn json_plan(plan: &CopyPlan) -> (r: String)
    ensures
        r@ == plan_json(plan@),
{
    let ghost es = plan@.entries;
    let mut list: String = String::new();
    let mut i: usize = 0;
    assert(es.take(0) =~= Seq::empty());
    assert(list@ =~= entries_json(es.take(0)));
    while i < plan.entries.len()
        invariant
            i <= plan.entries@.len(),
            es == plan@.entries,
            list@ == entries_json(es.take(i as int)),
        decreases plan.entries@.len() - i,
    {
        proof {
            assert(es.take(i + 1).drop_last() =~= es.take(i as int));
            assert(es.take(i + 1).last() == plan.entries@[i as int]@);
        }
        if i > 0 {
            list.append(",");
        }
        let e: String = entry_to_json(&plan.entries[i]);
        list.append(e.as_str());
        proof {
            if i == 0 {
                assert(list@ =~= e@);
                assert(es.take(i + 1)[0] == plan.entries@[0]@);
            }
        }
        i = i + 1;
    }
    assert(es.take(i as int) =~= es);
    let mut s: String = "{\"entries\":[".to_owned();
    s.append(list.as_str());
    s.append("],\"total_bytes\":");
    append_dec(&mut s, plan.total_bytes);
    s.append(",\"file_count\":");
    append_dec(&mut s, plan.file_count as u64);
    s.append(",\"excluded\":");
    append_dec(&mut s, plan.excluded as u64);
    s.append("}");
    s
}

/// What a copy came to, as a JSON object; `duration` is the time in seconds.
pub open spec fn summary_json(p: PlanView, st: StatsView, duration: Seq<char>) -> Seq<char> {
    "{\"files_copied\":"@ + dec(st.files_copied as nat) + ",\"dirs_created\":"@ + dec(
        st.dirs_created as nat,
    ) + ",\"bytes_copied\":"@ + dec(st.bytes_copied as nat) + ",\"already_present\":"@ + dec(
        st.already_present as nat,
    ) + ",\"skipped\":"@ + dec(st.skipped as nat) + ",\"excluded\":"@ + dec(p.excluded as nat)
        + ",\"verified\":"@ + dec(st.verified as nat) + ",\"duration_secs\":"@ + duration
        + ",\"warnings\":"@ + json_array(st.warnings) + ",\"errors\":"@ + json_array(st.errors)
        + "}"@
}

/// What a copy came to, as a JSON object; `duration` is the time in seconds.
pub fn json_summary(plan: &CopyPlan, stats: &CopyStats, duration: &str) -> (r: String)
    ensures
        r@ == summary_json(plan@, stats@, duration@),
{
    let mut s: String = "{\"files_copied\":".to_owned();
    append_dec(&mut s, stats.files_copied as u64);
    s.append(",\"dirs_created\":");
    append_dec(&mut s, stats.dirs_created as u64);
    s.append(",\"bytes_copied\":");
    append_dec(&mut s, stats.bytes_copied);
    s.append(",\"already_present\":");
    append_dec(&mut s, stats.already_present as u64);
    s.append(",\"skipped\":");
    append_dec(&mut s, stats.skipped as u64);
    s.append(",\"excluded\":");
    append_dec(&mut s, plan.excluded as u64);
    s.append(",\"verified\":");
    append_dec(&mut s, stats.verified as u64);
    s.append(",\"duration_secs\":");
    s.append(duration);
    s.append(",\"warnings\":");
    let warnings: String = json_string_array(&stats.warnings);
    s.append(warnings.as_str());
    s.append(",\"errors\":");
    let errors: String = json_string_array(&stats.errors);
    s.append(errors.as_str());
    s.append("}");
    s
}

/// What a move came to, as a JSON object; `duration` is the time in seconds.
pub open spec fn move_json(st: MoveView, duration: Seq<char>) -> Seq<char> {
    "{\"renamed\":"@ + dec(st.renamed as nat) + ",\"moved_across\":"@ + dec(st.moved_across as nat)
        + ",\"skipped\":"@ + dec(st.skipped as nat) + ",\"files_copied\":"@ + dec(
        st.copy.files_copied as nat,
    ) + ",\"bytes_copied\":"@ + dec(st.copy.bytes_copied as nat) + ",\"verified\":"@ + dec(
        st.copy.verified as nat,
    ) + ",\"duration_secs\":"@ + duration + ",\"errors\":"@ + json_array(st.errors) + "}"@
}

/// What a move came to, as a JSON object; `duration` is the time in seconds.
pub fn json_move_summary(stats: &MoveStats, duration: &str) -> (r: String)
    ensures
        r@ == move_json(stats@, duration@),
{
    let mut s: String = "{\"renamed\":".to_owned();
    append_dec(&mut s, stats.renamed as u64);
    s.append(",\"moved_across\":");
    append_dec(&mut s, stats.moved_across as u64);
    s.append(",\"skipped\":");
    append_dec(&mut s, stats.skipped as u64);
    s.append(",\"files_copied\":");
    append_dec(&mut s, stats.copy.files_copied as u64);
    s.append(",\"bytes_copied\":");
    append_dec(&mut s, stats.copy.bytes_copied);
    s.append(",\"verified\":");
    append_dec(&mut s, stats.copy.verified as u64);
    s.append(",\"duration_secs\":");
    s.append(duration);
    s.append(",\"errors\":");
    let errors: String = json_string_array(&stats.errors);
    s.append(errors.as_str());
    s.append("}");
    s
}

// ---------------------------------------------------------------------------
// Without writing anything
// ---------------------------------------------------------------------------

/// How a line is printed.
#[derive(Debug, Clone, Copy, PartialEq, Eq, Structural)]
pub enum Style {
    Plain,
    Yellow,
    /// As a warning.
    Warning,
    /// As a success.
    Success,
}

/// A line to print.
#[derive(Debug)]
pub struct Line {
    pub style: Style,
    pub text: String,
}

/// A line, with its text as characters.
#[verifier::ext_equal]
pub struct LineView {
    pub style: Style,
    pub text: Seq<char>,
}

impl View for Line {
    type V = LineView;

    open spec fn view(&self) -> LineView {
        LineView { style: self.style, text: self.text@ }
    }
}

/// Lines, with their texts as characters.
pub open spec fn line_views(v: Seq<Line>) -> Seq<LineView> {
    v.map_values(|l: Line| l@)
}

/// What is seen of an entry: what is at its destination, what is reached by
/// it, and what is reached by its source.
#[derive(Debug, Clone, Copy, PartialEq, Eq, Structural)]
pub struct DestSeen {
    pub link: Option<Facts>,
    pub reached: Option<Facts>,
    pub source: Option<Facts>,
}

/// What `--dry-run` looks at besides the plan.
#[derive(Debug, Clone, Copy, PartialEq, Eq, Structural)]
pub struct DryRun {
    pub overwrite: Overwrite,
    pub resume: bool,
    pub backup: Option<BackupControl>,
}

/// When what is seen was last changed.
pub open spec fn changed(seen: Option<Facts>) -> Option<Stamp> {
    match seen {
        Some(f) => f.modified,
        None => None,
    }
}

fn when_changed(seen: &Option<Facts>) -> (r: Option<Stamp>)
    ensures
        r == changed(*seen),
{
    match seen {
        Some(f) => f.modified,
        None => None,
    }
}

/// An existing destination would be kept: under `-n`, or under `-u` when it is
/// known to be no older than the source.
pub open spec fn would_be_kept(seen: DestSeen, how: DryRun) -> bool {
    seen.link is Some && match how.overwrite {
        Overwrite::NoClobber | Overwrite::NoClobberFail => true,
        Overwrite::Update => known_newer(changed(seen.reached), changed(seen.source)),
        Overwrite::Clobber | Overwrite::Interactive => false,
    }
}

fn is_to_be_kept(seen: &DestSeen, how: &DryRun) -> (r: bool)
    ensures
        r == would_be_kept(*seen, *how),
{
    if !would_overwrite(&seen.link) {
        return false;
    }
    match how.overwrite {
        Overwrite::NoClobber | Overwrite::NoClobberFail => true,
        Overwrite::Update => is_known_newer(
            &when_changed(&seen.reached),
            &when_changed(&seen.source),
        ),
        Overwrite::Clobber | Overwrite::Interactive => false,
    }
}

/// An existing file would be overwritten.
pub open spec fn overwrites(e: EntryView, seen: DestSeen, how: DryRun) -> bool {
    match e {
        EntryView::File { size, .. } => seen.link is Some && !would_be_kept(seen, how) && !(
        how.resume && complete_file(seen.reached, size)),
        _ => false,
    }
}

/// A source, an arrow and a destination.
pub open spec fn from_to(verb: Seq<char>, e: EntryView) -> Seq<char> {
    verb + shown(source_of(e)) + " -> "@ + shown(destination_of(e))
}

/// A text with a size behind it.
pub open spec fn sized(s: Seq<char>, size: u64) -> Seq<char> {
    s + " ("@ + human_size(size) + ")"@
}

/// The line of an entry, if it has one.
pub open spec fn entry_line(e: EntryView, seen: DestSeen, how: DryRun) -> Option<LineView> {
    let dst = shown(destination_of(e));
    match e {
        EntryView::Dir { .. } => if seen.reached is None {
            Some(LineView { style: Style::Plain, text: "créer dir   "@ + dst })
        } else {
            None
        },
        EntryView::Symlink { .. } => Some(
            LineView { style: Style::Plain, text: from_to("lien        "@, e) },
        ),
        EntryView::HardLink { .. } => Some(
            LineView {
                style: Style::Plain,
                text: "lien dur    "@ + shown(source_of(e)) + " == "@ + dst,
            },
        ),
        EntryView::Fifo { .. } => Some(
            LineView { style: Style::Plain, text: from_to("fifo        "@, e) },
        ),
        EntryView::Special { .. } => Some(
            LineView { style: Style::Plain, text: from_to("spécial     "@, e) },
        ),
        EntryView::File { size, .. } => Some(
            if would_be_kept(seen, how) {
                LineView {
                    style: Style::Plain,
                    text: "ignoré      "@ + dst + " (existe déjà)"@,
                }
            } else if how.resume && complete_file(seen.reached, size) {
                LineView {
                    style: Style::Plain,
                    text: from_to("présent     "@, e) + " (ignoré)"@,
                }
            } else if seen.link is Some {
                LineView {
                    style: Style::Yellow,
                    text: if how.backup is Some {
                        sized(from_to("écraser     "@, e), size) + " (sauvegarde)"@
                    } else {
                        sized(from_to("écraser     "@, e), size)
                    },
                }
            } else {
                LineView {
                    style: Style::Plain,
                    text: sized(from_to("copier      "@, e), size),
                }
            },
        ),
    }
}

fn say_from_to(verb: &str, entry: &PlanEntry) -> (r: String)
    ensures
        r@ == from_to(verb@, entry@),
{
    let mut s: String = verb.to_owned();
    let src: String = display(entry.source());
    let dst: String = display(entry.destination());
    s.append(src.as_str());
    s.append(" -> ");
    s.append(dst.as_str());
    s
}

fn plain(text: String) -> (r: Line)
    ensures
        r@ == (LineView { style: Style::Plain, text: text@ }),
{
    Line { style: Style::Plain, text }
}

fn append_size(s: &mut String, size: u64)
    ensures
        final(s)@ == sized(old(s)@, size),
{
    let t: String = size_text(size);
    s.append(" (");
    s.append(t.as_str());
    s.append(")");
}

/// The line of a file, and whether it would be overwritten.
fn file_line(entry: &PlanEntry, size: u64, seen: &DestSeen, how: &DryRun) -> (r: (Line, bool))
    requires
        entry@ is File,
        entry@->File_size == size,
    ensures
        Some(r.0@) == entry_line(entry@, *seen, *how),
        r.1 == overwrites(entry@, *seen, *how),
{
    let exists: bool = would_overwrite(&seen.link);
    if is_to_be_kept(seen, how) {
        let mut s: String = "ignoré      ".to_owned();
        let dst: String = display(entry.destination());
        s.append(dst.as_str());
        s.append(" (existe déjà)");
        return (plain(s), false);
    }
    if how.resume && is_up_to_date(&seen.reached, size) {
        let mut s: String = say_from_to("présent     ", entry);
        s.append(" (ignoré)");
        return (plain(s), false);
    }
    if exists {
        let mut s: String = say_from_to("écraser     ", entry);
        append_size(&mut s, size);
        if how.backup.is_some() {
            s.append(" (sauvegarde)");
        }
        return (Line { style: Style::Yellow, text: s }, true);
    }
    let mut s: String = say_from_to("copier      ", entry);
    append_size(&mut s, size);
    (plain(s), false)
}

fn line_for(entry: &PlanEntry, seen: &DestSeen, how: &DryRun) -> (r: (Option<Line>, bool))
    ensures
        match r.0 {
            Some(l) => entry_line(entry@, *seen, *how) == Some(l@),
            None => entry_line(entry@, *seen, *how) is None,
        },
        r.1 == overwrites(entry@, *seen, *how),
{
    match entry {
        PlanEntry::Dir { .. } => {
            if seen.reached.is_none() {
                let mut s: String = "créer dir   ".to_owned();
                let dst: String = display(entry.destination());
                s.append(dst.as_str());
                (Some(plain(s)), false)
            } else {
                (None, false)
            }
        },
        PlanEntry::Symlink { .. } => (Some(plain(say_from_to("lien        ", entry))), false),
        PlanEntry::HardLink { .. } => {
            let mut s: String = "lien dur    ".to_owned();
            let src: String = display(entry.source());
            let dst: String = display(entry.destination());
            s.append(src.as_str());
            s.append(" == ");
            s.append(dst.as_str());
            (Some(plain(s)), false)
        },
        PlanEntry::Fifo { .. } => (Some(plain(say_from_to("fifo        ", entry))), false),
        PlanEntry::Special { .. } => (Some(plain(say_from_to("spécial     ", entry))), false),
        PlanEntry::File { size, .. } => {
            let (l, o): (Line, bool) = file_line(entry, *size, seen, how);
            (Some(l), o)
        },
    }
}

/// The lines of entries.
pub open spec fn entry_lines(es: Seq<EntryView>, seen: Seq<DestSeen>, how: DryRun) -> Seq<LineView>
    decreases es.len(),
{
    if es.len() == 0 {
        Seq::empty()
    } else {
        let before = entry_lines(es.drop_last(), seen, how);
        match entry_line(es.last(), seen[es.len() - 1], how) {
            Some(l) => before.push(l),
            None => before,
        }
    }
}

/// How many directories there are.
pub open spec fn dirs_in(es: Seq<EntryView>) -> nat
    decreases es.len(),
{
    if es.len() == 0 {
        0
    } else {
        dirs_in(es.drop_last()) + if es.last() is Dir {
            1nat
        } else {
            0
        }
    }
}

/// How many files would be overwritten.
pub open spec fn overwrites_in(es: Seq<EntryView>, seen: Seq<DestSeen>, how: DryRun) -> nat
    decreases es.len(),
{
    if es.len() == 0 {
        0
    } else {
        overwrites_in(es.drop_last(), seen, how) + if overwrites(
            es.last(),
            seen[es.len() - 1],
            how,
        ) {
            1nat
        } else {
            0
        }
    }
}

/// The totals of a plan.
pub open spec fn totals_text(p: PlanView) -> Seq<char> {
    dec(p.file_count as nat) + " fichier(s), "@ + dec(dirs_in(p.entries)) + " répertoire(s), "@
        + human_size(p.total_bytes as u64) + " au total"@
}

/// The line with the totals: a warning when files would be overwritten.
pub open spec fn totals_line(p: PlanView, n: nat) -> LineView {
    if n > 0 {
        LineView {
            style: Style::Warning,
            text: totals_text(p) + " — attention : "@ + dec(n) + " écrasement(s)"@,
        }
    } else {
        LineView { style: Style::Plain, text: totals_text(p) }
    }
}

/// The lines after the totals.
pub open spec fn closing_lines(p: PlanView) -> Seq<LineView> {
    let aside = if p.skipped.len() > 0 {
        seq![
            LineView {
                style: Style::Warning,
                text: dec(p.skipped.len()) + " fichier(s) spéciaux ignoré(s)"@,
            },
        ]
    } else {
        Seq::empty()
    };
    let out = if p.excluded > 0 {
        seq![
            LineView {
                style: Style::Plain,
                text: dec(p.excluded as nat) + " élément(s) exclu(s)"@,
            },
        ]
    } else {
        Seq::empty()
    };
    aside + out
}

/// All lines of `--dry-run`.
pub open spec fn dry_run_lines(p: PlanView, seen: Seq<DestSeen>, how: DryRun) -> Seq<LineView> {
    entry_lines(p.entries, seen, how).push(
        totals_line(p, overwrites_in(p.entries, seen, how)),
    ) + closing_lines(p)
}

/// How many lines are yellow.
pub open spec fn yellow_in(lines: Seq<LineView>) -> nat
    decreases lines.len(),
{
    if lines.len() == 0 {
        0
    } else {
        yellow_in(lines.drop_last()) + if lines.last().style == Style::Yellow {
            1nat
        } else {
            0
        }
    }
}

/// The lines that stand out are those of the files that would be overwritten,
/// one for each.
pub proof fn overwritten_files_stand_out(es: Seq<EntryView>, seen: Seq<DestSeen>, how: DryRun)
    ensures
        yellow_in(entry_lines(es, seen, how)) == overwrites_in(es, seen, how),
    decreases es.len(),
{
    if es.len() > 0 {
        overwritten_files_stand_out(es.drop_last(), seen, how);
        let before = entry_lines(es.drop_last(), seen, how);
        match entry_line(es.last(), seen[es.len() - 1], how) {
            Some(l) => {
                assert(before.push(l).drop_last() =~= before);
            },
            None => {},
        }
    }
}

fn push_line(v: &mut Vec<Line>, l: Line)
    ensures
        line_views(final(v)@) == line_views(old(v)@).push(l@),
{
    let ghost held = line_views(v@);
    v.push(l);
    assert(line_views(v@) =~= held.push(l@));
}

/// All lines of `--dry-run`: what each entry would do, with what is seen at
/// its destination, and the totals.
pub fn dry_run(plan: &CopyPlan, seen: &Vec<DestSeen>, how: &DryRun) -> (r: Vec<Line>)
    requires
        seen@.len() == plan.entries@.len(),
    ensures
        line_views(r@) == dry_run_lines(plan@, seen@, *how),
{
    let ghost es = plan@.entries;
    let mut out: Vec<Line> = Vec::new();
    let mut dirs: usize = 0;
    let mut over: usize = 0;
    let mut i: usize = 0;
    assert(es.take(0) =~= Seq::empty());
    assert(line_views(out@) =~= Seq::empty());
    while i < plan.entries.len()
        invariant
            i <= plan.entries@.len() == seen@.len(),
            es == plan@.entries,
            line_views(out@) == entry_lines(es.take(i as int), seen@, *how),
            dirs == dirs_in(es.take(i as int)),
            over == overwrites_in(es.take(i as int), seen@, *how),
            dirs <= i,
            over <= i,
        decreases plan.entries@.len() - i,
    {
        proof {
            assert(es.take(i + 1).drop_last() =~= es.take(i as int));
            assert(es.take(i + 1).last() == plan.entries@[i as int]@);
        }
        let (l, o): (Option<Line>, bool) = line_for(&plan.entries[i], &seen[i], how);
        if matches!(plan.entries[i], PlanEntry::Dir { .. }) {
            dirs = dirs + 1;
        }
        if o {
            over = over + 1;
        }
        match l {
            Some(line) => push_line(&mut out, line),
            None => {},
        }
        i = i + 1;
    }
    assert(es.take(i as int) =~= es);
    let mut s: String = String::new();
    append_dec(&mut s, plan.file_count as u64);
    s.append(" fichier(s), ");
    append_dec(&mut s, dirs as u64);
    s.append(" répertoire(s), ");
    let size: String = size_text(plan.total_bytes);
    s.append(size.as_str());
    s.append(" au total");
    assert(s@ =~= totals_text(plan@));
    if over > 0 {
        s.append(" — attention : ");
        append_dec(&mut s, over as u64);
        s.append(" écrasement(s)");
        push_line(&mut out, Line { style: Style::Warning, text: s });
    } else {
        push_line(&mut out, plain(s));
    }
    let ghost so_far = line_views(out@);
    if plan.skipped.len() > 0 {
        let mut t: String = String::new();
        append_dec(&mut t, plan.skipped.len() as u64);
        t.append(" fichier(s) spéciaux ignoré(s)");
        assert(t@ =~= dec(plan@.skipped.len()) + " fichier(s) spéciaux ignoré(s)"@);
        push_line(&mut out, Line { style: Style::Warning, text: t });
    }
    if plan.excluded > 0 {
        let mut t: String = String::new();
        append_dec(&mut t, plan.excluded as u64);
        t.append(" élément(s) exclu(s)");
        assert(t@ =~= dec(plan@.excluded as nat) + " élément(s) exclu(s)"@);
        push_line(&mut out, plain(t));
    }
    assert(line_views(out@) =~= so_far + closing_lines(plan@));
    out
}

// ---------------------------------------------------------------------------
// At the end
// ---------------------------------------------------------------------------

/// `s` with a number and a word behind a comma, when the number is not zero.
pub open spec fn and_count(s: Seq<char>, n: nat, word: Seq<char>) -> Seq<char> {
    if n > 0 {
        s + ", "@ + dec(n) + word
    } else {
        s
    }
}

fn append_count(s: &mut String, n: u64, word: &str)
    ensures
        final(s)@ == and_count(old(s)@, n as nat, word@),
{
    if n > 0 {
        s.append(", ");
        append_dec(s, n);
        s.append(word);
    }
}

/// The place of the first file in a plan.
pub open spec fn first_file(es: Seq<EntryView>) -> Option<int>
    decreases es.len(),
{
    if es.len() == 0 {
        None
    } else {
        match first_file(es.drop_last()) {
            Some(i) => Some(i),
            None => if es.last() is File {
                Some(es.len() - 1)
            } else {
                None
            },
        }
    }
}

/// A single file was copied, and nothing else is to be said.
pub open spec fn is_single(p: PlanView, st: StatsView) -> bool {
    p.file_count == 1 && st.errors.len() == 0 && st.already_present == 0 && st.skipped == 0
}

/// The speed in words; a time too short to measure has none.
pub open spec fn speed_text(speed: Option<u64>) -> Seq<char> {
    match speed {
        Some(n) => human_size(n) + "/s"@,
        None => "—"@,
    }
}

/// The totals of a copy, with everything out of the ordinary.
pub open spec fn totals_of(p: PlanView, st: StatsView, d: Elapsed, speed: Option<u64>) -> Seq<char> {
    let s0 = dec((st.files_copied + st.dirs_created) as nat) + " élément(s) copié(s) ("@
        + human_size(st.bytes_copied as u64) + ") en "@ + duration_text(d) + " — "@ + speed_text(
        speed,
    );
    let s1 = and_count(s0, st.already_present as nat, " déjà présent(s)"@);
    let s2 = and_count(s1, st.skipped as nat, " ignoré(s)"@);
    let s3 = and_count(s2, p.excluded as nat, " exclu(s)"@);
    let s4 = and_count(s3, st.verified as nat, " vérifié(s)"@);
    let s5 = and_count(s4, st.warnings.len(), " avertissement(s)"@);
    and_count(s5, st.errors.len(), " erreur(s)"@)
}

/// What is said of a single file.
pub open spec fn single_text(e: EntryView) -> Seq<char> {
    "Copied "@ + shown(source_of(e)) + " → "@ + shown(destination_of(e)) + " ("@ + human_size(
        reported_size(e),
    ) + ")"@
}

/// The last line of a copy, if there is one.
pub open spec fn summary_of(p: PlanView, st: StatsView, d: Elapsed, speed: Option<u64>) -> Option<
    Seq<char>,
> {
    if is_single(p, st) {
        match first_file(p.entries) {
            Some(i) => Some(single_text(p.entries[i])),
            None => None,
        }
    } else {
        Some(totals_of(p, st, d, speed))
    }
}

proof fn lemma_first_file(es: Seq<EntryView>, i: int)
    requires
        0 <= i <= es.len(),
        first_file(es.take(i)) is Some,
    ensures
        first_file(es) == first_file(es.take(i)),
    decreases es.len(),
{
    if i == es.len() {
        assert(es.take(i) =~= es);
    } else {
        assert(es.drop_last().take(i) =~= es.take(i));
        lemma_first_file(es.drop_last(), i);
    }
}

fn find_first_file(plan: &CopyPlan) -> (r: Option<usize>)
    ensures
        match r {
            Some(i) => i < plan.entries@.len() && first_file(plan@.entries) == Some(i as int),
            None => first_file(plan@.entries) is None,
        },
{
    let ghost es = plan@.entries;
    let mut i: usize = 0;
    assert(es.take(0) =~= Seq::empty());
    while i < plan.entries.len()
        invariant
            i <= plan.entries@.len(),
            es == plan@.entries,
            first_file(es.take(i as int)) is None,
        decreases plan.entries@.len() - i,
    {
        proof {
            assert(es.take(i + 1).drop_last() =~= es.take(i as int));
            assert(es.take(i + 1).last() == plan.entries@[i as int]@);
        }
        if matches!(plan.entries[i], PlanEntry::File { .. }) {
            proof {
                lemma_first_file(es, i + 1);
            }
            return Some(i);
        }
        i = i + 1;
    }
    assert(es.take(i as int) =~= es);
    None
}

/// The last line of a copy, if there is one: a single file has a line of its
/// own. `speed` is the speed in bytes a second, if the time could be measured.
pub fn summary(plan: &CopyPlan, stats: &CopyStats, elapsed: Elapsed, speed: Option<u64>) -> (r: Option<
    String,
>)
    requires
        elapsed.wf(),
        stats.files_copied + stats.dirs_created <= u64::MAX,
    ensures
        match r {
            Some(s) => summary_of(plan@, stats@, elapsed, speed) == Some(s@),
            None => summary_of(plan@, stats@, elapsed, speed) is None,
        },
{
    assert(texts(stats.errors@).len() == stats.errors@.len());
    if plan.file_count == 1 && stats.errors.len() == 0 && stats.already_present == 0
        && stats.skipped == 0 {
        return match find_first_file(plan) {
            Some(i) => {
                let entry: &PlanEntry = &plan.entries[i];
                assert(plan@.entries[i as int] == entry@);
                let size: u64 = match entry {
                    PlanEntry::File { size, .. } => *size,
                    _ => 0,
                };
                let mut s: String = "Copied ".to_owned();
                let src: String = display(entry.source());
                let dst: String = display(entry.destination());
                s.append(src.as_str());
                s.append(" → ");
                s.append(dst.as_str());
                append_size(&mut s, size);
                Some(s)
            },
            None => None,
        };
    }
    let mut s: String = String::new();
    append_dec(&mut s, stats.files_copied as u64 + stats.dirs_created as u64);
    s.append(" élément(s) copié(s) (");
    let bytes: String = size_text(stats.bytes_copied);
    s.append(bytes.as_str());
    s.append(") en ");
    let time: String = format_duration(elapsed);
    s.append(time.as_str());
    s.append(" — ");
    match speed {
        Some(n) => {
            let mut t: String = size_text(n);
            t.append("/s");
            s.append(t.as_str());
        },
        None => {
            s.append("—");
        },
    }
    proof {
        let s0 = dec((stats@.files_copied + stats@.dirs_created) as nat) + " élément(s) copié(s) ("@
            + human_size(stats.bytes_copied) + ") en "@ + duration_text(elapsed) + " — "@
            + speed_text(speed);
        assert(s@ =~= s0);
    }
    append_count(&mut s, stats.already_present as u64, " déjà présent(s)");
    append_count(&mut s, stats.skipped as u64, " ignoré(s)");
    append_count(&mut s, plan.excluded as u64, " exclu(s)");
    append_count(&mut s, stats.verified as u64, " vérifié(s)");
    append_count(&mut s, stats.warnings.len() as u64, " avertissement(s)");
    append_count(&mut s, stats.errors.len() as u64, " erreur(s)");
    Some(s)
}

/// What was moved, in words.
pub open spec fn moved_parts(st: MoveView) -> Seq<char> {
    let across = dec(st.moved_across as nat) + " déplacé(s) cross-device ("@ + human_size(
        st.copy.bytes_copied as u64,
    ) + ")"@;
    let renamed = dec(st.renamed as nat) + " renommé(s)"@;
    if st.renamed > 0 && st.moved_across > 0 {
        renamed + ", "@ + across
    } else if st.renamed > 0 {
        renamed
    } else if st.moved_across > 0 {
        across
    } else if st.skipped == 0 && st.errors.len() == 0 {
        "rien à déplacer"@
    } else {
        Seq::empty()
    }
}

/// The last line of a move: a warning when there was an error.
pub open spec fn move_line(st: MoveView, d: Elapsed) -> LineView {
    let s0 = moved_parts(st) + " en "@ + duration_text(d);
    let s1 = and_count(s0, st.skipped as nat, " ignoré(s)"@);
    let s2 = and_count(s1, st.copy.verified as nat, " vérifié(s)"@);
    LineView {
        style: if st.errors.len() == 0 {
            Style::Success
        } else {
            Style::Warning
        },
        text: and_count(s2, st.errors.len(), " erreur(s)"@),
    }
}

/// The last line of a move.
pub fn move_summary(stats: &MoveStats, elapsed: Elapsed) -> (r: Line)
    requires
        elapsed.wf(),
    ensures
        r@ == move_line(stats@, elapsed),
{
    assert(texts(stats.errors@).len() == stats.errors@.len());
    let mut s: String = String::new();
    if stats.renamed > 0 {
        append_dec(&mut s, stats.renamed as u64);
        s.append(" renommé(s)");
        if stats.moved_across > 0 {
            s.append(", ");
        }
    }
    if stats.moved_across > 0 {
        append_dec(&mut s, stats.moved_across as u64);
        s.append(" déplacé(s) cross-device (");
        let bytes: String = size_text(stats.copy.bytes_copied);
        s.append(bytes.as_str());
        s.append(")");
    }
    if stats.renamed == 0 && stats.moved_across == 0 && stats.skipped == 0 && stats.errors.len()
        == 0 {
        s.append("rien à déplacer");
    }
    assert(s@ =~= moved_parts(stats@));
    s.append(" en ");
    let time: String = format_duration(elapsed);
    s.append(time.as_str());
    append_count(&mut s, stats.skipped as u64, " ignoré(s)");
    append_count(&mut s, stats.copy.verified as u64, " vérifié(s)");
    append_count(&mut s, stats.errors.len() as u64, " erreur(s)");
    let style: Style = if stats.errors.len() == 0 {
        Style::Success
    } else {
        Style::Warning
    };
    Line { style, text: s }
}

// ---------------------------------------------------------------------------
// A move that is only looked at
// ---------------------------------------------------------------------------

/// How a move would be done, and more on it.
pub open spec fn action_texts(a: PlannedAction) -> (Seq<char>, Seq<char>) {
    match a {
        PlannedAction::Rename => ("renommer"@, "instantané"@),
        PlannedAction::CopyThenDelete { bytes, files } => (
            "copier+suppr"@,
            "cross-device, "@ + dec(files as nat) + " fichier(s), "@ + human_size(bytes),
        ),
    }
}

fn say_detail(a: &PlannedAction) -> (r: String)
    ensures
        r@ == action_texts(*a).1,
{
    match a {
        PlannedAction::Rename => "instantané".to_owned(),
        PlannedAction::CopyThenDelete { bytes, files } => {
            let mut s: String = "cross-device, ".to_owned();
            append_dec(&mut s, *files as u64);
            s.append(" fichier(s), ");
            let t: String = size_text(*bytes);
            s.append(t.as_str());
            s
        },
    }
}

/// What a move would do, as a JSON object.
pub open spec fn planned_json(src: Seq<u8>, dst: Seq<u8>, a: PlannedAction) -> Seq<char> {
    "{\"action\":\""@ + action_texts(a).0 + "\",\"src\":\""@ + escaped(shown(src))
        + "\",\"dst\":\""@ + escaped(shown(dst)) + "\",\"detail\":\""@ + escaped(
        action_texts(a).1,
    ) + "\"}"@
}

/// What a move would do, as a line; the words for what is done take twelve
/// places.
pub open spec fn planned_text(src: Seq<u8>, dst: Seq<u8>, a: PlannedAction) -> Seq<char> {
    let verb = match a {
        PlannedAction::Rename => "renommer     "@,
        PlannedAction::CopyThenDelete { .. } => "copier+suppr "@,
    };
    verb + shown(src) + " -> "@ + shown(dst) + " ("@ + action_texts(a).1 + ")"@
}

/// What a move would do, as a JSON object or as a line.
pub fn planned_line(src: &RawPath, dst: &RawPath, action: &PlannedAction, json: bool) -> (r: String)
    ensures
        r@ == if json {
            planned_json(src@, dst@, *action)
        } else {
            planned_text(src@, dst@, *action)
        },
{
    let detail: String = say_detail(action);
    if json {
        let mut s: String = "{\"action\":\"".to_owned();
        match action {
            PlannedAction::Rename => s.append("renommer"),
            PlannedAction::CopyThenDelete { .. } => s.append("copier+suppr"),
        }
        s.append("\",\"src\":\"");
        append_path(&mut s, src);
        s.append("\",\"dst\":\"");
        append_path(&mut s, dst);
        s.append("\",\"detail\":\"");
        let e: String = json_escape(detail.as_str());
        s.append(e.as_str());
        s.append("\"}");
        return s;
    }
    let mut s: String = match action {
        PlannedAction::Rename => "renommer     ".to_owned(),
        PlannedAction::CopyThenDelete { .. } => "copier+suppr ".to_owned(),
    };
    let from: String = display(src);
    let to: String = display(dst);
    s.append(from.as_str());
    s.append(" -> ");
    s.append(to.as_str());
    s.append(" (");
    s.append(detail.as_str());
    s.append(")");
    s
}

/// An error, as a JSON object.
pub open spec fn error_json(m: Seq<char>) -> Seq<char> {
    "{\"error\":\""@ + escaped(m) + "\"}"@
}

/// An error, as a JSON object.
pub fn error_line(m: &str) -> (r: String)
    ensures
        r@ == error_json(m@),
{
    let mut s: String = "{\"error\":\"".to_owned();
    let e: String = json_escape(m);
    s.append(e.as_str());
    s.append("\"}");
    s
}

/// JSON values, with a comma between each two.
pub open spec fn comma_joined(v: Seq<Seq<char>>) -> Seq<char>
    decreases v.len(),
{
    if v.len() == 0 {
        Seq::empty()
    } else if v.len() == 1 {
        v[0]
    } else {
        comma_joined(v.drop_last()) + ","@ + v.last()
    }
}

/// JSON values as an array.
pub fn json_values(list: &Vec<String>) -> (r: String)
    ensures
        r@ == "["@ + comma_joined(texts(list@)) + "]"@,
{
    let ghost all = texts(list@);
    let mut inner: String = String::new();
    let mut i: usize = 0;
    assert(all.take(0) =~= Seq::empty());
    assert(inner@ =~= comma_joined(all.take(0)));
    while i < list.len()
        invariant
            i <= list@.len(),
            all == texts(list@),
            inner@ == comma_joined(all.take(i as int)),
        decreases list@.len() - i,
    {
        proof {
            assert(all.take(i + 1).drop_last() =~= all.take(i as int));
            assert(all.take(i + 1).last() == list@[i as int]@);
        }
        if i > 0 {
            inner.append(",");
        }
        inner.append(list[i].as_str());
        proof {
            if i == 0 {
                assert(inner@ =~= list@[0]@);
                assert(all.take(i + 1)[0] == list@[0]@);
            }
        }
        i = i + 1;
    }
    assert(all.take(i as int) =~= all);
    let mut s: String = "[".to_owned();
    s.append(inner.as_str());
    s.append("]");
    s
}

/// The message of a command that met errors.
pub open spec fn errors_text(n: nat, doing: Seq<char>) -> Seq<char> {
    dec(n) + " erreur(s) pendant "@ + doing
}

/// How a command ends: without a message when there was no error.
pub fn closing(errors: usize, doing: &str) -> (r: Result<(), String>)
    ensures
        match r {
            Ok(_) => errors == 0,
            Err(m) => errors > 0 && m@ == errors_text(errors as nat, doing@),
        },
{
    if errors == 0 {
        return Ok(());
    }
    let mut s: String = String::new();
    append_dec(&mut s, errors as u64);
    s.append(" erreur(s) pendant ");
    s.append(doing);
    assert(s@ =~= errors_text(errors as nat, doing@));
    Err(s)
}

} // verus!
