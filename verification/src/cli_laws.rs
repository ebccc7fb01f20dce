//! What holds of every command line.

use vstd::prelude::*;

use crate::cli::{destination_named, set_all, Args, Surroundings};
use crate::move_laws::{lemma_speaks, speaks_of};
use crate::options::{
    everything_kept, nothing_kept, BackupControl, CopyMode, Deref, Overwrite, Preserve, Reflink,
    ReflinkWhen, Sparse, SparseWhen, UpdateWhen,
};
use crate::path::{without_slashes, SLASH};
use crate::run::MoveArgs;
use crate::text::{pieces, shown, trimmed};
use crate::utils::rate_of;

verus! {

// ---------------------------------------------------------------------------
// Flags
// ---------------------------------------------------------------------------

/// Every plain flag of an accepted command line is in the configuration as it
/// was given: nothing is switched on or off that was not asked for.
pub proof fn flags_are_taken_over(args: Args, seen: Surroundings)
    requires
        args.resolved(seen) is Ok,
    ensures
        ({
            let c = args.resolved(seen)->Ok_0;
            &&& c.dry_run == args.dry_run
            &&& c.resume == args.resume
            &&& c.verify == args.verify
            &&& c.verbose == args.verbose
            &&& c.json == args.json
            &&& c.parents == args.parents
            &&& c.one_file_system == args.one_file_system
            &&& c.remove_destination == args.remove_destination
            &&& c.attributes_only == args.attributes_only
            &&& c.copy_contents == args.copy_contents
            &&& c.dest_never_dir == args.no_target_directory
            &&& c.jobs == args.jobs
            &&& c.recursive <==> args.recursive || args.archive
            &&& c.bwlimit is Some <==> args.bwlimit is Some
            &&& args.bwlimit matches Some(text) ==> rate_of(text@, seen.rate_number) == Ok::<
                u64,
                Seq<char>,
            >(c.bwlimit.unwrap())
            &&& c.exclude.len() == args.exclude@.len()
            &&& forall|i: int|
                0 <= i < args.exclude@.len() ==> #[trigger] c.exclude[i] == args.exclude@[i]@
            &&& c.exclude_from.len() == args.exclude_from@.len()
            &&& forall|i: int|
                0 <= i < args.exclude_from@.len() ==> #[trigger] c.exclude_from[i]
                    == args.exclude_from@[i]@
        }),
{
}

/// What is made, which links are followed, how blocks and holes are dealt with
/// and whether a bar is shown follow the flags: `-L` speaks louder than `-P`,
/// `-d` and `-a`, `-l` louder than `-s`, and `--no-progress` louder than
/// `--progress`.
pub proof fn kinds_of_copies_follow_the_flags(args: Args, seen: Surroundings)
    requires
        args.resolved(seen) is Ok,
    ensures
        ({
            let c = args.resolved(seen)->Ok_0;
            &&& c.deref == Deref::Always <==> args.dereference
            &&& c.deref == Deref::CommandLine <==> !args.dereference && !args.no_dereference
                && !args.no_dereference_links && !args.archive
            &&& c.mode == CopyMode::Link <==> args.link
            &&& c.mode == CopyMode::Copy <==> !args.link && !args.symbolic_link
            &&& c.reflink == Reflink::Off <==> args.reflink is None
            &&& c.reflink == Reflink::Always <==> args.reflink == Some(ReflinkWhen::Always)
            &&& c.sparse == Sparse::Always <==> args.sparse == SparseWhen::Always
            &&& c.sparse == Sparse::Never <==> args.sparse == SparseWhen::Never
            &&& c.progress == Some(false) <==> args.no_progress
            &&& c.progress == Some(true) <==> args.progress && !args.no_progress
        }),
{
}

/// `overwrite` is what the flags ask for: `-i` asks, else `-n` keeps, else
/// `--update` decides, and without any of them the destination is overwritten.
pub open spec fn overwrites_as_asked(
    overwrite: Overwrite,
    interactive: bool,
    no_clobber: bool,
    update: Option<UpdateWhen>,
) -> bool {
    &&& overwrite == Overwrite::Interactive <==> interactive
    &&& !interactive && no_clobber ==> overwrite == Overwrite::NoClobber
    &&& !interactive && !no_clobber ==> {
        &&& overwrite == Overwrite::Clobber <==> update is None || update == Some(UpdateWhen::All)
        &&& overwrite == Overwrite::NoClobber <==> update == Some(UpdateWhen::Nothing)
        &&& overwrite == Overwrite::NoClobberFail <==> update == Some(UpdateWhen::NoneFail)
        &&& overwrite == Overwrite::Update <==> update == Some(UpdateWhen::Older)
    }
}

/// `backup` and `suffix` are what the flags ask for: no control and `none` make
/// no backup, any other control is kept, and the suffix of the command line
/// comes before that of the environment.
pub open spec fn saves_as_asked(
    backup: Option<BackupControl>,
    suffix: Seq<char>,
    control: Option<BackupControl>,
    given: Option<String>,
    env: Option<String>,
) -> bool {
    &&& backup != Some(BackupControl::Off)
    &&& backup is None <==> control is None || control == Some(BackupControl::Off)
    &&& backup is Some ==> backup == control
    &&& given is Some ==> suffix == given.unwrap()@
    &&& given is None && env is Some ==> suffix == env.unwrap()@
    &&& given is None && env is None ==> suffix == seq!['~']
}

/// Under every accepted command line of the copying tool existing files are
/// overwritten, kept and saved as its flags ask for.
pub proof fn copies_overwrite_as_asked(args: Args, seen: Surroundings)
    requires
        args.resolved(seen) is Ok,
    ensures
        ({
            let c = args.resolved(seen)->Ok_0;
            &&& overwrites_as_asked(c.overwrite, args.interactive, args.no_clobber, args.update)
            &&& saves_as_asked(
                c.backup,
                c.backup_suffix,
                args.backup,
                args.suffix,
                seen.env_suffix,
            )
        }),
{
    reveal_strlit("~");
    assert("~"@ =~= seq!['~']);
}

/// Under every accepted command line of the moving tool existing files are
/// overwritten, kept and saved as its flags ask for.
pub proof fn moves_overwrite_as_asked(
    args: MoveArgs,
    seen: Surroundings,
    cores: usize,
    interactive: bool,
)
    requires
        args.resolved(seen, cores, interactive) is Ok,
    ensures
        ({
            let c = args.resolved(seen, cores, interactive)->Ok_0;
            &&& overwrites_as_asked(c.overwrite, args.interactive, args.no_clobber, args.update)
            &&& saves_as_asked(
                c.backup,
                c.backup_suffix,
                args.backup,
                args.suffix,
                seen.env_suffix,
            )
        }),
{
    reveal_strlit("~");
    assert("~"@ =~= seq!['~']);
}

/// Every plain flag of an accepted command line of the moving tool is taken
/// over as it was given; a bar is shown on a terminal or on demand, but never
/// beside JSON; and what is moved is never filtered behind the user's back.
pub proof fn move_flags_are_taken_over(
    args: MoveArgs,
    seen: Surroundings,
    cores: usize,
    interactive: bool,
)
    requires
        args.resolved(seen, cores, interactive) is Ok,
    ensures
        ({
            let c = args.resolved(seen, cores, interactive)->Ok_0;
            &&& c.dest_never_dir == args.no_target_directory
            &&& c.verbose == args.verbose
            &&& c.resume == args.resume
            &&& c.verify == args.verify
            &&& c.bwlimit is Some <==> args.bwlimit is Some
            &&& args.bwlimit matches Some(text) ==> rate_of(text@, seen.rate_number) == Ok::<
                u64,
                Seq<char>,
            >(c.bwlimit.unwrap())
            &&& c.exclude.len() == 0
            &&& args.json ==> !c.show_progress
            &&& !args.json && args.progress ==> c.show_progress
            &&& !args.json && !args.progress && args.no_progress ==> !c.show_progress
            &&& !args.json && !args.progress && !args.no_progress ==> c.show_progress == interactive
            &&& args.interactive || args.jobs == 1 ==> c.jobs == 1
            &&& !args.interactive && args.jobs > 1 ==> c.jobs == args.jobs
            &&& !args.interactive && args.jobs == 0 && cores <= 8 ==> c.jobs == cores
            &&& !args.interactive && args.jobs == 0 && cores > 8 ==> c.jobs == 8
        }),
{
}

// ---------------------------------------------------------------------------
// Operands
// ---------------------------------------------------------------------------

/// `q` is `p` without slashes at its end: only slashes are gone, and none is
/// left but that of the root.
pub open spec fn is_stripped(p: Seq<u8>, q: Seq<u8>) -> bool {
    &&& q.len() <= p.len()
    &&& q == p.take(q.len() as int)
    &&& forall|j: int| q.len() <= j < p.len() ==> p[j] == SLASH
    &&& q.len() > 1 ==> q.last() != SLASH
    &&& p.len() > 0 ==> q.len() > 0
}

proof fn lemma_stripped(p: Seq<u8>)
    ensures
        is_stripped(p, without_slashes(p)),
    decreases p.len(),
{
    if p.len() > 1 && p.last() == SLASH {
        let d = p.drop_last();
        let q = without_slashes(p);
        lemma_stripped(d);
        assert(q == d.take(q.len() as int));
        assert(d.take(q.len() as int) =~= p.take(q.len() as int));
        assert forall|j: int| q.len() <= j < p.len() implies p[j] == SLASH by {
            if j < d.len() {
                assert(d[j] == SLASH);
            }
        }
    } else {
        assert(p.take(p.len() as int) =~= p);
    }
}

/// `sources` are `given`, in order: as they stand, followed when they end with
/// a slash, or without their slashes and not followed, when these are to be
/// dropped.
pub open spec fn are_sources_of(
    sources: Seq<(Seq<u8>, bool)>,
    given: Seq<Seq<u8>>,
    strip: bool,
) -> bool {
    &&& sources.len() == given.len()
    &&& forall|i: int|
        0 <= i < given.len() ==> {
            let (path, follow) = #[trigger] sources[i];
            if strip {
                !follow && is_stripped(given[i], path)
            } else {
                path == given[i] && (follow <==> given[i].len() > 0 && given[i].last() == SLASH)
            }
        }
}

/// The operands `paths` are read rightly: with `-t` all are sources and the
/// directory is there; else the last is the destination, there is a source, and
/// several sources need a directory and no `-T`.
pub open spec fn are_operands_of(
    sources: Seq<(Seq<u8>, bool)>,
    destination: Seq<u8>,
    paths: Seq<Seq<u8>>,
    target: Option<Seq<u8>>,
    no_target_directory: bool,
    strip: bool,
    dest_is_dir: bool,
) -> bool {
    match target {
        Some(dir) => dest_is_dir && destination == dir && are_sources_of(sources, paths, strip),
        None => {
            &&& paths.len() >= 2
            &&& destination == paths.last()
            &&& are_sources_of(sources, paths.drop_last(), strip)
            &&& paths.len() > 2 ==> dest_is_dir && !no_target_directory
        },
    }
}

/// The paths of `v`.
pub open spec fn paths_of(v: Seq<crate::path::RawPath>) -> Seq<Seq<u8>> {
    Seq::new(v.len(), |i: int| v[i].bytes@)
}

/// The directory of `-t`, if it was given.
pub open spec fn target_of(t: Option<crate::path::RawPath>) -> Option<Seq<u8>> {
    match t {
        Some(p) => Some(p.bytes@),
        None => None,
    }
}

/// An accepted command line of the copying tool has its sources and its
/// destination from its operands.
pub proof fn copies_take_their_operands(args: Args, seen: Surroundings)
    requires
        args.resolved(seen) is Ok,
    ensures
        ({
            let c = args.resolved(seen)->Ok_0;
            &&& are_operands_of(
                c.sources,
                c.destination,
                paths_of(args.paths@),
                target_of(args.target_directory),
                args.no_target_directory,
                args.strip_trailing_slashes,
                seen.dest_is_dir,
            )
            &&& args.parents ==> seen.dest_is_dir
        }),
{
    lemma_paths(args.paths@);
    lemma_all_stripped();
}

/// An accepted command line of the moving tool has its sources and its
/// destination from its operands.
pub proof fn moves_take_their_operands(
    args: MoveArgs,
    seen: Surroundings,
    cores: usize,
    interactive: bool,
)
    requires
        args.resolved(seen, cores, interactive) is Ok,
    ensures
        ({
            let c = args.resolved(seen, cores, interactive)->Ok_0;
            are_operands_of(
                c.sources,
                c.destination,
                paths_of(args.paths@),
                target_of(args.target_directory),
                args.no_target_directory,
                args.strip_trailing_slashes,
                seen.dest_is_dir,
            )
        }),
{
    lemma_paths(args.paths@);
    lemma_all_stripped();
}

proof fn lemma_paths(v: Seq<crate::path::RawPath>)
    ensures
        paths_of(v) == crate::plan::path_views(v),
{
    assert(paths_of(v) =~= crate::plan::path_views(v));
}

proof fn lemma_all_stripped()
    ensures
        forall|p: Seq<u8>| is_stripped(p, #[trigger] without_slashes(p)),
{
    assert forall|p: Seq<u8>| is_stripped(p, #[trigger] without_slashes(p)) by {
        lemma_stripped(p);
    }
}

// ---------------------------------------------------------------------------
// Attributes
// ---------------------------------------------------------------------------

/// The list names `name`, white space aside.
pub open spec fn mentions(list: Option<String>, name: Seq<char>) -> bool {
    match list {
        Some(s) => exists|i: int|
            0 <= i < pieces(s@, ',').len() && trimmed(#[trigger] pieces(s@, ',')[i]) == name,
        None => false,
    }
}

/// The list names `name`, or all attributes.
pub open spec fn asks_for(list: Option<String>, name: Seq<char>) -> bool {
    mentions(list, name) || mentions(list, "all"@)
}

/// An attribute is kept: `-a`, or the list of `--preserve`, or another flag
/// asks for it, and the list of `--no-preserve` does not name it.
pub open spec fn is_kept_by(args: Args, name: Seq<char>, also: bool) -> bool {
    (args.archive || asks_for(args.preserve, name) || also) && !asks_for(args.no_preserve, name)
}

/// The attributes that an accepted command line keeps are those that `-a`,
/// `--preserve` and `-d` ask for, without those of `--no-preserve`; each
/// attribute is decided by its own name alone, or by `all`.
pub proof fn attributes_are_kept_as_asked(args: Args, seen: Surroundings)
    requires
        args.resolved(seen) is Ok,
    ensures
        ({
            let p = args.resolved(seen)->Ok_0.preserve;
            &&& p.mode == is_kept_by(args, "mode"@, false)
            &&& p.ownership == is_kept_by(args, "ownership"@, false)
            &&& p.timestamps == is_kept_by(args, "timestamps"@, false)
            &&& p.links == is_kept_by(args, "links"@, args.no_dereference_links)
            &&& p.xattr == is_kept_by(args, "xattr"@, false)
            &&& p.context == is_kept_by(args, "context"@, false)
            &&& args.resolved(seen)->Ok_0.explicit_context == asks_for(args.preserve, "context"@)
        }),
{
    let base = if args.archive {
        everything_kept()
    } else {
        nothing_kept()
    };
    let first = crate::cli::names_in(args.preserve);
    let second = crate::cli::names_in(args.no_preserve);
    lemma_words();
    lemma_list(base, first, true);
    let q = set_all(base, first, true)->Ok_0;
    let r = if args.no_dereference_links {
        Preserve { links: true, ..q }
    } else {
        q
    };
    lemma_list(r, second, false);
    lemma_mentions(args.preserve);
    lemma_mentions(args.no_preserve);
}

/// Some of `names` is `name`, white space aside.
spec fn has_name(names: Seq<Seq<char>>, name: Seq<char>) -> bool {
    exists|i: int| 0 <= i < names.len() && trimmed(#[trigger] names[i]) == name
}

proof fn lemma_mentions(list: Option<String>)
    ensures
        forall|name: Seq<char>| #[trigger]
            mentions(list, name) == has_name(crate::cli::names_in(list), name),
{
}

/// The names of attributes are different words.
proof fn lemma_words()
    ensures
        "mode"@.len() == 4,
        "ownership"@.len() == 9,
        "timestamps"@.len() == 10,
        "links"@.len() == 5,
        "xattr"@.len() == 5,
        "context"@.len() == 7,
        "all"@.len() == 3,
        "links"@[0] != "xattr"@[0],
{
    reveal_strlit("mode");
    reveal_strlit("ownership");
    reveal_strlit("timestamps");
    reveal_strlit("links");
    reveal_strlit("xattr");
    reveal_strlit("context");
    reveal_strlit("all");
}

/// The word on an attribute that was `old` after a list.
spec fn word_on(names: Seq<Seq<char>>, name: Seq<char>, value: bool, before: bool) -> bool {
    if has_name(names, name) || has_name(names, "all"@) {
        value
    } else {
        before
    }
}

proof fn lemma_list(p: Preserve, names: Seq<Seq<char>>, value: bool)
    ensures
        set_all(p, names, value) matches Ok(q) ==> {
            &&& q.mode == word_on(names, "mode"@, value, p.mode)
            &&& q.ownership == word_on(names, "ownership"@, value, p.ownership)
            &&& q.timestamps == word_on(names, "timestamps"@, value, p.timestamps)
            &&& q.links == word_on(names, "links"@, value, p.links)
            &&& q.xattr == word_on(names, "xattr"@, value, p.xattr)
            &&& q.context == word_on(names, "context"@, value, p.context)
        },
    decreases names.len(),
{
    lemma_words();
    if names.len() > 0 {
        let init = names.drop_last();
        let last = trimmed(names.last());
        lemma_list(p, init, value);
        lemma_one_more(names, "mode"@);
        lemma_one_more(names, "ownership"@);
        lemma_one_more(names, "timestamps"@);
        lemma_one_more(names, "links"@);
        lemma_one_more(names, "xattr"@);
        lemma_one_more(names, "context"@);
        lemma_one_more(names, "all"@);
    }
}

proof fn lemma_one_more(names: Seq<Seq<char>>, name: Seq<char>)
    requires
        names.len() > 0,
    ensures
        has_name(names, name) == (has_name(names.drop_last(), name) || trimmed(names.last())
            == name),
{
    let init = names.drop_last();
    if has_name(init, name) {
        let i = choose|i: int| 0 <= i < init.len() && trimmed(#[trigger] init[i]) == name;
        assert(trimmed(names[i]) == name);
    }
    if trimmed(names.last()) == name {
        assert(trimmed(names[names.len() - 1]) == name);
    }
    if has_name(names, name) {
        let i = choose|i: int| 0 <= i < names.len() && trimmed(#[trigger] names[i]) == name;
        if i < init.len() {
            assert(trimmed(init[i]) == name);
        }
    }
}

// ---------------------------------------------------------------------------
// What is accepted
// ---------------------------------------------------------------------------

/// Operands that make sense: with `-t` the directory is there; else there are
/// two or more, and with more than two the last is a directory that is there,
/// and `-T` is not given.
pub open spec fn operands_make_sense(
    count: nat,
    with_target: bool,
    no_target_directory: bool,
    dest_is_dir: bool,
) -> bool {
    if with_target {
        dest_is_dir
    } else {
        count == 2 || count > 2 && dest_is_dir && !no_target_directory
    }
}

/// The limit, if there is one, can be read.
pub open spec fn limit_makes_sense(limit: Option<String>, number: Option<u64>) -> bool {
    limit matches Some(text) ==> rate_of(text@, number) is Ok
}

/// `name`, white space aside, is the name of an attribute, or `all`.
pub open spec fn is_known(name: Seq<char>) -> bool {
    let t = trimmed(name);
    t == "mode"@ || t == "ownership"@ || t == "timestamps"@ || t == "links"@ || t == "xattr"@ || t
        == "context"@ || t == "all"@
}

/// Every name in the list is known.
pub open spec fn all_known(list: Option<String>) -> bool {
    list matches Some(s) ==> forall|i: int|
        0 <= i < pieces(s@, ',').len() ==> is_known(#[trigger] pieces(s@, ',')[i])
}

proof fn lemma_known(p: Preserve, names: Seq<Seq<char>>, value: bool)
    ensures
        set_all(p, names, value) is Ok <==> forall|i: int|
            0 <= i < names.len() ==> is_known(#[trigger] names[i]),
    decreases names.len(),
{
    if names.len() > 0 {
        let init = names.drop_last();
        lemma_known(p, init, value);
        let all = forall|i: int| 0 <= i < names.len() ==> is_known(#[trigger] names[i]);
        if all {
            assert forall|i: int| 0 <= i < init.len() implies is_known(#[trigger] init[i]) by {
                assert(is_known(names[i]));
            }
            assert(is_known(names[names.len() - 1]));
        } else if set_all(p, names, value) is Ok {
            assert forall|i: int| 0 <= i < names.len() implies is_known(#[trigger] names[i]) by {
                if i < init.len() {
                    assert(is_known(init[i]));
                }
            }
        }
    }
}

/// A command line of the copying tool is accepted exactly when its operands
/// make sense, `--parents` comes with a directory that is there, every attribute
/// it names is known, and its limit can be read.
pub proof fn sensible_copies_are_accepted(args: Args, seen: Surroundings)
    ensures
        args.resolved(seen) is Ok <==> {
            &&& operands_make_sense(
                args.paths@.len(),
                args.target_directory is Some,
                args.no_target_directory,
                seen.dest_is_dir,
            )
            &&& args.parents ==> seen.dest_is_dir
            &&& all_known(args.preserve)
            &&& all_known(args.no_preserve)
            &&& limit_makes_sense(args.bwlimit, seen.rate_number)
        },
{
    let base = if args.archive {
        everything_kept()
    } else {
        nothing_kept()
    };
    lemma_paths(args.paths@);
    lemma_known(base, crate::cli::names_in(args.preserve), true);
    let q = set_all(base, crate::cli::names_in(args.preserve), true)->Ok_0;
    lemma_known(q, crate::cli::names_in(args.no_preserve), false);
    lemma_known(Preserve { links: true, ..q }, crate::cli::names_in(args.no_preserve), false);
    assert(crate::plan::path_views(args.paths@).len() == args.paths@.len());
}

/// A command line of the moving tool is accepted exactly when its operands make
/// sense and its limit can be read.
pub proof fn sensible_moves_are_accepted(
    args: MoveArgs,
    seen: Surroundings,
    cores: usize,
    interactive: bool,
)
    ensures
        args.resolved(seen, cores, interactive) is Ok <==> {
            &&& operands_make_sense(
                args.paths@.len(),
                args.target_directory is Some,
                args.no_target_directory,
                seen.dest_is_dir,
            )
            &&& limit_makes_sense(args.bwlimit, seen.rate_number)
        },
{
    assert(crate::plan::path_views(args.paths@).len() == args.paths@.len());
}

/// The destination to look at is the one that an accepted command line ends up
/// with.
pub proof fn the_right_destination_is_looked_at(args: Args, seen: Surroundings)
    requires
        args.resolved(seen) is Ok,
    ensures
        destination_named(paths_of(args.paths@), target_of(args.target_directory)) == Some(
            args.resolved(seen)->Ok_0.destination,
        ),
{
    lemma_paths(args.paths@);
}

/// What is wrong with the operands is told with the operand that it is about:
/// the directory of `-t` that is not there, the only operand, the second of too
/// many, or the destination that is no directory.
pub proof fn rejections_name_the_operand(args: Args, seen: Surroundings)
    requires
        !operands_make_sense(
            args.paths@.len(),
            args.target_directory is Some,
            args.no_target_directory,
            seen.dest_is_dir,
        ),
    ensures
        ({
            let text = args.resolved(seen)->Err_0;
            let n = args.paths@.len() as int;
            &&& args.resolved(seen) is Err
            &&& args.target_directory matches Some(dir) ==> speaks_of(text, shown(dir.bytes@))
            &&& args.target_directory is None && n == 1 ==> speaks_of(
                text,
                shown(args.paths@[0].bytes@),
            )
            &&& args.target_directory is None && n > 2 && args.no_target_directory ==> speaks_of(
                text,
                shown(args.paths@[1].bytes@),
            )
            &&& args.target_directory is None && n > 2 && !args.no_target_directory ==> speaks_of(
                text,
                shown(args.paths@[n - 1].bytes@),
            )
        }),
{
    let text = args.resolved(seen)->Err_0;
    let ps = crate::plan::path_views(args.paths@);
    let n = args.paths@.len() as int;
    let q = "'"@;
    assert(ps.len() == n);
    if let Some(dir) = args.target_directory {
        let p = shown(dir.bytes@);
        let f = "le répertoire cible "@ + q;
        lemma_speaks(f, p, q + " n'existe pas"@);
        assert(f + p + (q + " n'existe pas"@) =~= text);
    } else if n == 1 {
        let p = shown(ps[0]);
        let f = "opérande de destination manquante après "@ + q;
        lemma_speaks(f, p, q);
        assert(f + p + q =~= text);
    } else if n > 2 && args.no_target_directory {
        let p = shown(ps[1]);
        let f = "opérande supplémentaire "@ + q;
        lemma_speaks(f, p, q);
        assert(f + p + q =~= text);
    } else if n > 2 {
        let p = shown(ps[n - 1]);
        let f = "la cible "@ + q;
        let b = if seen.dest_exists {
            q + " n'est pas un répertoire"@
        } else {
            q + " n'existe pas"@
        };
        lemma_speaks(f, p, b);
        assert(f + p + b =~= text);
    }
}

} // verus!
