//! What the command line of the copying tool asks for.

use vstd::prelude::*;
use vstd::string::*;

use crate::options::{
    attribute, attribute_named, everything_kept, nothing_kept, unknown_attribute, with_attribute,
    Attribute, BackupControl, CopyMode, Deref, Overwrite, Preserve, Reflink, ReflinkWhen, Sparse,
    SparseWhen, UpdateWhen,
};
use crate::path::{without_slashes, RawPath};
use crate::plan::{ends_with_slash, path_views, SourceSpec};
use crate::text::{append_quoted, pieces, quoted, split, texts, trim, trimmed};
use crate::utils::{parse_rate, rate_of};

verus! {

// ---------------------------------------------------------------------------
// What both tools have in common
// ---------------------------------------------------------------------------

/// What is seen around the command line.
#[derive(Debug)]
pub struct Surroundings {
    /// The destination is a directory, or a link to one.
    pub dest_is_dir: bool,
    /// The name of the destination stands for something.
    pub dest_exists: bool,
    /// The value of `SIMPLE_BACKUP_SUFFIX`.
    pub env_suffix: Option<String>,
    /// What the number in `--bwlimit` reads as: the bits of a double.
    pub rate_number: Option<u64>,
}

/// Sources and destination, as paths.
#[verifier::ext_equal]
pub struct OperandsView {
    pub sources: Seq<Seq<u8>>,
    pub destination: Seq<u8>,
}

/// The sources and the destination of a command.
#[derive(Debug)]
pub struct Operands {
    pub sources: Vec<RawPath>,
    pub destination: RawPath,
}

impl View for Operands {
    type V = OperandsView;

    open spec fn view(&self) -> OperandsView {
        OperandsView { sources: path_views(self.sources@), destination: self.destination@ }
    }
}

/// The directory of `-t` is not there.
pub open spec fn no_target(dir: Seq<u8>) -> Seq<char> {
    "le répertoire cible "@ + quoted(dir) + " n'existe pas"@
}

/// There is no destination.
pub open spec fn no_destination(after: Seq<u8>) -> Seq<char> {
    "opérande de destination manquante après "@ + quoted(after)
}

/// One operand too many under `-T`.
pub open spec fn extra_operand(p: Seq<u8>) -> Seq<char> {
    "opérande supplémentaire "@ + quoted(p)
}

/// Several sources need a directory; the destination is something else.
pub open spec fn not_a_directory(p: Seq<u8>) -> Seq<char> {
    "la cible "@ + quoted(p) + " n'est pas un répertoire"@
}

/// Several sources need a directory; the destination is not there.
pub open spec fn not_there(p: Seq<u8>) -> Seq<char> {
    "la cible "@ + quoted(p) + " n'existe pas"@
}

/// The sources and the destination among the operands: with `-t` all operands
/// are sources, elsewhere the last one is the destination, and several sources
/// need a directory.
pub open spec fn operands_of(
    paths: Seq<Seq<u8>>,
    target: Option<Seq<u8>>,
    no_target_directory: bool,
    dest_is_dir: bool,
    dest_exists: bool,
) -> Result<OperandsView, Seq<char>> {
    match target {
        Some(dir) => if dest_is_dir {
            Ok(OperandsView { sources: paths, destination: dir })
        } else {
            Err(no_target(dir))
        },
        None => if paths.len() < 2 {
            Err(
                no_destination(
                    if paths.len() == 0 {
                        Seq::empty()
                    } else {
                        paths[0]
                    },
                ),
            )
        } else if paths.len() > 2 && no_target_directory {
            Err(extra_operand(paths[1]))
        } else if paths.len() > 2 && !dest_is_dir && dest_exists {
            Err(not_a_directory(paths.last()))
        } else if paths.len() > 2 && !dest_is_dir {
            Err(not_there(paths.last()))
        } else {
            Ok(OperandsView { sources: paths.drop_last(), destination: paths.last() })
        },
    }
}

/// The first `n` of `v`.
fn first_paths(v: &Vec<RawPath>, n: usize) -> (r: Vec<RawPath>)
    requires
        n <= v@.len(),
    ensures
        path_views(r@) == path_views(v@).take(n as int),
{
    let ghost all = path_views(v@);
    let mut out: Vec<RawPath> = Vec::new();
    let mut i: usize = 0;
    assert(path_views(out@) =~= all.take(0));
    while i < n
        invariant
            i <= n <= v@.len(),
            all == path_views(v@),
            path_views(out@) == all.take(i as int),
        decreases n - i,
    {
        let ghost held = path_views(out@);
        out.push(v[i].clone());
        assert(path_views(out@) =~= held.push(v@[i as int]@));
        assert(all.take(i + 1) =~= held.push(all[i as int]));
        i = i + 1;
    }
    out
}

/// The path that an optional path stands for.
pub open spec fn optional_path(p: Option<RawPath>) -> Option<Seq<u8>> {
    match p {
        Some(q) => Some(q@),
        None => None,
    }
}

/// Finds the sources and the destination among the operands.
pub fn resolve_operands(
    paths: &Vec<RawPath>,
    target: &Option<RawPath>,
    no_target_directory: bool,
    dest_is_dir: bool,
    dest_exists: bool,
) -> (r: Result<Operands, String>)
    ensures
        match operands_of(
            path_views(paths@),
            optional_path(*target),
            no_target_directory,
            dest_is_dir,
            dest_exists,
        ) {
            Ok(o) => r is Ok && r->Ok_0@ == o,
            Err(m) => r is Err && r->Err_0@ == m,
        },
{
    let ghost ps = path_views(paths@);
    let n: usize = paths.len();
    if let Some(dir) = target {
        if !dest_is_dir {
            let mut s: String = "le répertoire cible ".to_owned();
            append_quoted(&mut s, dir);
            s.append(" n'existe pas");
            return Err(s);
        }
        let sources: Vec<RawPath> = first_paths(paths, n);
        assert(ps.take(n as int) =~= ps);
        return Ok(Operands { sources, destination: dir.clone() });
    }
    if n < 2 {
        let mut s: String = "opérande de destination manquante après ".to_owned();
        if n == 0 {
            let nothing: RawPath = RawPath::empty();
            append_quoted(&mut s, &nothing);
        } else {
            append_quoted(&mut s, &paths[0]);
        }
        return Err(s);
    }
    let dest: &RawPath = &paths[n - 1];
    if n > 2 {
        if no_target_directory {
            let mut s: String = "opérande supplémentaire ".to_owned();
            append_quoted(&mut s, &paths[1]);
            return Err(s);
        }
        if !dest_is_dir {
            let mut s: String = "la cible ".to_owned();
            append_quoted(&mut s, dest);
            if dest_exists {
                s.append(" n'est pas un répertoire");
            } else {
                s.append(" n'existe pas");
            }
            return Err(s);
        }
    }
    let sources: Vec<RawPath> = first_paths(paths, n - 1);
    assert(ps.take(n - 1) =~= ps.drop_last());
    Ok(Operands { sources, destination: dest.clone() })
}

/// Which destination the operands name, as far as they name one.
pub open spec fn destination_named(paths: Seq<Seq<u8>>, target: Option<Seq<u8>>) -> Option<Seq<u8>> {
    match target {
        Some(dir) => Some(dir),
        None => if paths.len() > 0 {
            Some(paths.last())
        } else {
            None
        },
    }
}

/// Which destination the operands name: the one to look at.
pub fn named_destination(paths: &Vec<RawPath>, target: &Option<RawPath>) -> (r: Option<RawPath>)
    ensures
        optional_path(r) == destination_named(path_views(paths@), optional_path(*target)),
{
    match target {
        Some(dir) => Some(dir.clone()),
        None => {
            if paths.len() > 0 {
                Some(paths[paths.len() - 1].clone())
            } else {
                None
            }
        },
    }
}

/// What is done with an existing destination.
pub open spec fn policy_of(interactive: bool, no_clobber: bool, update: Option<UpdateWhen>) -> Overwrite {
    if interactive {
        Overwrite::Interactive
    } else if no_clobber {
        Overwrite::NoClobber
    } else {
        match update {
            None | Some(UpdateWhen::All) => Overwrite::Clobber,
            Some(UpdateWhen::Nothing) => Overwrite::NoClobber,
            Some(UpdateWhen::NoneFail) => Overwrite::NoClobberFail,
            Some(UpdateWhen::Older) => Overwrite::Update,
        }
    }
}

/// What is done with an existing destination.
pub fn overwrite_policy(interactive: bool, no_clobber: bool, update: Option<UpdateWhen>) -> (r: Overwrite)
    ensures
        r == policy_of(interactive, no_clobber, update),
{
    if interactive {
        Overwrite::Interactive
    } else if no_clobber {
        Overwrite::NoClobber
    } else {
        match update {
            None | Some(UpdateWhen::All) => Overwrite::Clobber,
            Some(UpdateWhen::Nothing) => Overwrite::NoClobber,
            Some(UpdateWhen::NoneFail) => Overwrite::NoClobberFail,
            Some(UpdateWhen::Older) => Overwrite::Update,
        }
    }
}

/// How an existing destination is saved: `--backup=none` is no backup.
pub open spec fn control_of(backup: Option<BackupControl>) -> Option<BackupControl> {
    if backup == Some(BackupControl::Off) {
        None
    } else {
        backup
    }
}

/// How an existing destination is saved.
pub fn backup_control(backup: Option<BackupControl>) -> (r: Option<BackupControl>)
    ensures
        r == control_of(backup),
{
    match backup {
        Some(BackupControl::Off) => None,
        other => other,
    }
}

/// The text that an optional text stands for.
pub open spec fn optional_text(s: Option<String>) -> Option<Seq<char>> {
    match s {
        Some(t) => Some(t@),
        None => None,
    }
}

/// The suffix of simple backups: from the command line, from the environment,
/// or `~`.
pub open spec fn suffix_of(given: Option<Seq<char>>, env: Option<Seq<char>>) -> Seq<char> {
    match given {
        Some(s) => s,
        None => match env {
            Some(s) => s,
            None => "~"@,
        },
    }
}

/// The suffix of simple backups.
pub fn backup_suffix(given: &Option<String>, env: &Option<String>) -> (r: String)
    ensures
        r@ == suffix_of(optional_text(*given), optional_text(*env)),
{
    match given {
        Some(s) => s.clone(),
        None => match env {
            Some(s) => s.clone(),
            None => "~".to_owned(),
        },
    }
}

/// A source, as its path and whether a link there is followed.
pub open spec fn spec_view(s: SourceSpec) -> (Seq<u8>, bool) {
    (s.path@, s.follow)
}

/// Sources, as paths and whether links there are followed.
pub open spec fn spec_views(v: Seq<SourceSpec>) -> Seq<(Seq<u8>, bool)> {
    v.map_values(|s: SourceSpec| spec_view(s))
}

/// A source: a slash at the end asks to follow a link, unless such slashes are
/// to be dropped.
pub open spec fn spec_of(p: Seq<u8>, strip: bool) -> (Seq<u8>, bool) {
    if strip {
        (without_slashes(p), false)
    } else {
        (p, ends_with_slash(p))
    }
}

/// The sources, with what their slashes ask for.
pub open spec fn specs_of(paths: Seq<Seq<u8>>, strip: bool) -> Seq<(Seq<u8>, bool)> {
    paths.map_values(|p: Seq<u8>| spec_of(p, strip))
}

/// The sources, with what their slashes ask for.
pub fn source_specs(paths: Vec<RawPath>, strip: bool) -> (r: Vec<SourceSpec>)
    ensures
        spec_views(r@) == specs_of(path_views(paths@), strip),
{
    let ghost all = specs_of(path_views(paths@), strip);
    let mut out: Vec<SourceSpec> = Vec::new();
    let mut i: usize = 0;
    assert(spec_views(out@) =~= all.take(0));
    while i < paths.len()
        invariant
            i <= paths@.len(),
            all == specs_of(path_views(paths@), strip),
            spec_views(out@) == all.take(i as int),
        decreases paths@.len() - i,
    {
        let ghost held = spec_views(out@);
        let spec: SourceSpec = if strip {
            SourceSpec { path: paths[i].without_trailing_slashes(), follow: false }
        } else {
            SourceSpec { path: paths[i].clone(), follow: paths[i].has_trailing_slash() }
        };
        let ghost view = spec_view(spec);
        out.push(spec);
        assert(spec_views(out@) =~= held.push(view));
        assert(all.take(i + 1) =~= held.push(all[i as int]));
        i = i + 1;
    }
    assert(all.take(i as int) =~= all);
    out
}

/// The limit that `--bwlimit` asks for; `number` is what the number in it
/// reads as.
pub open spec fn limit_of(text: Option<Seq<char>>, number: Option<u64>) -> Result<
    Option<u64>,
    Seq<char>,
> {
    match text {
        None => Ok(None),
        Some(s) => match rate_of(s, number) {
            Ok(n) => Ok(Some(n)),
            Err(m) => Err("--bwlimit : "@ + m),
        },
    }
}

/// The limit that `--bwlimit` asks for.
pub fn rate_limit(text: &Option<String>, number: Option<u64>) -> (r: Result<Option<u64>, String>)
    ensures
        match limit_of(optional_text(*text), number) {
            Ok(l) => r == Ok::<Option<u64>, String>(l),
            Err(m) => r is Err && r->Err_0@ == m,
        },
{
    match text {
        None => Ok(None),
        Some(s) => match parse_rate(s.as_str(), number) {
            Ok(n) => Ok(Some(n)),
            Err(e) => {
                let mut m: String = "--bwlimit : ".to_owned();
                m.append(e.as_str());
                Err(m)
            },
        },
    }
}

/// How many copies are made at the same time: questions are asked one by one,
/// and of many cores only eight are taken.
pub open spec fn jobs_of(jobs: usize, overwrite: Overwrite, cores: usize) -> usize {
    if jobs == 1 || overwrite == Overwrite::Interactive {
        1
    } else if jobs == 0 {
        if cores < 8 {
            cores
        } else {
            8
        }
    } else {
        jobs
    }
}

/// How many copies are made at the same time, on a machine with `cores` cores.
pub fn effective_jobs(jobs: usize, overwrite: Overwrite, cores: usize) -> (r: usize)
    ensures
        r == jobs_of(jobs, overwrite, cores),
{
    if jobs == 1 || overwrite == Overwrite::Interactive {
        1
    } else if jobs == 0 {
        if cores < 8 {
            cores
        } else {
            8
        }
    } else {
        jobs
    }
}

// ---------------------------------------------------------------------------
// Attributes
// ---------------------------------------------------------------------------

/// Attributes after a list of names, from left to right; the first name that
/// nobody knows is an error.
pub open spec fn set_all(p: Preserve, names: Seq<Seq<char>>, value: bool) -> Result<
    Preserve,
    Seq<char>,
>
    decreases names.len(),
{
    if names.len() == 0 {
        Ok(p)
    } else {
        match set_all(p, names.drop_last(), value) {
            Err(m) => Err(m),
            Ok(q) => match attribute_named(trimmed(names.last())) {
                Some(a) => Ok(with_attribute(q, a, value)),
                None => Err(unknown_attribute(trimmed(names.last()))),
            },
        }
    }
}

/// A list of names asks for the attribute `context`, alone or among all.
pub open spec fn names_context(names: Seq<Seq<char>>) -> bool {
    exists|i: int|
        0 <= i < names.len() && (attribute_named(trimmed(#[trigger] names[i])) == Some(
            Attribute::Context,
        ) || attribute_named(trimmed(names[i])) == Some(Attribute::All))
}

proof fn lemma_set_all_fails(p: Preserve, names: Seq<Seq<char>>, i: int, value: bool)
    requires
        0 <= i <= names.len(),
        set_all(p, names.take(i), value) is Err,
    ensures
        set_all(p, names, value) == set_all(p, names.take(i), value),
    decreases names.len(),
{
    if i == names.len() {
        assert(names.take(i) =~= names);
    } else {
        assert(names.drop_last().take(i) =~= names.take(i));
        lemma_set_all_fails(p, names.drop_last(), i, value);
    }
}

/// Keeps, or not, the attributes that a list names; tells whether `context`
/// was asked for.
fn apply_list(p: &mut Preserve, list: &str, value: bool) -> (r: Result<bool, String>)
    ensures
        match set_all(*old(p), pieces(list@, ','), value) {
            Ok(q) => r == Ok::<bool, String>(names_context(pieces(list@, ','))) && *final(p) == q,
            Err(m) => r is Err && r->Err_0@ == m,
        },
{
    let names: Vec<String> = split(list, ',');
    let ghost all = pieces(list@, ',');
    let ghost p0 = *p;
    let mut context: bool = false;
    let mut i: usize = 0;
    assert(texts(names@).len() == names@.len());
    assert(all.take(0) =~= Seq::empty());
    while i < names.len()
        invariant
            i <= names@.len() == all.len(),
            all == texts(names@),
            all == pieces(list@, ','),
            p0 == *old(p),
            set_all(p0, all.take(i as int), value) == Ok::<Preserve, Seq<char>>(*p),
            context == names_context(all.take(i as int)),
        decreases names@.len() - i,
    {
        let ghost before = all.take(i as int);
        let ghost now = all.take(i + 1);
        proof {
            assert(now.drop_last() =~= before);
            assert(now.last() == names@[i as int]@);
        }
        match p.set(names[i].as_str(), value) {
            Ok(()) => {},
            Err(e) => {
                proof {
                    lemma_set_all_fails(p0, all, i + 1, value);
                }
                return Err(e);
            },
        }
        let name: String = trim(names[i].as_str());
        let here: bool = match attribute(name.as_str()) {
            Some(Attribute::Context) | Some(Attribute::All) => true,
            _ => false,
        };
        proof {
            if here {
                assert(attribute_named(trimmed(now[i as int])) == Some(Attribute::Context)
                    || attribute_named(trimmed(now[i as int])) == Some(Attribute::All));
            }
            if names_context(before) {
                let j = choose|j: int|
                    0 <= j < before.len() && (attribute_named(trimmed(#[trigger] before[j]))
                        == Some(Attribute::Context) || attribute_named(trimmed(before[j])) == Some(
                        Attribute::All,
                    ));
                assert(now[j] == before[j]);
            }
            if names_context(now) {
                let j = choose|j: int|
                    0 <= j < now.len() && (attribute_named(trimmed(#[trigger] now[j])) == Some(
                        Attribute::Context,
                    ) || attribute_named(trimmed(now[j])) == Some(Attribute::All));
                if j < i {
                    assert(before[j] == now[j]);
                }
            }
        }
        context = context || here;
        i = i + 1;
    }
    assert(all.take(i as int) =~= all);
    Ok(context)
}

// ---------------------------------------------------------------------------
// The command line
// ---------------------------------------------------------------------------

/// The flags and operands of the copying tool.
#[derive(Debug)]
pub struct Args {
    pub paths: Vec<RawPath>,
    pub recursive: bool,
    pub archive: bool,
    /// `-d`
    pub no_dereference_links: bool,
    /// `-P`
    pub no_dereference: bool,
    /// `-L`
    pub dereference: bool,
    pub interactive: bool,
    pub no_clobber: bool,
    pub update: Option<UpdateWhen>,
    pub remove_destination: bool,
    pub preserve: Option<String>,
    pub no_preserve: Option<String>,
    pub parents: bool,
    pub one_file_system: bool,
    pub link: bool,
    pub symbolic_link: bool,
    pub backup: Option<BackupControl>,
    pub suffix: Option<String>,
    pub target_directory: Option<RawPath>,
    pub no_target_directory: bool,
    pub strip_trailing_slashes: bool,
    pub reflink: Option<ReflinkWhen>,
    pub sparse: SparseWhen,
    pub attributes_only: bool,
    pub copy_contents: bool,
    pub verbose: bool,
    pub progress: bool,
    pub no_progress: bool,
    pub dry_run: bool,
    pub resume: bool,
    pub verify: bool,
    pub jobs: usize,
    pub json: bool,
    pub exclude: Vec<String>,
    pub exclude_from: Vec<RawPath>,
    pub bwlimit: Option<String>,
}

/// What the flags amount to.
#[derive(Debug)]
pub struct Config {
    pub sources: Vec<SourceSpec>,
    pub destination: RawPath,
    pub dest_never_dir: bool,
    pub recursive: bool,
    pub deref: Deref,
    pub mode: CopyMode,
    pub overwrite: Overwrite,
    pub preserve: Preserve,
    /// The attribute `context`, which is not kept, was asked for.
    pub explicit_context: bool,
    pub backup: Option<BackupControl>,
    pub backup_suffix: String,
    pub parents: bool,
    pub one_file_system: bool,
    pub reflink: Reflink,
    pub sparse: Sparse,
    pub remove_destination: bool,
    pub attributes_only: bool,
    pub copy_contents: bool,
    pub verbose: bool,
    pub resume: bool,
    pub dry_run: bool,
    /// A bar was asked for, or no bar, or neither.
    pub progress: Option<bool>,
    pub verify: bool,
    /// How many copies at the same time; zero leaves it open.
    pub jobs: usize,
    pub json: bool,
    pub exclude: Vec<String>,
    pub exclude_from: Vec<RawPath>,
    pub bwlimit: Option<u64>,
}

/// A configuration, with paths as byte strings and texts as characters.
pub struct ConfigView {
    pub sources: Seq<(Seq<u8>, bool)>,
    pub destination: Seq<u8>,
    pub dest_never_dir: bool,
    pub recursive: bool,
    pub deref: Deref,
    pub mode: CopyMode,
    pub overwrite: Overwrite,
    pub preserve: Preserve,
    pub explicit_context: bool,
    pub backup: Option<BackupControl>,
    pub backup_suffix: Seq<char>,
    pub parents: bool,
    pub one_file_system: bool,
    pub reflink: Reflink,
    pub sparse: Sparse,
    pub remove_destination: bool,
    pub attributes_only: bool,
    pub copy_contents: bool,
    pub verbose: bool,
    pub resume: bool,
    pub dry_run: bool,
    pub progress: Option<bool>,
    pub verify: bool,
    pub jobs: usize,
    pub json: bool,
    pub exclude: Seq<Seq<char>>,
    pub exclude_from: Seq<Seq<u8>>,
    pub bwlimit: Option<u64>,
}

impl View for Config {
    type V = ConfigView;

    open spec fn view(&self) -> ConfigView {
        ConfigView {
            sources: spec_views(self.sources@),
            destination: self.destination@,
            dest_never_dir: self.dest_never_dir,
            recursive: self.recursive,
            deref: self.deref,
            mode: self.mode,
            overwrite: self.overwrite,
            preserve: self.preserve,
            explicit_context: self.explicit_context,
            backup: self.backup,
            backup_suffix: self.backup_suffix@,
            parents: self.parents,
            one_file_system: self.one_file_system,
            reflink: self.reflink,
            sparse: self.sparse,
            remove_destination: self.remove_destination,
            attributes_only: self.attributes_only,
            copy_contents: self.copy_contents,
            verbose: self.verbose,
            resume: self.resume,
            dry_run: self.dry_run,
            progress: self.progress,
            verify: self.verify,
            jobs: self.jobs,
            json: self.json,
            exclude: texts(self.exclude@),
            exclude_from: path_views(self.exclude_from@),
            bwlimit: self.bwlimit,
        }
    }
}

/// The texts of `v`, once more.
fn copy_texts(v: &Vec<String>) -> (r: Vec<String>)
    ensures
        texts(r@) == texts(v@),
{
    let ghost all = texts(v@);
    let mut out: Vec<String> = Vec::new();
    let mut i: usize = 0;
    assert(texts(out@) =~= all.take(0));
    while i < v.len()
        invariant
            i <= v@.len(),
            all == texts(v@),
            texts(out@) == all.take(i as int),
        decreases v@.len() - i,
    {
        let ghost held = texts(out@);
        out.push(v[i].clone());
        assert(texts(out@) =~= held.push(v@[i as int]@));
        assert(all.take(i + 1) =~= held.push(all[i as int]));
        i = i + 1;
    }
    assert(all.take(i as int) =~= all);
    out
}

/// The names in an optional list.
pub open spec fn names_in(list: Option<String>) -> Seq<Seq<char>> {
    match list {
        Some(s) => pieces(s@, ','),
        None => Seq::empty(),
    }
}

impl Args {
    /// Which links are followed: `-a` follows none, unless `-L` contradicts.
    pub open spec fn deref(self) -> Deref {
        if self.dereference {
            Deref::Always
        } else if self.no_dereference || self.no_dereference_links || self.archive {
            Deref::Never
        } else {
            Deref::CommandLine
        }
    }

    /// What is made.
    pub open spec fn mode(self) -> CopyMode {
        if self.link {
            CopyMode::Link
        } else if self.symbolic_link {
            CopyMode::Symlink
        } else {
            CopyMode::Copy
        }
    }

    /// The attributes that are kept: `-a` keeps all, `--preserve` adds, `-d`
    /// adds links, `--no-preserve` takes away.
    pub open spec fn attributes(self) -> Result<Preserve, Seq<char>> {
        let base = if self.archive {
            everything_kept()
        } else {
            nothing_kept()
        };
        match set_all(base, names_in(self.preserve), true) {
            Err(m) => Err(m),
            Ok(p) => set_all(
                if self.no_dereference_links {
                    Preserve { links: true, ..p }
                } else {
                    p
                },
                names_in(self.no_preserve),
                false,
            ),
        }
    }

    /// Whether blocks are shared.
    pub open spec fn sharing(self) -> Reflink {
        match self.reflink {
            Some(ReflinkWhen::Always) => Reflink::Always,
            Some(ReflinkWhen::Auto) => Reflink::Auto,
            None => Reflink::Off,
        }
    }

    /// Whether holes are made.
    pub open spec fn holes(self) -> Sparse {
        match self.sparse {
            SparseWhen::Auto => Sparse::Auto,
            SparseWhen::Always => Sparse::Always,
            SparseWhen::Never => Sparse::Never,
        }
    }

    /// Whether a bar is shown, as far as the flags tell.
    pub open spec fn bar(self) -> Option<bool> {
        if self.no_progress {
            Some(false)
        } else if self.progress {
            Some(true)
        } else {
            None
        }
    }

    /// The configuration, once the operands, the attributes and the limit are
    /// known.
    pub open spec fn configured(
        self,
        o: OperandsView,
        preserve: Preserve,
        bwlimit: Option<u64>,
        env: Option<Seq<char>>,
    ) -> ConfigView {
        ConfigView {
            sources: specs_of(o.sources, self.strip_trailing_slashes),
            destination: o.destination,
            dest_never_dir: self.no_target_directory,
            recursive: self.recursive || self.archive,
            deref: self.deref(),
            mode: self.mode(),
            overwrite: policy_of(
                self.interactive,
                self.no_clobber,
                self.update,
            ),
            preserve,
            explicit_context: names_context(names_in(self.preserve)),
            backup: control_of(self.backup),
            backup_suffix: suffix_of(
                optional_text(self.suffix),
                env,
            ),
            parents: self.parents,
            one_file_system: self.one_file_system,
            reflink: self.sharing(),
            sparse: self.holes(),
            remove_destination: self.remove_destination,
            attributes_only: self.attributes_only,
            copy_contents: self.copy_contents,
            verbose: self.verbose,
            resume: self.resume,
            dry_run: self.dry_run,
            progress: self.bar(),
            verify: self.verify,
            jobs: self.jobs,
            json: self.json,
            exclude: texts(self.exclude@),
            exclude_from: path_views(self.exclude_from@),
            bwlimit,
        }
    }

    /// What the command line amounts to, or the first thing that is wrong with
    /// it.
    pub open spec fn resolved(self, seen: Surroundings) -> Result<ConfigView, Seq<char>> {
        match operands_of(
            path_views(self.paths@),
            optional_path(self.target_directory),
            self.no_target_directory,
            seen.dest_is_dir,
            seen.dest_exists,
        ) {
            Err(m) => Err(m),
            Ok(o) => if self.parents && !seen.dest_is_dir {
                Err("avec --parents, la destination doit être un répertoire existant"@)
            } else {
                match self.attributes() {
                    Err(m) => Err(m),
                    Ok(preserve) => match limit_of(
                        optional_text(self.bwlimit),
                        seen.rate_number,
                    ) {
                        Err(m) => Err(m),
                        Ok(bwlimit) => Ok(
                            self.configured(o, preserve, bwlimit, optional_text(seen.env_suffix)),
                        ),
                    },
                }
            },
        }
    }

    fn find_deref(&self) -> (r: Deref)
        ensures
            r == self.deref(),
    {
        if self.dereference {
            Deref::Always
        } else if self.no_dereference || self.no_dereference_links || self.archive {
            Deref::Never
        } else {
            Deref::CommandLine
        }
    }

    fn find_mode(&self) -> (r: CopyMode)
        ensures
            r == self.mode(),
    {
        if self.link {
            CopyMode::Link
        } else if self.symbolic_link {
            CopyMode::Symlink
        } else {
            CopyMode::Copy
        }
    }

    /// The attributes that are kept, and whether `context` was asked for.
    fn find_attributes(&self) -> (r: Result<(Preserve, bool), String>)
        ensures
            match self.attributes() {
                Ok(p) => r == Ok::<(Preserve, bool), String>(
                    (p, names_context(names_in(self.preserve))),
                ),
                Err(m) => r is Err && r->Err_0@ == m,
            },
    {
        let mut preserve: Preserve = if self.archive {
            Preserve::all()
        } else {
            Preserve::default()
        };
        let mut context: bool = false;
        if let Some(list) = &self.preserve {
            context = match apply_list(&mut preserve, list.as_str(), true) {
                Ok(c) => c,
                Err(e) => {
                    return Err(e);
                },
            };
        }
        if self.no_dereference_links {
            preserve.links = true;
        }
        if let Some(list) = &self.no_preserve {
            match apply_list(&mut preserve, list.as_str(), false) {
                Ok(_) => {},
                Err(e) => {
                    return Err(e);
                },
            }
        }
        Ok((preserve, context))
    }

    fn configure(
        &self,
        operands: Operands,
        preserve: Preserve,
        explicit_context: bool,
        bwlimit: Option<u64>,
        env: &Option<String>,
    ) -> (c: Config)
        requires
            explicit_context == names_context(names_in(self.preserve)),
        ensures
            c@ == self.configured(operands@, preserve, bwlimit, optional_text(*env)),
    {
        let progress: Option<bool> = if self.no_progress {
            Some(false)
        } else if self.progress {
            Some(true)
        } else {
            None
        };
        let reflink: Reflink = match self.reflink {
            Some(ReflinkWhen::Always) => Reflink::Always,
            Some(ReflinkWhen::Auto) => Reflink::Auto,
            None => Reflink::Off,
        };
        let sparse: Sparse = match self.sparse {
            SparseWhen::Auto => Sparse::Auto,
            SparseWhen::Always => Sparse::Always,
            SparseWhen::Never => Sparse::Never,
        };
        let exclude_from: Vec<RawPath> = first_paths(&self.exclude_from, self.exclude_from.len());
        assert(path_views(self.exclude_from@).take(self.exclude_from@.len() as int)
            =~= path_views(self.exclude_from@));
        let sources: Vec<SourceSpec> = source_specs(operands.sources, self.strip_trailing_slashes);
        let c: Config = Config {
            sources,
            destination: operands.destination,
            dest_never_dir: self.no_target_directory,
            recursive: self.recursive || self.archive,
            deref: self.find_deref(),
            mode: self.find_mode(),
            overwrite: overwrite_policy(self.interactive, self.no_clobber, self.update),
            preserve,
            explicit_context,
            backup: backup_control(self.backup),
            backup_suffix: backup_suffix(&self.suffix, env),
            parents: self.parents,
            one_file_system: self.one_file_system,
            reflink,
            sparse,
            remove_destination: self.remove_destination,
            attributes_only: self.attributes_only,
            copy_contents: self.copy_contents,
            verbose: self.verbose,
            resume: self.resume,
            dry_run: self.dry_run,
            progress,
            verify: self.verify,
            jobs: self.jobs,
            json: self.json,
            exclude: copy_texts(&self.exclude),
            exclude_from,
            bwlimit,
        };
        c
    }

    /// Works out what the command line amounts to.
    pub fn resolve(&self, seen: &Surroundings) -> (r: Result<Config, String>)
        ensures
            match self.resolved(*seen) {
                Ok(c) => r is Ok && r->Ok_0@ == c,
                Err(m) => r is Err && r->Err_0@ == m,
            },
    {
        let operands: Operands = match resolve_operands(
            &self.paths,
            &self.target_directory,
            self.no_target_directory,
            seen.dest_is_dir,
            seen.dest_exists,
        ) {
            Ok(o) => o,
            Err(e) => {
                return Err(e);
            },
        };
        if self.parents && !seen.dest_is_dir {
            return Err(
                "avec --parents, la destination doit être un répertoire existant".to_owned(),
            );
        }
        let (preserve, explicit_context): (Preserve, bool) = match self.find_attributes() {
            Ok(p) => p,
            Err(e) => {
                return Err(e);
            },
        };
        let bwlimit: Option<u64> = match rate_limit(&self.bwlimit, seen.rate_number) {
            Ok(l) => l,
            Err(e) => {
                return Err(e);
            },
        };
        Ok(self.configure(operands, preserve, explicit_context, bwlimit, &seen.env_suffix))
    }
}

// ---------------------------------------------------------------------------
// Laws
// ---------------------------------------------------------------------------

/// The attribute `a` is kept; all of them are, when `a` stands for all.
pub open spec fn keeps(p: Preserve, a: Attribute) -> bool {
    match a {
        Attribute::Mode => p.mode,
        Attribute::Ownership => p.ownership,
        Attribute::Timestamps => p.timestamps,
        Attribute::Links => p.links,
        Attribute::Xattr => p.xattr,
        Attribute::Context => p.context,
        Attribute::All => p == everything_kept(),
    }
}

/// `p` says `value` of the attribute `a`, or of each when `a` stands for all.
pub open spec fn settled(p: Preserve, a: Attribute, value: bool) -> bool {
    match a {
        Attribute::All => p == if value {
            everything_kept()
        } else {
            nothing_kept()
        },
        _ => keeps(p, a) == value,
    }
}

/// A list of attributes that is accepted has its way: each attribute that it
/// names is kept, or not kept, as the list says.
pub proof fn lists_have_their_way(p: Preserve, names: Seq<Seq<char>>, value: bool, i: int)
    requires
        set_all(p, names, value) is Ok,
        0 <= i < names.len(),
    ensures
        attribute_named(trimmed(names[i])) is Some,
        settled(
            set_all(p, names, value)->Ok_0,
            attribute_named(trimmed(names[i])).unwrap(),
            value,
        ),
    decreases names.len(),
{
    if i < names.len() - 1 {
        lists_have_their_way(p, names.drop_last(), value, i);
    }
}

/// What `--no-preserve` names is not kept, whatever the other flags say.
pub proof fn no_preserve_has_the_last_word(args: Args, i: int)
    requires
        args.attributes() is Ok,
        0 <= i < names_in(args.no_preserve).len(),
    ensures
        settled(
            args.attributes()->Ok_0,
            attribute_named(trimmed(names_in(args.no_preserve)[i])).unwrap(),
            false,
        ),
{
    let base = if args.archive {
        everything_kept()
    } else {
        nothing_kept()
    };
    let p = set_all(base, names_in(args.preserve), true)->Ok_0;
    let q = if args.no_dereference_links {
        Preserve { links: true, ..p }
    } else {
        p
    };
    lists_have_their_way(q, names_in(args.no_preserve), false, i);
}

/// `-a` stands for `-dR --preserve=all`: it copies directories, keeps all
/// attributes and, unless `-L` contradicts, follows no link.
pub proof fn archive_keeps_everything(args: Args, seen: Surroundings)
    requires
        args.archive,
        args.no_preserve is None,
        args.resolved(seen) is Ok,
    ensures
        ({
            let c = args.resolved(seen)->Ok_0;
            &&& c.recursive
            &&& c.preserve == everything_kept()
            &&& !args.dereference ==> c.deref == Deref::Never
            &&& args.dereference ==> c.deref == Deref::Always
        }),
{
    lemma_nothing_to_add(names_in(args.preserve));
}

proof fn lemma_nothing_to_add(names: Seq<Seq<char>>)
    ensures
        set_all(everything_kept(), names, true) is Ok ==> set_all(
            everything_kept(),
            names,
            true,
        )->Ok_0 == everything_kept(),
    decreases names.len(),
{
    if names.len() > 0 {
        lemma_nothing_to_add(names.drop_last());
    }
}

/// Several sources are accepted only for a directory.
pub proof fn several_sources_need_a_directory(args: Args, seen: Surroundings)
    requires
        args.resolved(seen) is Ok,
        args.resolved(seen)->Ok_0.sources.len() > 1,
    ensures
        seen.dest_is_dir,
{
}

/// Questions are asked one by one, and somebody always does the work.
pub proof fn jobs_are_sensible(jobs: usize, overwrite: Overwrite, cores: usize)
    requires
        cores >= 1,
    ensures
        jobs_of(jobs, overwrite, cores) >= 1,
        overwrite == Overwrite::Interactive ==> jobs_of(jobs, overwrite, cores) == 1,
        jobs == 0 ==> jobs_of(jobs, overwrite, cores) <= 8,
{
}

} // verus!
