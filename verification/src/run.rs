//! What the tools decide between the command line and the work.

use vstd::prelude::*;
use vstd::string::*;

use crate::cli::{
    backup_control, backup_suffix, control_of, effective_jobs, jobs_of, limit_of, operands_of,
    optional_path, optional_text, overwrite_policy, policy_of, rate_limit, resolve_operands,
    source_specs, spec_views, specs_of, suffix_of, Config, Operands, Surroundings,
};
use crate::copy::CopyOptions;
use crate::exclude::exclusions;
use crate::mvops::MoveOptions;
use crate::options::{BackupControl, CopyMode, Overwrite, UpdateWhen};
use crate::path::{dot, is_abs, lemma_parent_is_shorter, parent_of, RawPath, DOT, SLASH};
use crate::plan::{path_views, PlanConfig, SourceSpec};
use crate::text::{append_quoted, human_size, quoted, size_text};

verus! {

// ---------------------------------------------------------------------------
// Copying
// ---------------------------------------------------------------------------

impl Config {
    /// Bytes are copied, so that there is something to watch and to make room
    /// for.
    pub open spec fn moves_bytes(self) -> bool {
        self.mode == CopyMode::Copy && !self.attributes_only
    }

    /// Whether bytes are copied.
    pub fn copies_bytes(&self) -> (r: bool)
        ensures
            r == self.moves_bytes(),
    {
        self.mode == CopyMode::Copy && !self.attributes_only
    }

    /// Whether a bar is shown; without a flag, it is on a terminal. Scripts
    /// that read JSON get none.
    pub fn shows_progress(&self, interactive: bool) -> (r: bool)
        ensures
            r == (self.moves_bytes() && !self.json && match self.progress {
                Some(forced) => forced,
                None => interactive,
            }),
    {
        let wanted: bool = match self.progress {
            Some(forced) => forced,
            None => interactive,
        };
        wanted && self.copies_bytes() && !self.json
    }

    /// Whether a last line is printed: on a terminal, unless `--no-progress`
    /// asks for silence, and whenever details are asked for.
    pub fn shows_summary(&self, interactive: bool) -> (r: bool)
        ensures
            r == (!self.json && (self.verbose || (interactive && self.progress != Some(false)))),
    {
        let silent: bool = match self.progress {
            Some(forced) => !forced,
            None => false,
        };
        !self.json && (self.verbose || (interactive && !silent))
    }

    /// How the sources are read.
    pub fn plan_config(&self, exclude: Option<globset::GlobSet>) -> (r: PlanConfig)
        ensures
            r.recursive == self.recursive,
            r.deref == self.deref,
            r.parents == self.parents,
            r.one_file_system == self.one_file_system,
            r.copy_contents == self.copy_contents,
            r.preserve_links == self.preserve.links,
            r.dest_never_dir == self.dest_never_dir,
            r.remove_destination == self.remove_destination,
            r.exclude == exclude,
    {
        PlanConfig {
            recursive: self.recursive,
            deref: self.deref,
            parents: self.parents,
            one_file_system: self.one_file_system,
            copy_contents: self.copy_contents,
            preserve_links: self.preserve.links,
            dest_never_dir: self.dest_never_dir,
            remove_destination: self.remove_destination,
            exclude,
        }
    }

    /// How files are copied, on a machine with `cores` cores.
    pub fn copy_options(&self, cores: usize) -> (r: CopyOptions)
        ensures
            r.mode == self.mode,
            r.overwrite == self.overwrite,
            r.preserve == self.preserve,
            r.backup == self.backup,
            r.backup_suffix@ == self.backup_suffix@,
            r.reflink == self.reflink,
            r.sparse == self.sparse,
            r.remove_destination == self.remove_destination,
            r.attributes_only == self.attributes_only,
            r.verbose == self.verbose,
            r.resume == self.resume,
            r.verify == self.verify,
            r.jobs == jobs_of(self.jobs, self.overwrite, cores),
            r.bwlimit == self.bwlimit,
    {
        CopyOptions {
            mode: self.mode,
            overwrite: self.overwrite,
            preserve: self.preserve,
            backup: self.backup,
            backup_suffix: self.backup_suffix.clone(),
            reflink: self.reflink,
            sparse: self.sparse,
            remove_destination: self.remove_destination,
            attributes_only: self.attributes_only,
            verbose: self.verbose,
            resume: self.resume,
            verify: self.verify,
            jobs: effective_jobs(self.jobs, self.overwrite, cores),
            bwlimit: self.bwlimit,
        }
    }
}

// ---------------------------------------------------------------------------
// Room on the disk
// ---------------------------------------------------------------------------

/// `p` and the directories above it, one by one.
pub open spec fn ancestors_of(p: Seq<u8>) -> Seq<Seq<u8>>
    decreases p.len(),
{
    match parent_of(p) {
        Some(q) => if q.len() < p.len() {
            seq![p] + ancestors_of(q)
        } else {
            seq![p]
        },
        None => seq![p],
    }
}

/// `p` and the directories above it, one by one.
pub fn ancestors(p: &RawPath) -> (r: Vec<RawPath>)
    ensures
        path_views(r@) == ancestors_of(p@),
{
    let mut out: Vec<RawPath> = Vec::new();
    let mut cur: RawPath = p.clone();
    assert(path_views(out@) + ancestors_of(cur@) =~= ancestors_of(p@));
    loop
        invariant_except_break
            path_views(out@) + ancestors_of(cur@) == ancestors_of(p@),
        ensures
            path_views(out@) == ancestors_of(p@),
        decreases cur@.len(),
    {
        let ghost held = path_views(out@);
        let ghost here = cur@;
        let up: Option<RawPath> = cur.parent();
        out.push(cur);
        assert(path_views(out@) =~= held.push(here));
        match up {
            Some(q) => {
                proof {
                    lemma_parent_is_shorter(here);
                    assert(path_views(out@) + ancestors_of(q@) =~= held + (seq![here]
                        + ancestors_of(q@)));
                }
                cur = q;
            },
            None => {
                assert(path_views(out@) =~= held + seq![here]);
                break;
            },
        }
    }
    out
}

/// Where the way up from `p` ends: at the root, or where the process works.
pub open spec fn top_of(p: Seq<u8>) -> Seq<u8> {
    if is_abs(p) {
        seq![SLASH]
    } else {
        dot()
    }
}

/// The first of `candidates` that is there, or `top`.
pub open spec fn first_existing(candidates: Seq<Seq<u8>>, exists_at: Seq<bool>, top: Seq<u8>) -> Seq<
    u8,
>
    decreases candidates.len(),
{
    if candidates.len() == 0 {
        top
    } else if exists_at[0] {
        candidates[0]
    } else {
        first_existing(candidates.skip(1), exists_at.skip(1), top)
    }
}

/// The nearest of `p` and the directories above it that is there; of a
/// relative path the last resort is the directory that the process works in,
/// else the root. `exists_at` tells of each of `ancestors` whether it is there.
pub fn existing_ancestor(p: &RawPath, exists_at: &Vec<bool>) -> (r: RawPath)
    requires
        ancestors_of(p@).len() == exists_at@.len(),
    ensures
        r@ == first_existing(ancestors_of(p@), exists_at@, top_of(p@)),
{
    let candidates: Vec<RawPath> = ancestors(p);
    let ghost cs = path_views(candidates@);
    let ghost top = top_of(p@);
    let mut i: usize = 0;
    assert(cs.skip(0) =~= cs);
    assert(exists_at@.skip(0) =~= exists_at@);
    while i < candidates.len()
        invariant
            i <= candidates@.len() == exists_at@.len(),
            cs == path_views(candidates@),
            cs == ancestors_of(p@),
            top == top_of(p@),
            first_existing(cs, exists_at@, top) == first_existing(
                cs.skip(i as int),
                exists_at@.skip(i as int),
                top,
            ),
        decreases candidates@.len() - i,
    {
        if exists_at[i] {
            return candidates[i].clone();
        }
        assert(cs.skip(i as int).skip(1) =~= cs.skip(i + 1));
        assert(exists_at@.skip(i as int).skip(1) =~= exists_at@.skip(i + 1));
        i = i + 1;
    }
    let mut bytes: Vec<u8> = Vec::new();
    if p.is_absolute() {
        bytes.push(SLASH);
    } else {
        bytes.push(DOT);
    }
    assert(bytes@ =~= top);
    RawPath { bytes }
}

/// There is not enough room.
pub open spec fn no_room(total: u64, available: u64, probe: Seq<u8>) -> Seq<char> {
    "espace disque insuffisant : "@ + human_size(total) + " requis mais seulement "@ + human_size(
        available,
    ) + " disponibles sur "@ + quoted(probe)
}

/// Whether `total` bytes have room at `probe`, where `available` bytes are
/// left. Where the system does not say how many, nothing is refused.
pub fn check_disk_space(total: u64, available: Option<u64>, probe: &RawPath) -> (r: Result<
    (),
    String,
>)
    ensures
        match available {
            Some(n) => if total > n {
                r is Err && r->Err_0@ == no_room(total, n, probe@)
            } else {
                r is Ok
            },
            None => r is Ok,
        },
{
    if let Some(n) = available {
        if total > n {
            let mut s: String = "espace disque insuffisant : ".to_owned();
            let wanted: String = size_text(total);
            s.append(wanted.as_str());
            s.append(" requis mais seulement ");
            let left: String = size_text(n);
            s.append(left.as_str());
            s.append(" disponibles sur ");
            append_quoted(&mut s, probe);
            return Err(s);
        }
    }
    Ok(())
}

// ---------------------------------------------------------------------------
// Moving
// ---------------------------------------------------------------------------

/// The flags and operands of the moving tool.
#[derive(Debug)]
pub struct MoveArgs {
    pub paths: Vec<RawPath>,
    pub interactive: bool,
    pub no_clobber: bool,
    pub update: Option<UpdateWhen>,
    pub backup: Option<BackupControl>,
    pub suffix: Option<String>,
    pub target_directory: Option<RawPath>,
    pub no_target_directory: bool,
    pub strip_trailing_slashes: bool,
    pub verbose: bool,
    pub progress: bool,
    pub no_progress: bool,
    pub resume: bool,
    pub verify: bool,
    pub jobs: usize,
    pub json: bool,
    pub bwlimit: Option<String>,
}

/// What the flags of the moving tool amount to, but for the patterns.
pub struct MoveConfig {
    pub sources: Vec<SourceSpec>,
    pub destination: RawPath,
    pub opts: MoveOptions,
}

/// A configuration for moving, with paths as byte strings and texts as
/// characters.
pub struct MoveConfigView {
    pub sources: Seq<(Seq<u8>, bool)>,
    pub destination: Seq<u8>,
    pub overwrite: Overwrite,
    pub backup: Option<BackupControl>,
    pub backup_suffix: Seq<char>,
    pub dest_never_dir: bool,
    pub verbose: bool,
    pub resume: bool,
    pub verify: bool,
    pub jobs: usize,
    pub bwlimit: Option<u64>,
    pub exclude: Seq<Seq<char>>,
    pub show_progress: bool,
}

impl View for MoveConfig {
    type V = MoveConfigView;

    open spec fn view(&self) -> MoveConfigView {
        MoveConfigView {
            sources: spec_views(self.sources@),
            destination: self.destination@,
            overwrite: self.opts.overwrite,
            backup: self.opts.backup,
            backup_suffix: self.opts.backup_suffix@,
            dest_never_dir: self.opts.dest_never_dir,
            verbose: self.opts.verbose,
            resume: self.opts.resume,
            verify: self.opts.verify,
            jobs: self.opts.jobs,
            bwlimit: self.opts.bwlimit,
            exclude: exclusions(self.opts.exclude),
            show_progress: self.opts.show_progress,
        }
    }
}

impl MoveArgs {
    /// A bar is shown.
    pub open spec fn shows_bar(self, interactive: bool) -> bool {
        !self.json && if self.progress {
            true
        } else if self.no_progress {
            false
        } else {
            interactive
        }
    }

    /// What the command line amounts to, or the first thing that is wrong with
    /// it.
    pub open spec fn resolved(self, seen: Surroundings, cores: usize, interactive: bool) -> Result<
        MoveConfigView,
        Seq<char>,
    > {
        let overwrite = policy_of(self.interactive, self.no_clobber, self.update);
        match operands_of(
            path_views(self.paths@),
            optional_path(self.target_directory),
            self.no_target_directory,
            seen.dest_is_dir,
            seen.dest_exists,
        ) {
            Err(m) => Err(m),
            Ok(o) => match limit_of(optional_text(self.bwlimit), seen.rate_number) {
                Err(m) => Err(m),
                Ok(bwlimit) => Ok(
                    MoveConfigView {
                        sources: specs_of(o.sources, self.strip_trailing_slashes),
                        destination: o.destination,
                        overwrite,
                        backup: control_of(self.backup),
                        backup_suffix: suffix_of(
                            optional_text(self.suffix),
                            optional_text(seen.env_suffix),
                        ),
                        dest_never_dir: self.no_target_directory,
                        verbose: self.verbose,
                        resume: self.resume,
                        verify: self.verify,
                        jobs: jobs_of(self.jobs, overwrite, cores),
                        bwlimit,
                        exclude: Seq::empty(),
                        show_progress: self.shows_bar(interactive),
                    },
                ),
            },
        }
    }

    /// Works out what the command line amounts to, on a machine with `cores`
    /// cores, on a terminal or not.
    pub fn resolve(&self, seen: &Surroundings, cores: usize, interactive: bool) -> (r: Result<
        MoveConfig,
        String,
    >)
        ensures
            match self.resolved(*seen, cores, interactive) {
                Ok(c) => r is Ok && r->Ok_0@ == c,
                Err(m) => r is Err && r->Err_0@ == m,
            },
    {
        let operands: Operands = match resolve_operands(
            &self.paths,
            &self.target_directory,
            self.no_target_directory,
            seen.dest_is_dir,
            seen.dest_exists,
        ) {
            Ok(o) => o,
            Err(e) => {
                return Err(e);
            },
        };
        let overwrite: Overwrite = overwrite_policy(self.interactive, self.no_clobber, self.update);
        let bwlimit: Option<u64> = match rate_limit(&self.bwlimit, seen.rate_number) {
            Ok(l) => l,
            Err(e) => {
                return Err(e);
            },
        };
        let wanted: bool = if self.progress {
            true
        } else if self.no_progress {
            false
        } else {
            interactive
        };
        let opts: MoveOptions = MoveOptions {
            overwrite,
            backup: backup_control(self.backup),
            backup_suffix: backup_suffix(&self.suffix, &seen.env_suffix),
            dest_never_dir: self.no_target_directory,
            verbose: self.verbose,
            resume: self.resume,
            verify: self.verify,
            jobs: effective_jobs(self.jobs, overwrite, cores),
            bwlimit,
            exclude: None,
            show_progress: wanted && !self.json,
        };
        let sources: Vec<SourceSpec> = source_specs(operands.sources, self.strip_trailing_slashes);
        Ok(MoveConfig { sources, destination: operands.destination, opts })
    }
}

} // verus!
