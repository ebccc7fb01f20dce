//! How one entry of a plan is carried out, step by step.
//!
//! The steps are decided here; somebody else performs them. A run is at one
//! place at a time. The place says which operation comes next, and the reply
//! to that operation says which place follows, until the run is finished.
//!
//! A file is written under a temporary name in the directory where it is to
//! go, and takes its final name only when it is complete.

use vstd::prelude::*;

use crate::options::{BackupControl, CopyMode, Overwrite, Preserve, Reflink};
use crate::plan::FileKind;

verus! {

// ---------------------------------------------------------------------------
// What is to be done
// ---------------------------------------------------------------------------

/// What kind of thing a run makes.
#[derive(Debug, Clone, Copy, PartialEq, Eq, Structural)]
pub enum Work {
    File,
    Symlink,
    Fifo,
    /// A special file that is read as a stream.
    Special,
    /// A hard link to an earlier copy, which stands in for the source.
    HardLink,
    /// A move by renaming.
    Move,
    /// The attributes of a directory that is there.
    Dir,
}

/// All that a run needs to know beforehand.
#[derive(Debug, Clone, Copy, PartialEq, Eq, Structural)]
pub struct Job {
    pub work: Work,
    pub mode: CopyMode,
    pub overwrite: Overwrite,
    pub preserve: Preserve,
    pub backup: Option<BackupControl>,
    pub reflink: Reflink,
    /// Blocks of zeros become holes.
    pub sparse: bool,
    pub remove_destination: bool,
    pub attributes_only: bool,
    pub resume: bool,
    pub verify: bool,
    /// The speed is limited.
    pub throttled: bool,
    /// Somebody watches the bytes go by.
    pub watched: bool,
    /// The size of the source.
    pub size: u64,
    /// A symbolic link to the source, as it is named, would lead nowhere.
    pub stray_link: bool,
    /// The destination names a directory that it is in.
    pub has_parent: bool,
}

/// A moment, in seconds since the epoch and nanoseconds.
#[derive(Debug, Clone, Copy, PartialEq, Eq, Structural)]
pub struct Stamp {
    pub secs: i64,
    pub nanos: u32,
}

/// `a` is no earlier than `b`.
pub open spec fn no_earlier(a: Stamp, b: Stamp) -> bool {
    a.secs > b.secs || (a.secs == b.secs && a.nanos >= b.nanos)
}

/// Whether `a` is no earlier than `b`.
pub fn is_no_earlier(a: &Stamp, b: &Stamp) -> (r: bool)
    ensures
        r == no_earlier(*a, *b),
{
    a.secs > b.secs || (a.secs == b.secs && a.nanos >= b.nanos)
}

/// The places that an operation can speak of.
#[derive(Debug, Clone, Copy, PartialEq, Eq, Structural)]
pub enum Loc {
    /// The source; for a hard link, the earlier copy.
    Src,
    /// The destination.
    Dst,
    /// The temporary name beside the destination.
    Tmp,
}

/// The name under which an existing destination is saved.
#[derive(Debug, Clone, Copy, PartialEq, Eq, Structural)]
pub enum BackupName {
    Simple,
    Numbered(u32),
}

/// How the bytes of a file get into the temporary file.
#[derive(Debug, Clone, Copy, PartialEq, Eq, Structural)]
pub enum Route {
    /// By sharing blocks.
    Clone,
    /// Block by block, leaving out blocks of zeros.
    Sparse,
    /// Block by block.
    Buffered,
    /// By the system, which copies the permissions too.
    Fast,
    /// Block by block, from a source without a size.
    Stream,
}

/// One operation.
#[derive(Debug, Clone, Copy, PartialEq, Eq, Structural)]
pub enum Op {
    /// Look at a place, following a link there or not.
    Look { at: Loc, follow: bool },
    /// Ask whether the destination may be overwritten.
    Ask,
    /// Find the highest number among the numbered backups.
    ListBackups,
    /// Rename the destination to a backup.
    SetAside(BackupName),
    /// Make the directory that the destination is in.
    MakeParent,
    RemoveFile(Loc),
    /// Remove the directory at the destination with all that is in it.
    RemoveTree,
    /// Give the source a second name, the destination.
    HardLink,
    /// Make a symbolic link to the source.
    SymlinkToSource,
    /// Make an empty file at the destination.
    CreateEmpty,
    /// Read where the link at the source leads.
    ReadLink,
    /// Make a link that leads there.
    Relink,
    MakeFifo,
    /// Fill the temporary file.
    Transfer(Route),
    /// Give the temporary file the permissions of the source.
    CopyPermissions,
    /// Give a place to an owner and a group.
    SetOwner { at: Loc, uid: u32, gid: u32 },
    /// Give a place a mode.
    SetMode { at: Loc, mode: u32 },
    /// Give a place its times.
    SetTimes { at: Loc, times: Times },
    /// Give the link at the destination, not what it leads to, its times.
    SetLinkTimes(Times),
    /// Copy the extended attributes of the source to a place, following a link
    /// at the source or not.
    CopyXattrs { at: Loc, follow: bool },
    /// Compute the checksum of the contents.
    Checksum(Loc),
    /// Rename the temporary file to the destination.
    Publish,
    /// Rename the source to the destination.
    Rename,
}

/// When a file was last read and last changed, as it is kept.
#[derive(Debug, Clone, Copy, PartialEq, Eq, Structural)]
pub struct Times {
    pub accessed: Stamp,
    pub modified: Stamp,
}

/// What was seen at a place.
#[derive(Debug, Clone, Copy, PartialEq, Eq, Structural)]
pub struct Facts {
    pub kind: FileKind,
    pub len: u64,
    /// The permissions and the bits beside them.
    pub mode: u32,
    /// When it was last changed, for a comparison, as far as the system tells.
    pub modified: Option<Stamp>,
    /// The times that a copy keeps.
    pub times: Times,
    pub uid: u32,
    pub gid: u32,
}

/// What an operation came to.
#[derive(Debug, Clone, Copy, PartialEq, Eq, Structural)]
pub enum Reply {
    Done,
    /// It failed; of a look: nothing is there.
    Failed,
    /// A rename failed because the two places are on different file systems.
    CrossDevice,
    Saw(Facts),
    /// The answer of the user.
    Answer(bool),
    /// The highest number among the backups, if there is any.
    Highest(Option<u32>),
    /// This many bytes went into the temporary file.
    Copied(u64),
    Checksum(u64),
}

/// Why a run failed.
#[derive(Debug, Clone, Copy, PartialEq, Eq, Structural)]
pub enum Why {
    /// An operation failed.
    Broken,
    /// The destination could not be saved.
    Backup,
    /// An attribute could not be kept.
    Attributes,
    /// A relative link would lead nowhere.
    StrayLink,
    /// A link cannot replace a directory.
    LinkOverDirectory,
    /// The copy is not the same as the source.
    Mismatch,
}

/// What a run came to.
#[derive(Debug, Clone, Copy, PartialEq, Eq, Structural)]
pub enum Outcome {
    /// It is there.
    Copied,
    /// The source has its new name.
    Renamed,
    /// The source cannot be renamed to another file system.
    CrossDevice,
    /// The destination exists and is kept.
    Skipped,
    /// The destination exists, is kept, and that is an error.
    Refused,
    /// It was there already.
    AlreadyPresent,
    /// The destination is a directory.
    DirectoryInTheWay,
    Failed(Why),
}

/// Where a run is: which operation it waits for.
#[derive(Debug, Clone, Copy, PartialEq, Eq, Structural)]
pub enum At {
    DirCheck,
    Exists,
    SourceTime,
    DestTime(Option<Stamp>),
    Asking,
    Resuming,
    BackupLook,
    BackupList,
    SettingAside(BackupName),
    /// Looking what is in the way, before the directory of the destination is
    /// made or after.
    ClearLook { early: bool },
    ClearFile { early: bool },
    ClearTree { early: bool },
    Parent,
    Linking,
    Symlinking,
    CreateLook,
    Creating,
    LinkRead,
    LinkLook,
    LinkClear,
    Relinking,
    LinkAttrLook,
    /// From here on, with what was seen at the source.
    LinkOwnerLook(Facts),
    LinkOwner(Facts),
    LinkTimes(Facts),
    FifoMaking,
    Transferring(Route),
    Permissions,
    AttrLook(Loc),
    /// From here on, with what was seen at the source.
    OwnerLook { at: Loc, model: Facts },
    Owner { at: Loc, model: Facts },
    Mode { at: Loc, model: Facts },
    Times { at: Loc, model: Facts },
    Xattr(Loc),
    SourceSum,
    CopySum(u64),
    Publishing,
    /// Removing the temporary file after a failure.
    Discarding(Why),
    Renaming,
    Finished(Outcome),
}

/// A run: where it is, and how many bytes went into the temporary file.
#[derive(Debug, Clone, Copy, PartialEq, Eq, Structural)]
pub struct Run {
    pub at: At,
    pub bytes: u64,
}

/// A numbered backup after the one with the highest number that replies speak
/// of can still be counted.
pub open spec fn countable(reply: Reply) -> bool {
    reply matches Reply::Highest(Some(n)) ==> n < u32::MAX
}

// ---------------------------------------------------------------------------
// The order of the steps
// ---------------------------------------------------------------------------

impl Job {
    /// The job makes a file with the contents of the source.
    pub open spec fn copies_data(self) -> bool {
        self.work == Work::File && self.mode == CopyMode::Copy && !self.attributes_only
    }

    /// Whether the job makes a file with the contents of the source.
    pub fn is_copying_data(&self) -> (r: bool)
        ensures
            r == self.copies_data(),
    {
        self.work == Work::File && self.mode == CopyMode::Copy && !self.attributes_only
    }

    /// Links are followed when ages are compared.
    pub open spec fn follows(self) -> bool {
        self.work == Work::File || self.work == Work::Special || self.work == Work::HardLink
    }

    fn is_following(&self) -> (r: bool)
        ensures
            r == self.follows(),
    {
        self.work == Work::File || self.work == Work::Special || self.work == Work::HardLink
    }

    /// The attributes that are kept are those of what the source leads to, as
    /// the contents are.
    pub open spec fn keeps_reached(self) -> bool {
        self.work == Work::File || self.work == Work::Special || self.work == Work::Fifo
            || self.work == Work::Dir
    }

    fn is_keeping_reached(&self) -> (r: bool)
        ensures
            r == self.keeps_reached(),
    {
        self.work == Work::File || self.work == Work::Special || self.work == Work::Fifo
            || self.work == Work::Dir
    }

    /// Where a run starts.
    pub open spec fn start(self) -> At {
        if self.work == Work::Dir {
            self.attributes(Loc::Dst)
        } else if self.follows() {
            At::DirCheck
        } else {
            At::Exists
        }
    }

    /// Once it is settled that something may be done.
    #[verifier::opaque]
    pub open spec fn allowed(self) -> At {
        if self.resume && (self.work == Work::File || self.work == Work::Symlink) {
            At::Resuming
        } else {
            self.not_present()
        }
    }

    fn go_allowed(&self) -> (r: At)
        ensures
            r == self.allowed(),
    {
        proof {
            reveal(Job::allowed);
        }
        if self.resume && (self.work == Work::File || self.work == Work::Symlink) {
            At::Resuming
        } else {
            self.go_not_present()
        }
    }

    /// Once it is settled that it is not there already.
    #[verifier::opaque]
    pub open spec fn not_present(self) -> At {
        match self.backup {
            None | Some(BackupControl::Off) => self.saved(),
            _ => At::BackupLook,
        }
    }

    fn go_not_present(&self) -> (r: At)
        ensures
            r == self.not_present(),
    {
        proof {
            reveal(Job::not_present);
        }
        match self.backup {
            None | Some(BackupControl::Off) => self.go_saved(),
            _ => At::BackupLook,
        }
    }

    /// Once nothing is left to be saved.
    #[verifier::opaque]
    pub open spec fn saved(self) -> At {
        if self.work == Work::Move {
            At::Renaming
        } else if self.work == Work::File && self.remove_destination {
            At::ClearLook { early: true }
        } else {
            self.cleared_early()
        }
    }

    fn go_saved(&self) -> (r: At)
        ensures
            r == self.saved(),
    {
        proof {
            reveal(Job::saved);
        }
        if self.work == Work::Move {
            At::Renaming
        } else if self.work == Work::File && self.remove_destination {
            At::ClearLook { early: true }
        } else {
            self.go_cleared_early()
        }
    }

    /// Once the destination is removed, where that was asked for.
    #[verifier::opaque]
    pub open spec fn cleared_early(self) -> At {
        if self.has_parent {
            At::Parent
        } else {
            self.housed()
        }
    }

    fn go_cleared_early(&self) -> (r: At)
        ensures
            r == self.cleared_early(),
    {
        proof {
            reveal(Job::cleared_early);
        }
        if self.has_parent {
            At::Parent
        } else {
            self.go_housed()
        }
    }

    /// Once the directory of the destination is there.
    #[verifier::opaque]
    pub open spec fn housed(self) -> At {
        match self.work {
            Work::File => match self.mode {
                CopyMode::Link => At::ClearLook { early: false },
                CopyMode::Symlink => if self.stray_link {
                    At::Finished(Outcome::Failed(Why::StrayLink))
                } else {
                    At::ClearLook { early: false }
                },
                CopyMode::Copy => if self.attributes_only {
                    At::CreateLook
                } else if self.reflink != Reflink::Off && !self.throttled {
                    At::Transferring(Route::Clone)
                } else {
                    At::Transferring(self.plain_route())
                },
            },
            Work::Symlink => At::LinkRead,
            Work::Fifo | Work::HardLink => At::ClearLook { early: false },
            Work::Special => At::Transferring(Route::Stream),
            Work::Move => At::Renaming,
            Work::Dir => At::Finished(Outcome::Copied),
        }
    }

    fn go_housed(&self) -> (r: At)
        ensures
            r == self.housed(),
    {
        proof {
            reveal(Job::housed);
        }
        match self.work {
            Work::File => match self.mode {
                CopyMode::Link => At::ClearLook { early: false },
                CopyMode::Symlink => {
                    if self.stray_link {
                        At::Finished(Outcome::Failed(Why::StrayLink))
                    } else {
                        At::ClearLook { early: false }
                    }
                },
                CopyMode::Copy => {
                    if self.attributes_only {
                        At::CreateLook
                    } else if self.reflink != Reflink::Off && !self.throttled {
                        At::Transferring(Route::Clone)
                    } else {
                        At::Transferring(self.choose_plain_route())
                    }
                },
            },
            Work::Symlink => At::LinkRead,
            Work::Fifo | Work::HardLink => At::ClearLook { early: false },
            Work::Special => At::Transferring(Route::Stream),
            Work::Move => At::Renaming,
            Work::Dir => At::Finished(Outcome::Copied),
        }
    }

    /// The route when no blocks are shared: bytes that are watched or limited
    /// go through a buffer.
    pub open spec fn plain_route(self) -> Route {
        if self.sparse {
            Route::Sparse
        } else if self.watched || self.throttled {
            Route::Buffered
        } else {
            Route::Fast
        }
    }

    fn choose_plain_route(&self) -> (r: Route)
        ensures
            r == self.plain_route(),
    {
        if self.sparse {
            Route::Sparse
        } else if self.watched || self.throttled {
            Route::Buffered
        } else {
            Route::Fast
        }
    }

    /// Once nothing is in the way any more.
    pub open spec fn cleared(self, early: bool) -> At {
        if early {
            self.cleared_early()
        } else if self.work == Work::Fifo {
            At::FifoMaking
        } else if self.work == Work::File && self.mode == CopyMode::Symlink {
            At::Symlinking
        } else {
            At::Linking
        }
    }

    fn go_cleared(&self, early: bool) -> (r: At)
        ensures
            r == self.cleared(early),
    {
        if early {
            self.go_cleared_early()
        } else if self.work == Work::Fifo {
            At::FifoMaking
        } else if self.work == Work::File && self.mode == CopyMode::Symlink {
            At::Symlinking
        } else {
            At::Linking
        }
    }

    /// Once there is something at `at` that attributes can be given to.
    #[verifier::opaque]
    pub open spec fn attributes(self, at: Loc) -> At {
        if self.preserve == crate::options::nothing_kept() {
            self.dressed(at)
        } else {
            At::AttrLook(at)
        }
    }

    fn go_attributes(&self, at: Loc) -> (r: At)
        ensures
            r == self.attributes(at),
    {
        proof {
            reveal(Job::attributes);
        }
        if self.preserve.any() {
            At::AttrLook(at)
        } else {
            self.go_dressed(at)
        }
    }

    /// Once the owner is right: the owner comes before the mode, for to change
    /// the owner can change the mode.
    #[verifier::opaque]
    pub open spec fn owned(self, at: Loc, model: Facts) -> At {
        if self.preserve.mode {
            At::Mode { at, model }
        } else {
            self.moded(at, model)
        }
    }

    fn go_owned(&self, at: Loc, model: Facts) -> (r: At)
        ensures
            r == self.owned(at, model),
    {
        proof {
            reveal(Job::owned);
        }
        if self.preserve.mode {
            At::Mode { at, model }
        } else {
            self.go_moded(at, model)
        }
    }

    /// Once the mode is right.
    #[verifier::opaque]
    pub open spec fn moded(self, at: Loc, model: Facts) -> At {
        if self.preserve.timestamps {
            At::Times { at, model }
        } else {
            self.timed(at)
        }
    }

    fn go_moded(&self, at: Loc, model: Facts) -> (r: At)
        ensures
            r == self.moded(at, model),
    {
        proof {
            reveal(Job::moded);
        }
        if self.preserve.timestamps {
            At::Times { at, model }
        } else {
            self.go_timed(at)
        }
    }

    /// Once the times are right.
    #[verifier::opaque]
    pub open spec fn timed(self, at: Loc) -> At {
        if self.preserve.xattr {
            At::Xattr(at)
        } else {
            self.dressed(at)
        }
    }

    fn go_timed(&self, at: Loc) -> (r: At)
        ensures
            r == self.timed(at),
    {
        proof {
            reveal(Job::timed);
        }
        if self.preserve.xattr {
            At::Xattr(at)
        } else {
            self.go_dressed(at)
        }
    }

    /// Once all attributes are right: a temporary file is checked, when asked,
    /// and takes its name.
    #[verifier::opaque]
    pub open spec fn dressed(self, at: Loc) -> At {
        if at != Loc::Tmp {
            At::Finished(Outcome::Copied)
        } else if self.verify {
            At::SourceSum
        } else {
            At::Publishing
        }
    }

    fn go_dressed(&self, at: Loc) -> (r: At)
        ensures
            r == self.dressed(at),
    {
        proof {
            reveal(Job::dressed);
        }
        if at != Loc::Tmp {
            At::Finished(Outcome::Copied)
        } else if self.verify {
            At::SourceSum
        } else {
            At::Publishing
        }
    }

    /// What follows the failure to give `at` its attributes.
    pub open spec fn undressed(self, at: Loc) -> At {
        if at == Loc::Tmp {
            At::Discarding(Why::Attributes)
        } else {
            At::Finished(Outcome::Failed(Why::Broken))
        }
    }
}

fn go_undressed(job: &Job, at: Loc) -> (r: At)
    ensures
        r == job.undressed(at),
{
    if at == Loc::Tmp {
        At::Discarding(Why::Attributes)
    } else {
        At::Finished(Outcome::Failed(Why::Broken))
    }
}

/// When the place was last changed, as far as it was seen.
pub open spec fn modified_in(reply: Reply) -> Option<Stamp> {
    match reply {
        Reply::Saw(f) => f.modified,
        _ => None,
    }
}

fn get_modified(reply: &Reply) -> (r: Option<Stamp>)
    ensures
        r == modified_in(*reply),
{
    match reply {
        Reply::Saw(f) => f.modified,
        _ => None,
    }
}

/// The destination, last changed at `d`, is known to be no older than the
/// source, last changed at `s`.
pub open spec fn known_newer(d: Option<Stamp>, s: Option<Stamp>) -> bool {
    d is Some && s is Some && no_earlier(d.unwrap(), s.unwrap())
}

/// Whether the destination, last changed at `d`, is known to be no older than
/// the source, last changed at `s`.
pub fn is_known_newer(d: &Option<Stamp>, s: &Option<Stamp>) -> (r: bool)
    ensures
        r == known_newer(*d, *s),
{
    match (d, s) {
        (Some(x), Some(y)) => is_no_earlier(x, y),
        _ => false,
    }
}

/// The place is seen to be a `kind`.
pub open spec fn saw_kind(reply: Reply, kind: FileKind) -> bool {
    reply matches Reply::Saw(f) && f.kind == kind
}

fn is_kind(reply: &Reply, kind: FileKind) -> (r: bool)
    ensures
        r == saw_kind(*reply, kind),
{
    match reply {
        Reply::Saw(f) => f.kind == kind,
        _ => false,
    }
}

/// The place is seen to have this owner and this group.
pub open spec fn saw_owner(reply: Reply, uid: u32, gid: u32) -> bool {
    reply matches Reply::Saw(f) && f.uid == uid && f.gid == gid
}

fn is_owner(reply: &Reply, uid: u32, gid: u32) -> (r: bool)
    ensures
        r == saw_owner(*reply, uid, gid),
{
    match reply {
        Reply::Saw(f) => f.uid == uid && f.gid == gid,
        _ => false,
    }
}

/// What is seen is a regular file with `size` bytes.
pub open spec fn complete_file(seen: Option<Facts>, size: u64) -> bool {
    seen matches Some(f) && f.kind == FileKind::File && f.len == size
}

/// Whether what is seen at the destination stands for a copy of `src_size`
/// bytes that was made before. A copy that was interrupted leaves nothing
/// under the final name, so that the size tells.
pub fn is_up_to_date(seen: &Option<Facts>, src_size: u64) -> (r: bool)
    ensures
        r == complete_file(*seen, src_size),
{
    match seen {
        Some(f) => f.kind == FileKind::File && f.len == src_size,
        None => false,
    }
}

/// Whether a copy would overwrite what is seen at the destination, without
/// following a link there.
pub fn would_overwrite(seen: &Option<Facts>) -> (r: bool)
    ensures
        r == (*seen is Some),
{
    seen.is_some()
}

/// What a look saw.
pub open spec fn seen_in(reply: Reply) -> Option<Facts> {
    match reply {
        Reply::Saw(f) => Some(f),
        _ => None,
    }
}

fn get_seen(reply: &Reply) -> (r: Option<Facts>)
    ensures
        r == seen_in(*reply),
{
    match reply {
        Reply::Saw(f) => Some(*f),
        _ => None,
    }
}

/// An existing file with the right size, or an existing link, stands for a
/// copy that was made before.
pub open spec fn present(job: Job, reply: Reply) -> bool {
    if job.work == Work::Symlink {
        saw_kind(reply, FileKind::Symlink)
    } else {
        complete_file(seen_in(reply), job.size)
    }
}

fn is_present(job: &Job, reply: &Reply) -> (r: bool)
    ensures
        r == present(*job, *reply),
{
    if job.work == Work::Symlink {
        is_kind(reply, FileKind::Symlink)
    } else {
        is_up_to_date(&get_seen(reply), job.size)
    }
}

/// The name for a backup, when `highest` is the highest number in use.
pub open spec fn backup_name(control: BackupControl, highest: Option<u32>) -> BackupName {
    match (control, highest) {
        (BackupControl::Numbered, None) => BackupName::Numbered(1),
        (BackupControl::Numbered, Some(n)) => BackupName::Numbered((n + 1) as u32),
        (BackupControl::Existing, Some(n)) => BackupName::Numbered((n + 1) as u32),
        _ => BackupName::Simple,
    }
}

/// The name for a backup, when `highest` is the highest number in use.
pub fn choose_backup(control: BackupControl, highest: Option<u32>) -> (r: BackupName)
    requires
        highest is Some ==> highest.unwrap() < u32::MAX,
    ensures
        r == backup_name(control, highest),
{
    match (control, highest) {
        (BackupControl::Numbered, None) => BackupName::Numbered(1),
        (BackupControl::Numbered, Some(n)) => BackupName::Numbered(n + 1),
        (BackupControl::Existing, Some(n)) => BackupName::Numbered(n + 1),
        _ => BackupName::Simple,
    }
}

/// The highest number that a reply speaks of.
pub open spec fn highest_in(reply: Reply) -> Option<u32> {
    match reply {
        Reply::Highest(h) => h,
        _ => None,
    }
}

impl Job {
    /// What follows a look at an existing destination under the policy.
    pub open spec fn policy(self) -> At {
        match self.overwrite {
            Overwrite::Clobber => self.allowed(),
            Overwrite::NoClobber => At::Finished(Outcome::Skipped),
            Overwrite::NoClobberFail => At::Finished(Outcome::Refused),
            Overwrite::Update => At::SourceTime,
            Overwrite::Interactive => At::Asking,
        }
    }

    /// Once a link is owned as its model is.
    pub open spec fn link_owned(self, model: Facts) -> At {
        if self.preserve.timestamps {
            At::LinkTimes(model)
        } else {
            At::Finished(Outcome::Copied)
        }
    }

    fn go_link_owned(&self, model: Facts) -> (r: At)
        ensures
            r == self.link_owned(model),
    {
        if self.preserve.timestamps {
            At::LinkTimes(model)
        } else {
            At::Finished(Outcome::Copied)
        }
    }

    /// The control under which the destination is saved.
    pub open spec fn control(self) -> BackupControl {
        match self.backup {
            Some(c) => c,
            None => BackupControl::Off,
        }
    }

    /// The place that follows `at` when its operation came to `reply`.
    pub open spec fn next_at(self, at: At, reply: Reply) -> At {
        let broken = At::Finished(Outcome::Failed(Why::Broken));
        let done = reply == Reply::Done;
        match at {
            At::DirCheck => if saw_kind(reply, FileKind::Dir) {
                At::Finished(Outcome::DirectoryInTheWay)
            } else {
                At::Exists
            },
            At::Exists => if reply is Saw {
                self.policy()
            } else {
                self.allowed()
            },
            At::SourceTime => At::DestTime(modified_in(reply)),
            At::DestTime(s) => if known_newer(modified_in(reply), s) {
                At::Finished(Outcome::Skipped)
            } else {
                self.allowed()
            },
            At::Asking => if reply == Reply::Answer(true) {
                self.allowed()
            } else {
                At::Finished(Outcome::Skipped)
            },
            At::Resuming => if present(self, reply) {
                At::Finished(Outcome::AlreadyPresent)
            } else {
                self.not_present()
            },
            At::BackupLook => if !(reply is Saw) {
                self.saved()
            } else if self.control() == BackupControl::Simple {
                At::SettingAside(BackupName::Simple)
            } else {
                At::BackupList
            },
            At::BackupList => At::SettingAside(backup_name(self.control(), highest_in(reply))),
            At::SettingAside(_) => if done {
                self.saved()
            } else {
                At::Finished(Outcome::Failed(Why::Backup))
            },
            At::ClearLook { early } => if saw_kind(reply, FileKind::Dir) {
                At::ClearTree { early }
            } else if reply is Saw {
                At::ClearFile { early }
            } else {
                self.cleared(early)
            },
            At::ClearFile { early } | At::ClearTree { early } => if done {
                self.cleared(early)
            } else {
                broken
            },
            At::Parent => if done {
                self.housed()
            } else {
                broken
            },
            At::Linking | At::Symlinking => if done {
                At::Finished(Outcome::Copied)
            } else {
                broken
            },
            At::CreateLook => if reply is Saw {
                self.attributes(Loc::Dst)
            } else {
                At::Creating
            },
            At::Creating | At::FifoMaking => if done {
                self.attributes(Loc::Dst)
            } else {
                broken
            },
            At::LinkRead => if done {
                At::LinkLook
            } else {
                broken
            },
            At::LinkLook => if saw_kind(reply, FileKind::Dir) {
                At::Finished(Outcome::Failed(Why::LinkOverDirectory))
            } else if reply is Saw {
                At::LinkClear
            } else {
                At::Relinking
            },
            At::LinkClear => if done {
                At::Relinking
            } else {
                broken
            },
            At::Relinking => if !done {
                broken
            } else if self.preserve.ownership || self.preserve.timestamps {
                At::LinkAttrLook
            } else {
                At::Finished(Outcome::Copied)
            },
            At::LinkAttrLook => match reply {
                Reply::Saw(f) => if self.preserve.ownership {
                    At::LinkOwnerLook(f)
                } else {
                    self.link_owned(f)
                },
                _ => broken,
            },
            At::LinkOwnerLook(f) => if saw_owner(reply, f.uid, f.gid) {
                self.link_owned(f)
            } else {
                At::LinkOwner(f)
            },
            At::LinkOwner(f) => if done {
                self.link_owned(f)
            } else {
                broken
            },
            At::LinkTimes(_) => At::Finished(Outcome::Copied),
            At::Transferring(Route::Clone) => if done {
                At::Permissions
            } else if self.reflink == Reflink::Always {
                At::Discarding(Why::Broken)
            } else {
                At::Transferring(self.plain_route())
            },
            At::Transferring(route) => if !(reply is Copied) {
                At::Discarding(Why::Broken)
            } else if route == Route::Stream {
                At::Publishing
            } else if route == Route::Fast {
                self.attributes(Loc::Tmp)
            } else {
                At::Permissions
            },
            At::Permissions => if done {
                self.attributes(Loc::Tmp)
            } else {
                At::Discarding(Why::Broken)
            },
            At::AttrLook(l) => match reply {
                Reply::Saw(f) => if self.preserve.ownership {
                    At::OwnerLook { at: l, model: f }
                } else {
                    self.owned(l, f)
                },
                _ => self.undressed(l),
            },
            At::OwnerLook { at: l, model } => if saw_owner(reply, model.uid, model.gid) {
                self.owned(l, model)
            } else {
                At::Owner { at: l, model }
            },
            At::Owner { at: l, model } => if done {
                self.owned(l, model)
            } else {
                self.undressed(l)
            },
            At::Mode { at: l, model } => if done {
                self.moded(l, model)
            } else {
                self.undressed(l)
            },
            At::Times { at: l, .. } => if done {
                self.timed(l)
            } else {
                self.undressed(l)
            },
            At::Xattr(l) => if done {
                self.dressed(l)
            } else {
                self.undressed(l)
            },
            At::SourceSum => match reply {
                Reply::Checksum(c) => At::CopySum(c),
                _ => At::Discarding(Why::Broken),
            },
            At::CopySum(c) => match reply {
                Reply::Checksum(d) => if c == d {
                    At::Publishing
                } else {
                    At::Discarding(Why::Mismatch)
                },
                _ => At::Discarding(Why::Broken),
            },
            At::Publishing => if !done {
                At::Discarding(Why::Broken)
            } else if self.work == Work::Special {
                self.attributes(Loc::Dst)
            } else {
                At::Finished(Outcome::Copied)
            },
            At::Discarding(why) => At::Finished(Outcome::Failed(why)),
            At::Renaming => match reply {
                Reply::Done => At::Finished(Outcome::Renamed),
                Reply::CrossDevice => At::Finished(Outcome::CrossDevice),
                _ => broken,
            },
            At::Finished(o) => At::Finished(o),
        }
    }

    fn go_policy(&self) -> (r: At)
        ensures
            r == self.policy(),
    {
        match self.overwrite {
            Overwrite::Clobber => self.go_allowed(),
            Overwrite::NoClobber => At::Finished(Outcome::Skipped),
            Overwrite::NoClobberFail => At::Finished(Outcome::Refused),
            Overwrite::Update => At::SourceTime,
            Overwrite::Interactive => At::Asking,
        }
    }

    fn go_backup(&self, reply: &Reply) -> (r: At)
        requires
            countable(*reply),
        ensures
            r == self.next_at(At::BackupList, *reply),
    {
        let control: BackupControl = match self.backup {
            Some(c) => c,
            None => BackupControl::Off,
        };
        let highest: Option<u32> = match reply {
            Reply::Highest(h) => *h,
            _ => None,
        };
        At::SettingAside(choose_backup(control, highest))
    }

    /// The steps of a link that is made anew.
    fn go_link(&self, at: At, reply: &Reply) -> (r: At)
        requires
            at is LinkRead || at is LinkLook || at is LinkClear || at is Relinking
                || at is LinkAttrLook || at is LinkOwnerLook || at is LinkOwner || at is LinkTimes,
        ensures
            r == self.next_at(at, *reply),
    {
        let done: bool = *reply == Reply::Done;
        let broken: At = At::Finished(Outcome::Failed(Why::Broken));
        match at {
            At::LinkRead => {
                if done {
                    At::LinkLook
                } else {
                    broken
                }
            },
            At::LinkLook => {
                if is_kind(reply, FileKind::Dir) {
                    At::Finished(Outcome::Failed(Why::LinkOverDirectory))
                } else if matches!(reply, Reply::Saw(_)) {
                    At::LinkClear
                } else {
                    At::Relinking
                }
            },
            At::LinkClear => {
                if done {
                    At::Relinking
                } else {
                    broken
                }
            },
            At::Relinking => {
                if !done {
                    broken
                } else if self.preserve.ownership || self.preserve.timestamps {
                    At::LinkAttrLook
                } else {
                    At::Finished(Outcome::Copied)
                }
            },
            At::LinkAttrLook => match reply {
                Reply::Saw(f) => {
                    if self.preserve.ownership {
                        At::LinkOwnerLook(*f)
                    } else {
                        self.go_link_owned(*f)
                    }
                },
                _ => broken,
            },
            At::LinkOwnerLook(f) => {
                if is_owner(reply, f.uid, f.gid) {
                    self.go_link_owned(f)
                } else {
                    At::LinkOwner(f)
                }
            },
            At::LinkOwner(f) => {
                if done {
                    self.go_link_owned(f)
                } else {
                    broken
                }
            },
            _ => At::Finished(Outcome::Copied),
        }
    }

    /// The steps that give attributes.
    fn go_attribute(&self, at: At, reply: &Reply) -> (r: At)
        requires
            at is AttrLook || at is OwnerLook || at is Owner || at is Mode || at is Times
                || at is Xattr,
        ensures
            r == self.next_at(at, *reply),
    {
        let done: bool = *reply == Reply::Done;
        match at {
            At::AttrLook(l) => match reply {
                Reply::Saw(f) => {
                    if self.preserve.ownership {
                        At::OwnerLook { at: l, model: *f }
                    } else {
                        self.go_owned(l, *f)
                    }
                },
                _ => go_undressed(self, l),
            },
            At::OwnerLook { at: l, model } => {
                if is_owner(reply, model.uid, model.gid) {
                    self.go_owned(l, model)
                } else {
                    At::Owner { at: l, model }
                }
            },
            At::Owner { at: l, model } => {
                if done {
                    self.go_owned(l, model)
                } else {
                    go_undressed(self, l)
                }
            },
            At::Mode { at: l, model } => {
                if done {
                    self.go_moded(l, model)
                } else {
                    go_undressed(self, l)
                }
            },
            At::Times { at: l, .. } => {
                if done {
                    self.go_timed(l)
                } else {
                    go_undressed(self, l)
                }
            },
            At::Xattr(l) => {
                if done {
                    self.go_dressed(l)
                } else {
                    go_undressed(self, l)
                }
            },
            _ => at,
        }
    }

    /// The steps that fill the temporary file and give it its name.
    fn go_transfer(&self, at: At, reply: &Reply) -> (r: At)
        requires
            at is Transferring || at is Permissions || at is SourceSum || at is CopySum
                || at is Publishing,
        ensures
            r == self.next_at(at, *reply),
    {
        let done: bool = *reply == Reply::Done;
        match at {
            At::Transferring(Route::Clone) => {
                if done {
                    At::Permissions
                } else if self.reflink == Reflink::Always {
                    At::Discarding(Why::Broken)
                } else {
                    At::Transferring(self.choose_plain_route())
                }
            },
            At::Transferring(route) => {
                if !matches!(reply, Reply::Copied(_)) {
                    At::Discarding(Why::Broken)
                } else if route == Route::Stream {
                    At::Publishing
                } else if route == Route::Fast {
                    self.go_attributes(Loc::Tmp)
                } else {
                    At::Permissions
                }
            },
            At::Permissions => {
                if done {
                    self.go_attributes(Loc::Tmp)
                } else {
                    At::Discarding(Why::Broken)
                }
            },
            At::SourceSum => match reply {
                Reply::Checksum(c) => At::CopySum(*c),
                _ => At::Discarding(Why::Broken),
            },
            At::CopySum(c) => match reply {
                Reply::Checksum(d) => {
                    if c == *d {
                        At::Publishing
                    } else {
                        At::Discarding(Why::Mismatch)
                    }
                },
                _ => At::Discarding(Why::Broken),
            },
            _ => {
                if !done {
                    At::Discarding(Why::Broken)
                } else if self.work == Work::Special {
                    self.go_attributes(Loc::Dst)
                } else {
                    At::Finished(Outcome::Copied)
                }
            },
        }
    }

    /// The place that follows `at` when its operation came to `reply`.
    pub fn advance(&self, at: At, reply: &Reply) -> (r: At)
        requires
            countable(*reply),
        ensures
            r == self.next_at(at, *reply),
    {
        let done: bool = *reply == Reply::Done;
        let saw: bool = matches!(reply, Reply::Saw(_));
        let broken: At = At::Finished(Outcome::Failed(Why::Broken));
        match at {
            At::DirCheck => {
                if is_kind(reply, FileKind::Dir) {
                    At::Finished(Outcome::DirectoryInTheWay)
                } else {
                    At::Exists
                }
            },
            At::Exists => {
                if saw {
                    self.go_policy()
                } else {
                    self.go_allowed()
                }
            },
            At::SourceTime => At::DestTime(get_modified(reply)),
            At::DestTime(s) => {
                let d: Option<Stamp> = get_modified(reply);
                if is_known_newer(&d, &s) {
                    At::Finished(Outcome::Skipped)
                } else {
                    self.go_allowed()
                }
            },
            At::Asking => {
                if *reply == Reply::Answer(true) {
                    self.go_allowed()
                } else {
                    At::Finished(Outcome::Skipped)
                }
            },
            At::Resuming => {
                if is_present(self, reply) {
                    At::Finished(Outcome::AlreadyPresent)
                } else {
                    self.go_not_present()
                }
            },
            At::BackupLook => {
                if !saw {
                    self.go_saved()
                } else if self.backup == Some(BackupControl::Simple) {
                    At::SettingAside(BackupName::Simple)
                } else {
                    At::BackupList
                }
            },
            At::BackupList => self.go_backup(reply),
            At::SettingAside(_) => {
                if done {
                    self.go_saved()
                } else {
                    At::Finished(Outcome::Failed(Why::Backup))
                }
            },
            At::ClearLook { early } => {
                if is_kind(reply, FileKind::Dir) {
                    At::ClearTree { early }
                } else if saw {
                    At::ClearFile { early }
                } else {
                    self.go_cleared(early)
                }
            },
            At::ClearFile { early } | At::ClearTree { early } => {
                if done {
                    self.go_cleared(early)
                } else {
                    broken
                }
            },
            At::Parent => {
                if done {
                    self.go_housed()
                } else {
                    broken
                }
            },
            At::Linking | At::Symlinking => {
                if done {
                    At::Finished(Outcome::Copied)
                } else {
                    broken
                }
            },
            At::CreateLook => {
                if saw {
                    self.go_attributes(Loc::Dst)
                } else {
                    At::Creating
                }
            },
            At::Creating | At::FifoMaking => {
                if done {
                    self.go_attributes(Loc::Dst)
                } else {
                    broken
                }
            },
            At::LinkRead
            | At::LinkLook
            | At::LinkClear
            | At::Relinking
            | At::LinkAttrLook
            | At::LinkOwnerLook(_)
            | At::LinkOwner(_)
            | At::LinkTimes(_) => self.go_link(at, reply),
            At::AttrLook(_)
            | At::OwnerLook { .. }
            | At::Owner { .. }
            | At::Mode { .. }
            | At::Times { .. }
            | At::Xattr(_) => self.go_attribute(at, reply),
            At::Transferring(_)
            | At::Permissions
            | At::SourceSum
            | At::CopySum(_)
            | At::Publishing => self.go_transfer(at, reply),
            At::Discarding(why) => At::Finished(Outcome::Failed(why)),
            At::Renaming => match reply {
                Reply::Done => At::Finished(Outcome::Renamed),
                Reply::CrossDevice => At::Finished(Outcome::CrossDevice),
                _ => broken,
            },
            At::Finished(o) => At::Finished(o),
        }
    }
}

// ---------------------------------------------------------------------------
// The operations
// ---------------------------------------------------------------------------

impl Job {
    /// The operation that a run at `at` waits for.
    pub open spec fn op_at(self, at: At) -> Option<Op> {
        match at {
            At::DirCheck | At::Exists | At::BackupLook | At::ClearLook { .. } | At::CreateLook
            | At::LinkLook | At::LinkOwnerLook(_) => Some(
                Op::Look { at: Loc::Dst, follow: false },
            ),
            At::SourceTime => Some(Op::Look { at: Loc::Src, follow: self.follows() }),
            At::DestTime(_) => Some(Op::Look { at: Loc::Dst, follow: self.follows() }),
            At::Asking => Some(Op::Ask),
            At::Resuming => Some(Op::Look { at: Loc::Dst, follow: self.work == Work::File }),
            At::BackupList => Some(Op::ListBackups),
            At::SettingAside(name) => Some(Op::SetAside(name)),
            At::ClearFile { .. } | At::LinkClear => Some(Op::RemoveFile(Loc::Dst)),
            At::ClearTree { .. } => Some(Op::RemoveTree),
            At::Parent => Some(Op::MakeParent),
            At::Linking => Some(Op::HardLink),
            At::Symlinking => Some(Op::SymlinkToSource),
            At::Creating => Some(Op::CreateEmpty),
            At::LinkRead => Some(Op::ReadLink),
            At::Relinking => Some(Op::Relink),
            At::LinkAttrLook => Some(Op::Look { at: Loc::Src, follow: false }),
            At::AttrLook(_) => Some(Op::Look { at: Loc::Src, follow: self.keeps_reached() }),
            At::LinkOwner(f) => Some(Op::SetOwner { at: Loc::Dst, uid: f.uid, gid: f.gid }),
            At::LinkTimes(f) => Some(Op::SetLinkTimes(f.times)),
            At::FifoMaking => Some(Op::MakeFifo),
            At::Transferring(route) => Some(Op::Transfer(route)),
            At::Permissions => Some(Op::CopyPermissions),
            At::OwnerLook { at: l, .. } => Some(Op::Look { at: l, follow: false }),
            At::Owner { at: l, model } => Some(
                Op::SetOwner { at: l, uid: model.uid, gid: model.gid },
            ),
            At::Mode { at: l, model } => Some(Op::SetMode { at: l, mode: model.mode }),
            At::Times { at: l, model } => Some(Op::SetTimes { at: l, times: model.times }),
            At::Xattr(l) => Some(Op::CopyXattrs { at: l, follow: self.keeps_reached() }),
            At::SourceSum => Some(Op::Checksum(Loc::Src)),
            At::CopySum(_) => Some(Op::Checksum(Loc::Tmp)),
            At::Publishing => Some(Op::Publish),
            At::Discarding(_) => Some(Op::RemoveFile(Loc::Tmp)),
            At::Renaming => Some(Op::Rename),
            At::Finished(_) => None,
        }
    }

    /// The operation that a run at `at` waits for.
    pub fn operation(&self, at: At) -> (r: Option<Op>)
        ensures
            r == self.op_at(at),
    {
        match at {
            At::DirCheck
            | At::Exists
            | At::BackupLook
            | At::ClearLook { .. }
            | At::CreateLook
            | At::LinkLook
            | At::LinkOwnerLook(_) => Some(Op::Look { at: Loc::Dst, follow: false }),
            At::SourceTime => Some(Op::Look { at: Loc::Src, follow: self.is_following() }),
            At::DestTime(_) => Some(Op::Look { at: Loc::Dst, follow: self.is_following() }),
            At::Asking => Some(Op::Ask),
            At::Resuming => Some(Op::Look { at: Loc::Dst, follow: self.work == Work::File }),
            At::BackupList => Some(Op::ListBackups),
            At::SettingAside(name) => Some(Op::SetAside(name)),
            At::ClearFile { .. } | At::LinkClear => Some(Op::RemoveFile(Loc::Dst)),
            At::ClearTree { .. } => Some(Op::RemoveTree),
            At::Parent => Some(Op::MakeParent),
            At::Linking => Some(Op::HardLink),
            At::Symlinking => Some(Op::SymlinkToSource),
            At::Creating => Some(Op::CreateEmpty),
            At::LinkRead => Some(Op::ReadLink),
            At::Relinking => Some(Op::Relink),
            At::LinkAttrLook => Some(Op::Look { at: Loc::Src, follow: false }),
            At::AttrLook(_) => Some(Op::Look { at: Loc::Src, follow: self.is_keeping_reached() }),
            At::LinkOwner(f) => Some(Op::SetOwner { at: Loc::Dst, uid: f.uid, gid: f.gid }),
            At::LinkTimes(f) => Some(Op::SetLinkTimes(f.times)),
            At::FifoMaking => Some(Op::MakeFifo),
            At::Transferring(route) => Some(Op::Transfer(route)),
            At::Permissions => Some(Op::CopyPermissions),
            At::OwnerLook { at: l, .. } => Some(Op::Look { at: l, follow: false }),
            At::Owner { at: l, model } => Some(
                Op::SetOwner { at: l, uid: model.uid, gid: model.gid },
            ),
            At::Mode { at: l, model } => Some(Op::SetMode { at: l, mode: model.mode }),
            At::Times { at: l, model } => Some(Op::SetTimes { at: l, times: model.times }),
            At::Xattr(l) => Some(Op::CopyXattrs { at: l, follow: self.is_keeping_reached() }),
            At::SourceSum => Some(Op::Checksum(Loc::Src)),
            At::CopySum(_) => Some(Op::Checksum(Loc::Tmp)),
            At::Publishing => Some(Op::Publish),
            At::Discarding(_) => Some(Op::RemoveFile(Loc::Tmp)),
            At::Renaming => Some(Op::Rename),
            At::Finished(_) => None,
        }
    }

    /// How many bytes have gone into the temporary file once the operation at
    /// `at` came to `reply`.
    pub open spec fn next_bytes(self, at: At, bytes: u64, reply: Reply) -> u64 {
        match (at, reply) {
            (At::Transferring(Route::Clone), Reply::Done) => self.size,
            (At::Transferring(Route::Clone), _) => bytes,
            (At::Transferring(_), Reply::Copied(n)) => n,
            _ => bytes,
        }
    }
}

impl Run {
    /// A run that has not done anything.
    pub fn new(job: &Job) -> (r: Run)
        ensures
            r == (Run { at: job.start(), bytes: 0 }),
    {
        let at: At = if job.work == Work::Dir {
            job.go_attributes(Loc::Dst)
        } else if job.is_following() {
            At::DirCheck
        } else {
            At::Exists
        };
        Run { at, bytes: 0 }
    }

    /// The operation that the run waits for, until it is finished.
    pub fn operation(&self, job: &Job) -> (r: Option<Op>)
        ensures
            r == job.op_at(self.at),
    {
        job.operation(self.at)
    }

    /// Goes on, now that the operation came to `reply`.
    pub fn reply(&mut self, job: &Job, reply: &Reply)
        requires
            countable(*reply),
        ensures
            final(self).at == job.next_at(old(self).at, *reply),
            final(self).bytes == job.next_bytes(old(self).at, old(self).bytes, *reply),
    {
        let bytes: u64 = match (self.at, reply) {
            (At::Transferring(Route::Clone), Reply::Done) => job.size,
            (At::Transferring(Route::Clone), _) => self.bytes,
            (At::Transferring(_), Reply::Copied(n)) => *n,
            _ => self.bytes,
        };
        self.at = job.advance(self.at, reply);
        self.bytes = bytes;
    }

    /// Whether it is settled that something is done, and that is still to come.
    pub fn is_settled(&self) -> (r: bool)
        ensures
            r == !(self.at is DirCheck || self.at is Exists || self.at is SourceTime
                || self.at is DestTime || self.at is Asking || self.at is Resuming
                || self.at is Finished),
    {
        match self.at {
            At::DirCheck
            | At::Exists
            | At::SourceTime
            | At::DestTime(_)
            | At::Asking
            | At::Resuming
            | At::Finished(_) => false,
            _ => true,
        }
    }

    /// What the run came to, once it is finished.
    pub fn outcome(&self) -> (r: Option<Outcome>)
        ensures
            match self.at {
                At::Finished(o) => r == Some(o),
                _ => r is None,
            },
    {
        match self.at {
            At::Finished(o) => Some(o),
            _ => None,
        }
    }
}

} // verus!
