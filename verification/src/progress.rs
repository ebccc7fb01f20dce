//! When the bar is shown.
//!
//! The bar stays hidden for the first second, so that a short copy does not
//! make it flash.

use vstd::prelude::*;

verus! {

/// How long the bar stays hidden, in nanoseconds: a second.
pub const SHOW_AFTER: u128 = 1000000000;

/// How the bar is left at the end.
#[derive(Debug, Clone, Copy, PartialEq, Eq, Structural)]
pub enum Ending {
    /// It stays as it is.
    Keep,
    /// It was never shown and leaves no trace.
    Clear,
}

/// The state of the bar.
#[derive(Debug, Clone, Copy, PartialEq, Eq, Structural)]
pub struct CopyProgress {
    enabled: bool,
    visible: bool,
}

impl CopyProgress {
    /// A bar that is not wanted is never shown.
    pub closed spec fn wf(self) -> bool {
        self.visible ==> self.enabled
    }

    /// A bar is wanted.
    pub closed spec fn wanted(self) -> bool {
        self.enabled
    }

    /// The bar is shown.
    pub closed spec fn shown(self) -> bool {
        self.visible
    }

    /// A bar that is hidden at first.
    pub fn new(enabled: bool) -> (r: CopyProgress)
        ensures
            r.wf(),
            r.wanted() == enabled,
            !r.shown(),
    {
        CopyProgress { enabled, visible: false }
    }

    /// Whether a bar is wanted.
    pub fn is_enabled(&self) -> (r: bool)
        ensures
            r == self.wanted(),
    {
        self.enabled
    }

    /// Takes note that bytes went by, `elapsed` nanoseconds after the start;
    /// tells whether the bar is to be shown from now on.
    pub fn inc(&mut self, elapsed: u128) -> (r: bool)
        requires
            old(self).wf(),
        ensures
            final(self).wf(),
            final(self).wanted() == old(self).wanted(),
            r == (old(self).wanted() && !old(self).shown() && elapsed >= SHOW_AFTER),
            final(self).shown() == (old(self).shown() || r),
            r <==> old(self).wanted() && !old(self).shown() && elapsed >= 1_000_000_000,
    {
        if self.enabled && !self.visible && elapsed >= SHOW_AFTER {
            self.visible = true;
            true
        } else {
            false
        }
    }

    /// Whether the name of the file at hand is put beside the bar.
    pub fn set_current_file(&self) -> (r: bool)
        ensures
            r == self.wanted(),
    {
        self.enabled
    }

    /// Whether the bar steps aside while a line is printed.
    pub fn log(&self) -> (r: bool)
        ensures
            r == self.shown(),
    {
        self.visible
    }

    /// How the bar is left at the end.
    pub fn finish(&self) -> (r: Ending)
        ensures
            r == if self.shown() {
                Ending::Keep
            } else {
                Ending::Clear
            },
    {
        if self.visible {
            Ending::Keep
        } else {
            Ending::Clear
        }
    }
}

/// A bar that is shown was wanted.
pub proof fn shown_means_wanted(p: CopyProgress)
    requires
        p.wf(),
        p.shown(),
    ensures
        p.wanted(),
{
}

} // verus!
