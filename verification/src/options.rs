//! Options shared by the copying and the moving tool.
//!
//! They state what cp(1) and mv(1) have in common: when an existing file may
//! be overwritten, which links are followed, which attributes are kept, and
//! how files that would be lost are saved.

use vstd::prelude::*;
use vstd::string::*;

use crate::text::{same_text, trim, trimmed};

verus! {

/// The attributes that a copy keeps (`-a`, `-p`, `--preserve`,
/// `--no-preserve`).
#[derive(Debug, Clone, Copy, PartialEq, Eq, Structural)]
pub struct Preserve {
    pub mode: bool,
    pub ownership: bool,
    pub timestamps: bool,
    pub links: bool,
    pub xattr: bool,
    pub context: bool,
}

impl Default for Preserve {
    fn default() -> (r: Preserve)
        ensures
            r == nothing_kept(),
    {
        Preserve {
            mode: false,
            ownership: false,
            timestamps: false,
            links: false,
            xattr: false,
            context: false,
        }
    }
}

/// No attribute.
pub open spec fn nothing_kept() -> Preserve {
    Preserve {
        mode: false,
        ownership: false,
        timestamps: false,
        links: false,
        xattr: false,
        context: false,
    }
}

/// Every attribute.
pub open spec fn everything_kept() -> Preserve {
    Preserve {
        mode: true,
        ownership: true,
        timestamps: true,
        links: true,
        xattr: true,
        context: true,
    }
}

/// An attribute that a list can name.
#[derive(Debug, Clone, Copy, PartialEq, Eq, Structural)]
pub enum Attribute {
    Mode,
    Ownership,
    Timestamps,
    Links,
    Xattr,
    Context,
    All,
}

/// The attribute with the name `s`.
pub open spec fn attribute_named(s: Seq<char>) -> Option<Attribute> {
    if s == "mode"@ {
        Some(Attribute::Mode)
    } else if s == "ownership"@ {
        Some(Attribute::Ownership)
    } else if s == "timestamps"@ {
        Some(Attribute::Timestamps)
    } else if s == "links"@ {
        Some(Attribute::Links)
    } else if s == "xattr"@ {
        Some(Attribute::Xattr)
    } else if s == "context"@ {
        Some(Attribute::Context)
    } else if s == "all"@ {
        Some(Attribute::All)
    } else {
        None
    }
}

/// The attribute with the name `s`.
pub fn attribute(s: &str) -> (r: Option<Attribute>)
    ensures
        r == attribute_named(s@),
{
    if same_text(s, "mode") {
        Some(Attribute::Mode)
    } else if same_text(s, "ownership") {
        Some(Attribute::Ownership)
    } else if same_text(s, "timestamps") {
        Some(Attribute::Timestamps)
    } else if same_text(s, "links") {
        Some(Attribute::Links)
    } else if same_text(s, "xattr") {
        Some(Attribute::Xattr)
    } else if same_text(s, "context") {
        Some(Attribute::Context)
    } else if same_text(s, "all") {
        Some(Attribute::All)
    } else {
        None
    }
}

/// `p` with the attribute `a` kept, or not.
pub open spec fn with_attribute(p: Preserve, a: Attribute, value: bool) -> Preserve {
    match a {
        Attribute::Mode => Preserve { mode: value, ..p },
        Attribute::Ownership => Preserve { ownership: value, ..p },
        Attribute::Timestamps => Preserve { timestamps: value, ..p },
        Attribute::Links => Preserve { links: value, ..p },
        Attribute::Xattr => Preserve { xattr: value, ..p },
        Attribute::Context => Preserve { context: value, ..p },
        Attribute::All => if value {
            everything_kept()
        } else {
            nothing_kept()
        },
    }
}

/// What is said of an attribute that nobody knows.
pub open spec fn unknown_attribute(name: Seq<char>) -> Seq<char> {
    "attribut --preserve inconnu : '"@ + name + "'"@
}

impl Preserve {
    /// Every attribute.
    pub fn all() -> (r: Preserve)
        ensures
            r == everything_kept(),
    {
        Preserve {
            mode: true,
            ownership: true,
            timestamps: true,
            links: true,
            xattr: true,
            context: true,
        }
    }

    /// Whether any attribute is kept.
    pub fn any(&self) -> (r: bool)
        ensures
            r == (*self != nothing_kept()),
    {
        self.mode || self.ownership || self.timestamps || self.links || self.xattr || self.context
    }

    /// Keeps, or not, the attribute with the name `attr`; `all` stands for
    /// every attribute. White space around the name does not count.
    pub fn set(&mut self, attr: &str, value: bool) -> (r: Result<(), String>)
        ensures
            match attribute_named(trimmed(attr@)) {
                Some(a) => r is Ok && *final(self) == with_attribute(*old(self), a, value),
                None => r is Err && r->Err_0@ == unknown_attribute(trimmed(attr@)) && *final(self)
                    == *old(self),
            },
    {
        let name: String = trim(attr);
        match attribute(name.as_str()) {
            Some(Attribute::Mode) => {
                self.mode = value;
            },
            Some(Attribute::Ownership) => {
                self.ownership = value;
            },
            Some(Attribute::Timestamps) => {
                self.timestamps = value;
            },
            Some(Attribute::Links) => {
                self.links = value;
            },
            Some(Attribute::Xattr) => {
                self.xattr = value;
            },
            Some(Attribute::Context) => {
                self.context = value;
            },
            Some(Attribute::All) => {
                *self = if value {
                    Preserve::all()
                } else {
                    Preserve::default()
                };
            },
            None => {
                let mut msg: String = "attribut --preserve inconnu : '".to_owned();
                msg.append(name.as_str());
                msg.append("'");
                return Err(msg);
            },
        }
        Ok(())
    }
}

/// The last word on an attribute is the one that counts.
pub proof fn last_setting_wins(p: Preserve, a: Attribute, first: bool, second: bool)
    ensures
        with_attribute(with_attribute(p, a, first), a, second) == with_attribute(p, a, second),
{
}

/// What is done with a destination that exists already. Of several flags the
/// last one counts.
#[derive(Debug, Clone, Copy, PartialEq, Eq, Structural)]
pub enum Overwrite {
    /// Overwrite it.
    Clobber,
    /// Leave it, in silence (`-n`, `--update=none`).
    NoClobber,
    /// Leave it, and say so as an error (`--update=none-fail`).
    NoClobberFail,
    /// Overwrite it only when the source is newer (`-u`, `--update=older`).
    Update,
    /// Ask (`-i`).
    Interactive,
}

/// Which symbolic links are followed.
#[derive(Debug, Clone, Copy, PartialEq, Eq, Structural)]
pub enum Deref {
    /// None (`-P`, `-d`).
    Never,
    /// All (`-L`).
    Always,
    /// Those that the command line names (`-H`).
    CommandLine,
}

/// What is made at the destination.
#[derive(Debug, Clone, Copy, PartialEq, Eq, Structural)]
pub enum CopyMode {
    /// A file with the same contents.
    Copy,
    /// A hard link (`-l`).
    Link,
    /// A symbolic link (`-s`).
    Symlink,
}

/// How a file that would be overwritten is saved (`-b`, `--backup`).
#[derive(Debug, Clone, Copy, PartialEq, Eq, Structural)]
pub enum BackupControl {
    /// Not at all.
    Off,
    /// As `file.~1~`, `file.~2~` and so on.
    Numbered,
    /// Numbered where a numbered one exists, simple elsewhere.
    Existing,
    /// As `file~`.
    Simple,
}

/// The values of `--update`.
#[derive(Debug, Clone, Copy, PartialEq, Eq, Structural)]
pub enum UpdateWhen {
    All,
    Nothing,
    NoneFail,
    Older,
}

/// The values of `--reflink`.
#[derive(Debug, Clone, Copy, PartialEq, Eq, Structural)]
pub enum ReflinkWhen {
    Always,
    Auto,
}

/// The values of `--sparse`.
#[derive(Debug, Clone, Copy, PartialEq, Eq, Structural)]
pub enum SparseWhen {
    Auto,
    Always,
    Never,
}

/// Whether blocks are shared in place of copied.
#[derive(Debug, Clone, Copy, PartialEq, Eq, Structural)]
pub enum Reflink {
    Off,
    Auto,
    Always,
}

/// Whether blocks of zeros become holes.
#[derive(Debug, Clone, Copy, PartialEq, Eq, Structural)]
pub enum Sparse {
    Auto,
    Always,
    Never,
}

} // verus!
