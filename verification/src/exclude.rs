//! Which entries of a tree are left out (`--exclude`, `--exclude-from`).

use vstd::prelude::*;
use vstd::string::*;

use crate::path::RawPath;
use crate::text::{chars_of, pieces, split, texts, trim, trimmed};

verus! {

// ---------------------------------------------------------------------------
// What globset gives
// ---------------------------------------------------------------------------

/// A set of glob patterns that paths are matched against.
#[verifier::external_type_specification]
#[verifier::external_body]
pub struct ExGlobSet(globset::GlobSet);

/// The patterns gathered for such a set.
#[verifier::external_type_specification]
#[verifier::external_body]
pub struct ExGlobSetBuilder(globset::GlobSetBuilder);

/// Why a pattern or a set was refused.
#[verifier::external_type_specification]
#[verifier::external_body]
pub struct ExGlobError(globset::Error);

/// The patterns gathered in a builder, in the order in which they came.
pub uninterp spec fn builder_globs(b: globset::GlobSetBuilder) -> Seq<Seq<char>>;

/// The patterns of a set.
pub uninterp spec fn set_globs(s: globset::GlobSet) -> Seq<Seq<char>>;

/// Whether `globset::Glob::new` takes a pattern.
pub uninterp spec fn glob_parses(pattern: Seq<char>) -> bool;

/// Whether `globset::GlobSetBuilder::build` makes a set of these patterns.
pub uninterp spec fn globs_build(patterns: Seq<Seq<char>>) -> bool;

/// Whether a path matches a pattern, as globset reads patterns.
pub uninterp spec fn glob_matches(pattern: Seq<char>, path: Seq<u8>) -> bool;

/// `globset::GlobSetBuilder::new` starts with no pattern.
pub assume_specification[ globset::GlobSetBuilder::new ]() -> (b: globset::GlobSetBuilder)
    ensures
        builder_globs(b) == Seq::<Seq<char>>::empty(),
;

/// `globset::GlobSetBuilder::build` makes a set of the patterns gathered so
/// far. Whether it does depends on the patterns alone.
pub assume_specification[ globset::GlobSetBuilder::build ](b: &globset::GlobSetBuilder) -> (r: Result<
    globset::GlobSet,
    globset::Error,
>)
    ensures
        r is Ok <==> globs_build(builder_globs(*b)),
        r is Ok ==> set_globs(r->Ok_0) == builder_globs(*b),
;

/// The clone of a `globset::GlobSet` holds the same patterns.
pub assume_specification[ <globset::GlobSet as Clone>::clone ](s: &globset::GlobSet) -> (r:
    globset::GlobSet)
    ensures
        set_globs(r) == set_globs(*s),
;

/// How many groups of alternatives may lie one in another. `globset::Glob::new`
/// calls itself once for each, so that a deeper pattern could exhaust the stack.
pub const DEEPEST: usize = 1000;

/// How the next character of a pattern is read.
#[derive(Debug, Clone, Copy, PartialEq, Eq, Structural)]
pub enum Reading {
    Plain,
    /// It stands for itself.
    Escaped,
    /// A class begins: it may be turned round.
    ClassStart,
    /// A class that is turned round begins.
    ClassFirst,
    /// A class goes on until it is closed.
    Class,
}

/// How the character behind `c` is read.
pub open spec fn read_on(how: Reading, c: char) -> Reading {
    match how {
        Reading::Plain => if c == '[' {
            Reading::ClassStart
        } else if c == '\\' {
            Reading::Escaped
        } else {
            Reading::Plain
        },
        Reading::Escaped => Reading::Plain,
        Reading::ClassStart => if c == '!' || c == '^' {
            Reading::ClassFirst
        } else {
            Reading::Class
        },
        Reading::ClassFirst => Reading::Class,
        Reading::Class => if c == ']' {
            Reading::Plain
        } else {
            Reading::Class
        },
    }
}

fn go_on(how: Reading, c: char) -> (r: Reading)
    ensures
        r == read_on(how, c),
{
    match how {
        Reading::Plain => {
            if c == '[' {
                Reading::ClassStart
            } else if c == '\\' {
                Reading::Escaped
            } else {
                Reading::Plain
            }
        },
        Reading::Escaped => Reading::Plain,
        Reading::ClassStart => {
            if c == '!' || c == '^' {
                Reading::ClassFirst
            } else {
                Reading::Class
            }
        },
        Reading::ClassFirst => Reading::Class,
        Reading::Class => {
            if c == ']' {
                Reading::Plain
            } else {
                Reading::Class
            }
        },
    }
}

/// How the character behind `p` is read.
pub open spec fn reading_after(p: Seq<char>) -> Reading
    decreases p.len(),
{
    if p.len() == 0 {
        Reading::Plain
    } else {
        read_on(reading_after(p.drop_last()), p.last())
    }
}

/// How many groups of alternatives are open at the end of `p`. A brace in a
/// class or behind an escape stands for itself.
pub open spec fn open_groups(p: Seq<char>) -> int
    decreases p.len(),
{
    if p.len() == 0 {
        0
    } else {
        let before = open_groups(p.drop_last());
        if reading_after(p.drop_last()) != Reading::Plain {
            before
        } else if p.last() == '{' {
            before + 1
        } else if p.last() == '}' && before > 0 {
            before - 1
        } else {
            before
        }
    }
}

/// Nowhere in `p` are too many groups of alternatives open.
pub open spec fn is_shallow(p: Seq<char>) -> bool {
    forall|i: int| 0 <= i <= p.len() ==> #[trigger] open_groups(p.take(i)) <= DEEPEST
}

/// Whether nowhere in `pattern` too many groups of alternatives are open.
fn has_few_groups(pattern: &str) -> (r: bool)
    ensures
        r == is_shallow(pattern@),
{
    let cs: Vec<char> = chars_of(pattern);
    let ghost p = pattern@;
    let mut open: usize = 0;
    let mut how: Reading = Reading::Plain;
    let mut i: usize = 0;
    assert(p.take(0) =~= Seq::empty());
    while i < cs.len()
        invariant
            i <= cs@.len(),
            p == cs@,
            p == pattern@,
            open == open_groups(p.take(i as int)),
            open <= DEEPEST,
            how == reading_after(p.take(i as int)),
            forall|k: int| 0 <= k <= i ==> #[trigger] open_groups(p.take(k)) <= DEEPEST,
        decreases cs@.len() - i,
    {
        let c: char = cs[i];
        proof {
            let held = p.take(i as int);
            let next = p.take(i + 1);
            assert(next.drop_last() =~= held);
            assert(next.last() == c);
        }
        if how == Reading::Plain {
            if c == '{' {
                if open == DEEPEST {
                    assert(open_groups(p.take(i + 1)) > DEEPEST);
                    return false;
                }
                open = open + 1;
            } else if c == '}' && open > 0 {
                open = open - 1;
            }
        }
        how = go_on(how, c);
        i = i + 1;
    }
    true
}

/// Hands `pattern` to `globset::Glob::new` and its result to
/// `globset::GlobSetBuilder::add`, which puts it behind the others. Whether
/// `Glob::new` takes the pattern depends on the pattern alone; a refused one
/// leaves the builder as it was. A pattern that is nested too deep for the stack
/// is not handed over.
#[verifier::external_body]
fn add_glob(b: &mut globset::GlobSetBuilder, pattern: &str) -> (r: Result<(), globset::Error>)
    requires
        is_shallow(pattern@),
    ensures
        r is Ok <==> glob_parses(pattern@),
        r is Ok ==> builder_globs(*final(b)) == builder_globs(*old(b)).push(pattern@),
        r is Err ==> builder_globs(*final(b)) == builder_globs(*old(b)),
{
    let glob = globset::Glob::new(pattern)?;
    b.add(glob);
    Ok(())
}

/// Asks `globset::GlobSet::is_match_candidate` about the path with these
/// bytes: it says whether any pattern of the set matches the path.
#[verifier::external_body]
fn set_is_match(s: &globset::GlobSet, path: &[u8]) -> (r: bool)
    ensures
        r == (exists|i: int|
            0 <= i < set_globs(*s).len() && glob_matches(#[trigger] set_globs(*s)[i], path@)),
{
    s.is_match_candidate(&globset::Candidate::from_bytes(path))
}

/// One of the patterns matches the path.
pub open spec fn some_glob_matches(patterns: Seq<Seq<char>>, path: Seq<u8>) -> bool {
    exists|i: int| 0 <= i < patterns.len() && glob_matches(#[trigger] patterns[i], path)
}

// ---------------------------------------------------------------------------
// The matcher
// ---------------------------------------------------------------------------

/// The patterns that an optional set holds.
pub open spec fn exclusions(s: Option<globset::GlobSet>) -> Seq<Seq<char>> {
    match s {
        Some(set) => set_globs(set),
        None => Seq::empty(),
    }
}

/// Why no matcher could be made.
#[derive(Debug)]
pub enum ExcludeError {
    /// This pattern is no glob pattern.
    Pattern(String),
    /// This pattern has too many groups of alternatives one in another.
    Nested(String),
    /// The patterns could not be put together.
    Together,
}

impl ExcludeError {
    /// The error in words.
    pub open spec fn shown(&self) -> Seq<char> {
        match self {
            ExcludeError::Pattern(p) => "motif d'exclusion invalide : '"@ + p@ + "'"@,
            ExcludeError::Nested(p) => "motif d'exclusion trop imbriqué : '"@ + p@ + "'"@,
            ExcludeError::Together => "motifs d'exclusion invalides"@,
        }
    }

    /// The error in words.
    pub fn message(&self) -> (r: String)
        ensures
            r@ == self.shown(),
    {
        match self {
            ExcludeError::Pattern(p) => {
                let mut s: String = "motif d'exclusion invalide : '".to_owned();
                s.append(p.as_str());
                s.append("'");
                s
            },
            ExcludeError::Nested(p) => {
                let mut s: String = "motif d'exclusion trop imbriqué : '".to_owned();
                s.append(p.as_str());
                s.append("'");
                s
            },
            ExcludeError::Together => "motifs d'exclusion invalides".to_owned(),
        }
    }
}

/// `p` is a glob pattern, and not nested too deep.
pub open spec fn is_taken(p: Seq<char>) -> bool {
    is_shallow(p) && glob_parses(p)
}

/// The first of `patterns` that is not taken, by its place.
pub open spec fn first_bad(patterns: Seq<Seq<char>>, i: int) -> bool {
    &&& 0 <= i < patterns.len()
    &&& !is_taken(patterns[i])
    &&& forall|j: int| 0 <= j < i ==> is_taken(#[trigger] patterns[j])
}

/// Every one of `patterns` is taken.
pub open spec fn all_taken(patterns: Seq<Seq<char>>) -> bool {
    forall|j: int| 0 <= j < patterns.len() ==> is_taken(#[trigger] patterns[j])
}

/// Makes the matcher for `patterns`: none when there are no patterns.
pub fn build_exclude_matcher(patterns: &Vec<String>) -> (r: Result<
    Option<globset::GlobSet>,
    ExcludeError,
>)
    ensures
        match r {
            Ok(None) => patterns@.len() == 0,
            Ok(Some(set)) => patterns@.len() > 0 && all_taken(texts(patterns@)) && globs_build(
                texts(patterns@),
            ) && set_globs(set) == texts(patterns@),
            Err(ExcludeError::Pattern(p)) => exists|i: int|
                #[trigger] first_bad(texts(patterns@), i) && texts(patterns@)[i] == p@
                    && is_shallow(p@),
            Err(ExcludeError::Nested(p)) => exists|i: int|
                #[trigger] first_bad(texts(patterns@), i) && texts(patterns@)[i] == p@
                    && !is_shallow(p@),
            Err(ExcludeError::Together) => patterns@.len() > 0 && all_taken(texts(patterns@))
                && !globs_build(texts(patterns@)),
        },
{
    if patterns.len() == 0 {
        return Ok(None);
    }
    let ghost ps = texts(patterns@);
    let mut b: globset::GlobSetBuilder = globset::GlobSetBuilder::new();
    let mut i: usize = 0;
    assert(ps.take(0) =~= Seq::empty());
    while i < patterns.len()
        invariant
            i <= patterns@.len(),
            ps == texts(patterns@),
            builder_globs(b) == ps.take(i as int),
            forall|j: int| 0 <= j < i ==> is_taken(#[trigger] ps[j]),
        decreases patterns@.len() - i,
    {
        assert(ps[i as int] == patterns@[i as int]@);
        if !has_few_groups(patterns[i].as_str()) {
            assert(first_bad(ps, i as int));
            return Err(ExcludeError::Nested(patterns[i].clone()));
        }
        match add_glob(&mut b, patterns[i].as_str()) {
            Ok(()) => {
                assert(ps.take(i + 1) =~= ps.take(i as int).push(ps[i as int]));
            },
            Err(_) => {
                assert(first_bad(ps, i as int));
                return Err(ExcludeError::Pattern(patterns[i].clone()));
            },
        }
        i = i + 1;
    }
    assert(ps.take(i as int) =~= ps);
    match b.build() {
        Ok(set) => Ok(Some(set)),
        Err(_) => Err(ExcludeError::Together),
    }
}

/// Whether the path `rel`, seen from the root of the copy, is left out.
pub fn is_excluded(rel: &RawPath, exclude: &Option<globset::GlobSet>) -> (r: bool)
    ensures
        r == some_glob_matches(exclusions(*exclude), rel@),
{
    match exclude {
        Some(set) => set_is_match(set, rel.bytes.as_slice()),
        None => false,
    }
}

/// The lines of `text` that hold something, without the white space around
/// them.
pub open spec fn patterns_of(text: Seq<char>) -> Seq<Seq<char>> {
    pieces(text, '\n').map_values(|l: Seq<char>| trimmed(l)).filter(|l: Seq<char>| l.len() > 0)
}

/// The patterns in a file of patterns: one on each line that is not blank.
pub fn patterns_in(text: &str) -> (r: Vec<String>)
    ensures
        texts(r@) == patterns_of(text@),
{
    let lines: Vec<String> = split(text, '\n');
    let ghost keep = |l: Seq<char>| l.len() > 0;
    let ghost all = pieces(text@, '\n').map_values(|l: Seq<char>| trimmed(l));
    let mut out: Vec<String> = Vec::new();
    let mut i: usize = 0;
    proof {
        reveal(Seq::filter);
        assert(all.take(0).filter(keep) =~= Seq::empty());
        assert(texts(out@) =~= Seq::empty());
        assert(texts(lines@).len() == lines@.len());
    }
    while i < lines.len()
        invariant
            i <= lines@.len() == all.len(),
            keep == (|l: Seq<char>| l.len() > 0),
            all == texts(lines@).map_values(|l: Seq<char>| trimmed(l)),
            texts(out@) == all.take(i as int).filter(keep),
        decreases lines@.len() - i,
    {
        proof {
            reveal(Seq::filter);
            assert(all.take(i + 1).drop_last() =~= all.take(i as int));
            assert(all.take(i + 1).last() == trimmed(lines@[i as int]@));
        }
        let ghost held = texts(out@);
        let line: String = trim(lines[i].as_str());
        let ghost t = line@;
        let v: Vec<char> = chars_of(line.as_str());
        if v.len() > 0 {
            out.push(line);
            assert(texts(out@) =~= held.push(t));
        }
        i = i + 1;
    }
    assert(all.take(i as int) =~= all);
    out
}

/// A larger set of patterns leaves out whatever a smaller one did.
pub proof fn more_patterns_exclude_more(fewer: Seq<Seq<char>>, more: Seq<Seq<char>>, path: Seq<u8>)
    requires
        forall|i: int| 0 <= i < fewer.len() ==> more.contains(#[trigger] fewer[i]),
        some_glob_matches(fewer, path),
    ensures
        some_glob_matches(more, path),
{
    let i = choose|i: int| 0 <= i < fewer.len() && glob_matches(#[trigger] fewer[i], path);
    let j = choose|j: int| 0 <= j < more.len() && more[j] == fewer[i];
    assert(glob_matches(more[j], path));
}

} // verus!
