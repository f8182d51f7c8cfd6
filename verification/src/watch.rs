//! Decisions of watch mode: when a burst of file events has settled, when
//! the periodic check is due, and which lines of an ignore file are patterns.
//!
//! Watching files is the caller's part; the caller reports what happened
//! and how much time has passed, in milliseconds. Patterns are matched by
//! `globset`; which patterns make up the matcher is decided here.

use vstd::prelude::*;
use crate::syncer::string_views;
use crate::text::{trim_chars, trimmed, from_chars};

verus! {

/// Seconds between two periodic checks of the peer.
pub const DEFAULT_POLL_INTERVAL_SECS: u64 = 10;

/// Milliseconds for which events must have been quiet before a sync starts.
pub const DEBOUNCE_MILLIS: u64 = 350;

/// Milliseconds between two looks at the pending events.
pub const TICK_MILLIS: u64 = 400;

/// What one look at the pending events decides.
#[derive(Debug, Clone, Copy, PartialEq, Eq, Structural)]
pub struct Tick {
    /// Whether a sync is to be started now (unless one is running).
    pub start_sync: bool,
    /// Whether events are still pending after this look.
    pub pending: bool,
    /// Whether the periodic check was taken and its clock starts over.
    pub polled: bool,
}

/// What a look decides, given whether events are pending, how long ago the
/// last event fired and how long ago the last periodic check was.
pub open spec fn tick_of(pending: bool, since_fire: u64, since_poll: u64) -> Tick {
    let settled = pending && since_fire > DEBOUNCE_MILLIS;
    let due = since_poll >= DEFAULT_POLL_INTERVAL_SECS * 1000;
    Tick { start_sync: settled || due, pending: pending && !settled, polled: due }
}

/// One look at the pending events.
///
/// Pending events start a sync once they have been quiet for longer than the
/// debounce time, and are then no longer pending. Apart from that a sync is
/// started whenever the poll interval has passed since the last periodic
/// check.
pub fn tick(pending: bool, since_fire: u64, since_poll: u64) -> (out: Tick)
    ensures
        out == tick_of(pending, since_fire, since_poll),
{
    let settled = pending && since_fire > DEBOUNCE_MILLIS;
    let due = since_poll >= DEFAULT_POLL_INTERVAL_SECS * 1000;
    Tick { start_sync: settled || due, pending: pending && !settled, polled: due }
}

/// Whether a sync may start: only one runs at a time.
pub fn may_start(running: bool, start_sync: bool) -> (out: bool)
    ensures
        out == (start_sync && !running),
{
    start_sync && !running
}

/// The patterns that are always ignored, whatever the ignore file says.
pub fn default_ignores() -> (out: Vec<String>)
    ensures
        out@.len() == 4,
        out@[0]@ == ".leafsync_tmp/**"@,
        out@[1]@ == "**/.git/**"@,
        out@[2]@ == "**/~$*"@,
        out@[3]@ == "**/*.part"@,
{
    let mut out: Vec<String> = Vec::new();
    out.push(".leafsync_tmp/**".to_owned());
    out.push("**/.git/**".to_owned());
    out.push("**/~$*".to_owned());
    out.push("**/*.part".to_owned());
    out
}

/// The pattern that a line of an ignore file holds: the line without
/// surrounding white space, unless that is empty or a comment.
pub open spec fn pattern_in(line: Seq<char>) -> Option<Seq<char>> {
    let t = trimmed(line);
    if t.len() == 0 || t[0] == '#' {
        None
    } else {
        Some(t)
    }
}

/// The pattern that a line of an ignore file holds, if it holds one. Empty
/// lines and lines that begin with `#` hold none.
pub fn pattern_of_line(line: &str) -> (out: Option<String>)
    ensures
        match out {
            Some(p) => pattern_in(line@) == Some(p@),
            None => pattern_in(line@) is None,
        },
{
    let t = trim_chars(line);
    if t.len() == 0 || t[0] == '#' {
        None
    } else {
        Some(from_chars(&t))
    }
}

/// A set of globs of `globset`, matched together.
#[verifier::external_type_specification]
#[verifier::external_body]
pub struct ExGlobSet(globset::GlobSet);

/// The builder that collects the globs of a set.
#[verifier::external_type_specification]
#[verifier::external_body]
pub struct ExGlobSetBuilder(globset::GlobSetBuilder);

/// The patterns of the globs that a set holds, in the order in which they
/// were added to its builder.
pub uninterp spec fn set_patterns(set: globset::GlobSet) -> Seq<Seq<char>>;

/// The patterns of the globs that were added to a builder, in order.
pub uninterp spec fn builder_patterns(builder: globset::GlobSetBuilder) -> Seq<Seq<char>>;

/// Whether `globset` parses `pattern` as a glob.
pub uninterp spec fn glob_valid(pattern: Seq<char>) -> bool;

/// Whether the glob with pattern `pattern` matches `path`, as `globset`
/// decides it.
pub uninterp spec fn glob_matches(pattern: Seq<char>, path: Seq<char>) -> bool;

/// Calls `globset::GlobSetBuilder::new`.
///
/// Trusted: the new builder holds no glob.
#[verifier::external_body]
fn builder_new() -> (builder: globset::GlobSetBuilder)
    ensures
        builder_patterns(builder) == Seq::<Seq<char>>::empty(),
{
    globset::GlobSetBuilder::new()
}

/// Calls `globset::Glob::new` on `pattern` and, where that gives a glob,
/// `globset::GlobSetBuilder::add` with it.
///
/// Trusted: whether a glob comes out depends on the pattern alone; a glob
/// that comes out is added at the end of the builder's globs, and a pattern
/// that is refused leaves the builder as it was.
#[verifier::external_body]
fn builder_add(builder: &mut globset::GlobSetBuilder, pattern: &str) -> (added: bool)
    ensures
        added == glob_valid(pattern@),
        added ==> builder_patterns(*final(builder)) == builder_patterns(*old(builder)).push(
            pattern@,
        ),
        !added ==> builder_patterns(*final(builder)) == builder_patterns(*old(builder)),
{
    match globset::Glob::new(pattern) {
        Ok(glob) => {
            builder.add(glob);
            true
        },
        Err(_) => false,
    }
}

/// Calls `globset::GlobSetBuilder::build`.
///
/// Trusted: a set that is built holds the globs that the builder held, in
/// the same order. Nothing is said about when building fails.
#[verifier::external_body]
fn builder_build(builder: &globset::GlobSetBuilder) -> (out: Option<globset::GlobSet>)
    ensures
        out matches Some(set) ==> set_patterns(set) == builder_patterns(*builder),
{
    builder.build().ok()
}

/// Calls `globset::GlobSet::empty`.
///
/// Trusted: the set holds no glob.
#[verifier::external_body]
fn empty_set() -> (set: globset::GlobSet)
    ensures
        set_patterns(set) == Seq::<Seq<char>>::empty(),
{
    globset::GlobSet::empty()
}

/// Calls `globset::GlobSet::is_match` on `path`.
///
/// Trusted: the set matches a path exactly when one of its globs does.
#[verifier::external_body]
fn set_is_match(set: &globset::GlobSet, path: &str) -> (hit: bool)
    ensures
        hit == (exists|i: int|
            0 <= i < set_patterns(*set).len() && glob_matches(
                #[trigger] set_patterns(*set)[i],
                path@,
            )),
{
    set.is_match(path)
}

/// Whether one of the globs with the patterns `patterns` matches `path`.
pub open spec fn matches_any(patterns: Seq<Seq<char>>, path: Seq<char>) -> bool {
    exists|i: int| 0 <= i < patterns.len() && glob_matches(#[trigger] patterns[i], path)
}

/// The patterns that are always ignored.
pub open spec fn default_patterns() -> Seq<Seq<char>> {
    seq![".leafsync_tmp/**"@, "**/.git/**"@, "**/~$*"@, "**/*.part"@]
}

/// The patterns that the lines of an ignore file hold, in order.
pub open spec fn patterns_of(lines: Seq<Seq<char>>) -> Seq<Seq<char>>
    decreases lines.len(),
{
    if lines.len() == 0 {
        Seq::empty()
    } else {
        match pattern_in(lines.last()) {
            Some(p) => patterns_of(lines.drop_last()).push(p),
            None => patterns_of(lines.drop_last()),
        }
    }
}

/// Those of `patterns` that are globs, in order.
pub open spec fn accepted(patterns: Seq<Seq<char>>) -> Seq<Seq<char>>
    decreases patterns.len(),
{
    if patterns.len() == 0 {
        Seq::empty()
    } else if glob_valid(patterns.last()) {
        accepted(patterns.drop_last()).push(patterns.last())
    } else {
        accepted(patterns.drop_last())
    }
}

/// The patterns of the ignore matcher for an ignore file with the lines
/// `lines`: the patterns that are always ignored, then those of the file;
/// patterns that are no globs are left out.
pub open spec fn ignore_list(lines: Seq<Seq<char>>) -> Seq<Seq<char>> {
    accepted(default_patterns() + patterns_of(lines))
}

/// Collects the globs of the ignore matcher: those that are always ignored,
/// then those of the lines of the ignore file. Empty lines, comments and
/// patterns that are no globs add nothing.
pub fn ignore_builder(lines: &Vec<String>) -> (builder: globset::GlobSetBuilder)
    ensures
        builder_patterns(builder) == ignore_list(string_views(lines@)),
{
    let mut builder = builder_new();
    let defaults = default_ignores();
    let ghost fixed = default_patterns();
    assert(string_views(defaults@) =~= fixed);
    let mut k: usize = 0;
    assert(fixed.take(0) =~= Seq::<Seq<char>>::empty());
    while k < defaults.len()
        invariant
            fixed == string_views(defaults@),
            k <= defaults@.len(),
            builder_patterns(builder) == accepted(fixed.take(k as int)),
        decreases defaults@.len() - k,
    {
        assert(fixed.take(k + 1).drop_last() =~= fixed.take(k as int));
        let _ = builder_add(&mut builder, defaults[k].as_str());
        k = k + 1;
    }
    assert(fixed.take(k as int) =~= fixed);
    let ghost all = string_views(lines@);
    let ghost mut seen: Seq<Seq<char>> = fixed;
    let mut i: usize = 0;
    assert(all.take(0) =~= Seq::<Seq<char>>::empty());
    assert(fixed + patterns_of(all.take(0)) =~= fixed);
    while i < lines.len()
        invariant
            all == string_views(lines@),
            i <= lines@.len(),
            seen == fixed + patterns_of(all.take(i as int)),
            builder_patterns(builder) == accepted(seen),
        decreases lines@.len() - i,
    {
        assert(all.take(i + 1).drop_last() =~= all.take(i as int));
        assert(all.take(i + 1).last() == lines@[i as int]@);
        match pattern_of_line(lines[i].as_str()) {
            Some(p) => {
                proof {
                    let grown = seen.push(p@);
                    assert(grown.drop_last() =~= seen);
                    assert(grown =~= fixed + patterns_of(all.take(i + 1)));
                    seen = grown;
                }
                let _ = builder_add(&mut builder, p.as_str());
            },
            None => {},
        }
        i = i + 1;
    }
    assert(all.take(i as int) =~= all);
    builder
}

/// The set that building gave, or the empty set where building failed.
pub fn set_or_empty(built: Option<globset::GlobSet>) -> (set: globset::GlobSet)
    ensures
        match built {
            Some(s) => set == s,
            None => set_patterns(set) == Seq::<Seq<char>>::empty(),
        },
{
    match built {
        Some(s) => s,
        None => empty_set(),
    }
}

/// The ignore matcher for an ignore file with the lines `lines`. It holds
/// the globs of [`ignore_list`], or none at all where `globset` could not
/// build the set.
pub fn load_ignore(lines: &Vec<String>) -> (set: globset::GlobSet)
    ensures
        set_patterns(set) == ignore_list(string_views(lines@)) || set_patterns(set) == Seq::<
            Seq<char>,
        >::empty(),
{
    let builder = ignore_builder(lines);
    set_or_empty(builder_build(&builder))
}

/// Whether the ignore matcher `set` matches the relative path `rel`: one of
/// its globs does.
pub fn is_ignored(set: &globset::GlobSet, rel: &str) -> (skip: bool)
    ensures
        skip == matches_any(set_patterns(*set), rel@),
{
    set_is_match(set, rel)
}

} // verus!
