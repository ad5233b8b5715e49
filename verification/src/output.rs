//! Verbosity filtering for all CLI output: every line carries a [`Level`], and
//! an [`Output`] decides from its configured level whether the line is shown.
use vstd::prelude::*;

verus! {

/// Verbosity level attached to each line of output.
///
/// A line prints when the configured [`Output`] level is greater than or equal
/// to the line's level, so the variants are ordered from lowest to highest. A
/// line tagged with a level prints at that verbosity and every higher one.
#[derive(Clone, Copy, Debug, PartialEq, Eq, PartialOrd, Ord)]
pub enum Level {
    /// Always shown — prints at every verbosity, including quiet.
    Always,
    /// Normal output — shown at normal and verbose, suppressed when quiet.
    Normal,
    /// Verbose output — shown only when verbose.
    Verbose,
}

/// Position of a level in the order `Always < Normal < Verbose`.
pub open spec fn rank(l: Level) -> nat {
    match l {
        Level::Always => 0,
        Level::Normal => 1,
        Level::Verbose => 2,
    }
}

/// The level that the `--verbose` and `--quiet` flags select: quiet wins.
pub open spec fn level_for(verbose: bool, quiet: bool) -> Level {
    if quiet {
        Level::Always
    } else if verbose {
        Level::Verbose
    } else {
        Level::Normal
    }
}

/// Single filter point for all CLI output.
pub struct Output {
    level: Level,
}

impl Output {
    /// The configured verbosity.
    pub closed spec fn configured(&self) -> Level {
        self.level
    }

    /// Whether a line tagged `line` is shown.
    pub open spec fn spec_shows(&self, line: Level) -> bool {
        rank(self.configured()) >= rank(line)
    }

    /// Build an `Output` from the `--verbose` and `--quiet` flags.
    ///
    /// Quiet wins over verbose when both flags are set: the result is the quiet
    /// level (only [`Level::Always`] lines print).
    pub fn new(verbose: bool, quiet: bool) -> (out: Self)
        ensures
            out.configured() == level_for(verbose, quiet),
    {
        let level = if quiet {
            Level::Always
        } else if verbose {
            Level::Verbose
        } else {
            Level::Normal
        };
        Output { level }
    }

    /// The configured verbosity.
    pub fn level(&self) -> (l: Level)
        ensures
            l == self.configured(),
    {
        self.level
    }

    /// Whether a line tagged `line` is shown at the configured verbosity.
    pub fn shows(&self, line: Level) -> (r: bool)
        ensures
            r == self.spec_shows(line),
    {
        match (self.level, line) {
            (Level::Always, Level::Always) => true,
            (Level::Always, _) => false,
            (Level::Normal, Level::Verbose) => false,
            (Level::Normal, _) => true,
            (Level::Verbose, _) => true,
        }
    }

    pub fn is_quiet(&self) -> (r: bool)
        ensures
            r == (self.configured() == Level::Always),
    {
        match self.level {
            Level::Always => true,
            _ => false,
        }
    }
}

/// A line shown at some verbosity is shown at every higher one.
pub proof fn lemma_shows_upward(a: Output, b: Output, line: Level)
    requires
        a.spec_shows(line),
        rank(a.configured()) <= rank(b.configured()),
    ensures
        b.spec_shows(line),
{
}

/// `Always` lines are shown at every verbosity; quiet output shows nothing else.
pub proof fn lemma_always_and_quiet(o: Output, line: Level)
    ensures
        o.spec_shows(Level::Always),
        o.configured() == Level::Always ==> (o.spec_shows(line) <==> line == Level::Always),
{
}

} // verus!
