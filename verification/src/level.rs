//! Log severity levels.
use vstd::prelude::*;

verus! {

/// Log severity level. A lower rank is a higher severity.
#[derive(Debug, Clone, Copy, PartialEq, Eq, Structural, PartialOrd, Ord, Hash)]
pub enum Level {
    Error,
    Warn,
    Info,
    Debug,
}

/// Whether level `a` is at least as severe as level `b`, in the severity
/// order error, warning, info, debug (most severe first).
pub open spec fn at_least_as_severe(a: Level, b: Level) -> bool {
    match b {
        Level::Error => a == Level::Error,
        Level::Warn => a == Level::Error || a == Level::Warn,
        Level::Info => a != Level::Debug,
        Level::Debug => true,
    }
}

/// The rank of a level counts its place in the severity order: error 0,
/// warning 1, info 2, debug 3, so a lower rank is exactly a level at least
/// as severe.
pub proof fn lemma_rank_follows_severity(a: Level, b: Level)
    ensures
        (a.spec_rank() <= b.spec_rank()) == at_least_as_severe(a, b),
        Level::Error.spec_rank() == 0,
        Level::Warn.spec_rank() == 1,
        Level::Info.spec_rank() == 2,
        Level::Debug.spec_rank() == 3,
{
}

impl Level {
    /// Position of the level in the order Error < Warn < Info < Debug.
    pub open spec fn spec_rank(self) -> nat {
        match self {
            Level::Error => 0,
            Level::Warn => 1,
            Level::Info => 2,
            Level::Debug => 3,
        }
    }

    /// The level's name in capitals.
    pub open spec fn spec_name(self) -> Seq<char> {
        match self {
            Level::Error => seq!['E', 'R', 'R', 'O', 'R'],
            Level::Warn => seq!['W', 'A', 'R', 'N'],
            Level::Info => seq!['I', 'N', 'F', 'O'],
            Level::Debug => seq!['D', 'E', 'B', 'U', 'G'],
        }
    }

    /// The tag that marks errors and warnings in a log line.
    pub open spec fn spec_tag(self) -> Seq<char> {
        match self {
            Level::Error => seq![' ', 'E', 'R', 'R', 'O', 'R'],
            Level::Warn => seq![' ', 'W', 'A', 'R', 'N'],
            _ => Seq::empty(),
        }
    }

    /// Position of the level in the order Error < Warn < Info < Debug.
    pub fn rank(&self) -> (r: u8)
        ensures
            r == self.spec_rank(),
    {
        match self {
            Level::Error => 0,
            Level::Warn => 1,
            Level::Info => 2,
            Level::Debug => 3,
        }
    }

    /// `self` is less severe than `other`.
    pub fn is_less_severe_than(&self, other: &Level) -> (r: bool)
        ensures
            r == (self.spec_rank() > other.spec_rank()),
            r == !at_least_as_severe(*self, *other),
    {
        proof {
            lemma_rank_follows_severity(*self, *other);
        }
        self.rank() > other.rank()
    }

    /// The level's name in capitals: `ERROR`, `WARN`, `INFO` or `DEBUG`.
    pub fn as_str(&self) -> (r: &'static str)
        ensures
            r@ == self.spec_name(),
    {
        match self {
            Level::Error => {
                proof { reveal_strlit("ERROR"); }
                "ERROR"
            },
            Level::Warn => {
                proof { reveal_strlit("WARN"); }
                "WARN"
            },
            Level::Info => {
                proof { reveal_strlit("INFO"); }
                "INFO"
            },
            Level::Debug => {
                proof { reveal_strlit("DEBUG"); }
                "DEBUG"
            },
        }
    }

    /// The level's name as an owned string.
    pub fn to_string(&self) -> (r: String)
        ensures
            r@ == self.spec_name(),
    {
        String::from_str(self.as_str())
    }

    /// The tag that marks the level in a log line: ` ERROR`, ` WARN`, or
    /// nothing for the other levels.
    pub fn tag(&self) -> (r: &'static str)
        ensures
            r@ == self.spec_tag(),
    {
        match self {
            Level::Error => {
                proof { reveal_strlit(" ERROR"); }
                " ERROR"
            },
            Level::Warn => {
                proof { reveal_strlit(" WARN"); }
                " WARN"
            },
            _ => {
                proof { reveal_strlit(""); }
                ""
            },
        }
    }
}

} // verus!
