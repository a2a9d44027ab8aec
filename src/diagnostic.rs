//! Structured compiler diagnostics.

use vstd::prelude::*;

verus! {

/// How serious a diagnostic is; earlier variants are worse.
#[derive(Debug, Clone, Copy, PartialEq, Eq, Hash, Structural)]
pub enum Severity {
    Fatal,
    Error,
    Warning,
    Note,
    Debug,
}

impl Default for Severity {
    fn default() -> (r: Self)
        ensures
            r == Severity::Fatal,
    {
        Severity::Fatal
    }
}

impl Severity {
    /// Position in the order of seriousness: 0 is the worst.
    pub open spec fn rank(self) -> nat {
        match self {
            Severity::Fatal => 0,
            Severity::Error => 1,
            Severity::Warning => 2,
            Severity::Note => 3,
            Severity::Debug => 4,
        }
    }

    /// The position of this severity in the order of seriousness.
    pub fn level(&self) -> (r: u8)
        ensures
            r as nat == self.rank(),
    {
        match self {
            Severity::Fatal => 0,
            Severity::Error => 1,
            Severity::Warning => 2,
            Severity::Note => 3,
            Severity::Debug => 4,
        }
    }

    pub open spec fn name(self) -> Seq<char> {
        match self {
            Severity::Fatal => "fatal"@,
            Severity::Error => "error"@,
            Severity::Warning => "warning"@,
            Severity::Note => "note"@,
            Severity::Debug => "debug"@,
        }
    }

    /// The lower-case name of the severity.
    pub fn as_str(&self) -> (r: &'static str)
        ensures
            r@ == self.name(),
    {
        match self {
            Severity::Fatal => "fatal",
            Severity::Error => "error",
            Severity::Warning => "warning",
            Severity::Note => "note",
            Severity::Debug => "debug",
        }
    }
}

/// A point in a source text.
#[derive(Debug, Clone, Copy, PartialEq, Eq, Hash, Default, Structural)]
pub struct TextPoint {
    pub line: u32,
    pub column: u32,
}

/// A range of a source text, both ends included.
#[derive(Debug, Clone, Copy, PartialEq, Eq, Hash, Default, Structural)]
pub struct TextSpan {
    pub start: TextPoint,
    pub end: TextPoint,
}

/// A place in a file that a diagnostic refers to.
#[derive(Debug, Clone, PartialEq, Eq, Hash, Default)]
pub struct Location {
    pub file: String,
    pub span: Option<TextSpan>,
    pub point: Option<TextPoint>,
    pub label: Option<String>,
}

/// A replacement that the compiler proposes for a span of a file.
#[derive(Debug, Clone, PartialEq, Eq, Hash, Default)]
pub struct FixingSuggestion {
    pub file: String,
    pub span: TextSpan,
    pub text: String,
}

/// One compiler message.
#[derive(Debug, PartialEq, Eq, Hash, Default)]
pub struct Diagnostic {
    pub severity: Severity,
    pub message: String,
    pub locations: Vec<Location>,
    pub children: Diagnostics,
    pub fixits: Vec<FixingSuggestion>,
}

/// The messages of one tool run.
#[derive(Debug, PartialEq, Eq, Hash, Default)]
pub struct Diagnostics(pub Vec<Diagnostic>);

/// The worst severity among the diagnostics, `Debug` when there are none.
pub open spec fn worst(ds: Seq<Diagnostic>) -> Severity
    decreases ds.len(),
{
    if ds.len() == 0 {
        Severity::Debug
    } else {
        let rest = worst(ds.drop_last());
        if ds.last().severity.rank() < rest.rank() {
            ds.last().severity
        } else {
            rest
        }
    }
}

impl Diagnostics {
    /// An empty set of diagnostics.
    pub fn empty() -> (r: Self)
        ensures
            r.0@.len() == 0,
    {
        Diagnostics(Vec::new())
    }

    pub open spec fn spec_severity(&self) -> Severity {
        worst(self.0@)
    }

    /// The worst severity of all diagnostics; `Debug` for none.
    pub fn severity(&self) -> (r: Severity)
        ensures
            r == self.spec_severity(),
    {
        let mut w = Severity::Debug;
        let mut i: usize = 0;
        while i < self.0.len()
            invariant
                i <= self.0@.len(),
                w == worst(self.0@.subrange(0, i as int)),
            decreases self.0@.len() - i,
        {
            let s = self.0[i].severity;
            proof {
                let pre = self.0@.subrange(0, i as int + 1);
                assert(pre.drop_last() =~= self.0@.subrange(0, i as int));
            }
            if s.level() < w.level() {
                w = s;
            }
            i = i + 1;
        }
        proof {
            assert(self.0@.subrange(0, self.0@.len() as int) =~= self.0@);
        }
        w
    }

    pub open spec fn spec_is_failed(&self) -> bool {
        self.spec_severity().rank() <= Severity::Error.rank()
    }

    /// Whether the worst diagnostic is an error or a fatal one.
    pub fn is_failed(&self) -> (r: bool)
        ensures
            r == self.spec_is_failed(),
    {
        self.severity().level() <= 1
    }
}

} // verus!
