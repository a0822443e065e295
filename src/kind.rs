//! Lint severities, how they are spelled in a manifest and on a command line.

use vstd::prelude::*;

verus! {

/// How the compiler treats a lint.
#[derive(Clone, Copy, Debug, PartialEq, Eq, Structural)]
pub enum LintKind {
    Allow,
    Warn,
    Deny,
}

/// The severity that a manifest spells as `s`: exactly `allow`, `warn` or
/// `deny`, case-sensitive and untrimmed.
pub open spec fn kind_of_state(s: Seq<char>) -> Option<LintKind> {
    if s == "allow"@ {
        Some(LintKind::Allow)
    } else if s == "warn"@ {
        Some(LintKind::Warn)
    } else if s == "deny"@ {
        Some(LintKind::Deny)
    } else {
        None
    }
}

/// The command-line marker that precedes the lints of one severity.
pub open spec fn marker(kind: LintKind) -> Seq<char> {
    match kind {
        LintKind::Allow => "-A"@,
        LintKind::Warn => "-W"@,
        LintKind::Deny => "-D"@,
    }
}

impl LintKind {
    /// Reads a severity as a manifest spells it; `None` for anything else.
    pub fn from_state(state: &String) -> (r: Option<LintKind>)
        ensures
            r == kind_of_state(state@),
    {
        let allow = String::from_str("allow");
        let warn = String::from_str("warn");
        let deny = String::from_str("deny");
        if *state == allow {
            Some(LintKind::Allow)
        } else if *state == warn {
            Some(LintKind::Warn)
        } else if *state == deny {
            Some(LintKind::Deny)
        } else {
            None
        }
    }

    /// The flag that introduces the lints of this severity.
    pub fn flag(self) -> (r: String)
        ensures
            r@ == marker(self),
    {
        match self {
            LintKind::Allow => String::from_str("-A"),
            LintKind::Warn => String::from_str("-W"),
            LintKind::Deny => String::from_str("-D"),
        }
    }
}

} // verus!
