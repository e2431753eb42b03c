//! Restricted operating modes of a running actor.

use crate::text;
use vstd::prelude::*;

verus! {

/// The mode that a suspended actor is in.
#[derive(Debug, Clone, Copy, PartialEq, Eq, Structural)]
#[non_exhaustive]
pub enum SuspendMode {
    /// Only close positions.
    FlatOnly,
    /// Only reduce risk.
    RiskReducingOnly,
    /// Do nothing.
    FullHalt,
}

/// The name of a mode.
pub open spec fn mode_text(mode: SuspendMode) -> Seq<char> {
    match mode {
        SuspendMode::FlatOnly => "flat_only"@,
        SuspendMode::RiskReducingOnly => "risk_reducing_only"@,
        SuspendMode::FullHalt => "full_halt"@,
    }
}

/// The mode of a name.
pub open spec fn mode_named(s: Seq<char>) -> Option<SuspendMode> {
    if s == "flat_only"@ {
        Some(SuspendMode::FlatOnly)
    } else if s == "risk_reducing_only"@ || s == "risk_reducing"@ {
        Some(SuspendMode::RiskReducingOnly)
    } else if s == "full_halt"@ {
        Some(SuspendMode::FullHalt)
    } else {
        None
    }
}

/// Why a name is no mode.
pub open spec fn unknown_mode(s: Seq<char>) -> Seq<char> {
    "unknown suspend mode `"@ + s
        + "`; expected one of flat_only | risk_reducing_only | full_halt"@
}

impl SuspendMode {
    /// The name of the mode.
    pub fn name(self) -> (r: &'static str)
        ensures
            r@ == mode_text(self),
    {
        match self {
            SuspendMode::FlatOnly => "flat_only",
            SuspendMode::RiskReducingOnly => "risk_reducing_only",
            SuspendMode::FullHalt => "full_halt",
        }
    }

    /// The mode that `mode` names, or why it names none.
    pub fn parse(mode: &str) -> (r: Result<SuspendMode, String>)
        ensures
            match mode_named(mode@) {
                Some(m) => r == Ok::<SuspendMode, String>(m),
                None => r is Err && r->Err_0@ == unknown_mode(mode@),
            },
    {
        if text::same_text(mode, "flat_only") {
            Ok(SuspendMode::FlatOnly)
        } else if text::same_text(mode, "risk_reducing_only") || text::same_text(
            mode,
            "risk_reducing",
        ) {
            Ok(SuspendMode::RiskReducingOnly)
        } else if text::same_text(mode, "full_halt") {
            Ok(SuspendMode::FullHalt)
        } else {
            let mut message: String = "unknown suspend mode `".to_string();
            message.append(mode);
            message.append("`; expected one of flat_only | risk_reducing_only | full_halt");
            Err(message)
        }
    }
}

/// The name of a mode names that mode.
pub proof fn names_round_trip(mode: SuspendMode)
    ensures
        mode_named(mode_text(mode)) == Some(mode),
{
    reveal_strlit("flat_only");
    reveal_strlit("risk_reducing_only");
    reveal_strlit("risk_reducing");
    reveal_strlit("full_halt");
    assert("flat_only"@[1] != "full_halt"@[1]);
    assert("flat_only"@[0] != "risk_reducing_only"@[0]);
    assert("full_halt"@[0] != "risk_reducing_only"@[0]);
    assert("full_halt"@.len() != "risk_reducing"@.len());
}

/// The names of the modes, and the short one for reducing risk, name a mode; no
/// other text does.
pub proof fn modes_have_their_names(s: Seq<char>)
    ensures
        mode_named(s) == Some(SuspendMode::FlatOnly) <==> s == "flat_only"@,
        mode_named(s) == Some(SuspendMode::RiskReducingOnly) <==> s == "risk_reducing_only"@ || s
            == "risk_reducing"@,
        mode_named(s) == Some(SuspendMode::FullHalt) <==> s == "full_halt"@,
        mode_text(SuspendMode::FlatOnly) == "flat_only"@,
        mode_text(SuspendMode::RiskReducingOnly) == "risk_reducing_only"@,
        mode_text(SuspendMode::FullHalt) == "full_halt"@,
{
    reveal_strlit("flat_only");
    reveal_strlit("risk_reducing_only");
    reveal_strlit("risk_reducing");
    reveal_strlit("full_halt");
    assert("flat_only"@[1] == 'l' && "full_halt"@[1] == 'u');
    assert("flat_only"@[0] == 'f' && "full_halt"@[0] == 'f');
    assert("risk_reducing_only"@[0] == 'r' && "risk_reducing"@[0] == 'r');
}

} // verus!
