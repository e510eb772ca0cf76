//! What the bot does when a room's options change: the checks it reports,
//! whether it leaves or joins the players, and the command that fixes the
//! options.

use vstd::prelude::*;
use vstd::string::StringExecFns;
use crate::client::control::EnabledState;
use crate::client::settings::{CheckResult, ConstraintLevel, ConstraintOutput};

verus! {

/// The fixes of the first `n` outputs, joined by semicolons.
pub open spec fn joined_fixes(outs: Seq<ConstraintOutput>, n: int) -> Seq<char>
    decreases n,
{
    if n <= 0 {
        Seq::empty()
    } else if n == 1 {
        outs[0].fix@
    } else {
        joined_fixes(outs, n - 1) + ";"@ + outs[n - 1].fix@
    }
}

/// The text posted so that a host can fix the options with one command.
pub open spec fn fix_text(outs: Seq<ConstraintOutput>) -> Seq<char> {
    "paste the following command to fix:\n\n/set "@ + joined_fixes(outs, outs.len() as int)
}

/// The reaction to a room update.
#[derive(Debug, Clone)]
pub struct RoomReaction {
    /// Whether the bot moves to the spectators.
    pub spectate: bool,
    /// The command text to post, when there is one.
    pub fix: Option<String>,
    /// Whether the bot moves to the players.
    pub join: bool,
    /// The enabled state afterwards.
    pub enabled: EnabledState,
}

/// Whether a check result holds an error.
pub open spec fn is_error(result: Option<CheckResult>) -> bool {
    result matches Some(r) && r.level == ConstraintLevel::Error
}

/// The enabled state after a room update: an error disables the bot and
/// marks it as waiting; otherwise a waiting bot is enabled.
pub open spec fn enabled_after(result: Option<CheckResult>, enabled: EnabledState) -> EnabledState {
    if is_error(result) {
        EnabledState { value: false, attempt: true, force: enabled.force }
    } else if enabled.attempt {
        EnabledState { value: true, ..enabled }
    } else {
        enabled
    }
}

/// Whether the bot moves to the players after a room update.
pub open spec fn joins_after(result: Option<CheckResult>, enabled: EnabledState) -> bool {
    !is_error(result) && enabled.attempt
}

/// A bot moved out by settings that fail comes back by itself once an
/// update passes the checks, and is enabled again.
pub proof fn law_rejoin_after_fix(bad: Option<CheckResult>, good: Option<CheckResult>, enabled: EnabledState)
    requires
        is_error(bad),
        !is_error(good),
    ensures
        !enabled_after(bad, enabled).value,
        joins_after(good, enabled_after(bad, enabled)),
        enabled_after(good, enabled_after(bad, enabled)).value,
{
}

/// Joins the fixes of the outputs by semicolons.
fn join_fixes(outs: &Vec<ConstraintOutput>) -> (s: String)
    ensures
        s@ == joined_fixes(outs@, outs@.len() as int),
{
    let mut s = String::new();
    let mut i: usize = 0;
    while i < outs.len()
        invariant
            i <= outs@.len(),
            s@ == joined_fixes(outs@, i as int),
        decreases outs@.len() - i,
    {
        if i > 0 {
            s.append(";");
        }
        s.append(outs[i].fix.as_str());
        i += 1;
    }
    s
}

/// Decides what the bot does after the room's options changed. A failed
/// check with an error moves the bot to the spectators, marks it as
/// waiting to be enabled again and, on the first update after joining,
/// posts the command that fixes the options. Otherwise a bot that was
/// waiting joins the players and is enabled.
pub fn room_update_reaction(result: &Option<CheckResult>, initial: bool, enabled: EnabledState) -> (r: RoomReaction)
    ensures
        r.spectate == is_error(*result),
        r.join == joins_after(*result, enabled),
        r.enabled == enabled_after(*result, enabled),
        r.fix is Some <==> (is_error(*result) && initial && result->0.outputs@.len() > 0),
        r.fix matches Some(t) ==> t@ == fix_text(result->0.outputs@),
{
    match result {
        Some(res) => {
            if res.level == ConstraintLevel::Error {
                let fix = if initial && res.outputs.len() > 0 {
                    let mut t = String::from_str("paste the following command to fix:\n\n/set ");
                    let joined = join_fixes(&res.outputs);
                    t.append(joined.as_str());
                    Some(t)
                } else {
                    None
                };
                return RoomReaction {
                    spectate: true,
                    fix,
                    join: false,
                    enabled: EnabledState { value: false, attempt: true, force: enabled.force },
                };
            }
        },
        None => {},
    }
    if enabled.attempt {
        RoomReaction { spectate: false, fix: None, join: true, enabled: EnabledState { value: true, ..enabled } }
    } else {
        RoomReaction { spectate: false, fix: None, join: false, enabled }
    }
}

} // verus!
