//! The room-settings checks of a game: twenty checks over the room's
//! options and its game mode. Unlike the bot's own handler, this one gives
//! no fixes, and an unstated room-handling, garbage-queue or bag-type option
//! passes.

use vstd::prelude::*;
use vstd::string::StringExecFns;
use crate::client::settings::{
    level_max, BagKind, ConstraintLevel, GarbageEntry, KickSet, Passthrough, RoomOptions, TargetBonus,
};
use crate::spin::Spins;

verus! {

/// The game mode of a room's match.
#[derive(Debug, Clone, Copy, PartialEq, Eq, Structural)]
pub enum GameMode {
    Versus,
    Practice,
    /// Any other mode, such as royale.
    Other,
}

/// What a room update holds for the checks: the options, when the room
/// states them, and the match's game mode.
#[derive(Debug, Clone, Copy, PartialEq, Eq, Structural)]
pub struct RoomUpdate {
    pub options: Option<RoomOptions>,
    pub game_mode: GameMode,
}

/// The output of a constraint check.
#[derive(Debug, Clone)]
pub struct ConstraintOutput {
    /// The level of the raised check.
    pub level: ConstraintLevel,
    /// The message associated with the raised check.
    pub message: String,
}

/// The result of a settings check.
#[derive(Debug, Clone)]
pub struct CheckResult {
    /// The highest level of the raised checks.
    pub level: ConstraintLevel,
    /// The outputs of the raised checks.
    pub outputs: Vec<ConstraintOutput>,
}

/// One room-settings check.
#[derive(Debug, Clone, Copy, PartialEq, Eq, Structural)]
pub enum Check {
    SpinBonuses,
    Passthrough,
    KickSet,
    HardDrop,
    Are,
    LineClearAre,
    RoomHandling,
    BoardWidth,
    Gravity,
    GravityIncrease,
    LockDelay,
    NoLockout,
    Stock,
    GameMode,
    GarbagePhase,
    GarbageEntry,
    GarbageQueue,
    MessinessTimeout,
    BagType,
    GarbageTargetBonus,
}

/// Whether the options meet a check that reads only the options.
pub open spec fn option_holds(o: RoomOptions, c: Check) -> bool {
    match c {
        Check::SpinBonuses => o.spin_bonuses == Some(Spins::AllMiniPlus) || o.spin_bonuses == Some(Spins::AllPlus),
        Check::Passthrough => o.passthrough == Some(Passthrough::Zero),
        Check::KickSet => o.kick_set == Some(KickSet::SrsPlus),
        Check::HardDrop => o.allow_harddrop == Some(true),
        Check::Are => o.are == Some(0i64),
        Check::LineClearAre => o.lineclear_are == Some(0i64),
        Check::RoomHandling => o.room_handling != Some(true),
        Check::BoardWidth => o.board_width == Some(10i64),
        Check::Gravity => o.gravity_is_zero == Some(true),
        Check::GravityIncrease => o.gravity_increase_is_zero == Some(true),
        Check::LockDelay => o.lock_time matches Some(v) && v >= 1,
        Check::NoLockout => o.no_lockout == Some(true),
        Check::Stock => o.stock == Some(0i64),
        Check::GameMode => true,
        Check::GarbagePhase => o.garbage_phase == Some(0i64),
        Check::GarbageEntry => o.garbage_entry == Some(GarbageEntry::Instant),
        Check::GarbageQueue => o.garbage_queue != Some(true),
        Check::MessinessTimeout => o.messiness_timeout_is_zero == Some(true),
        Check::BagType => o.bag_type != Some(BagKind::Other),
        Check::GarbageTargetBonus => o.garbage_target_bonus == Some(TargetBonus::NoBonus),
    }
}

/// Whether a room update passes a check. With no options stated, only the
/// room-handling, garbage-queue and bag-type checks pass among those that
/// read the options.
pub open spec fn passes(u: RoomUpdate, c: Check) -> bool {
    if c == Check::GameMode {
        u.game_mode == GameMode::Versus || u.game_mode == GameMode::Practice
    } else {
        match u.options {
            Some(o) => option_holds(o, c),
            None => c == Check::RoomHandling || c == Check::GarbageQueue || c == Check::BagType,
        }
    }
}

/// The message raised when a check fails.
pub open spec fn message_of(c: Check) -> Seq<char> {
    match c {
        Check::SpinBonuses => "rue does not support spin bonuses outside of all-mini+ and all+."@,
        Check::Passthrough => "rue only supports zero passthrough."@,
        Check::KickSet => "rue only supports the \"SRS+\" kick table."@,
        Check::HardDrop => "rue requires hard drop to be enabled in order to play."@,
        Check::Are => "rue only supports \"0\" ARE."@,
        Check::LineClearAre => "rue only supports \"0\" line clear ARE."@,
        Check::RoomHandling => "rue does not support custom room handling."@,
        Check::BoardWidth => "rue currently only supports boards with a width of 10."@,
        Check::Gravity => "rue requires 0 gravity."@,
        Check::GravityIncrease => "rue requires 0 gravity increase."@,
        Check::LockDelay => "rue requires at least 1 lock delay."@,
        Check::NoLockout => "rue does not support lockout."@,
        Check::Stock => "rue does not support stock, but will soon."@,
        Check::GameMode => "rue does not properly support royale mode."@,
        Check::GarbagePhase => "rue does not yet support garbage phasing."@,
        Check::GarbageEntry => "rue does not support non-instant garbage entry."@,
        Check::GarbageQueue => "rue does not support garbage queue."@,
        Check::MessinessTimeout => "rue does not support messiness timeout."@,
        Check::BagType => "rue does not support the \"classic\" or \"total mayhem\" bag types."@,
        Check::GarbageTargetBonus => "rue does not support garbage targeting bonuses."@,
    }
}

/// The checks among `cs` that the update fails, in order.
pub open spec fn failing(cs: Seq<Check>, u: RoomUpdate) -> Seq<Check>
    decreases cs.len(),
{
    if cs.len() == 0 {
        seq![]
    } else if passes(u, cs.last()) {
        failing(cs.drop_last(), u)
    } else {
        failing(cs.drop_last(), u).push(cs.last())
    }
}

/// The highest level among the outputs, starting from the first.
pub open spec fn max_level(outs: Seq<ConstraintOutput>) -> ConstraintLevel
    decreases outs.len(),
{
    if outs.len() <= 1 {
        outs[0].level
    } else {
        level_max(max_level(outs.drop_last()), outs.last().level)
    }
}

proof fn lemma_max_level_error(outs: Seq<ConstraintOutput>)
    requires
        outs.len() >= 1,
        forall|i: int| 0 <= i < outs.len() ==> (#[trigger] outs[i]).level == ConstraintLevel::Error,
    ensures
        max_level(outs) == ConstraintLevel::Error,
    decreases outs.len(),
{
    if outs.len() > 1 {
        lemma_max_level_error(outs.drop_last());
    }
}

/// The checks of a game, in the order they are made.
pub open spec fn default_list() -> Seq<Check> {
    seq![
        Check::SpinBonuses,
        Check::Passthrough,
        Check::KickSet,
        Check::HardDrop,
        Check::Are,
        Check::LineClearAre,
        Check::RoomHandling,
        Check::BoardWidth,
        Check::Gravity,
        Check::GravityIncrease,
        Check::LockDelay,
        Check::NoLockout,
        Check::Stock,
        Check::GameMode,
        Check::GarbagePhase,
        Check::GarbageEntry,
        Check::GarbageQueue,
        Check::MessinessTimeout,
        Check::BagType,
        Check::GarbageTargetBonus,
    ]
}

/// Creates an error output.
fn err(msg: &str) -> (out: ConstraintOutput)
    ensures
        out.level == ConstraintLevel::Error,
        out.message@ == msg@,
{
    ConstraintOutput { level: ConstraintLevel::Error, message: String::from_str(msg) }
}

/// Makes one check: `None` when the update passes it, else the error with
/// the check's message.
pub fn check(c: Check, u: &RoomUpdate) -> (r: Option<ConstraintOutput>)
    ensures
        r is None <==> passes(*u, c),
        r matches Some(out) ==> out.level == ConstraintLevel::Error && out.message@ == message_of(c),
{
    let ok = match c {
        Check::GameMode => match u.game_mode {
            GameMode::Versus | GameMode::Practice => true,
            GameMode::Other => false,
        },
        _ => match u.options {
            None => match c {
                Check::RoomHandling | Check::GarbageQueue | Check::BagType => true,
                _ => false,
            },
            Some(o) => match c {
                Check::SpinBonuses => match o.spin_bonuses {
                        Some(Spins::AllMiniPlus) | Some(Spins::AllPlus) => true,
                        _ => false,
                    },
                Check::Passthrough => match o.passthrough {
                        Some(Passthrough::Zero) => true,
                        _ => false,
                    },
                Check::KickSet => match o.kick_set {
                        Some(KickSet::SrsPlus) => true,
                        _ => false,
                    },
                Check::HardDrop => match o.allow_harddrop {
                        Some(v) => v,
                        None => false,
                    },
                Check::Are => match o.are {
                        Some(v) => v == 0,
                        None => false,
                    },
                Check::LineClearAre => match o.lineclear_are {
                        Some(v) => v == 0,
                        None => false,
                    },
                Check::RoomHandling => match o.room_handling {
                        Some(v) => !v,
                        None => true,
                    },
                Check::BoardWidth => match o.board_width {
                        Some(v) => v == 10,
                        None => false,
                    },
                Check::Gravity => match o.gravity_is_zero {
                        Some(v) => v,
                        None => false,
                    },
                Check::GravityIncrease => match o.gravity_increase_is_zero {
                        Some(v) => v,
                        None => false,
                    },
                Check::LockDelay => match o.lock_time {
                        Some(v) => v >= 1,
                        None => false,
                    },
                Check::NoLockout => match o.no_lockout {
                        Some(v) => v,
                        None => false,
                    },
                Check::Stock => match o.stock {
                        Some(v) => v == 0,
                        None => false,
                    },
                Check::GameMode => true,
                Check::GarbagePhase => match o.garbage_phase {
                        Some(v) => v == 0,
                        None => false,
                    },
                Check::GarbageEntry => match o.garbage_entry {
                        Some(GarbageEntry::Instant) => true,
                        _ => false,
                    },
                Check::GarbageQueue => match o.garbage_queue {
                        Some(v) => !v,
                        None => true,
                    },
                Check::MessinessTimeout => match o.messiness_timeout_is_zero {
                        Some(v) => v,
                        None => false,
                    },
                Check::BagType => match o.bag_type {
                        Some(BagKind::Other) => false,
                        _ => true,
                    },
                Check::GarbageTargetBonus => match o.garbage_target_bonus {
                        Some(TargetBonus::NoBonus) => true,
                        _ => false,
                    },
            },
        },
    };
    if ok {
        return None;
    }
    let out = match c {
        Check::SpinBonuses => err("rue does not support spin bonuses outside of all-mini+ and all+."),
        Check::Passthrough => err("rue only supports zero passthrough."),
        Check::KickSet => err("rue only supports the \"SRS+\" kick table."),
        Check::HardDrop => err("rue requires hard drop to be enabled in order to play."),
        Check::Are => err("rue only supports \"0\" ARE."),
        Check::LineClearAre => err("rue only supports \"0\" line clear ARE."),
        Check::RoomHandling => err("rue does not support custom room handling."),
        Check::BoardWidth => err("rue currently only supports boards with a width of 10."),
        Check::Gravity => err("rue requires 0 gravity."),
        Check::GravityIncrease => err("rue requires 0 gravity increase."),
        Check::LockDelay => err("rue requires at least 1 lock delay."),
        Check::NoLockout => err("rue does not support lockout."),
        Check::Stock => err("rue does not support stock, but will soon."),
        Check::GameMode => err("rue does not properly support royale mode."),
        Check::GarbagePhase => err("rue does not yet support garbage phasing."),
        Check::GarbageEntry => err("rue does not support non-instant garbage entry."),
        Check::GarbageQueue => err("rue does not support garbage queue."),
        Check::MessinessTimeout => err("rue does not support messiness timeout."),
        Check::BagType => err("rue does not support the \"classic\" or \"total mayhem\" bag types."),
        Check::GarbageTargetBonus => err("rue does not support garbage targeting bonuses."),
    };
    Some(out)
}

/// A handler that checks room updates against a list of checks.
pub struct SettingsHandler {
    /// The checks, in the order they are made.
    pub constraints: Vec<Check>,
}

impl SettingsHandler {
    /// Creates a handler with the default checks.
    pub fn new() -> (h: Self)
        ensures
            h.constraints@ == default_list(),
    {
        SettingsHandler { constraints: Self::default_constraints() }
    }

    /// The checks made on a game's room settings, in order.
    pub fn default_constraints() -> (cs: Vec<Check>)
        ensures
            cs@ == default_list(),
    {
        let cs = vec![
            Check::SpinBonuses,
            Check::Passthrough,
            Check::KickSet,
            Check::HardDrop,
            Check::Are,
            Check::LineClearAre,
            Check::RoomHandling,
            Check::BoardWidth,
            Check::Gravity,
            Check::GravityIncrease,
            Check::LockDelay,
            Check::NoLockout,
            Check::Stock,
            Check::GameMode,
            Check::GarbagePhase,
            Check::GarbageEntry,
            Check::GarbageQueue,
            Check::MessinessTimeout,
            Check::BagType,
            Check::GarbageTargetBonus,
        ];
        assert(cs@ =~= default_list());
        cs
    }

    /// Checks a room update: `None` when it passes every check, else the
    /// error of each failed check, in order, and the highest of their
    /// levels.
    pub fn check_room_update(&self, data: &RoomUpdate) -> (r: Option<CheckResult>)
        ensures
            r is None <==> failing(self.constraints@, *data).len() == 0,
            r matches Some(res) ==> {
                &&& res.outputs@.len() == failing(self.constraints@, *data).len()
                &&& forall|i: int| 0 <= i < res.outputs@.len() ==> (#[trigger] res.outputs@[i]).level == ConstraintLevel::Error
                    && res.outputs@[i].message@ == message_of(failing(self.constraints@, *data)[i])
                &&& res.level == max_level(res.outputs@)
                &&& res.level == ConstraintLevel::Error
            },
    {
        let mut outputs: Vec<ConstraintOutput> = Vec::new();
        let mut i: usize = 0;
        while i < self.constraints.len()
            invariant
                i <= self.constraints@.len(),
                outputs@.len() == failing(self.constraints@.take(i as int), *data).len(),
                forall|k: int| 0 <= k < outputs@.len() ==> (#[trigger] outputs@[k]).level == ConstraintLevel::Error
                    && outputs@[k].message@ == message_of(failing(self.constraints@.take(i as int), *data)[k]),
            decreases self.constraints@.len() - i,
        {
            let c = self.constraints[i];
            let o = check(c, data);
            proof {
                let t = self.constraints@.take(i as int + 1);
                assert(t.drop_last() =~= self.constraints@.take(i as int));
                assert(t.last() == c);
            }
            match o {
                Some(out) => {
                    outputs.push(out);
                },
                None => {},
            }
            i += 1;
        }
        assert(self.constraints@.take(self.constraints@.len() as int) =~= self.constraints@);
        if outputs.len() == 0 {
            return None;
        }
        let mut level = outputs[0].level;
        let mut k: usize = 1;
        while k < outputs.len()
            invariant
                1 <= k <= outputs@.len(),
                level == max_level(outputs@.take(k as int)),
            decreases outputs@.len() - k,
        {
            proof {
                let t = outputs@.take(k as int + 1);
                assert(t.drop_last() =~= outputs@.take(k as int));
            }
            level = level.max(outputs[k].level);
            k += 1;
        }
        assert(outputs@.take(outputs@.len() as int) =~= outputs@);
        proof {
            lemma_max_level_error(outputs@);
        }
        Some(CheckResult { level, outputs })
    }
}

} // verus!
