//! Room settings checks: the room options the bot can play under.

use vstd::prelude::*;
use vstd::string::StringExecFns;
use crate::spin::Spins;

verus! {

/// Result level of a constraint check.
#[derive(Debug, Clone, Copy, PartialEq, Eq, Structural)]
pub enum ConstraintLevel {
    Info,
    Change,
    Warning,
    Error,
}

/// The rank of a level: info, change, warning, error, in that order.
pub open spec fn level_rank(l: ConstraintLevel) -> int {
    match l {
        ConstraintLevel::Info => 0,
        ConstraintLevel::Change => 1,
        ConstraintLevel::Warning => 2,
        ConstraintLevel::Error => 3,
    }
}

/// The higher of two levels.
pub open spec fn level_max(a: ConstraintLevel, b: ConstraintLevel) -> ConstraintLevel {
    if level_rank(b) > level_rank(a) {
        b
    } else {
        a
    }
}

impl ConstraintLevel {
    /// The level's name.
    pub fn name(self) -> (r: &'static str)
        ensures
            self == ConstraintLevel::Info ==> r@ == "info"@,
            self == ConstraintLevel::Change ==> r@ == "change"@,
            self == ConstraintLevel::Warning ==> r@ == "warning"@,
            self == ConstraintLevel::Error ==> r@ == "error"@,
    {
        match self {
            ConstraintLevel::Info => "info",
            ConstraintLevel::Change => "change",
            ConstraintLevel::Warning => "warning",
            ConstraintLevel::Error => "error",
        }
    }

    /// The higher of this level and `other`.
    pub fn max(self, other: ConstraintLevel) -> (r: ConstraintLevel)
        ensures
            r == level_max(self, other),
    {
        let a = self.rank();
        let b = other.rank();
        if b > a {
            other
        } else {
            self
        }
    }

    /// The level's rank.
    fn rank(self) -> (r: u8)
        ensures
            r as int == level_rank(self),
    {
        match self {
            ConstraintLevel::Info => 0,
            ConstraintLevel::Change => 1,
            ConstraintLevel::Warning => 2,
            ConstraintLevel::Error => 3,
        }
    }
}

/// The output of a constraint check.
#[derive(Debug, Clone)]
pub struct ConstraintOutput {
    /// The level of the raised check.
    pub level: ConstraintLevel,
    /// The message associated with the raised check.
    pub message: String,
    /// The option setting that meets the constraint.
    pub fix: String,
}

/// The result of a settings check.
#[derive(Debug, Clone)]
pub struct CheckResult {
    /// The highest level of the raised checks.
    pub level: ConstraintLevel,
    /// The outputs of the raised checks.
    pub outputs: Vec<ConstraintOutput>,
}

/// How garbage passes through an opponent's attack.
#[derive(Debug, Clone, Copy, PartialEq, Eq, Structural)]
pub enum Passthrough {
    /// No passthrough.
    Zero,
    /// Any other passthrough rule.
    Other,
}

/// The rotation kick table of a room.
#[derive(Debug, Clone, Copy, PartialEq, Eq, Structural)]
pub enum KickSet {
    /// The SRS+ kick table.
    SrsPlus,
    /// Any other kick table.
    Other,
}

/// The piece randomizer of a room.
#[derive(Debug, Clone, Copy, PartialEq, Eq, Structural)]
pub enum BagKind {
    /// The seven-piece bag.
    Bag7,
    /// Any other randomizer.
    Other,
}

/// The garbage targeting bonus of a room.
#[derive(Debug, Clone, Copy, PartialEq, Eq, Structural)]
pub enum TargetBonus {
    /// No targeting bonus.
    NoBonus,
    /// Any other targeting bonus.
    Other,
}

/// How garbage enters the board.
#[derive(Debug, Clone, Copy, PartialEq, Eq, Structural)]
pub enum GarbageEntry {
    /// All at once.
    Instant,
    /// Any other entry.
    Other,
}

/// The room options that the constraints read; `None` where the room does not
/// state the option. Real-valued options are given as whether they are zero.
#[derive(Debug, Clone, Copy, PartialEq, Eq, Structural)]
pub struct RoomOptions {
    pub spin_bonuses: Option<Spins>,
    pub passthrough: Option<Passthrough>,
    pub kick_set: Option<KickSet>,
    pub allow_harddrop: Option<bool>,
    pub are: Option<i64>,
    pub lineclear_are: Option<i64>,
    pub room_handling: Option<bool>,
    pub board_width: Option<i64>,
    pub gravity_is_zero: Option<bool>,
    pub gravity_increase_is_zero: Option<bool>,
    pub no_lockout: Option<bool>,
    pub stock: Option<i64>,
    pub garbage_phase: Option<i64>,
    pub garbage_queue: Option<bool>,
    pub messiness_timeout_is_zero: Option<bool>,
    pub bag_type: Option<BagKind>,
    pub garbage_target_bonus: Option<TargetBonus>,
    pub lock_time: Option<i64>,
    pub garbage_entry: Option<GarbageEntry>,
}

/// One room-settings constraint.
#[derive(Debug, Clone, Copy, PartialEq, Eq, Structural)]
pub enum Constraint {
    SpinBonuses,
    Passthrough,
    KickSet,
    HardDrop,
    Are,
    LineClearAre,
    RoomHandling,
    BoardWidth,
    Gravity,
    GravityIncrease,
    NoLockout,
    Stock,
    GarbagePhase,
    GarbageQueue,
    MessinessTimeout,
    BagType,
    GarbageTargetBonus,
}

/// Whether the options meet a constraint. An option the room does not state
/// never meets it.
pub open spec fn holds(o: RoomOptions, c: Constraint) -> bool {
    match c {
        Constraint::SpinBonuses => o.spin_bonuses == Some(Spins::AllMiniPlus) || o.spin_bonuses
            == Some(Spins::AllPlus),
        Constraint::Passthrough => o.passthrough == Some(Passthrough::Zero),
        Constraint::KickSet => o.kick_set == Some(KickSet::SrsPlus),
        Constraint::HardDrop => o.allow_harddrop == Some(true),
        Constraint::Are => o.are == Some(0i64),
        Constraint::LineClearAre => o.lineclear_are == Some(0i64),
        Constraint::RoomHandling => o.room_handling == Some(false),
        Constraint::BoardWidth => o.board_width == Some(10i64),
        Constraint::Gravity => o.gravity_is_zero == Some(true),
        Constraint::GravityIncrease => o.gravity_increase_is_zero == Some(true),
        Constraint::NoLockout => o.no_lockout == Some(true),
        Constraint::Stock => o.stock == Some(0i64),
        Constraint::GarbagePhase => o.garbage_phase == Some(0i64),
        Constraint::GarbageQueue => o.garbage_queue == Some(false),
        Constraint::MessinessTimeout => o.messiness_timeout_is_zero == Some(true),
        Constraint::BagType => o.bag_type == Some(BagKind::Bag7),
        Constraint::GarbageTargetBonus => o.garbage_target_bonus == Some(TargetBonus::NoBonus),
    }
}

/// The message raised when a constraint is not met.
pub open spec fn message_of(c: Constraint) -> Seq<char> {
    match c {
        Constraint::SpinBonuses => "spin bonuses must be all-mini+ or all+"@,
        Constraint::Passthrough => "passthrough must be zero"@,
        Constraint::KickSet => "kick table must be SRS+"@,
        Constraint::HardDrop => "hard drop must be enabled"@,
        Constraint::Are => "ARE must be 0"@,
        Constraint::LineClearAre => "line clear ARE must be 0"@,
        Constraint::RoomHandling => "custom room handling must be disabled"@,
        Constraint::BoardWidth => "board width must be 10"@,
        Constraint::Gravity => "gravity must be 0"@,
        Constraint::GravityIncrease => "gravity increase must be 0"@,
        Constraint::NoLockout => "lockout must be disabled"@,
        Constraint::Stock => "stock must be 0"@,
        Constraint::GarbagePhase => "garbage phase must be 0"@,
        Constraint::GarbageQueue => "garbage queue must be disabled"@,
        Constraint::MessinessTimeout => "messiness timeout must be 0"@,
        Constraint::BagType => "bag type must be 7-bag"@,
        Constraint::GarbageTargetBonus => "garbage target bonus must be none"@,
    }
}

/// The option setting that meets a constraint.
pub open spec fn fix_of(c: Constraint) -> Seq<char> {
    match c {
        Constraint::SpinBonuses => "options.spinbonuses=all-mini+"@,
        Constraint::Passthrough => "options.passthrough=zero"@,
        Constraint::KickSet => "options.kickset=SRS+"@,
        Constraint::HardDrop => "options.allow_harddrop=1"@,
        Constraint::Are => "options.are=0"@,
        Constraint::LineClearAre => "options.lineclear_are=0"@,
        Constraint::RoomHandling => "options.room_handling=0"@,
        Constraint::BoardWidth => "options.boardwidth=10"@,
        Constraint::Gravity => "options.g=0.0"@,
        Constraint::GravityIncrease => "options.gincrease=0.0"@,
        Constraint::NoLockout => "options.nolockout=1"@,
        Constraint::Stock => "options.stock=0"@,
        Constraint::GarbagePhase => "options.garbagephase=0"@,
        Constraint::GarbageQueue => "options.garbagequeue=0"@,
        Constraint::MessinessTimeout => "options.messiness_timeout=0"@,
        Constraint::BagType => "options.bagtype=7-bag"@,
        Constraint::GarbageTargetBonus => "options.garbagetargetbonus=none"@,
    }
}

/// An output is the error raised for a constraint.
pub open spec fn raised_for(out: ConstraintOutput, c: Constraint) -> bool {
    &&& out.level == ConstraintLevel::Error
    &&& out.message@ == message_of(c)
    &&& out.fix@ == fix_of(c)
}

/// The constraints among `cs` that the options do not meet, in order.
pub open spec fn failing(cs: Seq<Constraint>, o: RoomOptions) -> Seq<Constraint>
    decreases cs.len(),
{
    if cs.len() == 0 {
        seq![]
    } else if holds(o, cs.last()) {
        failing(cs.drop_last(), o)
    } else {
        failing(cs.drop_last(), o).push(cs.last())
    }
}

/// The highest level among the outputs, starting from the first.
pub open spec fn max_level(outs: Seq<ConstraintOutput>) -> ConstraintLevel
    decreases outs.len(),
{
    if outs.len() <= 1 {
        outs[0].level
    } else {
        level_max(max_level(outs.drop_last()), outs.last().level)
    }
}

/// Outputs that are all errors have the error level.
pub proof fn lemma_max_level_error(outs: Seq<ConstraintOutput>)
    requires
        outs.len() >= 1,
        forall|i: int| 0 <= i < outs.len() ==> (#[trigger] outs[i]).level == ConstraintLevel::Error,
    ensures
        max_level(outs) == ConstraintLevel::Error,
    decreases outs.len(),
{
    if outs.len() > 1 {
        lemma_max_level_error(outs.drop_last());
    }
}

/// The constraints the bot enforces, in the order they are checked.
pub open spec fn default_list() -> Seq<Constraint> {
    seq![
        Constraint::SpinBonuses,
        Constraint::Passthrough,
        Constraint::KickSet,
        Constraint::HardDrop,
        Constraint::Are,
        Constraint::LineClearAre,
        Constraint::RoomHandling,
        Constraint::BoardWidth,
        Constraint::Gravity,
        Constraint::GravityIncrease,
        Constraint::NoLockout,
        Constraint::Stock,
        Constraint::GarbagePhase,
        Constraint::GarbageQueue,
        Constraint::MessinessTimeout,
        Constraint::BagType,
        Constraint::GarbageTargetBonus,
    ]
}

/// Creates an error output.
fn err(msg: &str, fix: &str) -> (out: ConstraintOutput)
    ensures
        out.level == ConstraintLevel::Error,
        out.message@ == msg@,
        out.fix@ == fix@,
{
    ConstraintOutput { level: ConstraintLevel::Error, message: String::from_str(msg), fix: String::from_str(fix) }
}

/// Checks one constraint: `None` when the options meet it, else the error.
pub fn check(c: Constraint, o: &RoomOptions) -> (r: Option<ConstraintOutput>)
    ensures
        r is None <==> holds(*o, c),
        r matches Some(out) ==> raised_for(out, c),
{
    let ok = match c {
        Constraint::SpinBonuses => match o.spin_bonuses {
            Some(Spins::AllMiniPlus) | Some(Spins::AllPlus) => true,
            _ => false,
        },
        Constraint::Passthrough => match o.passthrough {
            Some(Passthrough::Zero) => true,
            _ => false,
        },
        Constraint::KickSet => match o.kick_set {
            Some(KickSet::SrsPlus) => true,
            _ => false,
        },
        Constraint::HardDrop => match o.allow_harddrop {
            Some(v) => v,
            None => false,
        },
        Constraint::Are => match o.are {
            Some(v) => v == 0,
            None => false,
        },
        Constraint::LineClearAre => match o.lineclear_are {
            Some(v) => v == 0,
            None => false,
        },
        Constraint::RoomHandling => match o.room_handling {
            Some(v) => !v,
            None => false,
        },
        Constraint::BoardWidth => match o.board_width {
            Some(v) => v == 10,
            None => false,
        },
        Constraint::Gravity => match o.gravity_is_zero {
            Some(v) => v,
            None => false,
        },
        Constraint::GravityIncrease => match o.gravity_increase_is_zero {
            Some(v) => v,
            None => false,
        },
        Constraint::NoLockout => match o.no_lockout {
            Some(v) => v,
            None => false,
        },
        Constraint::Stock => match o.stock {
            Some(v) => v == 0,
            None => false,
        },
        Constraint::GarbagePhase => match o.garbage_phase {
            Some(v) => v == 0,
            None => false,
        },
        Constraint::GarbageQueue => match o.garbage_queue {
            Some(v) => !v,
            None => false,
        },
        Constraint::MessinessTimeout => match o.messiness_timeout_is_zero {
            Some(v) => v,
            None => false,
        },
        Constraint::BagType => match o.bag_type {
            Some(BagKind::Bag7) => true,
            _ => false,
        },
        Constraint::GarbageTargetBonus => match o.garbage_target_bonus {
            Some(TargetBonus::NoBonus) => true,
            _ => false,
        },
    };
    if ok {
        return None;
    }
    let out = match c {
        Constraint::SpinBonuses => err("spin bonuses must be all-mini+ or all+", "options.spinbonuses=all-mini+"),
        Constraint::Passthrough => err("passthrough must be zero", "options.passthrough=zero"),
        Constraint::KickSet => err("kick table must be SRS+", "options.kickset=SRS+"),
        Constraint::HardDrop => err("hard drop must be enabled", "options.allow_harddrop=1"),
        Constraint::Are => err("ARE must be 0", "options.are=0"),
        Constraint::LineClearAre => err("line clear ARE must be 0", "options.lineclear_are=0"),
        Constraint::RoomHandling => err("custom room handling must be disabled", "options.room_handling=0"),
        Constraint::BoardWidth => err("board width must be 10", "options.boardwidth=10"),
        Constraint::Gravity => err("gravity must be 0", "options.g=0.0"),
        Constraint::GravityIncrease => err("gravity increase must be 0", "options.gincrease=0.0"),
        Constraint::NoLockout => err("lockout must be disabled", "options.nolockout=1"),
        Constraint::Stock => err("stock must be 0", "options.stock=0"),
        Constraint::GarbagePhase => err("garbage phase must be 0", "options.garbagephase=0"),
        Constraint::GarbageQueue => err("garbage queue must be disabled", "options.garbagequeue=0"),
        Constraint::MessinessTimeout => err("messiness timeout must be 0", "options.messiness_timeout=0"),
        Constraint::BagType => err("bag type must be 7-bag", "options.bagtype=7-bag"),
        Constraint::GarbageTargetBonus => err("garbage target bonus must be none", "options.garbagetargetbonus=none"),
    };
    Some(out)
}

/// A handler that checks room settings against a list of constraints.
pub struct SettingsHandler {
    /// The constraints, in the order they are checked.
    pub constraints: Vec<Constraint>,
}

impl SettingsHandler {
    /// Creates a handler with the default constraints.
    pub fn new() -> (h: Self)
        ensures
            h.constraints@ == default_list(),
    {
        SettingsHandler { constraints: Self::default_constraints() }
    }

    /// The constraints the bot enforces on room settings, in order.
    pub fn default_constraints() -> (cs: Vec<Constraint>)
        ensures
            cs@ == default_list(),
    {
        let cs = vec![
            Constraint::SpinBonuses,
            Constraint::Passthrough,
            Constraint::KickSet,
            Constraint::HardDrop,
            Constraint::Are,
            Constraint::LineClearAre,
            Constraint::RoomHandling,
            Constraint::BoardWidth,
            Constraint::Gravity,
            Constraint::GravityIncrease,
            Constraint::NoLockout,
            Constraint::Stock,
            Constraint::GarbagePhase,
            Constraint::GarbageQueue,
            Constraint::MessinessTimeout,
            Constraint::BagType,
            Constraint::GarbageTargetBonus,
        ];
        assert(cs@ =~= default_list());
        cs
    }

    /// Checks room options against the constraints: `None` when all are
    /// met, else the error of each unmet constraint, in order, and the
    /// highest of their levels.
    pub fn check_room_update(&self, data: &RoomOptions) -> (r: Option<CheckResult>)
        ensures
            r is None <==> failing(self.constraints@, *data).len() == 0,
            r matches Some(res) ==> {
                &&& res.outputs@.len() == failing(self.constraints@, *data).len()
                &&& forall|i: int| 0 <= i < res.outputs@.len() ==> raised_for(#[trigger] res.outputs@[i], failing(self.constraints@, *data)[i])
                &&& res.level == max_level(res.outputs@)
                &&& res.level == ConstraintLevel::Error
            },
    {
        let mut outputs: Vec<ConstraintOutput> = Vec::new();
        let mut i: usize = 0;
        while i < self.constraints.len()
            invariant
                i <= self.constraints@.len(),
                outputs@.len() == failing(self.constraints@.take(i as int), *data).len(),
                forall|k: int| 0 <= k < outputs@.len() ==> raised_for(#[trigger] outputs@[k], failing(self.constraints@.take(i as int), *data)[k]),
            decreases self.constraints@.len() - i,
        {
            let c = self.constraints[i];
            let o = check(c, data);
            proof {
                let t = self.constraints@.take(i as int + 1);
                assert(t.drop_last() =~= self.constraints@.take(i as int));
                assert(t.last() == c);
            }
            match o {
                Some(out) => {
                    outputs.push(out);
                },
                None => {},
            }
            i += 1;
        }
        assert(self.constraints@.take(self.constraints@.len() as int) =~= self.constraints@);
        if outputs.len() == 0 {
            return None;
        }
        let mut level = outputs[0].level;
        let mut k: usize = 1;
        while k < outputs.len()
            invariant
                1 <= k <= outputs@.len(),
                level == max_level(outputs@.take(k as int)),
            decreases outputs@.len() - k,
        {
            proof {
                let t = outputs@.take(k as int + 1);
                assert(t.drop_last() =~= outputs@.take(k as int));
            }
            level = level.max(outputs[k].level);
            k += 1;
        }
        assert(outputs@.take(outputs@.len() as int) =~= outputs@);
        proof {
            lemma_max_level_error(outputs@);
        }
        Some(CheckResult { level, outputs })
    }
}

} // verus!
