//! Command permissions and the bot's room state.

use vstd::prelude::*;
use crate::text::str_eq;
use crate::client::settings::BagKind;

verus! {

/// Who may run commands: anyone, players, the room host, or developers.
#[derive(Debug, Clone, Copy, PartialEq, Eq, Hash, Structural)]
pub enum Restriction {
    Unrestricted,
    Player,
    Host,
    Dev,
}

/// The rank of a restriction level, lowest first.
pub open spec fn restriction_rank(r: Restriction) -> int {
    match r {
        Restriction::Unrestricted => 0,
        Restriction::Player => 1,
        Restriction::Host => 2,
        Restriction::Dev => 3,
    }
}

impl Restriction {
    /// The level's rank.
    pub fn rank(self) -> (r: u8)
        ensures
            r as int == restriction_rank(self),
    {
        match self {
            Restriction::Unrestricted => 0,
            Restriction::Player => 1,
            Restriction::Host => 2,
            Restriction::Dev => 3,
        }
    }
}

impl Default for Restriction {
    /// No restriction.
    fn default() -> (r: Self)
        ensures
            r == Restriction::Unrestricted,
    {
        Restriction::Unrestricted
    }
}

/// The group a command is listed under.
#[derive(Debug, Clone, Copy, PartialEq, Eq, Hash, Structural)]
pub enum Category {
    Info,
    Controls,
    Solver,
    Dev,
}

impl Default for Category {
    /// The info group.
    fn default() -> (c: Self)
        ensures
            c == Category::Info,
    {
        Category::Info
    }
}

/// The name of a command group.
pub fn category_name(c: Category) -> (r: &'static str)
    ensures
        c == Category::Info ==> r@ == "info"@,
        c == Category::Controls ==> r@ == "controls"@,
        c == Category::Solver ==> r@ == "solver"@,
        c == Category::Dev ==> r@ == "dev"@,
{
    match c {
        Category::Info => "info",
        Category::Controls => "controls",
        Category::Solver => "solver",
        Category::Dev => "dev",
    }
}

/// The level of a chat user: the room owner is host, a user in the player
/// bracket is a player, anyone else (or anyone, outside a room) has no
/// level.
pub fn user_level(in_room: bool, is_owner: bool, is_player: bool) -> (r: Restriction)
    ensures
        r == (if in_room && is_owner {
            Restriction::Host
        } else if in_room && is_player {
            Restriction::Player
        } else {
            Restriction::Unrestricted
        }),
{
    if in_room {
        if is_owner {
            Restriction::Host
        } else if is_player {
            Restriction::Player
        } else {
            Restriction::Unrestricted
        }
    } else {
        Restriction::Unrestricted
    }
}

/// Whether a user at level `user` may run a command of level `command` in
/// a room restricted to `room`.
pub open spec fn allowed(user: Restriction, command: Restriction, room: Restriction) -> bool {
    restriction_rank(user) >= restriction_rank(command) && restriction_rank(user) >= restriction_rank(room)
}

/// Whether a user may run a command: the user's level reaches both the
/// command's level and the room's current restriction.
pub fn may_run(user: Restriction, command: Restriction, room: Restriction) -> (r: bool)
    ensures
        r == allowed(user, command, room),
{
    !(user.rank() < command.rank() || user.rank() < room.rank())
}

/// The levels are strictly ordered, none below player below host below
/// developer: a user never runs a command, nor enters a room, restricted to
/// a strictly higher level; a developer runs everything; anyone runs an
/// unrestricted command in an unrestricted room; and two different levels
/// never both reach each other.
pub proof fn law_restriction_levels_strict(user: Restriction, other: Restriction, level: Restriction)
    ensures
        !allowed(Restriction::Unrestricted, Restriction::Player, level),
        !allowed(Restriction::Player, Restriction::Host, level),
        !allowed(Restriction::Host, Restriction::Dev, level),
        !allowed(Restriction::Unrestricted, level, Restriction::Player),
        !allowed(Restriction::Player, level, Restriction::Host),
        !allowed(Restriction::Host, level, Restriction::Dev),
        allowed(Restriction::Dev, other, level),
        allowed(user, Restriction::Unrestricted, Restriction::Unrestricted),
        user != other ==> !(allowed(user, other, Restriction::Unrestricted) && allowed(other, user, Restriction::Unrestricted)),
        allowed(user, other, Restriction::Unrestricted) || allowed(other, user, Restriction::Unrestricted),
        restriction_rank(Restriction::Unrestricted) < restriction_rank(Restriction::Player),
        restriction_rank(Restriction::Player) < restriction_rank(Restriction::Host),
        restriction_rank(Restriction::Host) < restriction_rank(Restriction::Dev),
{
}

/// A user at a higher level may run whatever a user at a lower level may
/// run, and tightening the room's restriction never lets more users in.
pub proof fn law_may_run_monotone(low: Restriction, high: Restriction, command: Restriction, room: Restriction, tighter: Restriction)
    requires
        restriction_rank(low) <= restriction_rank(high),
        restriction_rank(room) <= restriction_rank(tighter),
    ensures
        allowed(low, command, room) ==> allowed(high, command, room),
        allowed(low, command, tighter) ==> allowed(low, command, room),
{
}

/// Reads a restriction level by its name: `none`, `player`, `host` or
/// `dev`.
pub fn parse_restriction(word: &str) -> (r: Option<Restriction>)
    ensures
        word@ == "none"@ ==> r == Some(Restriction::Unrestricted),
        word@ == "player"@ ==> r == Some(Restriction::Player),
        word@ == "host"@ ==> r == Some(Restriction::Host),
        word@ == "dev"@ ==> r == Some(Restriction::Dev),
        word@ != "none"@ && word@ != "player"@ && word@ != "host"@ && word@ != "dev"@ ==> r is None,
{
    proof {
        reveal_strlit("none");
        reveal_strlit("player");
        reveal_strlit("host");
        reveal_strlit("dev");
        assert("none"@.len() != "player"@.len() && "none"@[0] != "host"@[0] && "none"@.len() != "dev"@.len());
        assert("player"@.len() != "host"@.len() && "player"@.len() != "dev"@.len() && "host"@.len() != "dev"@.len());
    }
    if str_eq(word, "none") {
        Some(Restriction::Unrestricted)
    } else if str_eq(word, "player") {
        Some(Restriction::Player)
    } else if str_eq(word, "host") {
        Some(Restriction::Host)
    } else if str_eq(word, "dev") {
        Some(Restriction::Dev)
    } else {
        None
    }
}

/// Why a change of the room's restriction was refused.
#[derive(Debug, Clone, Copy, PartialEq, Eq, Structural)]
pub enum RestrictError {
    /// The level name is not known.
    InvalidLevel,
    /// Players and users without a level cannot change it.
    NotAllowed,
    /// Only developers may restrict to developers.
    DevOnly,
}

/// Decides a request by `user` to restrict commands to the level named
/// `word`: the new room restriction, or why it is refused. An unknown name
/// is refused first, then a user below host, then a developer-only level
/// asked for by a non-developer.
pub fn restrict(word: &str, user: Restriction) -> (r: Result<Restriction, RestrictError>)
    ensures
        ({
            let v = if word@ == "none"@ {
                Some(Restriction::Unrestricted)
            } else if word@ == "player"@ {
                Some(Restriction::Player)
            } else if word@ == "host"@ {
                Some(Restriction::Host)
            } else if word@ == "dev"@ {
                Some(Restriction::Dev)
            } else {
                None::<Restriction>
            };
            &&& v is None ==> r == Err::<Restriction, RestrictError>(RestrictError::InvalidLevel)
            &&& v is Some && (user == Restriction::Player || user == Restriction::Unrestricted) ==> r
                == Err::<Restriction, RestrictError>(RestrictError::NotAllowed)
            &&& v is Some && !(user == Restriction::Player || user == Restriction::Unrestricted)
                && v == Some(Restriction::Dev) && user != Restriction::Dev ==> r == Err::<
                Restriction,
                RestrictError,
            >(RestrictError::DevOnly)
            &&& v is Some && !(user == Restriction::Player || user == Restriction::Unrestricted)
                && !(v == Some(Restriction::Dev) && user != Restriction::Dev) ==> r == Ok::<
                Restriction,
                RestrictError,
            >(v.unwrap())
        }),
{
    let v = match parse_restriction(word) {
        Some(v) => v,
        None => {
            return Err(RestrictError::InvalidLevel);
        },
    };
    if user == Restriction::Player || user == Restriction::Unrestricted {
        return Err(RestrictError::NotAllowed);
    }
    if v == Restriction::Dev && user != Restriction::Dev {
        return Err(RestrictError::DevOnly);
    }
    Ok(v)
}

/// Finesse style for the bot; smooth finesse is capped to five pieces per
/// second.
#[derive(Debug, Clone, Copy, PartialEq, Eq, Structural)]
pub enum Finesse {
    Instant,
    Smooth,
}

/// Whether the bot is enabled, and whether it should attempt to enable
/// itself if disabled.
#[derive(Debug, Clone, Copy, PartialEq, Eq, Structural)]
pub struct EnabledState {
    /// Whether the bot is currently enabled.
    pub value: bool,
    /// Whether the bot should attempt to enable itself if disabled.
    pub attempt: bool,
    /// Whether the bot should forcefully enable itself, ignoring constraints.
    pub force: bool,
}

/// The frame of the last piece and the frame targeted for the next one.
#[derive(Debug, Clone, Copy, PartialEq, Eq, Structural)]
pub struct GameState {
    pub last_piece_frame: u64,
    pub target_frame: u64,
}

/// A room for the bot: one to join by its id, or a new one to create.
#[derive(Debug, Clone)]
pub enum Target {
    Join(String),
    Create,
}

/// The bot's room state.
#[derive(Debug, Clone, Copy, PartialEq, Eq, Structural)]
pub struct State {
    /// Whether the bot is enabled.
    pub enabled: EnabledState,
    /// The current game, if one is running.
    pub game: Option<GameState>,
    /// Commands from users below this level are ignored.
    pub restriction: Restriction,
}

/// Whether an enable request forces the bot in, past the settings checks:
/// the word `force` from a developer.
pub fn enable_force(word: Option<&str>, user: Restriction) -> (r: bool)
    ensures
        r == (word matches Some(w) && w@ == "force"@ && user == Restriction::Dev),
{
    let forced = match word {
        Some(w) => str_eq(w, "force"),
        None => false,
    };
    forced && user == Restriction::Dev
}

impl EnabledState {
    /// The state after the bot joined the players: enabled, no longer
    /// attempting, forced as requested.
    pub fn enabled(force: bool) -> (s: Self)
        ensures
            s == (EnabledState { value: true, attempt: false, force }),
    {
        EnabledState { value: true, attempt: false, force }
    }

    /// Stops attempting and forcing, as a disable request does first.
    pub fn stop_attempts(&mut self)
        ensures
            *final(self) == (EnabledState { value: old(self).value, attempt: false, force: false }),
    {
        self.attempt = false;
        self.force = false;
    }
}

/// Reads a burst setting: `on` or `off`; any other word is refused.
pub fn parse_burst(word: &str) -> (r: Option<bool>)
    ensures
        r == (if word@ == "on"@ {
            Some(true)
        } else if word@ == "off"@ {
            Some(false)
        } else {
            None::<bool>
        }),
{
    if str_eq(word, "on") {
        Some(true)
    } else if str_eq(word, "off") {
        Some(false)
    } else {
        None
    }
}

/// The finesse mode that a word names, if any.
pub open spec fn finesse_of_word(w: Seq<char>) -> Option<Finesse> {
    if w == "smooth"@ {
        Some(Finesse::Smooth)
    } else if w == "instant"@ {
        Some(Finesse::Instant)
    } else {
        None
    }
}

/// The word that names a finesse mode.
pub open spec fn finesse_word(f: Finesse) -> Seq<char> {
    match f {
        Finesse::Smooth => "smooth"@,
        Finesse::Instant => "instant"@,
    }
}

/// Reads a finesse mode: `smooth` or `instant`; any other word is refused.
pub fn parse_finesse(word: &str) -> (r: Option<Finesse>)
    ensures
        r == finesse_of_word(word@),
{
    if str_eq(word, "smooth") {
        Some(Finesse::Smooth)
    } else if str_eq(word, "instant") {
        Some(Finesse::Instant)
    } else {
        None
    }
}

/// The name under which a finesse mode is shown and read back.
pub fn finesse_name(f: Finesse) -> (r: &'static str)
    ensures
        r@ == finesse_word(f),
{
    match f {
        Finesse::Smooth => "smooth",
        Finesse::Instant => "instant",
    }
}

/// Showing a finesse mode and reading its name back gives the same mode.
pub proof fn law_finesse_name_round_trip(f: Finesse)
    ensures
        finesse_of_word(finesse_word(f)) == Some(f),
{
    reveal_strlit("smooth");
    reveal_strlit("instant");
    assert("instant"@[0] != "smooth"@[0]);
}


/// Whether the bot ignores a chat line: system lines, lines without a
/// user, and its own lines.
pub fn ignores_chat(system: bool, has_user: bool, from_bot: bool) -> (r: bool)
    ensures
        r == (system || !has_user || from_bot),
{
    system || !has_user || from_bot
}

/// Whether the bot leaves the room: every player in it is a bot.
pub fn only_bots(players_are_bots: &[bool]) -> (r: bool)
    ensures
        r == forall|i: int| 0 <= i < players_are_bots@.len() ==> #[trigger] players_are_bots@[i],
{
    let mut i: usize = 0;
    while i < players_are_bots.len()
        invariant
            i <= players_are_bots@.len(),
            forall|k: int| 0 <= k < i ==> #[trigger] players_are_bots@[k],
        decreases players_are_bots@.len() - i,
    {
        if !players_are_bots[i] {
            return false;
        }
        i += 1;
    }
    true
}

/// Whether the bot moves on a tick: a game is running, its target frame
/// is reached, and no hard drop is still queued.
pub fn acts_on_tick(frame: u64, game: Option<GameState>, hard_drop_queued: bool) -> (r: bool)
    ensures
        r == (game matches Some(g) && frame >= g.target_frame && !hard_drop_queued),
{
    match game {
        Some(g) => frame >= g.target_frame && !hard_drop_queued,
        None => false,
    }
}

/// Whether the bot plays a round: only with the seven-piece bag.
pub fn plays_round(bag: BagKind) -> (r: bool)
    ensures
        r == (bag == BagKind::Bag7),
{
    match bag {
        BagKind::Bag7 => true,
        BagKind::Other => false,
    }
}

impl State {
    /// The state of a bot that just joined a room: disabled but trying to
    /// enable itself, no game running, commands open to everyone.
    pub fn initial() -> (s: Self)
        ensures
            s == (State {
                enabled: EnabledState { value: false, attempt: true, force: false },
                game: None,
                restriction: Restriction::Unrestricted,
            }),
    {
        State {
            enabled: EnabledState { value: false, attempt: true, force: false },
            game: None,
            restriction: Restriction::Unrestricted,
        }
    }
}

} // verus!
