use rue::client::game_settings::{GameMode, RoomUpdate, SettingsHandler as GameChecks};
use rue::client::control::{
    category_name, enable_force, finesse_name, may_run, parse_burst, parse_finesse,
    parse_restriction, restrict, user_level, Category, EnabledState, Finesse, RestrictError,
    Restriction,
};
use rue::client::settings::{
    check, BagKind, ConstraintLevel, GarbageEntry, KickSet, Passthrough, RoomOptions, SettingsHandler,
    TargetBonus, Constraint,
};
use rue::client::arguments::{parse_bool, parse_i64, parse_u64, Arguments, Rest};
use rue::client::room::room_update_reaction;
use rue::client::chat::{parse_chat, split_command, ChatCommand};
use rue::client::registry::{command_usage, doc_comment_description, help, CommandMetadata, Registry};
use rue::spin::Spins;
use rue::text::str_eq;

fn good_options() -> RoomOptions {
    RoomOptions {
        spin_bonuses: Some(Spins::AllMiniPlus),
        passthrough: Some(Passthrough::Zero),
        kick_set: Some(KickSet::SrsPlus),
        allow_harddrop: Some(true),
        are: Some(0),
        lineclear_are: Some(0),
        room_handling: Some(false),
        board_width: Some(10),
        gravity_is_zero: Some(true),
        gravity_increase_is_zero: Some(true),
        no_lockout: Some(true),
        stock: Some(0),
        garbage_phase: Some(0),
        garbage_queue: Some(false),
        messiness_timeout_is_zero: Some(true),
        bag_type: Some(BagKind::Bag7),
        garbage_target_bonus: Some(TargetBonus::NoBonus),
        lock_time: Some(1),
        garbage_entry: Some(GarbageEntry::Instant),
    }
}

#[test]
fn good_room_passes() {
    let h = SettingsHandler::new();
    assert_eq!(h.constraints.len(), 17);
    assert!(h.check_room_update(&good_options()).is_none());
    let plus = RoomOptions { spin_bonuses: Some(Spins::AllPlus), ..good_options() };
    assert!(h.check_room_update(&plus).is_none());
}

#[test]
fn bad_room_lists_each_failure_in_order() {
    let h = SettingsHandler::new();
    let bad = RoomOptions {
        spin_bonuses: Some(Spins::T),
        board_width: Some(12),
        bag_type: None,
        ..good_options()
    };
    let r = h.check_room_update(&bad).unwrap();
    assert_eq!(r.level, ConstraintLevel::Error);
    assert_eq!(r.outputs.len(), 3);
    assert_eq!(r.outputs[0].message, "spin bonuses must be all-mini+ or all+");
    assert_eq!(r.outputs[0].fix, "options.spinbonuses=all-mini+");
    assert_eq!(r.outputs[1].message, "board width must be 10");
    assert_eq!(r.outputs[2].message, "bag type must be 7-bag");
    assert_eq!(r.outputs[2].fix, "options.bagtype=7-bag");
}

#[test]
fn missing_options_fail_every_check() {
    let none = RoomOptions {
        spin_bonuses: None,
        passthrough: None,
        kick_set: None,
        allow_harddrop: None,
        are: None,
        lineclear_are: None,
        room_handling: None,
        board_width: None,
        gravity_is_zero: None,
        gravity_increase_is_zero: None,
        no_lockout: None,
        stock: None,
        garbage_phase: None,
        garbage_queue: None,
        messiness_timeout_is_zero: None,
        bag_type: None,
        garbage_target_bonus: None,
        lock_time: None,
        garbage_entry: None,
    };
    let r = SettingsHandler::new().check_room_update(&none).unwrap();
    assert_eq!(r.outputs.len(), 17);
    let g = check(Constraint::Gravity, &RoomOptions { gravity_is_zero: Some(false), ..good_options() }).unwrap();
    assert_eq!(g.message, "gravity must be 0");
    assert_eq!(g.fix, "options.g=0.0");
    assert!(check(Constraint::Stock, &good_options()).is_none());
}

#[test]
fn constraint_levels() {
    assert_eq!(ConstraintLevel::Warning.name(), "warning");
    assert_eq!(ConstraintLevel::Info.max(ConstraintLevel::Change), ConstraintLevel::Change);
    assert_eq!(ConstraintLevel::Error.max(ConstraintLevel::Warning), ConstraintLevel::Error);
}

#[test]
fn permissions() {
    assert_eq!(user_level(true, true, false), Restriction::Host);
    assert_eq!(user_level(true, false, true), Restriction::Player);
    assert_eq!(user_level(true, false, false), Restriction::Unrestricted);
    assert_eq!(user_level(false, true, true), Restriction::Unrestricted);
    assert!(may_run(Restriction::Host, Restriction::Host, Restriction::Player));
    assert!(!may_run(Restriction::Player, Restriction::Host, Restriction::Unrestricted));
    assert!(!may_run(Restriction::Player, Restriction::Unrestricted, Restriction::Host));
    assert!(may_run(Restriction::Dev, Restriction::Host, Restriction::Dev));
    assert_eq!(Restriction::default(), Restriction::Unrestricted);
}

#[test]
fn restrict_requests() {
    assert_eq!(parse_restriction("host"), Some(Restriction::Host));
    assert_eq!(parse_restriction("Host"), None);
    assert_eq!(restrict("player", Restriction::Host), Ok(Restriction::Player));
    assert_eq!(restrict("bogus", Restriction::Dev), Err(RestrictError::InvalidLevel));
    assert_eq!(restrict("none", Restriction::Player), Err(RestrictError::NotAllowed));
    assert_eq!(restrict("dev", Restriction::Host), Err(RestrictError::DevOnly));
    assert_eq!(restrict("dev", Restriction::Dev), Ok(Restriction::Dev));
}

#[test]
fn enable_and_disable_state() {
    assert!(enable_force(Some("force"), Restriction::Dev));
    assert!(!enable_force(Some("force"), Restriction::Host));
    assert!(!enable_force(Some("forced"), Restriction::Dev));
    assert!(!enable_force(None, Restriction::Dev));
    let s = EnabledState::enabled(true);
    assert!(s.value && !s.attempt && s.force);
    let mut t = EnabledState { value: true, attempt: true, force: true };
    t.stop_attempts();
    assert!(t.value && !t.attempt && !t.force);
    assert!(str_eq("abc", "abc"));
    assert!(!str_eq("abc", "abd"));
    assert_eq!(category_name(Category::Solver), "solver");
    assert_eq!(Category::default(), Category::Info);
}

#[test]
fn arguments_split_words() {
    let mut a = Arguments::new("  play  fast\tnow ");
    assert_eq!(a.next_word(), Some("play"));
    let p = a.save_position();
    assert_eq!(a.next_word(), Some("fast"));
    a.restore_position(p);
    assert_eq!(a.next_word(), Some("fast"));
    assert_eq!(a.next_word(), Some("now"));
    assert_eq!(a.next_word(), None);
    let mut b = Arguments::new("go   the rest here  ");
    assert_eq!(b.next_word(), Some("go"));
    let Rest(r) = Rest(b.rest().to_string());
    assert_eq!(r, "the rest here");
    assert_eq!(b.next_word(), None);
    let mut c = Arguments::new("\u{3000}x\u{2003}y");
    assert_eq!(c.next_word(), Some("x"));
    assert_eq!(c.next_word(), Some("y"));
}

#[test]
fn boolean_words() {
    assert_eq!(parse_bool("TRUE"), Some(true));
    assert_eq!(parse_bool("Yes"), Some(true));
    assert_eq!(parse_bool("1"), Some(true));
    assert_eq!(parse_bool("on"), Some(true));
    assert_eq!(parse_bool("Off"), Some(false));
    assert_eq!(parse_bool("no"), Some(false));
    assert_eq!(parse_bool("0"), Some(false));
    assert_eq!(parse_bool("FALSE"), Some(false));
    assert_eq!(parse_bool("maybe"), None);
    assert_eq!(parse_bool(""), None);
}

#[test]
fn burst_and_finesse_words() {
    assert_eq!(parse_burst("on"), Some(true));
    assert_eq!(parse_burst("off"), Some(false));
    assert_eq!(parse_burst("yes"), None);
    assert_eq!(parse_finesse("smooth"), Some(Finesse::Smooth));
    assert_eq!(parse_finesse("instant"), Some(Finesse::Instant));
    assert_eq!(parse_finesse("fast"), None);
    for f in [Finesse::Smooth, Finesse::Instant] {
        assert_eq!(parse_finesse(finesse_name(f)), Some(f));
    }
    assert_eq!(finesse_name(Finesse::Smooth), "smooth");
}

#[test]
fn room_update_reactions() {
    let h = SettingsHandler::new();
    let bad = RoomOptions { spin_bonuses: Some(Spins::T), bag_type: None, ..good_options() };
    let res = h.check_room_update(&bad);
    let on = EnabledState { value: true, attempt: false, force: false };
    let r = room_update_reaction(&res, true, on);
    assert!(r.spectate);
    assert!(!r.join);
    assert_eq!(r.enabled, EnabledState { value: false, attempt: true, force: false });
    assert_eq!(
        r.fix.as_deref(),
        Some("paste the following command to fix:\n\n/set options.spinbonuses=all-mini+;options.bagtype=7-bag")
    );
    // later updates report without posting the command again
    let later = room_update_reaction(&res, false, r.enabled);
    assert!(later.fix.is_none());
    assert!(later.spectate);
    // once the options pass, the waiting bot joins again
    let fixed = room_update_reaction(&h.check_room_update(&good_options()), false, later.enabled);
    assert!(fixed.join);
    assert!(!fixed.spectate);
    assert_eq!(fixed.enabled, EnabledState { value: true, attempt: true, force: false });
    // a bot that is not waiting stays as it is
    let idle = room_update_reaction(&None, false, on);
    assert!(!idle.join);
    assert_eq!(idle.enabled, on);
}

fn invoke(name: &str, args: &str) -> ChatCommand {
    ChatCommand::Invoke { name: name.to_string(), args: args.to_string() }
}

#[test]
fn chat_lines_become_commands() {
    assert_eq!(parse_chat("@rue", "rue", "!"), ChatCommand::Mention);
    assert_eq!(parse_chat("!help me", "rue", "!"), invoke("help", "me"));
    assert_eq!(parse_chat("!PPS 2.5", "rue", "!"), invoke("pps", "2.5"));
    assert_eq!(parse_chat("@rue Help  x", "rue", "!"), invoke("help", " x"));
    assert_eq!(parse_chat("!kill", "rue", "!"), invoke("kill", ""));
    assert_eq!(parse_chat("hello", "rue", "!"), ChatCommand::Ignore);
    assert_eq!(parse_chat("!", "rue", "!"), ChatCommand::Ignore);
    assert_eq!(parse_chat("! help", "rue", "!"), ChatCommand::Ignore);
    assert_eq!(parse_chat("@rueful hi", "rue", "!"), ChatCommand::Ignore);
    assert_eq!(split_command("!e force", "!"), invoke("e", "force"));
    assert_eq!(split_command("?e", "!"), ChatCommand::Ignore);
}

fn meta(
    name: &'static str,
    aliases: &'static [&'static str],
    usage: &'static str,
    description: &'static str,
    category: Category,
) -> CommandMetadata {
    CommandMetadata {
        name,
        aliases,
        description,
        usage,
        restriction_level: Restriction::Host,
        category,
    }
}

fn bot_registry() -> Registry {
    let mut r = Registry::new();
    r.register(meta("ping", &[], "", "Bot health check", Category::Info));
    r.register(meta("help", &["h"], "[name]", "Lists available commands", Category::Info));
    r.register(meta("kill", &[], "", "Kills the bot", Category::Controls));
    r.register(meta("enable", &["e"], "[force]", "Move the bot to the player's bracket", Category::Controls));
    r.register(meta("disable", &["d"], "", "Move the bot to the spectators bracket", Category::Controls));
    r.register(meta("restrict", &[], "<level>", "Restricts the bot", Category::Controls));
    r.register(meta("pps", &["p"], "[speed]", "Set the bot's pps", Category::Controls));
    r.register(meta("burst", &["b"], "[value]", "Toggle burst mode", Category::Controls));
    r.register(meta("finesse", &["f"], "[mode]", "Set the finesse mode", Category::Controls));
    r.register(meta("eval", &["Ev", "x"], "", "Evaluates the board", Category::Dev));
    r
}

#[test]
fn registry_finds_names_and_aliases_in_any_case() {
    let r = bot_registry();
    assert_eq!(r.iter().len(), 10);
    assert_eq!(r.find("PING").map(|m| m.name), Some("ping"));
    assert_eq!(r.find("h").map(|m| m.name), Some("help"));
    assert_eq!(r.find("E").map(|m| m.name), Some("enable"));
    assert_eq!(r.find("ev").map(|m| m.name), Some("eval"));
    assert!(r.find("nothing").is_none());
    // a later command takes over a key that was taken
    let mut r2 = bot_registry();
    r2.register(meta("exit", &["e"], "", "Leaves", Category::Controls));
    assert_eq!(r2.find("e").map(|m| m.name), Some("exit"));
    assert_eq!(r2.find("enable").map(|m| m.name), Some("enable"));
}

#[test]
fn help_lists_and_describes_commands() {
    let r = bot_registry();
    assert_eq!(
        help(&r, Restriction::Host, None),
        "Available commands:\nControls:\n  burst/b | disable/d | enable/e | finesse/f | kill | pps/p | restrict\nInfo:\n  help/h | ping"
    );
    assert_eq!(
        help(&r, Restriction::Dev, None),
        "Available commands:\nControls:\n  burst/b | disable/d | enable/e | finesse/f | kill | pps/p | restrict\nDev:\n  eval/Ev/x\nInfo:\n  help/h | ping"
    );
    assert_eq!(help(&r, Restriction::Player, Some("E")), "enable (e) [force]: Move the bot to the player's bracket");
    assert_eq!(help(&r, Restriction::Player, Some("ping")), "ping: Bot health check");
    assert_eq!(help(&r, Restriction::Player, Some("eval")), "Command not found");
    assert_eq!(help(&r, Restriction::Dev, Some("x")), "eval (Ev/x): Evaluates the board");
    assert_eq!(help(&r, Restriction::Dev, Some("zzz")), "Command not found");
}

#[test]
fn integer_words() {
    assert_eq!(parse_i64("42"), Some(42));
    assert_eq!(parse_i64("+12"), Some(12));
    assert_eq!(parse_i64("-0"), Some(0));
    assert_eq!(parse_i64("-17"), Some(-17));
    assert_eq!(parse_i64("-9223372036854775808"), Some(i64::MIN));
    assert_eq!(parse_i64("9223372036854775807"), Some(i64::MAX));
    assert_eq!(parse_i64("9223372036854775808"), None);
    assert_eq!(parse_i64("-9223372036854775809"), None);
    for bad in ["", "+", "-", "1_0", " 1", "1 ", "--1", "+-1", "x"] {
        assert_eq!(parse_i64(bad), None, "{bad:?}");
        assert_eq!(bad.parse::<i64>().ok(), None, "{bad:?}");
    }
    assert_eq!(parse_u64("18446744073709551615"), Some(u64::MAX));
    assert_eq!(parse_u64("18446744073709551616"), None);
    assert_eq!(parse_u64("+0"), Some(0));
    assert_eq!(parse_u64("-1"), None);
    assert_eq!(parse_u64("-0"), None);
    assert_eq!("-0".parse::<u64>().ok(), None);
    for w in ["0", "7", "+9", "-3", "123456789012", "99999999999999999999"] {
        assert_eq!(parse_i64(w), w.parse::<i64>().ok(), "{w:?}");
        assert_eq!(parse_u64(w), w.parse::<u64>().ok(), "{w:?}");
    }
}

#[test]
fn descriptions_and_usage_from_doc_lines() {
    assert_eq!(
        doc_comment_description(&[" Move the bot to the", "", "   player's bracket  ", " \t "]),
        "Move the bot to the player's bracket"
    );
    assert_eq!(doc_comment_description(&[]), "");
    assert_eq!(command_usage(&["[<text>]", "int"]), "<[<text>]> <int>");
    assert_eq!(command_usage(&[]), "");
}

#[test]
fn game_room_checks() {
    let h = GameChecks::new();
    assert_eq!(h.constraints.len(), 20);
    let ok = RoomUpdate { options: Some(good_options()), game_mode: GameMode::Versus };
    assert!(h.check_room_update(&ok).is_none());
    let practice = RoomUpdate { game_mode: GameMode::Practice, ..ok };
    assert!(h.check_room_update(&practice).is_none());
    // unset room handling, garbage queue and bag type pass
    let unset = RoomOptions { room_handling: None, garbage_queue: None, bag_type: None, ..good_options() };
    assert!(h.check_room_update(&RoomUpdate { options: Some(unset), ..ok }).is_none());
    // a lock delay of 1 is enough; none or 0 is not
    let no_lock = RoomOptions { lock_time: None, ..good_options() };
    let r = h.check_room_update(&RoomUpdate { options: Some(no_lock), ..ok }).unwrap();
    assert_eq!(r.outputs.len(), 1);
    assert_eq!(r.outputs[0].message, "rue requires at least 1 lock delay.");
    let zero_lock = RoomOptions { lock_time: Some(0), ..good_options() };
    assert!(h.check_room_update(&RoomUpdate { options: Some(zero_lock), ..ok }).is_some());
    // royale mode and delayed garbage entry are refused, in check order
    let bad = RoomUpdate {
        options: Some(RoomOptions { garbage_entry: Some(GarbageEntry::Other), kick_set: Some(KickSet::Other), ..good_options() }),
        game_mode: GameMode::Other,
    };
    let r = h.check_room_update(&bad).unwrap();
    assert_eq!(r.level, ConstraintLevel::Error);
    let msgs: Vec<&str> = r.outputs.iter().map(|o| o.message.as_str()).collect();
    assert_eq!(
        msgs,
        vec![
            "rue only supports the \"SRS+\" kick table.",
            "rue does not properly support royale mode.",
            "rue does not support non-instant garbage entry.",
        ]
    );
    // with no options stated, all but three of the option checks fail
    let none = h.check_room_update(&RoomUpdate { options: None, game_mode: GameMode::Versus }).unwrap();
    assert_eq!(none.outputs.len(), 16);
}

#[test]
fn white_space_matches_std() {
    for u in 0u32..0x3100 {
        if let Some(c) = char::from_u32(u) {
            let text = format!("a{c}b");
            let mut args = Arguments::new(&text);
            let first = args.next_word().map(|w| w.to_string());
            if c.is_whitespace() {
                assert_eq!(first.as_deref(), Some("a"), "U+{u:04X}");
            } else {
                assert_eq!(first, Some(text.clone()), "U+{u:04X}");
            }
        }
    }
}

#[test]
fn small_bot_decisions() {
    use_decisions();
}

fn use_decisions() {
    assert!(rue::client::control::ignores_chat(true, true, false));
    assert!(rue::client::control::ignores_chat(false, false, false));
    assert!(rue::client::control::ignores_chat(false, true, true));
    assert!(!rue::client::control::ignores_chat(false, true, false));
    assert!(rue::client::control::only_bots(&[true, true]));
    assert!(!rue::client::control::only_bots(&[true, false]));
    assert!(rue::client::control::only_bots(&[]));
    let g = rue::client::control::GameState { last_piece_frame: 0, target_frame: 10 };
    assert!(!rue::client::control::acts_on_tick(9, Some(g), false));
    assert!(rue::client::control::acts_on_tick(10, Some(g), false));
    assert!(!rue::client::control::acts_on_tick(10, Some(g), true));
    assert!(!rue::client::control::acts_on_tick(10, None, false));
    assert!(rue::client::control::plays_round(BagKind::Bag7));
    assert!(!rue::client::control::plays_round(BagKind::Other));
    let s = rue::client::control::State::initial();
    assert_eq!(s.enabled, EnabledState { value: false, attempt: true, force: false });
    assert!(s.game.is_none());
    assert_eq!(s.restriction, Restriction::Unrestricted);
}

#[test]
fn optional_arguments_consume_only_what_they_read() {
    let mut a = Arguments::new("  on 12 rest");
    assert_eq!(a.optional_bool(), Some(true));
    assert_eq!(a.optional_bool(), None);
    assert_eq!(a.optional_i64(), Some(12));
    assert_eq!(a.optional_u64(), None);
    assert_eq!(a.rest(), "rest");
    let mut b = Arguments::new("-3");
    assert_eq!(b.optional_u64(), None);
    assert_eq!(b.optional_i64(), Some(-3));
    assert_eq!(b.optional_i64(), None);
}

#[test]
fn registry_keys_are_lower_case() {
    let r = bot_registry();
    assert_eq!(r.find_key("ev").map(|m| m.name), Some("eval"));
    assert!(r.find_key("Ev").is_none());
    assert_eq!(r.find("EV").map(|m| m.name), Some("eval"));
}
