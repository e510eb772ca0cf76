use rue::client::commands::{Call, Commands, DefineParams, Parameter, User};
use rue::client::control::{Category, Restriction};

fn params(description: &str, category: Category) -> DefineParams {
    DefineParams { description: description.to_string(), parameters: Vec::new(), category }
}

fn book() -> Commands {
    let mut c = Commands::new(
        vec![Restriction::Unrestricted, Restriction::Player, Restriction::Host, Restriction::Dev],
        vec![Category::Info, Category::Controls, Category::Info, Category::Solver],
        "!",
        "> ",
        "rue",
    );
    c.define(&["ping"], params("health check", Category::Info), false);
    let help = DefineParams {
        description: "lists commands".to_string(),
        parameters: vec![Parameter {
            name: "name".to_string(),
            kind: "string".to_string(),
            description: "a command".to_string(),
            optional: true,
        }],
        category: Category::Info,
    };
    c.define(&["help", "h"], help, false);
    c.define(&["kill", "k"], params("stops the bot", Category::Controls), true);
    c
}

fn user(level: Restriction) -> User {
    User { id: "u1".to_string(), name: "someone".to_string(), level }
}

#[test]
fn book_lists_names_and_info() {
    let c = book();
    assert_eq!(
        c.commands(),
        vec![vec!["ping".to_string()], vec!["help".to_string(), "h".to_string()], vec!["kill".to_string(), "k".to_string()]]
    );
    let info = c.info("h").unwrap();
    assert_eq!(info.command, "help");
    assert_eq!(info.alts, vec!["h".to_string()]);
    assert_eq!(info.description, "lists commands");
    assert_eq!(info.parameters.len(), 1);
    assert_eq!(info.parameters[0].kind, "string");
    assert!(info.parameters[0].optional);
    assert!(c.info("HELP").is_none());
    assert!(c.info("nothing").is_none());
}

#[test]
fn book_groups_by_category() {
    let c = book();
    let groups = c.get_commands_by_category();
    assert_eq!(groups.len(), 2);
    assert_eq!(groups[0].0, Category::Info);
    let names: Vec<&str> = groups[0].1.iter().map(|i| i.command.as_str()).collect();
    assert_eq!(names, vec!["ping", "help"]);
    assert_eq!(groups[1].0, Category::Controls);
    assert_eq!(groups[1].1[0].command, "kill");
}

#[test]
fn messages_become_calls() {
    let c = book();
    let calls = c.prepare_calls(user(Restriction::Player), "!HELP  a b ", Restriction::Unrestricted);
    assert_eq!(calls.len(), 1);
    match &calls[0] {
        Call::Run { index, input } => {
            assert_eq!(*index, 1);
            assert_eq!(input.args, vec!["a".to_string(), "b".to_string()]);
            assert_eq!(input.reply_prefix, "> ");
            assert_eq!(input.user.name, "someone");
        },
        other => panic!("unexpected {other:?}"),
    }
    assert!(c.prepare_calls(user(Restriction::Player), "hello", Restriction::Unrestricted).is_empty());
    assert!(c.prepare_calls(user(Restriction::Player), "!", Restriction::Unrestricted).is_empty());
    assert!(c.prepare_calls(user(Restriction::Player), "! help", Restriction::Unrestricted).is_empty());
    let unknown = c.prepare_calls(user(Restriction::Player), "!nothing", Restriction::Unrestricted);
    assert_eq!(unknown.len(), 1);
    assert!(matches!(&unknown[0], Call::Send(t) if t == "Unknown command.\nRun !help for a list of valid commands."));
}

#[test]
fn restricted_commands_need_the_level() {
    let c = book();
    let refused = c.prepare_calls(user(Restriction::Player), "!k", Restriction::Host);
    assert_eq!(refused.len(), 1);
    assert!(matches!(&refused[0], Call::Send(t) if t == "> rue's commands are currently restricted."));
    let allowed = c.prepare_calls(user(Restriction::Host), "!k", Restriction::Host);
    assert!(matches!(&allowed[0], Call::Run { index: 2, .. }));
    // an unrestricted command runs whatever the level
    let ping = c.prepare_calls(user(Restriction::Unrestricted), "!ping", Restriction::Dev);
    assert!(matches!(&ping[0], Call::Run { index: 0, .. }));
}

#[test]
fn every_command_answering_runs() {
    let mut c = book();
    c.define(&["pong", "P"], params("another", Category::Info), false);
    c.define(&["ping"], params("again", Category::Info), false);
    let calls = c.prepare_calls(user(Restriction::Player), "!ping", Restriction::Unrestricted);
    assert_eq!(calls.len(), 2);
    assert!(matches!(&calls[0], Call::Run { index: 0, .. }));
    assert!(matches!(&calls[1], Call::Run { index: 4, .. }));
    let p = c.prepare_calls(user(Restriction::Player), "!p x", Restriction::Unrestricted);
    assert!(matches!(&p[0], Call::Run { index: 3, .. }));
}

#[test]
fn calls_for_a_lowered_word() {
    let c = book();
    let calls = c.calls_for(user(Restriction::Player), "h", "x  y", Restriction::Unrestricted);
    match &calls[0] {
        Call::Run { index, input } => {
            assert_eq!(*index, 1);
            assert_eq!(input.args, vec!["x".to_string(), "y".to_string()]);
        },
        other => panic!("unexpected {other:?}"),
    }
    let none = c.calls_for(user(Restriction::Player), "zz", "", Restriction::Unrestricted);
    assert!(matches!(&none[0], Call::Send(t) if t == "Unknown command.\nRun !help for a list of valid commands."));
}
