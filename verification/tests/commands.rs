use voxygen::command::{AdminRole, ArgumentSpec, ChatCommandData, ClientChatCommand, Requirement};
use voxygen::server::{ChatCommandKind, ServerChatCommand};

fn command(keyword: &str, short: Option<&str>, role: Option<AdminRole>) -> ServerChatCommand {
    ServerChatCommand {
        keyword: keyword.to_string(),
        short_keyword: short.map(|s| s.to_string()),
        args: vec![],
        help: format!("/{}: does it", keyword),
        needs_role: role,
    }
}

#[test]
fn verify_cmd_list_sorted() {
    let mut list = ClientChatCommand::iter()
        .into_iter()
        .map(|c| c.keyword())
        .collect::<Vec<_>>();

    // Vec::is_sorted is unstable, so we do it the hard way
    let list2 = list.clone();
    list.sort_unstable();
    assert_eq!(list, list2);
}

#[test]
fn keywords_of_the_client() {
    let pairs = ClientChatCommand::iter_with_keywords();
    assert_eq!(pairs, vec![
        ("experimental_shader", ClientChatCommand::ExperimentalShader),
        ("help", ClientChatCommand::Help),
        ("mute", ClientChatCommand::Mute),
        ("unmute", ClientChatCommand::Unmute),
    ]);
    for (keyword, c) in pairs {
        assert_eq!(ClientChatCommand::from_str(keyword), Ok(c));
    }
    assert_eq!(ClientChatCommand::from_str("mut"), Err(()));
    assert_eq!(ClientChatCommand::from_str(""), Err(()));
    assert_eq!(ClientChatCommand::from_str("Mute"), Err(()));
}

#[test]
fn data_of_the_client_commands() {
    let shaders = vec!["Brickloom".to_string(), "Rainbows".to_string()];
    let data = ClientChatCommand::ExperimentalShader.data(&shaders);
    assert_eq!(data.description, "Toggles an experimental shader.");
    assert_eq!(data.needs_role, None);
    assert_eq!(data.args.len(), 1);
    match &data.args[0] {
        ArgumentSpec::Enum(label, values, Requirement::Optional) => {
            assert_eq!(label, "Shader");
            assert_eq!(values, &shaders);
        },
        other => panic!("{:?}", other),
    }
    assert!(matches!(
        ClientChatCommand::Help.data(&shaders).args[0],
        ArgumentSpec::Command(Requirement::Optional)
    ));
    assert!(matches!(
        ClientChatCommand::Mute.data(&shaders).args[0],
        ArgumentSpec::PlayerName(Requirement::Required)
    ));
    assert!(matches!(
        ClientChatCommand::Unmute.data(&shaders).args[0],
        ArgumentSpec::PlayerName(Requirement::Required)
    ));
}

#[test]
fn new_data_holds_what_it_is_given() {
    let data = ChatCommandData::new(
        vec![ArgumentSpec::SubCommand],
        "Runs a command.",
        Some(AdminRole::Moderator),
    );
    assert!(matches!(data.args[0], ArgumentSpec::SubCommand));
    assert_eq!(data.description, "Runs a command.");
    assert_eq!(data.needs_role, Some(AdminRole::Moderator));
}

#[test]
fn help_strings_of_the_client_commands() {
    assert_eq!(
        ClientChatCommand::ExperimentalShader.help_string(),
        "/experimental_shader [Shader]: Toggles an experimental shader."
    );
    assert_eq!(
        ClientChatCommand::Help.help_string(),
        "/help [[/]command]: Display information about commands"
    );
    assert_eq!(
        ClientChatCommand::Mute.help_string(),
        "/mute <player>: Mutes chat messages from a player."
    );
    assert_eq!(
        ClientChatCommand::Unmute.help_string(),
        "/unmute <player>: Unmutes a player muted with the 'mute' command."
    );
}

#[test]
fn argument_formats_of_the_client_commands() {
    for c in ClientChatCommand::iter() {
        assert_eq!(c.arg_fmt(), "{}");
    }
}

#[test]
fn usage_and_requirement_of_arguments() {
    let label = || "label".to_string();
    let required = Requirement::Required;
    let optional = Requirement::Optional;
    assert_eq!(ArgumentSpec::SiteName(required).usage_string(), "<site>");
    assert_eq!(ArgumentSpec::EntityTarget(optional).usage_string(), "[entity]");
    assert_eq!(ArgumentSpec::Float(label(), "0.5".to_string(), required).usage_string(), "<label>");
    assert_eq!(ArgumentSpec::Integer(label(), 7, optional).usage_string(), "[label]");
    assert_eq!(ArgumentSpec::Message(optional).usage_string(), "[message]");
    assert_eq!(ArgumentSpec::SubCommand.usage_string(), "<[/]command> [args...]");
    assert_eq!(ArgumentSpec::Flag("--quiet".to_string()).usage_string(), "[--quiet]");
    assert_eq!(ArgumentSpec::SubCommand.requirement(), required);
    assert_eq!(ArgumentSpec::Flag(label()).requirement(), optional);
    assert_eq!(ArgumentSpec::Any(label(), optional).requirement(), optional);
    assert_eq!(
        ArgumentSpec::AssetPath(label(), label(), vec![], required).requirement(),
        required
    );
}

#[test]
fn server_commands_are_found_by_both_keywords() {
    let table = vec![
        command("tell", Some("t"), None),
        command("t", None, None),
        command("region", Some("r"), None),
    ];
    assert_eq!(ServerChatCommand::from_str(&table, "tell"), Some(0));
    // A short keyword wins
    assert_eq!(ServerChatCommand::from_str(&table, "t"), Some(0));
    assert_eq!(ServerChatCommand::with_keyword(&table, "t"), Some(1));
    assert_eq!(ServerChatCommand::from_str(&table, "r"), Some(2));
    assert_eq!(ServerChatCommand::with_keyword(&table, "r"), None);
    assert_eq!(ServerChatCommand::from_str(&table, "regio"), None);
    assert_eq!(ServerChatCommand::names(&table), vec!["t", "r", "tell", "t", "region"]);
}

#[test]
fn roles_decide_which_commands_are_usable() {
    let table = vec![
        command("ban", None, Some(AdminRole::Moderator)),
        command("tell", None, None),
        command("adminify", None, Some(AdminRole::Admin)),
    ];
    let names = |role| {
        ServerChatCommand::usable(&table, role)
            .into_iter()
            .map(|c| c.keyword.clone())
            .collect::<Vec<_>>()
    };
    assert_eq!(names(None), vec!["tell"]);
    assert_eq!(names(Some(AdminRole::Moderator)), vec!["ban", "tell"]);
    assert_eq!(names(Some(AdminRole::Admin)), vec!["ban", "tell", "adminify"]);
}

#[test]
fn client_commands_win_over_server_commands() {
    let table = vec![command("mute", None, None), command("tell", Some("help"), None)];
    assert!(matches!(
        ChatCommandKind::from_str(&table, "mute"),
        Ok(ChatCommandKind::Client(ClientChatCommand::Mute))
    ));
    assert!(matches!(
        ChatCommandKind::from_str(&table, "help"),
        Ok(ChatCommandKind::Client(ClientChatCommand::Help))
    ));
    match ChatCommandKind::from_str(&table, "tell") {
        Ok(ChatCommandKind::Server(c)) => assert_eq!(c.keyword, "tell"),
        other => panic!("{:?}", other),
    }
    assert!(ChatCommandKind::from_str(&table, "tel").is_err());
}
