use std::collections::{HashMap, HashSet};

use voxygen::client::{Client, PlayerInfo};
use voxygen::command::{AdminRole, ArgumentSpec, ClientChatCommand, Requirement};
use voxygen::handlers::unmute_found;
use voxygen::preprocess::preproccess_command;
use voxygen::run::{invalid_command_message, run_client_command, run_command};
use voxygen::server::{ChatCommandKind, ServerChatCommand};
use voxygen::state::GlobalState;
use voxygen::target::{ClientEntityTarget, EntityContext, PlayerEntity, Volume};

fn strings(words: &[&str]) -> Vec<String> {
    words.iter().map(|w| w.to_string()).collect()
}

fn command(
    keyword: &str,
    short: Option<&str>,
    role: Option<AdminRole>,
    args: Vec<ArgumentSpec>,
) -> ServerChatCommand {
    ServerChatCommand {
        keyword: keyword.to_string(),
        short_keyword: short.map(|s| s.to_string()),
        args,
        help: format!("/{}: help", keyword),
        needs_role: role,
    }
}

fn player(uid: u64, alias: &str, uuid: u128) -> PlayerInfo {
    PlayerInfo { uid, player_alias: alias.to_string(), uuid }
}

fn client() -> Client {
    let entity = ArgumentSpec::EntityTarget;
    let required = Requirement::Required;
    let optional = Requirement::Optional;
    Client {
        uid: Some(3),
        role: None,
        player_list: vec![player(3, "zesterer", 33), player(5, "zebra", 55)],
        sites: vec![],
        uids: vec![],
        commands: vec![
            command("ban", None, Some(AdminRole::Moderator), vec![]),
            command("body", None, None, vec![
                ArgumentSpec::AssetPath(
                    "path".to_string(),
                    "common.body".to_string(),
                    vec![],
                    required,
                ),
            ]),
            command("region", Some("r"), None, vec![ArgumentSpec::Message(optional)]),
            command("say", Some("s"), None, vec![ArgumentSpec::Message(optional)]),
            command("sudo", None, Some(AdminRole::Admin), vec![
                entity(required),
                ArgumentSpec::SubCommand,
            ]),
            command("tp", None, None, vec![
                ArgumentSpec::Flag("--all".to_string()),
                entity(optional),
                entity(required),
            ]),
        ],
        shaders: strings(&["Brickloom", "Rainbows"]),
    }
}

fn context() -> EntityContext {
    EntityContext {
        target: Some(10),
        selected: None,
        viewpoint: Some(30),
        player: Some(PlayerEntity {
            uid: Some(3),
            mount: None,
            volume: Some(Volume::Entity(40)),
            rider: Some(18446744073709551615),
        }),
    }
}

fn state() -> GlobalState {
    GlobalState { mutelist: HashMap::new(), experimental_shaders: HashSet::new() }
}

fn prepare(cmd: &str, args: &[&str]) -> (Result<Option<String>, String>, Vec<String>) {
    let c = client();
    let kind = ChatCommandKind::from_str(&c.commands, cmd).unwrap();
    let mut args = strings(args);
    let result = preproccess_command(&context(), &c.commands, &c.shaders, &kind, &mut args);
    (result, args)
}

#[test]
fn entities_are_replaced_by_their_uids() {
    assert_eq!(prepare("sudo", &["@target"]), (Ok(None), strings(&["uid@10"])));
    assert_eq!(prepare("sudo", &["@viewpoint"]).1, strings(&["uid@30"]));
    assert_eq!(prepare("sudo", &["@mount"]).1, strings(&["uid@40"]));
    assert_eq!(prepare("sudo", &["@rider"]).1, strings(&["uid@18446744073709551615"]));
    assert_eq!(prepare("sudo", &["@self"]).1, strings(&["uid@3"]));
    assert_eq!(prepare("sudo", &["@@self"]).1, strings(&["uid@3"]));
    assert_eq!(prepare("sudo", &["zebra"]).1, strings(&["zebra"]));
    assert_eq!(prepare("sudo", &["uid@7"]).1, strings(&["uid@7"]));
}

#[test]
fn entities_stand_only_where_they_can() {
    // A message is no entity
    assert_eq!(prepare("say", &["@self"]), (Ok(None), strings(&["@self"])));
    // Optional specs are looked through up to the first that is required
    assert_eq!(prepare("tp", &["@self", "@target"]).1, strings(&["uid@3", "uid@10"]));
    assert_eq!(prepare("tp", &["x", "y", "@self", "@self"]).1, strings(&[
        "x", "y", "uid@3", "@self"
    ]));
    // The arguments of a command of the client
    assert_eq!(prepare("mute", &["@self"]).1, strings(&["@self"]));
}

#[test]
fn sub_commands_bring_their_own_specs() {
    assert_eq!(
        prepare("sudo", &["@self", "say", "@self"]),
        (Ok(None), strings(&["uid@3", "say", "@self"]))
    );
    assert_eq!(
        prepare("sudo", &["@self", "sudo", "@target", "tp", "@self"]).1,
        strings(&["uid@3", "sudo", "uid@10", "tp", "uid@3"])
    );
    // Short keywords and unknown ones do not count
    assert_eq!(
        prepare("sudo", &["@self", "s", "x", "@self"]).1,
        strings(&["uid@3", "s", "x", "uid@3"])
    );
}

#[test]
fn asset_paths_get_their_prefix() {
    assert_eq!(prepare("body", &["wolf", "wolf"]), (
        Ok(None),
        strings(&["common.body.wolf", "wolf"])
    ));
}

#[test]
fn missing_entities_stop_the_command() {
    let unknown = "Expected target/selected/viewpoint/mount/rider/self after '@' found me";
    assert_eq!(prepare("sudo", &["@me", "say"]), (
        Err(unknown.to_string()),
        strings(&["@me", "say"])
    ));
    assert_eq!(
        prepare("sudo", &["@selected"]).0,
        Err("You don't have a valid target selected".to_string())
    );
    let nothing = EntityContext { target: None, selected: None, viewpoint: None, player: None };
    let alone = EntityContext {
        player: Some(PlayerEntity { uid: None, mount: None, volume: Some(Volume::Terrain), rider: None }),
        ..nothing
    };
    let message = |c: &EntityContext, t| c.resolve(t).unwrap_err();
    assert_eq!(message(&nothing, ClientEntityTarget::Target), "Not looking at a valid target");
    assert_eq!(
        message(&nothing, ClientEntityTarget::Viewpoint),
        "Not viewing from a valid viewpoint entity"
    );
    assert_eq!(message(&nothing, ClientEntityTarget::Mount), "No player entity");
    assert_eq!(message(&nothing, ClientEntityTarget::Rider), "No player entity");
    assert_eq!(message(&nothing, ClientEntityTarget::TargetSelf), "No player entity");
    assert_eq!(message(&alone, ClientEntityTarget::Mount), "Not riding a valid entity");
    assert_eq!(message(&alone, ClientEntityTarget::Rider), "No valid rider");
    assert_eq!(message(&alone, ClientEntityTarget::TargetSelf), "No player entity");
    let riding = EntityContext {
        player: Some(PlayerEntity {
            uid: None,
            mount: Some(1),
            volume: Some(Volume::Entity(2)),
            rider: None,
        }),
        ..nothing
    };
    assert_eq!(riding.resolve(ClientEntityTarget::Mount), Ok(1));
}

#[test]
fn an_unknown_command_gets_suggestions() {
    assert_eq!(
        invalid_command_message(&client(), "sya"),
        "Could not find a command named sya. Did you mean any of the following? \n/say  \n\nType \
         /help to see a list of all commands."
    );
    // The first of the closest, and what begins with the name
    assert_eq!(
        invalid_command_message(&client(), ""),
        "Could not find a command named . Did you mean any of the following? \n/tp \n/body\n/region\
         \n/say\n/experimental_shader\n/help\n/mute\n/unmute \n\nType /help to see a list of all \
         commands."
    );
    // Commands that need a role are suggested to those who have it
    assert!(invalid_command_message(&client(), "bann").contains("\n/body "));
    let moderator = Client { role: Some(AdminRole::Moderator), ..client() };
    assert!(invalid_command_message(&moderator, "bann").contains("\n/ban "));
}

#[test]
fn help_for_one_command_and_for_all() {
    let c = client();
    let mut s = state();
    let mut help = |args: &[&str]| {
        run_client_command(&c, &mut s, ClientChatCommand::Help, &strings(args))
    };
    assert_eq!(help(&["ban"]), Ok("/ban: help".to_string()));
    assert_eq!(help(&["r", "ban"]), Ok("/region: help".to_string()));
    let all = "/experimental_shader [Shader]: Toggles an experimental shader.\n\
               /help [[/]command]: Display information about commands\n\
               /mute <player>: Mutes chat messages from a player.\n\
               /unmute <player>: Unmutes a player muted with the 'mute' command.\n\
               /body: help\n/region: help\n/say: help\n/tp: help\n\
               Additionally, you can use the following shortcuts: /r => /region /s => /say";
    assert_eq!(help(&[]), Ok(all.to_string()));
    assert_eq!(help(&["mute"]), Ok(all.to_string()));
}

#[test]
fn muting_and_unmuting() {
    let c = client();
    let mut s = state();
    let mut run = |command, args: &[&str]| {
        let result = run_client_command(&c, &mut s, command, &strings(args));
        (result, s.mutelist.clone())
    };
    let mute = ClientChatCommand::Mute;
    let unmute = ClientChatCommand::Unmute;
    let none = HashMap::new();
    let zebra = HashMap::from([(55u128, "zebra".to_string())]);
    assert_eq!(
        run(mute, &[]),
        (Err("You must specify a player to mute.".to_string()), none.clone())
    );
    assert_eq!(
        run(mute, &["nobody"]),
        (Err("Could not find a player named nobody".to_string()), none.clone())
    );
    assert_eq!(
        run(mute, &["zesterer"]),
        (Err("You cannot mute yourself.".to_string()), none.clone())
    );
    assert_eq!(
        run(mute, &["zebra"]),
        (Ok("Successfully muted player zebra.".to_string()), zebra.clone())
    );
    assert_eq!(
        run(mute, &["zebra"]),
        (Err("zebra is already muted.".to_string()), zebra.clone())
    );
    assert_eq!(
        run(unmute, &[]),
        (Err("You must specify a player to unmute.".to_string()), zebra.clone())
    );
    assert_eq!(
        run(unmute, &["zeb"]),
        (Err("Could not find a muted player named zeb.".to_string()), zebra.clone())
    );
    assert_eq!(
        run(unmute, &["zebra"]),
        (Ok("Successfully unmuted player zebra.".to_string()), none.clone())
    );
}

#[test]
fn a_second_mute_takes_the_new_alias() {
    let mut c = client();
    let mut s = state();
    let mute = ClientChatCommand::Mute;
    assert!(run_client_command(&c, &mut s, mute, &strings(&["zebra"])).is_ok());
    c.player_list[1].player_alias = "okapi".to_string();
    assert_eq!(
        run_client_command(&c, &mut s, mute, &strings(&["okapi"])),
        Err("okapi is already muted.".to_string())
    );
    assert_eq!(s.mutelist, HashMap::from([(55u128, "okapi".to_string())]));
}

#[test]
fn unmuting_needs_no_player_online_but_spares_oneself() {
    let c = client();
    let mut s = state();
    s.mutelist.insert(99, "gone".to_string());
    s.mutelist.insert(33, "me".to_string());
    let unmute = ClientChatCommand::Unmute;
    assert!(run_client_command(&c, &mut s, unmute, &strings(&["gone"])).is_ok());
    assert_eq!(
        run_client_command(&c, &mut s, unmute, &strings(&["me"])),
        Err("You cannot unmute yourself.".to_string())
    );
    assert_eq!(s.mutelist.len(), 1);
    assert_eq!(
        unmute_found(&c, &mut s, "x", None),
        Err("Could not find a muted player named x.".to_string())
    );
    assert_eq!(
        unmute_found(&c, &mut s, "x", Some(7)),
        Ok("Successfully unmuted player x.".to_string())
    );
}

#[test]
fn shaders_are_listed_and_switched() {
    let c = client();
    let mut s = state();
    let mut run = |args: &[&str]| {
        run_client_command(&c, &mut s, ClientChatCommand::ExperimentalShader, &strings(args))
    };
    assert_eq!(run(&[]), Ok("[  ] Brickloom\n[  ] Rainbows".to_string()));
    assert_eq!(run(&["Rainbows"]), Ok("Enabled Rainbows.".to_string()));
    assert_eq!(run(&[]), Ok("[  ] Brickloom\n[x] Rainbows".to_string()));
    assert_eq!(run(&["Rainbows"]), Ok("Disabled Rainbows.".to_string()));
    assert_eq!(run(&[]), Ok("[  ] Brickloom\n[  ] Rainbows".to_string()));
    assert_eq!(
        run(&["rainbows"]),
        Err(
            "rainbows is not an expermimental shader, use this command with any arguments to see a \
             complete list."
                .to_string()
        )
    );
    let bare = Client { shaders: vec![], ..client() };
    assert_eq!(
        run_client_command(&bare, &mut s, ClientChatCommand::ExperimentalShader, &vec![]),
        Err("There are no experimental shaders.".to_string())
    );
}

#[test]
fn commands_run_here_or_go_to_the_server() {
    let c = client();
    let mut s = state();
    let (result, request) =
        run_command(&context(), &c, &mut s, "r", strings(&["@self"]));
    assert_eq!(result, Ok(None));
    let request = request.unwrap();
    assert_eq!(request.keyword, "region");
    assert_eq!(request.args, strings(&["@self"]));

    let (result, request) =
        run_command(&context(), &c, &mut s, "tp", strings(&["@self", "@target"]));
    assert_eq!(result, Ok(None));
    assert_eq!(request.unwrap().args, strings(&["uid@3", "uid@10"]));

    let (result, request) = run_command(&context(), &c, &mut s, "tp", strings(&["@selected"]));
    assert_eq!(result, Err("You don't have a valid target selected".to_string()));
    assert!(request.is_none());

    let (result, request) = run_command(&context(), &c, &mut s, "mute", strings(&["zebra"]));
    assert_eq!(result, Ok(Some("Successfully muted player zebra.".to_string())));
    assert!(request.is_none());

    let (result, request) = run_command(&context(), &c, &mut s, "mute", strings(&["zebra"]));
    assert_eq!(result, Err("zebra is already muted.".to_string()));
    assert!(request.is_none());

    let (result, request) = run_command(&context(), &c, &mut s, "sya", vec![]);
    assert_eq!(result, Err(invalid_command_message(&c, "sya")));
    assert!(request.is_none());
}

#[test]
fn commands_leave_the_state_of_others() {
    let c = client();
    let mut s = state();
    s.mutelist.insert(99, "gone".to_string());
    s.experimental_shaders.insert(0);
    let mut run = |command, args: &[&str]| {
        let _ = run_client_command(&c, &mut s, command, &strings(args));
        (s.mutelist.len(), s.experimental_shaders.len())
    };
    assert_eq!(run(ClientChatCommand::Help, &[]), (1, 1));
    assert_eq!(run(ClientChatCommand::Mute, &["zebra"]), (2, 1));
    assert_eq!(run(ClientChatCommand::Unmute, &["zebra"]), (1, 1));
    assert_eq!(run(ClientChatCommand::ExperimentalShader, &["Rainbows"]), (1, 2));
    assert_eq!(run(ClientChatCommand::ExperimentalShader, &["Rainbows"]), (1, 1));
    assert_eq!(s.mutelist.get(&99).map(|a| a.as_str()), Some("gone"));
    assert!(s.experimental_shaders.contains(&0));
}

#[test]
fn a_sub_command_behind_optional_arguments() {
    let mut c = client();
    c.commands.push(command("as", None, None, vec![
        ArgumentSpec::EntityTarget(Requirement::Optional),
        ArgumentSpec::SubCommand,
    ]));
    let mut s = state();
    let mut run = |args: &[&str]| {
        let (result, request) = run_command(&context(), &c, &mut s, "as", strings(args));
        assert_eq!(result, Ok(None));
        request.unwrap().args
    };
    assert_eq!(run(&["@self", "tp", "@self"]), strings(&["uid@3", "tp", "uid@3"]));
    // The argument next to the command that takes the place of an optional one is not its own
    assert_eq!(run(&["tp", "@self", "@self"]), strings(&["tp", "@self", "uid@3"]));
    // Behind a name that no command has, an entity can stand past the last spec
    assert_eq!(run(&["nothing", "@self", "@self", "@self"]), strings(&[
        "nothing", "@self", "@self", "uid@3"
    ]));
}

#[test]
fn suggestions_go_by_the_role_alone() {
    let known: Vec<String> = client().commands.into_iter().map(|c| c.keyword).collect();
    let other = Client {
        uid: None,
        player_list: vec![],
        sites: vec![],
        uids: vec![1, 2],
        shaders: vec![],
        ..client()
    };
    for name in ["", "b", "sud", "sudoo", "bann", "unmut"] {
        let message = invalid_command_message(&client(), name);
        assert_eq!(invalid_command_message(&other, name), message);
        assert!(!message.contains("\n/ban") && !message.contains("\n/sudo"), "{}", message);
    }
    let admin = Client { role: Some(AdminRole::Admin), ..client() };
    let message = invalid_command_message(&admin, "");
    for keyword in known {
        assert!(message.contains(&format!("\n/{}", keyword)), "{}", keyword);
    }
    assert!(invalid_command_message(&admin, "sudoo").contains("\n/sudo "));
}

#[test]
fn a_player_who_went_offline_is_unmuted() {
    let mut s = state();
    let args = strings(&["zebra"]);
    assert!(run_client_command(&client(), &mut s, ClientChatCommand::Mute, &args).is_ok());
    let mut later = client();
    later.player_list.retain(|p| p.player_alias != "zebra");
    assert_eq!(
        run_client_command(&later, &mut s, ClientChatCommand::Unmute, &args),
        Ok("Successfully unmuted player zebra.".to_string())
    );
    assert!(s.mutelist.is_empty());
}
