use voxygen::client::{get_player_uuid, Client, PlayerInfo, Site, SiteKind};
use voxygen::command::{ArgumentSpec, Requirement};
use voxygen::complete::{complete, complete_command, complete_player, complete_site};
use voxygen::server::ServerChatCommand;
use voxygen::word::{from_nth_word, nth_word};

fn strings(words: &[&str]) -> Vec<String> {
    words.iter().map(|w| w.to_string()).collect()
}

fn command(keyword: &str, short: Option<&str>, args: Vec<ArgumentSpec>) -> ServerChatCommand {
    ServerChatCommand {
        keyword: keyword.to_string(),
        short_keyword: short.map(|s| s.to_string()),
        args,
        help: String::new(),
        needs_role: None,
    }
}

fn table() -> Vec<ServerChatCommand> {
    vec![
        command("ban", None, vec![ArgumentSpec::PlayerName(Requirement::Required)]),
        command("kit", None, vec![ArgumentSpec::Enum(
            "kit_name".to_string(),
            strings(&["all", "archer", "debug"]),
            Requirement::Required,
        )]),
        command("make_block", None, vec![]),
        command("make_npc", None, vec![]),
        command("make_sprite", None, vec![]),
        command("make_volume", None, vec![]),
        command("motd", None, vec![]),
        command("region", Some("r"), vec![ArgumentSpec::Message(Requirement::Optional)]),
        command("sudo", None, vec![
            ArgumentSpec::EntityTarget(Requirement::Required),
            ArgumentSpec::SubCommand,
        ]),
        command("unban", None, vec![ArgumentSpec::PlayerName(Requirement::Required)]),
    ]
}

fn player(uid: u64, alias: &str, uuid: u128) -> PlayerInfo {
    PlayerInfo { uid, player_alias: alias.to_string(), uuid }
}

fn site(kind: SiteKind, name: Option<&str>) -> Site {
    Site { kind, name: name.map(|n| n.to_string()) }
}

fn client() -> Client {
    Client {
        uid: Some(3),
        role: None,
        player_list: vec![player(3, "zesterer", 33), player(5, "zebra", 55), player(8, "imbris", 88)],
        sites: vec![
            site(SiteKind::Other, Some("Old Town")),
            site(SiteKind::Cave, Some("Oldcave")),
            site(SiteKind::Other, None),
            site(SiteKind::Other, Some("Oldham")),
        ],
        uids: vec![3, 12, 5],
        commands: table(),
        shaders: strings(&["Brickloom", "Rainbows", "Wireframe"]),
    }
}

#[test]
fn test_complete_command() {
    let commands = table();
    assert_eq!(complete_command(&commands, "mu", '/'), vec!["/mute".to_string()]);
    assert_eq!(complete_command(&commands, "unba", '/'), vec!["/unban".to_string()]);
    assert_eq!(complete_command(&commands, "make_", '/'), vec![
        "/make_block".to_string(),
        "/make_npc".to_string(),
        "/make_sprite".to_string(),
        "/make_volume".to_string()
    ]);
}

#[test]
fn short_keywords_come_first() {
    assert_eq!(complete_command(&table(), "r", ' '), vec![" r", " region"]);
    assert_eq!(complete_command(&table(), "un", '/'), vec!["/unban", "/unmute"]);
}

#[test]
fn players_by_their_start() {
    assert_eq!(complete_player("ze", &client()), vec!["zesterer", "zebra"]);
    assert_eq!(complete_player("", &client()).len(), 3);
    assert!(complete_player("Z", &client()).is_empty());
}

#[test]
fn uuid_of_a_player() {
    assert_eq!(get_player_uuid(&client(), &"zebra".to_string()), Some(55));
    assert_eq!(get_player_uuid(&client(), &"zeb".to_string()), None);
}

#[test]
fn sites_without_caves_and_in_quotes() {
    assert_eq!(complete_site("Old", &client()), vec!["\"Old Town\"", "Oldham"]);
    assert_eq!(complete_site("\"Old T", &client()), vec!["\"Old Town\""]);
    assert!(complete_site("\"\"", &client()).is_empty());
}

#[test]
fn entity_targets() {
    let spec = ArgumentSpec::EntityTarget(Requirement::Required);
    assert_eq!(spec.complete("@", &client()), vec![
        "@target", "@selected", "@viewpoint", "@mount", "@rider", "@self"
    ]);
    assert_eq!(spec.complete("@se", &client()), vec!["@selected", "@self"]);
    assert_eq!(spec.complete("uid@", &client()), vec!["uid@3", "uid@12", "uid@5"]);
    assert_eq!(spec.complete("uid@3", &client()), vec!["uid@12", "uid@5"]);
    assert_eq!(spec.complete("uid@+3", &client()), vec!["uid@12", "uid@5"]);
    assert!(spec.complete("uid@x", &client()).is_empty());
    assert!(spec.complete("uid@18446744073709551616", &client()).is_empty());
    assert!(spec.complete("id@3", &client()).is_empty());
    assert_eq!(spec.complete("im", &client()), vec!["imbris"]);
}

#[test]
fn plain_arguments() {
    let label = || "label".to_string();
    let required = Requirement::Required;
    let c = client();
    assert_eq!(ArgumentSpec::PlayerName(required).complete("im", &c), vec!["imbris"]);
    assert_eq!(ArgumentSpec::Message(required).complete("im", &c), vec!["imbris"]);
    assert_eq!(ArgumentSpec::SiteName(required).complete("Oldh", &c), vec!["Oldham"]);
    let float = ArgumentSpec::Float(label(), "0.5".to_string(), required);
    assert_eq!(float.complete("", &c), vec!["0.5"]);
    assert!(float.complete("0", &c).is_empty());
    assert_eq!(ArgumentSpec::Integer(label(), -120, required).complete("", &c), vec!["-120"]);
    assert_eq!(ArgumentSpec::Integer(label(), 0, required).complete("", &c), vec!["0"]);
    assert_eq!(
        ArgumentSpec::Integer(label(), i32::MIN, required).complete("", &c),
        vec!["-2147483648"]
    );
    assert!(ArgumentSpec::Integer(label(), 7, required).complete("7", &c).is_empty());
    assert!(ArgumentSpec::Any(label(), required).complete("", &c).is_empty());
    assert_eq!(ArgumentSpec::Command(required).complete("unm", &c), vec![" unmute"]);
    assert_eq!(ArgumentSpec::SubCommand.complete("ki", &c), vec![" kit"]);
    let kinds = ArgumentSpec::Enum(label(), strings(&["red", "green", "rose"]), required);
    assert_eq!(kinds.complete("r", &c), vec!["red", "rose"]);
    assert_eq!(ArgumentSpec::Flag("--all".to_string()).complete("x", &c), vec!["--all"]);
}

#[test]
fn a_boolean_goes_by_its_default() {
    let spec = |x: &str| ArgumentSpec::Boolean("label".to_string(), x.to_string(), Requirement::Optional);
    assert_eq!(spec("true").complete("f", &client()), vec!["true"]);
    assert_eq!(spec("").complete("f", &client()), vec!["true", "false"]);
}

#[test]
fn asset_paths_by_their_depth() {
    let spec = ArgumentSpec::AssetPath(
        "path".to_string(),
        "common.items".to_string(),
        strings(&[
            "common.items.armor.cloth.belt",
            "common.items.armor.cloth.chest",
            "common.items.armor.iron.belt",
            "common.itemsets.none",
            "common.items.food.apple",
            "common.items.armor.late",
        ]),
        Requirement::Required,
    );
    assert_eq!(spec.complete("a", &client()), vec!["armor", "armor"]);
    assert_eq!(spec.complete("", &client()), vec!["armor", "food", "armor"]);
    assert_eq!(spec.complete("armor.", &client()), vec!["armor.cloth", "armor.iron", "armor.late"]);
    assert_eq!(spec.complete("armor.cloth.c", &client()), vec!["armor.cloth.chest"]);
    assert_eq!(spec.complete("food.apple.core", &client()), Vec::<String>::new());
}

#[test]
fn lines() {
    let c = client();
    // Not a command
    assert_eq!(complete("hello ze", &c, '/'), vec!["zesterer", "zebra"]);
    assert_eq!(complete("", &c, '/').len(), 3);
    assert_eq!(complete("ze ", &c, '/').len(), 3);
    // The name of a command
    assert_eq!(complete("/mu", &c, '/'), vec!["/mute"]);
    assert_eq!(complete("/", &c, '/').len(), 15);
    assert_eq!(complete("?mo", &c, '?'), vec!["?motd"]);
    // Arguments
    assert_eq!(complete("/ban im", &c, '/'), vec!["imbris"]);
    assert_eq!(complete("/ban ", &c, '/').len(), 3);
    assert!(complete("/ban imbris ", &c, '/').is_empty());
    assert_eq!(complete("/kit a", &c, '/'), vec!["all", "archer"]);
    assert_eq!(complete("/experimental_shader R", &c, '/'), vec!["Rainbows"]);
    assert_eq!(complete("/help unm", &c, '/'), vec![" unmute"]);
    // Past the last argument
    assert_eq!(complete("/r hello there im", &c, '/'), vec!["imbris"]);
    assert!(complete("/motd im", &c, '/').is_empty());
    // An unknown command
    assert_eq!(complete("/nothing im", &c, '/'), vec!["imbris"]);
}

#[test]
fn lines_with_a_sub_command() {
    let c = client();
    assert_eq!(complete("/sudo @se", &c, '/'), vec!["@selected", "@self"]);
    assert_eq!(complete("/sudo @self ki", &c, '/'), vec![" kit"]);
    assert_eq!(complete("/sudo @self /kit a", &c, '/'), vec!["all", "archer"]);
    assert_eq!(complete("/sudo  \u{e9}t\u{e9}  /kit de", &c, '/'), vec!["debug"]);
    // Without its prefix the sub-command is not taken for one
    assert!(complete("/sudo @self kit a", &c, '/').is_empty());
    assert_eq!(complete("/sudo a /sudo b /unban im", &c, '/'), vec!["imbris"]);
}

#[test]
fn nth_words() {
    assert_eq!(nth_word("sudo p /mute", 0), Some(0));
    assert_eq!(nth_word("sudo p /mute", 1), Some(5));
    assert_eq!(nth_word("sudo p /mute", 2), Some(7));
    assert_eq!(nth_word("sudo p /mute", 3), None);
    assert_eq!(nth_word("sudo ", 1), None);
    assert_eq!(nth_word("", 0), None);
    assert_eq!(nth_word("  a", 1), Some(2));
    // Counted in bytes
    assert_eq!(nth_word("\u{e9}\u{20ac}\u{1f600} x", 1), Some(10));
    assert_eq!(from_nth_word("\u{e9}\u{3000}x y", 1), Some("x y"));
    assert_eq!(from_nth_word("x", 1), None);
}
