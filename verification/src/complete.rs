use vstd::prelude::*;

use crate::client::{Client, ClientView, Site, SiteKind, SiteView};
use crate::command;
use crate::command::{ArgumentSpec, ArgumentView, ClientChatCommand};
use crate::foreign;
use crate::number;
use crate::preprocess;
use crate::server;
use crate::server::{ServerChatCommand, ServerView};
use crate::target;
use crate::target::{ClientEntityTarget, PREFIX};
use crate::text;
use crate::word;

verus! {

/// The aliases that begin with `part`.
pub open spec fn player_completions(client: ClientView, part: Seq<char>) -> Seq<Seq<char>> {
    text::with_prefix(client.aliases(), part)
}

/// Completes the alias of a player.
#[verifier::loop_isolation(false)]
pub fn complete_player(part: &str, client: &Client) -> (completions: Vec<String>)
    ensures
        completions.deep_view() == player_completions(client.deep_view(), part@),
{
    let mut aliases: Vec<String> = Vec::new();
    for i in 0..client.player_list.len()
        invariant
            aliases@.len() == i,
            forall|j: int|
                0 <= j < i ==> (#[trigger] aliases@[j])@ == client.player_list@[j].player_alias@,
    {
        aliases.push(client.player_list[i].player_alias.clone());
    }
    assert(aliases.deep_view() =~= client.deep_view().aliases());
    text::keep_with_prefix(&aliases, part)
}

/// The names of the sites other than caves.
pub open spec fn site_names(sites: Seq<SiteView>) -> Seq<Seq<char>> {
    sites.filter(|site: SiteView| site.kind != SiteKind::Cave && site.name is Some).map_values(
        |site: SiteView| site.name->0,
    )
}

/// A name as it is written in a command: in quotation marks where it holds a space.
pub open spec fn quoted(name: Seq<char>) -> Seq<char> {
    if name.contains(' ') {
        "\""@ + name + "\""@
    } else {
        name
    }
}

/// `part` without the quotation mark at its start.
pub open spec fn unquoted(part: Seq<char>) -> Seq<char> {
    if part.len() > 0 && part[0] == '"' {
        part.drop_first()
    } else {
        part
    }
}

/// The names of sites that begin with `part`, as they are written in a command.
pub open spec fn site_completions(client: ClientView, part: Seq<char>) -> Seq<Seq<char>> {
    text::with_prefix(site_names(client.sites), unquoted(part)).map_values(
        |name: Seq<char>| quoted(name),
    )
}

#[verifier::loop_isolation(false)]
fn names_of_sites(sites: &Vec<Site>) -> (names: Vec<String>)
    ensures
        names.deep_view() == site_names(sites.deep_view()),
{
    let mut names: Vec<String> = Vec::new();
    let ghost all = sites.deep_view();
    let ghost named = |site: SiteView| site.kind != SiteKind::Cave && site.name is Some;
    let ghost name_of = |site: SiteView| site.name->0;
    assert(names.deep_view() =~= all.take(0).filter(named).map_values(name_of)) by {
        reveal(Seq::filter);
    }
    for i in 0..sites.len()
        invariant
            names.deep_view() == all.take(i as int).filter(named).map_values(name_of),
    {
        let ghost before = names.deep_view();
        proof {
            reveal(Seq::filter);
            assert(all.take(i + 1).drop_last() =~= all.take(i as int));
            assert(all.take(i + 1).last() == sites@[i as int].deep_view());
        }
        match sites[i].kind {
            SiteKind::Cave => {},
            SiteKind::Other => {
                if let Some(name) = &sites[i].name {
                    names.push(name.clone());
                    assert(names.deep_view() =~= before.push(name@));
                    assert(names.deep_view() =~= all.take(i + 1).filter(named).map_values(
                        name_of,
                    ));
                }
            },
        }
    }
    assert(all.take(all.len() as int) =~= all);
    names
}

/// Completes the name of a site.
#[verifier::loop_isolation(false)]
pub fn complete_site(part: &str, client: &Client) -> (completions: Vec<String>)
    ensures
        completions.deep_view() == site_completions(client.deep_view(), part@),
{
    let x = text::chars_of(part);
    let from: usize = if x.len() > 0 && x[0] == '"' { 1 } else { 0 };
    let bare: String = text::string_of(&x, from, x.len());
    assert(bare@ =~= unquoted(part@));
    let names: Vec<String> = text::keep_with_prefix(
        &names_of_sites(&client.sites),
        bare.as_str(),
    );
    let mut completions: Vec<String> = Vec::new();
    for i in 0..names.len()
        invariant
            completions@.len() == i,
            forall|j: int| 0 <= j < i ==> (#[trigger] completions@[j])@ == quoted(names@[j]@),
    {
        if text::has_char(names[i].as_str(), ' ') {
            let mut s: String = "\"".to_owned();
            s.append(names[i].as_str());
            s.append("\"");
            completions.push(s);
        } else {
            completions.push(names[i].clone());
        }
    }
    assert(completions.deep_view() =~= site_completions(client.deep_view(), part@));
    completions
}

/// The names of commands that begin with `part`, each behind `prefix`: those of the server
/// first, with the short ones before the others.
pub open spec fn command_completions(
    commands: Seq<ServerView>,
    part: Seq<char>,
    prefix: char,
) -> Seq<Seq<char>> {
    text::prefixed(
        text::with_prefix(server::server_names(commands) + command::client_keywords(), part),
        seq![prefix],
    )
}

/// Completes the name of a command.
#[verifier::loop_isolation(false)]
pub fn complete_command(commands: &Vec<ServerChatCommand>, part: &str, prefix: char) -> (
    completions: Vec<String>)
    ensures
        completions.deep_view() == command_completions(commands.deep_view(), part@, prefix),
{
    let mut names: Vec<String> = ServerChatCommand::names(commands);
    let ghost server_names = names.deep_view();
    let client = ClientChatCommand::iter_with_keywords();
    let ghost keywords = command::client_keywords();
    for i in 0..client.len()
        invariant
            names.deep_view() == server_names + keywords.take(i as int),
    {
        let ghost before = names.deep_view();
        names.push(client[i].0.to_owned());
        assert(names.deep_view() =~= before.push(keywords[i as int]));
        assert(names.deep_view() =~= server_names + keywords.take(i + 1));
    }
    assert(keywords.take(keywords.len() as int) =~= keywords);
    text::prefix_all(
        &text::keep_with_prefix(&names, part),
        text::char_string(prefix).as_str(),
    )
}

/// The uids above `least`, each as an entity is written.
pub open spec fn uid_completions(uids: Seq<u64>, least: u64) -> Seq<Seq<char>> {
    uids.filter(|uid: u64| least < uid).map_values(|uid: u64| preprocess::uid_text(uid))
}

#[verifier::loop_isolation(false)]
fn complete_uid(uids: &Vec<u64>, least: u64) -> (completions: Vec<String>)
    ensures
        completions.deep_view() == uid_completions(uids@, least),
{
    let mut completions: Vec<String> = Vec::new();
    let ghost above = |uid: u64| least < uid;
    let ghost text_of = |uid: u64| preprocess::uid_text(uid);
    assert(completions.deep_view() =~= uids@.take(0).filter(above).map_values(text_of)) by {
        reveal(Seq::filter);
    }
    for i in 0..uids.len()
        invariant
            completions.deep_view() == uids@.take(i as int).filter(above).map_values(text_of),
    {
        let ghost before = completions.deep_view();
        proof {
            reveal(Seq::filter);
            assert(uids@.take(i + 1).drop_last() =~= uids@.take(i as int));
        }
        let uid: u64 = uids[i];
        if least < uid {
            let mut s: String = "uid@".to_owned();
            s.append(number::to_decimal(uid).as_str());
            let ghost shown = s@;
            completions.push(s);
            assert(completions.deep_view() =~= before.push(shown));
            assert(completions.deep_view() =~= uids@.take(i + 1).filter(above).map_values(
                text_of,
            ));
        }
    }
    assert(uids@.take(uids@.len() as int) =~= uids@);
    completions
}

/// The entities whose writing begins with `part`: behind `@` the keyword of a target, behind
/// `uid@` the number of an entity that is larger than the one typed so far; else a player.
pub open spec fn entity_completions(client: ClientView, part: Seq<char>) -> Seq<Seq<char>> {
    match text::halves(part, PREFIX) {
        Some((kind, rest)) => if kind.len() == 0 {
            text::prefixed(text::with_prefix(target::target_keywords(), rest), "@"@)
        } else if kind == "uid"@ {
            match number::parsed(rest) {
                Some(least) => uid_completions(client.uids, least),
                None => if rest.len() == 0 {
                    uid_completions(client.uids, 0)
                } else {
                    Seq::empty()
                },
            }
        } else {
            Seq::empty()
        },
        None => player_completions(client, part),
    }
}

fn complete_entity(part: &str, client: &Client) -> (completions: Vec<String>)
    ensures
        completions.deep_view() == entity_completions(client.deep_view(), part@),
{
    match text::split_once(part, PREFIX) {
        Some((kind, rest)) => {
            if kind.as_str().is_empty() {
                text::prefix_all(
                    &text::keep_with_prefix(&ClientEntityTarget::keywords(), rest.as_str()),
                    "@",
                )
            } else if text::same_text(kind.as_str(), "uid") {
                match number::parse_u64(rest.as_str()) {
                    Some(least) => complete_uid(&client.uids, least),
                    None => {
                        if rest.as_str().is_empty() {
                            complete_uid(&client.uids, 0)
                        } else {
                            no_completions()
                        }
                    },
                }
            } else {
                no_completions()
            }
        },
        None => complete_player(part, client),
    }
}

fn no_completions() -> (none: Vec<String>)
    ensures
        none.deep_view() == Seq::<Seq<char>>::empty(),
{
    let none: Vec<String> = Vec::new();
    assert(none.deep_view() =~= Seq::<Seq<char>>::empty());
    none
}

fn one_completion(s: String) -> (one: Vec<String>)
    ensures
        one.deep_view() == seq![s@],
{
    let mut one: Vec<String> = Vec::new();
    let ghost shown = s@;
    one.push(s);
    assert(one.deep_view() =~= seq![shown]);
    one
}

/// The first `depth` parts of a path that are separated by points.
pub open spec fn path_start(path: Seq<char>, depth: nat) -> Seq<char> {
    let parts = text::pieces(path, '.');
    let n = if depth < parts.len() {
        depth
    } else {
        parts.len()
    };
    text::joined(parts.take(n as int), "."@)
}

/// What stands behind `prefix` and a point in those of `paths` that begin with them, each cut
/// off behind `depth` parts.
pub open spec fn path_starts(paths: Seq<Seq<char>>, prefix: Seq<char>, depth: nat) -> Seq<
    Seq<char>,
> {
    let root = prefix + "."@;
    paths.filter(|path: Seq<char>| root.is_prefix_of(path)).map_values(
        |path: Seq<char>| path_start(path.skip(root.len() as int), depth),
    )
}

/// The paths below `prefix` that begin with `part`, as deep as `part` goes.
pub open spec fn path_completions(paths: Seq<Seq<char>>, prefix: Seq<char>, part: Seq<char>) -> Seq<
    Seq<char>,
> {
    let depth = text::pieces(part, '.').len();
    text::with_prefix(foreign::without_repeats(path_starts(paths, prefix, depth)), part)
}

fn start_of_path(path: &str, depth: usize) -> (start: String)
    ensures
        start@ == path_start(path@, depth as nat),
{
    let mut parts: Vec<String> = text::split_at_char(path, '.');
    let ghost all = parts.deep_view();
    parts.truncate(depth);
    let n: usize = parts.len();
    assert(parts.deep_view() =~= all.take(n as int));
    proof {
        reveal_strlit(".");
    }
    foreign::join_items(&parts, ".")
}

#[verifier::loop_isolation(false)]
fn complete_path(paths: &Vec<String>, prefix: &str, part: &str) -> (completions: Vec<String>)
    ensures
        completions.deep_view() == path_completions(paths.deep_view(), prefix@, part@),
{
    let depth: usize = text::split_at_char(part, '.').len();
    let mut root: String = prefix.to_owned();
    root.append(".");
    let mut starts: Vec<String> = Vec::new();
    let ghost all = paths.deep_view();
    let ghost below = |path: Seq<char>| root@.is_prefix_of(path);
    let ghost start_of = |path: Seq<char>| path_start(path.skip(root@.len() as int), depth as nat);
    assert(starts.deep_view() =~= all.take(0).filter(below).map_values(start_of)) by {
        reveal(Seq::filter);
    }
    for i in 0..paths.len()
        invariant
            starts.deep_view() == all.take(i as int).filter(below).map_values(start_of),
    {
        let ghost before = starts.deep_view();
        proof {
            reveal(Seq::filter);
            assert(all.take(i + 1).drop_last() =~= all.take(i as int));
            assert(all.take(i + 1).last() == paths@[i as int]@);
        }
        if let Some(rest) = text::strip_prefix(paths[i].as_str(), root.as_str()) {
            let start: String = start_of_path(rest.as_str(), depth);
            let ghost shown = start@;
            starts.push(start);
            assert(starts.deep_view() =~= before.push(shown));
            assert(starts.deep_view() =~= all.take(i + 1).filter(below).map_values(start_of));
        }
    }
    assert(all.take(all.len() as int) =~= all);
    assert(starts.deep_view() =~= path_starts(all, prefix@, depth as nat));
    text::keep_with_prefix(&foreign::drop_repeats(starts), part)
}

/// What `part` can become as an argument.
///
/// A `Boolean` offers those of its two values that begin with its default, whatever `part` is.
pub open spec fn argument_completions(
    client: ClientView,
    arg: ArgumentView,
    part: Seq<char>,
) -> Seq<Seq<char>> {
    match arg {
        ArgumentView::PlayerName(_) => player_completions(client, part),
        ArgumentView::EntityTarget(_) => entity_completions(client, part),
        ArgumentView::SiteName(_) => site_completions(client, part),
        ArgumentView::Float(_, x, _) => if part.len() == 0 {
            seq![x]
        } else {
            Seq::empty()
        },
        ArgumentView::Integer(_, x, _) => if part.len() == 0 {
            seq![number::signed_decimal(x as int)]
        } else {
            Seq::empty()
        },
        ArgumentView::Any(_, _) => Seq::empty(),
        ArgumentView::Command(_) => command_completions(client.commands, part, ' '),
        ArgumentView::Message(_) => player_completions(client, part),
        ArgumentView::SubCommand => command_completions(client.commands, part, ' '),
        ArgumentView::Enum(_, values, _) => text::with_prefix(values, part),
        ArgumentView::AssetPath(_, prefix, paths, _) => path_completions(paths, prefix, part),
        ArgumentView::Boolean(_, x, _) => text::with_prefix(seq!["true"@, "false"@], x),
        ArgumentView::Flag(name) => seq![name],
    }
}

impl ArgumentSpec {
    /// Completes an argument.
    pub fn complete(&self, part: &str, client: &Client) -> (completions: Vec<String>)
        ensures
            completions.deep_view() == argument_completions(
                client.deep_view(),
                self.deep_view(),
                part@,
            ),
    {
        match self {
            ArgumentSpec::PlayerName(_) => complete_player(part, client),
            ArgumentSpec::EntityTarget(_) => complete_entity(part, client),
            ArgumentSpec::SiteName(_) => complete_site(part, client),
            ArgumentSpec::Float(_, x, _) => {
                if part.is_empty() {
                    one_completion(x.clone())
                } else {
                    no_completions()
                }
            },
            ArgumentSpec::Integer(_, x, _) => {
                if part.is_empty() {
                    one_completion(number::to_signed_decimal(*x))
                } else {
                    no_completions()
                }
            },
            ArgumentSpec::Any(_, _) => no_completions(),
            ArgumentSpec::Command(_) => complete_command(&client.commands, part, ' '),
            ArgumentSpec::Message(_) => complete_player(part, client),
            ArgumentSpec::SubCommand => complete_command(&client.commands, part, ' '),
            ArgumentSpec::Enum(_, values, _) => text::keep_with_prefix(values, part),
            ArgumentSpec::AssetPath(_, prefix, paths, _) => complete_path(
                paths,
                prefix.as_str(),
                part,
            ),
            ArgumentSpec::Boolean(_, x, _) => {
                let values: Vec<String> = vec!["true".to_owned(), "false".to_owned()];
                assert(values.deep_view() =~= seq!["true"@, "false"@]);
                text::keep_with_prefix(&values, x.as_str())
            },
            ArgumentSpec::Flag(name) => one_completion(name.clone()),
        }
    }
}

/// The arguments of the command of this name: one of the server where there is one, else one of
/// the client.
pub open spec fn arguments_named(client: ClientView, name: Seq<char>) -> Option<
    Seq<ArgumentView>,
> {
    match server::server_named(client.commands, name) {
        Some(i) => Some(client.commands[i].args),
        None => match command::client_named(name) {
            Some(c) => Some(c.arguments(client.shaders)),
            None => None,
        },
    }
}

/// The name of the command in a line that `prefix` has been taken off.
pub open spec fn command_word(rest: Seq<char>) -> Seq<char> {
    let parts = text::words(rest);
    if parts.len() > 0 {
        parts[0]
    } else {
        Seq::empty()
    }
}

/// The number of the argument that is typed at the end of a line, counted from 1: 0 where the
/// name of the command is. `rest` is the line without the prefix of commands, `word` the word
/// at its end.
pub open spec fn argument_number(rest: Seq<char>, word: Seq<char>) -> nat {
    let parts = text::words(rest).len();
    let behind = if parts > 0 {
        (parts - 1) as nat
    } else {
        0
    };
    if word.len() == 0 {
        behind + 1
    } else {
        behind
    }
}

/// What the word at the end of a line can become.
pub open spec fn completions(client: ClientView, line: Seq<char>, prefix: char) -> Seq<Seq<char>>
    decreases line.len(),
{
    let word = text::last_word(line);
    if line.len() > 0 && line[0] == prefix {
        let rest = line.drop_first();
        let i = argument_number(rest, word);
        if i == 0 {
            let name = if word.len() > 0 && word[0] == prefix {
                word.drop_first()
            } else {
                word
            };
            command_completions(client.commands, name, prefix)
        } else {
            match arguments_named(client, command_word(rest)) {
                Some(args) => if i <= args.len() {
                    argument_completions(client, args[i - 1], word)
                } else if args.len() == 0 {
                    Seq::empty()
                } else {
                    match args.last() {
                        ArgumentView::SubCommand => {
                            let at = word::word_place_from(rest, args.len(), 0);
                            if 0 <= at < rest.len() {
                                completions(client, rest.skip(at), prefix)
                            } else {
                                Seq::empty()
                            }
                        },
                        ArgumentView::Message(_) => player_completions(client, word),
                        _ => Seq::empty(),
                    }
                },
                None => player_completions(client, word),
            }
        }
    } else {
        player_completions(client, word)
    }
}

fn word_at_end(line: &str) -> (word: String)
    ensures
        word@ == text::last_word(line@),
{
    let x = text::chars_of(line);
    if x.len() == 0 || x[x.len() - 1].is_whitespace() {
        return String::new();
    }
    let parts: Vec<String> = text::split_words(line);
    proof {
        text::lemma_words_end(line@);
        assert(parts.deep_view().last() == parts@[parts@.len() - 1]@);
    }
    parts[parts.len() - 1].clone()
}

/// Completes the word at the end of a line, as the name of a command or as an argument of one
/// where the line begins with the prefix of commands, else as the alias of a player.
pub fn complete(line: &str, client: &Client, cmd_prefix: char) -> (words: Vec<String>)
    ensures
        words.deep_view() == completions(client.deep_view(), line@, cmd_prefix),
    decreases line@.len(),
{
    let word: String = word_at_end(line);
    let x = text::chars_of(line);
    if x.len() == 0 || x[0] != cmd_prefix {
        // Not completing a command
        return complete_player(word.as_str(), client);
    }
    let rest: String = text::string_of(&x, 1, x.len());
    assert(rest@ =~= line@.drop_first());
    let parts: Vec<String> = text::split_words(rest.as_str());
    let behind: usize = if parts.len() > 0 { parts.len() - 1 } else { 0 };
    let nothing_typed: bool = word.as_str().is_empty();
    if behind == 0 && !nothing_typed {
        // Completing chat command name. This is the start of the line so the prefix
        // will be part of it
        let y = text::chars_of(word.as_str());
        let from: usize = if y[0] == cmd_prefix { 1 } else { 0 };
        let name: String = text::string_of(&y, from, y.len());
        assert(from == 1 ==> name@ =~= word@.drop_first());
        assert(from == 0 ==> name@ =~= word@);
        return complete_command(&client.commands, name.as_str(), cmd_prefix);
    }
    // The argument that is completed, counted from 0
    let at: usize = if nothing_typed { behind } else { behind - 1 };
    let cmd: String = if parts.len() > 0 { parts[0].clone() } else { String::new() };
    proof {
        if parts@.len() > 0 {
            assert(parts.deep_view()[0] == parts@[0]@);
        }
        assert(cmd@ =~= command_word(rest@));
        assert(at + 1 == argument_number(rest@, word@));
    }
    let known: Option<usize> = ServerChatCommand::from_str(&client.commands, cmd.as_str());
    let client_args: Vec<ArgumentSpec> = match known {
        Some(_) => Vec::new(),
        None => match ClientChatCommand::from_str(cmd.as_str()) {
            Ok(c) => c.data(&client.shaders).args,
            Err(_) => {
                // Completing for unknown chat command
                return complete_player(word.as_str(), client);
            },
        },
    };
    let args: &Vec<ArgumentSpec> = match known {
        Some(k) => &client.commands[k].args,
        None => &client_args,
    };
    proof {
        if let Some(k) = known {
            assert(client.deep_view().commands[k as int]
                == client.commands@[k as int].deep_view());
        }
        assert(arguments_named(client.deep_view(), cmd@) == Some(args.deep_view()));
    }
    if at < args.len() {
        // Complete ith argument
        assert(args.deep_view()[at as int] == args@[at as int].deep_view());
        return args[at].complete(word.as_str(), client);
    }
    if args.len() == 0 {
        return no_completions();
    }
    // Complete past the last argument
    assert(args.deep_view().last() == args@[args@.len() - 1].deep_view());
    match &args[args.len() - 1] {
        ArgumentSpec::SubCommand => match word::from_nth_word(rest.as_str(), args.len()) {
            Some(sub) => {
                proof {
                    word::lemma_word_place(rest@, args@.len());
                }
                complete(sub, client, cmd_prefix)
            },
            None => no_completions(),
        },
        ArgumentSpec::Message(_) => complete_player(word.as_str(), client),
        _ => no_completions(),  // End of command. Nothing to complete
    }
}

/// The completions of a command's name are the names of commands that begin with what was typed,
/// all of them, each behind the prefix.
pub proof fn law_command_completions(
    commands: Seq<ServerView>,
    part: Seq<char>,
    prefix: char,
    name: Seq<char>,
)
    ensures
        command_completions(commands, part, prefix).contains(seq![prefix] + name) <==> (
        server::server_names(commands) + command::client_keywords()).contains(name)
            && part.is_prefix_of(name),
{
    let names = server::server_names(commands) + command::client_keywords();
    let kept = text::with_prefix(names, part);
    let shown = text::prefixed(kept, seq![prefix]);
    text::law_with_prefix(names, part, name);
    if kept.contains(name) {
        let i = kept.index_of(name);
        assert(shown[i] == seq![prefix] + name);
    }
    if shown.contains(seq![prefix] + name) {
        let i = shown.index_of(seq![prefix] + name);
        assert((seq![prefix] + kept[i]).drop_first() =~= kept[i]);
        assert((seq![prefix] + name).drop_first() =~= name);
        assert(kept[i] == name);
    }
}

/// The completions of a player's name are the aliases that begin with what was typed, all of
/// them.
pub proof fn law_player_completions(client: ClientView, part: Seq<char>, alias: Seq<char>)
    ensures
        player_completions(client, part).contains(alias) <==> client.aliases().contains(alias)
            && part.is_prefix_of(alias),
{
    text::law_with_prefix(client.aliases(), part, alias);
}

/// Behind `@` the targets are offered whose keywords begin with what was typed, all of them: each
/// as `@` and its keyword, which is how a target is named in a command.
pub proof fn law_target_completions(client: ClientView, part: Seq<char>, t: ClientEntityTarget)
    ensures
        entity_completions(client, seq![PREFIX] + part).contains(seq![PREFIX] + t.name())
            <==> part.is_prefix_of(t.name()),
{
    reveal_strlit("@");
    let line = seq![PREFIX] + part;
    let names = target::target_keywords();
    let kept = text::with_prefix(names, part);
    let shown = text::prefixed(kept, "@"@);
    assert("@"@ =~= seq![PREFIX]);
    assert(line.take(0) =~= Seq::empty());
    assert(line.skip(1) =~= part);
    assert(text::halves(line, PREFIX) == Some((line.take(0), line.skip(1))));
    target::law_keyword_finds_its_target(t);
    text::lemma_place_of(names, t.name());
    assert(names.contains(t.name()));
    text::law_with_prefix(names, part, t.name());
    if kept.contains(t.name()) {
        let i = kept.index_of(t.name());
        assert(shown[i] == seq![PREFIX] + t.name());
    }
    if shown.contains(seq![PREFIX] + t.name()) {
        let i = shown.index_of(seq![PREFIX] + t.name());
        assert((seq![PREFIX] + kept[i]).drop_first() =~= kept[i]);
        assert((seq![PREFIX] + t.name()).drop_first() =~= t.name());
        assert(kept[i] == t.name());
    }
}

/// Behind `uid@` and a number the entities with larger uids are offered, all of them, each as an
/// entity is written.
pub proof fn law_uid_completions(uids: Seq<u64>, least: u64, uid: u64)
    ensures
        uid_completions(uids, least).contains(preprocess::uid_text(uid)) <==> uids.contains(uid)
            && least < uid,
{
    let above = |uid: u64| least < uid;
    let kept = uids.filter(above);
    let shown = uid_completions(uids, least);
    text::lemma_filter(uids, above, uid);
    if kept.contains(uid) {
        let i = kept.index_of(uid);
        assert(shown[i] == preprocess::uid_text(uid));
    }
    if shown.contains(preprocess::uid_text(uid)) {
        let i = shown.index_of(preprocess::uid_text(uid));
        preprocess::law_uid_is_read_back(uid);
        preprocess::law_uid_is_read_back(kept[i]);
        assert(kept[i] == uid);
    }
}

/// A site is found with a quotation mark before the start of its name as well as without one.
pub proof fn law_quotation_mark_makes_no_difference(client: ClientView, part: Seq<char>)
    requires
        part.len() == 0 || part[0] != '"',
    ensures
        site_completions(client, seq!['"'] + part) == site_completions(client, part),
{
    assert((seq!['"'] + part).drop_first() =~= part);
}

/// A line that does not begin with the prefix of commands completes the alias of a player.
pub proof fn law_plain_line_completes_players(client: ClientView, line: Seq<char>, prefix: char)
    requires
        line.len() == 0 || line[0] != prefix,
    ensures
        completions(client, line, prefix) == player_completions(client, text::last_word(line)),
{
}

/// Where the start of a command's name has been typed behind the prefix, every name that begins
/// with it is offered behind the prefix, and nothing else is.
pub proof fn law_command_name_completes(client: ClientView, part: Seq<char>, prefix: char)
    requires
        !foreign::is_white_space(prefix),
        forall|i: int| 0 <= i < part.len() ==> !foreign::is_white_space(#[trigger] part[i]),
    ensures
        completions(client, seq![prefix] + part, prefix) == command_completions(
            client.commands,
            part,
            prefix,
        ),
{
    let line = seq![prefix] + part;
    assert forall|i: int| 0 <= i < line.len() implies !foreign::is_white_space(
        #[trigger] line[i],
    ) by {
        if i > 0 {
            assert(line[i] == part[i - 1]);
        }
    }
    text::lemma_one_word(line);
    assert(line.drop_first() =~= part);
    assert(text::last_word(line) == line);
    if part.len() > 0 {
        text::lemma_one_word(part);
    } else {
        assert(text::words(part) =~= Seq::empty());
    }
}

/// A line whose command runs another one, typed past the arguments before that one, completes
/// as the line of the other command does, and the word that is completed is the same.
pub proof fn law_sub_command_completes_on_its_own(
    client: ClientView,
    line: Seq<char>,
    prefix: char,
)
    requires
        line.len() > 0,
        line[0] == prefix,
        arguments_named(client, command_word(line.drop_first())) matches Some(args)
            && args.len() > 0 && args.last() is SubCommand && argument_number(
            line.drop_first(),
            text::last_word(line),
        ) > args.len(),
        word::word_place(
            line.drop_first(),
            arguments_named(client, command_word(line.drop_first()))->0.len(),
        ) is Some,
    ensures
        ({
            let rest = line.drop_first();
            let args = arguments_named(client, command_word(rest))->0;
            let sub = rest.skip(word::word_place(rest, args.len())->0);
            &&& completions(client, line, prefix) == completions(client, sub, prefix)
            &&& text::last_word(sub) == text::last_word(line)
        }),
{
    let rest = line.drop_first();
    let args = arguments_named(client, command_word(rest))->0;
    let at = word::word_place(rest, args.len())->0;
    word::law_word_begins_behind_white_space(rest, args.len());
    assert(line.skip(at + 1) =~= rest.skip(at));
    assert(line[at] == rest[at - 1]);
    text::lemma_last_word_behind(line, at + 1);
}

/// Whether a text holds no white space.
pub open spec fn unbroken(s: Seq<char>) -> bool {
    forall|i: int| 0 <= i < s.len() ==> !foreign::is_white_space(#[trigger] s[i])
}

/// Whether these can be the words typed behind the name of a command, the last of which can
/// still be empty.
pub open spec fn can_be_typed(typed: Seq<Seq<char>>) -> bool {
    &&& typed.len() > 0
    &&& forall|i: int| 0 <= i < typed.len() ==> unbroken(#[trigger] typed[i])
    &&& forall|i: int| 0 <= i < typed.len() - 1 ==> (#[trigger] typed[i]).len() > 0
}

/// A line with the prefix of commands, the name of a command, and words behind it, each behind a
/// space.
pub open spec fn line_of(prefix: char, name: Seq<char>, typed: Seq<Seq<char>>) -> Seq<char> {
    seq![prefix] + text::joined(seq![name] + typed, " "@)
}

proof fn lemma_joined_words(parts: Seq<Seq<char>>)
    requires
        parts.len() > 0,
        forall|i: int|
            0 <= i < parts.len() ==> (#[trigger] parts[i]).len() > 0 && unbroken(parts[i]),
    ensures
        text::words(text::joined(parts, " "@)) == parts,
        text::joined(parts, " "@).len() > 0,
        text::joined(parts, " "@)[0] == parts[0][0],
    decreases parts.len(),
{
    reveal_strlit(" ");
    assert(" "@ =~= seq![' ']);
    assert(parts[0].len() > 0 && unbroken(parts[0]));
    if parts.len() == 1 {
        text::lemma_one_word(parts[0]);
        assert(parts =~= seq![parts[0]]);
    } else {
        let init = parts.drop_last();
        assert forall|i: int| 0 <= i < init.len() implies (#[trigger] init[i]).len() > 0
            && unbroken(init[i]) by {
            assert(parts[i].len() > 0 && unbroken(parts[i]));
        }
        lemma_joined_words(init);
        let w = parts[parts.len() - 1];
        assert(w.len() > 0 && unbroken(w));
        text::law_white_space_parts_the_words(text::joined(init, " "@), ' ', w);
        text::lemma_one_word(w);
        assert(init + seq![w] =~= parts);
    }
}

proof fn lemma_line_words(prefix: char, name: Seq<char>, typed: Seq<Seq<char>>)
    requires
        name.len() > 0,
        unbroken(name),
        can_be_typed(typed),
    ensures
        ({
            let rest = text::joined(seq![name] + typed, " "@);
            &&& line_of(prefix, name, typed).drop_first() == rest
            &&& text::words(rest) == seq![name] + (if typed.last().len() > 0 {
                typed
            } else {
                typed.drop_last()
            })
            &&& text::last_word(line_of(prefix, name, typed)) == typed.last()
        }),
{
    reveal_strlit(" ");
    assert(" "@ =~= seq![' ']);
    let all = seq![name] + typed;
    let front = seq![name] + typed.drop_last();
    let last = typed.last();
    let rest = text::joined(all, " "@);
    let line = line_of(prefix, name, typed);
    assert(line.drop_first() =~= rest);
    assert forall|i: int| 0 <= i < front.len() implies (#[trigger] front[i]).len() > 0 && unbroken(
        front[i],
    ) by {
        if i > 0 {
            assert(front[i] == typed[i - 1]);
        }
    }
    lemma_joined_words(front);
    assert(all.drop_last() =~= front);
    assert(all.last() == last);
    assert(unbroken(typed[typed.len() - 1]));
    let before = text::joined(front, " "@);
    assert(rest =~= before + seq![' '] + last);
    text::law_white_space_parts_the_words(before, ' ', last);
    if last.len() > 0 {
        text::lemma_one_word(last);
        assert(front + seq![last] =~= all);
    } else {
        assert(last =~= Seq::empty());
        assert(front + Seq::<Seq<char>>::empty() =~= front);
    }
    text::law_last_word_stands_behind_white_space(seq![prefix] + before, ' ', last);
    assert(line =~= seq![prefix] + before + seq![' '] + last);
}

/// The word that is typed behind the name of a command is completed as that argument of the
/// command which it is: the first word as the first argument, and so on for as many as the
/// command takes.
pub proof fn law_argument_is_completed_by_its_spec(
    client: ClientView,
    prefix: char,
    name: Seq<char>,
    typed: Seq<Seq<char>>,
    args: Seq<ArgumentView>,
)
    requires
        name.len() > 0,
        unbroken(name),
        can_be_typed(typed),
        arguments_named(client, name) == Some(args),
        typed.len() <= args.len(),
    ensures
        completions(client, line_of(prefix, name, typed), prefix) == argument_completions(
            client,
            args[typed.len() - 1],
            typed.last(),
        ),
{
    lemma_line_words(prefix, name, typed);
}

/// Past the last argument of a command, the rest of the line completes players where that is a
/// message, and nothing where it is neither a message nor a sub-command.
pub proof fn law_past_the_last_argument(
    client: ClientView,
    prefix: char,
    name: Seq<char>,
    typed: Seq<Seq<char>>,
    args: Seq<ArgumentView>,
)
    requires
        name.len() > 0,
        unbroken(name),
        can_be_typed(typed),
        arguments_named(client, name) == Some(args),
        typed.len() > args.len(),
        args.len() > 0 ==> !(args.last() is SubCommand),
    ensures
        completions(client, line_of(prefix, name, typed), prefix) == (if args.len() > 0
            && args.last() is Message {
            player_completions(client, typed.last())
        } else {
            Seq::<Seq<char>>::empty()
        }),
{
    lemma_line_words(prefix, name, typed);
}

/// Past a sub-command the line completes as if it began there: with the word that stands for the
/// sub-command.
pub proof fn law_sub_command_begins_a_line(
    client: ClientView,
    prefix: char,
    name: Seq<char>,
    typed: Seq<Seq<char>>,
    args: Seq<ArgumentView>,
)
    requires
        name.len() > 0,
        unbroken(name),
        can_be_typed(typed),
        arguments_named(client, name) == Some(args),
        typed.len() > args.len() > 0,
        args.last() is SubCommand,
    ensures
        completions(client, line_of(prefix, name, typed), prefix) == completions(
            client,
            text::joined(typed.skip(args.len() - 1), " "@),
            prefix,
        ),
{
    lemma_line_words(prefix, name, typed);
    reveal_strlit(" ");
    assert(" "@ =~= seq![' ']);
    let n = args.len() as int;
    let front = seq![name] + typed.take(n - 1);
    let tail = typed.skip(n - 1);
    let a = text::joined(front, " "@);
    let b = text::joined(tail, " "@);
    let rest = text::joined(seq![name] + typed, " "@);
    assert(front + tail =~= seq![name] + typed);
    text::law_joined_in_order(front, tail, " "@, name);
    assert forall|i: int| 0 <= i < front.len() implies (#[trigger] front[i]).len() > 0 && unbroken(
        front[i],
    ) by {
        if i > 0 {
            assert(front[i] == typed[i - 1]);
        }
    }
    lemma_joined_words(front);
    assert(tail[0] == typed[n - 1]);
    assert(typed[n - 1].len() > 0 && unbroken(typed[n - 1]));
    lemma_joined_start(tail, " "@);
    assert(front[0] == name);
    word::law_word_is_found_at_its_place(a, ' ', b);
    assert(rest == a + seq![' '] + b);
    assert(rest.skip(a.len() as int + 1) =~= b);
}

proof fn lemma_joined_start(parts: Seq<Seq<char>>, sep: Seq<char>)
    requires
        parts.len() > 0,
        parts[0].len() > 0,
    ensures
        text::joined(parts, sep).len() > 0,
        text::joined(parts, sep)[0] == parts[0][0],
    decreases parts.len(),
{
    if parts.len() > 1 {
        lemma_joined_start(parts.drop_last(), sep);
    }
}

/// Behind a name that no command has, players are completed.
pub proof fn law_unknown_command_completes_players(
    client: ClientView,
    prefix: char,
    name: Seq<char>,
    typed: Seq<Seq<char>>,
)
    requires
        name.len() > 0,
        unbroken(name),
        can_be_typed(typed),
        arguments_named(client, name) is None,
    ensures
        completions(client, line_of(prefix, name, typed), prefix) == player_completions(
            client,
            typed.last(),
        ),
{
    lemma_line_words(prefix, name, typed);
}

/// The arguments that a name asks for are those of the server's command of that name, and only
/// where there is none those of the client's.
pub proof fn law_whose_arguments_are_completed(
    client: ClientView,
    name: Seq<char>,
    c: ClientChatCommand,
)
    ensures
        server::server_named(client.commands, name) matches Some(i) ==> arguments_named(
            client,
            name,
        ) == Some(client.commands[i].args),
        server::server_named(client.commands, c.name()) is None ==> arguments_named(
            client,
            c.name(),
        ) == Some(c.arguments(client.shaders)),
        server::server_named(client.commands, name) is None && (forall|d: ClientChatCommand|
            (#[trigger] d.name()) != name) ==> arguments_named(client, name) is None,
{
    command::law_keyword_finds_its_command(c);
    command::law_found_command_has_the_keyword(name);
}

/// Typing more narrows the aliases that are offered down to those that begin with it; with
/// nothing typed all of them are offered, in the order of the players.
pub proof fn law_players_are_narrowed_down(client: ClientView, part: Seq<char>, i: int)
    ensures
        player_completions(client, Seq::empty()).len() == client.players.len(),
        0 <= i < client.players.len() ==> player_completions(client, Seq::empty())[i]
            == client.players[i].alias,
        player_completions(client, part) == player_completions(client, Seq::empty()).filter(
            |alias: Seq<char>| part.is_prefix_of(alias),
        ),
{
    lemma_all_kept(client.aliases());
}

proof fn lemma_all_kept(texts: Seq<Seq<char>>)
    ensures
        text::with_prefix(texts, Seq::empty()) == texts,
    decreases texts.len(),
{
    reveal(Seq::filter);
    if texts.len() > 0 {
        lemma_all_kept(texts.drop_last());
        let wanted = |text: Seq<char>| Seq::<char>::empty().is_prefix_of(text);
        assert(Seq::<char>::empty() =~= texts.last().subrange(0, 0));
        assert(wanted(texts.last()));
        assert(texts.drop_last().push(texts.last()) =~= texts);
    } else {
        assert(text::with_prefix(texts, Seq::empty()) =~= texts);
    }
}

/// With nothing typed all the names of commands are offered behind the prefix, those of the
/// server and then those of the client; typing more narrows them down to those that begin with
/// it.
pub proof fn law_commands_are_narrowed_down(
    commands: Seq<ServerView>,
    part: Seq<char>,
    prefix: char,
    i: int,
)
    ensures
        ({
            let names = server::server_names(commands);
            let all = command_completions(commands, Seq::empty(), prefix);
            &&& all.len() == names.len() + 4
            &&& 0 <= i < names.len() ==> all[i] == seq![prefix] + names[i]
            &&& all[names.len() as int] == seq![prefix] + "experimental_shader"@
            &&& all[names.len() as int + 1] == seq![prefix] + "help"@
            &&& all[names.len() as int + 2] == seq![prefix] + "mute"@
            &&& all[names.len() as int + 3] == seq![prefix] + "unmute"@
            &&& command_completions(commands, part, prefix) == all.filter(
                |name: Seq<char>| (seq![prefix] + part).is_prefix_of(name),
            )
        }),
{
    let of_server = server::server_names(commands);
    let own = command::client_keywords();
    let names = of_server + own;
    lemma_all_kept(names);
    let all = command_completions(commands, Seq::empty(), prefix);
    assert(all == text::prefixed(names, seq![prefix]));
    lemma_filter_behind_prefix(names, part, prefix);
    let n = of_server.len() as int;
    assert(own.len() == 4);
    assert(names[n] == own[0] && names[n + 1] == own[1]);
    assert(names[n + 2] == own[2] && names[n + 3] == own[3]);
}

proof fn lemma_filter_behind_prefix(names: Seq<Seq<char>>, part: Seq<char>, prefix: char)
    ensures
        text::prefixed(text::with_prefix(names, part), seq![prefix]) == text::prefixed(
            names,
            seq![prefix],
        ).filter(|name: Seq<char>| (seq![prefix] + part).is_prefix_of(name)),
    decreases names.len(),
{
    reveal(Seq::filter);
    let wanted = |name: Seq<char>| (seq![prefix] + part).is_prefix_of(name);
    let shown = text::prefixed(names, seq![prefix]);
    let kept = text::prefixed(text::with_prefix(names, part), seq![prefix]);
    if names.len() > 0 {
        let init = names.drop_last();
        let last = names.last();
        lemma_filter_behind_prefix(init, part, prefix);
        assert(shown.drop_last() =~= text::prefixed(init, seq![prefix]));
        assert(shown.last() == seq![prefix] + last);
        let with = seq![prefix] + part;
        let name = seq![prefix] + last;
        if part.is_prefix_of(last) {
            assert(name.subrange(0, with.len() as int) =~= with);
            assert(with.is_prefix_of(name));
            assert(text::with_prefix(names, part) =~= text::with_prefix(init, part).push(last));
            assert(kept =~= text::prefixed(text::with_prefix(init, part), seq![prefix]).push(name));
        } else {
            if with.is_prefix_of(name) {
                assert(last.subrange(0, part.len() as int) =~= part) by {
                    assert forall|j: int| 0 <= j < part.len() implies last[j] == part[j] by {
                        assert(name.subrange(0, with.len() as int)[j + 1] == with[j + 1]);
                        assert(name[j + 1] == last[j]);
                    }
                }
                assert(part.is_prefix_of(last));
            }
            assert(text::with_prefix(names, part) =~= text::with_prefix(init, part));
        }
        assert(kept =~= shown.filter(wanted));
    } else {
        assert(kept =~= shown.filter(wanted));
    }
}

/// What is offered for an entity goes by what stands before the first `@`: nothing for the
/// targets, `uid` for the uids above the number behind it, all of them where there is no number
/// yet, and none where it is no number; anything else offers nothing. Without `@` players are
/// offered.
pub proof fn law_entities_by_what_is_typed(client: ClientView, kind: Seq<char>, rest: Seq<char>)
    requires
        !kind.contains('@'),
    ensures
        entity_completions(client, kind) == player_completions(client, kind),
        kind.len() == 0 ==> entity_completions(client, kind + seq!['@'] + rest) == text::prefixed(
            text::with_prefix(target::target_keywords(), rest),
            "@"@,
        ),
        kind == "uid"@ ==> entity_completions(client, kind + seq!['@'] + rest) == (
        match number::parsed(rest) {
            Some(least) => uid_completions(client.uids, least),
            None => if rest.len() == 0 {
                uid_completions(client.uids, 0)
            } else {
                Seq::<Seq<char>>::empty()
            },
        }),
        kind.len() > 0 && kind != "uid"@ ==> entity_completions(client, kind + seq!['@'] + rest)
            == Seq::<Seq<char>>::empty(),
{
    reveal_strlit("uid");
    text::law_halves_lie_around_the_first(kind, '@', kind, rest);
    text::law_halves_lie_around_the_first(kind + seq!['@'] + rest, '@', kind, rest);
}

/// The uids are offered in their order: one that is above the number, as `uid@` and the uid in
/// decimal; no other.
pub proof fn law_uids_in_order(a: Seq<u64>, b: Seq<u64>, least: u64, uid: u64)
    ensures
        uid_completions(a + b, least) == uid_completions(a, least) + uid_completions(b, least),
        uid_completions(seq![uid], least) == (if uid > least {
            seq!["uid@"@ + number::decimal(uid as nat)]
        } else {
            Seq::<Seq<char>>::empty()
        }),
        uid_completions(Seq::<u64>::empty(), least) == Seq::<Seq<char>>::empty(),
{
    let above = |uid: u64| least < uid;
    Seq::filter_distributes_over_add(a, b, above);
    text::lemma_filter_one(uid, above);
    assert(uid_completions(a + b, least) =~= uid_completions(a, least) + uid_completions(b, least));
    if uid > least {
        assert(uid_completions(seq![uid], least) =~= seq!["uid@"@ + number::decimal(uid as nat)]);
    } else {
        assert(uid_completions(seq![uid], least) =~= Seq::<Seq<char>>::empty());
    }
    assert(uid_completions(Seq::<u64>::empty(), least) =~= Seq::<Seq<char>>::empty());
}

/// The sites are offered in their order: one that is no cave and whose name begins with what was
/// typed, be it behind a quotation mark or not, by its name, which stands between quotation
/// marks where it holds a space; no other.
pub proof fn law_sites_in_order(
    client: ClientView,
    a: Seq<SiteView>,
    b: Seq<SiteView>,
    site: SiteView,
    typed: Seq<char>,
    part: Seq<char>,
)
    requires
        part == seq!['"'] + typed || (part == typed && (typed.len() == 0 || typed[0] != '"')),
    ensures
        site_completions(ClientView { sites: a + b, ..client }, part) == site_completions(
            ClientView { sites: a, ..client },
            part,
        ) + site_completions(ClientView { sites: b, ..client }, part),
        site_completions(ClientView { sites: seq![site], ..client }, part) == (
        match site.name {
            Some(name) => if site.kind == SiteKind::Other && typed.is_prefix_of(name) {
                seq![
                    if exists|i: int| 0 <= i < name.len() && #[trigger] name[i] == ' ' {
                        seq!['"'] + name + seq!['"']
                    } else {
                        name
                    },
                ]
            } else {
                Seq::<Seq<char>>::empty()
            },
            None => Seq::<Seq<char>>::empty(),
        }),
        site_completions(ClientView { sites: Seq::empty(), ..client }, part) == Seq::<
            Seq<char>,
        >::empty(),
{
    reveal_strlit("\"");
    assert("\""@ =~= seq!['"']);
    assert((seq!['"'] + typed).drop_first() =~= typed);
    assert(unquoted(part) == typed);
    let named = |site: SiteView| site.kind != SiteKind::Cave && site.name is Some;
    let name_of = |site: SiteView| site.name->0;
    let quote = |name: Seq<char>| quoted(name);
    Seq::filter_distributes_over_add(a, b, named);
    assert(site_names(a + b) =~= site_names(a) + site_names(b));
    text::law_with_prefix_in_order(site_names(a), site_names(b), typed, typed);
    let x = ClientView { sites: a, ..client };
    let y = ClientView { sites: b, ..client };
    let both = ClientView { sites: a + b, ..client };
    assert(site_completions(both, part) =~= site_completions(x, part) + site_completions(y, part));
    text::lemma_filter_one(site, named);
    let one = ClientView { sites: seq![site], ..client };
    let none = ClientView { sites: Seq::empty(), ..client };
    assert(site_names(Seq::empty()) =~= Seq::empty());
    assert(site_completions(none, part) =~= Seq::<Seq<char>>::empty());
    if named(site) {
        let name = site.name->0;
        assert(site_names(seq![site]) =~= seq![name]);
        text::law_with_prefix_in_order(seq![name], seq![name], typed, name);
        if typed.is_prefix_of(name) {
            assert(site_completions(one, part) =~= seq![quoted(name)]);
            if name.contains(' ') {
                let i = name.index_of(' ');
                assert(name[i] == ' ');
            }
        } else {
            assert(site_completions(one, part) =~= Seq::<Seq<char>>::empty());
        }
    } else {
        assert(site_names(seq![site]) =~= Seq::empty());
        assert(site_completions(one, part) =~= Seq::<Seq<char>>::empty());
    }
}

/// The start of a path ends where one of its parts ends, and it has as many parts as were asked
/// for, or all that there are.
pub proof fn law_path_is_cut_at_a_point(path: Seq<char>, depth: nat)
    requires
        depth > 0,
    ensures
        ({
            let start = path_start(path, depth);
            let parts = text::pieces(path, '.').len();
            &&& text::pieces(start, '.').len() == (if depth < parts {
                depth
            } else {
                parts
            })
            &&& start == path || (start.len() < path.len() && path.take(start.len() as int) == start
                && path[start.len() as int] == '.')
        }),
{
    reveal_strlit(".");
    assert("."@ =~= seq!['.']);
    let parts = text::pieces(path, '.');
    let n: int = if depth < parts.len() {
        depth as int
    } else {
        parts.len() as int
    };
    text::law_pieces_join_up(path, '.');
    let front = parts.take(n);
    let tail = parts.skip(n);
    assert(front + tail =~= parts);
    text::law_separator_parts_the_pieces(path, '.', Seq::empty());
    lemma_has_pieces(path);
    assert forall|i: int| 0 <= i < front.len() implies !(#[trigger] front[i]).contains('.') by {
        text::law_pieces_hold_no_separator(path, '.', i);
        assert(front[i] == parts[i]);
    }
    text::law_joined_pieces_come_back(front, '.');
    if n < parts.len() {
        text::law_joined_in_order(front, tail, seq!['.'], path);
        let start = text::joined(front, seq!['.']);
        assert(path == start + seq!['.'] + text::joined(tail, seq!['.']));
        assert(path.take(start.len() as int) =~= start);
    } else {
        assert(front =~= parts);
    }
}

proof fn lemma_has_pieces(path: Seq<char>)
    ensures
        text::pieces(path, '.').len() > 0,
    decreases path.len(),
{
    if path.len() > 0 {
        lemma_has_pieces(path.drop_last());
    }
}

/// The paths are gone through in their order: one that is made of the prefix, a point and a rest
/// gives the start of that rest; no other gives anything.
pub proof fn law_paths_in_order(
    a: Seq<Seq<char>>,
    b: Seq<Seq<char>>,
    prefix: Seq<char>,
    depth: nat,
    rest: Seq<char>,
    other: Seq<char>,
)
    requires
        !(prefix + "."@).is_prefix_of(other),
    ensures
        path_starts(a + b, prefix, depth) == path_starts(a, prefix, depth) + path_starts(
            b,
            prefix,
            depth,
        ),
        path_starts(seq![prefix + "."@ + rest], prefix, depth) == seq![path_start(rest, depth)],
        path_starts(seq![other], prefix, depth) == Seq::<Seq<char>>::empty(),
        path_starts(Seq::<Seq<char>>::empty(), prefix, depth) == Seq::<Seq<char>>::empty(),
{
    let root = prefix + "."@;
    let below = |path: Seq<char>| root.is_prefix_of(path);
    let start_of = |path: Seq<char>| path_start(path.skip(root.len() as int), depth);
    Seq::filter_distributes_over_add(a, b, below);
    assert(path_starts(a + b, prefix, depth) =~= path_starts(a, prefix, depth) + path_starts(
        b,
        prefix,
        depth,
    ));
    let path = root + rest;
    assert(root =~= path.subrange(0, root.len() as int));
    assert(path.skip(root.len() as int) =~= rest);
    text::lemma_filter_one(path, below);
    text::lemma_filter_one(other, below);
    assert(path_starts(seq![path], prefix, depth) =~= seq![path_start(rest, depth)]);
    assert(path_starts(seq![other], prefix, depth) =~= Seq::<Seq<char>>::empty());
    assert(path_starts(Seq::<Seq<char>>::empty(), prefix, depth) =~= Seq::<Seq<char>>::empty());
}

/// Of the starts of the paths, as many parts long as what was typed, those are offered that begin
/// with it, each once where it comes several times in a row.
pub proof fn law_path_completions(
    paths: Seq<Seq<char>>,
    prefix: Seq<char>,
    typed: Seq<Seq<char>>,
)
    requires
        typed.len() > 0,
        forall|i: int| 0 <= i < typed.len() ==> !(#[trigger] typed[i]).contains('.'),
    ensures
        path_completions(paths, prefix, text::joined(typed, "."@)) == foreign::without_repeats(
            path_starts(paths, prefix, typed.len()),
        ).filter(|start: Seq<char>| text::joined(typed, "."@).is_prefix_of(start)),
{
    reveal_strlit(".");
    assert("."@ =~= seq!['.']);
    text::law_joined_pieces_come_back(typed, '.');
}

/// An argument is completed by what it is: a player or a message by the players, an entity, a
/// site, an asset path or a command by those that there are, a number by its default where
/// nothing is typed, an enumeration by its values that begin with what is typed, a boolean by
/// those of its two values that begin with its default, a flag by itself, and any other text by
/// nothing.
pub proof fn law_argument_is_completed_by_its_kind(
    client: ClientView,
    arg: ArgumentView,
    part: Seq<char>,
)
    ensures
        ({
            let offered = argument_completions(client, arg, part);
            let none = Seq::<Seq<char>>::empty();
            &&& arg is PlayerName || arg is Message ==> offered == player_completions(client, part)
            &&& arg is EntityTarget ==> offered == entity_completions(client, part)
            &&& arg is SiteName ==> offered == site_completions(client, part)
            &&& arg is Command || arg is SubCommand ==> offered == command_completions(
                client.commands,
                part,
                ' ',
            )
            &&& arg is Any ==> offered == none
            &&& (arg is Float || arg is Integer) && part.len() > 0 ==> offered == none
            &&& arg matches ArgumentView::Float(_, x, _) ==> part.len() == 0 ==> offered == seq![x]
            &&& arg matches ArgumentView::Integer(_, x, _) ==> part.len() == 0 ==> offered == seq![
                number::signed_decimal(x as int),
            ]
            &&& arg matches ArgumentView::Enum(_, values, _) ==> offered == values.filter(
                |value: Seq<char>| part.is_prefix_of(value),
            )
            &&& arg matches ArgumentView::AssetPath(_, prefix, paths, _) ==> offered
                == path_completions(paths, prefix, part)
            &&& arg matches ArgumentView::Boolean(_, x, _) ==> (offered.contains("true"@)
                <==> x.is_prefix_of("true"@)) && (offered.contains("false"@) <==> x.is_prefix_of(
                "false"@,
            )) && offered.len() <= 2 && forall|i: int|
                0 <= i < offered.len() ==> #[trigger] offered[i] == "true"@ || offered[i]
                    == "false"@
            &&& arg matches ArgumentView::Flag(name) ==> offered == seq![name]
        }),
{
    if let ArgumentView::Boolean(_, x, _) = arg {
        let values = seq!["true"@, "false"@];
        let offered = argument_completions(client, arg, part);
        assert(values[0] == "true"@ && values[1] == "false"@);
        text::law_with_prefix(values, x, "true"@);
        text::law_with_prefix(values, x, "false"@);
        values.lemma_filter_len(|text: Seq<char>| x.is_prefix_of(text));
        assert forall|i: int| 0 <= i < offered.len() implies #[trigger] offered[i] == "true"@
            || offered[i] == "false"@ by {
            assert(offered.contains(offered[i]));
            text::law_with_prefix(values, x, offered[i]);
            let j = values.index_of(offered[i]);
            assert(values[j] == offered[i]);
        }
    }
}

/// Where the first word behind the prefix is still being typed, the names of commands are
/// completed: by that word, or by what stands behind the prefix where the word begins with it.
pub proof fn law_first_word_is_a_name(client: ClientView, rest: Seq<char>, prefix: char)
    requires
        text::words(rest).len() == 1,
        !foreign::is_white_space(rest.last()),
    ensures
        ({
            let word = text::last_word(seq![prefix] + rest);
            completions(client, seq![prefix] + rest, prefix) == command_completions(
                client.commands,
                if word.len() > 0 && word[0] == prefix {
                    word.skip(1)
                } else {
                    word
                },
                prefix,
            )
        }),
{
    let line = seq![prefix] + rest;
    assert(line.drop_first() =~= rest);
    assert(rest.len() > 0);
    assert(line.last() == rest.last());
    text::lemma_words_end(line);
    let word = text::last_word(line);
    assert(word.drop_first() =~= word.skip(1));
}

/// Behind the first word, however the line is broken by white space: the arguments of the
/// command of that name decide. Past them a message completes players, a sub-command completes as
/// the line that begins with it, where there is one, and anything else completes nothing; a name
/// that no command has completes players.
pub proof fn law_arguments_decide(client: ClientView, rest: Seq<char>, prefix: char, i: int)
    requires
        i > 0,
        rest.len() > 0,
        i == (if text::words(rest).len() > 0 {
            text::words(rest).len() as int
        } else {
            1
        }) - (if foreign::is_white_space(rest.last()) {
            0int
        } else {
            1int
        }),
    ensures
        ({
            let line = seq![prefix] + rest;
            let word = text::last_word(line);
            let name = if text::words(rest).len() > 0 {
                text::words(rest)[0]
            } else {
                Seq::<char>::empty()
            };
            let offered = completions(client, line, prefix);
            match arguments_named(client, name) {
                None => offered == player_completions(client, word),
                Some(args) => {
                    &&& i <= args.len() ==> offered == argument_completions(
                        client,
                        args[i - 1],
                        word,
                    )
                    &&& i > args.len() == 0 ==> offered == Seq::<Seq<char>>::empty()
                    &&& i > args.len() > 0 && args.last() is Message ==> offered
                        == player_completions(client, word)
                    &&& i > args.len() > 0 && args.last() is SubCommand ==> offered == (
                    match word::word_place(rest, args.len()) {
                        Some(at) => completions(client, rest.skip(at), prefix),
                        None => Seq::<Seq<char>>::empty(),
                    })
                    &&& i > args.len() > 0 && !(args.last() is Message)
                        && !(args.last() is SubCommand) ==> offered == Seq::<Seq<char>>::empty()
                },
            }
        }),
{
    let line = seq![prefix] + rest;
    assert(line.drop_first() =~= rest);
    assert(line.last() == rest.last());
    if !foreign::is_white_space(rest.last()) {
        text::lemma_words_end(line);
        text::lemma_words_end(rest);
    }
    let name = command_word(rest);
    if let Some(args) = arguments_named(client, name) {
        word::lemma_word_place(rest, args.len());
    }
}

/// The prefix alone offers the names of all commands, unless it is white space.
pub proof fn law_prefix_offers_all_names(client: ClientView, prefix: char)
    requires
        !foreign::is_white_space(prefix),
    ensures
        completions(client, seq![prefix], prefix) == command_completions(
            client.commands,
            Seq::empty(),
            prefix,
        ),
{
    assert(seq![prefix] + Seq::<char>::empty() =~= seq![prefix]);
    law_command_name_completes(client, Seq::empty(), prefix);
}

} // verus!
