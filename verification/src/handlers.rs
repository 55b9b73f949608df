use vstd::prelude::*;

use crate::client::{Client, ClientView};
use crate::command;
use crate::command::ClientChatCommand;
use crate::server;
use crate::server::{ServerChatCommand, ServerView};
use crate::state;
use crate::state::GlobalState;
use crate::text;

verus! {

/// A message to the user: feedback, or an error.
pub open spec fn reply(result: Result<String, String>) -> Result<Seq<char>, Seq<char>> {
    match result {
        Ok(s) => Ok(s@),
        Err(s) => Err(s@),
    }
}

/// The help lines of the client's commands, each with the end of its line.
pub open spec fn client_help() -> Seq<Seq<char>> {
    client_commands_help(command::client_commands())
}

/// The help lines of `commands`, each with the end of its line.
pub open spec fn client_commands_help(commands: Seq<ClientChatCommand>) -> Seq<Seq<char>> {
    commands.map_values(|c: ClientChatCommand| c.help() + "\n"@)
}

/// The help lines of commands of the server, each with the end of its line.
pub open spec fn server_help(commands: Seq<ServerView>) -> Seq<Seq<char>> {
    commands.map_values(|c: ServerView| c.help + "\n"@)
}

/// For a command with a short keyword, how it is listed among the shortcuts.
pub open spec fn shortcut(c: ServerView) -> Seq<char> {
    match c.short_keyword {
        Some(k) => " /"@ + k + " => /"@ + c.keyword,
        None => Seq::empty(),
    }
}

/// The list of all the commands that the player may run, with their shortcuts.
pub open spec fn help_text(client: ClientView) -> Seq<char> {
    let usable = server::usable_by(client.commands, client.role);
    text::concatenated(client_help()) + text::concatenated(server_help(usable))
        + "Additionally, you can use the following shortcuts:"@ + text::concatenated(
        usable.map_values(|c: ServerView| shortcut(c)),
    )
}

/// The answer to `help`: the help line of the command of the server that the first argument
/// names, else the list of all the commands.
pub open spec fn help_reply(client: ClientView, args: Seq<Seq<char>>) -> Seq<char> {
    if args.len() > 0 {
        match server::server_named(client.commands, args[0]) {
            Some(i) => client.commands[i].help,
            None => help_text(client),
        }
    } else {
        help_text(client)
    }
}

/// Explains a command of the server, or lists the commands that the player may run.
#[verifier::loop_isolation(false)]
pub fn handle_help(client: &Client, args: &Vec<String>) -> (result: Result<String, String>)
    ensures
        reply(result) == Ok::<Seq<char>, Seq<char>>(
            help_reply(client.deep_view(), args.deep_view()),
        ),
{
    if args.len() > 0 {
        assert(args.deep_view()[0] == args@[0]@);
        if let Some(i) = ServerChatCommand::from_str(&client.commands, args[0].as_str()) {
            assert(client.deep_view().commands[i as int]
                == client.commands@[i as int].deep_view());
            return Ok(client.commands[i].help.clone());
        }
    }
    let mut message: String = String::new();
    let own = ClientChatCommand::iter();
    let ghost own_help = client_help();
    assert(own_help.take(0) =~= Seq::empty());
    for i in 0..own.len()
        invariant
            message@ == text::concatenated(own_help.take(i as int)),
    {
        let ghost before = message@;
        message.append(own[i].help_string().as_str());
        message.append("\n");
        proof {
            text::lemma_concatenated_push(own_help.take(i as int), own_help[i as int]);
            assert(own_help.take(i as int).push(own_help[i as int]) =~= own_help.take(i + 1));
            assert(message@ =~= before + own_help[i as int]);
        }
    }
    assert(own_help.take(own_help.len() as int) =~= own_help);
    // Iterate through all ServerChatCommands you have permission to use.
    let usable = ServerChatCommand::usable(&client.commands, client.role);
    let ghost all = usable.deep_view();
    let ghost helps = server_help(all);
    let ghost start = message@;
    assert(helps.take(0) =~= Seq::empty());
    assert(start + text::concatenated(helps.take(0)) =~= start);
    for i in 0..usable.len()
        invariant
            message@ == start + text::concatenated(helps.take(i as int)),
    {
        let ghost before = message@;
        assert(all[i as int] == usable@[i as int].deep_view());
        message.append(usable[i].help.as_str());
        message.append("\n");
        proof {
            text::lemma_concatenated_push(helps.take(i as int), helps[i as int]);
            assert(helps.take(i as int).push(helps[i as int]) =~= helps.take(i + 1));
            assert(message@ =~= before + helps[i as int]);
            assert(message@ =~= start + text::concatenated(helps.take(i + 1)));
        }
    }
    assert(helps.take(helps.len() as int) =~= helps);
    message.append("Additionally, you can use the following shortcuts:");
    let ghost shortcuts = all.map_values(|c: ServerView| shortcut(c));
    let ghost listed = message@;
    assert(shortcuts.take(0) =~= Seq::empty());
    assert(listed + text::concatenated(shortcuts.take(0)) =~= listed);
    for i in 0..usable.len()
        invariant
            message@ == listed + text::concatenated(shortcuts.take(i as int)),
    {
        let ghost before = message@;
        assert(all[i as int] == usable@[i as int].deep_view());
        if let Some(k) = &usable[i].short_keyword {
            message.append(" /");
            message.append(k.as_str());
            message.append(" => /");
            message.append(usable[i].keyword.as_str());
        }
        proof {
            text::lemma_concatenated_push(shortcuts.take(i as int), shortcuts[i as int]);
            assert(shortcuts.take(i as int).push(shortcuts[i as int]) =~= shortcuts.take(i + 1));
            assert(message@ =~= before + shortcuts[i as int]);
            assert(message@ =~= listed + text::concatenated(shortcuts.take(i + 1)));
        }
    }
    assert(shortcuts.take(shortcuts.len() as int) =~= shortcuts);
    Ok(message)
}

fn sentence(a: &str, b: &str, c: &str) -> (s: String)
    ensures
        s@ == a@ + b@ + c@,
{
    let mut s: String = a.to_owned();
    s.append(b);
    s.append(c);
    s
}

/// Whether this is the uuid of the player who sits at the client.
pub open spec fn is_me(client: ClientView, uuid: u128) -> bool {
    client.me() is Some && client.me()->0.uuid == uuid
}

fn check_me(client: &Client, uuid: u128) -> (yes: bool)
    ensures
        yes == is_me(client.deep_view(), uuid),
{
    match client.me() {
        Some(me) => me.uuid == uuid,
        None => false,
    }
}

/// What `mute` does to the list of muted players, and what it answers. A player who is muted
/// already is from then on listed under this alias.
pub open spec fn muted(
    client: ClientView,
    mutes: Map<u128, Seq<char>>,
    args: Seq<Seq<char>>,
) -> (Map<u128, Seq<char>>, Result<Seq<char>, Seq<char>>) {
    if args.len() == 0 {
        (mutes, Err("You must specify a player to mute."@))
    } else {
        let alias = args[0];
        match client.player_called(alias) {
            None => (mutes, Err("Could not find a player named "@ + alias)),
            Some(target) => if is_me(client, target.uuid) {
                (mutes, Err("You cannot mute yourself."@))
            } else if mutes.contains_key(target.uuid) {
                (mutes.insert(target.uuid, alias), Err(alias + " is already muted."@))
            } else {
                (
                    mutes.insert(target.uuid, alias),
                    Ok("Successfully muted player "@ + alias + "."@),
                )
            },
        }
    }
}

/// Mutes a player who is online.
pub fn handle_mute(client: &Client, global_state: &mut GlobalState, args: &Vec<String>) -> (result:
    Result<String, String>)
    ensures
        (final(global_state)@.mutes, reply(result)) == muted(
            client.deep_view(),
            old(global_state)@.mutes,
            args.deep_view(),
        ),
        final(global_state)@.shaders == old(global_state)@.shaders,
{
    let ghost mutes = global_state@.mutes;
    if args.len() == 0 {
        return Err("You must specify a player to mute.".to_owned());
    }
    let alias: &str = args[0].as_str();
    assert(args.deep_view()[0] == alias@);
    let target = match client.player_called(alias) {
        Some(target) => target,
        None => {
            let mut message: String = "Could not find a player named ".to_owned();
            message.append(alias);
            return Err(message);
        },
    };
    if check_me(client, target.uuid) {
        return Err("You cannot mute yourself.".to_owned());
    }
    let previous = global_state.mutelist.insert(target.uuid, alias.to_owned());
    assert(global_state@.mutes =~= mutes.insert(target.uuid, alias@));
    if previous.is_none() {
        Ok(sentence("Successfully muted player ", alias, "."))
    } else {
        let mut message: String = alias.to_owned();
        message.append(" is already muted.");
        Err(message)
    }
}

/// What `unmute` does to the list of muted players, and what it answers, where `found` is the
/// player whom it found under this alias.
pub open spec fn unmuted(
    client: ClientView,
    mutes: Map<u128, Seq<char>>,
    alias: Seq<char>,
    found: Option<u128>,
) -> (Map<u128, Seq<char>>, Result<Seq<char>, Seq<char>>) {
    match found {
        None => (mutes, Err("Could not find a muted player named "@ + alias + "."@)),
        Some(uuid) => if is_me(client, uuid) {
            (mutes, Err("You cannot unmute yourself."@))
        } else {
            (mutes.remove(uuid), Ok("Successfully unmuted player "@ + alias + "."@))
        },
    }
}

/// Whether `found` can be what is found when a player is looked for under `alias`.
pub open spec fn can_be_found(
    mutes: Map<u128, Seq<char>>,
    alias: Seq<char>,
    found: Option<u128>,
) -> bool {
    match found {
        Some(uuid) => mutes.contains_pair(uuid, alias),
        None => forall|uuid: u128| !mutes.contains_pair(uuid, alias),
    }
}

/// Unmutes the player who was found under an alias.
pub fn unmute_found(
    client: &Client,
    global_state: &mut GlobalState,
    alias: &str,
    found: Option<u128>,
) -> (result: Result<String, String>)
    ensures
        (final(global_state)@.mutes, reply(result)) == unmuted(
            client.deep_view(),
            old(global_state)@.mutes,
            alias@,
            found,
        ),
        final(global_state)@.shaders == old(global_state)@.shaders,
{
    let ghost mutes = global_state@.mutes;
    let uuid: u128 = match found {
        Some(uuid) => uuid,
        None => {
            return Err(sentence("Could not find a muted player named ", alias, "."));
        },
    };
    if check_me(client, uuid) {
        return Err("You cannot unmute yourself.".to_owned());
    }
    let _ = global_state.mutelist.remove(&uuid);
    assert(global_state@.mutes =~= mutes.remove(uuid));
    Ok(sentence("Successfully unmuted player ", alias, "."))
}

/// What `unmute` may do to the list of muted players and answer: which of several players under
/// one alias it finds is left open.
pub open spec fn may_unmute(
    client: ClientView,
    mutes: Map<u128, Seq<char>>,
    args: Seq<Seq<char>>,
    outcome: (Map<u128, Seq<char>>, Result<Seq<char>, Seq<char>>),
) -> bool {
    if args.len() == 0 {
        outcome == (mutes, Err::<Seq<char>, Seq<char>>("You must specify a player to unmute."@))
    } else {
        exists|found: Option<u128>|
            #[trigger] can_be_found(mutes, args[0], found) && outcome == unmuted(
                client,
                mutes,
                args[0],
                found,
            )
    }
}

/// Unmutes a player.
// Note that we don't care if this is a real player, so that it's possible
// to unmute someone when they're offline
pub fn handle_unmute(client: &Client, global_state: &mut GlobalState, args: &Vec<String>) -> (
    result: Result<String, String>)
    ensures
        may_unmute(
            client.deep_view(),
            old(global_state)@.mutes,
            args.deep_view(),
            (final(global_state)@.mutes, reply(result)),
        ),
        final(global_state)@.shaders == old(global_state)@.shaders,
{
    if args.len() == 0 {
        return Err("You must specify a player to unmute.".to_owned());
    }
    let alias: &str = args[0].as_str();
    assert(args.deep_view()[0] == alias@);
    let found: Option<u128> = state::find_muted(&global_state.mutelist, alias);
    assert(can_be_found(global_state@.mutes, alias@, found));
    unmute_found(client, global_state, alias, found)
}

/// The place of the experimental shader with this name.
pub open spec fn shader_named(shaders: Seq<Seq<char>>, name: Seq<char>) -> Option<usize> {
    let at = text::place_of(shaders, name);
    if at < shaders.len() {
        Some(at as usize)
    } else {
        None
    }
}

/// The line of a shader in the list of the shaders.
pub open spec fn shader_line(name: Seq<char>, active: bool) -> Seq<char> {
    if active {
        "[x] "@ + name
    } else {
        "[  ] "@ + name
    }
}

/// The lines of the shaders.
pub open spec fn shader_lines(shaders: Seq<Seq<char>>, active: Set<usize>) -> Seq<Seq<char>> {
    shaders.map(|i: int, name: Seq<char>| shader_line(name, active.contains(i as usize)))
}

/// What `experimental_shader` does to the set of the shaders that are switched on, and what it
/// answers: without an argument it lists the shaders, with the name of one it switches that one
/// on or off.
pub open spec fn shader_switched(
    shaders: Seq<Seq<char>>,
    active: Set<usize>,
    args: Seq<Seq<char>>,
) -> (Set<usize>, Result<Seq<char>, Seq<char>>) {
    if args.len() == 0 {
        if shaders.len() == 0 {
            (active, Err("There are no experimental shaders."@))
        } else {
            (active, Ok(text::joined(shader_lines(shaders, active), "\n"@)))
        }
    } else {
        match shader_named(shaders, args[0]) {
            None => (
                active,
                Err(
                    args[0]
                        + " is not an expermimental shader, use this command with any arguments to see a complete list."@,
                ),
            ),
            Some(i) => if active.contains(i) {
                (active.remove(i), Ok("Disabled "@ + args[0] + "."@))
            } else {
                (active.insert(i), Ok("Enabled "@ + args[0] + "."@))
            },
        }
    }
}

#[verifier::loop_isolation(false)]
fn find_shader(shaders: &Vec<String>, name: &str) -> (at: Option<usize>)
    ensures
        at == shader_named(shaders.deep_view(), name@),
{
    let ghost names = shaders.deep_view();
    assert(names.skip(0) =~= names);
    for i in 0..shaders.len()
        invariant
            text::place_of(names, name@) == i + text::place_of(names.skip(i as int), name@),
    {
        assert(names.skip(i as int).drop_first() =~= names.skip(i + 1));
        assert(names.skip(i as int)[0] == shaders@[i as int]@);
        if text::same_text(shaders[i].as_str(), name) {
            return Some(i);
        }
    }
    None
}

/// Lists the experimental shaders, or switches one of them on or off.
#[verifier::loop_isolation(false)]
pub fn handle_experimental_shader(
    client: &Client,
    global_state: &mut GlobalState,
    args: &Vec<String>,
) -> (result: Result<String, String>)
    ensures
        (final(global_state)@.shaders, reply(result)) == shader_switched(
            client.deep_view().shaders,
            old(global_state)@.shaders,
            args.deep_view(),
        ),
        final(global_state)@.mutes == old(global_state)@.mutes,
{
    let ghost shaders = client.deep_view().shaders;
    let ghost active = global_state@.shaders;
    if args.len() == 0 {
        if client.shaders.len() == 0 {
            return Err("There are no experimental shaders.".to_owned());
        }
        let mut lines: Vec<String> = Vec::new();
        for i in 0..client.shaders.len()
            invariant
                lines@.len() == i,
                forall|j: int|
                    0 <= j < i ==> (#[trigger] lines@[j])@ == shader_lines(shaders, active)[j],
        {
            let is_active: bool = global_state.experimental_shaders.contains(&i);
            let mut line: String = if is_active { "[x] ".to_owned() } else { "[  ] ".to_owned() };
            line.append(client.shaders[i].as_str());
            assert(line@ == shader_lines(shaders, active)[i as int]);
            lines.push(line);
        }
        assert(lines.deep_view() =~= shader_lines(shaders, active));
        return Ok(text::join(&lines, "\n"));
    }
    let item: &str = args[0].as_str();
    assert(args.deep_view()[0] == item@);
    match find_shader(&client.shaders, item) {
        Some(shader) => {
            if global_state.experimental_shaders.remove(&shader) {
                Ok(sentence("Disabled ", item, "."))
            } else {
                let _ = global_state.experimental_shaders.insert(shader);
                assert(global_state@.shaders =~= active.insert(shader));
                Ok(sentence("Enabled ", item, "."))
            }
        },
        None => {
            let mut message: String = item.to_owned();
            message.append(
                " is not an expermimental shader, use this command with any arguments to see a complete list.",
            );
            Err(message)
        },
    }
}

/// Unmuting takes back a mute: where nobody else is muted under the alias, a player who was
/// muted can be unmuted under it, and then the list of muted players is what it was.
pub proof fn law_unmute_takes_back_mute(
    client: ClientView,
    mutes: Map<u128, Seq<char>>,
    args: Seq<Seq<char>>,
    outcome: (Map<u128, Seq<char>>, Result<Seq<char>, Seq<char>>),
)
    requires
        args.len() > 0,
        muted(client, mutes, args).1 is Ok,
        forall|uuid: u128| !mutes.contains_pair(uuid, args[0]),
        may_unmute(client, muted(client, mutes, args).0, args, outcome),
    ensures
        outcome.0 == mutes,
        outcome.1 == Ok::<Seq<char>, Seq<char>>(
            "Successfully unmuted player "@ + args[0] + "."@,
        ),
{
    law_unmute_works_offline(client, client, mutes, args, outcome);
}

/// Unmuting takes back a mute whoever is online by then: the muted player may have left, or go by
/// another alias. It is enough that it is not the muted player who sits at the client.
pub proof fn law_unmute_works_offline(
    client: ClientView,
    later: ClientView,
    mutes: Map<u128, Seq<char>>,
    args: Seq<Seq<char>>,
    outcome: (Map<u128, Seq<char>>, Result<Seq<char>, Seq<char>>),
)
    requires
        args.len() > 0,
        muted(client, mutes, args).1 is Ok,
        forall|uuid: u128| !mutes.contains_pair(uuid, args[0]),
        client.player_called(args[0]) matches Some(target) ==> !is_me(later, target.uuid),
        may_unmute(later, muted(client, mutes, args).0, args, outcome),
    ensures
        outcome.0 == mutes,
        outcome.1 == Ok::<Seq<char>, Seq<char>>(
            "Successfully unmuted player "@ + args[0] + "."@,
        ),
{
    let target = client.player_called(args[0])->0;
    let after = muted(client, mutes, args).0;
    assert(after.contains_pair(target.uuid, args[0]));
    let found = choose|found: Option<u128>| #[trigger]
        can_be_found(after, args[0], found) && outcome == unmuted(later, after, args[0], found);
    assert(found is Some);
    let uuid = found->0;
    if uuid != target.uuid {
        assert(mutes.contains_pair(uuid, args[0]));
    }
    assert(after.remove(uuid) =~= mutes);
}

/// Muting somebody who has just been muted is refused, and changes nothing.
pub proof fn law_mute_is_refused_the_second_time(
    client: ClientView,
    mutes: Map<u128, Seq<char>>,
    args: Seq<Seq<char>>,
)
    requires
        muted(client, mutes, args).1 is Ok,
    ensures
        muted(client, muted(client, mutes, args).0, args) == (
            muted(client, mutes, args).0,
            Err::<Seq<char>, Seq<char>>(args[0] + " is already muted."@),
        ),
{
    let target = client.player_called(args[0])->0;
    let after = muted(client, mutes, args).0;
    assert(after.insert(target.uuid, args[0]) =~= after);
}

/// Nobody mutes or unmutes themselves: `mute` and `unmute` leave the entry of the player who
/// sits at the client as it is.
pub proof fn law_own_entry_is_kept(
    client: ClientView,
    mutes: Map<u128, Seq<char>>,
    args: Seq<Seq<char>>,
    outcome: (Map<u128, Seq<char>>, Result<Seq<char>, Seq<char>>),
    uuid: u128,
)
    requires
        is_me(client, uuid),
        outcome == muted(client, mutes, args) || may_unmute(client, mutes, args, outcome),
    ensures
        outcome.0.contains_key(uuid) == mutes.contains_key(uuid),
        mutes.contains_key(uuid) ==> outcome.0[uuid] == mutes[uuid],
{
}

/// Whoever `mute` and `unmute` are about, everybody else stays as they are: at most one entry of
/// the list differs.
pub proof fn law_one_entry_changes(
    client: ClientView,
    mutes: Map<u128, Seq<char>>,
    args: Seq<Seq<char>>,
    outcome: (Map<u128, Seq<char>>, Result<Seq<char>, Seq<char>>),
)
    requires
        outcome == muted(client, mutes, args) || may_unmute(client, mutes, args, outcome),
    ensures
        exists|changed: u128| #[trigger] mutes.remove(changed) == outcome.0.remove(changed),
{
    if outcome == muted(client, mutes, args) {
        if args.len() > 0 && client.player_called(args[0]) is Some {
            let uuid = client.player_called(args[0])->0.uuid;
            assert(mutes.remove(uuid) =~= outcome.0.remove(uuid));
        } else {
            assert(mutes.remove(0) == outcome.0.remove(0));
        }
    } else if args.len() == 0 {
        assert(mutes.remove(0) == outcome.0.remove(0));
    } else {
        let found = choose|found: Option<u128>| #[trigger]
            can_be_found(mutes, args[0], found) && outcome == unmuted(
                client,
                mutes,
                args[0],
                found,
            );
        match found {
            Some(uuid) => {
                assert(mutes.remove(uuid) =~= outcome.0.remove(uuid));
            },
            None => {
                assert(mutes.remove(0) == outcome.0.remove(0));
            },
        }
    }
}

/// Switching a shader twice leaves every shader as it was.
pub proof fn law_second_switch_takes_back_the_first(
    shaders: Seq<Seq<char>>,
    active: Set<usize>,
    args: Seq<Seq<char>>,
)
    ensures
        shader_switched(shaders, shader_switched(shaders, active, args).0, args).0 == active,
{
    let once = shader_switched(shaders, active, args).0;
    assert(shader_switched(shaders, once, args).0 =~= active);
}

/// Switching a shader changes that shader alone.
pub proof fn law_other_shaders_stay(
    shaders: Seq<Seq<char>>,
    active: Set<usize>,
    args: Seq<Seq<char>>,
    other: usize,
)
    requires
        args.len() > 0 ==> shader_named(shaders, args[0]) != Some(other),
    ensures
        shader_switched(shaders, active, args).0.contains(other) == active.contains(other),
{
}

} // verus!
