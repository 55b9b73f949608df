use vstd::prelude::*;

use crate::client;
use crate::client::ClientView;
use crate::command::{AdminRole, ArgumentSpec, ClientChatCommand, Requirement};
use crate::foreign;
use crate::handlers;
use crate::preprocess;
use crate::preprocess::Walk;
use crate::run;
use crate::run::ServerRequest;
use crate::server;
use crate::server::{ChatCommandKind, ServerChatCommand, ServerView};
use crate::state::GlobalView;
use crate::target::{EntityContext, PREFIX};
use crate::text;

verus! {

/// `mute` without a player, or with the name of nobody, is refused and changes nothing.
pub proof fn law_mute_needs_a_player(
    client: ClientView,
    args: Seq<Seq<char>>,
    before: GlobalView,
    after: GlobalView,
    answer: Result<Seq<char>, Seq<char>>,
)
    requires
        run::may_run(client, ClientChatCommand::Mute, args, before, after, answer),
        args.len() == 0 || forall|j: int|
            0 <= j < client.players.len() ==> (#[trigger] client.players[j]).alias != args[0],
    ensures
        after == before,
        answer == Err::<Seq<char>, Seq<char>>(
            if args.len() == 0 {
                "You must specify a player to mute."@
            } else {
                "Could not find a player named "@ + args[0]
            },
        ),
{
    if args.len() > 0 {
        client::law_player_is_found_by_alias(client, args[0]);
    }
}

/// `mute` mutes the first player with the alias, who stands at `p`, where no entry with the uid of
/// the client has that player's uuid: they are listed under the alias from then on, nobody else's
/// entry changes, and the answer is a success exactly if they were not muted before.
pub proof fn law_mute_mutes_the_player(
    client: ClientView,
    args: Seq<Seq<char>>,
    before: GlobalView,
    after: GlobalView,
    answer: Result<Seq<char>, Seq<char>>,
    p: int,
)
    requires
        run::may_run(client, ClientChatCommand::Mute, args, before, after, answer),
        args.len() > 0,
        0 <= p < client.players.len(),
        client.players[p].alias == args[0],
        forall|j: int| 0 <= j < p ==> (#[trigger] client.players[j]).alias != args[0],
        forall|j: int|
            0 <= j < client.players.len() && client.uid == Some((#[trigger] client.players[j]).uid)
                ==> client.players[j].uuid != client.players[p].uuid,
    ensures
        after.mutes.contains_key(client.players[p].uuid),
        after.mutes[client.players[p].uuid] == args[0],
        forall|u: u128|
            u != client.players[p].uuid ==> (#[trigger] after.mutes.contains_key(u)
                == before.mutes.contains_key(u)) && (before.mutes.contains_key(u)
                ==> after.mutes[u] == before.mutes[u]),
        after.shaders == before.shaders,
        answer is Ok <==> !before.mutes.contains_key(client.players[p].uuid),
        answer matches Ok(s) ==> s == "Successfully muted player "@ + args[0] + "."@,
        answer matches Err(s) ==> s == args[0] + " is already muted."@,
{
    client::law_player_is_found_by_alias(client, args[0]);
    client::law_own_entry_has_the_uid(client);
    lemma_first_player(client, args[0], p);
}

/// Nobody mutes themselves: where the first player with the alias has the uuid of the first entry
/// with the uid of the client, `mute` is refused and changes nothing.
pub proof fn law_mute_spares_oneself(
    client: ClientView,
    args: Seq<Seq<char>>,
    before: GlobalView,
    after: GlobalView,
    answer: Result<Seq<char>, Seq<char>>,
    p: int,
    own: int,
)
    requires
        run::may_run(client, ClientChatCommand::Mute, args, before, after, answer),
        args.len() > 0,
        0 <= p < client.players.len(),
        client.players[p].alias == args[0],
        forall|j: int| 0 <= j < p ==> (#[trigger] client.players[j]).alias != args[0],
        0 <= own < client.players.len(),
        client.uid == Some(client.players[own].uid),
        forall|j: int| 0 <= j < own ==> client.uid != Some((#[trigger] client.players[j]).uid),
        client.players[own].uuid == client.players[p].uuid,
    ensures
        after == before,
        answer == Err::<Seq<char>, Seq<char>>("You cannot mute yourself."@),
{
    lemma_first_player(client, args[0], p);
    lemma_own_entry(client, own);
}

proof fn lemma_first_player(client: ClientView, alias: Seq<char>, p: int)
    requires
        0 <= p < client.players.len(),
        client.players[p].alias == alias,
        forall|j: int| 0 <= j < p ==> (#[trigger] client.players[j]).alias != alias,
    ensures
        client.player_called(alias) == Some(client.players[p]),
{
    client::law_player_is_found_by_alias(client, alias);
    let found = client.player_called(alias)->0;
    if client.player_called(alias) is Some {
        let i = choose|i: int|
            0 <= i < client.players.len() && #[trigger] client.players[i] == found && found.alias
                == alias && forall|j: int|
                0 <= j < i ==> (#[trigger] client.players[j]).alias != alias;
        assert(client.players[i].alias == alias);
        assert(i == p) by {
            if p < i {
                assert(client.players[p].alias != alias);
            }
        }
    } else {
        assert(client.players[p].alias != alias);
    }
}

proof fn lemma_own_entry(client: ClientView, own: int)
    requires
        0 <= own < client.players.len(),
        client.uid == Some(client.players[own].uid),
        forall|j: int| 0 <= j < own ==> client.uid != Some((#[trigger] client.players[j]).uid),
    ensures
        client.me() == Some(client.players[own]),
{
    client::law_own_entry_has_the_uid(client);
    if client.me() is Some {
        let found = client.me()->0;
        let i = choose|i: int|
            0 <= i < client.players.len() && #[trigger] client.players[i] == found && forall|j: int|
                0 <= j < i ==> client.uid != Some((#[trigger] client.players[j]).uid);
        assert(i == own) by {
            if own < i {
                assert(client.uid != Some(client.players[own].uid));
            }
        }
    } else {
        assert(client.uid != Some(client.players[own].uid));
    }
}

/// `unmute` without an alias, or with one under which nobody is muted, is refused and changes
/// nothing, whoever is online.
pub proof fn law_unmute_needs_a_muted_player(
    client: ClientView,
    args: Seq<Seq<char>>,
    before: GlobalView,
    after: GlobalView,
    answer: Result<Seq<char>, Seq<char>>,
)
    requires
        run::may_run(client, ClientChatCommand::Unmute, args, before, after, answer),
        args.len() == 0 || forall|u: u128| #[trigger]
            before.mutes.contains_key(u) ==> before.mutes[u] != args[0],
    ensures
        after == before,
        answer == Err::<Seq<char>, Seq<char>>(
            if args.len() == 0 {
                "You must specify a player to unmute."@
            } else {
                "Could not find a muted player named "@ + args[0] + "."@
            },
        ),
{
}

/// Where somebody is muted under the alias, and nobody who is has the uuid of an entry with the
/// uid of the client, `unmute` succeeds: one of those muted under the alias is so no longer, and
/// nobody else's entry changes.
pub proof fn law_unmute_unmutes_a_player(
    client: ClientView,
    args: Seq<Seq<char>>,
    before: GlobalView,
    after: GlobalView,
    answer: Result<Seq<char>, Seq<char>>,
    holder: u128,
)
    requires
        run::may_run(client, ClientChatCommand::Unmute, args, before, after, answer),
        args.len() > 0,
        before.mutes.contains_key(holder),
        before.mutes[holder] == args[0],
        forall|j: int|
            0 <= j < client.players.len() && client.uid == Some((#[trigger] client.players[j]).uid)
                ==> !(before.mutes.contains_key(client.players[j].uuid)
                && before.mutes[client.players[j].uuid] == args[0]),
    ensures
        answer == Ok::<Seq<char>, Seq<char>>("Successfully unmuted player "@ + args[0] + "."@),
        exists|u: u128|
            #![trigger before.mutes.contains_key(u)]
            before.mutes.contains_key(u) && before.mutes[u] == args[0]
                && !after.mutes.contains_key(u) && forall|v: u128|
                v != u ==> (#[trigger] after.mutes.contains_key(v) == before.mutes.contains_key(v))
                    && (before.mutes.contains_key(v) ==> after.mutes[v] == before.mutes[v]),
        after.shaders == before.shaders,
{
    client::law_own_entry_has_the_uid(client);
    assert(before.mutes.contains_pair(holder, args[0]));
    let outcome = (after.mutes, answer);
    let found = choose|found: Option<u128>| #[trigger]
        handlers::can_be_found(before.mutes, args[0], found) && outcome == handlers::unmuted(
            client,
            before.mutes,
            args[0],
            found,
        );
    assert(found is Some);
    let u = found->0;
    assert(before.mutes.contains_key(u) && before.mutes[u] == args[0]);
}

/// Nobody unmutes themselves: where the only one muted under the alias has the uuid of the first
/// entry with the uid of the client, `unmute` is refused and changes nothing.
pub proof fn law_unmute_spares_oneself(
    client: ClientView,
    args: Seq<Seq<char>>,
    before: GlobalView,
    after: GlobalView,
    answer: Result<Seq<char>, Seq<char>>,
    own: int,
)
    requires
        run::may_run(client, ClientChatCommand::Unmute, args, before, after, answer),
        args.len() > 0,
        0 <= own < client.players.len(),
        client.uid == Some(client.players[own].uid),
        forall|j: int| 0 <= j < own ==> client.uid != Some((#[trigger] client.players[j]).uid),
        before.mutes.contains_key(client.players[own].uuid),
        before.mutes[client.players[own].uuid] == args[0],
        forall|u: u128| #[trigger]
            before.mutes.contains_key(u) && before.mutes[u] == args[0] ==> u
                == client.players[own].uuid,
    ensures
        after == before,
        answer == Err::<Seq<char>, Seq<char>>("You cannot unmute yourself."@),
{
    lemma_own_entry(client, own);
    assert(before.mutes.contains_pair(client.players[own].uuid, args[0]));
    let outcome = (after.mutes, answer);
    let found = choose|found: Option<u128>| #[trigger]
        handlers::can_be_found(before.mutes, args[0], found) && outcome == handlers::unmuted(
            client,
            before.mutes,
            args[0],
            found,
        );
    assert(found is Some);
    assert(before.mutes.contains_key(found->0));
}

/// `experimental_shader` with the name of the shader at `i`, which none before it has, switches
/// that shader: it is on afterwards exactly if it was off before, no other one changes, and the
/// answer is a success that says which of the two was done.
pub proof fn law_named_shader_is_switched(
    client: ClientView,
    args: Seq<Seq<char>>,
    before: GlobalView,
    after: GlobalView,
    answer: Result<Seq<char>, Seq<char>>,
    i: usize,
)
    requires
        run::may_run(client, ClientChatCommand::ExperimentalShader, args, before, after, answer),
        args.len() > 0,
        i < client.shaders.len(),
        client.shaders[i as int] == args[0],
        forall|j: int| 0 <= j < i ==> (#[trigger] client.shaders[j]) != args[0],
    ensures
        after.shaders.contains(i) <==> !before.shaders.contains(i),
        forall|other: usize|
            other != i ==> (#[trigger] after.shaders.contains(other) <==> before.shaders.contains(
                other,
            )),
        after.mutes == before.mutes,
        answer == Ok::<Seq<char>, Seq<char>>(
            if after.shaders.contains(i) {
                "Enabled "@ + args[0] + "."@
            } else {
                "Disabled "@ + args[0] + "."@
            },
        ),
{
    text::lemma_place_of(client.shaders, args[0]);
    let at = text::place_of(client.shaders, args[0]) as int;
    assert(at <= i) by {
        if i < at {
            assert(client.shaders[i as int] != args[0]);
        }
    }
    assert(client.shaders[at] == args[0]);
    assert(at == i);
}

/// `experimental_shader` is refused exactly for a name that no shader has, and for the list where
/// there are no shaders; it changes nothing then.
pub proof fn law_unknown_shader_is_refused(
    client: ClientView,
    args: Seq<Seq<char>>,
    before: GlobalView,
    after: GlobalView,
    answer: Result<Seq<char>, Seq<char>>,
)
    requires
        run::may_run(client, ClientChatCommand::ExperimentalShader, args, before, after, answer),
    ensures
        answer is Err <==> if args.len() == 0 {
            client.shaders.len() == 0
        } else {
            forall|i: int| 0 <= i < client.shaders.len() ==> #[trigger] client.shaders[i] != args[0]
        },
        answer is Err ==> after == before,
        answer matches Err(s) ==> s == (if args.len() == 0 {
            "There are no experimental shaders."@
        } else {
            args[0]
                + " is not an expermimental shader, use this command with any arguments to see a complete list."@
        }),
{
    if args.len() > 0 {
        text::lemma_place_of(client.shaders, args[0]);
    }
}

/// `experimental_shader` without a name lists every shader on a line of its own, those that are
/// switched on with a mark, and changes nothing.
pub proof fn law_all_shaders_are_listed(
    client: ClientView,
    args: Seq<Seq<char>>,
    before: GlobalView,
    after: GlobalView,
    answer: Result<Seq<char>, Seq<char>>,
)
    requires
        run::may_run(client, ClientChatCommand::ExperimentalShader, args, before, after, answer),
        args.len() == 0,
        client.shaders.len() > 0,
    ensures
        after == before,
        answer == Ok::<Seq<char>, Seq<char>>(
            text::joined(
                Seq::new(
                    client.shaders.len(),
                    |i: int|
                        (if before.shaders.contains(i as usize) {
                            "[x] "@
                        } else {
                            "[  ] "@
                        }) + client.shaders[i],
                ),
                "\n"@,
            ),
        ),
{
    let lines = Seq::new(
        client.shaders.len(),
        |i: int|
            (if before.shaders.contains(i as usize) {
                "[x] "@
            } else {
                "[  ] "@
            }) + client.shaders[i],
    );
    assert(handlers::shader_lines(client.shaders, before.shaders) =~= lines);
}

/// `help` always succeeds and changes nothing. With the name of a command of the server it gives
/// that command's help, whatever the player's role; any other argument makes no difference, and
/// neither do those behind the first.
pub proof fn law_help_explains_the_command(
    client: ClientView,
    args: Seq<Seq<char>>,
    before: GlobalView,
    after: GlobalView,
    answer: Result<Seq<char>, Seq<char>>,
)
    requires
        run::may_run(client, ClientChatCommand::Help, args, before, after, answer),
    ensures
        after == before,
        args.len() > 0 ==> (server::server_named(client.commands, args[0]) matches Some(i)
            ==> answer == Ok::<Seq<char>, Seq<char>>(client.commands[i].help)),
        args.len() == 0 || server::server_named(client.commands, args[0]) is None ==> answer == Ok::<
            Seq<char>,
            Seq<char>,
        >(handlers::help_text(client)),
{
}

/// The list that `help` gives is made of the help of the client's commands, the help of commands
/// of the server, a line about shortcuts, and the shortcuts. It goes through the commands of the
/// server in their order: the list for a table of commands and one command more is the list for
/// the table with that command's help line behind the others and its shortcut, if it has one, at
/// the end, where no role is needed for it, the player has the one that is needed, or the
/// highest; else it is the same list.
pub proof fn law_help_lists_what_may_be_run(client: ClientView, c: ServerView)
    ensures
        handlers::help_text(ClientView { commands: Seq::empty(), ..client }) == own_help()
            + "Additionally, you can use the following shortcuts:"@,
        exists|lines: Seq<char>, shortcuts: Seq<char>|
            {
                let more = ClientView { commands: client.commands.push(c), ..client };
                let mine = c.needs_role is None || client.role == c.needs_role || client.role
                    == Some(AdminRole::Admin);
                &&& #[trigger] listing(lines, shortcuts) == handlers::help_text(client)
                &&& handlers::help_text(more) == if !mine {
                    listing(lines, shortcuts)
                } else {
                    listing(
                        lines + c.help + "\n"@,
                        match c.short_keyword {
                            Some(k) => shortcuts + " /"@ + k + " => /"@ + c.keyword,
                            None => shortcuts,
                        },
                    )
                }
            },
{
    let usable = server::usable_by(client.commands, client.role);
    let lines = text::concatenated(handlers::server_help(usable));
    let cuts = |c: ServerView| handlers::shortcut(c);
    let shortcuts = text::concatenated(usable.map_values(cuts));
    let more = ClientView { commands: client.commands.push(c), ..client };
    let none = ClientView { commands: Seq::empty(), ..client };
    lemma_own_help();
    server::law_usable_in_order(client.commands, seq![c], client.role, c);
    assert(client.commands + seq![c] =~= client.commands.push(c));
    let usable_more = server::usable_by(more.commands, client.role);
    if usable_more.len() > usable.len() {
        assert(usable_more =~= usable.push(c));
        text::lemma_concatenated_push(handlers::server_help(usable), c.help + "\n"@);
        assert(handlers::server_help(usable_more) =~= handlers::server_help(usable).push(
            c.help + "\n"@,
        ));
        text::lemma_concatenated_push(usable.map_values(cuts), handlers::shortcut(c));
        assert(usable_more.map_values(cuts) =~= usable.map_values(cuts).push(
            handlers::shortcut(c),
        ));
        let new_lines = lines + c.help + "\n"@;
        assert(text::concatenated(handlers::server_help(usable_more)) =~= new_lines);
        let new_shortcuts = match c.short_keyword {
            Some(k) => shortcuts + " /"@ + k + " => /"@ + c.keyword,
            None => shortcuts,
        };
        assert(text::concatenated(usable_more.map_values(cuts)) =~= new_shortcuts);
        assert(handlers::help_text(more) == listing(new_lines, new_shortcuts));
    } else {
        assert(usable_more =~= usable);
        assert(handlers::help_text(more) == listing(lines, shortcuts));
    }
    assert(listing(lines, shortcuts) == handlers::help_text(client));
    assert(server::usable_by(none.commands, client.role) =~= Seq::empty());
    assert(handlers::server_help(Seq::empty()) =~= Seq::empty());
    assert(Seq::<ServerView>::empty().map_values(cuts) =~= Seq::empty());
    assert(handlers::help_text(none) =~= own_help()
        + "Additionally, you can use the following shortcuts:"@);
}

/// The help of the client's commands, each on a line of its own.
pub open spec fn own_help() -> Seq<char> {
    ClientChatCommand::ExperimentalShader.help() + "\n"@ + ClientChatCommand::Help.help() + "\n"@
        + ClientChatCommand::Mute.help() + "\n"@ + ClientChatCommand::Unmute.help() + "\n"@
}

/// A list with these help lines of commands of the server and these shortcuts.
pub open spec fn listing(lines: Seq<char>, shortcuts: Seq<char>) -> Seq<char> {
    own_help() + lines + "Additionally, you can use the following shortcuts:"@ + shortcuts
}

proof fn lemma_own_help()
    ensures
        text::concatenated(handlers::client_help()) == own_help(),
{
    let all = handlers::client_help();
    let a = ClientChatCommand::ExperimentalShader.help() + "\n"@;
    let b = ClientChatCommand::Help.help() + "\n"@;
    let c = ClientChatCommand::Mute.help() + "\n"@;
    let d = ClientChatCommand::Unmute.help() + "\n"@;
    let e = Seq::<Seq<char>>::empty();
    assert(all =~= e.push(a).push(b).push(c).push(d));
    text::lemma_concatenated_push(e, a);
    text::lemma_concatenated_push(e.push(a), b);
    text::lemma_concatenated_push(e.push(a).push(b), c);
    text::lemma_concatenated_push(e.push(a).push(b).push(c), d);
    assert(text::concatenated(all) =~= own_help());
}

/// Every help line of a command that the player may run is one of the lines of the list, every
/// other one is not, unless a command that the player may run has the same help.
pub proof fn law_help_line_is_listed(client: ClientView, c: ServerView)
    requires
        client.commands.contains(c),
    ensures
        handlers::server_help(server::usable_by(client.commands, client.role)).contains(
            c.help + "\n"@,
        ) <==> exists|d: ServerView|
            #[trigger] client.commands.contains(d) && d.help + "\n"@ == c.help + "\n"@ && (
            d.needs_role is None || client.role == d.needs_role || client.role == Some(
                AdminRole::Admin,
            )),
        c.needs_role is None || client.role == c.needs_role || client.role == Some(AdminRole::Admin)
            ==> handlers::server_help(
            server::usable_by(client.commands, client.role),
        ).contains(c.help + "\n"@),
{
    let usable = server::usable_by(client.commands, client.role);
    let lines = handlers::server_help(usable);
    if lines.contains(c.help + "\n"@) {
        let i = lines.index_of(c.help + "\n"@);
        let d = usable[i];
        assert(usable.contains(d));
        server::law_usable_commands(client.commands, client.role, d);
        assert(client.commands.contains(d));
    }
    assert forall|d: ServerView| #[trigger]
        client.commands.contains(d) && d.help + "\n"@ == c.help + "\n"@ && (d.needs_role is None
            || client.role == d.needs_role || client.role == Some(
            AdminRole::Admin,
        )) implies lines.contains(c.help + "\n"@) by {
        server::law_usable_commands(client.commands, client.role, d);
        let i = usable.index_of(d);
        assert(lines[i] == c.help + "\n"@);
    }
}

/// What is suggested comes from the keywords of the server's commands that the player may run,
/// in their order, and then all the keywords of the client.
pub proof fn law_keywords_in_order(client: ClientView, c: ServerView)
    ensures
        run::usable_keywords(ClientView { commands: Seq::empty(), ..client }) == seq![
            "experimental_shader"@,
            "help"@,
            "mute"@,
            "unmute"@,
        ],
        run::usable_keywords(ClientView { commands: seq![c] + client.commands, ..client }) == (
        if c.needs_role is None || client.role == c.needs_role || client.role == Some(
            AdminRole::Admin,
        ) {
            seq![c.keyword] + run::usable_keywords(client)
        } else {
            run::usable_keywords(client)
        }),
{
    let keyword = |c: ServerView| c.keyword;
    server::law_usable_in_order(seq![c], client.commands, client.role, c);
    let usable = server::usable_by(client.commands, client.role);
    let first = server::usable_by(seq![c], client.role);
    assert(server::keywords(first + usable) =~= server::keywords(first) + server::keywords(usable));
    assert(first.len() == 1 ==> server::keywords(first) =~= seq![c.keyword]);
    assert(first.len() == 0 ==> server::keywords(first) =~= Seq::empty());
    let more = ClientView { commands: seq![c] + client.commands, ..client };
    assert(run::usable_keywords(more) =~= server::keywords(first) + run::usable_keywords(client));
    assert(first.len() == 0 ==> run::usable_keywords(more) =~= run::usable_keywords(client));
    let none = ClientView { commands: Seq::empty(), ..client };
    assert(run::usable_keywords(none) =~= seq![
        "experimental_shader"@,
        "help"@,
        "mute"@,
        "unmute"@,
    ]);
}

/// The answer to the name of a command that there is not holds the name that was typed, the
/// keyword that is as close to it as any, first among equals, and behind it, each on a line of
/// its own and in their order, the others that begin with what was typed.
pub proof fn law_answer_holds_the_suggestions(client: ClientView, name: Seq<char>, best: int)
    requires
        0 <= best < run::usable_keywords(client).len(),
        forall|i: int|
            0 <= i < run::usable_keywords(client).len() ==> foreign::edit_distance(
                name,
                run::usable_keywords(client)[best],
            ) <= foreign::edit_distance(name, #[trigger] run::usable_keywords(client)[i]),
        forall|i: int|
            0 <= i < best ==> foreign::edit_distance(name, run::usable_keywords(client)[best])
                < foreign::edit_distance(name, #[trigger] run::usable_keywords(client)[i]),
    ensures
        ({
            let keywords = run::usable_keywords(client);
            let others = keywords.filter(
                |k: Seq<char>| name.is_prefix_of(k) && k != keywords[best],
            ).map_values(|k: Seq<char>| "\n/"@ + k);
            run::invalid_message(client, name) == "Could not find a command named "@ + name
                + ". Did you mean any of the following? \n/"@ + keywords[best] + " "@
                + text::concatenated(others) + " \n\nType /help to see a list of all commands."@
        }),
{
    let keywords = run::usable_keywords(client);
    run::law_suggestion_is_closest(client, name);
    let at = run::closest(keywords, name);
    assert(at == best) by {
        if at < best {
            assert(foreign::edit_distance(name, keywords[best]) < foreign::edit_distance(
                name,
                keywords[at],
            ));
        }
        if best < at {
            assert(foreign::edit_distance(name, keywords[at]) < foreign::edit_distance(
                name,
                keywords[best],
            ));
        }
    }
    let wanted = |k: Seq<char>| name.is_prefix_of(k) && k != keywords[best];
    assert(wanted =~= run::meant(name, keywords[best]));
    let prefix = |k: Seq<char>| "\n/"@ + k;
    assert(keywords.filter(wanted).map_values(prefix) =~= text::prefixed(
        keywords.filter(wanted),
        "\n/"@,
    ));
}

/// The feedback is the message itself: what a command of the client answers is shown as it is,
/// an error as an error.
pub proof fn law_feedback_is_the_message(s: String, answer: Seq<char>)
    ensures
        run::feedback(Ok(Some(s))) == Ok::<Option<Seq<char>>, Seq<char>>(Some(s@)),
        run::feedback(Ok(None)) == Ok::<Option<Seq<char>>, Seq<char>>(None),
        run::feedback(Err(s)) == Err::<Option<Seq<char>>, Seq<char>>(s@),
        run::shown(Ok(answer)) == Ok::<Option<Seq<char>>, Seq<char>>(Some(answer)),
        run::shown(Err(answer)) == Err::<Option<Seq<char>>, Seq<char>>(answer),
        handlers::reply(Ok(s)) == Ok::<Seq<char>, Seq<char>>(s@),
        handlers::reply(Err(s)) == Err::<Seq<char>, Seq<char>>(s@),
{
}

/// The arguments of a command are prepared by its own specs, beginning with the first of both.
pub proof fn law_command_is_prepared_by_its_specs(
    client: ClientView,
    context: EntityContext,
    c: ClientChatCommand,
    s: &ServerChatCommand,
    args: Seq<Seq<char>>,
)
    ensures
        run::prepared(client, context, ChatCommandKind::Server(s), args)
            == preprocess::preprocessed(
            client.commands,
            context,
            Walk { specs: s.args.deep_view(), start: 0 },
            args,
            0,
        ),
        run::prepared(client, context, ChatCommandKind::Client(c), args)
            == preprocess::preprocessed(
            client.commands,
            context,
            Walk { specs: c.arguments(client.shaders), start: 0 },
            args,
            0,
        ),
{
}

/// Where a command of the server asks for an asset path at a place, the argument at that place
/// reaches it as the prefix of the paths, a point, and what was typed, whatever that is; no
/// argument up to it is a keyword of a command of the server.
pub proof fn law_asset_path_reaches_the_server(
    client: ClientView,
    context: EntityContext,
    s: &ServerChatCommand,
    args: Seq<Seq<char>>,
    i: int,
)
    requires
        0 <= i < args.len(),
        i < s.args@.len(),
        s.args@[i] is AssetPath,
        s.args@[i] matches ArgumentSpec::AssetPath(_, prefix, _, r) && (r == Requirement::Required
            || prefix@.len() == 0 || prefix@[0] != PREFIX),
        preprocess::no_command_named(client.commands, args, 0, i),
        run::prepared(client, context, ChatCommandKind::Server(s), args).1 is None,
    ensures
        s.args@[i] matches ArgumentSpec::AssetPath(_, prefix, _, _) && run::prepared(
            client,
            context,
            ChatCommandKind::Server(s),
            args,
        ).0[i] == prefix@ + "."@ + args[i],
{
    let specs = s.args.deep_view();
    assert(specs[i] == s.args@[i].deep_view());
    if let ArgumentSpec::AssetPath(_, prefix, _, _) = s.args@[i] {
        preprocess::law_asset_path_gets_its_prefix(
            client.commands,
            context,
            Walk { specs, start: 0 },
            args,
            0,
            i,
            prefix@,
        );
    }
}

/// Whatever `unmute` answers where somebody is muted under the alias: either it is refused, and
/// then the player who sits at the client is muted under it and nothing changes, or one of those
/// who are muted under it, but never that player, is so no longer.
pub proof fn law_unmute_takes_one_of_the_muted(
    client: ClientView,
    args: Seq<Seq<char>>,
    before: GlobalView,
    after: GlobalView,
    answer: Result<Seq<char>, Seq<char>>,
    holder: u128,
    own: int,
)
    requires
        run::may_run(client, ClientChatCommand::Unmute, args, before, after, answer),
        args.len() > 0,
        before.mutes.contains_key(holder),
        before.mutes[holder] == args[0],
        0 <= own < client.players.len(),
        client.uid == Some(client.players[own].uid),
        forall|j: int| 0 <= j < own ==> client.uid != Some((#[trigger] client.players[j]).uid),
    ensures
        after.shaders == before.shaders,
        match answer {
            Err(s) => {
                &&& s == "You cannot unmute yourself."@
                &&& after == before
                &&& before.mutes.contains_key(client.players[own].uuid)
                &&& before.mutes[client.players[own].uuid] == args[0]
            },
            Ok(s) => {
                &&& s == "Successfully unmuted player "@ + args[0] + "."@
                &&& exists|u: u128|
                    #![trigger before.mutes.contains_key(u)]
                    before.mutes.contains_key(u) && before.mutes[u] == args[0] && u
                        != client.players[own].uuid && after.mutes == before.mutes.remove(u)
            },
        },
{
    lemma_own_entry(client, own);
    assert(before.mutes.contains_pair(holder, args[0]));
    let outcome = (after.mutes, answer);
    let found = choose|found: Option<u128>| #[trigger]
        handlers::can_be_found(before.mutes, args[0], found) && outcome == handlers::unmuted(
            client,
            before.mutes,
            args[0],
            found,
        );
    assert(found is Some);
    assert(before.mutes.contains_key(found->0));
}

/// What is said of a request is said of what it holds.
pub proof fn law_view_of_a_request(request: ServerRequest)
    ensures
        request.deep_view().keyword == request.keyword@,
        request.deep_view().args == request.args@.map_values(|arg: String| arg@),
{
    assert(request.args.deep_view() =~= request.args@.map_values(|arg: String| arg@));
}

} // verus!
