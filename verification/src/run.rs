use vstd::prelude::*;

use crate::client::{Client, ClientView};
use crate::command;
use crate::command::{AdminRole, ClientChatCommand};
use crate::foreign;
use crate::handlers;
use crate::preprocess;
use crate::preprocess::{CommandResult, Walk};
use crate::server;
use crate::server::{ChatCommandKind, ServerChatCommand, ServerView};
use crate::state::{GlobalState, GlobalView};
use crate::target::EntityContext;
use crate::text;

verus! {

/// The keywords of the commands that the player may run: those of the server, then those of the
/// client.
pub open spec fn usable_keywords(client: ClientView) -> Seq<Seq<char>> {
    server::keywords(server::usable_by(client.commands, client.role)) + command::client_keywords()
}

/// The place of the first of `keywords` that is as close to `name` as any of them.
pub open spec fn closest(keywords: Seq<Seq<char>>, name: Seq<char>) -> int
    decreases keywords.len(),
{
    if keywords.len() <= 1 {
        0
    } else {
        let before = closest(keywords.drop_last(), name);
        if foreign::edit_distance(name, keywords.last()) < foreign::edit_distance(
            name,
            keywords[before],
        ) {
            keywords.len() - 1
        } else {
            before
        }
    }
}

/// Being a keyword other than `best` that begins with `name`.
pub open spec fn meant(name: Seq<char>, best: Seq<char>) -> spec_fn(Seq<char>) -> bool {
    |keyword: Seq<char>| name.is_prefix_of(keyword) && keyword != best
}

/// The keywords other than `best` that begin with `name`.
pub open spec fn also_meant(keywords: Seq<Seq<char>>, name: Seq<char>, best: Seq<char>) -> Seq<
    Seq<char>,
> {
    keywords.filter(meant(name, best))
}

/// The keyword that is suggested first.
pub open spec fn best_suggestion(client: ClientView, name: Seq<char>) -> Seq<char> {
    let keywords = usable_keywords(client);
    keywords[closest(keywords, name)]
}

/// The keywords that are suggested besides.
pub open spec fn other_suggestions(client: ClientView, name: Seq<char>) -> Seq<Seq<char>> {
    also_meant(usable_keywords(client), name, best_suggestion(client, name))
}

/// All the keywords that are suggested.
pub open spec fn suggestions(client: ClientView, name: Seq<char>) -> Seq<Seq<char>> {
    seq![best_suggestion(client, name)] + other_suggestions(client, name)
}

/// The answer to the name of a command that there is not: the closest name, and those that begin
/// with what was typed.
pub open spec fn invalid_message(client: ClientView, name: Seq<char>) -> Seq<char> {
    "Could not find a command named "@ + name
        + ". Did you mean any of the following? \n/"@ + best_suggestion(client, name) + " "@
        + text::concatenated(text::prefixed(other_suggestions(client, name), "\n/"@))
        + " \n\nType /help to see a list of all commands."@
}

#[verifier::loop_isolation(false)]
fn keywords_for(client: &Client) -> (keywords: Vec<String>)
    ensures
        keywords.deep_view() == usable_keywords(client.deep_view()),
        keywords@.len() > 0,
{
    let usable = ServerChatCommand::usable(&client.commands, client.role);
    let ghost of_server = server::keywords(usable.deep_view());
    let ghost of_client = command::client_keywords();
    let mut keywords: Vec<String> = Vec::new();
    assert(keywords.deep_view() =~= of_server.take(0));
    for i in 0..usable.len()
        invariant
            keywords.deep_view() == of_server.take(i as int),
    {
        let ghost before = keywords.deep_view();
        keywords.push(usable[i].keyword.clone());
        assert(keywords.deep_view() =~= before.push(of_server[i as int]));
        assert(keywords.deep_view() =~= of_server.take(i + 1));
    }
    assert(of_server.take(of_server.len() as int) =~= of_server);
    let own = ClientChatCommand::iter();
    assert(keywords.deep_view() =~= of_server + of_client.take(0));
    for i in 0..own.len()
        invariant
            keywords.deep_view() == of_server + of_client.take(i as int),
    {
        let ghost before = keywords.deep_view();
        keywords.push(own[i].keyword().to_owned());
        assert(keywords.deep_view() =~= before.push(of_client[i as int]));
        assert(keywords.deep_view() =~= of_server + of_client.take(i + 1));
    }
    assert(of_client.take(of_client.len() as int) =~= of_client);
    assert(keywords@.len() == keywords.deep_view().len());
    keywords
}

#[verifier::loop_isolation(false)]
fn find_closest(keywords: &Vec<String>, name: &str) -> (at: usize)
    requires
        keywords@.len() > 0,
    ensures
        at == closest(keywords.deep_view(), name@),
        at < keywords@.len(),
{
    let ghost all = keywords.deep_view();
    let mut best: usize = 0;
    let mut least: usize = foreign::distance(name, keywords[0].as_str());
    assert(all.take(1)[0] == all[0]);
    for i in 1..keywords.len()
        invariant
            best < i <= keywords@.len(),
            best == closest(all.take(i as int), name@),
            least == foreign::edit_distance(name@, all[best as int]),
    {
        assert(all.take(i + 1).drop_last() =~= all.take(i as int));
        assert(all.take(i + 1).last() == all[i as int]);
        let d: usize = foreign::distance(name, keywords[i].as_str());
        if d < least {
            best = i;
            least = d;
        }
    }
    assert(all.take(all.len() as int) =~= all);
    best
}

/// The answer to the name of a command that there is not.
#[verifier::loop_isolation(false)]
pub fn invalid_command_message(client: &Client, user_entered_invalid_command: &str) -> (message:
    String)
    ensures
        message@ == invalid_message(client.deep_view(), user_entered_invalid_command@),
{
    let name: &str = user_entered_invalid_command;
    let keywords: Vec<String> = keywords_for(client);
    let best: &str = keywords[find_closest(&keywords, name)].as_str();
    let ghost all = keywords.deep_view();
    let ghost wanted = meant(name@, best@);
    let mut others: String = String::new();
    assert(others@ =~= text::concatenated(text::prefixed(all.take(0).filter(wanted), "\n/"@))) by {
        reveal(Seq::filter);
    }
    for i in 0..keywords.len()
        invariant
            others@ == text::concatenated(
                text::prefixed(all.take(i as int).filter(wanted), "\n/"@),
            ),
    {
        let ghost before = others@;
        let ghost listed = all.take(i as int).filter(wanted);
        proof {
            reveal(Seq::filter);
            assert(all.take(i + 1).drop_last() =~= all.take(i as int));
            assert(all.take(i + 1).last() == keywords@[i as int]@);
        }
        let keyword: &str = keywords[i].as_str();
        if text::starts_with(keyword, name) && !text::same_text(keyword, best) {
            others.append("\n/");
            others.append(keyword);
            proof {
                text::lemma_concatenated_push(
                    text::prefixed(listed, "\n/"@),
                    "\n/"@ + keyword@,
                );
                assert(text::prefixed(listed, "\n/"@).push("\n/"@ + keyword@) =~= text::prefixed(
                    listed.push(keyword@),
                    "\n/"@,
                ));
                assert(others@ =~= before + ("\n/"@ + keyword@));
            }
        }
    }
    assert(all.take(all.len() as int) =~= all);
    let mut message: String = "Could not find a command named ".to_owned();
    message.append(name);
    message.append(". Did you mean any of the following? \n/");
    message.append(best);
    message.append(" ");
    message.append(others.as_str());
    message.append(" \n\nType /help to see a list of all commands.");
    message
}

/// What a command of the client may do to the state and answer.
pub open spec fn may_run(
    client: ClientView,
    command: ClientChatCommand,
    args: Seq<Seq<char>>,
    before: GlobalView,
    after: GlobalView,
    answer: Result<Seq<char>, Seq<char>>,
) -> bool {
    match command {
        ClientChatCommand::ExperimentalShader => {
            &&& (after.shaders, answer) == handlers::shader_switched(
                client.shaders,
                before.shaders,
                args,
            )
            &&& after.mutes == before.mutes
        },
        ClientChatCommand::Help => {
            &&& answer == Ok::<Seq<char>, Seq<char>>(handlers::help_reply(client, args))
            &&& after == before
        },
        ClientChatCommand::Mute => {
            &&& (after.mutes, answer) == handlers::muted(client, before.mutes, args)
            &&& after.shaders == before.shaders
        },
        ClientChatCommand::Unmute => {
            &&& handlers::may_unmute(client, before.mutes, args, (after.mutes, answer))
            &&& after.shaders == before.shaders
        },
    }
}

/// Runs a command of the client.
pub fn run_client_command(
    client: &Client,
    global_state: &mut GlobalState,
    command: ClientChatCommand,
    args: &Vec<String>,
) -> (result: Result<String, String>)
    ensures
        may_run(
            client.deep_view(),
            command,
            args.deep_view(),
            old(global_state)@,
            final(global_state)@,
            handlers::reply(result),
        ),
{
    match command {
        ClientChatCommand::ExperimentalShader => handlers::handle_experimental_shader(
            client,
            global_state,
            args,
        ),
        ClientChatCommand::Help => handlers::handle_help(client, args),
        ClientChatCommand::Mute => handlers::handle_mute(client, global_state, args),
        ClientChatCommand::Unmute => handlers::handle_unmute(client, global_state, args),
    }
}

/// A command for the server, which is to be sent to it.
#[derive(Debug)]
pub struct ServerRequest {
    pub keyword: String,
    pub args: Vec<String>,
}

/// The mathematical value of a `ServerRequest`.
#[verifier::ext_equal]
pub struct RequestView {
    pub keyword: Seq<char>,
    pub args: Seq<Seq<char>>,
}

impl DeepView for ServerRequest {
    type V = RequestView;

    open spec fn deep_view(&self) -> RequestView {
        RequestView { keyword: self.keyword@, args: self.args.deep_view() }
    }
}

/// The feedback that is shown for a command.
pub open spec fn feedback(result: CommandResult) -> Result<Option<Seq<char>>, Seq<char>> {
    match result {
        Ok(Some(s)) => Ok(Some(s@)),
        Ok(None) => Ok(None),
        Err(s) => Err(s@),
    }
}

/// The feedback for the answer of a command of the client.
pub open spec fn shown(answer: Result<Seq<char>, Seq<char>>) -> Result<
    Option<Seq<char>>,
    Seq<char>,
> {
    match answer {
        Ok(s) => Ok(Some(s)),
        Err(s) => Err(s),
    }
}

/// The arguments of a command as they are handed to it, and the message that stops it, if any.
pub open spec fn prepared(
    client: ClientView,
    context: EntityContext,
    command: ChatCommandKind<'_>,
    args: Seq<Seq<char>>,
) -> (Seq<Seq<char>>, Option<Seq<char>>) {
    let walk = Walk { specs: preprocess::arguments_of(command, client.shaders), start: 0 };
    preprocess::preprocessed(client.commands, context, walk, args, 0)
}

/// Runs a command: one of the client here; one of the server becomes a request, which the caller
/// sends, and gives no feedback, as the server will provide a response when the command is run.
pub fn run_command(
    context: &EntityContext,
    client: &Client,
    global_state: &mut GlobalState,
    cmd: &str,
    mut args: Vec<String>,
) -> (outcome: (CommandResult, Option<ServerRequest>))
    ensures
        match server::kind_named(&client.commands, cmd@) {
            None => {
                &&& feedback(outcome.0) == Err::<Option<Seq<char>>, Seq<char>>(
                    invalid_message(client.deep_view(), cmd@),
                )
                &&& outcome.1 is None
                &&& final(global_state)@ == old(global_state)@
            },
            Some(command) => match prepared(
                client.deep_view(),
                *context,
                command,
                args.deep_view(),
            ) {
                (_, Some(message)) => {
                    &&& feedback(outcome.0) == Err::<Option<Seq<char>>, Seq<char>>(message)
                    &&& outcome.1 is None
                    &&& final(global_state)@ == old(global_state)@
                },
                (ready, None) => match command {
                    ChatCommandKind::Server(c) => {
                        &&& feedback(outcome.0) == Ok::<Option<Seq<char>>, Seq<char>>(None)
                        &&& outcome.1.deep_view() == Some(
                            RequestView { keyword: c.keyword@, args: ready },
                        )
                        &&& final(global_state)@ == old(global_state)@
                    },
                    ChatCommandKind::Client(c) => {
                        &&& outcome.1 is None
                        &&& exists|answer: Result<Seq<char>, Seq<char>>|
                            feedback(outcome.0) == shown(answer) && #[trigger] may_run(
                                client.deep_view(),
                                c,
                                ready,
                                old(global_state)@,
                                final(global_state)@,
                                answer,
                            )
                    },
                },
            },
        },
{
    let command = match ChatCommandKind::from_str(&client.commands, cmd) {
        Ok(command) => command,
        Err(_) => {
            return (Err(invalid_command_message(client, cmd)), None);
        },
    };
    if let Err(message) = preprocess::preproccess_command(
        context,
        &client.commands,
        &client.shaders,
        &command,
        &mut args,
    ) {
        return (Err(message), None);
    }
    match command {
        ChatCommandKind::Server(c) => {
            let request = ServerRequest { keyword: c.keyword.clone(), args };
            (Ok(None), Some(request))
        },
        ChatCommandKind::Client(c) => match run_client_command(client, global_state, c, &args) {
            Ok(message) => (Ok(Some(message)), None),
            Err(message) => (Err(message), None),
        },
    }
}

/// The suggested keyword is one that the player may use, none of those is closer to what was
/// typed, and each of those before it is farther away.
pub proof fn law_suggestion_is_closest(client: ClientView, name: Seq<char>)
    ensures
        ({
            let keywords = usable_keywords(client);
            let best = closest(keywords, name);
            &&& 0 <= best < keywords.len()
            &&& forall|i: int|
                0 <= i < keywords.len() ==> foreign::edit_distance(name, keywords[best])
                    <= foreign::edit_distance(name, #[trigger] keywords[i])
            &&& forall|i: int|
                0 <= i < best ==> foreign::edit_distance(name, keywords[best])
                    < foreign::edit_distance(name, #[trigger] keywords[i])
        }),
{
    lemma_closest(usable_keywords(client), name);
}

proof fn lemma_closest(keywords: Seq<Seq<char>>, name: Seq<char>)
    requires
        keywords.len() > 0,
    ensures
        ({
            let best = closest(keywords, name);
            &&& 0 <= best < keywords.len()
            &&& forall|i: int|
                0 <= i < keywords.len() ==> foreign::edit_distance(name, keywords[best])
                    <= foreign::edit_distance(name, #[trigger] keywords[i])
            &&& forall|i: int|
                0 <= i < best ==> foreign::edit_distance(name, keywords[best])
                    < foreign::edit_distance(name, #[trigger] keywords[i])
        }),
    decreases keywords.len(),
{
    if keywords.len() > 1 {
        let before = keywords.drop_last();
        lemma_closest(before, name);
        let best = closest(keywords, name);
        assert forall|i: int| 0 <= i < keywords.len() implies foreign::edit_distance(
            name,
            keywords[best],
        ) <= foreign::edit_distance(name, #[trigger] keywords[i]) by {
            if i < before.len() {
                assert(before[i] == keywords[i]);
            }
        }
        assert forall|i: int| 0 <= i < best implies foreign::edit_distance(name, keywords[best])
            < foreign::edit_distance(name, #[trigger] keywords[i]) by {
            assert(before[i] == keywords[i]);
        }
    }
}

/// The other suggestions are the keywords that the player may use and that begin with what was
/// typed, without the one that is suggested already.
pub proof fn law_other_suggestions(
    client: ClientView,
    name: Seq<char>,
    best: Seq<char>,
    k: Seq<char>,
)
    ensures
        also_meant(usable_keywords(client), name, best).contains(k) <==> usable_keywords(
            client,
        ).contains(k) && name.is_prefix_of(k) && k != best,
{
    text::lemma_filter(usable_keywords(client), meant(name, best), k);
}

/// The answer depends on the commands of the server, the role of the player and what was typed,
/// and on nothing else that the client knows.
pub proof fn law_answer_depends_on_the_role(a: ClientView, b: ClientView, name: Seq<char>)
    requires
        a.commands == b.commands,
        a.role == b.role,
    ensures
        invalid_message(a, name) == invalid_message(b, name),
        suggestions(a, name) == suggestions(b, name),
{
}

/// Whether somebody with `role` may run each command with this keyword.
pub open spec fn open_to(
    table: Seq<ServerView>,
    role: Option<AdminRole>,
    keyword: Seq<char>,
) -> bool {
    forall|i: int|
        0 <= i < table.len() && (#[trigger] table[i]).keyword == keyword ==> server::allowed(
            role,
            table[i].needs_role,
        )
}

/// Whether somebody with `role` may run either all of the commands with this keyword or none of
/// them.
pub open spec fn open_alike(
    table: Seq<ServerView>,
    role: Option<AdminRole>,
    keyword: Seq<char>,
) -> bool {
    forall|i: int, j: int|
        #![trigger table[i], table[j]]
        0 <= i < table.len() && 0 <= j < table.len() && table[i].keyword == keyword
            && table[j].keyword == keyword ==> server::allowed(role, table[i].needs_role)
            == server::allowed(role, table[j].needs_role)
}

/// A suggestion is a keyword of the client, or that of a command of the server that the player
/// may run. Where the commands that share it are open to the same players, as they are where no
/// two commands share a keyword, it belongs to no command that the player may not run, unless it
/// is a keyword of the client as well.
pub proof fn law_suggestions_are_open(client: ClientView, name: Seq<char>, k: Seq<char>)
    requires
        suggestions(client, name).contains(k),
    ensures
        command::client_keywords().contains(k) || exists|c: ServerView|
            #[trigger] client.commands.contains(c) && c.keyword == k && server::allowed(
                client.role,
                c.needs_role,
            ),
        open_alike(client.commands, client.role, k) ==> command::client_keywords().contains(k)
            || open_to(client.commands, client.role, k),
        server::keywords(client.commands).no_duplicates() ==> command::client_keywords().contains(
            k,
        ) || open_to(client.commands, client.role, k),
{
    let table = client.commands;
    let keywords = usable_keywords(client);
    let usable = server::usable_by(table, client.role);
    let best = best_suggestion(client, name);
    let shown = suggestions(client, name);
    law_suggestion_is_closest(client, name);
    law_other_suggestions(client, name, best, k);
    let at = shown.index_of(k);
    if at > 0 {
        assert(other_suggestions(client, name)[at - 1] == k);
    }
    assert(keywords.contains(k));
    if !command::client_keywords().contains(k) {
        let i = keywords.index_of(k);
        if i >= usable.len() {
            assert(command::client_keywords()[i - usable.len()] == k);
        }
        let c = usable[i];
        assert(usable.contains(c));
        server::law_usable_commands(table, client.role, c);
        assert(table.contains(c) && c.keyword == k);
        let own = table.index_of(c);
        if server::keywords(table).no_duplicates() {
            assert forall|j: int| 0 <= j < table.len() && (#[trigger] table[j]).keyword
                == k implies j == own by {
                assert(server::keywords(table)[j] == server::keywords(table)[own]);
            }
        }
    }
}

/// Only `mute` and `unmute` change who is muted, and only `experimental_shader` changes which
/// shaders are switched on.
pub proof fn law_commands_mind_their_own_state(
    client: ClientView,
    command: ClientChatCommand,
    args: Seq<Seq<char>>,
    before: GlobalView,
    after: GlobalView,
    answer: Result<Seq<char>, Seq<char>>,
)
    requires
        may_run(client, command, args, before, after, answer),
    ensures
        after.mutes != before.mutes ==> command is Mute || command is Unmute,
        after.shaders != before.shaders ==> command is ExperimentalShader,
{
}

} // verus!
