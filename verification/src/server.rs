use vstd::prelude::*;

use crate::command::{AdminRole, ArgumentSpec, ArgumentView, ClientChatCommand};
use crate::text;

verus! {

/// A command that the server runs, with what the client has to know of it.
#[derive(Debug)]
pub struct ServerChatCommand {
    pub keyword: String,
    /// A shorter name for the same command.
    pub short_keyword: Option<String>,
    pub args: Vec<ArgumentSpec>,
    /// The message that explains what the command does.
    pub help: String,
    /// The least role that may run the command; `None` where everybody may.
    pub needs_role: Option<AdminRole>,
}

/// The mathematical value of a `ServerChatCommand`.
#[verifier::ext_equal]
pub struct ServerView {
    pub keyword: Seq<char>,
    pub short_keyword: Option<Seq<char>>,
    pub args: Seq<ArgumentView>,
    pub help: Seq<char>,
    pub needs_role: Option<AdminRole>,
}

impl DeepView for ServerChatCommand {
    type V = ServerView;

    open spec fn deep_view(&self) -> ServerView {
        ServerView {
            keyword: self.keyword@,
            short_keyword: self.short_keyword.deep_view(),
            args: self.args.deep_view(),
            help: self.help@,
            needs_role: self.needs_role,
        }
    }
}

/// The place of a role among the roles, from having none upwards.
pub open spec fn rank(role: Option<AdminRole>) -> nat {
    match role {
        None => 0,
        Some(AdminRole::Moderator) => 1,
        Some(AdminRole::Admin) => 2,
    }
}

/// Whether somebody with `role` may do what needs the role `needed`.
pub open spec fn allowed(role: Option<AdminRole>, needed: Option<AdminRole>) -> bool {
    rank(needed) <= rank(role)
}

fn is_allowed(role: Option<AdminRole>, needed: Option<AdminRole>) -> (yes: bool)
    ensures
        yes == allowed(role, needed),
{
    match needed {
        None => true,
        Some(AdminRole::Moderator) => match role {
            None => false,
            Some(_) => true,
        },
        Some(AdminRole::Admin) => match role {
            Some(AdminRole::Admin) => true,
            _ => false,
        },
    }
}

/// The keywords of the commands.
pub open spec fn keywords(table: Seq<ServerView>) -> Seq<Seq<char>> {
    table.map_values(|c: ServerView| c.keyword)
}

/// For each command its short keyword, where it has one.
pub open spec fn short_keywords(table: Seq<ServerView>) -> Seq<Option<Seq<char>>> {
    table.map_values(|c: ServerView| c.short_keyword)
}

/// The first command with this keyword.
pub open spec fn with_keyword(table: Seq<ServerView>, keyword: Seq<char>) -> Option<int> {
    let at = text::place_of(keywords(table), keyword) as int;
    if at < table.len() {
        Some(at)
    } else {
        None
    }
}

/// The command of this name: the first with this short keyword, else the first with this
/// keyword.
pub open spec fn server_named(table: Seq<ServerView>, name: Seq<char>) -> Option<int> {
    let at = text::place_of(short_keywords(table), Some(name)) as int;
    if at < table.len() {
        Some(at)
    } else {
        with_keyword(table, name)
    }
}

/// All the names of commands: the short keywords, then the keywords.
pub open spec fn server_names(table: Seq<ServerView>) -> Seq<Seq<char>>
{
    short_names(table) + keywords(table)
}

/// The short keywords that there are, in the order of the commands.
pub open spec fn short_names(table: Seq<ServerView>) -> Seq<Seq<char>> {
    table.filter(|c: ServerView| c.short_keyword is Some).map_values(
        |c: ServerView| c.short_keyword->0,
    )
}

/// The commands that somebody with `role` may run.
pub open spec fn usable_by(table: Seq<ServerView>, role: Option<AdminRole>) -> Seq<ServerView> {
    table.filter(|c: ServerView| allowed(role, c.needs_role))
}

impl ServerChatCommand {
    /// The first command with this keyword.
    #[verifier::loop_isolation(false)]
    pub fn with_keyword(table: &Vec<ServerChatCommand>, keyword: &str) -> (at: Option<usize>)
        ensures
            match at {
                Some(i) => with_keyword(table.deep_view(), keyword@) == Some(i as int) && i
                    < table@.len(),
                None => with_keyword(table.deep_view(), keyword@) is None,
            },
    {
        let ghost names = keywords(table.deep_view());
        assert(names.skip(0) =~= names);
        for i in 0..table.len()
            invariant
                text::place_of(names, keyword@) == i + text::place_of(
                    names.skip(i as int),
                    keyword@,
                ),
        {
            assert(names.skip(i as int).drop_first() =~= names.skip(i + 1));
            assert(names.skip(i as int)[0] == table@[i as int].keyword@);
            if text::same_text(table[i].keyword.as_str(), keyword) {
                return Some(i);
            }
        }
        None
    }

    /// The command of this name, by a short keyword or else by a keyword.
    #[verifier::loop_isolation(false)]
    pub fn from_str(table: &Vec<ServerChatCommand>, name: &str) -> (at: Option<usize>)
        ensures
            match at {
                Some(i) => server_named(table.deep_view(), name@) == Some(i as int) && i
                    < table@.len(),
                None => server_named(table.deep_view(), name@) is None,
            },
    {
        let ghost names = short_keywords(table.deep_view());
        assert(names.skip(0) =~= names);
        for i in 0..table.len()
            invariant
                text::place_of(names, Some(name@)) == i + text::place_of(
                    names.skip(i as int),
                    Some(name@),
                ),
        {
            assert(names.skip(i as int).drop_first() =~= names.skip(i + 1));
            assert(names.skip(i as int)[0] == table@[i as int].short_keyword.deep_view());
            if let Some(short) = &table[i].short_keyword {
                if text::same_text(short.as_str(), name) {
                    return Some(i);
                }
            }
        }
        ServerChatCommand::with_keyword(table, name)
    }

    /// The names of the commands: first all the short keywords, then all the normal keywords
    #[verifier::loop_isolation(false)]
    pub fn names(table: &Vec<ServerChatCommand>) -> (names: Vec<String>)
        ensures
            names.deep_view() == server_names(table.deep_view()),
    {
        let mut names: Vec<String> = Vec::new();
        let ghost all = table.deep_view();
        let ghost short = |c: ServerView| c.short_keyword is Some;
        let ghost name = |c: ServerView| c.short_keyword->0;
        assert(names.deep_view() =~= all.take(0).filter(short).map_values(name)) by {
            reveal(Seq::filter);
        }
        for i in 0..table.len()
            invariant
                names.deep_view() == all.take(i as int).filter(short).map_values(name),
        {
            let ghost before = names.deep_view();
            proof {
                reveal(Seq::filter);
                assert(all.take(i + 1).drop_last() =~= all.take(i as int));
                assert(all.take(i + 1).last() == table@[i as int].deep_view());
            }
            if let Some(keyword) = &table[i].short_keyword {
                names.push(keyword.clone());
                assert(names.deep_view() =~= before.push(keyword@));
                assert(names.deep_view() =~= all.take(i + 1).filter(short).map_values(name));
            }
        }
        assert(all.take(all.len() as int) =~= all);
        let ghost shorts = names.deep_view();
        for i in 0..table.len()
            invariant
                names.deep_view() == shorts + keywords(all).take(i as int),
        {
            let ghost before = names.deep_view();
            names.push(table[i].keyword.clone());
            assert(names.deep_view() =~= before.push(keywords(all)[i as int]));
            assert(names.deep_view() =~= shorts + keywords(all).take(i + 1));
        }
        assert(keywords(all).take(all.len() as int) =~= keywords(all));
        names
    }

    /// The commands that somebody with `role` may run.
    #[verifier::loop_isolation(false)]
    pub fn usable(table: &Vec<ServerChatCommand>, role: Option<AdminRole>) -> (commands: Vec<
        &ServerChatCommand,
    >)
        ensures
            commands.deep_view() == usable_by(table.deep_view(), role),
    {
        let mut commands: Vec<&ServerChatCommand> = Vec::new();
        let ghost all = table.deep_view();
        let ghost wanted = |c: ServerView| allowed(role, c.needs_role);
        assert(commands.deep_view() =~= all.take(0).filter(wanted)) by {
            reveal(Seq::filter);
        }
        for i in 0..table.len()
            invariant
                commands.deep_view() == all.take(i as int).filter(wanted),
        {
            proof {
                reveal(Seq::filter);
                assert(all.take(i + 1).drop_last() =~= all.take(i as int));
                assert(all.take(i + 1).last() == table@[i as int].deep_view());
            }
            if is_allowed(role, table[i].needs_role) {
                let ghost before = commands.deep_view();
                commands.push(&table[i]);
                assert(commands.deep_view() =~= before.push(all[i as int]));
            }
        }
        assert(all.take(all.len() as int) =~= all);
        commands
    }
}

/// A command of the client or one of the server.
#[derive(Clone, Copy, Debug)]
pub enum ChatCommandKind<'a> {
    Client(ClientChatCommand),
    Server(&'a ServerChatCommand),
}

/// The command of this name: one of the client where there is one, else one of the server.
pub open spec fn kind_named(table: &Vec<ServerChatCommand>, name: Seq<char>) -> Option<
    ChatCommandKind<'_>,
> {
    match crate::command::client_named(name) {
        Some(c) => Some(ChatCommandKind::Client(c)),
        None => match server_named(table.deep_view(), name) {
            Some(i) => Some(ChatCommandKind::Server(&table@[i])),
            None => None,
        },
    }
}

impl<'a> ChatCommandKind<'a> {
    /// The command of this name.
    pub fn from_str(table: &'a Vec<ServerChatCommand>, s: &str) -> (command: Result<
        ChatCommandKind<'a>,
        (),
    >)
        ensures
            command == (match kind_named(table, s@) {
                Some(c) => Ok::<ChatCommandKind<'a>, ()>(c),
                None => Err::<ChatCommandKind<'a>, ()>(()),
            }),
    {
        match ClientChatCommand::from_str(s) {
            Ok(c) => Ok(ChatCommandKind::Client(c)),
            Err(_) => match ServerChatCommand::from_str(table, s) {
                Some(i) => Ok(ChatCommandKind::Server(&table[i])),
                None => Err(()),
            },
        }
    }
}

/// A name is found exactly if a command has it as its keyword or its short keyword, and the
/// command that is found has it.
pub proof fn law_name_is_found(table: Seq<ServerView>, name: Seq<char>)
    ensures
        match server_named(table, name) {
            Some(i) => 0 <= i < table.len() && (table[i].short_keyword == Some(name)
                || table[i].keyword == name),
            None => forall|i: int|
                0 <= i < table.len() ==> (#[trigger] table[i]).short_keyword != Some(name)
                    && table[i].keyword != name,
        },
{
    let shorts = short_keywords(table);
    let names = keywords(table);
    text::lemma_place_of(shorts, Some(name));
    text::lemma_place_of(names, name);
    if server_named(table, name) is None {
        assert forall|i: int| 0 <= i < table.len() implies (#[trigger] table[i]).short_keyword
            != Some(name) && table[i].keyword != name by {
            assert(shorts[i] != Some(name));
            assert(names[i] != name);
        }
    } else if text::place_of(shorts, Some(name)) < table.len() {
        let at = text::place_of(shorts, Some(name)) as int;
        assert(shorts[at] == Some(name));
    } else {
        let at = text::place_of(names, name) as int;
        assert(names[at] == name);
    }
}

/// A short keyword wins over a keyword.
pub proof fn law_short_keyword_wins(table: Seq<ServerView>, i: int, name: Seq<char>)
    requires
        0 <= i < table.len(),
        table[i].short_keyword == Some(name),
    ensures
        server_named(table, name) matches Some(found) && 0 <= found <= i
            && table[found].short_keyword == Some(name),
{
    let shorts = short_keywords(table);
    text::lemma_place_of(shorts, Some(name));
    assert(shorts[i] == Some(name));
    let at = text::place_of(shorts, Some(name)) as int;
    assert(at <= i);
    assert(shorts[at] == table[at].short_keyword);
}

/// Who has a higher role may run whatever a lower role may run.
pub proof fn law_higher_role_may_run_more(
    table: Seq<ServerView>,
    lower: Option<AdminRole>,
    higher: Option<AdminRole>,
    c: ServerView,
)
    requires
        rank(lower) <= rank(higher),
        usable_by(table, lower).contains(c),
    ensures
        usable_by(table, higher).contains(c),
{
    law_usable_commands(table, lower, c);
    law_usable_commands(table, higher, c);
}

/// The commands that somebody may run are those of the table whose role is not above theirs.
pub proof fn law_usable_commands(table: Seq<ServerView>, role: Option<AdminRole>, c: ServerView)
    ensures
        usable_by(table, role).contains(c) <==> table.contains(c) && allowed(role, c.needs_role),
{
    let wanted = |c: ServerView| allowed(role, c.needs_role);
    text::lemma_filter(table, wanted, c);
}

/// A command of the client wins over one of the server of the same name.
pub proof fn law_client_command_wins(table: &Vec<ServerChatCommand>, c: ClientChatCommand)
    ensures
        kind_named(table, c.name()) == Some(ChatCommandKind::Client(c)),
{
    crate::command::law_keyword_finds_its_command(c);
}

/// The first command with a keyword is found: it has the keyword, none before it has it, and
/// where none is found none has it.
pub proof fn law_keyword_is_found_first(table: Seq<ServerView>, keyword: Seq<char>)
    ensures
        match with_keyword(table, keyword) {
            Some(i) => 0 <= i < table.len() && table[i].keyword == keyword && forall|j: int|
                0 <= j < i ==> (#[trigger] table[j]).keyword != keyword,
            None => forall|j: int|
                0 <= j < table.len() ==> (#[trigger] table[j]).keyword != keyword,
        },
{
    let names = keywords(table);
    text::lemma_place_of(names, keyword);
    let at = text::place_of(names, keyword) as int;
    assert forall|j: int| 0 <= j < at && j < table.len() implies (#[trigger] table[j]).keyword
        != keyword by {
        assert(names[j] == table[j].keyword);
    }
    if at < table.len() {
        assert(names[at] == table[at].keyword);
    }
}

/// A name that is no short keyword finds the first command with this keyword.
pub proof fn law_keyword_counts_next(table: Seq<ServerView>, name: Seq<char>, i: int)
    requires
        forall|j: int|
            0 <= j < table.len() ==> (#[trigger] table[j]).short_keyword != Some(name),
        0 <= i < table.len(),
        table[i].keyword == name,
        forall|j: int| 0 <= j < i ==> (#[trigger] table[j]).keyword != name,
    ensures
        server_named(table, name) == Some(i),
{
    let shorts = short_keywords(table);
    text::lemma_place_of(shorts, Some(name));
    let at = text::place_of(shorts, Some(name)) as int;
    if at < table.len() {
        assert(shorts[at] == table[at].short_keyword);
    }
    law_keyword_is_found_first(table, name);
}

/// The names are the short keywords of those that have one, then the keywords of all, each in the
/// order of the commands.
pub proof fn law_names_in_order(a: Seq<ServerView>, b: Seq<ServerView>, c: ServerView, i: int)
    ensures
        short_names(a + b) == short_names(a) + short_names(b),
        short_names(seq![c]) == (match c.short_keyword {
            Some(k) => seq![k],
            None => Seq::<Seq<char>>::empty(),
        }),
        short_names(Seq::<ServerView>::empty()) == Seq::<Seq<char>>::empty(),
        keywords(a).len() == a.len(),
        0 <= i < a.len() ==> keywords(a)[i] == a[i].keyword,
        server_names(a).len() == short_names(a).len() + a.len(),
        0 <= i < short_names(a).len() ==> server_names(a)[i] == short_names(a)[i],
        0 <= i < a.len() ==> server_names(a)[short_names(a).len() + i] == a[i].keyword,
{
    let short = |c: ServerView| c.short_keyword is Some;
    let name = |c: ServerView| c.short_keyword->0;
    Seq::filter_distributes_over_add(a, b, short);
    text::lemma_filter_one(c, short);
    assert(short_names(a + b) =~= short_names(a) + short_names(b));
    if let Some(k) = c.short_keyword {
        assert(short_names(seq![c]) =~= seq![k]);
    } else {
        assert(short_names(seq![c]) =~= Seq::<Seq<char>>::empty());
    }
    assert(short_names(Seq::<ServerView>::empty()) =~= Seq::<Seq<char>>::empty());
}

/// A role suffices where none is needed, where it is the one that is needed, and where it is the
/// highest; in no other case.
pub proof fn law_who_is_allowed(role: Option<AdminRole>, needed: Option<AdminRole>)
    ensures
        allowed(role, needed) <==> needed is None || role == needed || role == Some(
            AdminRole::Admin,
        ),
{
}

/// The commands that somebody may run stay in their order, and a command is one of them exactly
/// if no role is needed, the role is the one that is needed, or it is the highest.
pub proof fn law_usable_in_order(
    a: Seq<ServerView>,
    b: Seq<ServerView>,
    role: Option<AdminRole>,
    c: ServerView,
)
    ensures
        usable_by(a + b, role) == usable_by(a, role) + usable_by(b, role),
        usable_by(seq![c], role) == (if c.needs_role is None || role == c.needs_role || role
            == Some(AdminRole::Admin) {
            seq![c]
        } else {
            Seq::<ServerView>::empty()
        }),
        usable_by(Seq::<ServerView>::empty(), role) == Seq::<ServerView>::empty(),
{
    let wanted = |c: ServerView| allowed(role, c.needs_role);
    Seq::filter_distributes_over_add(a, b, wanted);
    text::lemma_filter_one(c, wanted);
}

/// A name that no command of the client has is that of a command of the server, or of none.
pub proof fn law_server_command_is_found(table: &Vec<ServerChatCommand>, name: Seq<char>)
    requires
        forall|c: ClientChatCommand| (#[trigger] c.name()) != name,
    ensures
        match server_named(table.deep_view(), name) {
            Some(i) => kind_named(table, name) == Some(ChatCommandKind::Server(&table@[i])),
            None => kind_named(table, name) is None,
        },
{
    crate::command::law_found_command_has_the_keyword(name);
}

/// What is said of a command of the server is said of what it holds.
pub proof fn law_view_of_a_command(c: ServerChatCommand)
    ensures
        c.deep_view().keyword == c.keyword@,
        match c.short_keyword {
            Some(k) => c.deep_view().short_keyword == Some(k@),
            None => c.deep_view().short_keyword is None,
        },
        c.deep_view().args == c.args.deep_view(),
        c.deep_view().help == c.help@,
        c.deep_view().needs_role == c.needs_role,
{
}

} // verus!
