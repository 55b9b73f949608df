use vstd::prelude::*;

use crate::text;

verus! {

/// Whether an argument has to be given.
#[derive(Clone, Copy, Debug, PartialEq, Eq, Structural)]
pub enum Requirement {
    Required,
    Optional,
}

/// The role of a player in the administration of a server.
#[derive(Clone, Copy, Debug, PartialEq, Eq, Structural)]
pub enum AdminRole {
    Moderator,
    Admin,
}

/// What an argument of a command can be.
///
/// A `Float` holds its default as it is shown, with one digit behind the point.
#[derive(Debug)]
pub enum ArgumentSpec {
    /// The name of a player.
    PlayerName(Requirement),
    /// An entity, as `@` and a keyword or as `uid@` and a number.
    EntityTarget(Requirement),
    /// The name of a site.
    SiteName(Requirement),
    /// A label and a default.
    Float(String, String, Requirement),
    /// A label and a default.
    Integer(String, i32, Requirement),
    /// A label.
    Any(String, Requirement),
    /// The name of a command.
    Command(Requirement),
    /// The rest of the line.
    Message(Requirement),
    /// A command of the server, with its arguments behind it.
    SubCommand,
    /// A label and the values.
    Enum(String, Vec<String>, Requirement),
    /// A label, the prefix of the paths and the paths.
    AssetPath(String, String, Vec<String>, Requirement),
    /// A label and a default.
    Boolean(String, String, Requirement),
    /// The flag itself.
    Flag(String),
}

/// The mathematical value of an `ArgumentSpec`.
#[verifier::ext_equal]
pub enum ArgumentView {
    PlayerName(Requirement),
    EntityTarget(Requirement),
    SiteName(Requirement),
    Float(Seq<char>, Seq<char>, Requirement),
    Integer(Seq<char>, i32, Requirement),
    Any(Seq<char>, Requirement),
    Command(Requirement),
    Message(Requirement),
    SubCommand,
    Enum(Seq<char>, Seq<Seq<char>>, Requirement),
    AssetPath(Seq<char>, Seq<char>, Seq<Seq<char>>, Requirement),
    Boolean(Seq<char>, Seq<char>, Requirement),
    Flag(Seq<char>),
}

impl DeepView for ArgumentSpec {
    type V = ArgumentView;

    open spec fn deep_view(&self) -> ArgumentView {
        match self {
            ArgumentSpec::PlayerName(r) => ArgumentView::PlayerName(*r),
            ArgumentSpec::EntityTarget(r) => ArgumentView::EntityTarget(*r),
            ArgumentSpec::SiteName(r) => ArgumentView::SiteName(*r),
            ArgumentSpec::Float(label, x, r) => ArgumentView::Float(label@, x@, *r),
            ArgumentSpec::Integer(label, x, r) => ArgumentView::Integer(label@, *x, *r),
            ArgumentSpec::Any(label, r) => ArgumentView::Any(label@, *r),
            ArgumentSpec::Command(r) => ArgumentView::Command(*r),
            ArgumentSpec::Message(r) => ArgumentView::Message(*r),
            ArgumentSpec::SubCommand => ArgumentView::SubCommand,
            ArgumentSpec::Enum(label, values, r) => ArgumentView::Enum(
                label@,
                values.deep_view(),
                *r,
            ),
            ArgumentSpec::AssetPath(label, prefix, paths, r) => ArgumentView::AssetPath(
                label@,
                prefix@,
                paths.deep_view(),
                *r,
            ),
            ArgumentSpec::Boolean(label, x, r) => ArgumentView::Boolean(label@, x@, *r),
            ArgumentSpec::Flag(name) => ArgumentView::Flag(name@),
        }
    }
}

/// A label as it stands in a usage line: in angle brackets where the argument has to be given,
/// in square brackets where it can be left out.
pub open spec fn bracketed(label: Seq<char>, requirement: Requirement) -> Seq<char> {
    match requirement {
        Requirement::Required => "<"@ + label + ">"@,
        Requirement::Optional => "["@ + label + "]"@,
    }
}

fn bracket(label: &str, requirement: Requirement) -> (s: String)
    ensures
        s@ == bracketed(label@, requirement),
{
    match requirement {
        Requirement::Required => {
            let mut s: String = "<".to_owned();
            s.append(label);
            s.append(">");
            s
        },
        Requirement::Optional => {
            let mut s: String = "[".to_owned();
            s.append(label);
            s.append("]");
            s
        },
    }
}

impl ArgumentView {
    /// Whether the argument has to be given.
    pub open spec fn requirement(self) -> Requirement {
        match self {
            ArgumentView::PlayerName(r) => r,
            ArgumentView::EntityTarget(r) => r,
            ArgumentView::SiteName(r) => r,
            ArgumentView::Float(_, _, r) => r,
            ArgumentView::Integer(_, _, r) => r,
            ArgumentView::Any(_, r) => r,
            ArgumentView::Command(r) => r,
            ArgumentView::Message(r) => r,
            ArgumentView::SubCommand => Requirement::Required,
            ArgumentView::Enum(_, _, r) => r,
            ArgumentView::AssetPath(_, _, _, r) => r,
            ArgumentView::Boolean(_, _, r) => r,
            ArgumentView::Flag(_) => Requirement::Optional,
        }
    }

    /// The argument as it stands in a usage line.
    pub open spec fn usage(self) -> Seq<char> {
        match self {
            ArgumentView::PlayerName(r) => bracketed("player"@, r),
            ArgumentView::EntityTarget(r) => bracketed("entity"@, r),
            ArgumentView::SiteName(r) => bracketed("site"@, r),
            ArgumentView::Float(label, _, r) => bracketed(label, r),
            ArgumentView::Integer(label, _, r) => bracketed(label, r),
            ArgumentView::Any(label, r) => bracketed(label, r),
            ArgumentView::Command(r) => bracketed("[/]command"@, r),
            ArgumentView::Message(r) => bracketed("message"@, r),
            ArgumentView::SubCommand => "<[/]command> [args...]"@,
            ArgumentView::Enum(label, _, r) => bracketed(label, r),
            ArgumentView::AssetPath(label, _, _, r) => bracketed(label, r),
            ArgumentView::Boolean(label, _, r) => bracketed(label, r),
            ArgumentView::Flag(name) => bracketed(name, Requirement::Optional),
        }
    }

    /// The format by which the argument is scanned.
    pub open spec fn format(self) -> Seq<char> {
        match self {
            ArgumentView::SiteName(_) => "{/.*/}"@,
            ArgumentView::Integer(_, _, _) => "{d}"@,
            ArgumentView::Message(_) => "{/.*/}"@,
            ArgumentView::SubCommand => "{} {/.*/}"@,
            _ => "{}"@,
        }
    }
}

impl ArgumentSpec {
    /// Whether the argument has to be given.
    pub fn requirement(&self) -> (r: Requirement)
        ensures
            r == self.deep_view().requirement(),
    {
        match self {
            ArgumentSpec::PlayerName(r) => *r,
            ArgumentSpec::EntityTarget(r) => *r,
            ArgumentSpec::SiteName(r) => *r,
            ArgumentSpec::Float(_, _, r) => *r,
            ArgumentSpec::Integer(_, _, r) => *r,
            ArgumentSpec::Any(_, r) => *r,
            ArgumentSpec::Command(r) => *r,
            ArgumentSpec::Message(r) => *r,
            ArgumentSpec::SubCommand => Requirement::Required,
            ArgumentSpec::Enum(_, _, r) => *r,
            ArgumentSpec::AssetPath(_, _, _, r) => *r,
            ArgumentSpec::Boolean(_, _, r) => *r,
            ArgumentSpec::Flag(_) => Requirement::Optional,
        }
    }

    /// The argument as it stands in a usage line.
    pub fn usage_string(&self) -> (s: String)
        ensures
            s@ == self.deep_view().usage(),
    {
        match self {
            ArgumentSpec::PlayerName(r) => bracket("player", *r),
            ArgumentSpec::EntityTarget(r) => bracket("entity", *r),
            ArgumentSpec::SiteName(r) => bracket("site", *r),
            ArgumentSpec::Float(label, _, r) => bracket(label.as_str(), *r),
            ArgumentSpec::Integer(label, _, r) => bracket(label.as_str(), *r),
            ArgumentSpec::Any(label, r) => bracket(label.as_str(), *r),
            ArgumentSpec::Command(r) => bracket("[/]command", *r),
            ArgumentSpec::Message(r) => bracket("message", *r),
            ArgumentSpec::SubCommand => "<[/]command> [args...]".to_owned(),
            ArgumentSpec::Enum(label, _, r) => bracket(label.as_str(), *r),
            ArgumentSpec::AssetPath(label, _, _, r) => bracket(label.as_str(), *r),
            ArgumentSpec::Boolean(label, _, r) => bracket(label.as_str(), *r),
            ArgumentSpec::Flag(name) => bracket(name.as_str(), Requirement::Optional),
        }
    }

    fn format_string(&self) -> (s: String)
        ensures
            s@ == self.deep_view().format(),
    {
        match self {
            ArgumentSpec::PlayerName(_) => "{}".to_owned(),
            ArgumentSpec::EntityTarget(_) => "{}".to_owned(),
            ArgumentSpec::SiteName(_) => "{/.*/}".to_owned(),
            ArgumentSpec::Float(_, _, _) => "{}".to_owned(),
            ArgumentSpec::Integer(_, _, _) => "{d}".to_owned(),
            ArgumentSpec::Any(_, _) => "{}".to_owned(),
            ArgumentSpec::Command(_) => "{}".to_owned(),
            ArgumentSpec::Message(_) => "{/.*/}".to_owned(),
            ArgumentSpec::SubCommand => "{} {/.*/}".to_owned(),
            ArgumentSpec::Enum(_, _, _) => "{}".to_owned(),
            ArgumentSpec::AssetPath(_, _, _, _) => "{}".to_owned(),
            ArgumentSpec::Boolean(_, _, _) => "{}".to_owned(),
            ArgumentSpec::Flag(_) => "{}".to_owned(),
        }
    }
}

/// What a command takes, what it does, and who may run it.
#[derive(Debug)]
pub struct ChatCommandData {
    pub args: Vec<ArgumentSpec>,
    pub description: String,
    pub needs_role: Option<AdminRole>,
}

impl ChatCommandData {
    pub fn new(
        args: Vec<ArgumentSpec>,
        description: &str,
        needs_role: Option<AdminRole>,
    ) -> (data: ChatCommandData)
        ensures
            data.args == args,
            data.description@ == description@,
            data.needs_role == needs_role,
    {
        ChatCommandData { args, description: description.to_owned(), needs_role }
    }
}

// Please keep this sorted alphabetically, same as with server commands :-)
/// The commands that the client runs itself.
#[derive(Clone, Copy, Debug, PartialEq, Eq, Structural)]
pub enum ClientChatCommand {
    ExperimentalShader,
    Help,
    Mute,
    Unmute,
}

/// The commands of the client, in their order.
pub open spec fn client_commands() -> Seq<ClientChatCommand> {
    seq![
        ClientChatCommand::ExperimentalShader,
        ClientChatCommand::Help,
        ClientChatCommand::Mute,
        ClientChatCommand::Unmute,
    ]
}

/// The keywords of the client's commands, in the order of the commands.
pub open spec fn client_keywords() -> Seq<Seq<char>> {
    client_commands().map_values(|c: ClientChatCommand| c.name())
}

/// The command of the client with this keyword.
pub open spec fn client_named(keyword: Seq<char>) -> Option<ClientChatCommand> {
    let at = text::place_of(client_keywords(), keyword) as int;
    if at < client_commands().len() {
        Some(client_commands()[at])
    } else {
        None
    }
}

impl ClientChatCommand {
    /// The keyword of the command.
    pub open spec fn name(self) -> Seq<char> {
        match self {
            ClientChatCommand::ExperimentalShader => "experimental_shader"@,
            ClientChatCommand::Help => "help"@,
            ClientChatCommand::Mute => "mute"@,
            ClientChatCommand::Unmute => "unmute"@,
        }
    }

    /// The arguments of the command, where these are the experimental shaders.
    pub open spec fn arguments(self, shaders: Seq<Seq<char>>) -> Seq<ArgumentView> {
        match self {
            ClientChatCommand::ExperimentalShader => seq![
                ArgumentView::Enum("Shader"@, shaders, Requirement::Optional),
            ],
            ClientChatCommand::Help => seq![ArgumentView::Command(Requirement::Optional)],
            ClientChatCommand::Mute => seq![ArgumentView::PlayerName(Requirement::Required)],
            ClientChatCommand::Unmute => seq![ArgumentView::PlayerName(Requirement::Required)],
        }
    }

    /// What the command does, in words.
    pub open spec fn summary(self) -> Seq<char> {
        match self {
            ClientChatCommand::ExperimentalShader => "Toggles an experimental shader."@,
            ClientChatCommand::Help => "Display information about commands"@,
            ClientChatCommand::Mute => "Mutes chat messages from a player."@,
            ClientChatCommand::Unmute => "Unmutes a player muted with the 'mute' command."@,
        }
    }

    /// What the command takes and does; `shaders` are the names of the experimental shaders.
    pub fn data(&self, shaders: &Vec<String>) -> (data: ChatCommandData)
        ensures
            data.args.deep_view() == self.arguments(shaders.deep_view()),
            data.description@ == self.summary(),
            data.needs_role is None,
    {
        match self {
            ClientChatCommand::ExperimentalShader => {
                let names: Vec<String> = shaders.clone();
                assert(names.deep_view() =~= shaders.deep_view());
                let args = vec![ArgumentSpec::Enum("Shader".to_owned(), names, Requirement::Optional)];
                assert(args.deep_view() =~= self.arguments(shaders.deep_view()));
                ChatCommandData::new(args, "Toggles an experimental shader.", None)
            },
            ClientChatCommand::Help => {
                let args = vec![ArgumentSpec::Command(Requirement::Optional)];
                assert(args.deep_view() =~= self.arguments(shaders.deep_view()));
                ChatCommandData::new(args, "Display information about commands", None)
            },
            ClientChatCommand::Mute => {
                let args = vec![ArgumentSpec::PlayerName(Requirement::Required)];
                assert(args.deep_view() =~= self.arguments(shaders.deep_view()));
                ChatCommandData::new(args, "Mutes chat messages from a player.", None)
            },
            ClientChatCommand::Unmute => {
                let args = vec![ArgumentSpec::PlayerName(Requirement::Required)];
                assert(args.deep_view() =~= self.arguments(shaders.deep_view()));
                ChatCommandData::new(args, "Unmutes a player muted with the 'mute' command.", None)
            },
        }
    }

    pub fn keyword(&self) -> (keyword: &'static str)
        ensures
            keyword@ == self.name(),
    {
        match self {
            ClientChatCommand::ExperimentalShader => "experimental_shader",
            ClientChatCommand::Help => "help",
            ClientChatCommand::Mute => "mute",
            ClientChatCommand::Unmute => "unmute",
        }
    }

    /// The help line of the command: its keyword and its arguments, then what it does.
    pub open spec fn help(self) -> Seq<char> {
        let usages = self.arguments(Seq::empty()).map_values(|arg: ArgumentView| arg.usage());
        text::joined(seq!["/"@ + self.name()] + usages, " "@) + ": "@ + self.summary()
    }

    /// A message that explains what the command does
    #[verifier::loop_isolation(false)]
    pub fn help_string(&self) -> (s: String)
        ensures
            s@ == self.help(),
    {
        let no_shaders: Vec<String> = Vec::new();
        let data = self.data(&no_shaders);
        let ghost args = self.arguments(Seq::empty());
        assert(no_shaders.deep_view() =~= Seq::empty());
        let mut usage: Vec<String> = Vec::new();
        let mut first: String = "/".to_owned();
        first.append(self.keyword());
        usage.push(first);
        for i in 0..data.args.len()
            invariant
                usage@.len() == i + 1,
                usage@[0]@ == "/"@ + self.name(),
                forall|j: int| 0 <= j < i ==> (#[trigger] usage@[j + 1])@ == args[j].usage(),
        {
            assert(data.args.deep_view()[i as int] == data.args@[i as int].deep_view());
            usage.push(data.args[i].usage_string());
        }
        let ghost usages = args.map_values(|arg: ArgumentView| arg.usage());
        assert(usage.deep_view() =~= seq!["/"@ + self.name()] + usages) by {
            assert forall|j: int| 0 < j < usage@.len() implies (#[trigger] usage@[j])@
                == usages[j - 1] by {
                assert(usage@[(j - 1) + 1]@ == args[j - 1].usage());
            }
        }
        let mut s: String = text::join(&usage, " ");
        s.append(": ");
        s.append(data.description.as_str());
        s
    }

    /// The formats of the arguments, with a space between each two of them.
    pub open spec fn formats(self) -> Seq<char> {
        text::joined(
            self.arguments(Seq::empty()).map_values(|arg: ArgumentView| arg.format()),
            " "@,
        )
    }

    /// Returns a format string for parsing arguments with scan_fmt
    #[verifier::loop_isolation(false)]
    pub fn arg_fmt(&self) -> (s: String)
        ensures
            s@ == self.formats(),
    {
        let no_shaders: Vec<String> = Vec::new();
        let data = self.data(&no_shaders);
        let ghost args = self.arguments(Seq::empty());
        assert(no_shaders.deep_view() =~= Seq::empty());
        let mut formats: Vec<String> = Vec::new();
        for i in 0..data.args.len()
            invariant
                formats@.len() == i,
                forall|j: int| 0 <= j < i ==> (#[trigger] formats@[j])@ == args[j].format(),
        {
            assert(data.args.deep_view()[i as int] == data.args@[i as int].deep_view());
            formats.push(data.args[i].format_string());
        }
        assert(formats.deep_view() =~= args.map_values(|arg: ArgumentView| arg.format()));
        text::join(&formats, " ")
    }

    /// All the available commands
    pub fn iter() -> (commands: Vec<ClientChatCommand>)
        ensures
            commands@ == client_commands(),
    {
        let commands = vec![
            ClientChatCommand::ExperimentalShader,
            ClientChatCommand::Help,
            ClientChatCommand::Mute,
            ClientChatCommand::Unmute,
        ];
        assert(commands@ =~= client_commands());
        commands
    }

    /// All the keywords and their associated commands: none of these commands has a short
    /// keyword
    #[verifier::loop_isolation(false)]
    pub fn iter_with_keywords() -> (pairs: Vec<(&'static str, ClientChatCommand)>)
        ensures
            pairs@.len() == client_commands().len(),
            forall|i: int|
                0 <= i < pairs@.len() ==> (#[trigger] pairs@[i]).1 == client_commands()[i]
                    && pairs@[i].0@ == client_commands()[i].name(),
    {
        let commands = ClientChatCommand::iter();
        let mut pairs: Vec<(&'static str, ClientChatCommand)> = Vec::new();
        for i in 0..commands.len()
            invariant
                pairs@.len() == i,
                forall|j: int|
                    0 <= j < i ==> (#[trigger] pairs@[j]).1 == client_commands()[j]
                        && pairs@[j].0@ == client_commands()[j].name(),
        {
            pairs.push((commands[i].keyword(), commands[i]));
        }
        pairs
    }

    /// The command with this keyword
    #[verifier::loop_isolation(false)]
    pub fn from_str(keyword: &str) -> (command: Result<ClientChatCommand, ()>)
        ensures
            command == (match client_named(keyword@) {
                Some(c) => Ok::<ClientChatCommand, ()>(c),
                None => Err::<ClientChatCommand, ()>(()),
            }),
    {
        let pairs = ClientChatCommand::iter_with_keywords();
        let ghost names = client_keywords();
        assert(names.skip(0) =~= names);
        for i in 0..pairs.len()
            invariant
                text::place_of(names, keyword@) == i + text::place_of(
                    names.skip(i as int),
                    keyword@,
                ),
        {
            assert(names.skip(i as int).drop_first() =~= names.skip(i + 1));
            assert(names.skip(i as int)[0] == pairs@[i as int].0@);
            if text::same_text(pairs[i].0, keyword) {
                return Ok(pairs[i].1);
            }
        }
        Err(())
    }
}

proof fn lemma_keywords()
    ensures
        client_keywords().len() == 4,
        client_keywords()[0] == "experimental_shader"@,
        client_keywords()[1] == "help"@,
        client_keywords()[2] == "mute"@,
        client_keywords()[3] == "unmute"@,
        "experimental_shader"@.len() == 19,
        "experimental_shader"@[0] == 'e',
        "help"@.len() == 4,
        "help"@[0] == 'h',
        "mute"@.len() == 4,
        "mute"@[0] == 'm',
        "unmute"@.len() == 6,
        "unmute"@[0] == 'u',
{
    reveal_strlit("experimental_shader");
    reveal_strlit("help");
    reveal_strlit("mute");
    reveal_strlit("unmute");
}

/// Every command is found by its keyword.
pub proof fn law_keyword_finds_its_command(c: ClientChatCommand)
    ensures
        client_named(c.name()) == Some(c),
{
    lemma_keywords();
    text::lemma_place_of(client_keywords(), c.name());
    let at = text::place_of(client_keywords(), c.name()) as int;
    let i: int = match c {
        ClientChatCommand::ExperimentalShader => 0,
        ClientChatCommand::Help => 1,
        ClientChatCommand::Mute => 2,
        ClientChatCommand::Unmute => 3,
    };
    assert(client_keywords()[i] == c.name());
    assert(at == i);
}

/// A command is found by its keyword alone: whatever is found has the keyword that was looked
/// for, and where nothing is found no command has it.
pub proof fn law_found_command_has_the_keyword(keyword: Seq<char>)
    ensures
        match client_named(keyword) {
            Some(c) => c.name() == keyword,
            None => forall|c: ClientChatCommand| (#[trigger] c.name()) != keyword,
        },
{
    text::lemma_place_of(client_keywords(), keyword);
    let at = text::place_of(client_keywords(), keyword) as int;
    if at < client_commands().len() {
        assert(client_keywords()[at] == keyword);
    } else {
        assert forall|c: ClientChatCommand| (#[trigger] c.name()) != keyword by {
            if c.name() == keyword {
                law_keyword_finds_its_command(c);
            }
        }
    }
}

/// Whether `a` stands before `b` in the order of the alphabet: at the first place at which they
/// differ `a` has the lesser character, or it ends there.
pub open spec fn precedes(a: Seq<char>, b: Seq<char>) -> bool {
    exists|k: int|
        #![trigger a.take(k)]
        0 <= k <= a.len() && k < b.len() && a.take(k) == b.take(k) && (k == a.len() || a[k]
            < b[k])
}

/// The commands are sorted alphabetically by their keywords.
pub proof fn law_commands_are_sorted(i: int, j: int)
    requires
        0 <= i < j < client_commands().len(),
    ensures
        precedes(client_keywords()[i], client_keywords()[j]),
{
    lemma_keywords();
    let a = client_keywords()[i];
    let b = client_keywords()[j];
    assert(a.take(0) =~= b.take(0));
    assert(a[0] < b[0]);
}

/// What is said of a spec is said of what it holds.
pub proof fn law_view_of_a_spec(spec: ArgumentSpec)
    ensures
        match spec {
            ArgumentSpec::PlayerName(r) => spec.deep_view() == ArgumentView::PlayerName(r),
            ArgumentSpec::EntityTarget(r) => spec.deep_view() == ArgumentView::EntityTarget(r),
            ArgumentSpec::SiteName(r) => spec.deep_view() == ArgumentView::SiteName(r),
            ArgumentSpec::Float(l, x, r) => spec.deep_view() == ArgumentView::Float(l@, x@, r),
            ArgumentSpec::Integer(l, x, r) => spec.deep_view() == ArgumentView::Integer(l@, x, r),
            ArgumentSpec::Any(l, r) => spec.deep_view() == ArgumentView::Any(l@, r),
            ArgumentSpec::Command(r) => spec.deep_view() == ArgumentView::Command(r),
            ArgumentSpec::Message(r) => spec.deep_view() == ArgumentView::Message(r),
            ArgumentSpec::SubCommand => spec.deep_view() == ArgumentView::SubCommand,
            ArgumentSpec::Enum(l, values, r) => spec.deep_view() == ArgumentView::Enum(
                l@,
                values@.map_values(|s: String| s@),
                r,
            ),
            ArgumentSpec::AssetPath(l, prefix, paths, r) => spec.deep_view()
                == ArgumentView::AssetPath(l@, prefix@, paths@.map_values(|s: String| s@), r),
            ArgumentSpec::Boolean(l, x, r) => spec.deep_view() == ArgumentView::Boolean(l@, x@, r),
            ArgumentSpec::Flag(name) => spec.deep_view() == ArgumentView::Flag(name@),
        },
{
    match spec {
        ArgumentSpec::Enum(_, values, _) => {
            assert(values.deep_view() =~= values@.map_values(|s: String| s@));
        },
        ArgumentSpec::AssetPath(_, _, paths, _) => {
            assert(paths.deep_view() =~= paths@.map_values(|s: String| s@));
        },
        _ => {},
    }
}

/// A sub-command has to be given, a flag never has to; any other argument has to be given where
/// it says so, which is where its usage stands in angle brackets.
pub proof fn law_usage_shows_what_is_required(arg: ArgumentView)
    ensures
        arg is SubCommand ==> arg.requirement() == Requirement::Required,
        arg is Flag ==> arg.requirement() == Requirement::Optional,
        arg.usage().len() >= 2,
        arg !is SubCommand ==> (arg.requirement() == Requirement::Required <==> arg.usage()[0]
            == '<' && arg.usage().last() == '>'),
        arg !is SubCommand ==> (arg.requirement() == Requirement::Optional <==> arg.usage()[0]
            == '[' && arg.usage().last() == ']'),
        match arg {
            ArgumentView::PlayerName(r) => arg.requirement() == r,
            ArgumentView::EntityTarget(r) => arg.requirement() == r,
            ArgumentView::SiteName(r) => arg.requirement() == r,
            ArgumentView::Command(r) => arg.requirement() == r,
            ArgumentView::Message(r) => arg.requirement() == r,
            ArgumentView::Float(l, _, r) => arg.requirement() == r && arg.usage().subrange(
                1,
                arg.usage().len() - 1,
            ) == l,
            ArgumentView::Integer(l, _, r) => arg.requirement() == r && arg.usage().subrange(
                1,
                arg.usage().len() - 1,
            ) == l,
            ArgumentView::Any(l, r) => arg.requirement() == r && arg.usage().subrange(
                1,
                arg.usage().len() - 1,
            ) == l,
            ArgumentView::Enum(l, _, r) => arg.requirement() == r && arg.usage().subrange(
                1,
                arg.usage().len() - 1,
            ) == l,
            ArgumentView::AssetPath(l, _, _, r) => arg.requirement() == r && arg.usage().subrange(
                1,
                arg.usage().len() - 1,
            ) == l,
            ArgumentView::Boolean(l, _, r) => arg.requirement() == r && arg.usage().subrange(
                1,
                arg.usage().len() - 1,
            ) == l,
            ArgumentView::Flag(l) => arg.usage().subrange(1, arg.usage().len() - 1) == l,
            _ => true,
        },
{
    reveal_strlit("<");
    reveal_strlit(">");
    reveal_strlit("[");
    reveal_strlit("]");
    reveal_strlit("<[/]command> [args...]");
    match arg {
        ArgumentView::Float(l, _, _) => {
            assert(arg.usage().subrange(1, arg.usage().len() - 1) =~= l);
        },
        ArgumentView::Integer(l, _, _) => {
            assert(arg.usage().subrange(1, arg.usage().len() - 1) =~= l);
        },
        ArgumentView::Any(l, _) => {
            assert(arg.usage().subrange(1, arg.usage().len() - 1) =~= l);
        },
        ArgumentView::Enum(l, _, _) => {
            assert(arg.usage().subrange(1, arg.usage().len() - 1) =~= l);
        },
        ArgumentView::AssetPath(l, _, _, _) => {
            assert(arg.usage().subrange(1, arg.usage().len() - 1) =~= l);
        },
        ArgumentView::Boolean(l, _, _) => {
            assert(arg.usage().subrange(1, arg.usage().len() - 1) =~= l);
        },
        ArgumentView::Flag(l) => {
            assert(arg.usage().subrange(1, arg.usage().len() - 1) =~= l);
        },
        _ => {},
    }
}

/// The experimental shaders are what the argument of their command can be, all of them in their
/// order; the arguments of the other commands do not depend on them.
pub proof fn law_shaders_are_the_values(c: ClientChatCommand, shaders: Seq<Seq<char>>)
    ensures
        c is ExperimentalShader ==> c.arguments(shaders).len() == 1 && (c.arguments(
            shaders,
        )[0] matches ArgumentView::Enum(_, values, Requirement::Optional) && values == shaders),
        c !is ExperimentalShader ==> c.arguments(shaders) == c.arguments(Seq::empty()),
{
}

/// A site and a message are scanned to the end of the line, a whole number as one, a sub-command
/// as a word with the rest of the line behind it, and anything else as one word.
pub proof fn law_how_an_argument_is_scanned(arg: ArgumentView)
    ensures
        arg.format() == "{/.*/}"@ <==> arg is SiteName || arg is Message,
        arg.format() == "{d}"@ <==> arg is Integer,
        arg.format() == "{} {/.*/}"@ <==> arg is SubCommand,
        arg.format() == "{}"@ <==> !(arg is SiteName || arg is Message || arg is Integer
            || arg is SubCommand),
{
    reveal_strlit("{/.*/}");
    reveal_strlit("{d}");
    reveal_strlit("{} {/.*/}");
    reveal_strlit("{}");
    assert("{d}"@.len() == 3 && "{}"@.len() == 2 && "{/.*/}"@.len() == 6 && "{} {/.*/}"@.len() == 9);
}

} // verus!
