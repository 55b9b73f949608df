use vstd::prelude::*;

use crate::command::{ArgumentSpec, ArgumentView, ClientChatCommand, Requirement};
use crate::number;
use crate::server;
use crate::server::{ChatCommandKind, ServerChatCommand, ServerView};
use crate::target;
use crate::target::{ClientEntityTarget, EntityContext, PREFIX};
use crate::text;

verus! {

/// Represents the feedback shown to the user of a command, if any. Server commands give their
/// feedback as an event, so in those cases this will always be Ok(None). An Err variant will be
/// displayed with the error icon and text color
pub type CommandResult = Result<Option<String>, String>;

/// Whether the reading of the specs for `arg` ends at `spec`: it has to be given, or `arg` names
/// the command that begins there.
pub open spec fn ends_at(table: Seq<ServerView>, spec: ArgumentView, arg: Seq<char>) -> bool {
    ||| spec.requirement() == Requirement::Required
    ||| spec is SubCommand && server::with_keyword(table, arg) is Some
}

/// The first of `specs` at which the reading for `arg` ends, or their number.
pub open spec fn end_of(table: Seq<ServerView>, specs: Seq<ArgumentView>, arg: Seq<char>) -> nat
    decreases specs.len(),
{
    if specs.len() == 0 || ends_at(table, specs[0], arg) {
        0
    } else {
        1 + end_of(table, specs.drop_first(), arg)
    }
}

/// Whether one of the first `n` specs takes an entity.
pub open spec fn takes_entity(specs: Seq<ArgumentView>, n: int) -> bool {
    exists|k: int| 0 <= k < n && k < specs.len() && (#[trigger] specs[k]) is EntityTarget
}

/// What is known while the arguments of a command are walked through: the specs of the command
/// that an argument belongs to, and the place of that command's first argument.
#[verifier::ext_equal]
pub struct Walk {
    pub specs: Seq<ArgumentView>,
    pub start: int,
}

impl Walk {
    /// The specs that the argument at `i` can belong to; none where `i` lies outside of them.
    pub open spec fn open_specs(self, i: int) -> Option<Seq<ArgumentView>> {
        if 0 <= i - self.start <= self.specs.len() {
            Some(self.specs.skip(i - self.start))
        } else {
            None
        }
    }

    /// Whether the argument at `i` can be an entity.
    pub open spec fn entity_at(self, table: Seq<ServerView>, i: int, arg: Seq<char>) -> bool {
        match self.open_specs(i) {
            Some(specs) => takes_entity(specs, end_of(table, specs, arg) as int + 1),
            None => self.specs.len() > 0 && self.specs.last() is SubCommand,
        }
    }

    /// The walk behind the argument at `i`: where that argument names a command of the server
    /// and a command can stand there, it goes on with the arguments of that command.
    pub open spec fn next(self, table: Seq<ServerView>, i: int, arg: Seq<char>) -> Walk {
        match self.open_specs(i) {
            Some(specs) => {
                let end = end_of(table, specs, arg) as int;
                match server::with_keyword(table, arg) {
                    Some(c) if end < specs.len() && specs[end] is SubCommand => Walk {
                        specs: table[c].args,
                        start: i + end + 1,
                    },
                    _ => self,
                }
            },
            None => self,
        }
    }

    /// The argument at `i`, behind the prefix of the asset paths where it is one.
    pub open spec fn with_path(self, i: int, arg: Seq<char>) -> Seq<char> {
        if i < self.specs.len() {
            match self.specs[i] {
                ArgumentView::AssetPath(_, prefix, _, _) => prefix + "."@ + arg,
                _ => arg,
            }
        } else {
            arg
        }
    }
}

/// The message for a keyword that names no target.
pub open spec fn unknown_target(keyword: Seq<char>) -> Seq<char> {
    "Expected "@ + text::joined(target::target_keywords(), "/"@) + " after '@' found "@ + keyword
}

/// An entity by its uid.
pub open spec fn uid_text(uid: u64) -> Seq<char> {
    "uid@"@ + number::decimal(uid as nat)
}

/// What an argument that begins with `@` is replaced by, or the message that it names no
/// entity.
pub open spec fn entity_text(context: EntityContext, arg: Seq<char>) -> Result<
    Seq<char>,
    Seq<char>,
> {
    let keyword = text::trimmed_start(arg, PREFIX);
    match target::target_named(keyword) {
        Some(t) => match context.resolved(t) {
            Ok(uid) => Ok(uid_text(uid)),
            Err(message) => Err(message),
        },
        None => Err(unknown_target(keyword)),
    }
}

/// What the argument at `i` becomes, or the message that stops the command.
pub open spec fn rewritten(
    table: Seq<ServerView>,
    context: EntityContext,
    walk: Walk,
    i: int,
    arg: Seq<char>,
) -> Result<Seq<char>, Seq<char>> {
    let path = walk.next(table, i, arg).with_path(i, arg);
    if walk.entity_at(table, i, arg) && path.len() > 0 && path[0] == PREFIX {
        entity_text(context, path)
    } else {
        Ok(path)
    }
}

/// What the arguments become from `i` on, and the message that stops the command, if any. The
/// argument that stops it keeps the prefix of the asset paths, those behind it stay as they are.
pub open spec fn preprocessed(
    table: Seq<ServerView>,
    context: EntityContext,
    walk: Walk,
    args: Seq<Seq<char>>,
    i: int,
) -> (Seq<Seq<char>>, Option<Seq<char>>)
    decreases args.len() - i,
{
    if i < 0 || i >= args.len() {
        (args, None)
    } else {
        let next = walk.next(table, i, args[i]);
        match rewritten(table, context, walk, i, args[i]) {
            Ok(arg) => preprocessed(table, context, next, args.update(i, arg), i + 1),
            Err(message) => (args.update(i, next.with_path(i, args[i])), Some(message)),
        }
    }
}

/// The arguments that a command takes.
pub open spec fn arguments_of(command: ChatCommandKind<'_>, shaders: Seq<Seq<char>>) -> Seq<
    ArgumentView,
> {
    match command {
        ChatCommandKind::Client(c) => c.arguments(shaders),
        ChatCommandKind::Server(c) => c.args.deep_view(),
    }
}

/// What is found in the specs that an argument can belong to.
struct Scan {
    /// One of them takes an entity.
    entity: bool,
    /// The place of the sub-command that the argument names, and that command's place in the
    /// table.
    command: Option<(usize, usize)>,
}

#[verifier::loop_isolation(false)]
fn scan(
    table: &Vec<ServerChatCommand>,
    specs: &Vec<ArgumentSpec>,
    offset: usize,
    arg: &str,
) -> (found: Scan)
    requires
        offset <= specs@.len(),
    ensures
        ({
            let open = specs.deep_view().skip(offset as int);
            let end = end_of(table.deep_view(), open, arg@) as int;
            &&& found.entity == takes_entity(open, end + 1)
            &&& match found.command {
                Some((j, c)) => {
                    &&& j == end < open.len()
                    &&& open[end] is SubCommand
                    &&& server::with_keyword(table.deep_view(), arg@) == Some(c as int)
                    &&& c < table@.len()
                },
                None => !(end < open.len() && open[end] is SubCommand && server::with_keyword(
                    table.deep_view(),
                    arg@,
                ) is Some),
            }
        }),
{
    let ghost commands = table.deep_view();
    let ghost open = specs.deep_view().skip(offset as int);
    let named: Option<usize> = ServerChatCommand::with_keyword(table, arg);
    let mut entity: bool = false;
    let n: usize = specs.len() - offset;
    assert(open.skip(0) =~= open);
    for j in 0..n
        invariant
            end_of(commands, open, arg@) == j + end_of(commands, open.skip(j as int), arg@),
            entity == takes_entity(open, j as int),
    {
        let spec = &specs[offset + j];
        proof {
            assert(open.skip(j as int).drop_first() =~= open.skip(j + 1));
            assert(open.skip(j as int)[0] == open[j as int]);
            assert(open[j as int] == spec.deep_view());
            if entity {
                let k = choose|k: int|
                    0 <= k < j && k < open.len() && (#[trigger] open[k]) is EntityTarget;
                assert(open[k] is EntityTarget);
            }
        }
        match spec {
            ArgumentSpec::EntityTarget(_) => {
                entity = true;
            },
            ArgumentSpec::SubCommand => {
                if let Some(c) = named {
                    return Scan { entity, command: Some((j, c)) };
                }
            },
            _ => {},
        }
        match spec.requirement() {
            Requirement::Required => {
                return Scan { entity, command: None };
            },
            Requirement::Optional => {},
        }
    }
    Scan { entity, command: None }
}

fn target_text(context: &EntityContext, arg: &str) -> (replaced: Result<String, String>)
    ensures
        match replaced {
            Ok(s) => entity_text(*context, arg@) == Ok::<Seq<char>, Seq<char>>(s@),
            Err(m) => entity_text(*context, arg@) == Err::<Seq<char>, Seq<char>>(m@),
        },
{
    let keyword: String = text::trim_start(arg, PREFIX);
    match ClientEntityTarget::from_keyword(keyword.as_str()) {
        Some(t) => match context.resolve(t) {
            Ok(uid) => {
                let mut s: String = "uid@".to_owned();
                s.append(number::to_decimal(uid).as_str());
                Ok(s)
            },
            Err(message) => Err(message),
        },
        None => {
            let mut message: String = "Expected ".to_owned();
            message.append(text::join(&ClientEntityTarget::keywords(), "/").as_str());
            message.append(" after '@' found ");
            message.append(keyword.as_str());
            Err(message)
        },
    }
}

/// Prepares the arguments of a command: puts the prefix of the asset paths before an asset path,
/// and replaces `@` and the keyword of an entity by that entity's uid, where an entity can
/// stand. An argument that names a command of the server, where a sub-command can stand, makes
/// those behind it arguments of that command.
#[verifier::loop_isolation(false)]
pub fn preproccess_command(
    context: &EntityContext,
    table: &Vec<ServerChatCommand>,
    shaders: &Vec<String>,
    command: &ChatCommandKind<'_>,
    args: &mut Vec<String>,
) -> (result: CommandResult)
    ensures
        ({
            let walk = Walk { specs: arguments_of(*command, shaders.deep_view()), start: 0 };
            let (replaced, message) = preprocessed(
                table.deep_view(),
                *context,
                walk,
                old(args).deep_view(),
                0,
            );
            &&& final(args).deep_view() == replaced
            &&& match result {
                Ok(feedback) => feedback is None && message is None,
                Err(m) => message == Some(m@),
            }
        }),
{
    let ghost commands = table.deep_view();
    let client_args: Vec<ArgumentSpec> = match command {
        ChatCommandKind::Client(c) => c.data(shaders).args,
        ChatCommandKind::Server(_) => Vec::new(),
    };
    let mut specs: &Vec<ArgumentSpec> = match command {
        ChatCommandKind::Client(_) => &client_args,
        ChatCommandKind::Server(c) => &c.args,
    };
    // Where optional specs lie before a sub-command, `start` lies behind the next arguments, and
    // those are outside of the specs
    let mut start: u128 = 0;
    let ghost mut walk = Walk { specs: arguments_of(*command, shaders.deep_view()), start: 0 };
    let ghost whole = preprocessed(commands, *context, walk, args.deep_view(), 0);
    let mut i: usize = 0;
    while i < args.len()
        invariant
            i <= args@.len(),
            walk.specs == specs.deep_view(),
            walk.start == start,
            0 <= start <= i + u64::MAX,
            preprocessed(commands, *context, walk, args.deep_view(), i as int) == whole,
        decreases args@.len() - i,
    {
        let mut arg: String = args[i].clone();
        let ghost before = args.deep_view();
        assert(before[i as int] == arg@);
        let ghost old_arg = arg@;
        let mut entity: bool = false;
        if i as u128 >= start && i as u128 - start <= specs.len() as u128 {
            let offset: usize = (i as u128 - start) as usize;
            let found: Scan = scan(table, specs, offset, arg.as_str());
            entity = found.entity;
            if let Some((j, c)) = found.command {
                specs = &table[c].args;
                start = i as u128 + j as u128 + 1;
                assert(commands[c as int] == table@[c as int].deep_view());
            }
        } else if specs.len() > 0 {
            assert(walk.specs.last() == specs@[specs@.len() - 1].deep_view());
            if let ArgumentSpec::SubCommand = &specs[specs.len() - 1] {
                entity = true;
            }
        }
        proof {
            walk = walk.next(commands, i as int, old_arg);
        }
        if i < specs.len() {
            assert(walk.specs[i as int] == specs@[i as int].deep_view());
            if let ArgumentSpec::AssetPath(_, prefix, _, _) = &specs[i] {
                let mut path: String = prefix.clone();
                path.append(".");
                path.append(arg.as_str());
                arg = path;
            }
        }
        if entity && text::starts_with_char(arg.as_str(), PREFIX) {
            match target_text(context, arg.as_str()) {
                Ok(s) => {
                    arg = s;
                },
                Err(message) => {
                    args[i] = arg;
                    assert(args.deep_view() =~= before.update(
                        i as int,
                        walk.with_path(i as int, old_arg),
                    ));
                    return Err(message);
                },
            }
        }
        let ghost new_arg = arg@;
        args[i] = arg;
        assert(args.deep_view() =~= before.update(i as int, new_arg));
        i = i + 1;
    }
    Ok(None)
}

/// A command gets as many arguments as were typed.
pub proof fn law_number_of_arguments_is_kept(
    table: Seq<ServerView>,
    context: EntityContext,
    walk: Walk,
    args: Seq<Seq<char>>,
    i: int,
)
    ensures
        preprocessed(table, context, walk, args, i).0.len() == args.len(),
    decreases args.len() - i,
{
    if 0 <= i < args.len() {
        if let Ok(arg) = rewritten(table, context, walk, i, args[i]) {
            law_number_of_arguments_is_kept(
                table,
                context,
                walk.next(table, i, args[i]),
                args.update(i, arg),
                i + 1,
            );
        }
    }
}

/// The walk on which the argument at `k` is reached, where it goes on from the one at `i`.
pub open spec fn walked(
    table: Seq<ServerView>,
    walk: Walk,
    args: Seq<Seq<char>>,
    i: int,
    k: int,
) -> Walk
    decreases k - i,
{
    if k <= i {
        walk
    } else {
        walked(table, walk.next(table, i, args[i]), args, i + 1, k)
    }
}

/// What the argument at `k` becomes as it was typed, where the walk goes on from the one at `i`.
pub open spec fn rewritten_at(
    table: Seq<ServerView>,
    context: EntityContext,
    walk: Walk,
    args: Seq<Seq<char>>,
    i: int,
    k: int,
) -> Result<Seq<char>, Seq<char>> {
    rewritten(table, context, walked(table, walk, args, i, k), k, args[k])
}

/// Whether the command is stopped by the argument at `at`: that one gives the message, those
/// before it are rewritten, those behind it stay as they were typed.
pub open spec fn stopped_by(
    table: Seq<ServerView>,
    context: EntityContext,
    walk: Walk,
    args: Seq<Seq<char>>,
    i: int,
    at: int,
) -> bool {
    let (after, message) = preprocessed(table, context, walk, args, i);
    &&& i <= at < args.len()
    &&& message is Some
    &&& rewritten_at(table, context, walk, args, i, at) == Err::<Seq<char>, Seq<char>>(message->0)
    &&& forall|k: int|
        i <= k < at ==> #[trigger] rewritten_at(table, context, walk, args, i, k) == Ok::<
            Seq<char>,
            Seq<char>,
        >(after[k])
    &&& after.skip(at + 1) == args.skip(at + 1)
}

/// Where nothing stops a command, every argument has become what it is rewritten to; where a
/// message stops it, that of the first argument that cannot be rewritten, this holds up to that
/// argument, and those behind it are left as they were typed.
pub proof fn law_each_argument_is_rewritten(
    table: Seq<ServerView>,
    context: EntityContext,
    walk: Walk,
    args: Seq<Seq<char>>,
    i: int,
)
    requires
        0 <= i,
    ensures
        match preprocessed(table, context, walk, args, i) {
            (after, None) => forall|k: int|
                i <= k < args.len() ==> #[trigger] rewritten_at(table, context, walk, args, i, k)
                    == Ok::<Seq<char>, Seq<char>>(after[k]),
            (_, Some(_)) => exists|at: int| stopped_by(table, context, walk, args, i, at),
        },
    decreases args.len() - i,
{
    if i < args.len() {
        let (after, message) = preprocessed(table, context, walk, args, i);
        let next = walk.next(table, i, args[i]);
        assert(walked(table, walk, args, i, i) == walk);
        match rewritten(table, context, walk, i, args[i]) {
            Ok(arg) => {
                let updated = args.update(i, arg);
                law_each_argument_is_rewritten(table, context, next, updated, i + 1);
                lemma_earlier_argument_stays(table, context, next, updated, i + 1, i);
                assert forall|k: int| i < k < args.len() implies rewritten_at(
                    table,
                    context,
                    next,
                    updated,
                    i + 1,
                    k,
                ) == #[trigger] rewritten_at(table, context, walk, args, i, k) by {
                    lemma_walk_reads_on(table, next, args, arg, i, i + 1, k);
                }
                if message is Some {
                    let j = i + 1;
                    let at = choose|at: int| stopped_by(table, context, next, updated, j, at);
                    assert(updated.skip(at + 1) =~= args.skip(at + 1));
                    assert(rewritten_at(table, context, walk, args, i, at) == rewritten_at(
                        table,
                        context,
                        next,
                        updated,
                        i + 1,
                        at,
                    ));
                    assert forall|k: int| i <= k < at implies #[trigger] rewritten_at(
                        table,
                        context,
                        walk,
                        args,
                        i,
                        k,
                    ) == Ok::<Seq<char>, Seq<char>>(after[k]) by {
                        if k > i {
                            assert(rewritten_at(table, context, next, updated, i + 1, k) == Ok::<
                                Seq<char>,
                                Seq<char>,
                            >(after[k]));
                        }
                    }
                    assert(stopped_by(table, context, walk, args, i, at));
                } else {
                    assert forall|k: int| i <= k < args.len() implies #[trigger] rewritten_at(
                        table,
                        context,
                        walk,
                        args,
                        i,
                        k,
                    ) == Ok::<Seq<char>, Seq<char>>(after[k]) by {
                        if k > i {
                            assert(rewritten_at(table, context, next, updated, i + 1, k) == Ok::<
                                Seq<char>,
                                Seq<char>,
                            >(after[k]));
                        }
                    }
                }
            },
            Err(_) => {
                assert(after.skip(i + 1) =~= args.skip(i + 1));
                assert(stopped_by(table, context, walk, args, i, i));
            },
        }
    }
}

/// What stands before `i` is not touched from `i` on.
proof fn lemma_earlier_argument_stays(
    table: Seq<ServerView>,
    context: EntityContext,
    walk: Walk,
    args: Seq<Seq<char>>,
    i: int,
    k: int,
)
    requires
        0 <= k < i,
        k < args.len(),
    ensures
        preprocessed(table, context, walk, args, i).0[k] == args[k],
    decreases args.len() - i,
{
    if i < args.len() {
        if let Ok(arg) = rewritten(table, context, walk, i, args[i]) {
            let next = walk.next(table, i, args[i]);
            lemma_earlier_argument_stays(table, context, next, args.update(i, arg), i + 1, k);
        }
    }
}

/// The walk from `j` on does not read the argument at an earlier place `i`.
proof fn lemma_walk_reads_on(
    table: Seq<ServerView>,
    walk: Walk,
    args: Seq<Seq<char>>,
    arg: Seq<char>,
    i: int,
    j: int,
    k: int,
)
    requires
        0 <= i < j,
        k < args.len(),
    ensures
        walked(table, walk, args.update(i, arg), j, k) == walked(table, walk, args, j, k),
    decreases k - j,
{
    if j < k {
        lemma_walk_reads_on(table, walk.next(table, j, args[j]), args, arg, i, j + 1, k);
    }
}

/// Whether none of `specs` is an asset path.
pub open spec fn no_paths(specs: Seq<ArgumentView>) -> bool {
    forall|i: int| 0 <= i < specs.len() ==> !((#[trigger] specs[i]) is AssetPath)
}

/// Arguments none of which begins with `@` reach a command as they were typed, where no asset
/// paths are asked for.
pub proof fn law_plain_arguments_pass(
    table: Seq<ServerView>,
    context: EntityContext,
    walk: Walk,
    args: Seq<Seq<char>>,
    i: int,
)
    requires
        no_paths(walk.specs),
        forall|c: int| 0 <= c < table.len() ==> no_paths((#[trigger] table[c]).args),
        forall|j: int|
            0 <= j < args.len() ==> !((#[trigger] args[j]).len() > 0 && args[j][0] == PREFIX),
    ensures
        preprocessed(table, context, walk, args, i) == (args, None::<Seq<char>>),
    decreases args.len() - i,
{
    if 0 <= i < args.len() {
        let next = walk.next(table, i, args[i]);
        text::lemma_place_of(server::keywords(table), args[i]);
        assert(no_paths(next.specs));
        assert(next.with_path(i, args[i]) == args[i]);
        assert(args.update(i, args[i]) =~= args);
        law_plain_arguments_pass(table, context, next, args, i + 1);
    }
}

/// Where an entity can stand, what reaches the command does not begin with `@`: it was replaced,
/// or the command was stopped.
pub proof fn law_no_keyword_is_left(
    table: Seq<ServerView>,
    context: EntityContext,
    walk: Walk,
    i: int,
    arg: Seq<char>,
)
    requires
        walk.entity_at(table, i, arg),
    ensures
        rewritten(table, context, walk, i, arg) matches Ok(s) ==> !(s.len() > 0 && s[0]
            == PREFIX),
{
    reveal_strlit("uid@");
}

/// `@` and the keyword of a target become the uid that the target stands for, or the message
/// that it stands for none.
pub proof fn law_keyword_becomes_uid(context: EntityContext, t: ClientEntityTarget)
    ensures
        entity_text(context, seq![PREFIX] + t.name()) == (match context.resolved(t) {
            Ok(uid) => Ok::<Seq<char>, Seq<char>>(uid_text(uid)),
            Err(message) => Err::<Seq<char>, Seq<char>>(message),
        }),
{
    target::law_keyword_finds_its_target(t);
    let arg = seq![PREFIX] + t.name();
    assert(arg.drop_first() =~= t.name());
    assert(text::trimmed_start(t.name(), PREFIX) == t.name());
}

/// An entity that is written by its uid is read back: what stands behind its `@` is the uid.
pub proof fn law_uid_is_read_back(uid: u64)
    ensures
        text::halves(uid_text(uid), PREFIX) matches Some((kind, rest)) && kind == "uid"@
            && number::parsed(rest) == Some(uid),
{
    reveal_strlit("uid@");
    reveal_strlit("uid");
    let s = uid_text(uid);
    let digits = number::decimal(uid as nat);
    number::law_decimal_is_read_back(uid);
    text::lemma_place_of(s, PREFIX);
    assert(s[0] == 'u' && s[1] == 'i' && s[2] == 'd' && s[3] == '@');
    let at = text::place_of(s, PREFIX) as int;
    assert(at <= 3);
    assert(at == 3);
    assert(s.take(3) =~= "uid"@);
    assert(s.skip(4) =~= digits);
}

/// What `end_of` finds: the first spec at which the reading ends.
proof fn lemma_end_of(table: Seq<ServerView>, specs: Seq<ArgumentView>, arg: Seq<char>)
    ensures
        ({
            let end = end_of(table, specs, arg) as int;
            &&& end <= specs.len()
            &&& end < specs.len() ==> ends_at(table, specs[end], arg)
            &&& forall|m: int| 0 <= m < end ==> !ends_at(table, #[trigger] specs[m], arg)
        }),
    decreases specs.len(),
{
    if specs.len() > 0 && !ends_at(table, specs[0], arg) {
        let rest = specs.drop_first();
        lemma_end_of(table, rest, arg);
        let end = end_of(table, specs, arg) as int;
        assert forall|m: int| 0 <= m < end implies !ends_at(table, #[trigger] specs[m], arg) by {
            if m > 0 {
                assert(rest[m - 1] == specs[m]);
            }
        }
        if end < specs.len() {
            assert(rest[end - 1] == specs[end]);
        }
    }
}

/// Whether the argument at `i` of a command with these specs can be an entity: one of the specs
/// from there on takes one and all those before it can be left out, or the argument lies past
/// the end of specs that end with a sub-command.
pub open spec fn entity_can_stand(specs: Seq<ArgumentView>, i: int) -> bool {
    ||| exists|k: int|
        0 <= i <= k < specs.len() && (#[trigger] specs[k]) is EntityTarget && forall|m: int|
            i <= m < k ==> (#[trigger] specs[m]).requirement() == Requirement::Optional
    ||| i > specs.len() > 0 && specs.last() is SubCommand
}

/// An argument can be an entity exactly where its command, whose arguments begin at the start of
/// the walk, can take one there; before that start as past the end.
pub proof fn law_where_an_entity_can_stand(
    table: Seq<ServerView>,
    walk: Walk,
    i: int,
    arg: Seq<char>,
)
    ensures
        walk.start <= i ==> (walk.entity_at(table, i, arg) <==> entity_can_stand(
            walk.specs,
            i - walk.start,
        )),
        i < walk.start ==> (walk.entity_at(table, i, arg) <==> walk.specs.len() > 0
            && walk.specs.last() is SubCommand),
{
    let at = i - walk.start;
    if 0 <= at <= walk.specs.len() {
        let open = walk.specs.skip(at);
        lemma_end_of(table, open, arg);
        let end = end_of(table, open, arg) as int;
        if takes_entity(open, end + 1) {
            let k = choose|k: int|
                0 <= k < end + 1 && k < open.len() && (#[trigger] open[k]) is EntityTarget;
            assert(walk.specs[at + k] is EntityTarget);
            assert forall|m: int| at <= m < at + k implies (
            #[trigger] walk.specs[m]).requirement() == Requirement::Optional by {
                assert(open[m - at] == walk.specs[m]);
                assert(!ends_at(table, open[m - at], arg));
            }
        }
        if entity_can_stand(walk.specs, at) {
            let k = choose|k: int|
                0 <= at <= k < walk.specs.len() && (#[trigger] walk.specs[k]) is EntityTarget
                    && forall|m: int|
                    at <= m < k ==> (#[trigger] walk.specs[m]).requirement()
                        == Requirement::Optional;
            assert(open[k - at] is EntityTarget);
            if end < k - at {
                assert(open[end] == walk.specs[at + end]);
                assert(walk.specs[at + end].requirement() == Requirement::Optional);
                assert(ends_at(table, open[end], arg));
            }
        }
    }
}

/// An argument that names a command of the server, the first with this keyword, where a
/// sub-command can stand makes those behind that spec arguments of the command it names.
pub proof fn law_sub_command_takes_over(
    table: Seq<ServerView>,
    walk: Walk,
    i: int,
    arg: Seq<char>,
    k: int,
    c: int,
)
    requires
        0 <= i - walk.start <= k < walk.specs.len(),
        walk.specs[k] is SubCommand,
        forall|m: int|
            i - walk.start <= m < k ==> (#[trigger] walk.specs[m]).requirement()
                == Requirement::Optional,
        0 <= c < table.len(),
        table[c].keyword == arg,
        forall|d: int| 0 <= d < c ==> (#[trigger] table[d]).keyword != arg,
    ensures
        walk.next(table, i, arg) == (Walk { specs: table[c].args, start: walk.start + k + 1 }),
{
    let at = i - walk.start;
    let open = walk.specs.skip(at);
    lemma_end_of(table, open, arg);
    let end = end_of(table, open, arg) as int;
    server::law_keyword_is_found_first(table, arg);
    let found = server::with_keyword(table, arg)->0;
    assert(server::with_keyword(table, arg) == Some(c)) by {
        if server::with_keyword(table, arg) is Some {
            if c < found {
                assert(table[c].keyword != arg);
            }
        } else {
            assert(table[c].keyword != arg);
        }
    }
    assert(open[k - at] == walk.specs[k]);
    assert(end == k - at) by {
        if end < k - at {
            assert(open[end] == walk.specs[at + end]);
            assert(walk.specs[at + end].requirement() == Requirement::Optional);
            assert(ends_at(table, open[end], arg));
        }
        if k - at < end {
            assert(!ends_at(table, open[k - at], arg));
        }
    }
}

/// Any other argument leaves the walk as it is: one that is no keyword of a command of the
/// server, and one where no sub-command can stand.
pub proof fn law_walk_goes_on(table: Seq<ServerView>, walk: Walk, i: int, arg: Seq<char>)
    requires
        ({
            ||| forall|d: int| 0 <= d < table.len() ==> (#[trigger] table[d]).keyword != arg
            ||| i < walk.start
            ||| forall|k: int|
                i - walk.start <= k < walk.specs.len() && (#[trigger] walk.specs[k]) is SubCommand
                    ==> exists|m: int|
                    i - walk.start <= m < k && (#[trigger] walk.specs[m]).requirement()
                        == Requirement::Required
        }),
    ensures
        walk.next(table, i, arg) == walk,
{
    server::law_keyword_is_found_first(table, arg);
    let at = i - walk.start;
    if 0 <= at <= walk.specs.len() {
        let open = walk.specs.skip(at);
        lemma_end_of(table, open, arg);
        let end = end_of(table, open, arg) as int;
        if end < open.len() && open[end] is SubCommand && server::with_keyword(
            table,
            arg,
        ) is Some {
            assert(walk.specs[at + end] is SubCommand);
            let m = choose|m: int|
                at <= m < at + end && (#[trigger] walk.specs[m]).requirement()
                    == Requirement::Required;
            assert(open[m - at] == walk.specs[m]);
            assert(!ends_at(table, open[m - at], arg));
        }
    }
}

/// Whether no command of the server has one of the arguments from `i` up to `k` as its keyword.
pub open spec fn no_command_named(
    table: Seq<ServerView>,
    args: Seq<Seq<char>>,
    i: int,
    k: int,
) -> bool {
    forall|j: int, d: int|
        #![trigger args[j], table[d]]
        i <= j <= k && 0 <= d < table.len() ==> table[d].keyword != args[j]
}

proof fn lemma_walk_stays(
    table: Seq<ServerView>,
    walk: Walk,
    args: Seq<Seq<char>>,
    i: int,
    k: int,
)
    requires
        no_command_named(table, args, i, k - 1),
    ensures
        walked(table, walk, args, i, k) == walk,
    decreases k - i,
{
    if i < k {
        assert forall|d: int| 0 <= d < table.len() implies (#[trigger] table[d]).keyword
            != args[i] by {}
        law_walk_goes_on(table, walk, i, args[i]);
        lemma_walk_stays(table, walk, args, i + 1, k);
    }
}

/// What becomes of the argument at `k` where nothing stopped the command, and no argument up to
/// it names a command of the server.
proof fn lemma_argument_at(
    table: Seq<ServerView>,
    context: EntityContext,
    walk: Walk,
    args: Seq<Seq<char>>,
    i: int,
    k: int,
)
    requires
        0 <= i <= k < args.len(),
        no_command_named(table, args, i, k),
        preprocessed(table, context, walk, args, i).1 is None,
    ensures
        rewritten(table, context, walk, k, args[k]) == Ok::<Seq<char>, Seq<char>>(
            preprocessed(table, context, walk, args, i).0[k],
        ),
        walk.next(table, k, args[k]) == walk,
{
    law_each_argument_is_rewritten(table, context, walk, args, i);
    lemma_walk_stays(table, walk, args, i, k);
    assert(rewritten_at(table, context, walk, args, i, k) == Ok::<Seq<char>, Seq<char>>(
        preprocessed(table, context, walk, args, i).0[k],
    ));
    assert forall|d: int| 0 <= d < table.len() implies (#[trigger] table[d]).keyword
        != args[k] by {}
    law_walk_goes_on(table, walk, k, args[k]);
}

/// Where a command asks for an asset path, the argument that reaches it is the prefix of its
/// paths, a point, and what was typed, whatever that is. This holds from any place of the walk
/// on: `walk` belongs to the command whose specs are asked, and no argument from there up to
/// this one names a command of the server.
pub proof fn law_asset_path_gets_its_prefix(
    table: Seq<ServerView>,
    context: EntityContext,
    walk: Walk,
    args: Seq<Seq<char>>,
    i: int,
    k: int,
    prefix: Seq<char>,
)
    requires
        0 <= i <= k < args.len(),
        k < walk.specs.len(),
        walk.specs[k] matches ArgumentView::AssetPath(_, p, _, _) && p == prefix,
        prefix.len() > 0 && prefix[0] == PREFIX ==> walk.start == 0
            && walk.specs[k].requirement() == Requirement::Required,
        no_command_named(table, args, i, k),
        preprocessed(table, context, walk, args, i).1 is None,
    ensures
        preprocessed(table, context, walk, args, i).0[k] == prefix + "."@ + args[k],
{
    let path = prefix + "."@ + args[k];
    lemma_path_start(prefix, args[k]);
    lemma_argument_at(table, context, walk, args, i, k);
    assert(walk.with_path(k, args[k]) == path);
    if path[0] == PREFIX {
        lemma_required_spec_takes_itself(walk.specs, k);
        law_where_an_entity_can_stand(table, walk, k, args[k]);
    }
}

proof fn lemma_path_start(prefix: Seq<char>, arg: Seq<char>)
    ensures
        (prefix + "."@ + arg).len() > 0,
        (prefix + "."@ + arg)[0] == (if prefix.len() > 0 {
            prefix[0]
        } else {
            '.'
        }),
{
    reveal_strlit(".");
}

proof fn lemma_required_spec_takes_itself(specs: Seq<ArgumentView>, k: int)
    requires
        0 <= k < specs.len(),
        specs[k].requirement() == Requirement::Required,
        !(specs[k] is EntityTarget),
    ensures
        !entity_can_stand(specs, k),
{
    if entity_can_stand(specs, k) {
        let e = choose|e: int|
            0 <= k <= e < specs.len() && (#[trigger] specs[e]) is EntityTarget && forall|m: int|
                k <= m < e ==> (#[trigger] specs[m]).requirement() == Requirement::Optional;
        assert(specs[k].requirement() == Requirement::Optional);
    }
}

/// Where a command asks for no asset path, an argument that does not begin with `@` reaches it as
/// it was typed, and so does any argument where no entity can stand.
pub proof fn law_other_arguments_pass(
    table: Seq<ServerView>,
    context: EntityContext,
    walk: Walk,
    args: Seq<Seq<char>>,
    i: int,
    k: int,
)
    requires
        0 <= i <= k < args.len(),
        k < walk.specs.len() ==> !(walk.specs[k] is AssetPath),
        args[k].len() == 0 || args[k][0] != PREFIX || (if walk.start <= k {
            !entity_can_stand(walk.specs, k - walk.start)
        } else {
            walk.specs.len() == 0 || !(walk.specs.last() is SubCommand)
        }),
        no_command_named(table, args, i, k),
        preprocessed(table, context, walk, args, i).1 is None,
    ensures
        preprocessed(table, context, walk, args, i).0[k] == args[k],
{
    lemma_argument_at(table, context, walk, args, i, k);
    law_where_an_entity_can_stand(table, walk, k, args[k]);
}

/// Where an entity can stand, `@`, once or more often, and the keyword of a target reach the
/// command as `uid@` and the uid that the target stands for; there is one, or the command was
/// stopped.
pub proof fn law_target_reaches_the_command_as_uid(
    table: Seq<ServerView>,
    context: EntityContext,
    walk: Walk,
    args: Seq<Seq<char>>,
    i: int,
    k: int,
    n: nat,
    t: ClientEntityTarget,
)
    requires
        0 <= i <= k < args.len(),
        walk.start <= k,
        k < walk.specs.len() ==> !(walk.specs[k] is AssetPath),
        entity_can_stand(walk.specs, k - walk.start),
        n > 0,
        args[k] == Seq::new(n, |j: int| '@') + t.name(),
        no_command_named(table, args, i, k),
        preprocessed(table, context, walk, args, i).1 is None,
    ensures
        context.resolved(t) matches Ok(uid) && preprocessed(table, context, walk, args, i).0[k]
            == "uid@"@ + number::decimal(uid as nat),
{
    lemma_argument_at(table, context, walk, args, i, k);
    law_where_an_entity_can_stand(table, walk, k, args[k]);
    target::law_keyword_finds_its_target(t);
    text::law_trim_leaves_the_rest('@', n, t.name());
    assert(args[k][0] == PREFIX);
}

/// Where an entity can stand, the first argument from `i` on that begins with `@` stops the
/// command if its keyword names no target or one that stands for nothing, with the message that
/// says so.
pub proof fn law_missing_entity_stops_the_command(
    table: Seq<ServerView>,
    context: EntityContext,
    walk: Walk,
    args: Seq<Seq<char>>,
    i: int,
    k: int,
    n: nat,
    keyword: Seq<char>,
)
    requires
        0 <= i <= k < args.len(),
        walk.start <= i,
        no_paths(walk.specs),
        entity_can_stand(walk.specs, k - walk.start),
        n > 0,
        keyword.len() == 0 || keyword[0] != '@',
        args[k] == Seq::new(n, |j: int| '@') + keyword,
        forall|j: int| i <= j < k ==> (#[trigger] args[j]).len() == 0 || args[j][0] != PREFIX,
        no_command_named(table, args, i, k),
    ensures
        (forall|t: ClientEntityTarget| (#[trigger] t.name()) != keyword) ==> preprocessed(
            table,
            context,
            walk,
            args,
            i,
        ).1 == Some(
            "Expected "@ + text::joined(target::target_keywords(), "/"@) + " after '@' found "@
                + keyword,
        ),
        forall|t: ClientEntityTarget|
            (#[trigger] t.name()) == keyword && context.resolved(t) is Err ==> preprocessed(
                table,
                context,
                walk,
                args,
                i,
            ).1 == Some(context.resolved(t)->Err_0),
    decreases k - i,
{
    assert forall|d: int| 0 <= d < table.len() implies (#[trigger] table[d]).keyword
        != args[i] by {}
    law_walk_goes_on(table, walk, i, args[i]);
    law_where_an_entity_can_stand(table, walk, i, args[i]);
    assert(walk.with_path(i, args[i]) == args[i]);
    if i < k {
        assert(args.update(i, args[i]) =~= args);
        assert(rewritten(table, context, walk, i, args[i]) == Ok::<Seq<char>, Seq<char>>(args[i]));
        assert(preprocessed(table, context, walk, args, i) == preprocessed(
            table,
            context,
            walk,
            args,
            i + 1,
        ));
        law_missing_entity_stops_the_command(
            table,
            context,
            walk,
            args,
            i + 1,
            k,
            n,
            keyword,
        );
    } else {
        text::law_trim_leaves_the_rest('@', n, keyword);
        target::law_found_target_has_the_keyword(keyword);
        assert(args[k][0] == PREFIX);
        assert forall|t: ClientEntityTarget|
            (#[trigger] t.name()) == keyword && context.resolved(t) is Err implies preprocessed(
            table,
            context,
            walk,
            args,
            i,
        ).1 == Some(context.resolved(t)->Err_0) by {
            target::law_keyword_finds_its_target(t);
        }
    }
}

/// Whether none of `specs` is an asset path whose prefix begins with `@`.
pub open spec fn plain_prefixes(specs: Seq<ArgumentView>) -> bool {
    forall|i: int|
        0 <= i < specs.len() ==> ((#[trigger] specs[i]) matches ArgumentView::AssetPath(_, p, _, _)
            ==> p.len() == 0 || p[0] != PREFIX)
}

/// Nothing but `@` at the start of an argument stops a command.
pub proof fn law_only_entities_stop_a_command(
    table: Seq<ServerView>,
    context: EntityContext,
    walk: Walk,
    args: Seq<Seq<char>>,
    i: int,
)
    requires
        0 <= i,
        plain_prefixes(walk.specs),
        forall|c: int| 0 <= c < table.len() ==> plain_prefixes((#[trigger] table[c]).args),
        forall|j: int|
            i <= j < args.len() ==> (#[trigger] args[j]).len() == 0 || args[j][0] != PREFIX,
    ensures
        preprocessed(table, context, walk, args, i).1 is None,
    decreases args.len() - i,
{
    if i < args.len() {
        reveal_strlit(".");
        let next = walk.next(table, i, args[i]);
        server::law_keyword_is_found_first(table, args[i]);
        assert(plain_prefixes(next.specs));
        let path = next.with_path(i, args[i]);
        if i < next.specs.len() {
            if let ArgumentView::AssetPath(_, p, _, _) = next.specs[i] {
                assert(path[0] == (if p.len() > 0 {
                    p[0]
                } else {
                    '.'
                }));
            }
        }
        let updated = args.update(i, path);
        assert forall|j: int| i + 1 <= j < updated.len() implies (#[trigger] updated[j]).len() == 0
            || updated[j][0] != PREFIX by {
            assert(updated[j] == args[j]);
        }
        law_only_entities_stop_a_command(table, context, next, updated, i + 1);
    }
}

/// The arguments of a command are prepared by that command's own specs, from its first argument
/// on: those that the client's commands have, and those that are listed for the server's.
pub proof fn law_arguments_of_a_command(
    c: ClientChatCommand,
    s: &ServerChatCommand,
    shaders: Seq<Seq<char>>,
)
    ensures
        arguments_of(ChatCommandKind::Client(c), shaders) == c.arguments(shaders),
        arguments_of(ChatCommandKind::Server(s), shaders) == s.args.deep_view(),
{
}

/// Arguments prepared from a later place, and from the first of a command that was typed alone.
proof fn lemma_shifted(
    table: Seq<ServerView>,
    context: EntityContext,
    walk: Walk,
    front: Seq<Seq<char>>,
    args: Seq<Seq<char>>,
    i: int,
)
    requires
        0 <= i,
        no_paths(walk.specs),
        forall|c: int| 0 <= c < table.len() ==> no_paths((#[trigger] table[c]).args),
    ensures
        ({
            let later = Walk { start: walk.start + front.len(), ..walk };
            let whole = preprocessed(table, context, later, front + args, i + front.len());
            let alone = preprocessed(table, context, walk, args, i);
            &&& whole.0 == front + alone.0
            &&& whole.1 == alone.1
        }),
    decreases args.len() - i,
{
    let n = front.len() as int;
    let later = Walk { start: walk.start + n, ..walk };
    if i < args.len() {
        let arg = args[i];
        assert((front + args)[i + n] == arg);
        server::law_keyword_is_found_first(table, arg);
        assert(later.open_specs(i + n) == walk.open_specs(i));
        let next = walk.next(table, i, arg);
        assert(later.next(table, i + n, arg) == (Walk { start: next.start + n, ..next }));
        assert(no_paths(next.specs));
        assert(next.with_path(i, arg) == arg);
        assert((Walk { start: next.start + n, ..next }).with_path(i + n, arg) == arg);
        assert(rewritten(table, context, later, i + n, arg) == rewritten(
            table,
            context,
            walk,
            i,
            arg,
        ));
        match rewritten(table, context, walk, i, arg) {
            Ok(new_arg) => {
                lemma_shifted(table, context, next, front, args.update(i, new_arg), i + 1);
                assert((front + args).update(i + n, new_arg) =~= front + args.update(i, new_arg));
            },
            Err(_) => {
                assert((front + args).update(i + n, arg) =~= front + args.update(i, arg));
            },
        }
    }
}

/// A sub-command is prepared as if it had been typed alone: behind arguments that pass and the
/// keyword of the first command with it, where the spec at that place is a sub-command, what
/// follows becomes what it becomes as the arguments of that command, and is stopped by the same
/// message.
pub proof fn law_sub_command_is_prepared_on_its_own(
    table: Seq<ServerView>,
    context: EntityContext,
    specs: Seq<ArgumentView>,
    front: Seq<Seq<char>>,
    c: int,
    rest: Seq<Seq<char>>,
)
    requires
        no_paths(specs),
        forall|d: int| 0 <= d < table.len() ==> no_paths((#[trigger] table[d]).args),
        front.len() < specs.len(),
        specs[front.len() as int] is SubCommand,
        no_command_named(table, front, 0, front.len() - 1),
        forall|j: int|
            0 <= j < front.len() ==> (#[trigger] front[j]).len() == 0 || front[j][0] != PREFIX,
        0 <= c < table.len(),
        forall|d: int| 0 <= d < c ==> (#[trigger] table[d]).keyword != table[c].keyword,
    ensures
        ({
            let whole = preprocessed(
                table,
                context,
                Walk { specs, start: 0 },
                front + seq![table[c].keyword] + rest,
                0,
            );
            let alone = preprocessed(
                table,
                context,
                Walk { specs: table[c].args, start: 0 },
                rest,
                0,
            );
            &&& whole.0 == front + seq![table[c].keyword] + alone.0
            &&& whole.1 == alone.1
        }),
{
    let n = front.len() as int;
    let args = front + seq![table[c].keyword] + rest;
    let walk = Walk { specs, start: 0 };
    assert forall|j: int| 0 <= j < n implies (#[trigger] args[j]).len() == 0 || args[j][0]
        != PREFIX by {
        assert(args[j] == front[j]);
    }
    assert forall|j: int, d: int|
        #![trigger args[j], table[d]]
        0 <= j <= n - 1 && 0 <= d < table.len() implies table[d].keyword != args[j] by {
        assert(args[j] == front[j]);
    }
    lemma_front_passes(table, context, walk, args, 0, n);
    let arg = args[n];
    assert(arg == table[c].keyword);
    law_sub_command_takes_over(table, walk, n, arg, n, c);
    law_where_an_entity_can_stand(table, walk, n, arg);
    assert(!entity_can_stand(specs, n)) by {
        if entity_can_stand(specs, n) {
            let k = choose|k: int|
                0 <= n <= k < specs.len() && (#[trigger] specs[k]) is EntityTarget && forall|m: int|
                    n <= m < k ==> (#[trigger] specs[m]).requirement() == Requirement::Optional;
            assert(specs[n].requirement() == Requirement::Optional);
        }
    }
    let next = Walk { specs: table[c].args, start: n + 1 };
    assert(next.with_path(n, arg) == arg);
    assert(args.update(n, arg) =~= args);
    assert(preprocessed(table, context, walk, args, n) == preprocessed(
        table,
        context,
        next,
        args,
        n + 1,
    ));
    lemma_shifted(
        table,
        context,
        Walk { specs: table[c].args, start: 0 },
        front + seq![table[c].keyword],
        rest,
        0,
    );
}

proof fn lemma_front_passes(
    table: Seq<ServerView>,
    context: EntityContext,
    walk: Walk,
    args: Seq<Seq<char>>,
    i: int,
    n: int,
)
    requires
        0 <= i <= n <= args.len(),
        no_paths(walk.specs),
        no_command_named(table, args, i, n - 1),
        forall|j: int| i <= j < n ==> (#[trigger] args[j]).len() == 0 || args[j][0] != PREFIX,
    ensures
        preprocessed(table, context, walk, args, i) == preprocessed(table, context, walk, args, n),
    decreases n - i,
{
    if i < n {
        assert forall|d: int| 0 <= d < table.len() implies (#[trigger] table[d]).keyword
            != args[i] by {}
        law_walk_goes_on(table, walk, i, args[i]);
        assert(walk.with_path(i, args[i]) == args[i]);
        assert(args.update(i, args[i]) =~= args);
        lemma_front_passes(table, context, walk, args, i + 1, n);
    }
}

/// Behind a sub-command the specs of the command that it names say which argument is an asset
/// path, by its place among all the arguments: where the argument at `at` names the command `c`
/// and the spec there is a sub-command, and no argument before it or from it up to the one at
/// `k` names another, that one gets the prefix of `c`'s spec number `k`.
pub proof fn law_path_behind_a_sub_command(
    table: Seq<ServerView>,
    context: EntityContext,
    specs: Seq<ArgumentView>,
    args: Seq<Seq<char>>,
    at: int,
    c: int,
    k: int,
    prefix: Seq<char>,
)
    requires
        0 <= at < k < args.len(),
        at < specs.len(),
        specs[at] is SubCommand,
        no_command_named(table, args, 0, at - 1),
        0 <= c < table.len(),
        table[c].keyword == args[at],
        forall|d: int| 0 <= d < c ==> (#[trigger] table[d]).keyword != args[at],
        no_command_named(table, args, at + 1, k),
        k < table[c].args.len(),
        table[c].args[k] matches ArgumentView::AssetPath(_, p, _, _) && p == prefix,
        prefix.len() == 0 || prefix[0] != PREFIX,
        preprocessed(table, context, Walk { specs, start: 0 }, args, 0).1 is None,
    ensures
        preprocessed(table, context, Walk { specs, start: 0 }, args, 0).0[k] == prefix + "."@
            + args[k],
{
    reveal_strlit(".");
    let walk = Walk { specs, start: 0 };
    let sub = Walk { specs: table[c].args, start: at + 1 };
    law_each_argument_is_rewritten(table, context, walk, args, 0);
    assert(rewritten_at(table, context, walk, args, 0, k) == Ok::<Seq<char>, Seq<char>>(
        preprocessed(table, context, walk, args, 0).0[k],
    ));
    lemma_walk_stays(table, walk, args, 0, at);
    law_sub_command_takes_over(table, walk, at, args[at], at, c);
    lemma_walk_step(table, walk, args, 0, at);
    lemma_walk_behind(table, walk, args, 0, at + 1, k);
    lemma_walk_stays(table, sub, args, at + 1, k);
    assert forall|d: int| 0 <= d < table.len() implies (#[trigger] table[d]).keyword
        != args[k] by {}
    law_walk_goes_on(table, sub, k, args[k]);
    let path = prefix + "."@ + args[k];
    assert(path[0] == (if prefix.len() > 0 {
        prefix[0]
    } else {
        '.'
    }));
}

/// The walk moves on by one argument at a time.
proof fn lemma_walk_step(
    table: Seq<ServerView>,
    walk: Walk,
    args: Seq<Seq<char>>,
    i: int,
    k: int,
)
    requires
        i <= k,
    ensures
        walked(table, walk, args, i, k + 1) == walked(table, walk, args, i, k).next(
            table,
            k,
            args[k],
        ),
    decreases k - i,
{
    if i < k {
        lemma_walk_step(table, walk.next(table, i, args[i]), args, i + 1, k);
    } else {
        assert(walked(table, walk.next(table, i, args[i]), args, i + 1, k + 1) == walk.next(
            table,
            i,
            args[i],
        ));
    }
}

proof fn lemma_walk_behind(
    table: Seq<ServerView>,
    walk: Walk,
    args: Seq<Seq<char>>,
    i: int,
    j: int,
    k: int,
)
    requires
        i <= j <= k,
    ensures
        walked(table, walk, args, i, k) == walked(
            table,
            walked(table, walk, args, i, j),
            args,
            j,
            k,
        ),
    decreases j - i,
{
    if i < j {
        lemma_walk_behind(table, walk.next(table, i, args[i]), args, i + 1, j, k);
    }
}

/// The arguments are gone through one at a time, each with the walk that the ones before it left:
/// an asset path gets its prefix, by the specs that hold behind the argument; what then begins
/// with `@`, where an entity could stand before it, becomes the uid of its target or stops the
/// command; the rest is prepared likewise. Past the last argument nothing is left to do.
pub proof fn law_one_argument_at_a_time(
    table: Seq<ServerView>,
    context: EntityContext,
    walk: Walk,
    args: Seq<Seq<char>>,
    i: int,
)
    requires
        0 <= i,
    ensures
        i >= args.len() ==> preprocessed(table, context, walk, args, i) == (
            args,
            None::<Seq<char>>,
        ),
        i < args.len() ==> {
            let next = walk.next(table, i, args[i]);
            let typed = if i < next.specs.len() && next.specs[i] is AssetPath {
                next.specs[i]->AssetPath_1 + "."@ + args[i]
            } else {
                args[i]
            };
            let keyword = text::trimmed_start(typed, '@');
            let result = preprocessed(table, context, walk, args, i);
            if typed.len() > 0 && typed[0] == '@' && walk.entity_at(table, i, args[i]) {
                match target::target_named(keyword) {
                    Some(t) => match context.resolved(t) {
                        Ok(uid) => result == preprocessed(
                            table,
                            context,
                            next,
                            args.update(i, "uid@"@ + number::decimal(uid as nat)),
                            i + 1,
                        ),
                        Err(message) => result == (args.update(i, typed), Some(message)),
                    },
                    None => result == (
                        args.update(i, typed),
                        Some(
                            "Expected "@ + text::joined(target::target_keywords(), "/"@)
                                + " after '@' found "@ + keyword,
                        ),
                    ),
                }
            } else {
                result == preprocessed(table, context, next, args.update(i, typed), i + 1)
            }
        },
{
}

} // verus!
