use vstd::prelude::*;

use crate::text;

verus! {

/// An entity that the player can name by a keyword behind `@`.
#[derive(Clone, Copy, Debug, PartialEq, Eq, Structural)]
pub enum ClientEntityTarget {
    Target,
    Selected,
    Viewpoint,
    Mount,
    Rider,
    TargetSelf,
}

/// What stands before the keyword of an entity.
pub const PREFIX: char = '@';

/// The targets, in their order.
pub open spec fn targets() -> Seq<ClientEntityTarget> {
    seq![
        ClientEntityTarget::Target,
        ClientEntityTarget::Selected,
        ClientEntityTarget::Viewpoint,
        ClientEntityTarget::Mount,
        ClientEntityTarget::Rider,
        ClientEntityTarget::TargetSelf,
    ]
}

/// The keywords of the targets, in the order of the targets.
pub open spec fn target_keywords() -> Seq<Seq<char>> {
    targets().map_values(|t: ClientEntityTarget| t.name())
}

/// The target with this keyword.
pub open spec fn target_named(keyword: Seq<char>) -> Option<ClientEntityTarget> {
    let at = text::place_of(target_keywords(), keyword) as int;
    if at < targets().len() {
        Some(targets()[at])
    } else {
        None
    }
}

impl ClientEntityTarget {
    /// The keyword of the target.
    pub open spec fn name(self) -> Seq<char> {
        match self {
            ClientEntityTarget::Target => "target"@,
            ClientEntityTarget::Selected => "selected"@,
            ClientEntityTarget::Viewpoint => "viewpoint"@,
            ClientEntityTarget::Mount => "mount"@,
            ClientEntityTarget::Rider => "rider"@,
            ClientEntityTarget::TargetSelf => "self"@,
        }
    }

    pub fn keyword(&self) -> (keyword: &'static str)
        ensures
            keyword@ == self.name(),
    {
        match self {
            ClientEntityTarget::Target => "target",
            ClientEntityTarget::Selected => "selected",
            ClientEntityTarget::Viewpoint => "viewpoint",
            ClientEntityTarget::Mount => "mount",
            ClientEntityTarget::Rider => "rider",
            ClientEntityTarget::TargetSelf => "self",
        }
    }

    /// All the targets.
    pub fn iter() -> (all: Vec<ClientEntityTarget>)
        ensures
            all@ == targets(),
    {
        let all = vec![
            ClientEntityTarget::Target,
            ClientEntityTarget::Selected,
            ClientEntityTarget::Viewpoint,
            ClientEntityTarget::Mount,
            ClientEntityTarget::Rider,
            ClientEntityTarget::TargetSelf,
        ];
        assert(all@ =~= targets());
        all
    }

    /// The keywords of all the targets.
    #[verifier::loop_isolation(false)]
    pub fn keywords() -> (words: Vec<String>)
        ensures
            words.deep_view() == target_keywords(),
    {
        let all = ClientEntityTarget::iter();
        let mut words: Vec<String> = Vec::new();
        for i in 0..all.len()
            invariant
                words@.len() == i,
                forall|j: int| 0 <= j < i ==> (#[trigger] words@[j])@ == targets()[j].name(),
        {
            words.push(all[i].keyword().to_owned());
        }
        assert(words.deep_view() =~= target_keywords());
        words
    }

    /// The target with this keyword.
    #[verifier::loop_isolation(false)]
    pub fn from_keyword(keyword: &str) -> (target: Option<ClientEntityTarget>)
        ensures
            target == target_named(keyword@),
    {
        let all = ClientEntityTarget::iter();
        let ghost names = target_keywords();
        assert(names.skip(0) =~= names);
        for i in 0..all.len()
            invariant
                text::place_of(names, keyword@) == i + text::place_of(
                    names.skip(i as int),
                    keyword@,
                ),
        {
            assert(names.skip(i as int).drop_first() =~= names.skip(i + 1));
            assert(names.skip(i as int)[0] == all@[i as int].name());
            if text::same_text(all[i].keyword(), keyword) {
                return Some(all[i]);
            }
        }
        None
    }
}

/// What carries somebody who rides a volume.
#[derive(Clone, Copy, Debug, PartialEq, Eq, Structural)]
pub enum Volume {
    Terrain,
    Entity(u64),
}

/// The entity of the player, with the uids of the entities that it is linked to.
#[derive(Clone, Copy, Debug, PartialEq, Eq, Structural)]
pub struct PlayerEntity {
    pub uid: Option<u64>,
    /// The mount, where the player rides one.
    pub mount: Option<u64>,
    /// The volume, where the player rides one.
    pub volume: Option<Volume>,
    /// Who rides the player.
    pub rider: Option<u64>,
}

/// The uids of the entities that the session points at, each where it has one.
#[derive(Clone, Copy, Debug, PartialEq, Eq, Structural)]
pub struct EntityContext {
    /// What the player looks at.
    pub target: Option<u64>,
    /// What the player has selected.
    pub selected: Option<u64>,
    /// From where the player views the world.
    pub viewpoint: Option<u64>,
    pub player: Option<PlayerEntity>,
}

/// The uid in `uid`, or the message that there is none.
pub open spec fn uid_or(uid: Option<u64>, message: Seq<char>) -> Result<u64, Seq<char>> {
    match uid {
        Some(uid) => Ok(uid),
        None => Err(message),
    }
}

impl PlayerEntity {
    /// What the player rides: a mount, or else the entity whose volume it is on.
    pub open spec fn carrier(self) -> Option<u64> {
        match self.mount {
            Some(uid) => Some(uid),
            None => match self.volume {
                Some(Volume::Entity(uid)) => Some(uid),
                _ => None,
            },
        }
    }
}

impl EntityContext {
    /// The uid that a target stands for, or the message that there is none.
    pub open spec fn resolved(self, target: ClientEntityTarget) -> Result<u64, Seq<char>> {
        match target {
            ClientEntityTarget::Target => uid_or(self.target, "Not looking at a valid target"@),
            ClientEntityTarget::Selected => uid_or(
                self.selected,
                "You don't have a valid target selected"@,
            ),
            ClientEntityTarget::Viewpoint => uid_or(
                self.viewpoint,
                "Not viewing from a valid viewpoint entity"@,
            ),
            ClientEntityTarget::Mount => match self.player {
                Some(player) => uid_or(player.carrier(), "Not riding a valid entity"@),
                None => Err("No player entity"@),
            },
            ClientEntityTarget::Rider => match self.player {
                Some(player) => uid_or(player.rider, "No valid rider"@),
                None => Err("No player entity"@),
            },
            ClientEntityTarget::TargetSelf => match self.player {
                Some(player) => uid_or(player.uid, "No player entity"@),
                None => Err("No player entity"@),
            },
        }
    }

    /// The uid that a target stands for, or the message that there is none.
    pub fn resolve(&self, target: ClientEntityTarget) -> (uid: Result<u64, String>)
        ensures
            match uid {
                Ok(uid) => self.resolved(target) == Ok::<u64, Seq<char>>(uid),
                Err(message) => self.resolved(target) == Err::<u64, Seq<char>>(message@),
            },
    {
        match target {
            ClientEntityTarget::Target => some_uid(self.target, "Not looking at a valid target"),
            ClientEntityTarget::Selected => some_uid(
                self.selected,
                "You don't have a valid target selected",
            ),
            ClientEntityTarget::Viewpoint => some_uid(
                self.viewpoint,
                "Not viewing from a valid viewpoint entity",
            ),
            ClientEntityTarget::Mount => match self.player {
                Some(player) => {
                    let carrier: Option<u64> = match player.mount {
                        Some(uid) => Some(uid),
                        None => match player.volume {
                            Some(Volume::Entity(uid)) => Some(uid),
                            _ => None,
                        },
                    };
                    some_uid(carrier, "Not riding a valid entity")
                },
                None => Err("No player entity".to_owned()),
            },
            ClientEntityTarget::Rider => match self.player {
                Some(player) => some_uid(player.rider, "No valid rider"),
                None => Err("No player entity".to_owned()),
            },
            ClientEntityTarget::TargetSelf => match self.player {
                Some(player) => some_uid(player.uid, "No player entity"),
                None => Err("No player entity".to_owned()),
            },
        }
    }
}

fn some_uid(uid: Option<u64>, message: &str) -> (r: Result<u64, String>)
    ensures
        match r {
            Ok(x) => uid_or(uid, message@) == Ok::<u64, Seq<char>>(x),
            Err(m) => uid_or(uid, message@) == Err::<u64, Seq<char>>(m@),
        },
{
    match uid {
        Some(x) => Ok(x),
        None => Err(message.to_owned()),
    }
}

proof fn lemma_names()
    ensures
        "target"@.len() == 6,
        "target"@[0] == 't',
        "selected"@.len() == 8,
        "selected"@[0] == 's',
        "viewpoint"@.len() == 9,
        "viewpoint"@[0] == 'v',
        "mount"@.len() == 5,
        "mount"@[0] == 'm',
        "rider"@.len() == 5,
        "rider"@[0] == 'r',
        "self"@.len() == 4,
        "self"@[0] == 's',
{
    reveal_strlit("target");
    reveal_strlit("selected");
    reveal_strlit("viewpoint");
    reveal_strlit("mount");
    reveal_strlit("rider");
    reveal_strlit("self");
}

/// Every target is found by its keyword, which is not empty and does not begin with `@`.
pub proof fn law_keyword_finds_its_target(t: ClientEntityTarget)
    ensures
        target_named(t.name()) == Some(t),
        t.name().len() > 0,
        t.name()[0] != PREFIX,
{
    lemma_names();
    let names = target_keywords();
    text::lemma_place_of(names, t.name());
    let at = text::place_of(names, t.name()) as int;
    let i: int = match t {
        ClientEntityTarget::Target => 0,
        ClientEntityTarget::Selected => 1,
        ClientEntityTarget::Viewpoint => 2,
        ClientEntityTarget::Mount => 3,
        ClientEntityTarget::Rider => 4,
        ClientEntityTarget::TargetSelf => 5,
    };
    assert(names[i] == t.name());
    assert(names[0] == "target"@ && names[1] == "selected"@ && names[2] == "viewpoint"@);
    assert(names[3] == "mount"@ && names[4] == "rider"@ && names[5] == "self"@);
    assert(at <= i);
    assert(names[at] == t.name());
}

/// Each target stands for the entity that the session has for it, where it has one, and is
/// refused where it has none: a mount is what the player rides, and only without one it is the
/// entity whose volume the player is on.
pub proof fn law_target_stands_for_its_entity(c: EntityContext, uid: u64)
    ensures
        c.resolved(ClientEntityTarget::Target) == Ok::<u64, Seq<char>>(uid) <==> c.target == Some(
            uid,
        ),
        c.resolved(ClientEntityTarget::Selected) == Ok::<u64, Seq<char>>(uid) <==> c.selected
            == Some(uid),
        c.resolved(ClientEntityTarget::Viewpoint) == Ok::<u64, Seq<char>>(uid) <==> c.viewpoint
            == Some(uid),
        c.resolved(ClientEntityTarget::TargetSelf) == Ok::<u64, Seq<char>>(uid) <==> (
        c.player matches Some(p) && p.uid == Some(uid)),
        c.resolved(ClientEntityTarget::Rider) == Ok::<u64, Seq<char>>(uid) <==> (
        c.player matches Some(p) && p.rider == Some(uid)),
        c.resolved(ClientEntityTarget::Mount) == Ok::<u64, Seq<char>>(uid) <==> (
        c.player matches Some(p) && (p.mount == Some(uid) || (p.mount is None && p.volume == Some(
            Volume::Entity(uid),
        )))),
{
}

/// Each target that is refused is refused with its own message; all that need the player's
/// entity say so where there is none.
pub proof fn law_refused_target_says_why(c: EntityContext, t: ClientEntityTarget)
    ensures
        c.resolved(t) matches Err(m) ==> m == (match t {
            ClientEntityTarget::Target => "Not looking at a valid target"@,
            ClientEntityTarget::Selected => "You don't have a valid target selected"@,
            ClientEntityTarget::Viewpoint => "Not viewing from a valid viewpoint entity"@,
            ClientEntityTarget::Mount => if c.player is None {
                "No player entity"@
            } else {
                "Not riding a valid entity"@
            },
            ClientEntityTarget::Rider => if c.player is None {
                "No player entity"@
            } else {
                "No valid rider"@
            },
            ClientEntityTarget::TargetSelf => "No player entity"@,
        }),
{
}

/// What is found under a keyword has that keyword, and where nothing is found no target has it.
pub proof fn law_found_target_has_the_keyword(keyword: Seq<char>)
    ensures
        match target_named(keyword) {
            Some(t) => t.name() == keyword,
            None => forall|t: ClientEntityTarget| (#[trigger] t.name()) != keyword,
        },
{
    text::lemma_place_of(target_keywords(), keyword);
    let at = text::place_of(target_keywords(), keyword) as int;
    if at < targets().len() {
        assert(target_keywords()[at] == keyword);
    } else {
        assert forall|t: ClientEntityTarget| (#[trigger] t.name()) != keyword by {
            if t.name() == keyword {
                law_keyword_finds_its_target(t);
            }
        }
    }
}

} // verus!
