use vstd::prelude::*;

use crate::command::AdminRole;
use crate::server::{ServerChatCommand, ServerView};
use crate::text;

verus! {

/// A player who is online.
#[derive(Debug)]
pub struct PlayerInfo {
    pub uid: u64,
    pub player_alias: String,
    pub uuid: u128,
}

/// What a site is, as far as its name is concerned: that of a cave is not offered.
#[derive(Clone, Copy, Debug, PartialEq, Eq, Structural)]
pub enum SiteKind {
    Cave,
    Other,
}

/// A site of the world.
#[derive(Debug)]
pub struct Site {
    pub kind: SiteKind,
    pub name: Option<String>,
}

/// What the client knows, each list in the order in which the client walks through it.
#[derive(Debug)]
pub struct Client {
    /// The uid of the player.
    pub uid: Option<u64>,
    /// The role of the player.
    pub role: Option<AdminRole>,
    pub player_list: Vec<PlayerInfo>,
    pub sites: Vec<Site>,
    /// The uids of the entities.
    pub uids: Vec<u64>,
    /// The commands of the server.
    pub commands: Vec<ServerChatCommand>,
    /// The names of the experimental shaders.
    pub shaders: Vec<String>,
}

/// The mathematical value of a `PlayerInfo`.
pub struct PlayerView {
    pub uid: u64,
    pub alias: Seq<char>,
    pub uuid: u128,
}

impl DeepView for PlayerInfo {
    type V = PlayerView;

    open spec fn deep_view(&self) -> PlayerView {
        PlayerView { uid: self.uid, alias: self.player_alias@, uuid: self.uuid }
    }
}

/// The mathematical value of a `Site`.
pub struct SiteView {
    pub kind: SiteKind,
    pub name: Option<Seq<char>>,
}

impl DeepView for Site {
    type V = SiteView;

    open spec fn deep_view(&self) -> SiteView {
        SiteView { kind: self.kind, name: self.name.deep_view() }
    }
}

/// The mathematical value of a `Client`.
pub struct ClientView {
    pub uid: Option<u64>,
    pub role: Option<AdminRole>,
    pub players: Seq<PlayerView>,
    pub sites: Seq<SiteView>,
    pub uids: Seq<u64>,
    pub commands: Seq<ServerView>,
    pub shaders: Seq<Seq<char>>,
}

impl DeepView for Client {
    type V = ClientView;

    open spec fn deep_view(&self) -> ClientView {
        ClientView {
            uid: self.uid,
            role: self.role,
            players: self.player_list.deep_view(),
            sites: self.sites.deep_view(),
            uids: self.uids@,
            commands: self.commands.deep_view(),
            shaders: self.shaders.deep_view(),
        }
    }
}

impl ClientView {
    /// The aliases of the players.
    pub open spec fn aliases(self) -> Seq<Seq<char>> {
        self.players.map_values(|p: PlayerView| p.alias)
    }

    /// The first player with this alias.
    pub open spec fn player_called(self, alias: Seq<char>) -> Option<PlayerView> {
        let at = text::place_of(self.aliases(), alias) as int;
        if at < self.players.len() {
            Some(self.players[at])
        } else {
            None
        }
    }

    /// The entry of the player who sits at this client.
    pub open spec fn me(self) -> Option<PlayerView> {
        match self.uid {
            Some(uid) => {
                let at = text::place_of(
                    self.players.map_values(|p: PlayerView| p.uid),
                    uid,
                ) as int;
                if at < self.players.len() {
                    Some(self.players[at])
                } else {
                    None
                }
            },
            None => None,
        }
    }
}

impl Client {
    /// The first player with this alias.
    #[verifier::loop_isolation(false)]
    pub fn player_called(&self, alias: &str) -> (player: Option<&PlayerInfo>)
        ensures
            player.deep_view() == self.deep_view().player_called(alias@),
    {
        let ghost players = self.deep_view().players;
        let ghost names = self.deep_view().aliases();
        assert(names.skip(0) =~= names);
        for i in 0..self.player_list.len()
            invariant
                text::place_of(names, alias@) == i + text::place_of(names.skip(i as int), alias@),
        {
            assert(names.skip(i as int).drop_first() =~= names.skip(i + 1));
            assert(names.skip(i as int)[0] == self.player_list@[i as int].player_alias@);
            if text::same_text(self.player_list[i].player_alias.as_str(), alias) {
                assert(players[i as int] == self.player_list@[i as int].deep_view());
                return Some(&self.player_list[i]);
            }
        }
        None
    }

    /// The entry of the player who sits at this client.
    #[verifier::loop_isolation(false)]
    pub fn me(&self) -> (player: Option<&PlayerInfo>)
        ensures
            player.deep_view() == self.deep_view().me(),
    {
        let uid: u64 = match self.uid {
            Some(uid) => uid,
            None => {
                return None;
            },
        };
        let ghost players = self.deep_view().players;
        let ghost uids = players.map_values(|p: PlayerView| p.uid);
        assert(uids.skip(0) =~= uids);
        for i in 0..self.player_list.len()
            invariant
                text::place_of(uids, uid) == i + text::place_of(uids.skip(i as int), uid),
        {
            assert(uids.skip(i as int).drop_first() =~= uids.skip(i + 1));
            assert(uids.skip(i as int)[0] == self.player_list@[i as int].uid);
            if self.player_list[i].uid == uid {
                assert(players[i as int] == self.player_list@[i as int].deep_view());
                return Some(&self.player_list[i]);
            }
        }
        None
    }
}

/// A helper function to get the Uuid of a player with a given alias
pub fn get_player_uuid(client: &Client, alias: &String) -> (uuid: Option<u128>)
    ensures
        uuid == (match client.deep_view().player_called(alias@) {
            Some(player) => Some(player.uuid),
            None => None,
        }),
{
    match client.player_called(alias.as_str()) {
        Some(player) => Some(player.uuid),
        None => None,
    }
}

/// The first player with an alias is found: the one that is found has it, nobody before them
/// has it, and where nobody is found nobody has it.
pub proof fn law_player_is_found_by_alias(client: ClientView, alias: Seq<char>)
    ensures
        match client.player_called(alias) {
            Some(p) => exists|i: int|
                0 <= i < client.players.len() && #[trigger] client.players[i] == p && p.alias
                    == alias && forall|j: int|
                    0 <= j < i ==> (#[trigger] client.players[j]).alias != alias,
            None => forall|i: int|
                0 <= i < client.players.len() ==> (#[trigger] client.players[i]).alias != alias,
        },
{
    let names = client.aliases();
    text::lemma_place_of(names, alias);
    let at = text::place_of(names, alias) as int;
    assert forall|j: int| 0 <= j < at && j < names.len() implies (
    #[trigger] client.players[j]).alias != alias by {
        assert(names[j] == client.players[j].alias);
    }
    if at < names.len() {
        assert(names[at] == client.players[at].alias);
    }
}

/// Who sits at the client is the listed player with the client's uid: the one that is found has
/// it, nobody before them has it, and where nobody is found nobody has it.
pub proof fn law_own_entry_has_the_uid(client: ClientView)
    ensures
        match client.me() {
            Some(p) => client.uid == Some(p.uid) && exists|i: int|
                0 <= i < client.players.len() && #[trigger] client.players[i] == p && forall|j: int|
                    0 <= j < i ==> client.uid != Some((#[trigger] client.players[j]).uid),
            None => forall|i: int|
                0 <= i < client.players.len() ==> client.uid != Some(
                    (#[trigger] client.players[i]).uid,
                ),
        },
{
    if let Some(uid) = client.uid {
        let uids = client.players.map_values(|p: PlayerView| p.uid);
        text::lemma_place_of(uids, uid);
        let at = text::place_of(uids, uid) as int;
        assert forall|j: int| 0 <= j < at && j < uids.len() implies (
        #[trigger] client.players[j]).uid != uid by {
            assert(uids[j] == client.players[j].uid);
        }
        if at < uids.len() {
            assert(uids[at] == client.players[at].uid);
        }
    }
}

/// The aliases are those of the players, in their order.
pub proof fn law_aliases_of_the_players(client: ClientView, i: int)
    ensures
        client.aliases().len() == client.players.len(),
        0 <= i < client.players.len() ==> client.aliases()[i] == client.players[i].alias,
{
}

/// What is said of a client is said of what it holds.
pub proof fn law_view_of_a_client(client: Client, i: int)
    ensures
        ({
            let v = client.deep_view();
            &&& v.uid == client.uid
            &&& v.role == client.role
            &&& v.uids == client.uids@
            &&& v.players.len() == client.player_list@.len()
            &&& v.sites.len() == client.sites@.len()
            &&& v.commands.len() == client.commands@.len()
            &&& v.shaders.len() == client.shaders@.len()
            &&& 0 <= i < v.players.len() ==> v.players[i].uid == client.player_list@[i].uid
                && v.players[i].alias == client.player_list@[i].player_alias@ && v.players[i].uuid
                == client.player_list@[i].uuid
            &&& 0 <= i < v.sites.len() ==> v.sites[i].kind == client.sites@[i].kind
                && match client.sites@[i].name {
                Some(name) => v.sites[i].name == Some(name@),
                None => v.sites[i].name is None,
            }
            &&& 0 <= i < v.commands.len() ==> v.commands[i] == client.commands@[i].deep_view()
            &&& 0 <= i < v.shaders.len() ==> v.shaders[i] == client.shaders@[i]@
        }),
{
}

} // verus!
