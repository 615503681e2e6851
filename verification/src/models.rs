use vstd::prelude::*;

verus! {

/// The login protocol a player identity belongs to.
#[derive(Clone, Copy, Debug, PartialEq, Eq, Structural)]
pub enum PlayerType {
    Offline,
    Microsoft,
    ThirdParty,
}

/// A stored player identity, tokens included.
///
/// Invariant within a roster: `id` is unique. For `ThirdParty` records
/// `auth_server_url` names the identity server the record came from.
#[derive(Debug, Clone, PartialEq)]
pub struct PlayerInfo {
    pub id: String,
    pub name: String,
    pub uuid: String,
    pub player_type: PlayerType,
    pub access_token: Option<String>,
    pub refresh_token: Option<String>,
    pub auth_server_url: Option<String>,
    pub auth_account: Option<String>,
    pub textures: String,
}

/// The caller-facing view of a player: the same identity without its tokens.
#[derive(Debug, Clone, PartialEq)]
pub struct Player {
    pub id: String,
    pub name: String,
    pub uuid: String,
    pub player_type: PlayerType,
    pub auth_server_url: Option<String>,
    pub auth_account: Option<String>,
    pub textures: String,
}

/// A registered third-party identity provider. `auth_url` is the dedup key.
#[derive(Debug, Clone, PartialEq)]
pub struct AuthServer {
    pub auth_url: String,
    pub client_id: String,
    pub openid_configuration_url: String,
}

/// The roster: the ordered player list, the registered auth servers, the
/// selected player id (empty when unset) and the device-flow polling flag.
#[derive(Debug, PartialEq)]
pub struct AccountInfo {
    pub players: Vec<PlayerInfo>,
    pub auth_servers: Vec<AuthServer>,
    pub selected_player_id: String,
    pub is_oauth_processing: bool,
}

/// What a device-authorization request hands back to the caller: the code the
/// user must enter, where to enter it, and how to poll.
#[derive(Debug, Clone, PartialEq)]
pub struct DeviceAuthResponseInfo {
    pub auth_url: String,
    pub device_code: String,
    pub user_code: String,
    pub verification_uri: String,
    pub interval: u64,
    pub expires_in: u64,
}

/// The token-stripped view of a record.
pub open spec fn strip(p: PlayerInfo) -> Player {
    Player {
        id: p.id,
        name: p.name,
        uuid: p.uuid,
        player_type: p.player_type,
        auth_server_url: p.auth_server_url,
        auth_account: p.auth_account,
        textures: p.textures,
    }
}

/// Some record in `players` has the id `id`.
pub open spec fn has_player_id(players: Seq<PlayerInfo>, id: Seq<char>) -> bool {
    exists|i: int| 0 <= i < players.len() && players[i].id@ == id
}

/// Some server in `servers` has the url `url`.
pub open spec fn has_server_url(servers: Seq<AuthServer>, url: Seq<char>) -> bool {
    exists|i: int| 0 <= i < servers.len() && servers[i].auth_url@ == url
}

/// No two records share an id.
pub open spec fn ids_unique(players: Seq<PlayerInfo>) -> bool {
    forall|i: int, j: int|
        0 <= i < j < players.len() ==> players[i].id@ != players[j].id@
}

/// No two registered servers share a url.
pub open spec fn server_urls_unique(servers: Seq<AuthServer>) -> bool {
    forall|i: int, j: int|
        0 <= i < j < servers.len() ==> servers[i].auth_url@ != servers[j].auth_url@
}

/// Every third-party record's origin url names a registered server. Not part
/// of `wf`: the cookie-session flow stores records under its fixed provider
/// without registering it, so the roster as a whole need not satisfy this;
/// the cascading server delete states that it preserves it.
pub open spec fn servers_consistent(players: Seq<PlayerInfo>, servers: Seq<AuthServer>) -> bool {
    forall|k: int|
        0 <= k < players.len() && players[k].player_type == PlayerType::ThirdParty
            ==> (players[k].auth_server_url matches Some(u) && has_server_url(servers, u@))
}

impl AccountInfo {
    /// Well-formedness: ids unique, server urls unique, and the selection
    /// either unset (empty) or naming an existing record.
    pub open spec fn wf(&self) -> bool {
        &&& ids_unique(self.players@)
        &&& server_urls_unique(self.auth_servers@)
        &&& (self.selected_player_id@ == Seq::<char>::empty() || has_player_id(
            self.players@,
            self.selected_player_id@,
        ))
    }

    /// An empty roster: no players, no servers, nothing selected.
    pub fn new() -> (r: AccountInfo)
        ensures
            r.players@.len() == 0,
            r.auth_servers@.len() == 0,
            r.selected_player_id@ == Seq::<char>::empty(),
            !r.is_oauth_processing,
            r.wf(),
    {
        AccountInfo {
            players: Vec::new(),
            auth_servers: Vec::new(),
            selected_player_id: String::new(),
            is_oauth_processing: false,
        }
    }
}

/// Decides well-formedness at run time, for callers outside the proof
/// boundary that must establish it before a mutating operation.
pub fn check_wf(state: &AccountInfo) -> (r: bool)
    ensures
        r == state.wf(),
{
    let n = state.players.len();
    let mut i: usize = 0;
    while i < n
        invariant
            n == state.players@.len(),
            i <= n,
            forall|a: int, b: int|
                0 <= a < b < state.players@.len() && a < i ==> state.players@[a].id@
                    != state.players@[b].id@,
        decreases n - i,
    {
        let mut j: usize = i + 1;
        while j < n
            invariant
                n == state.players@.len(),
                i < n,
                i < j <= n,
                forall|b: int| i < b < j ==> state.players@[i as int].id@ != state.players@[b].id@,
            decreases n - j,
        {
            if state.players[i].id.eq(&state.players[j].id) {
                proof {
                    assert(state.players@[i as int].id@ == state.players@[j as int].id@);
                    assert(!ids_unique(state.players@));
                }
                return false;
            }
            j += 1;
        }
        i += 1;
    }
    let m = state.auth_servers.len();
    let mut i: usize = 0;
    while i < m
        invariant
            m == state.auth_servers@.len(),
            i <= m,
            forall|a: int, b: int|
                0 <= a < b < state.auth_servers@.len() && a < i ==> state.auth_servers@[a].auth_url@
                    != state.auth_servers@[b].auth_url@,
        decreases m - i,
    {
        let mut j: usize = i + 1;
        while j < m
            invariant
                m == state.auth_servers@.len(),
                i < m,
                i < j <= m,
                forall|b: int|
                    i < b < j ==> state.auth_servers@[i as int].auth_url@
                        != state.auth_servers@[b].auth_url@,
            decreases m - j,
        {
            if state.auth_servers[i].auth_url.eq(&state.auth_servers[j].auth_url) {
                proof {
                    assert(state.auth_servers@[i as int].auth_url@
                        == state.auth_servers@[j as int].auth_url@);
                    assert(!server_urls_unique(state.auth_servers@));
                }
                return false;
            }
            j += 1;
        }
        i += 1;
    }
    if state.selected_player_id.as_str().is_empty() {
        proof {
            assert(state.selected_player_id@ =~= Seq::<char>::empty());
        }
        return true;
    }
    match find_player_index(&state.players, &state.selected_player_id) {
        Some(_) => true,
        None => {
            proof {
                assert(state.selected_player_id@.len() > 0);
                assert(state.selected_player_id@ != Seq::<char>::empty());
            }
            false
        },
    }
}

/// Copies an optional string; the copy equals the original.
pub fn clone_opt_string(o: &Option<String>) -> (r: Option<String>)
    ensures
        r == *o,
{
    match o {
        Some(s) => Some(s.clone()),
        None => None,
    }
}

/// Copies a record field by field; the copy equals the original.
pub fn copy_player(p: &PlayerInfo) -> (r: PlayerInfo)
    ensures
        r == *p,
{
    PlayerInfo {
        id: p.id.clone(),
        name: p.name.clone(),
        uuid: p.uuid.clone(),
        player_type: p.player_type,
        access_token: clone_opt_string(&p.access_token),
        refresh_token: clone_opt_string(&p.refresh_token),
        auth_server_url: clone_opt_string(&p.auth_server_url),
        auth_account: clone_opt_string(&p.auth_account),
        textures: p.textures.clone(),
    }
}

/// Copies a server entry; the copy equals the original.
pub fn copy_auth_server(s: &AuthServer) -> (r: AuthServer)
    ensures
        r == *s,
{
    AuthServer {
        auth_url: s.auth_url.clone(),
        client_id: s.client_id.clone(),
        openid_configuration_url: s.openid_configuration_url.clone(),
    }
}

/// Strips a record down to its caller-facing view.
pub fn strip_player(p: &PlayerInfo) -> (r: Player)
    ensures
        r == strip(*p),
{
    Player {
        id: p.id.clone(),
        name: p.name.clone(),
        uuid: p.uuid.clone(),
        player_type: p.player_type,
        auth_server_url: clone_opt_string(&p.auth_server_url),
        auth_account: clone_opt_string(&p.auth_account),
        textures: p.textures.clone(),
    }
}

/// Finds the first index whose record holds the id `id`.
pub fn find_player_index(players: &Vec<PlayerInfo>, id: &String) -> (r: Option<usize>)
    ensures
        match r {
            Some(i) => 0 <= i < players@.len() && players@[i as int].id@ == id@ && forall|k: int|
                0 <= k < i ==> players@[k].id@ != id@,
            None => !has_player_id(players@, id@),
        },
{
    let n = players.len();
    let mut i: usize = 0;
    while i < n
        invariant
            n == players@.len(),
            i <= n,
            forall|k: int| 0 <= k < i ==> players@[k].id@ != id@,
        decreases n - i,
    {
        if players[i].id.eq(id) {
            return Some(i);
        }
        i += 1;
    }
    None
}

/// Finds the first index whose server holds the url `url`.
pub fn find_server_index(servers: &Vec<AuthServer>, url: &String) -> (r: Option<usize>)
    ensures
        match r {
            Some(i) => 0 <= i < servers@.len() && servers@[i as int].auth_url@ == url@ && forall|
                k: int,
            |
                0 <= k < i ==> servers@[k].auth_url@ != url@,
            None => !has_server_url(servers@, url@),
        },
{
    let n = servers.len();
    let mut i: usize = 0;
    while i < n
        invariant
            n == servers@.len(),
            i <= n,
            forall|k: int| 0 <= k < i ==> servers@[k].auth_url@ != url@,
        decreases n - i,
    {
        if servers[i].auth_url.eq(url) {
            return Some(i);
        }
        i += 1;
    }
    None
}

} // verus!
