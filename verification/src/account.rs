//! The roster and its uniform mutation policy: dedup by id, disambiguation
//! when several candidates survive, selection updates, and the registry of
//! third-party auth servers with its cascading delete.
//!
//! Every operation takes the shared state by reference; persistence and all
//! network steps happen outside, after the candidates are fully resolved.

use vstd::prelude::*;

use crate::error::AccountError;
use crate::models::{
    copy_auth_server, copy_player, find_player_index, find_server_index, has_player_id,
    has_server_url, ids_unique, server_urls_unique, servers_consistent, strip, strip_player,
    AccountInfo, AuthServer, Player, PlayerInfo, PlayerType,
};
use crate::urls::{is_parseable_url, url_parse_ok};

verus! {

/// The token-stripped views of a record sequence.
pub open spec fn strip_all(s: Seq<PlayerInfo>) -> Seq<Player> {
    s.map_values(|p: PlayerInfo| strip(p))
}

/// The candidates whose id is not yet in `players`, in order.
pub open spec fn survivors(players: Seq<PlayerInfo>, cands: Seq<PlayerInfo>) -> Seq<PlayerInfo>
    decreases cands.len(),
{
    if cands.len() == 0 {
        Seq::empty()
    } else if has_player_id(players, cands[0].id@) {
        survivors(players, cands.drop_first())
    } else {
        seq![cands[0]] + survivors(players, cands.drop_first())
    }
}

/// Every survivor's id is absent from the roster it was deduped against.
pub proof fn lemma_survivors_fresh(players: Seq<PlayerInfo>, cands: Seq<PlayerInfo>)
    ensures
        forall|k: int|
            0 <= k < survivors(players, cands).len() ==> !has_player_id(
                players,
                survivors(players, cands)[k].id@,
            ),
    decreases cands.len(),
{
    if cands.len() > 0 {
        lemma_survivors_fresh(players, cands.drop_first());
    }
}

/// Law: a single candidate survives dedup exactly when its id is new. With
/// `add_or_disambiguate`'s contract this says that a single-candidate call
/// on a fresh id succeeds, stores the record and selects it, and that one
/// on a present id fails with `Duplicate` and leaves the roster unchanged.
pub proof fn lemma_single_candidate(players: Seq<PlayerInfo>, p: PlayerInfo)
    ensures
        !has_player_id(players, p.id@) ==> survivors(players, seq![p]) == seq![p],
        has_player_id(players, p.id@) ==> survivors(players, seq![p]) == Seq::<
            PlayerInfo,
        >::empty(),
{
    let s = seq![p];
    let e = Seq::<PlayerInfo>::empty();
    assert(s.drop_first() =~= e);
    assert(survivors(players, e) == e);
    assert(s[0] == p);
    if !has_player_id(players, p.id@) {
        assert(survivors(players, s) == seq![p] + e);
        assert(seq![p] + e =~= seq![p]);
    } else {
        assert(survivors(players, s) == e);
    }
}

/// Law: when every candidate's id is already present, nothing survives
/// dedup. With `add_or_disambiguate`'s contract this says that such a call
/// always fails with `Duplicate` and leaves the roster unchanged.
pub proof fn lemma_all_duplicates(players: Seq<PlayerInfo>, cands: Seq<PlayerInfo>)
    requires
        forall|i: int| 0 <= i < cands.len() ==> has_player_id(players, cands[i].id@),
    ensures
        survivors(players, cands) == Seq::<PlayerInfo>::empty(),
    decreases cands.len(),
{
    if cands.len() > 0 {
        assert(forall|i: int|
            0 <= i < cands.drop_first().len() ==> cands.drop_first()[i] == cands[i + 1]);
        lemma_all_duplicates(players, cands.drop_first());
    }
}

/// Drops every candidate whose id is already present in `players`.
pub fn dedup_candidates(players: &Vec<PlayerInfo>, cands: Vec<PlayerInfo>) -> (r: Vec<PlayerInfo>)
    ensures
        r@ == survivors(players@, cands@),
{
    let ghost orig = cands@;
    let mut rest = cands;
    let mut out: Vec<PlayerInfo> = Vec::new();
    while rest.len() > 0
        invariant
            out@ + survivors(players@, rest@) == survivors(players@, orig),
        decreases rest.len(),
    {
        let ghost before = rest@;
        let c = rest.remove(0);
        proof {
            assert(rest@ =~= before.drop_first());
            assert(c == before[0]);
        }
        match find_player_index(players, &c.id) {
            Some(_) => {
                proof {
                    assert(has_player_id(players@, c.id@));
                    assert(survivors(players@, before) == survivors(players@, rest@));
                }
            },
            None => {
                out.push(c);
                proof {
                    assert(out@ + survivors(players@, rest@) =~= survivors(players@, orig));
                }
            },
        }
    }
    proof {
        assert(survivors(players@, rest@) =~= Seq::<PlayerInfo>::empty());
        assert(out@ =~= survivors(players@, orig));
    }
    out
}

/// Strips each record of a list down to its caller-facing view.
pub fn strip_players(players: &Vec<PlayerInfo>) -> (r: Vec<Player>)
    ensures
        r@ == strip_all(players@),
{
    let n = players.len();
    let mut out: Vec<Player> = Vec::new();
    let mut i: usize = 0;
    while i < n
        invariant
            n == players@.len(),
            i <= n,
            out@.len() == i,
            forall|k: int| 0 <= k < i ==> out@[k] == strip(players@[k]),
        decreases n - i,
    {
        out.push(strip_player(&players[i]));
        i += 1;
    }
    proof {
        assert(out@ =~= strip_all(players@));
    }
    out
}

/// A snapshot of the roster for the caller: every record, tokens stripped.
pub fn retrieve_player_list(state: &AccountInfo) -> (r: Vec<Player>)
    ensures
        r@ == strip_all(state.players@),
{
    strip_players(&state.players)
}

/// The uniform roster-mutation policy.
///
/// Candidates already present (by id) are dropped. If none survive the call
/// fails with `Duplicate` and the roster is untouched. If exactly one
/// survives it is inserted and selected, and the empty list is returned. If
/// several survive they are returned for user disambiguation and the roster
/// is untouched; the caller re-enters with the single chosen record.
pub fn add_or_disambiguate(state: &mut AccountInfo, candidates: Vec<PlayerInfo>) -> (r: Result<
    Vec<Player>,
    AccountError,
>)
    requires
        old(state).wf(),
    ensures
        final(state).wf(),
        final(state).auth_servers == old(state).auth_servers,
        final(state).is_oauth_processing == old(state).is_oauth_processing,
        ({
            let surv = survivors(old(state).players@, candidates@);
            &&& surv.len() == 0 ==> r == Err::<Vec<Player>, AccountError>(AccountError::Duplicate)
                && *final(state) == *old(state)
            &&& surv.len() == 1 ==> (r matches Ok(v) && v@.len() == 0) && final(state).players@
                == old(state).players@.push(surv[0]) && final(state).selected_player_id@
                == surv[0].id@
            &&& surv.len() > 1 ==> *final(state) == *old(state) && (r matches Ok(v) && v@
                == strip_all(surv))
        }),
{
    let ghost old_players = state.players@;
    let mut surv = dedup_candidates(&state.players, candidates);
    if surv.len() == 0 {
        return Err(AccountError::Duplicate);
    }
    if surv.len() == 1 {
        let p = surv.remove(0);
        proof {
            lemma_survivors_fresh(old_players, candidates@);
            assert(!has_player_id(old_players, p.id@));
        }
        state.selected_player_id = p.id.clone();
        state.players.push(p);
        proof {
            let np = state.players@;
            assert(np.last() == p);
            assert(ids_unique(np)) by {
                assert(forall|i: int|
                    0 <= i < old_players.len() ==> np[i] == old_players[i]);
                assert(forall|i: int|
                    0 <= i < old_players.len() ==> np[i].id@ != p.id@);
            }
            assert(has_player_id(np, p.id@)) by {
                assert(np[np.len() - 1].id@ == p.id@);
            }
        }
        return Ok(Vec::new());
    }
    let out = strip_players(&surv);
    Ok(out)
}

/// Inserts a freshly logged-in record, selecting it; `Duplicate` if its id is
/// already present, in which case nothing changes.
pub fn add_player_oauth(state: &mut AccountInfo, new_player: PlayerInfo) -> (r: Result<
    (),
    AccountError,
>)
    requires
        old(state).wf(),
    ensures
        final(state).wf(),
        final(state).auth_servers == old(state).auth_servers,
        final(state).is_oauth_processing == old(state).is_oauth_processing,
        has_player_id(old(state).players@, new_player.id@) ==> r == Err::<(), AccountError>(
            AccountError::Duplicate,
        ) && *final(state) == *old(state),
        !has_player_id(old(state).players@, new_player.id@) ==> r is Ok && final(state).players@
            == old(state).players@.push(new_player) && final(state).selected_player_id@
            == new_player.id@,
{
    insert_and_select(state, new_player)
}

/// Inserts the record the user chose out of a disambiguation set, selecting
/// it; `Duplicate` if its id is already present.
pub fn add_player_from_selection(state: &mut AccountInfo, player: PlayerInfo) -> (r: Result<
    (),
    AccountError,
>)
    requires
        old(state).wf(),
    ensures
        final(state).wf(),
        final(state).auth_servers == old(state).auth_servers,
        final(state).is_oauth_processing == old(state).is_oauth_processing,
        has_player_id(old(state).players@, player.id@) ==> r == Err::<(), AccountError>(
            AccountError::Duplicate,
        ) && *final(state) == *old(state),
        !has_player_id(old(state).players@, player.id@) ==> r is Ok && final(state).players@
            == old(state).players@.push(player) && final(state).selected_player_id@ == player.id@,
{
    insert_and_select(state, player)
}

/// Shared insert step: dedup check, push, select.
fn insert_and_select(state: &mut AccountInfo, p: PlayerInfo) -> (r: Result<(), AccountError>)
    requires
        old(state).wf(),
    ensures
        final(state).wf(),
        final(state).auth_servers == old(state).auth_servers,
        final(state).is_oauth_processing == old(state).is_oauth_processing,
        has_player_id(old(state).players@, p.id@) ==> r == Err::<(), AccountError>(
            AccountError::Duplicate,
        ) && *final(state) == *old(state),
        !has_player_id(old(state).players@, p.id@) ==> r is Ok && final(state).players@ == old(state).players@.push(p) && final(state).selected_player_id@ == p.id@,
{
    let ghost old_players = state.players@;
    match find_player_index(&state.players, &p.id) {
        Some(_) => Err(AccountError::Duplicate),
        None => {
            state.selected_player_id = p.id.clone();
            state.players.push(p);
            proof {
                let np = state.players@;
                assert(ids_unique(np)) by {
                    assert(forall|i: int|
                        0 <= i < old_players.len() ==> np[i] == old_players[i]);
                }
                assert(np[np.len() - 1].id@ == state.selected_player_id@);
            }
            Ok(())
        },
    }
}

/// Replaces the record at `player_id` with a re-login or refresh result of
/// the same identity; `NotFound` if the id is absent. Selection is untouched.
pub fn replace_player(state: &mut AccountInfo, player_id: &String, new_player: PlayerInfo) -> (r:
    Result<(), AccountError>)
    requires
        old(state).wf(),
        new_player.id@ == player_id@,
    ensures
        final(state).wf(),
        final(state).auth_servers == old(state).auth_servers,
        final(state).is_oauth_processing == old(state).is_oauth_processing,
        final(state).selected_player_id == old(state).selected_player_id,
        !has_player_id(old(state).players@, player_id@) ==> r == Err::<(), AccountError>(
            AccountError::NotFound,
        ) && *final(state) == *old(state),
        has_player_id(old(state).players@, player_id@) ==> r is Ok && forall|i: int|
            0 <= i < old(state).players@.len() && old(state).players@[i].id@ == player_id@
                ==> final(state).players@ == old(state).players@.update(i, new_player),
{
    let ghost old_players = state.players@;
    match find_player_index(&state.players, &player_id) {
        None => Err(AccountError::NotFound),
        Some(i) => {
            state.players.set(i, new_player);
            proof {
                let np = state.players@;
                assert(ids_unique(np)) by {
                    assert(forall|k: int|
                        0 <= k < np.len() && k != i ==> np[k] == old_players[k]);
                    assert(np[i as int].id@ == old_players[i as int].id@);
                }
                assert(forall|j: int|
                    0 <= j < old_players.len() && old_players[j].id@ == player_id@ ==> j == i) by {
                    assert(forall|j: int|
                        0 <= j < old_players.len() && j != i ==> old_players[j].id@
                            != old_players[i as int].id@);
                }
                let sel = state.selected_player_id@;
                if sel != Seq::<char>::empty() {
                    let w = choose|k: int|
                        0 <= k < old_players.len() && old_players[k].id@ == sel;
                    assert(np[w].id@ == sel);
                }
            }
            Ok(())
        },
    }
}

/// Marks the selection; `NotFound` if no record holds the id.
pub fn set_selected(state: &mut AccountInfo, player_id: &String) -> (r: Result<(), AccountError>)
    requires
        old(state).wf(),
    ensures
        final(state).wf(),
        final(state).players == old(state).players,
        final(state).auth_servers == old(state).auth_servers,
        final(state).is_oauth_processing == old(state).is_oauth_processing,
        !has_player_id(old(state).players@, player_id@) ==> r == Err::<(), AccountError>(
            AccountError::NotFound,
        ) && *final(state) == *old(state),
        has_player_id(old(state).players@, player_id@) ==> r is Ok
            && final(state).selected_player_id@ == player_id@,
{
    match find_player_index(&state.players, &player_id) {
        None => Err(AccountError::NotFound),
        Some(_) => {
            state.selected_player_id = player_id.clone();
            Ok(())
        },
    }
}

/// The stable id an offline identity gets: derived from uuid and name alone.
pub open spec fn offline_id(name: Seq<char>, uuid: Seq<char>) -> Seq<char> {
    "offline:"@ + uuid + ":"@ + name
}

/// The fixed set of preset skin roles an offline player may use.
pub open spec fn is_texture_role(role: Seq<char>) -> bool {
    role == "steve"@ || role == "alex"@
}

/// The texture reference stored for a preset role.
pub open spec fn preset_texture(role: Seq<char>) -> Seq<char> {
    "preset:"@ + role
}

/// Adds an offline pseudo-identity built from a display name and a UUID,
/// selecting it; `Duplicate` if that identity is already present. No network
/// is involved.
pub fn add_player_offline(state: &mut AccountInfo, username: String, uuid: String) -> (r: Result<
    (),
    AccountError,
>)
    requires
        old(state).wf(),
    ensures
        final(state).wf(),
        final(state).auth_servers == old(state).auth_servers,
        final(state).is_oauth_processing == old(state).is_oauth_processing,
        has_player_id(old(state).players@, offline_id(username@, uuid@)) ==> r == Err::<
            (),
            AccountError,
        >(AccountError::Duplicate) && *final(state) == *old(state),
        !has_player_id(old(state).players@, offline_id(username@, uuid@)) ==> r is Ok && ({
            let np = final(state).players@;
            &&& np.len() == old(state).players@.len() + 1
            &&& np.drop_last() == old(state).players@
            &&& np.last().id@ == offline_id(username@, uuid@)
            &&& np.last().name@ == username@
            &&& np.last().uuid@ == uuid@
            &&& np.last().player_type == PlayerType::Offline
            &&& np.last().access_token is None
            &&& np.last().refresh_token is None
            &&& np.last().auth_server_url is None
            &&& np.last().auth_account is None
            &&& np.last().textures@ == preset_texture("steve"@)
            &&& final(state).selected_player_id@ == offline_id(username@, uuid@)
        }),
{
    let id = String::from_str("offline:").concat(uuid.as_str()).concat(":").concat(
        username.as_str(),
    );
    let record = PlayerInfo {
        id,
        name: username,
        uuid,
        player_type: PlayerType::Offline,
        access_token: None,
        refresh_token: None,
        auth_server_url: None,
        auth_account: None,
        textures: String::from_str("preset:").concat("steve"),
    };
    let r = insert_and_select(state, record);
    proof {
        if !has_player_id(old(state).players@, offline_id(username@, uuid@)) {
            assert(final(state).players@.drop_last() =~= old(state).players@);
        }
    }
    r
}

/// Overwrites an offline player's texture reference with a preset role.
/// `NotFound` if the id is absent, `Invalid` if the record is not
/// offline-kind, `TextureError` if the role is not one of the fixed presets;
/// in each failing case the roster is untouched.
pub fn update_player_skin_offline_preset(
    state: &mut AccountInfo,
    player_id: &String,
    preset_role: String,
) -> (r: Result<(), AccountError>)
    requires
        old(state).wf(),
    ensures
        final(state).wf(),
        final(state).auth_servers == old(state).auth_servers,
        final(state).is_oauth_processing == old(state).is_oauth_processing,
        final(state).selected_player_id == old(state).selected_player_id,
        !has_player_id(old(state).players@, player_id@) ==> r == Err::<(), AccountError>(
            AccountError::NotFound,
        ) && *final(state) == *old(state),
        has_player_id(old(state).players@, player_id@) ==> forall|i: int|
            0 <= i < old(state).players@.len() && old(state).players@[i].id@ == player_id@ ==> ({
                let op = old(state).players@[i];
                &&& op.player_type != PlayerType::Offline ==> r == Err::<(), AccountError>(
                    AccountError::Invalid,
                ) && *final(state) == *old(state)
                &&& op.player_type == PlayerType::Offline && !is_texture_role(preset_role@) ==> r
                    == Err::<(), AccountError>(AccountError::TextureError) && *final(state) == *old(state)
                &&& op.player_type == PlayerType::Offline && is_texture_role(preset_role@) ==> r
                    is Ok && final(state).players@.len() == old(state).players@.len() && (forall|
                    k: int,
                |
                    0 <= k < old(state).players@.len() && k != i ==> final(state).players@[k]
                        == old(state).players@[k]) && ({
                    let np = final(state).players@[i];
                    &&& np.textures@ == preset_texture(preset_role@)
                    &&& np.id == op.id
                    &&& np.name == op.name
                    &&& np.uuid == op.uuid
                    &&& np.player_type == op.player_type
                    &&& np.access_token == op.access_token
                    &&& np.refresh_token == op.refresh_token
                    &&& np.auth_server_url == op.auth_server_url
                    &&& np.auth_account == op.auth_account
                })
            }),
{
    let ghost old_players = state.players@;
    match find_player_index(&state.players, player_id) {
        None => Err(AccountError::NotFound),
        Some(i) => {
            proof {
                assert(forall|j: int|
                    0 <= j < old_players.len() && old_players[j].id@ == player_id@ ==> j == i);
            }
            let is_offline = match state.players[i].player_type {
                PlayerType::Offline => true,
                _ => false,
            };
            if !is_offline {
                return Err(AccountError::Invalid);
            }
            let role_ok = preset_role.eq(&String::from_str("steve")) || preset_role.eq(
                &String::from_str("alex"),
            );
            if !role_ok {
                return Err(AccountError::TextureError);
            }
            let mut np = copy_player(&state.players[i]);
            np.textures = String::from_str("preset:").concat(preset_role.as_str());
            state.players.set(i, np);
            proof {
                let nps = state.players@;
                assert(ids_unique(nps)) by {
                    assert(forall|k: int|
                        0 <= k < nps.len() && k != i ==> nps[k] == old_players[k]);
                    assert(nps[i as int].id@ == old_players[i as int].id@);
                }
                let sel = state.selected_player_id@;
                if sel != Seq::<char>::empty() {
                    let w = choose|k: int|
                        0 <= k < old_players.len() && old_players[k].id@ == sel;
                    assert(nps[w].id@ == sel);
                }
            }
            Ok(())
        },
    }
}

/// Removes the record at `player_id`; `NotFound` if absent. If the removed
/// record was selected, the selection moves to the first remaining record or
/// becomes unset; the result is always a roster whose selection is unset or
/// names an existing record.
pub fn delete_player(state: &mut AccountInfo, player_id: &String) -> (r: Result<(), AccountError>)
    requires
        old(state).wf(),
    ensures
        final(state).wf(),
        final(state).auth_servers == old(state).auth_servers,
        final(state).is_oauth_processing == old(state).is_oauth_processing,
        !has_player_id(old(state).players@, player_id@) ==> r == Err::<(), AccountError>(
            AccountError::NotFound,
        ) && *final(state) == *old(state),
        has_player_id(old(state).players@, player_id@) ==> r is Ok && (forall|i: int|
            0 <= i < old(state).players@.len() && old(state).players@[i].id@ == player_id@
                ==> final(state).players@ == old(state).players@.remove(i)) && (old(state).selected_player_id@ == player_id@ ==> (final(state).players@.len() == 0 ==> final(state).selected_player_id@ == Seq::<char>::empty()) && (final(state).players@.len() > 0
            ==> final(state).selected_player_id@ == final(state).players@[0].id@)) && (old(state).selected_player_id@ != player_id@ ==> final(state).selected_player_id == old(state).selected_player_id),
{
    let ghost old_players = state.players@;
    match find_player_index(&state.players, player_id) {
        None => Err(AccountError::NotFound),
        Some(i) => {
            state.players.remove(i);
            proof {
                old_players.remove_ensures(i as int);
                let np = state.players@;
                assert(forall|j: int|
                    0 <= j < old_players.len() && old_players[j].id@ == player_id@ ==> j == i);
                assert(ids_unique(np)) by {
                    assert(forall|a: int, b: int|
                        0 <= a < b < np.len() ==> np[a].id@ != np[b].id@) by {
                        assert(forall|k: int| 0 <= k < i ==> np[k] == old_players[k]);
                        assert(forall|k: int|
                            i <= k < np.len() ==> np[k] == old_players[k + 1]);
                    }
                }
            }
            let selected_matches = state.selected_player_id.eq(player_id);
            if selected_matches {
                if state.players.len() == 0 {
                    state.selected_player_id = String::new();
                } else {
                    state.selected_player_id = state.players[0].id.clone();
                    proof {
                        assert(has_player_id(
                            state.players@,
                            state.selected_player_id@,
                        )) by {
                            assert(state.players@[0].id@ == state.selected_player_id@);
                        }
                    }
                }
            } else {
                proof {
                    old_players.remove_ensures(i as int);
                    let np = state.players@;
                    let sel = state.selected_player_id@;
                    if sel != Seq::<char>::empty() {
                        let w = choose|k: int|
                            0 <= k < old_players.len() && old_players[k].id@ == sel;
                        assert(old_players[i as int].id@ == player_id@);
                        if w < i {
                            assert(np[w].id@ == sel);
                        } else {
                            assert(np[w - 1] == old_players[w]);
                            assert(np[w - 1].id@ == sel);
                        }
                    }
                }
            }
            Ok(())
        },
    }
}

/// A snapshot of the registered third-party auth servers.
pub fn retrieve_auth_server_list(state: &AccountInfo) -> (r: Vec<AuthServer>)
    ensures
        r@ == state.auth_servers@,
{
    let n = state.auth_servers.len();
    let mut out: Vec<AuthServer> = Vec::new();
    let mut i: usize = 0;
    while i < n
        invariant
            n == state.auth_servers@.len(),
            i <= n,
            out@.len() == i,
            forall|k: int| 0 <= k < i ==> out@[k] == state.auth_servers@[k],
        decreases n - i,
    {
        out.push(copy_auth_server(&state.auth_servers[i]));
        i += 1;
    }
    proof {
        assert(out@ =~= state.auth_servers@);
    }
    out
}

/// Fails with `Duplicate` when a server with the given canonical url is
/// already registered; the pre-check both fetch and add run first.
pub fn check_server_not_registered(state: &AccountInfo, auth_url: &String) -> (r: Result<
    (),
    AccountError,
>)
    ensures
        has_server_url(state.auth_servers@, auth_url@) ==> r == Err::<(), AccountError>(
            AccountError::Duplicate,
        ),
        !has_server_url(state.auth_servers@, auth_url@) ==> r is Ok,
{
    match find_server_index(&state.auth_servers, auth_url) {
        Some(_) => Err(AccountError::Duplicate),
        None => Ok(()),
    }
}

/// Registers a fetched server; `Duplicate` if its url is already present,
/// in which case nothing changes.
pub fn add_auth_server(state: &mut AccountInfo, server: AuthServer) -> (r: Result<
    (),
    AccountError,
>)
    requires
        old(state).wf(),
    ensures
        final(state).wf(),
        final(state).players == old(state).players,
        final(state).selected_player_id == old(state).selected_player_id,
        final(state).is_oauth_processing == old(state).is_oauth_processing,
        has_server_url(old(state).auth_servers@, server.auth_url@) ==> r == Err::<
            (),
            AccountError,
        >(AccountError::Duplicate) && *final(state) == *old(state),
        !has_server_url(old(state).auth_servers@, server.auth_url@) ==> r is Ok && final(state).auth_servers@ == old(state).auth_servers@.push(server),
{
    let ghost old_servers = state.auth_servers@;
    match find_server_index(&state.auth_servers, &server.auth_url) {
        Some(_) => Err(AccountError::Duplicate),
        None => {
            state.auth_servers.push(server);
            proof {
                let ns = state.auth_servers@;
                assert(server_urls_unique(ns)) by {
                    assert(forall|k: int|
                        0 <= k < old_servers.len() ==> ns[k] == old_servers[k]);
                }
            }
            Ok(())
        },
    }
}

/// Normalizes the url the user typed when registering a server: accepted as
/// given when it parses as a URL, retried with an `https://` prefix when
/// not, rejected as `Invalid` when neither parses. The network fetch of the
/// server's metadata follows outside, on the accepted form.
pub fn fetch_auth_server(url: &String) -> (r: Result<String, AccountError>)
    ensures
        is_parseable_url(url@) ==> (r matches Ok(u) && u@ == url@),
        !is_parseable_url(url@) && is_parseable_url("https://"@ + url@) ==> (r matches Ok(u) && u@
            == "https://"@ + url@),
        !is_parseable_url(url@) && !is_parseable_url("https://"@ + url@) ==> r == Err::<
            String,
            AccountError,
        >(AccountError::Invalid),
{
    if url_parse_ok(url.as_str()) {
        return Ok(url.clone());
    }
    let prefixed = String::from_str("https://").concat(url.as_str());
    if url_parse_ok(prefixed.as_str()) {
        return Ok(prefixed);
    }
    Err(AccountError::Invalid)
}

/// The characters of an optional string, empty when absent.
pub open spec fn opt_or_empty(o: Option<String>) -> Seq<char> {
    match o {
        Some(s) => s@,
        None => Seq::empty(),
    }
}

/// What the caller must do next to run a device-authorization login.
#[derive(Debug, PartialEq)]
pub enum OAuthPlan {
    Microsoft,
    ThirdParty { openid_configuration_url: String, client_id: String },
}

/// What the caller must do next to refresh a player's credentials.
#[derive(Debug, PartialEq)]
pub enum RefreshPlan {
    Microsoft { player: PlayerInfo },
    ThirdParty { player: PlayerInfo, server: AuthServer },
}

/// Decides where a device-authorization request must go: the fixed vendor
/// for `Microsoft`, the registered server's discovered endpoint for
/// `ThirdParty` (`NotFound` when the url is not registered), and `Invalid`
/// for `Offline`, which has no device flow.
pub fn fetch_oauth_code(
    state: &AccountInfo,
    server_type: PlayerType,
    auth_server_url: &String,
) -> (r: Result<OAuthPlan, AccountError>)
    requires
        state.wf(),
    ensures
        server_type == PlayerType::Offline ==> r == Err::<OAuthPlan, AccountError>(
            AccountError::Invalid,
        ),
        server_type == PlayerType::Microsoft ==> (r matches Ok(p) && p is Microsoft),
        server_type == PlayerType::ThirdParty && !has_server_url(
            state.auth_servers@,
            auth_server_url@,
        ) ==> r == Err::<OAuthPlan, AccountError>(AccountError::NotFound),
        server_type == PlayerType::ThirdParty && has_server_url(
            state.auth_servers@,
            auth_server_url@,
        ) ==> (r matches Ok(p) && p matches OAuthPlan::ThirdParty {
            openid_configuration_url: o,
            client_id: c,
        } && forall|i: int|
            0 <= i < state.auth_servers@.len() && state.auth_servers@[i].auth_url@
                == auth_server_url@ ==> o@ == state.auth_servers@[i].openid_configuration_url@
                && c@ == state.auth_servers@[i].client_id@),
{
    match server_type {
        PlayerType::Offline => Err(AccountError::Invalid),
        PlayerType::Microsoft => Ok(OAuthPlan::Microsoft),
        PlayerType::ThirdParty => {
            match find_server_index(&state.auth_servers, auth_server_url) {
                None => Err(AccountError::NotFound),
                Some(i) => {
                    let s = &state.auth_servers[i];
                    Ok(
                        OAuthPlan::ThirdParty {
                            openid_configuration_url: s.openid_configuration_url.clone(),
                            client_id: s.client_id.clone(),
                        },
                    )
                },
            }
        },
    }
}

/// Decides how a stored player re-logs in through the device flow:
/// `NotFound` when the id is absent, `Invalid` for an offline record, and
/// otherwise the same dispatch as a fresh device-authorization request,
/// against the record's own origin server.
pub fn relogin_player_oauth(state: &AccountInfo, player_id: &String) -> (r: Result<
    OAuthPlan,
    AccountError,
>)
    requires
        state.wf(),
    ensures
        !has_player_id(state.players@, player_id@) ==> r == Err::<OAuthPlan, AccountError>(
            AccountError::NotFound,
        ),
        has_player_id(state.players@, player_id@) ==> forall|i: int|
            0 <= i < state.players@.len() && state.players@[i].id@ == player_id@ ==> ({
                let p = state.players@[i];
                &&& p.player_type == PlayerType::Offline ==> r == Err::<OAuthPlan, AccountError>(
                    AccountError::Invalid,
                )
                &&& p.player_type == PlayerType::Microsoft ==> (r matches Ok(pl)
                    && pl is Microsoft)
                &&& p.player_type == PlayerType::ThirdParty && !has_server_url(
                    state.auth_servers@,
                    opt_or_empty(p.auth_server_url),
                ) ==> r == Err::<OAuthPlan, AccountError>(AccountError::NotFound)
                &&& p.player_type == PlayerType::ThirdParty && has_server_url(
                    state.auth_servers@,
                    opt_or_empty(p.auth_server_url),
                ) ==> (r matches Ok(pl) && pl matches OAuthPlan::ThirdParty {
                    openid_configuration_url: o,
                    client_id: c,
                } && forall|j: int|
                    0 <= j < state.auth_servers@.len() && state.auth_servers@[j].auth_url@
                        == opt_or_empty(p.auth_server_url) ==> o@
                        == state.auth_servers@[j].openid_configuration_url@ && c@
                        == state.auth_servers@[j].client_id@)
            }),
{
    match find_player_index(&state.players, player_id) {
        None => Err(AccountError::NotFound),
        Some(i) => {
            proof {
                assert(forall|j: int|
                    0 <= j < state.players@.len() && state.players@[j].id@ == player_id@ ==> j
                        == i);
            }
            let url = match &state.players[i].auth_server_url {
                Some(u) => u.clone(),
                None => String::new(),
            };
            match state.players[i].player_type {
                PlayerType::Offline => Err(AccountError::Invalid),
                PlayerType::Microsoft => Ok(OAuthPlan::Microsoft),
                PlayerType::ThirdParty => {
                    match find_server_index(&state.auth_servers, &url) {
                        None => Err(AccountError::NotFound),
                        Some(j) => {
                            let s = &state.auth_servers[j];
                            Ok(
                                OAuthPlan::ThirdParty {
                                    openid_configuration_url: s.openid_configuration_url.clone(),
                                    client_id: s.client_id.clone(),
                                },
                            )
                        },
                    }
                },
            }
        },
    }
}

/// Decides how a stored player's credentials refresh without interaction:
/// `NotFound` when the id is absent, `Invalid` for an offline record;
/// otherwise the record itself (whose refresh token the caller uses) and,
/// for `ThirdParty`, its registered origin server.
pub fn refresh_player(state: &AccountInfo, player_id: &String) -> (r: Result<
    RefreshPlan,
    AccountError,
>)
    requires
        state.wf(),
    ensures
        !has_player_id(state.players@, player_id@) ==> r == Err::<RefreshPlan, AccountError>(
            AccountError::NotFound,
        ),
        has_player_id(state.players@, player_id@) ==> forall|i: int|
            0 <= i < state.players@.len() && state.players@[i].id@ == player_id@ ==> ({
                let p = state.players@[i];
                &&& p.player_type == PlayerType::Offline ==> r == Err::<RefreshPlan, AccountError>(
                    AccountError::Invalid,
                )
                &&& p.player_type == PlayerType::Microsoft ==> (r matches Ok(
                    RefreshPlan::Microsoft { player: q },
                ) && q == p)
                &&& p.player_type == PlayerType::ThirdParty && !has_server_url(
                    state.auth_servers@,
                    opt_or_empty(p.auth_server_url),
                ) ==> r == Err::<RefreshPlan, AccountError>(AccountError::NotFound)
                &&& p.player_type == PlayerType::ThirdParty && has_server_url(
                    state.auth_servers@,
                    opt_or_empty(p.auth_server_url),
                ) ==> (r matches Ok(RefreshPlan::ThirdParty { player: q, server: s }) && q == p
                    && forall|j: int|
                    0 <= j < state.auth_servers@.len() && state.auth_servers@[j].auth_url@
                        == opt_or_empty(p.auth_server_url) ==> s == state.auth_servers@[j])
            }),
{
    match find_player_index(&state.players, player_id) {
        None => Err(AccountError::NotFound),
        Some(i) => {
            proof {
                assert(forall|j: int|
                    0 <= j < state.players@.len() && state.players@[j].id@ == player_id@ ==> j
                        == i);
            }
            let url = match &state.players[i].auth_server_url {
                Some(u) => u.clone(),
                None => String::new(),
            };
            match state.players[i].player_type {
                PlayerType::Offline => Err(AccountError::Invalid),
                PlayerType::Microsoft => Ok(
                    RefreshPlan::Microsoft { player: copy_player(&state.players[i]) },
                ),
                PlayerType::ThirdParty => {
                    match find_server_index(&state.auth_servers, &url) {
                        None => Err(AccountError::NotFound),
                        Some(j) => Ok(
                            RefreshPlan::ThirdParty {
                                player: copy_player(&state.players[i]),
                                server: copy_auth_server(&state.auth_servers[j]),
                            },
                        ),
                    }
                },
            }
        },
    }
}

/// What follows a password-grant login, once its candidates are screened
/// against the roster.
#[derive(Debug, PartialEq)]
pub enum PasswordStep {
    /// One new identity whose token is already profile-bound: insert it.
    InsertDirect(PlayerInfo),
    /// One new identity whose token is not yet bound: the caller must
    /// re-resolve it through the profile-binding refresh before inserting.
    BindThenInsert(PlayerInfo),
    /// Several new identities: the caller must ask the user to choose.
    Choose(Vec<Player>),
}

/// Some candidate's id is already present in the roster.
pub open spec fn any_duplicate(players: Seq<PlayerInfo>, cands: Seq<PlayerInfo>) -> bool {
    exists|i: int| 0 <= i < cands.len() && has_player_id(players, cands[i].id@)
}

/// Decides what follows a password-grant login that returned `candidates`.
/// `NotFound` when the server returned none at all. `Duplicate` when any
/// returned profile is already present: the account these profiles belong
/// to is already represented, so nothing is inserted. Otherwise a single
/// candidate must still be token-bound first unless the server bound it
/// already, and several go back to the caller for disambiguation.
pub fn add_player_3rdparty_password(
    state: &AccountInfo,
    candidates: Vec<PlayerInfo>,
    is_token_binded: bool,
) -> (r: Result<PasswordStep, AccountError>)
    ensures
        candidates@.len() == 0 ==> r == Err::<PasswordStep, AccountError>(AccountError::NotFound),
        candidates@.len() > 0 && any_duplicate(state.players@, candidates@) ==> r == Err::<
            PasswordStep,
            AccountError,
        >(AccountError::Duplicate),
        !any_duplicate(state.players@, candidates@) && candidates@.len() == 1 && is_token_binded
            ==> (r matches Ok(PasswordStep::InsertDirect(p)) && p == candidates@[0]),
        !any_duplicate(state.players@, candidates@) && candidates@.len() == 1 && !is_token_binded
            ==> (r matches Ok(PasswordStep::BindThenInsert(p)) && p == candidates@[0]),
        !any_duplicate(state.players@, candidates@) && candidates@.len() > 1 ==> (r matches Ok(
            PasswordStep::Choose(v),
        ) && v@ == strip_all(candidates@)),
{
    if candidates.len() == 0 {
        return Err(AccountError::NotFound);
    }
    let n = candidates.len();
    let mut i: usize = 0;
    while i < n
        invariant
            n == candidates@.len(),
            i <= n,
            forall|k: int| 0 <= k < i ==> !has_player_id(state.players@, candidates@[k].id@),
        decreases n - i,
    {
        match find_player_index(&state.players, &candidates[i].id) {
            Some(_) => {
                proof {
                    assert(has_player_id(state.players@, candidates@[i as int].id@));
                }
                return Err(AccountError::Duplicate);
            },
            None => {},
        }
        i += 1;
    }
    let mut fresh = candidates;
    if fresh.len() == 1 {
        let p = fresh.remove(0);
        if is_token_binded {
            return Ok(PasswordStep::InsertDirect(p));
        }
        return Ok(PasswordStep::BindThenInsert(p));
    }
    let out = strip_players(&fresh);
    Ok(PasswordStep::Choose(out))
}

/// Decides how a stored third-party player re-logs in by password:
/// `NotFound` when the id is absent, `Invalid` when the record is not
/// third-party; otherwise the origin server url and the stored login name
/// the caller authenticates with (each empty when the record has none).
pub fn relogin_player_3rdparty_password(state: &AccountInfo, player_id: &String) -> (r: Result<
    (String, String),
    AccountError,
>)
    requires
        state.wf(),
    ensures
        !has_player_id(state.players@, player_id@) ==> r == Err::<(String, String), AccountError>(
            AccountError::NotFound,
        ),
        has_player_id(state.players@, player_id@) ==> forall|i: int|
            0 <= i < state.players@.len() && state.players@[i].id@ == player_id@ ==> ({
                let p = state.players@[i];
                &&& p.player_type != PlayerType::ThirdParty ==> r == Err::<
                    (String, String),
                    AccountError,
                >(AccountError::Invalid)
                &&& p.player_type == PlayerType::ThirdParty ==> (r matches Ok(u) && u.0@
                    == opt_or_empty(p.auth_server_url) && u.1@ == opt_or_empty(p.auth_account))
            }),
{
    match find_player_index(&state.players, player_id) {
        None => Err(AccountError::NotFound),
        Some(i) => {
            proof {
                assert(forall|j: int|
                    0 <= j < state.players@.len() && state.players@[j].id@ == player_id@ ==> j
                        == i);
            }
            let is_third_party = match state.players[i].player_type {
                PlayerType::ThirdParty => true,
                _ => false,
            };
            if !is_third_party {
                return Err(AccountError::Invalid);
            }
            let url = match &state.players[i].auth_server_url {
                Some(u) => u.clone(),
                None => String::new(),
            };
            let account = match &state.players[i].auth_account {
                Some(a) => a.clone(),
                None => String::new(),
            };
            Ok((url, account))
        },
    }
}

/// Picks, out of the identities a password re-login returned, the first one
/// whose uuid matches the stored record; `NotFound` when none does.
pub fn select_relogin_candidate(candidates: Vec<PlayerInfo>, uuid: &String) -> (r: Result<
    PlayerInfo,
    AccountError,
>)
    ensures
        match r {
            Ok(p) => exists|i: int|
                0 <= i < candidates@.len() && p == candidates@[i] && candidates@[i].uuid@ == uuid@
                    && forall|k: int| 0 <= k < i ==> candidates@[k].uuid@ != uuid@,
            Err(e) => e == AccountError::NotFound && forall|i: int|
                0 <= i < candidates@.len() ==> candidates@[i].uuid@ != uuid@,
        },
{
    let n = candidates.len();
    let mut i: usize = 0;
    while i < n
        invariant
            n == candidates@.len(),
            i <= n,
            forall|k: int| 0 <= k < i ==> candidates@[k].uuid@ != uuid@,
        decreases n - i,
    {
        if candidates[i].uuid.eq(uuid) {
            return Ok(copy_player(&candidates[i]));
        }
        i += 1;
    }
    Err(AccountError::NotFound)
}

/// The record is bound to the identity server at `url`.
pub open spec fn player_uses_server(p: PlayerInfo, url: Seq<char>) -> bool {
    match p.auth_server_url {
        Some(u) => u@ == url,
        None => false,
    }
}

/// The records that survive deleting the server at `url`, in order.
pub open spec fn without_server(players: Seq<PlayerInfo>, url: Seq<char>) -> Seq<PlayerInfo>
    decreases players.len(),
{
    if players.len() == 0 {
        Seq::empty()
    } else if player_uses_server(players[0], url) {
        without_server(players.drop_first(), url)
    } else {
        seq![players[0]] + without_server(players.drop_first(), url)
    }
}

/// The record the selection names is bound to the server at `url`.
pub open spec fn selected_bound_to(
    players: Seq<PlayerInfo>,
    sel: Seq<char>,
    url: Seq<char>,
) -> bool {
    exists|i: int|
        0 <= i < players.len() && players[i].id@ == sel && player_uses_server(players[i], url)
}

/// The cascade filter keeps only records that were there, keeps uniqueness,
/// and keeps every record not bound to the deleted server.
pub proof fn lemma_without_server(players: Seq<PlayerInfo>, url: Seq<char>)
    ensures
        forall|k: int|
            0 <= k < without_server(players, url).len() ==> players.contains(
                without_server(players, url)[k],
            ),
        ids_unique(players) ==> ids_unique(without_server(players, url)),
        forall|j: int|
            0 <= j < players.len() && !player_uses_server(players[j], url)
                ==> without_server(players, url).contains(players[j]),
        forall|k: int|
            0 <= k < without_server(players, url).len() ==> !player_uses_server(
                without_server(players, url)[k],
                url,
            ),
    decreases players.len(),
{
    if players.len() > 0 {
        let rest = players.drop_first();
        lemma_without_server(rest, url);
        let w = without_server(players, url);
        let wr = without_server(rest, url);
        assert(forall|k: int| 0 <= k < rest.len() ==> rest[k] == players[k + 1]);
        assert forall|k: int| 0 <= k < w.len() implies players.contains(w[k]) by {
            if player_uses_server(players[0], url) {
                assert(w[k] == wr[k]);
                let j = choose|j: int| 0 <= j < rest.len() && rest[j] == wr[k];
                assert(players[j + 1] == w[k]);
            } else {
                if k == 0 {
                    assert(w[0] == players[0]);
                } else {
                    assert(w[k] == wr[k - 1]);
                    let j = choose|j: int| 0 <= j < rest.len() && rest[j] == wr[k - 1];
                    assert(players[j + 1] == w[k]);
                }
            }
        }
        if ids_unique(players) {
            assert(ids_unique(rest)) by {
                assert(forall|a: int, b: int|
                    0 <= a < b < rest.len() ==> rest[a].id@ != rest[b].id@);
            }
            assert(ids_unique(w)) by {
                if player_uses_server(players[0], url) {
                } else {
                    assert forall|a: int, b: int| 0 <= a < b < w.len() implies w[a].id@
                        != w[b].id@ by {
                        if a == 0 {
                            assert(w[b] == wr[b - 1]);
                            let j = choose|j: int| 0 <= j < rest.len() && rest[j] == wr[b - 1];
                            assert(players[j + 1] == w[b]);
                            assert(players[0].id@ != players[j + 1].id@);
                        } else {
                            assert(w[a] == wr[a - 1] && w[b] == wr[b - 1]);
                        }
                    }
                }
            }
        }
        assert forall|j: int|
            0 <= j < players.len() && !player_uses_server(players[j], url) implies w.contains(
            players[j],
        ) by {
            if j == 0 {
                assert(w[0] == players[0]);
            } else {
                assert(rest[j - 1] == players[j]);
                assert(wr.contains(players[j]));
                let k = choose|k: int| 0 <= k < wr.len() && wr[k] == players[j];
                if player_uses_server(players[0], url) {
                    assert(w[k] == players[j]);
                } else {
                    assert(w[k + 1] == players[j]);
                }
            }
        }
        assert forall|k: int| 0 <= k < w.len() implies !player_uses_server(w[k], url) by {
            if player_uses_server(players[0], url) {
                assert(w[k] == wr[k]);
            } else {
                if k > 0 {
                    assert(w[k] == wr[k - 1]);
                }
            }
        }
    }
}

/// Law: the cascading delete restores the origin invariant it exists for.
/// When every third-party record referenced a registered server, the records
/// that survive deleting the server at `url` still reference one of the
/// servers that remain.
pub proof fn lemma_cascade_keeps_origins(
    players: Seq<PlayerInfo>,
    servers: Seq<AuthServer>,
    url: Seq<char>,
    i: int,
)
    requires
        0 <= i < servers.len(),
        servers[i].auth_url@ == url,
        servers_consistent(players, servers),
    ensures
        servers_consistent(without_server(players, url), servers.remove(i)),
{
    lemma_without_server(players, url);
    servers.remove_ensures(i);
    let w = without_server(players, url);
    let ns = servers.remove(i);
    assert forall|k: int|
        0 <= k < w.len() && w[k].player_type == PlayerType::ThirdParty implies (
    w[k].auth_server_url matches Some(u) && has_server_url(ns, u@)) by {
        let j = choose|j: int| 0 <= j < players.len() && players[j] == w[k];
        assert(players[j].auth_server_url matches Some(u) && has_server_url(servers, u@));
        match w[k].auth_server_url {
            None => {
                assert(false);
            },
            Some(u) => {
                assert(!player_uses_server(w[k], url));
                assert(u@ != url);
                let m = choose|m: int| 0 <= m < servers.len() && servers[m].auth_url@ == u@;
                assert(m != i);
                if m < i {
                    assert(ns[m].auth_url@ == u@);
                } else {
                    assert(ns[m - 1] == servers[m]);
                    assert(ns[m - 1].auth_url@ == u@);
                }
            },
        }
    }
}

/// Deletes a registered server; `NotFound` if its url is absent. Deleting
/// cascades: every record bound to that server leaves the roster, and if the
/// selected record was among them the selection moves to the first remaining
/// record or becomes unset.
pub fn delete_auth_server(state: &mut AccountInfo, url: &String) -> (r: Result<(), AccountError>)
    requires
        old(state).wf(),
    ensures
        final(state).wf(),
        final(state).is_oauth_processing == old(state).is_oauth_processing,
        !has_server_url(old(state).auth_servers@, url@) ==> r == Err::<(), AccountError>(
            AccountError::NotFound,
        ) && *final(state) == *old(state),
        has_server_url(old(state).auth_servers@, url@) ==> r is Ok && (forall|i: int|
            0 <= i < old(state).auth_servers@.len() && old(state).auth_servers@[i].auth_url@
                == url@ ==> final(state).auth_servers@ == old(state).auth_servers@.remove(i))
            && final(state).players@ == without_server(old(state).players@, url@) && (
        selected_bound_to(old(state).players@, old(state).selected_player_id@, url@) ==> (final(state).players@.len() == 0 ==> final(state).selected_player_id@ == Seq::<char>::empty()) && (
        final(state).players@.len() > 0 ==> final(state).selected_player_id@ == final(state).players@[0].id@)) && (!selected_bound_to(
            old(state).players@,
            old(state).selected_player_id@,
            url@,
        ) ==> final(state).selected_player_id == old(state).selected_player_id),
        has_server_url(old(state).auth_servers@, url@) && servers_consistent(
            old(state).players@,
            old(state).auth_servers@,
        ) ==> servers_consistent(final(state).players@, final(state).auth_servers@),
{
    let ghost old_servers = state.auth_servers@;
    let ghost old_players = state.players@;
    let i = match find_server_index(&state.auth_servers, url) {
        None => {
            return Err(AccountError::NotFound);
        },
        Some(i) => i,
    };
    state.auth_servers.remove(i);
    proof {
        old_servers.remove_ensures(i as int);
        assert(forall|j: int|
            0 <= j < old_servers.len() && old_servers[j].auth_url@ == url@ ==> j == i);
        let ns = state.auth_servers@;
        assert(server_urls_unique(ns)) by {
            assert(forall|k: int| 0 <= k < i ==> ns[k] == old_servers[k]);
            assert(forall|k: int| i <= k < ns.len() ==> ns[k] == old_servers[k + 1]);
        }
    }
    let sel = state.selected_player_id.clone();
    let n = state.players.len();
    let mut kept: Vec<PlayerInfo> = Vec::new();
    let mut need_reset = false;
    let mut j: usize = 0;
    proof {
        assert(old_players.subrange(0, n as int) =~= old_players);
    }
    while j < n
        invariant
            n == old_players.len(),
            state.players@ == old_players,
            sel@ == state.selected_player_id@,
            j <= n,
            kept@ + without_server(old_players.subrange(j as int, n as int), url@)
                == without_server(old_players, url@),
            need_reset == selected_bound_to(old_players.subrange(0, j as int), sel@, url@),
        decreases n - j,
    {
        let ghost pre = old_players.subrange(j as int, n as int);
        proof {
            assert(pre[0] == old_players[j as int]);
            assert(pre.drop_first() =~= old_players.subrange(j + 1, n as int));
        }
        let uses = match &state.players[j].auth_server_url {
            Some(u) => u.eq(url),
            None => false,
        };
        if uses {
            let matches_sel = state.players[j].id.eq(&sel);
            let ghost was_reset = need_reset;
            if matches_sel {
                need_reset = true;
            }
            proof {
                let s = old_players.subrange(0, j + 1);
                let prefix = old_players.subrange(0, j as int);
                assert(forall|k: int| 0 <= k < j ==> s[k] == old_players[k] && prefix[k]
                    == old_players[k]);
                assert(s[j as int] == old_players[j as int]);
                assert(need_reset == selected_bound_to(s, sel@, url@)) by {
                    if matches_sel {
                        assert(s[j as int].id@ == sel@ && player_uses_server(s[j as int], url@));
                    } else {
                        if was_reset {
                            let w = choose|k: int|
                                0 <= k < prefix.len() && prefix[k].id@ == sel@
                                    && player_uses_server(prefix[k], url@);
                            assert(s[w].id@ == sel@ && player_uses_server(s[w], url@));
                        } else {
                            if selected_bound_to(s, sel@, url@) {
                                let w = choose|k: int|
                                    0 <= k < s.len() && s[k].id@ == sel@ && player_uses_server(
                                        s[k],
                                        url@,
                                    );
                                assert(w != j);
                                assert(prefix[w].id@ == sel@ && player_uses_server(
                                    prefix[w],
                                    url@,
                                ));
                                assert(false);
                            }
                        }
                    }
                }
            }
        } else {
            kept.push(copy_player(&state.players[j]));
            proof {
                assert(kept@ + without_server(old_players.subrange(j + 1, n as int), url@)
                    =~= without_server(old_players, url@));
                let s = old_players.subrange(0, j + 1);
                assert(s.drop_last() =~= old_players.subrange(0, j as int));
                assert(need_reset == selected_bound_to(s, sel@, url@)) by {
                    assert(forall|k: int| 0 <= k < j ==> s[k] == old_players[k]);
                    if need_reset {
                        let w = choose|k: int|
                            0 <= k < j && old_players.subrange(0, j as int)[k].id@ == sel@
                                && player_uses_server(old_players.subrange(0, j as int)[k], url@);
                        assert(s[w] == old_players[w]);
                    } else {
                        assert(!player_uses_server(s[j as int], url@));
                    }
                }
            }
        }
        j += 1;
    }
    proof {
        assert(old_players.subrange(n as int, n as int) =~= Seq::<PlayerInfo>::empty());
        assert(kept@ =~= without_server(old_players, url@));
        assert(old_players.subrange(0, n as int) =~= old_players);
        lemma_without_server(old_players, url@);
    }
    state.players = kept;
    if need_reset {
        if state.players.len() == 0 {
            state.selected_player_id = String::new();
        } else {
            state.selected_player_id = state.players[0].id.clone();
            proof {
                assert(state.players@[0].id@ == state.selected_player_id@);
            }
        }
    } else {
        proof {
            let np = state.players@;
            let s = state.selected_player_id@;
            if s != Seq::<char>::empty() {
                let w = choose|k: int| 0 <= k < old_players.len() && old_players[k].id@ == s;
                assert(!player_uses_server(old_players[w], url@));
                assert(np.contains(old_players[w]));
                let k = choose|k: int| 0 <= k < np.len() && np[k] == old_players[w];
                assert(np[k].id@ == s);
            }
        }
    }
    proof {
        if servers_consistent(old_players, old_servers) {
            lemma_cascade_keeps_origins(old_players, old_servers, url@, i as int);
        }
    }
    Ok(())
}

/// Clears the device-flow polling flag; the poll loop checks it between
/// polls and exits cleanly, leaving the roster untouched.
pub fn cancel_oauth(state: &mut AccountInfo)
    ensures
        final(state).players == old(state).players,
        final(state).auth_servers == old(state).auth_servers,
        final(state).selected_player_id == old(state).selected_player_id,
        !final(state).is_oauth_processing,
        old(state).wf() ==> final(state).wf(),
{
    state.is_oauth_processing = false;
}

} // verus!
