//! The cookie-session login flow: a three-step state machine driven through
//! `CAUCAuthState` — establish a session by scraping a CSRF token and
//! classifying the provider's response, bind a display name when the
//! provider demands one, and finalize against the Yggdrasil-style endpoint
//! with an ordered username fallback.
//!
//! All HTTP happens outside; the functions here parse the raw bytes a caller
//! hands in, carry the session state, and decide each next step.

use vstd::prelude::*;

use crate::account::{dedup_candidates, lemma_survivors_fresh, strip_all, strip_players, survivors};
use crate::error::AccountError;
use crate::models::{has_player_id, ids_unique, AccountInfo, Player, PlayerInfo, PlayerType};
use crate::text::{
    ascii_literal, ascii_seq, byte_index, bytes_eq, contains_bytes, contains_sub,
    eq_ignore_ascii_case, find_byte, find_sub, first_match, lower_seq, sub_vec, trim_bytes,
    trim_spec,
};
use crate::urls::{url_decode, url_decoded};

verus! {

// ---------------------------------------------------------------------------
// Data model
// ---------------------------------------------------------------------------

/// The ephemeral state of one in-progress cookie-session login: the external
/// id the user typed, the accumulated cookie jar, whether the provider still
/// demands a display-name binding, the decoded XSRF token if one was set,
/// and the display name once resolved.
#[derive(Debug, Clone, PartialEq)]
pub struct CAUCAuthState {
    pub student_id: Vec<u8>,
    pub cookie_jar: Vec<(Vec<u8>, Vec<u8>)>,
    pub requires_bind: bool,
    pub xsrf_token: Option<Vec<u8>>,
    pub player_name: Option<Vec<u8>>,
}

/// Holds at most one in-progress cookie-session login. A finalize or bind
/// call that finds no session here is a hard error, never a silent no-op.
#[derive(Debug)]
pub struct CaucSessionStore {
    pub current: Option<CAUCAuthState>,
}

/// One profile reference the identity server offers.
#[derive(Debug, Clone, PartialEq)]
pub struct YggdrasilProfile {
    pub id: String,
    pub name: String,
}

/// What the identity server's authenticate endpoint answered: a token, an
/// already-designated profile if the server chose one, and the offered list.
#[derive(Debug, Clone, PartialEq)]
pub struct CAUCAuthResponse {
    pub access_token: String,
    pub selected_profile: Option<YggdrasilProfile>,
    pub available_profiles: Option<Vec<YggdrasilProfile>>,
}

/// How a whole login run ends: resolved identities, or a session that still
/// needs a display name bound.
#[derive(Debug, PartialEq)]
pub enum LoginFlowResult {
    Success { players: Vec<PlayerInfo>, has_selected: bool },
    RequiresBind { auth_state: CAUCAuthState },
}

/// The next move the flow driver must make for a fresh session.
#[derive(Debug, PartialEq)]
pub enum LoginFlowStep {
    /// Ask the user for a display name, then bind and authenticate.
    RequiresBind,
    /// Bind the given name first, then authenticate.
    BindThenAuthenticate(Vec<u8>),
    /// Authenticate right away.
    Authenticate,
}

// ---------------------------------------------------------------------------
// HTTP status classes
// ---------------------------------------------------------------------------

/// The status code is a redirect.
pub open spec fn spec_is_redirection(code: u16) -> bool {
    300 <= code < 400
}

/// The status code is a success.
pub open spec fn spec_is_success(code: u16) -> bool {
    200 <= code < 300
}

/// The status code is a client error.
pub open spec fn spec_is_client_error(code: u16) -> bool {
    400 <= code < 500
}

/// Tests for the redirect status class.
pub fn is_redirection(code: u16) -> (r: bool)
    ensures
        r == spec_is_redirection(code),
{
    300 <= code && code < 400
}

/// Tests for the success status class.
pub fn is_success(code: u16) -> (r: bool)
    ensures
        r == spec_is_success(code),
{
    200 <= code && code < 300
}

/// Tests for the client-error status class.
pub fn is_client_error(code: u16) -> (r: bool)
    ensures
        r == spec_is_client_error(code),
{
    400 <= code && code < 500
}

// ---------------------------------------------------------------------------
// The markers the scraped responses are searched for
// ---------------------------------------------------------------------------

/// The form-input marker in front of the embedded CSRF token.
pub open spec fn csrf_marker() -> Seq<u8> {
    ascii_seq("name=\"_token\" value=\""@)
}

/// The markup marker in front of the page's display name.
pub open spec fn nickname_marker() -> Seq<u8> {
    ascii_seq("data-mark=\"nickname\">"@)
}

/// The redirect-path marker that means a display name must be bound.
pub open spec fn bind_marker() -> Seq<u8> {
    ascii_seq("/user/player/bind"@)
}

/// The cookie name whose decoded value serves as the XSRF request header.
pub open spec fn xsrf_cookie_name() -> Seq<u8> {
    ascii_seq("XSRF-TOKEN"@)
}

fn csrf_marker_vec() -> (r: Vec<u8>)
    ensures
        r@ == csrf_marker(),
{
    let s = "name=\"_token\" value=\"";
    proof {
        reveal_strlit("name=\"_token\" value=\"");
    }
    assert(s.is_ascii()) by {
        assert forall|i: int| 0 <= i < s@.len() implies (s@[i] as u32) < 128 by {}
    }
    ascii_literal(s)
}

fn nickname_marker_vec() -> (r: Vec<u8>)
    ensures
        r@ == nickname_marker(),
{
    let s = "data-mark=\"nickname\">";
    proof {
        reveal_strlit("data-mark=\"nickname\">");
    }
    assert(s.is_ascii()) by {
        assert forall|i: int| 0 <= i < s@.len() implies (s@[i] as u32) < 128 by {}
    }
    ascii_literal(s)
}

fn bind_marker_vec() -> (r: Vec<u8>)
    ensures
        r@ == bind_marker(),
{
    let s = "/user/player/bind";
    proof {
        reveal_strlit("/user/player/bind");
    }
    assert(s.is_ascii()) by {
        assert forall|i: int| 0 <= i < s@.len() implies (s@[i] as u32) < 128 by {}
    }
    ascii_literal(s)
}

fn xsrf_cookie_name_vec() -> (r: Vec<u8>)
    ensures
        r@ == xsrf_cookie_name(),
{
    let s = "XSRF-TOKEN";
    proof {
        reveal_strlit("XSRF-TOKEN");
    }
    assert(s.is_ascii()) by {
        assert forall|i: int| 0 <= i < s@.len() implies (s@[i] as u32) < 128 by {}
    }
    ascii_literal(s)
}

// ---------------------------------------------------------------------------
// Cookie jar
// ---------------------------------------------------------------------------

/// The mathematical content of a jar: name and value of each entry, in order.
pub open spec fn jar_view(jar: Seq<(Vec<u8>, Vec<u8>)>) -> Seq<(Seq<u8>, Seq<u8>)> {
    jar.map_values(|p: (Vec<u8>, Vec<u8>)| (p.0@, p.1@))
}

/// The byte views of a list of header lines.
pub open spec fn lines_view(lines: Seq<Vec<u8>>) -> Seq<Seq<u8>> {
    lines.map_values(|l: Vec<u8>| l@)
}

/// What one `Set-Cookie` line contributes: the name before the first `=`
/// and the value up to the first `;` after it, both trimmed; lines without
/// both separators are ignored.
pub open spec fn cookie_of(line: Seq<u8>) -> Option<(Seq<u8>, Seq<u8>)> {
    match byte_index(line, 61) {
        None => None,
        Some(i) => {
            let key = trim_spec(line.subrange(0, i));
            let rest = line.subrange(i + 1, line.len() as int);
            match byte_index(rest, 59) {
                None => None,
                Some(k) => Some((key, trim_spec(rest.subrange(0, k)))),
            }
        },
    }
}

/// A jar after one cookie lands: the first entry of that name gets the new
/// value, or a new entry is appended — last write wins per cookie name.
pub open spec fn merge_view(
    jar: Seq<(Seq<u8>, Seq<u8>)>,
    key: Seq<u8>,
    value: Seq<u8>,
) -> Seq<(Seq<u8>, Seq<u8>)>
    decreases jar.len(),
{
    if jar.len() == 0 {
        seq![(key, value)]
    } else if jar[0].0 == key {
        seq![(jar[0].0, value)] + jar.drop_first()
    } else {
        seq![jar[0]] + merge_view(jar.drop_first(), key, value)
    }
}

proof fn lemma_merge_view_found(
    jar: Seq<(Seq<u8>, Seq<u8>)>,
    key: Seq<u8>,
    value: Seq<u8>,
    i: int,
)
    requires
        0 <= i < jar.len(),
        jar[i].0 == key,
        forall|k: int| 0 <= k < i ==> jar[k].0 != key,
    ensures
        merge_view(jar, key, value) == jar.update(i, (jar[i].0, value)),
    decreases jar.len(),
{
    if i == 0 {
        assert(seq![(jar[0].0, value)] + jar.drop_first() =~= jar.update(0, (jar[0].0, value)));
    } else {
        let jd = jar.drop_first();
        assert(forall|k: int| 0 <= k < jd.len() ==> jd[k] == jar[k + 1]);
        lemma_merge_view_found(jd, key, value, i - 1);
        assert(seq![jar[0]] + jd.update(i - 1, (jd[i - 1].0, value)) =~= jar.update(
            i,
            (jar[i].0, value),
        ));
    }
}

proof fn lemma_merge_view_absent(jar: Seq<(Seq<u8>, Seq<u8>)>, key: Seq<u8>, value: Seq<u8>)
    requires
        forall|k: int| 0 <= k < jar.len() ==> jar[k].0 != key,
    ensures
        merge_view(jar, key, value) == jar.push((key, value)),
    decreases jar.len(),
{
    if jar.len() == 0 {
        assert(seq![(key, value)] =~= jar.push((key, value)));
    } else {
        let jd = jar.drop_first();
        assert(forall|k: int| 0 <= k < jd.len() ==> jd[k] == jar[k + 1]);
        lemma_merge_view_absent(jd, key, value);
        assert(seq![jar[0]] + jd.push((key, value)) =~= jar.push((key, value)));
    }
}

/// A jar after one `Set-Cookie` line: unchanged when the line does not
/// parse, merged otherwise.
pub open spec fn cookie_step(jar: Seq<(Seq<u8>, Seq<u8>)>, line: Seq<u8>) -> Seq<
    (Seq<u8>, Seq<u8>),
> {
    match cookie_of(line) {
        None => jar,
        Some(kv) => merge_view(jar, kv.0, kv.1),
    }
}

/// A jar after a whole batch of `Set-Cookie` lines, applied in order.
pub open spec fn apply_cookies(jar: Seq<(Seq<u8>, Seq<u8>)>, lines: Seq<Seq<u8>>) -> Seq<
    (Seq<u8>, Seq<u8>),
>
    decreases lines.len(),
{
    if lines.len() == 0 {
        jar
    } else {
        apply_cookies(cookie_step(jar, lines[0]), lines.drop_first())
    }
}

/// Parses one `Set-Cookie` header line into a trimmed name/value pair.
pub fn parse_set_cookie(line: &Vec<u8>) -> (r: Option<(Vec<u8>, Vec<u8>)>)
    ensures
        match r {
            Some(p) => cookie_of(line@) == Some((p.0@, p.1@)),
            None => cookie_of(line@) is None,
        },
{
    let i = match find_byte(line, 61) {
        None => {
            return None;
        },
        Some(i) => i,
    };
    let len = line.len();
    let key = trim_bytes(&sub_vec(line, 0, i));
    let rest = sub_vec(line, i + 1, len);
    let k = match find_byte(&rest, 59) {
        None => {
            return None;
        },
        Some(k) => k,
    };
    let value = trim_bytes(&sub_vec(&rest, 0, k));
    Some((key, value))
}

/// Merges one cookie into the jar, last write winning per name.
pub fn merge_cookie(jar: &mut Vec<(Vec<u8>, Vec<u8>)>, key: Vec<u8>, value: Vec<u8>)
    ensures
        jar_view(final(jar)@) == merge_view(jar_view(old(jar)@), key@, value@),
{
    let n = jar.len();
    let ghost jv = jar_view(jar@);
    let mut i: usize = 0;
    while i < n
        invariant
            n == jar@.len(),
            i <= n,
            jar@ == old(jar)@,
            jv == jar_view(jar@),
            forall|k: int| 0 <= k < i ==> jv[k].0 != key@,
        decreases n - i,
    {
        let hit = bytes_eq(&jar[i].0, &key);
        proof {
            assert(jv[i as int] == (jar@[i as int].0@, jar@[i as int].1@));
        }
        if hit {
            proof {
                assert(jv[i as int].0 == key@);
                lemma_merge_view_found(jv, key@, value@, i as int);
            }
            jar.set(i, (key, value));
            proof {
                assert(jar_view(jar@) =~~= jv.update(i as int, (jv[i as int].0, value@)));
            }
            return ;
        }
        proof {
            assert(jv[i as int].0 != key@);
        }
        i += 1;
    }
    jar.push((key, value));
    proof {
        lemma_merge_view_absent(jv, key@, value@);
        assert(jar_view(jar@) =~~= jv.push((key@, value@)));
    }
}

/// Applies a batch of `Set-Cookie` lines to the jar, in order.
pub fn apply_set_cookies(jar: &mut Vec<(Vec<u8>, Vec<u8>)>, lines: &Vec<Vec<u8>>)
    ensures
        jar_view(final(jar)@) == apply_cookies(jar_view(old(jar)@), lines_view(lines@)),
{
    let n = lines.len();
    let ghost all = lines_view(lines@);
    let ghost init = jar_view(jar@);
    proof {
        assert(all.subrange(0, n as int) =~= all);
    }
    let mut j: usize = 0;
    while j < n
        invariant
            n == lines@.len(),
            all == lines_view(lines@),
            init == jar_view(old(jar)@),
            j <= n,
            apply_cookies(jar_view(jar@), all.subrange(j as int, n as int)) == apply_cookies(
                init,
                all,
            ),
        decreases n - j,
    {
        let ghost pre = all.subrange(j as int, n as int);
        let ghost jv0 = jar_view(jar@);
        proof {
            assert(pre[0] == all[j as int]);
            assert(all[j as int] == lines@[j as int]@);
            assert(pre.drop_first() =~= all.subrange(j + 1, n as int));
        }
        match parse_set_cookie(&lines[j]) {
            None => {
                proof {
                    assert(cookie_step(jv0, pre[0]) == jv0);
                }
            },
            Some(kv) => {
                merge_cookie(jar, kv.0, kv.1);
            },
        }
        j += 1;
    }
    proof {
        assert(all.subrange(n as int, n as int) =~= Seq::<Seq<u8>>::empty());
    }
}

/// Joins the jar into one `Cookie` header value: `name=value` pairs
/// separated by `; `.
pub open spec fn cookie_header_spec(jar: Seq<(Seq<u8>, Seq<u8>)>) -> Seq<u8>
    decreases jar.len(),
{
    if jar.len() == 0 {
        Seq::empty()
    } else if jar.len() == 1 {
        jar[0].0 + seq![61u8] + jar[0].1
    } else {
        cookie_header_spec(jar.drop_last()) + seq![59u8, 32u8] + jar.last().0 + seq![61u8]
            + jar.last().1
    }
}

/// Builds the `Cookie` header value the requests of this flow carry.
pub fn cookie_header(jar: &Vec<(Vec<u8>, Vec<u8>)>) -> (r: Vec<u8>)
    ensures
        r@ == cookie_header_spec(jar_view(jar@)),
{
    let n = jar.len();
    let ghost jv = jar_view(jar@);
    let mut out: Vec<u8> = Vec::new();
    let mut i: usize = 0;
    while i < n
        invariant
            n == jar@.len(),
            jv == jar_view(jar@),
            i <= n,
            out@ == cookie_header_spec(jv.subrange(0, i as int)),
        decreases n - i,
    {
        if i > 0 {
            out.push(59);
            out.push(32);
        }
        out.extend_from_slice(jar[i].0.as_slice());
        out.push(61);
        out.extend_from_slice(jar[i].1.as_slice());
        proof {
            let p = jv.subrange(0, i + 1);
            assert(p.drop_last() =~= jv.subrange(0, i as int));
            assert(p.last() == jv[i as int]);
            assert(jv[i as int] == (jar@[i as int].0@, jar@[i as int].1@));
            assert(out@ =~= cookie_header_spec(p));
        }
        i += 1;
    }
    proof {
        assert(jv.subrange(0, n as int) =~= jv);
    }
    out
}

// ---------------------------------------------------------------------------
// Scraped-response extraction
// ---------------------------------------------------------------------------

/// The embedded CSRF token: the bytes after the first form-input marker, up
/// to the next quote (or to the end when no quote follows). `None` exactly
/// when the marker is absent.
pub open spec fn csrf_token_of(html: Seq<u8>) -> Option<Seq<u8>> {
    match first_match(html, csrf_marker()) {
        None => None,
        Some(i) => {
            let rest = html.subrange(i + csrf_marker().len() as int, html.len() as int);
            match byte_index(rest, 34) {
                None => Some(rest),
                Some(q) => Some(rest.subrange(0, q)),
            }
        },
    }
}

/// Extracts the embedded CSRF form token from the login page markup.
pub fn extract_csrf_token(html: &Vec<u8>) -> (r: Option<Vec<u8>>)
    ensures
        match r {
            Some(v) => csrf_token_of(html@) == Some(v@),
            None => csrf_token_of(html@) is None,
        },
{
    let marker = csrf_marker_vec();
    let hl = html.len();
    let i = match find_sub(html, &marker) {
        None => {
            return None;
        },
        Some(i) => i,
    };
    let rest = sub_vec(html, i + marker.len(), hl);
    match find_byte(&rest, 34) {
        None => Some(rest),
        Some(q) => Some(sub_vec(&rest, 0, q)),
    }
}

/// The display name scraped from the user page: at the leftmost nickname
/// marker that is followed by at least one byte other than `<` and then a
/// closing `<`, the trimmed bytes between the marker and that `<`. A marker
/// immediately followed by `<` captures nothing and the scan moves on; with
/// no `<` left after a marker, no later occurrence can close either, so
/// nothing is captured.
pub open spec fn nickname_of(html: Seq<u8>) -> Option<Seq<u8>>
    decreases html.len(),
{
    if html.len() == 0 {
        None
    } else if html.len() < nickname_marker().len() {
        None
    } else if html.subrange(0, nickname_marker().len() as int) == nickname_marker() {
        let rest = html.subrange(nickname_marker().len() as int, html.len() as int);
        match byte_index(rest, 60) {
            None => None,
            Some(q) => if q > 0 {
                Some(trim_spec(rest.subrange(0, q)))
            } else {
                nickname_of(html.drop_first())
            },
        }
    } else {
        nickname_of(html.drop_first())
    }
}

/// Extracts the current display name from the user page markup.
pub fn extract_nickname(html: &Vec<u8>) -> (r: Option<Vec<u8>>)
    ensures
        match r {
            Some(v) => nickname_of(html@) == Some(v@),
            None => nickname_of(html@) is None,
        },
{
    let marker = nickname_marker_vec();
    proof {
        reveal_strlit("data-mark=\"nickname\">");
        assert(nickname_marker().len() == 21);
    }
    let ml = marker.len();
    let n = html.len();
    proof {
        assert(html@.subrange(0, n as int) =~= html@);
    }
    let mut s: usize = 0;
    while n - s >= ml
        invariant
            n == html@.len(),
            marker@ == nickname_marker(),
            ml == marker@.len(),
            ml >= 1,
            s <= n,
            nickname_of(html@.subrange(s as int, n as int)) == nickname_of(html@),
        decreases n - s,
    {
        let ghost sfx = html@.subrange(s as int, n as int);
        let mut j: usize = 0;
        while j < ml && html[s + j] == marker[j]
            invariant
                n == html@.len(),
                ml == marker@.len(),
                s <= n && n - s >= ml,
                j <= ml,
                forall|t: int| 0 <= t < j ==> html@[s + t] == marker@[t],
            decreases ml - j,
        {
            j += 1;
        }
        if j == ml {
            proof {
                assert(sfx.subrange(0, ml as int) =~= marker@);
            }
            let rest = sub_vec(html, s + ml, n);
            proof {
                assert(rest@ =~= sfx.subrange(ml as int, sfx.len() as int));
            }
            match find_byte(&rest, 60) {
                None => {
                    return None;
                },
                Some(q) => {
                    if q > 0 {
                        return Some(trim_bytes(&sub_vec(&rest, 0, q)));
                    }
                    proof {
                        assert(sfx.drop_first() =~= html@.subrange(s + 1, n as int));
                    }
                },
            }
        } else {
            proof {
                assert(sfx.subrange(0, ml as int)[j as int] == html@[s + j]);
                assert(sfx.subrange(0, ml as int) != marker@);
                assert(sfx.drop_first() =~= html@.subrange(s + 1, n as int));
            }
        }
        s += 1;
    }
    None
}

/// The first jar entry whose name is `XSRF-TOKEN` up to ASCII case.
pub open spec fn xsrf_entry_index(jar: Seq<(Seq<u8>, Seq<u8>)>) -> Option<int>
    decreases jar.len(),
{
    if jar.len() == 0 {
        None
    } else if lower_seq(jar[0].0) == lower_seq(xsrf_cookie_name()) {
        Some(0)
    } else {
        match xsrf_entry_index(jar.drop_first()) {
            None => None,
            Some(i) => Some(i + 1),
        }
    }
}

proof fn lemma_xsrf_entry_index(jar: Seq<(Seq<u8>, Seq<u8>)>)
    ensures
        match xsrf_entry_index(jar) {
            Some(i) => 0 <= i < jar.len() && lower_seq(jar[i].0) == lower_seq(xsrf_cookie_name())
                && forall|k: int|
                0 <= k < i ==> lower_seq(jar[k].0) != lower_seq(xsrf_cookie_name()),
            None => forall|k: int|
                0 <= k < jar.len() ==> lower_seq(jar[k].0) != lower_seq(xsrf_cookie_name()),
        },
    decreases jar.len(),
{
    if jar.len() > 0 && lower_seq(jar[0].0) != lower_seq(xsrf_cookie_name()) {
        let jd = jar.drop_first();
        lemma_xsrf_entry_index(jd);
        assert(forall|k: int| 0 <= k < jd.len() ==> jd[k] == jar[k + 1]);
        match xsrf_entry_index(jd) {
            None => {
                assert forall|k: int|
                    0 <= k < jar.len() implies lower_seq(jar[k].0) != lower_seq(
                    xsrf_cookie_name(),
                ) by {
                    if k > 0 {
                        assert(jd[k - 1] == jar[k]);
                    }
                }
            },
            Some(i) => {
                assert(jd[i] == jar[i + 1]);
                assert forall|k: int|
                    0 <= k < i + 1 implies lower_seq(jar[k].0) != lower_seq(xsrf_cookie_name()) by {
                    if k > 0 {
                        assert(jd[k - 1] == jar[k]);
                    }
                }
            },
        }
    }
}

/// The decoded XSRF token the jar yields: the percent-decoding of the first
/// `XSRF-TOKEN` cookie (case-insensitive), absent when there is no such
/// cookie or the decoding fails.
pub open spec fn xsrf_of(jar: Seq<(Seq<u8>, Seq<u8>)>) -> Option<Seq<u8>> {
    match xsrf_entry_index(jar) {
        None => None,
        Some(i) => url_decoded(jar[i].1),
    }
}

/// Resolves the decoded XSRF token out of the jar. Its absence is tolerated:
/// the bind and authenticate steps are still attempted without the header.
pub fn resolve_xsrf_token(jar: &Vec<(Vec<u8>, Vec<u8>)>) -> (r: Option<Vec<u8>>)
    ensures
        match r {
            Some(v) => xsrf_of(jar_view(jar@)) == Some(v@),
            None => xsrf_of(jar_view(jar@)) is None,
        },
{
    let name = xsrf_cookie_name_vec();
    let n = jar.len();
    let ghost jv = jar_view(jar@);
    let mut i: usize = 0;
    while i < n
        invariant
            n == jar@.len(),
            jv == jar_view(jar@),
            name@ == xsrf_cookie_name(),
            i <= n,
            forall|k: int| 0 <= k < i ==> lower_seq(jv[k].0) != lower_seq(xsrf_cookie_name()),
        decreases n - i,
    {
        let hit = eq_ignore_ascii_case(&jar[i].0, &name);
        proof {
            assert(jv[i as int] == (jar@[i as int].0@, jar@[i as int].1@));
        }
        if hit {
            proof {
                lemma_xsrf_entry_index(jv);
                match xsrf_entry_index(jv) {
                    None => {
                        assert(false);
                    },
                    Some(m) => {
                        if m < i {
                            assert(false);
                        }
                        if m > i {
                            assert(lower_seq(jv[i as int].0) != lower_seq(xsrf_cookie_name()));
                            assert(false);
                        }
                    },
                }
            }
            return url_decode(&jar[i].1);
        }
        proof {
            assert(lower_seq(jv[i as int].0) != lower_seq(xsrf_cookie_name()));
        }
        i += 1;
    }
    proof {
        lemma_xsrf_entry_index(jv);
        match xsrf_entry_index(jv) {
            Some(m) => {
                assert(false);
            },
            None => {},
        }
    }
    None
}

// ---------------------------------------------------------------------------
// Step 1: establish the session
// ---------------------------------------------------------------------------

/// The bytes of an optional header value, empty when the header is absent.
pub open spec fn opt_bytes(o: Option<Vec<u8>>) -> Seq<u8> {
    match o {
        Some(v) => v@,
        None => Seq::empty(),
    }
}

/// Parses the login page: the cookies its `Set-Cookie` lines contribute and
/// the embedded CSRF form token. Fails with `ParseError` exactly when the
/// token marker is absent from the markup.
pub fn eduroam_login_begin(page_set_cookies: &Vec<Vec<u8>>, page_html: &Vec<u8>) -> (r: Result<
    (Vec<(Vec<u8>, Vec<u8>)>, Vec<u8>),
    AccountError,
>)
    ensures
        match r {
            Ok(p) => jar_view(p.0@) == apply_cookies(Seq::empty(), lines_view(page_set_cookies@))
                && csrf_token_of(page_html@) == Some(p.1@),
            Err(e) => e == AccountError::ParseError && csrf_token_of(page_html@) is None,
        },
{
    let mut jar: Vec<(Vec<u8>, Vec<u8>)> = Vec::new();
    proof {
        assert(jar_view(jar@) =~= Seq::<(Seq<u8>, Seq<u8>)>::empty());
    }
    apply_set_cookies(&mut jar, page_set_cookies);
    match extract_csrf_token(page_html) {
        None => Err(AccountError::ParseError),
        Some(token) => Ok((jar, token)),
    }
}

/// Whether the driver must fetch the user page to scrape a display name:
/// only after a redirect whose target does not already demand a binding.
pub fn needs_name_scrape(status: u16, location: &Option<Vec<u8>>) -> (r: bool)
    ensures
        r == (spec_is_redirection(status) && !contains_sub(opt_bytes(*location), bind_marker())),
{
    if !is_redirection(status) {
        return false;
    }
    let bm = bind_marker_vec();
    let empty: Vec<u8> = Vec::new();
    let to_bind = match location {
        Some(l) => contains_bytes(l, &bm),
        None => contains_bytes(&empty, &bm),
    };
    !to_bind
}

/// Classifies the provider's answer to the credential POST and assembles the
/// session.
///
/// A redirect whose target contains the bind marker demands a binding and
/// resolves no name; a redirect elsewhere takes the scraped display name,
/// and demands a binding whenever none could be scraped. A success answer
/// counts only when its body carried a redirect field, classified the same
/// way; anything else is `Invalid`. The decoded `XSRF-TOKEN` cookie rides
/// along when the jar holds one.
pub fn eduroam_login(
    student_id: Vec<u8>,
    cookie_jar: Vec<(Vec<u8>, Vec<u8>)>,
    status: u16,
    location: Option<Vec<u8>>,
    json_redirect: Option<Vec<u8>>,
    scraped_name: Option<Vec<u8>>,
) -> (r: Result<CAUCAuthState, AccountError>)
    ensures
        spec_is_redirection(status) ==> ({
            let bind = contains_sub(opt_bytes(location), bind_marker());
            let name = if bind {
                None
            } else {
                scraped_name.deep_view()
            };
            r matches Ok(st) && st.student_id@ == student_id@ && jar_view(st.cookie_jar@)
                == jar_view(cookie_jar@) && st.xsrf_token.deep_view() == xsrf_of(
                jar_view(cookie_jar@),
            ) && st.player_name.deep_view() == name && st.requires_bind == (bind || name is None)
        }),
        !spec_is_redirection(status) && spec_is_success(status) ==> match json_redirect {
            Some(rd) => r matches Ok(st) && st.student_id@ == student_id@ && jar_view(
                st.cookie_jar@,
            ) == jar_view(cookie_jar@) && st.xsrf_token.deep_view() == xsrf_of(
                jar_view(cookie_jar@),
            ) && st.player_name is None && st.requires_bind == contains_sub(rd@, bind_marker()),
            None => r == Err::<CAUCAuthState, AccountError>(AccountError::Invalid),
        },
        !spec_is_redirection(status) && !spec_is_success(status) ==> r == Err::<
            CAUCAuthState,
            AccountError,
        >(AccountError::Invalid),
{
    let xsrf = resolve_xsrf_token(&cookie_jar);
    proof {
        assert(xsrf.deep_view() == xsrf_of(jar_view(cookie_jar@)));
    }
    if is_redirection(status) {
        let loc = match location {
            Some(l) => l,
            None => Vec::new(),
        };
        let bm = bind_marker_vec();
        let bind = contains_bytes(&loc, &bm);
        let name = if bind {
            None
        } else {
            scraped_name
        };
        let requires_bind = bind || match &name {
            Some(_) => false,
            None => true,
        };
        Ok(
            CAUCAuthState {
                student_id,
                cookie_jar,
                requires_bind,
                xsrf_token: xsrf,
                player_name: name,
            },
        )
    } else if is_success(status) {
        match json_redirect {
            Some(rd) => {
                let bm = bind_marker_vec();
                let bind = contains_bytes(&rd, &bm);
                Ok(
                    CAUCAuthState {
                        student_id,
                        cookie_jar,
                        requires_bind: bind,
                        xsrf_token: xsrf,
                        player_name: None,
                    },
                )
            },
            None => Err(AccountError::Invalid),
        }
    } else {
        Err(AccountError::Invalid)
    }
}

// ---------------------------------------------------------------------------
// Step 2: bind the display name
// ---------------------------------------------------------------------------

/// Records the bound display name in the held session once the provider
/// acknowledged the bind POST: success is any success or redirect answer,
/// anything else is `Invalid` and the session stays as it was.
pub fn bind_player_name(state: &mut CAUCAuthState, player_name: Vec<u8>, status: u16) -> (r:
    Result<(), AccountError>)
    ensures
        spec_is_success(status) || spec_is_redirection(status) ==> r is Ok && final(state).student_id == old(state).student_id && final(state).cookie_jar == old(state).cookie_jar
            && final(state).requires_bind == old(state).requires_bind && final(state).xsrf_token
            == old(state).xsrf_token && final(state).player_name == Some(player_name),
        !(spec_is_success(status) || spec_is_redirection(status)) ==> r == Err::<(), AccountError>(
            AccountError::Invalid,
        ) && *final(state) == *old(state),
{
    if is_success(status) || is_redirection(status) {
        state.player_name = Some(player_name);
        Ok(())
    } else {
        Err(AccountError::Invalid)
    }
}

// ---------------------------------------------------------------------------
// Step 3: finalize
// ---------------------------------------------------------------------------

/// The ordered usernames the finalize step tries: the resolved display name
/// first when one is present and non-empty after trimming, then the external
/// id — unless it repeats the name up to ASCII case. At least one candidate
/// always remains: with no resolved name, exactly the external id.
pub fn candidate_usernames(state: &CAUCAuthState) -> (r: Vec<Vec<u8>>)
    ensures
        ({
            let t = match state.player_name {
                Some(n) => trim_spec(n@),
                None => Seq::<u8>::empty(),
            };
            let present = state.player_name is Some && t.len() > 0;
            &&& !present ==> r.deep_view() == seq![state.student_id@]
            &&& present && lower_seq(t) == lower_seq(state.student_id@) ==> r.deep_view() == seq![t]
            &&& present && lower_seq(t) != lower_seq(state.student_id@) ==> r.deep_view() == seq![
                t,
                state.student_id@,
            ]
        }),
{
    let mut out: Vec<Vec<u8>> = Vec::new();
    match &state.player_name {
        Some(n) => {
            let t = trim_bytes(n);
            if t.len() > 0 {
                let same = eq_ignore_ascii_case(&t, &state.student_id);
                out.push(t);
                if !same {
                    out.push(sub_vec(&state.student_id, 0, state.student_id.len()));
                    proof {
                        assert(state.student_id@.subrange(0, state.student_id@.len() as int)
                            =~= state.student_id@);
                        assert(out@.len() == 2);
                        assert(out.deep_view() =~~= seq![
                            trim_spec(n@),
                            state.student_id@,
                        ]);
                    }
                } else {
                    proof {
                        assert(out.deep_view() =~~= seq![trim_spec(n@)]);
                    }
                }
                return out;
            }
            out.push(sub_vec(&state.student_id, 0, state.student_id.len()));
            proof {
                assert(state.student_id@.subrange(0, state.student_id@.len() as int)
                    =~= state.student_id@);
                assert(out.deep_view() =~~= seq![state.student_id@]);
            }
            out
        },
        None => {
            out.push(sub_vec(&state.student_id, 0, state.student_id.len()));
            proof {
                assert(state.student_id@.subrange(0, state.student_id@.len() as int)
                    =~= state.student_id@);
                assert(out.deep_view() =~~= seq![state.student_id@]);
            }
            out
        },
    }
}

/// Classifies one authenticate attempt's answer: a parsed body on success, a
/// `ParseError` when a success body does not parse, `Invalid` on a client
/// error (a credential rejection, which moves the caller to the next
/// candidate), and `NetworkError` otherwise.
pub fn classify_auth_response(status: u16, parsed: Option<CAUCAuthResponse>) -> (r: Result<
    CAUCAuthResponse,
    AccountError,
>)
    ensures
        spec_is_success(status) ==> match parsed {
            Some(c) => r == Ok::<CAUCAuthResponse, AccountError>(c),
            None => r == Err::<CAUCAuthResponse, AccountError>(AccountError::ParseError),
        },
        !spec_is_success(status) && spec_is_client_error(status) ==> r == Err::<
            CAUCAuthResponse,
            AccountError,
        >(AccountError::Invalid),
        !spec_is_success(status) && !spec_is_client_error(status) ==> r == Err::<
            CAUCAuthResponse,
            AccountError,
        >(AccountError::NetworkError),
{
    if is_success(status) {
        match parsed {
            Some(c) => Ok(c),
            None => Err(AccountError::ParseError),
        }
    } else if is_client_error(status) {
        Err(AccountError::Invalid)
    } else {
        Err(AccountError::NetworkError)
    }
}

/// What a run of attempts, in candidate order, amounts to: the first
/// success; before it a credential rejection (`Invalid`) moves on, any other
/// failure aborts at once, and an exhausted list is a credential rejection.
pub open spec fn auth_fold(s: Seq<Result<CAUCAuthResponse, AccountError>>) -> Result<
    CAUCAuthResponse,
    AccountError,
>
    decreases s.len(),
{
    if s.len() == 0 {
        Err(AccountError::Invalid)
    } else {
        match s[0] {
            Ok(c) => Ok(c),
            Err(e) => if e == AccountError::Invalid {
                auth_fold(s.drop_first())
            } else {
                Err(e)
            },
        }
    }
}

/// Folds the attempts of one finalize run, in candidate order, into its
/// outcome, exactly as the username-fallback policy prescribes.
pub fn authenticate(attempts: Vec<Result<CAUCAuthResponse, AccountError>>) -> (r: Result<
    CAUCAuthResponse,
    AccountError,
>)
    ensures
        r == auth_fold(attempts@),
{
    let mut rest = attempts;
    while rest.len() > 0
        invariant
            auth_fold(rest@) == auth_fold(attempts@),
        decreases rest.len(),
    {
        let ghost before = rest@;
        let a = rest.remove(0);
        proof {
            assert(rest@ =~= before.drop_first());
            assert(a == before[0]);
        }
        match a {
            Ok(c) => {
                return Ok(c);
            },
            Err(e) => {
                match e {
                    AccountError::Invalid => {},
                    _ => {
                        return Err(e);
                    },
                }
            },
        }
    }
    Err(AccountError::Invalid)
}

/// Whether the finalize driver moves on to the next candidate username: only
/// a credential rejection does; a success or any other failure ends the run.
pub fn auth_attempt_continues(attempt: &Result<CAUCAuthResponse, AccountError>) -> (r: bool)
    ensures
        r == (*attempt matches Err(AccountError::Invalid)),
{
    match attempt {
        Err(AccountError::Invalid) => true,
        _ => false,
    }
}

/// The stable id a third-party identity gets: origin server, profile name
/// and profile uuid, so records of one name on different servers stay apart.
pub open spec fn third_party_player_id(server: Seq<char>, name: Seq<char>, uuid: Seq<char>) -> Seq<
    char,
> {
    server + ":"@ + name + ":"@ + uuid
}

/// Builds the roster record for one resolved profile of this flow's
/// identity server.
pub fn player_from_profile(
    profile: &YggdrasilProfile,
    access_token: &String,
    server_url: &String,
    account: &String,
) -> (r: PlayerInfo)
    ensures
        r.id@ == third_party_player_id(server_url@, profile.name@, profile.id@),
        r.name@ == profile.name@,
        r.uuid@ == profile.id@,
        r.player_type == PlayerType::ThirdParty,
        (r.access_token matches Some(t) && t@ == access_token@),
        r.refresh_token is None,
        (r.auth_server_url matches Some(u) && u@ == server_url@),
        (r.auth_account matches Some(a) && a@ == account@),
        r.textures@ == Seq::<char>::empty(),
{
    PlayerInfo {
        id: server_url.clone().concat(":").concat(profile.name.as_str()).concat(":").concat(
            profile.id.as_str(),
        ),
        name: profile.name.clone(),
        uuid: profile.id.clone(),
        player_type: PlayerType::ThirdParty,
        access_token: Some(access_token.clone()),
        refresh_token: None,
        auth_server_url: Some(server_url.clone()),
        auth_account: Some(account.clone()),
        textures: String::new(),
    }
}

/// Decides which profiles the caller must resolve after authentication: the
/// server-designated one alone when the server chose (`already selected`),
/// else the whole offered list; an empty or missing list is `NotFound`.
pub fn plan_profile_resolution(resp: CAUCAuthResponse) -> (r: Result<
    (Vec<YggdrasilProfile>, bool),
    AccountError,
>)
    ensures
        match resp.selected_profile {
            Some(p) => r matches Ok(pr) && pr.1 == true && pr.0@ == seq![p],
            None => match resp.available_profiles {
                None => r == Err::<(Vec<YggdrasilProfile>, bool), AccountError>(
                    AccountError::NotFound,
                ),
                Some(a) => if a@.len() == 0 {
                    r == Err::<(Vec<YggdrasilProfile>, bool), AccountError>(AccountError::NotFound)
                } else {
                    r matches Ok(pr) && pr.1 == false && pr.0 == a
                },
            },
        },
{
    match resp.selected_profile {
        Some(p) => {
            let mut v: Vec<YggdrasilProfile> = Vec::new();
            v.push(p);
            proof {
                assert(v@ =~= seq![v@[0]]);
            }
            Ok((v, true))
        },
        None => {
            match resp.available_profiles {
                None => Err(AccountError::NotFound),
                Some(a) => {
                    if a.len() == 0 {
                        Err(AccountError::NotFound)
                    } else {
                        Ok((a, false))
                    }
                },
            }
        },
    }
}

/// What resolving each profile, in order, amounts to: every record when all
/// resolve, else the first failure — a failure partway aborts the whole
/// operation, so no partial insert can follow.
pub open spec fn all_or_first_err(s: Seq<Result<PlayerInfo, AccountError>>) -> Result<
    Seq<PlayerInfo>,
    AccountError,
>
    decreases s.len(),
{
    if s.len() == 0 {
        Ok(Seq::empty())
    } else {
        match s[0] {
            Err(e) => Err(e),
            Ok(p) => match all_or_first_err(s.drop_first()) {
                Err(e) => Err(e),
                Ok(rest) => Ok(seq![p] + rest),
            },
        }
    }
}

/// Collects the per-profile resolution results: all records in order, or the
/// first failure, which aborts the whole login.
pub fn collect_profiles(results: Vec<Result<PlayerInfo, AccountError>>) -> (r: Result<
    Vec<PlayerInfo>,
    AccountError,
>)
    ensures
        match all_or_first_err(results@) {
            Ok(sv) => r matches Ok(v) && v@ == sv,
            Err(e) => r == Err::<Vec<PlayerInfo>, AccountError>(e),
        },
{
    let mut rest = results;
    let mut out: Vec<PlayerInfo> = Vec::new();
    while rest.len() > 0
        invariant
            match all_or_first_err(rest@) {
                Ok(sv) => all_or_first_err(results@) matches Ok(whole) && out@ + sv == whole,
                Err(e) => all_or_first_err(results@) == Err::<Seq<PlayerInfo>, AccountError>(e),
            },
        decreases rest.len(),
    {
        let ghost before = rest@;
        let a = rest.remove(0);
        proof {
            assert(rest@ =~= before.drop_first());
            assert(a == before[0]);
        }
        match a {
            Err(e) => {
                return Err(e);
            },
            Ok(p) => {
                out.push(p);
                proof {
                    match all_or_first_err(rest@) {
                        Ok(sv) => {
                            assert(out@ + sv =~= (out@.drop_last() + (seq![p] + sv)));
                        },
                        Err(e) => {},
                    }
                }
            },
        }
    }
    proof {
        assert(out@ + Seq::<PlayerInfo>::empty() =~= out@);
    }
    Ok(out)
}

// ---------------------------------------------------------------------------
// The session store and the caller-facing steps
// ---------------------------------------------------------------------------

impl CaucSessionStore {
    /// An empty store: no login in progress.
    pub fn new() -> (r: CaucSessionStore)
        ensures
            r.current is None,
    {
        CaucSessionStore { current: None }
    }
}

/// Stores the session step 1 established, replacing any stale one, and
/// reports whether a display name must still be bound.
pub fn cauc_eduroam_login(store: &mut CaucSessionStore, auth_state: CAUCAuthState) -> (r: bool)
    ensures
        final(store).current == Some(auth_state),
        r == auth_state.requires_bind,
{
    let r = auth_state.requires_bind;
    store.current = Some(auth_state);
    r
}

/// Records the bound display name in the held session; `NotFound` when no
/// session was established first (a missing session is a distinct, explicit
/// error, never a silent no-op), `Invalid` when the provider refused the
/// bind.
pub fn cauc_bind_player_name(store: &mut CaucSessionStore, player_name: Vec<u8>, status: u16) -> (r:
    Result<(), AccountError>)
    ensures
        old(store).current is None ==> r == Err::<(), AccountError>(AccountError::NotFound)
            && *final(store) == *old(store),
        old(store).current matches Some(st) ==> ({
            &&& spec_is_success(status) || spec_is_redirection(status) ==> r is Ok && (final(store).current matches Some(ns) && ns.student_id == st.student_id && ns.cookie_jar
                == st.cookie_jar && ns.requires_bind == st.requires_bind && ns.xsrf_token
                == st.xsrf_token && ns.player_name == Some(player_name))
            &&& !(spec_is_success(status) || spec_is_redirection(status)) ==> r == Err::<
                (),
                AccountError,
            >(AccountError::Invalid) && *final(store) == *old(store)
        }),
{
    match &mut store.current {
        None => Err(AccountError::NotFound),
        Some(st) => bind_player_name(st, player_name, status),
    }
}

/// An error of the finalize step that invalidates the session: everything
/// but the `NotFound` and `Duplicate` outcomes, which a caller may still
/// retry against the same session.
pub open spec fn terminal_auth_error(e: AccountError) -> bool {
    e != AccountError::NotFound && e != AccountError::Duplicate
}

/// Concludes the flow: applies the roster policy to the resolved identities
/// and manages the held session.
///
/// With no session held the call is `NotFound`: the session it would
/// consume is absent. A failed authentication is
/// passed through, clearing the session exactly on terminal errors. An empty
/// identity list is `NotFound`; all-duplicates is `Duplicate`; both keep the
/// session. One surviving identity — or a server-designated selection — is
/// inserted and selected and the session is consumed; several survivors go
/// back to the caller for disambiguation, the session kept for re-entry.
pub fn cauc_complete_login(
    account: &mut AccountInfo,
    store: &mut CaucSessionStore,
    auth_outcome: Result<(Vec<PlayerInfo>, bool), AccountError>,
) -> (r: Result<Vec<Player>, AccountError>)
    requires
        old(account).wf(),
    ensures
        final(account).wf(),
        final(account).auth_servers == old(account).auth_servers,
        final(account).is_oauth_processing == old(account).is_oauth_processing,
        old(store).current is None ==> r == Err::<Vec<Player>, AccountError>(
            AccountError::NotFound,
        ) && *final(account) == *old(account) && *final(store) == *old(store),
        old(store).current is Some ==> match auth_outcome {
            Err(e) => r == Err::<Vec<Player>, AccountError>(e) && *final(account) == *old(account)
                && (terminal_auth_error(e) ==> final(store).current is None) && (
            !terminal_auth_error(e) ==> *final(store) == *old(store)),
            Ok(pr) => ({
                let surv = survivors(old(account).players@, pr.0@);
                &&& pr.0@.len() == 0 ==> r == Err::<Vec<Player>, AccountError>(
                    AccountError::NotFound,
                ) && *final(account) == *old(account) && *final(store) == *old(store)
                &&& pr.0@.len() > 0 && surv.len() == 0 ==> r == Err::<Vec<Player>, AccountError>(
                    AccountError::Duplicate,
                ) && *final(account) == *old(account) && *final(store) == *old(store)
                &&& surv.len() >= 1 && (surv.len() == 1 || pr.1) ==> (r matches Ok(v) && v@.len()
                    == 0) && final(account).players@ == old(account).players@.push(surv[0])
                    && final(account).selected_player_id@ == surv[0].id@ && final(store).current is None
                &&& surv.len() > 1 && !pr.1 ==> *final(account) == *old(account) && *final(store)
                    == *old(store) && (r matches Ok(v) && v@ == strip_all(surv))
            }),
        },
{
    match &store.current {
        None => {
            return Err(AccountError::NotFound);
        },
        Some(_) => {},
    }
    let (players, has_selected) = match auth_outcome {
        Err(e) => {
            match e {
                AccountError::NotFound => {},
                AccountError::Duplicate => {},
                _ => {
                    store.current = None;
                },
            }
            return Err(e);
        },
        Ok(pr) => pr,
    };
    if players.len() == 0 {
        return Err(AccountError::NotFound);
    }
    let ghost old_players = account.players@;
    let ghost cand = players@;
    let mut surv = dedup_candidates(&account.players, players);
    if surv.len() == 0 {
        return Err(AccountError::Duplicate);
    }
    if surv.len() == 1 || has_selected {
        let p = surv.remove(0);
        proof {
            lemma_survivors_fresh(old_players, cand);
            assert(p == survivors(old_players, cand)[0]);
            assert(!has_player_id(old_players, p.id@));
        }
        account.selected_player_id = p.id.clone();
        account.players.push(p);
        proof {
            let np = account.players@;
            assert(ids_unique(np)) by {
                assert(forall|i: int| 0 <= i < old_players.len() ==> np[i] == old_players[i]);
            }
            assert(np[np.len() - 1].id@ == account.selected_player_id@);
        }
        store.current = None;
        return Ok(Vec::new());
    }
    let out = strip_players(&surv);
    Ok(out)
}

/// Decides the next move once step 1 established a session: ask the user
/// for a name, bind the supplied name first, or authenticate right away.
pub fn login_flow(auth_state: &CAUCAuthState, player_name: Option<Vec<u8>>) -> (r: LoginFlowStep)
    ensures
        auth_state.requires_bind && player_name is None ==> r is RequiresBind,
        auth_state.requires_bind ==> (player_name matches Some(n) ==> (r matches
            LoginFlowStep::BindThenAuthenticate(m) && m == n)),
        !auth_state.requires_bind ==> r is Authenticate,
{
    if auth_state.requires_bind {
        match player_name {
            None => LoginFlowStep::RequiresBind,
            Some(n) => LoginFlowStep::BindThenAuthenticate(n),
        }
    } else {
        LoginFlowStep::Authenticate
    }
}

} // verus!
