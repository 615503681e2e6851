use lxmcl_auth::cauc::{
    apply_set_cookies, auth_attempt_continues, authenticate, bind_player_name,
    candidate_usernames, cauc_bind_player_name, cauc_complete_login, cauc_eduroam_login,
    classify_auth_response, collect_profiles, cookie_header, eduroam_login, eduroam_login_begin,
    extract_csrf_token, extract_nickname, is_client_error, is_redirection, is_success, login_flow,
    merge_cookie, needs_name_scrape, parse_set_cookie, plan_profile_resolution,
    player_from_profile, resolve_xsrf_token, CAUCAuthResponse, CAUCAuthState, CaucSessionStore,
    LoginFlowResult, LoginFlowStep, YggdrasilProfile,
};
use lxmcl_auth::error::AccountError;
use lxmcl_auth::models::{PlayerInfo, PlayerType};

fn session(student_id: &str, name: Option<&str>) -> CAUCAuthState {
    CAUCAuthState {
        student_id: student_id.as_bytes().to_vec(),
        cookie_jar: vec![],
        requires_bind: false,
        xsrf_token: None,
        player_name: name.map(|n| n.as_bytes().to_vec()),
    }
}

fn profile_player(id: &str, name: &str) -> PlayerInfo {
    PlayerInfo {
        id: id.to_string(),
        name: name.to_string(),
        uuid: format!("uuid-{}", id),
        player_type: PlayerType::ThirdParty,
        access_token: Some("token".to_string()),
        refresh_token: None,
        auth_server_url: Some("https://skin.example/api/yggdrasil".to_string()),
        auth_account: None,
        textures: String::new(),
    }
}

#[test]
fn status_classes() {
    assert!(is_redirection(302) && !is_redirection(200) && !is_redirection(400));
    assert!(is_success(200) && is_success(299) && !is_success(302));
    assert!(is_client_error(403) && !is_client_error(500) && !is_client_error(302));
}

#[test]
fn csrf_token_is_extracted_between_marker_and_quote() {
    let html = b"<form><input name=\"_token\" value=\"abc123\"></form>".to_vec();
    assert_eq!(extract_csrf_token(&html), Some(b"abc123".to_vec()));
    let none = b"<form>no token here</form>".to_vec();
    assert_eq!(extract_csrf_token(&none), None);
}

#[test]
fn login_begin_collects_cookies_and_fails_without_marker() {
    let lines = vec![
        b"laravel_session=s1; Path=/; HttpOnly".to_vec(),
        b"XSRF-TOKEN=tok1; Path=/".to_vec(),
    ];
    let html = b"<input name=\"_token\" value=\"t0k\">".to_vec();
    let (jar, csrf) = eduroam_login_begin(&lines, &html).unwrap();
    assert_eq!(csrf, b"t0k".to_vec());
    assert_eq!(jar.len(), 2);
    assert_eq!(jar[0], (b"laravel_session".to_vec(), b"s1".to_vec()));
    assert_eq!(jar[1], (b"XSRF-TOKEN".to_vec(), b"tok1".to_vec()));
    let bad = b"<html>nothing</html>".to_vec();
    assert_eq!(eduroam_login_begin(&lines, &bad), Err(AccountError::ParseError));
}

#[test]
fn set_cookie_lines_parse_and_merge_last_write_wins() {
    assert_eq!(
        parse_set_cookie(&b" name = value ; Path=/".to_vec()),
        Some((b"name".to_vec(), b"value".to_vec()))
    );
    // A line without a `;` after the value is ignored, as is one without `=`.
    assert_eq!(parse_set_cookie(&b"name=value".to_vec()), None);
    assert_eq!(parse_set_cookie(&b"no separators".to_vec()), None);

    let mut jar: Vec<(Vec<u8>, Vec<u8>)> = vec![];
    merge_cookie(&mut jar, b"a".to_vec(), b"1".to_vec());
    merge_cookie(&mut jar, b"b".to_vec(), b"2".to_vec());
    merge_cookie(&mut jar, b"a".to_vec(), b"3".to_vec());
    assert_eq!(jar, vec![(b"a".to_vec(), b"3".to_vec()), (b"b".to_vec(), b"2".to_vec())]);

    let mut jar2: Vec<(Vec<u8>, Vec<u8>)> = vec![];
    let lines = vec![
        b"sid=first; Path=/".to_vec(),
        b"garbage".to_vec(),
        b"sid=second; HttpOnly".to_vec(),
    ];
    apply_set_cookies(&mut jar2, &lines);
    assert_eq!(jar2, vec![(b"sid".to_vec(), b"second".to_vec())]);
}

#[test]
fn cookie_header_joins_pairs() {
    let jar = vec![(b"a".to_vec(), b"1".to_vec()), (b"b".to_vec(), b"2".to_vec())];
    assert_eq!(cookie_header(&jar), b"a=1; b=2".to_vec());
    assert_eq!(cookie_header(&vec![]), b"".to_vec());
}

#[test]
fn nickname_is_scraped_and_trimmed() {
    let html = b"<span data-mark=\"nickname\"> Alex </span>".to_vec();
    assert_eq!(extract_nickname(&html), Some(b"Alex".to_vec()));
    assert_eq!(extract_nickname(&b"<span>Alex</span>".to_vec()), None);
    // The marker immediately followed by `<` captures nothing.
    assert_eq!(extract_nickname(&b"data-mark=\"nickname\"><".to_vec()), None);
    // A marker with no closing `<` afterwards captures nothing either.
    assert_eq!(extract_nickname(&b"data-mark=\"nickname\">Alex".to_vec()), None);
}

#[test]
fn nickname_scan_moves_past_empty_markers() {
    // A first marker directly followed by `<` is skipped; a later one that
    // encloses a name still yields it.
    let html = b"<i data-mark=\"nickname\"><ul><li data-mark=\"nickname\">Alex</li>".to_vec();
    assert_eq!(extract_nickname(&html), Some(b"Alex".to_vec()));
}

#[test]
fn xsrf_token_is_found_case_insensitively_and_decoded() {
    // The decoding runs through the real percent-decoder: an encoded value
    // must come back changed.
    let jar = vec![
        (b"session".to_vec(), b"s".to_vec()),
        (b"xsrf-token".to_vec(), b"abc%20def%3D".to_vec()),
    ];
    assert_eq!(resolve_xsrf_token(&jar), Some(b"abc def=".to_vec()));
    let no = vec![(b"session".to_vec(), b"s".to_vec())];
    assert_eq!(resolve_xsrf_token(&no), None);
}

#[test]
fn redirect_to_bind_path_requires_bind_with_no_name() {
    // A redirect whose target holds the bind marker always demands a bind
    // and resolves no name, whatever was scraped.
    let st = eduroam_login(
        b"2023001".to_vec(),
        vec![],
        302,
        Some(b"https://skin.example/user/player/bind".to_vec()),
        None,
        Some(b"IgnoredName".to_vec()),
    )
    .unwrap();
    assert!(st.requires_bind);
    assert_eq!(st.player_name, None);
    assert_eq!(st.student_id, b"2023001".to_vec());
}

#[test]
fn redirect_elsewhere_without_scrapeable_name_requires_bind() {
    let st = eduroam_login(
        b"2023001".to_vec(),
        vec![],
        302,
        Some(b"https://skin.example/user".to_vec()),
        None,
        None,
    )
    .unwrap();
    assert!(st.requires_bind);
    assert_eq!(st.player_name, None);
}

#[test]
fn redirect_with_scraped_name_needs_no_bind() {
    let st = eduroam_login(
        b"2023001".to_vec(),
        vec![(b"XSRF-TOKEN".to_vec(), b"tok".to_vec())],
        302,
        Some(b"https://skin.example/user".to_vec()),
        None,
        Some(b"Alex".to_vec()),
    )
    .unwrap();
    assert!(!st.requires_bind);
    assert_eq!(st.player_name, Some(b"Alex".to_vec()));
    assert_eq!(st.xsrf_token, Some(b"tok".to_vec()));
}

#[test]
fn success_body_redirect_field_classifies_like_a_redirect() {
    let st = eduroam_login(
        b"2023001".to_vec(),
        vec![],
        200,
        None,
        Some(b"/user/player/bind".to_vec()),
        None,
    )
    .unwrap();
    assert!(st.requires_bind);
    assert_eq!(
        eduroam_login(b"2023001".to_vec(), vec![], 200, None, None, None),
        Err(AccountError::Invalid)
    );
    assert_eq!(
        eduroam_login(b"2023001".to_vec(), vec![], 500, None, None, None),
        Err(AccountError::Invalid)
    );
}

#[test]
fn name_scrape_is_needed_only_after_non_bind_redirects() {
    assert!(needs_name_scrape(302, &Some(b"/user".to_vec())));
    assert!(needs_name_scrape(302, &None));
    assert!(!needs_name_scrape(302, &Some(b"/user/player/bind".to_vec())));
    assert!(!needs_name_scrape(200, &Some(b"/user".to_vec())));
}

#[test]
fn bind_updates_name_only_on_acknowledged_posts() {
    let mut st = session("2023001", None);
    st.requires_bind = true;
    assert!(bind_player_name(&mut st, b"Alex".to_vec(), 200).is_ok());
    assert_eq!(st.player_name, Some(b"Alex".to_vec()));
    let mut st2 = session("2023001", None);
    assert_eq!(
        bind_player_name(&mut st2, b"Alex".to_vec(), 422),
        Err(AccountError::Invalid)
    );
    assert_eq!(st2.player_name, None);
}

#[test]
fn username_fallback_uses_external_id_alone_when_no_name_resolved() {
    // With no resolved display name the finalize step tries exactly the
    // external id.
    let st = session("2023001", None);
    assert_eq!(candidate_usernames(&st), vec![b"2023001".to_vec()]);
    // A blank resolved name counts as absent.
    let st = session("2023001", Some("   "));
    assert_eq!(candidate_usernames(&st), vec![b"2023001".to_vec()]);
}

#[test]
fn username_fallback_orders_name_first() {
    let st = session("2023001", Some(" Alex "));
    assert_eq!(
        candidate_usernames(&st),
        vec![b"Alex".to_vec(), b"2023001".to_vec()]
    );
    // A name repeating the external id up to case is not tried twice.
    let st = session("abc2023", Some("ABC2023"));
    assert_eq!(candidate_usernames(&st), vec![b"ABC2023".to_vec()]);
}

#[test]
fn auth_response_classification() {
    let ok = CAUCAuthResponse {
        access_token: "tk".to_string(),
        selected_profile: None,
        available_profiles: None,
    };
    assert!(classify_auth_response(200, Some(ok)).is_ok());
    assert_eq!(classify_auth_response(200, None), Err(AccountError::ParseError));
    assert_eq!(classify_auth_response(403, None), Err(AccountError::Invalid));
    assert_eq!(classify_auth_response(500, None), Err(AccountError::NetworkError));
    assert_eq!(classify_auth_response(302, None), Err(AccountError::NetworkError));
}

#[test]
fn authenticate_folds_attempts_in_order() {
    let resp = CAUCAuthResponse {
        access_token: "tk".to_string(),
        selected_profile: None,
        available_profiles: None,
    };
    // A credential rejection moves to the next candidate.
    let r = authenticate(vec![Err(AccountError::Invalid), Ok(resp.clone())]).unwrap();
    assert_eq!(r.access_token, "tk");
    // Any other failure aborts at once.
    assert_eq!(
        authenticate(vec![Err(AccountError::NetworkError), Ok(resp.clone())]),
        Err(AccountError::NetworkError)
    );
    // Exhausting every candidate surfaces the credential rejection.
    assert_eq!(
        authenticate(vec![Err(AccountError::Invalid), Err(AccountError::Invalid)]),
        Err(AccountError::Invalid)
    );
    assert_eq!(authenticate(vec![]), Err(AccountError::Invalid));
}

#[test]
fn profile_resolution_plan() {
    let p = YggdrasilProfile {
        id: "p1".to_string(),
        name: "Alex".to_string(),
    };
    let chosen = CAUCAuthResponse {
        access_token: "tk".to_string(),
        selected_profile: Some(p.clone()),
        available_profiles: Some(vec![]),
    };
    let (profiles, already) = plan_profile_resolution(chosen).unwrap();
    assert!(already);
    assert_eq!(profiles.len(), 1);
    assert_eq!(profiles[0].id, "p1");

    let offered = CAUCAuthResponse {
        access_token: "tk".to_string(),
        selected_profile: None,
        available_profiles: Some(vec![
            p.clone(),
            YggdrasilProfile {
                id: "p2".to_string(),
                name: "Steve".to_string(),
            },
        ]),
    };
    let (profiles, already) = plan_profile_resolution(offered).unwrap();
    assert!(!already);
    assert_eq!(profiles.len(), 2);

    let none = CAUCAuthResponse {
        access_token: "tk".to_string(),
        selected_profile: None,
        available_profiles: None,
    };
    assert_eq!(plan_profile_resolution(none), Err(AccountError::NotFound));
}

#[test]
fn profile_collection_aborts_whole_on_first_failure() {
    let all = collect_profiles(vec![
        Ok(profile_player("p1", "Alex")),
        Ok(profile_player("p2", "Steve")),
    ])
    .unwrap();
    assert_eq!(all.len(), 2);
    assert_eq!(all[0].id, "p1");
    assert_eq!(
        collect_profiles(vec![
            Ok(profile_player("p1", "Alex")),
            Err(AccountError::NetworkError),
            Ok(profile_player("p2", "Steve")),
        ]),
        Err(AccountError::NetworkError)
    );
}

#[test]
fn complete_login_without_session_is_not_found() {
    // A finalize call with no prior session is a distinct, explicit error.
    let mut account = lxmcl_auth::models::AccountInfo::new();
    let mut store = CaucSessionStore::new();
    let r = cauc_complete_login(
        &mut account,
        &mut store,
        Ok((vec![profile_player("p1", "Alex")], true)),
    );
    assert_eq!(r, Err(AccountError::NotFound));
    assert_eq!(account.players.len(), 0);
}

#[test]
fn complete_login_session_lifetime() {
    let mut account = lxmcl_auth::models::AccountInfo::new();
    let mut store = CaucSessionStore::new();
    cauc_eduroam_login(&mut store, session("2023001", Some("Alex")));
    // A credential failure is terminal: the session is consumed.
    let r = cauc_complete_login(&mut account, &mut store, Err(AccountError::Invalid));
    assert_eq!(r, Err(AccountError::Invalid));
    assert!(store.current.is_none());
    // A duplicate outcome keeps the session for a retry.
    cauc_eduroam_login(&mut store, session("2023001", Some("Alex")));
    account.players.push(profile_player("p1", "Alex"));
    let r = cauc_complete_login(
        &mut account,
        &mut store,
        Ok((vec![profile_player("p1", "Alex")], false)),
    );
    assert_eq!(r, Err(AccountError::Duplicate));
    assert!(store.current.is_some());
    // Several fresh identities go back for disambiguation, session kept.
    let r = cauc_complete_login(
        &mut account,
        &mut store,
        Ok((vec![profile_player("p2", "B"), profile_player("p3", "C")], false)),
    )
    .unwrap();
    assert_eq!(r.len(), 2);
    assert!(store.current.is_some());
    assert_eq!(account.players.len(), 1);
}

#[test]
fn cookie_flow_bind_scenario() {
    // Step 1 redirects to the bind path; step 2 binds "Alex"; step 3
    // authenticates with "Alex" first and succeeds with one player, which
    // is inserted and selected.
    let st = eduroam_login(
        b"2023001".to_vec(),
        vec![(b"XSRF-TOKEN".to_vec(), b"tok".to_vec())],
        302,
        Some(b"https://skin.example/user/player/bind".to_vec()),
        None,
        None,
    )
    .unwrap();
    assert!(st.requires_bind);

    let mut store = CaucSessionStore::new();
    let requires_bind = cauc_eduroam_login(&mut store, st);
    assert!(requires_bind);

    cauc_bind_player_name(&mut store, b"Alex".to_vec(), 200).unwrap();
    let held = store.current.as_ref().unwrap();
    assert_eq!(held.player_name, Some(b"Alex".to_vec()));

    let candidates = candidate_usernames(held);
    assert_eq!(candidates, vec![b"Alex".to_vec(), b"2023001".to_vec()]);

    // The first candidate succeeds against the identity server.
    let resp = CAUCAuthResponse {
        access_token: "tk".to_string(),
        selected_profile: Some(YggdrasilProfile {
            id: "p1".to_string(),
            name: "Alex".to_string(),
        }),
        available_profiles: None,
    };
    let outcome = authenticate(vec![Ok(resp)]).unwrap();
    let (profiles, already) = plan_profile_resolution(outcome).unwrap();
    assert!(already);
    let resolved = collect_profiles(vec![Ok(profile_player(&profiles[0].id, "Alex"))]).unwrap();

    let mut account = lxmcl_auth::models::AccountInfo::new();
    let r = cauc_complete_login(&mut account, &mut store, Ok((resolved, already))).unwrap();
    assert_eq!(r.len(), 0);
    assert_eq!(account.players.len(), 1);
    assert_eq!(account.players[0].id, "p1");
    assert_eq!(account.selected_player_id, "p1");
    assert!(store.current.is_none());
}

#[test]
fn bind_without_session_is_not_found() {
    let mut store = CaucSessionStore::new();
    assert_eq!(
        cauc_bind_player_name(&mut store, b"Alex".to_vec(), 200),
        Err(AccountError::NotFound)
    );
}

#[test]
fn csrf_token_runs_to_end_without_closing_quote() {
    let html = b"name=\"_token\" value=\"unterminated".to_vec();
    assert_eq!(extract_csrf_token(&html), Some(b"unterminated".to_vec()));
}

#[test]
fn attempt_continuation_decision() {
    assert!(auth_attempt_continues(&Err(AccountError::Invalid)));
    assert!(!auth_attempt_continues(&Err(AccountError::NetworkError)));
    let ok = CAUCAuthResponse {
        access_token: "tk".to_string(),
        selected_profile: None,
        available_profiles: None,
    };
    assert!(!auth_attempt_continues(&Ok(ok)));
}

#[test]
fn profile_record_is_assembled_with_origin_and_account() {
    let p = YggdrasilProfile {
        id: "uu-7".to_string(),
        name: "Alex".to_string(),
    };
    let rec = player_from_profile(
        &p,
        &"tk".to_string(),
        &"https://skin.example/api/yggdrasil".to_string(),
        &"2023001".to_string(),
    );
    assert_eq!(rec.id, "https://skin.example/api/yggdrasil:Alex:uu-7");
    assert_eq!(rec.name, "Alex");
    assert_eq!(rec.uuid, "uu-7");
    assert_eq!(rec.player_type, PlayerType::ThirdParty);
    assert_eq!(rec.access_token.as_deref(), Some("tk"));
    assert_eq!(rec.auth_server_url.as_deref(), Some("https://skin.example/api/yggdrasil"));
    assert_eq!(rec.auth_account.as_deref(), Some("2023001"));
}

#[test]
fn login_flow_result_carries_players_or_pending_session() {
    let done = LoginFlowResult::Success {
        players: vec![profile_player("p1", "Alex")],
        has_selected: true,
    };
    match done {
        LoginFlowResult::Success { players, has_selected } => {
            assert!(has_selected);
            assert_eq!(players.len(), 1);
        }
        LoginFlowResult::RequiresBind { .. } => panic!("expected a finished run"),
    }
    let pending = LoginFlowResult::RequiresBind {
        auth_state: session("2023001", None),
    };
    match pending {
        LoginFlowResult::RequiresBind { auth_state } => {
            assert_eq!(auth_state.student_id, b"2023001".to_vec());
        }
        LoginFlowResult::Success { .. } => panic!("expected a pending bind"),
    }
}

#[test]
fn login_flow_decision() {
    let mut st = session("2023001", None);
    st.requires_bind = true;
    assert!(matches!(login_flow(&st, None), LoginFlowStep::RequiresBind));
    match login_flow(&st, Some(b"Alex".to_vec())) {
        LoginFlowStep::BindThenAuthenticate(n) => assert_eq!(n, b"Alex".to_vec()),
        _ => panic!("expected the bind-first step"),
    }
    st.requires_bind = false;
    assert!(matches!(login_flow(&st, None), LoginFlowStep::Authenticate));
}
