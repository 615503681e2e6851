use lxmcl_auth::account::fetch_auth_server;
use lxmcl_auth::error::{AccountError, LXMCLError};
use lxmcl_auth::openlist::{
    openlist_browse, openlist_download_modpack, resolve_download_url, should_skip_download,
    BrowseRequest, FsObject,
};

#[test]
fn auth_server_url_is_accepted_or_prefixed() {
    // The url crate really decides: a bare host gains the https prefix, a
    // full url passes through, garbage is rejected.
    let r = fetch_auth_server(&"https://auth.example/api/yggdrasil".to_string()).unwrap();
    assert_eq!(r, "https://auth.example/api/yggdrasil");
    let r = fetch_auth_server(&"auth.example/api/yggdrasil".to_string()).unwrap();
    assert_eq!(r, "https://auth.example/api/yggdrasil");
    assert_eq!(
        fetch_auth_server(&"".to_string()),
        Err(AccountError::Invalid)
    );
}

#[test]
fn error_messages_name_each_kind() {
    assert_eq!(
        LXMCLError::from_account_error(AccountError::Invalid).0,
        "invalid credentials, response or protocol kind"
    );
    assert_eq!(
        LXMCLError::from_account_error(AccountError::NotFound).0,
        "player, server or session not found"
    );
    assert_eq!(
        LXMCLError::from_account_error(AccountError::Duplicate).0,
        "identity already present"
    );
    assert_eq!(
        LXMCLError::from_account_error(AccountError::NetworkError).0,
        "network error"
    );
    assert_eq!(
        LXMCLError::from_account_error(AccountError::ParseError).0,
        "expected token or marker absent"
    );
    assert_eq!(
        LXMCLError::from_account_error(AccountError::TextureError).0,
        "invalid skin-preset name"
    );
    assert_eq!(
        LXMCLError::from_account_error(AccountError::NetworkError).message().as_str(),
        "network error"
    );
}

#[test]
fn browse_request_defaults() {
    let req = BrowseRequest {
        path: "/packs".to_string(),
        page: None,
        per_page: None,
    };
    assert_eq!(openlist_browse(&req), ("/packs".to_string(), 1, 100));
    let req = BrowseRequest {
        path: "/packs".to_string(),
        page: Some(3),
        per_page: Some(25),
    };
    assert_eq!(openlist_browse(&req), ("/packs".to_string(), 3, 25));
}

#[test]
fn download_is_skipped_only_for_a_complete_existing_file() {
    assert!(should_skip_download(true, Some(42), 42));
    assert!(!should_skip_download(true, Some(41), 42));
    assert!(!should_skip_download(true, None, 42));
    assert!(!should_skip_download(false, Some(42), 42));
}

#[test]
fn download_url_resolution() {
    assert_eq!(
        resolve_download_url(200, Some("https://cdn.example/f.zip".to_string())),
        Ok("https://cdn.example/f.zip".to_string())
    );
    assert_eq!(
        resolve_download_url(200, None),
        Err(AccountError::ParseError)
    );
    assert_eq!(
        resolve_download_url(404, Some("x".to_string())),
        Err(AccountError::Invalid)
    );
}

#[test]
fn download_task_prefix_carries_the_file_name() {
    assert_eq!(
        openlist_download_modpack(&"pack.mrpack".to_string()),
        "openlist:pack.mrpack"
    );
}

#[test]
fn fs_object_round_trip_through_fields() {
    let f = FsObject {
        id: "1".to_string(),
        path: "/packs/pack.mrpack".to_string(),
        name: "pack.mrpack".to_string(),
        size: 42,
        is_dir: false,
        modified: "2024-01-01".to_string(),
        created: "2024-01-01".to_string(),
        sign: "sig".to_string(),
        thumb: String::new(),
        file_type: 0,
    };
    assert_eq!(f.size, 42);
    assert!(!f.is_dir);
}
