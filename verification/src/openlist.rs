//! The modpack-listing proxy: request normalization and the decisions of the
//! download path. The HTTP calls, the task scheduler and the file system
//! stay outside; this module fixes the defaults, the skip rule for an
//! already-complete file, and how the real download URL is accepted.

use vstd::prelude::*;

use crate::error::AccountError;

verus! {

/// A directory-listing request as the caller hands it over; page and page
/// size may be left out.
#[derive(Debug, Clone, PartialEq)]
pub struct BrowseRequest {
    pub path: String,
    pub page: Option<i32>,
    pub per_page: Option<i32>,
}

/// One listed file or directory, as the listing service describes it.
#[derive(Debug, Clone, PartialEq)]
pub struct FsObject {
    pub id: String,
    pub path: String,
    pub name: String,
    pub size: u64,
    pub is_dir: bool,
    pub modified: String,
    pub created: String,
    pub sign: String,
    pub thumb: String,
    pub file_type: u8,
}

/// Normalizes a browse request: a missing page defaults to 1, a missing
/// page size to 100; the path passes through unchanged.
pub fn openlist_browse(request: &BrowseRequest) -> (r: (String, i32, i32))
    ensures
        r.0@ == request.path@,
        r.1 == match request.page {
            Some(p) => p,
            None => 1i32,
        },
        r.2 == match request.per_page {
            Some(p) => p,
            None => 100i32,
        },
{
    let page = match request.page {
        Some(p) => p,
        None => 1,
    };
    let per_page = match request.per_page {
        Some(p) => p,
        None => 100,
    };
    (request.path.clone(), page, per_page)
}

/// A download may be skipped exactly when the destination file already
/// exists with the expected size.
pub fn should_skip_download(dest_exists: bool, existing_size: Option<u64>, size: u64) -> (r: bool)
    ensures
        r == (dest_exists && existing_size == Some(size)),
{
    dest_exists && match existing_size {
        Some(s) => s == size,
        None => false,
    }
}

/// Accepts the file-info answer of the listing service: the body must carry
/// the success code and a real download URL; a wrong code is `Invalid`, a
/// missing URL `ParseError`.
pub fn resolve_download_url(code: i32, raw_url: Option<String>) -> (r: Result<
    String,
    AccountError,
>)
    ensures
        code != 200 ==> r == Err::<String, AccountError>(AccountError::Invalid),
        code == 200 && raw_url is None ==> r == Err::<String, AccountError>(
            AccountError::ParseError,
        ),
        code == 200 ==> (raw_url matches Some(u) ==> r == Ok::<String, AccountError>(u)),
{
    if code != 200 {
        return Err(AccountError::Invalid);
    }
    match raw_url {
        Some(u) => Ok(u),
        None => Err(AccountError::ParseError),
    }
}

/// The task-group name a modpack download runs under: the fixed prefix
/// followed by the file name, so the caller can match progress events.
pub fn openlist_download_modpack(file_name: &String) -> (r: String)
    ensures
        r@ == "openlist:"@ + file_name@,
{
    String::from_str("openlist:").concat(file_name.as_str())
}

} // verus!
