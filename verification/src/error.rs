use vstd::prelude::*;

verus! {

/// The error kinds that account operations can surface.
///
/// `Invalid` covers bad credentials, a malformed or unexpected remote
/// response, and a wrong protocol kind for the requested operation;
/// `NotFound` a referenced player, server or session that is absent;
/// `Duplicate` an identity already present after dedup; `NetworkError` a
/// transport failure; `ParseError` an expected token or marker absent from a
/// scraped response; `TextureError` an invalid skin-preset name.
#[derive(Clone, Copy, Debug, PartialEq, Eq, Structural)]
pub enum AccountError {
    Invalid,
    NotFound,
    Duplicate,
    NetworkError,
    ParseError,
    TextureError,
}

/// The message text that each error kind is reported with.
pub open spec fn account_error_text(e: AccountError) -> Seq<char> {
    match e {
        AccountError::Invalid => "invalid credentials, response or protocol kind"@,
        AccountError::NotFound => "player, server or session not found"@,
        AccountError::Duplicate => "identity already present"@,
        AccountError::NetworkError => "network error"@,
        AccountError::ParseError => "expected token or marker absent"@,
        AccountError::TextureError => "invalid skin-preset name"@,
    }
}

/// An error as the caller boundary reports it: a plain message string.
#[derive(Debug, PartialEq, Eq)]
pub struct LXMCLError(pub String);

pub type LXMCLResult<T> = Result<T, LXMCLError>;

impl LXMCLError {
    /// Wraps an account error into its boundary message.
    pub fn from_account_error(e: AccountError) -> (r: LXMCLError)
        ensures
            r.0@ == account_error_text(e),
    {
        match e {
            AccountError::Invalid => LXMCLError(
                String::from_str("invalid credentials, response or protocol kind"),
            ),
            AccountError::NotFound => LXMCLError(
                String::from_str("player, server or session not found"),
            ),
            AccountError::Duplicate => LXMCLError(String::from_str("identity already present")),
            AccountError::NetworkError => LXMCLError(String::from_str("network error")),
            AccountError::ParseError => LXMCLError(
                String::from_str("expected token or marker absent"),
            ),
            AccountError::TextureError => LXMCLError(String::from_str("invalid skin-preset name")),
        }
    }

    /// The message carried by this error.
    pub fn message(&self) -> (r: &String)
        ensures
            r@ == self.0@,
    {
        &self.0
    }
}

} // verus!
