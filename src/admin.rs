//! Requests of the storage node administration tool: which admin endpoint
//! each command addresses, checked before anything is sent.

use vstd::prelude::*;
use crate::text::{has_prefix, starts_with};

verus! {

/// Where the admin server is, and the password, if given.
pub struct ConnectionArgs {
    pub admin_url: String,
    pub password: Option<String>,
}

pub enum UserCommand {
    /// Disable a user by public key.
    Disable { pubky: String },
    /// Enable a user by public key.
    Enable { pubky: String },
}

pub enum StorageCommand {
    /// Delete a stored entry; its path must lie under `/pub/`.
    Delete { pubky: String, path: String },
}

#[derive(Clone, Copy, Debug, PartialEq, Eq, Structural)]
pub enum AdminError {
    /// The text is not a public key.
    InvalidPublicKey,
    /// The entry path does not start with `/pub/`.
    PathOutsidePub,
}

/// The text that `pubky::PublicKey` renders for the key that `s` parses
/// to; none where `s` is not a public key.
pub uninterp spec fn public_key_display(s: Seq<char>) -> Option<Seq<char>>;

/// Relies on `pubky::PublicKey`'s `FromStr` to parse a key and on its
/// `Display` to render it.
#[verifier::external_body]
fn render_public_key(s: &str) -> (r: Option<String>)
    ensures
        match r {
            Some(t) => public_key_display(s@) == Some(t@),
            None => public_key_display(s@) is None,
        },
{
    match <pubky::PublicKey as std::str::FromStr>::from_str(s) {
        Ok(k) => Some(k.to_string()),
        Err(_) => None,
    }
}

/// The admin path of a user command, for the rendered key `key`.
pub open spec fn spec_user_path(key: Seq<char>, cmd: UserCommand) -> Seq<char> {
    match cmd {
        UserCommand::Disable { .. } => "users/"@ + key + "/disable"@,
        UserCommand::Enable { .. } => "users/"@ + key + "/enable"@,
    }
}

/// `path` with a leading `/` added where it has none.
pub open spec fn rooted(path: Seq<char>) -> Seq<char> {
    if path.len() > 0 && path[0] == '/' {
        path
    } else {
        "/"@ + path
    }
}

/// The admin path that deletes `path` of the user with rendered key `key`.
pub open spec fn spec_entry_path(key: Seq<char>, path: Seq<char>) -> Result<Seq<char>, AdminError> {
    if starts_with(rooted(path), "/pub/"@) {
        Ok("webdav/"@ + key + rooted(path))
    } else {
        Err(AdminError::PathOutsidePub)
    }
}

/// The admin path of `cmd` for a user whose key renders as `key`.
pub fn user_path(key: &str, cmd: &UserCommand) -> (r: String)
    ensures
        r@ == spec_user_path(key@, *cmd),
{
    let mut p = "users/".to_owned();
    p.append(key);
    match cmd {
        UserCommand::Disable { .. } => p.append("/disable"),
        UserCommand::Enable { .. } => p.append("/enable"),
    }
    p
}

/// The admin path that deletes `path` for a user whose key renders as `key`.
pub fn entry_path(key: &str, path: &str) -> (r: Result<String, AdminError>)
    ensures
        match (r, spec_entry_path(key@, path@)) {
            (Ok(a), Ok(b)) => a@ == b,
            (Err(a), Err(b)) => a == b,
            _ => false,
        },
{
    let mut full = "/".to_owned();
    let rooted_path = if path.unicode_len() > 0 && path.get_char(0) == '/' {
        path.to_owned()
    } else {
        full.append(path);
        full
    };
    if !has_prefix(rooted_path.as_str(), "/pub/") {
        return Err(AdminError::PathOutsidePub);
    }
    let mut p = "webdav/".to_owned();
    p.append(key);
    p.append(rooted_path.as_str());
    Ok(p)
}

/// The admin path of a user command; fails where the key does not parse.
pub fn user_endpoint(cmd: &UserCommand) -> (r: Result<String, AdminError>)
    ensures
        match (r, public_key_display(
            match cmd {
                UserCommand::Disable { pubky } => pubky@,
                UserCommand::Enable { pubky } => pubky@,
            },
        )) {
            (Ok(a), Some(k)) => a@ == spec_user_path(k, *cmd),
            (Err(e), None) => e == AdminError::InvalidPublicKey,
            _ => false,
        },
{
    let pubky = match cmd {
        UserCommand::Disable { pubky } => pubky,
        UserCommand::Enable { pubky } => pubky,
    };
    match render_public_key(pubky.as_str()) {
        None => Err(AdminError::InvalidPublicKey),
        Some(k) => Ok(user_path(k.as_str(), cmd)),
    }
}

/// The admin path of a storage command; fails where the key does not parse
/// or the path lies outside `/pub/`.
pub fn storage_endpoint(cmd: &StorageCommand) -> (r: Result<String, AdminError>)
    ensures
        match cmd {
            StorageCommand::Delete { pubky, path } => match public_key_display(pubky@) {
                None => r == Err::<String, _>(AdminError::InvalidPublicKey),
                Some(k) => match (r, spec_entry_path(k, path@)) {
                    (Ok(a), Ok(b)) => a@ == b,
                    (Err(a), Err(b)) => a == b,
                    _ => false,
                },
            },
        },
{
    match cmd {
        StorageCommand::Delete { pubky, path } => match render_public_key(pubky.as_str()) {
            None => Err(AdminError::InvalidPublicKey),
            Some(k) => entry_path(k.as_str(), path.as_str()),
        },
    }
}

} // verus!
