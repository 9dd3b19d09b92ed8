//! Remotes: the host of a remote URL, and whether a way to authenticate
//! over SSH is at hand.

use crate::state::opt_text;
use crate::text::{chars_of, find_char, piece_end, slice_of, starts_with_text, text_of};
use crate::textmap::{value_of, TextMap};
use vstd::prelude::*;

verus! {

/// The text without the prefix, where it begins with it.
pub open spec fn without_prefix(text: Seq<char>, prefix: Seq<char>) -> Seq<char> {
    if prefix.is_prefix_of(text) {
        text.subrange(prefix.len() as int, text.len() as int)
    } else {
        text
    }
}

/// The text before the first `c`, where the text holds one.
pub open spec fn text_before(text: Seq<char>, c: char) -> Option<Seq<char>> {
    let end = piece_end(text, c, 0);
    if end < text.len() {
        Some(text.subrange(0, end))
    } else {
        None
    }
}

/// The URL is one that is reached over SSH.
pub open spec fn is_ssh(url: Seq<char>) -> bool {
    "git@"@.is_prefix_of(url) || "ssh://"@.is_prefix_of(url)
}

/// The URL is one that is reached over HTTP.
pub open spec fn is_http(url: Seq<char>) -> bool {
    "https://"@.is_prefix_of(url) || "http://"@.is_prefix_of(url)
}

/// The host that a remote URL names. Of an SSH URL, what stands behind
/// `git@` or `ssh://` up to the first colon, or else up to the first slash;
/// of an HTTP URL, what stands behind the scheme up to the first slash.
pub open spec fn hostname_of(url: Seq<char>) -> Option<Seq<char>> {
    if is_ssh(url) {
        let rest = without_prefix(without_prefix(url, "git@"@), "ssh://"@);
        if text_before(rest, ':') is Some {
            text_before(rest, ':')
        } else {
            text_before(rest, '/')
        }
    } else if is_http(url) {
        let rest = if "https://"@.is_prefix_of(url) {
            without_prefix(url, "https://"@)
        } else {
            without_prefix(url, "http://"@)
        };
        text_before(rest, '/')
    } else {
        None
    }
}

/// The characters without the prefix, where they begin with it.
fn strip_prefix(chars: Vec<char>, prefix: &str) -> (rest: Vec<char>)
    ensures
        rest@ == without_prefix(chars@, prefix@),
{
    let p = chars_of(prefix);
    if starts_with_text(&chars, &p) {
        slice_of(&chars, p.len(), chars.len())
    } else {
        chars
    }
}

/// The text before the first `c`.
fn before_char(chars: &Vec<char>, c: char) -> (head: Option<String>)
    ensures
        opt_text(head) == text_before(chars@, c),
{
    let end = find_char(chars, c, 0);
    if end < chars.len() {
        Some(text_of(&slice_of(chars, 0, end)))
    } else {
        None
    }
}

/// Whether the URL is one that is reached over SSH: it begins with `git@`
/// or `ssh://`.
pub fn is_ssh_url(url: &str) -> (ssh: bool)
    ensures
        ssh == is_ssh(url@),
{
    let chars = chars_of(url);
    starts_with_text(&chars, &chars_of("git@")) || starts_with_text(&chars, &chars_of("ssh://"))
}

/// The host that a remote URL names, if it names one.
pub fn extract_hostname(url: &str) -> (host: Option<String>)
    ensures
        opt_text(host) == hostname_of(url@),
{
    let chars = chars_of(url);
    if is_ssh_url(url) {
        let rest = strip_prefix(strip_prefix(chars, "git@"), "ssh://");
        match before_char(&rest, ':') {
            Some(host) => Some(host),
            None => before_char(&rest, '/'),
        }
    } else if starts_with_text(&chars, &chars_of("https://")) {
        let rest = strip_prefix(chars, "https://");
        before_char(&rest, '/')
    } else if starts_with_text(&chars, &chars_of("http://")) {
        let rest = strip_prefix(chars, "http://");
        before_char(&rest, '/')
    } else {
        None
    }
}

/// Whether the two files of a configured key exist.
#[derive(Debug, Clone, Copy, PartialEq, Eq, Structural)]
pub struct KeyFiles {
    pub private_exists: bool,
    pub public_exists: bool,
}

/// Why authentication over SSH will fail.
#[derive(Debug, Clone)]
pub enum SshAuthError {
    /// A key is configured for the host, but its files are missing.
    KeysMissing { host: String, key_path: String, private_missing: bool, public_missing: bool },
    /// No agent runs and no key is configured for the host.
    NotConfigured { host: Option<String> },
}

/// The key path that the credentials hold for the host of the URL.
pub open spec fn configured_key_of(
    credentials: Seq<(Seq<char>, Seq<char>)>,
    url: Seq<char>,
) -> Option<Seq<char>> {
    match hostname_of(url) {
        Some(host) => value_of(credentials, host),
        None => None,
    }
}

/// Authentication over SSH is at hand: the URL is not reached over SSH, or
/// an agent runs, or a key is configured for the host and both of its files
/// exist.
pub open spec fn ssh_auth_available(
    credentials: Seq<(Seq<char>, Seq<char>)>,
    url: Seq<char>,
    has_ssh_agent: bool,
    key_files: KeyFiles,
) -> bool {
    !is_ssh(url) || has_ssh_agent || (configured_key_of(credentials, url) is Some
        && key_files.private_exists && key_files.public_exists)
}

/// The key path that the credentials hold for the host of the URL.
pub fn configured_key(remote_url: &str, credentials: &TextMap) -> (key_path: Option<String>)
    ensures
        opt_text(key_path) == configured_key_of(credentials@, remote_url@),
{
    match extract_hostname(remote_url) {
        Some(host) => {
            match credentials.get(host.as_str()) {
                Some(path) => Some(path.clone()),
                None => None,
            }
        },
        None => None,
    }
}

/// Checks that a way to authenticate over SSH is at hand for a remote URL.
/// `key_files` says which files of the key configured for the URL's host
/// exist; it is not looked at where no key is configured.
pub fn validate_ssh_auth(
    remote_url: &str,
    credentials: &TextMap,
    has_ssh_agent: bool,
    key_files: KeyFiles,
) -> (checked: Result<(), SshAuthError>)
    ensures
        checked is Ok <==> ssh_auth_available(
            credentials@,
            remote_url@,
            has_ssh_agent,
            key_files,
        ),
        checked is Err ==> match checked->Err_0 {
            SshAuthError::KeysMissing { host, key_path, private_missing, public_missing } => {
                &&& hostname_of(remote_url@) == Some(host@)
                &&& configured_key_of(credentials@, remote_url@) == Some(key_path@)
                &&& private_missing == !key_files.private_exists
                &&& public_missing == !key_files.public_exists
            },
            SshAuthError::NotConfigured { host } => {
                &&& opt_text(host) == hostname_of(remote_url@)
                &&& configured_key_of(credentials@, remote_url@) is None
            },
        },
{
    if !is_ssh_url(remote_url) {
        return Ok(());
    }
    if has_ssh_agent {
        return Ok(());
    }
    let hostname = extract_hostname(remote_url);
    match &hostname {
        Some(host) => {
            match credentials.get(host.as_str()) {
                Some(key_path) => {
                    if key_files.private_exists && key_files.public_exists {
                        return Ok(());
                    }
                    return Err(
                        SshAuthError::KeysMissing {
                            host: host.clone(),
                            key_path: key_path.clone(),
                            private_missing: !key_files.private_exists,
                            public_missing: !key_files.public_exists,
                        },
                    );
                },
                None => {},
            }
        },
        None => {},
    }
    Err(SshAuthError::NotConfigured { host: hostname })
}

} // verus!
