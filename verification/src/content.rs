//! The server rules and a player's violations, as the backend publishes them.
use vstd::prelude::*;

use crate::config::api_url;
use crate::mods::{join_path, path_in, path_view};

verus! {

/// Where the rules are published.
pub fn rules_api_url() -> (u: String)
    ensures
        u@ == api_url("/launcher/rules"@),
{
    crate::config::api_endpoint("/launcher/rules")
}

/// Where a player's violations are published.
pub fn violations_api_url() -> (u: String)
    ensures
        u@ == api_url("/launcher/violations"@),
{
    crate::config::api_endpoint("/launcher/violations")
}

#[derive(Debug, Clone)]
pub struct RuleItem {
    pub id: String,
    pub text: String,
}

#[derive(Debug, Clone)]
pub struct RuleNote {
    pub kind: String,
    pub text: String,
}

#[derive(Debug, Clone)]
pub struct RuleSection {
    pub number: u32,
    pub emoji: String,
    pub title: String,
    pub rules: Vec<RuleItem>,
    pub notes: Vec<RuleNote>,
}

/// The server rules.
#[derive(Debug, Clone)]
pub struct RulesDoc {
    pub updated_at: String,
    pub sections: Vec<RuleSection>,
    pub footer: Vec<String>,
}

/// How old the cached rules may be and still stand in for the live ones: thirty days.
pub const RULES_FALLBACK_MAX_AGE_SECS: u64 = 2592000;

/// Where the last rules fetched are kept.
pub fn rules_cache_path(game_dir: &str) -> (p: Vec<String>)
    ensures
        path_view(p@) == path_in(game_dir@, "rules_cache.json"@),
{
    join_path(game_dir, "rules_cache.json")
}

/// A mute, ban or warning on the player's record. It is never cached: a stale record misleads,
/// and a cache on a shared disk would show one account's record to the next.
#[derive(Debug, Clone)]
pub struct Violation {
    pub kind: String,
    pub reason: String,
    pub issued_at: i64,
    pub ends_at: Option<i64>,
    pub permanent: bool,
    pub issued_by: Option<String>,
}

/// The error for an API that answered with a failure status: `<api> returned <status>`.
pub fn api_status_error(api: &str, status: &str) -> (m: String)
    ensures
        m@ == api@ + " returned "@ + status@,
{
    let a = crate::text::concat(api, " returned ");
    crate::text::concat(a.as_str(), status)
}

/// The query that names the player whose violations are asked for.
pub fn violations_query(username: &str) -> (q: Vec<(String, String)>)
    ensures
        crate::net::pair_texts(q@) == seq![("username"@, username@)],
{
    let mut q: Vec<(String, String)> = Vec::new();
    q.push(("username".to_owned(), username.to_owned()));
    assert(crate::net::pair_texts(q@) =~= seq![("username"@, username@)]);
    q
}

/// Only `https` addresses are opened in the browser: the target comes from the backend, and
/// other schemes (or UNC paths) could run something on this machine.
pub const ONLY_HTTPS: &'static str = "Разрешено открывать только https-ссылки";

pub fn check_external_target(target: &str) -> (r: Result<(), String>)
    ensures
        r is Ok <==> crate::text::starts_with(target@, "https://"@),
        r matches Err(e) ==> e@ == ONLY_HTTPS@,
{
    if crate::text::str_starts_with(target, "https://") {
        Ok(())
    } else {
        Err(ONLY_HTTPS.to_owned())
    }
}

} // verus!
