//! Accounts: what is stored of a signed-in player, where, and how the stored account is kept
//! valid (Microsoft tokens refreshed before they expire, Ely.by tokens checked with the server).
use vstd::prelude::*;

use crate::mods::{join_path, path_in, path_view};
use crate::net::opt_text;
use crate::text::{chars_of, concat, str_eq, string_of};

verus! {

// ---------------------------------------------------------------------------------------------
// Stored account
// ---------------------------------------------------------------------------------------------

/// The signed-in account, as saved between runs.
#[derive(Debug, Clone)]
pub enum StoredAccount {
    Microsoft {
        uuid: String,
        username: String,
        access_token: String,
        refresh_token: Option<String>,
        /// Unix time, in seconds, at which `access_token` expires.
        expires_at: u64,
        skin_url: Option<String>,
    },
    ElyBy { uuid: String, username: String, access_token: String, skin_url: Option<String> },
}

impl StoredAccount {
    pub open spec fn uuid_text(&self) -> Seq<char> {
        match self {
            StoredAccount::Microsoft { uuid, .. } => uuid@,
            StoredAccount::ElyBy { uuid, .. } => uuid@,
        }
    }

    pub open spec fn username_text(&self) -> Seq<char> {
        match self {
            StoredAccount::Microsoft { username, .. } => username@,
            StoredAccount::ElyBy { username, .. } => username@,
        }
    }

    pub open spec fn token_text(&self) -> Seq<char> {
        match self {
            StoredAccount::Microsoft { access_token, .. } => access_token@,
            StoredAccount::ElyBy { access_token, .. } => access_token@,
        }
    }

    pub open spec fn skin_text(&self) -> Option<Seq<char>> {
        match self {
            StoredAccount::Microsoft { skin_url, .. } => opt_text(*skin_url),
            StoredAccount::ElyBy { skin_url, .. } => opt_text(*skin_url),
        }
    }

    /// `Microsoft` or `Ely.by`.
    pub open spec fn provider_text(&self) -> Seq<char> {
        match self {
            StoredAccount::Microsoft { .. } => "Microsoft"@,
            StoredAccount::ElyBy { .. } => "Ely.by"@,
        }
    }

    pub fn uuid(&self) -> (r: &str)
        ensures
            r@ == self.uuid_text(),
    {
        match self {
            StoredAccount::Microsoft { uuid, .. } => uuid.as_str(),
            StoredAccount::ElyBy { uuid, .. } => uuid.as_str(),
        }
    }

    pub fn username(&self) -> (r: &str)
        ensures
            r@ == self.username_text(),
    {
        match self {
            StoredAccount::Microsoft { username, .. } => username.as_str(),
            StoredAccount::ElyBy { username, .. } => username.as_str(),
        }
    }

    pub fn access_token(&self) -> (r: &str)
        ensures
            r@ == self.token_text(),
    {
        match self {
            StoredAccount::Microsoft { access_token, .. } => access_token.as_str(),
            StoredAccount::ElyBy { access_token, .. } => access_token.as_str(),
        }
    }

    pub fn skin_url(&self) -> (r: Option<String>)
        ensures
            opt_text(r) == self.skin_text(),
    {
        match self {
            StoredAccount::Microsoft { skin_url, .. } => skin_url.clone(),
            StoredAccount::ElyBy { skin_url, .. } => skin_url.clone(),
        }
    }

    pub fn provider_label(&self) -> (r: &'static str)
        ensures
            r@ == self.provider_text(),
    {
        match self {
            StoredAccount::Microsoft { .. } => "Microsoft",
            StoredAccount::ElyBy { .. } => "Ely.by",
        }
    }
}

/// What the interface is shown of the account: no tokens.
#[derive(Debug, Clone)]
pub struct AccountInfo {
    pub uuid: String,
    pub username: String,
    pub skin_url: Option<String>,
    pub provider: String,
}

impl AccountInfo {
    pub fn from_account(a: &StoredAccount) -> (info: AccountInfo)
        ensures
            info.uuid@ == a.uuid_text(),
            info.username@ == a.username_text(),
            opt_text(info.skin_url) == a.skin_text(),
            info.provider@ == a.provider_text(),
    {
        AccountInfo {
            uuid: a.uuid().to_owned(),
            username: a.username().to_owned(),
            skin_url: a.skin_url(),
            provider: a.provider_label().to_owned(),
        }
    }
}

/// What a launch needs of the current account: uuid, username, access token and provider.
pub fn load_current_session_full(current: Option<StoredAccount>) -> (r: Option<
    (String, String, String, String),
>)
    ensures
        current is None ==> r is None,
        current matches Some(a) ==> (r matches Some((u, n, t, p)) && u@ == a.uuid_text() && n@
            == a.username_text() && t@ == a.token_text() && p@ == a.provider_text()),
{
    match current {
        Some(a) => Some(
            (
                a.uuid().to_owned(),
                a.username().to_owned(),
                a.access_token().to_owned(),
                a.provider_label().to_owned(),
            ),
        ),
        None => None,
    }
}

// ---------------------------------------------------------------------------------------------
// Files
// ---------------------------------------------------------------------------------------------

/// The account, encrypted for this user where the platform can.
pub fn account_path(game_dir: &str) -> (p: Vec<String>)
    ensures
        path_view(p@) == path_in(game_dir@, "account.sec"@),
{
    join_path(game_dir, "account.sec")
}

/// The plain-text account file of earlier versions, migrated on first read.
pub fn legacy_account_path(game_dir: &str) -> (p: Vec<String>)
    ensures
        path_view(p@) == path_in(game_dir@, "account.json"@),
{
    join_path(game_dir, "account.json")
}

/// The legacy desktop client's encrypted profile, in the same folder.
pub fn old_launcher_profile_path(game_dir: &str) -> (p: Vec<String>)
    ensures
        path_view(p@) == path_in(game_dir@, "user.sec"@),
{
    join_path(game_dir, "user.sec")
}

/// The legacy desktop client's plain profile.
pub fn old_launcher_plain_profile_path(game_dir: &str) -> (p: Vec<String>)
    ensures
        path_view(p@) == path_in(game_dir@, "user.json"@),
{
    join_path(game_dir, "user.json")
}

/// The bytes written to the account file: `sealed`, the platform's encryption of `data`, when
/// there is one (Windows DPAPI, bound to this launcher); otherwise `data` itself.
pub fn encrypt_bytes(data: &[u8], sealed: Option<Vec<u8>>) -> (r: Vec<u8>)
    ensures
        r@ == match sealed {
            Some(s) => s@,
            None => data@,
        },
{
    match sealed {
        Some(s) => s,
        None => vstd::slice::slice_to_vec(data),
    }
}

/// The plain bytes of an account file. `opened` is the platform's decryption of `data`, where
/// the platform encrypts (`None` where it does not): a failed decryption yields nothing.
pub fn decrypt_bytes(data: &[u8], opened: Option<Result<Vec<u8>, String>>) -> (r: Option<Vec<u8>>)
    ensures
        match opened {
            None => r matches Some(v) && v@ == data@,
            Some(Ok(p)) => r matches Some(v) && v@ == p@,
            Some(Err(_)) => r is None,
        },
{
    match opened {
        None => Some(vstd::slice::slice_to_vec(data)),
        Some(Ok(p)) => Some(p),
        Some(Err(_)) => None,
    }
}

/// The plain bytes of the legacy desktop client's profile, encrypted without this launcher's
/// entropy; `opened` as for `decrypt_bytes`.
pub fn decrypt_legacy_bytes(data: &[u8], opened: Option<Result<Vec<u8>, String>>) -> (r: Option<
    Vec<u8>,
>)
    ensures
        match opened {
            None => r matches Some(v) && v@ == data@,
            Some(Ok(p)) => r matches Some(v) && v@ == p@,
            Some(Err(_)) => r is None,
        },
{
    decrypt_bytes(data, opened)
}

/// The profile saved by the legacy desktop client.
#[derive(Debug, Clone)]
pub struct OldUserProfile {
    pub username: String,
    pub access_token: String,
    pub uuid: String,
    pub provider: String,
}

/// Only Ely.by profiles with a token carry over: Microsoft ones were saved without a refresh
/// token.
pub fn migrate_old_profile(old: OldUserProfile) -> (r: Option<StoredAccount>)
    ensures
        old.provider@ == "Ely.by"@ && old.access_token@.len() > 0 ==> (r matches Some(
            StoredAccount::ElyBy { uuid, username, access_token, skin_url },
        ) && uuid@ == old.uuid@ && username@ == old.username@ && access_token@ == old.access_token@
            && skin_url is None),
        !(old.provider@ == "Ely.by"@ && old.access_token@.len() > 0) ==> r is None,
{
    if !str_eq(old.provider.as_str(), "Ely.by") || chars_of(old.access_token.as_str()).len() == 0 {
        return None;
    }
    Some(
        StoredAccount::ElyBy {
            uuid: old.uuid,
            username: old.username,
            access_token: old.access_token,
            skin_url: None,
        },
    )
}

// ---------------------------------------------------------------------------------------------
// Time
// ---------------------------------------------------------------------------------------------

/// The system clock in whole seconds since the Unix epoch (`SystemTime::now()` measured from
/// `UNIX_EPOCH`), or `None` when the clock reads earlier than the epoch. What it reads is the
/// machine's business: nothing is stated of it.
#[verifier::external_body]
fn unix_clock() -> (r: Option<u64>) {
    match std::time::SystemTime::now().duration_since(std::time::UNIX_EPOCH) {
        Ok(d) => Some(d.as_secs()),
        Err(_) => None,
    }
}

/// A clock reading, with `0` standing for one before the epoch.
pub fn seconds_or_zero(clock: Option<u64>) -> (s: u64)
    ensures
        s == match clock {
            Some(c) => c,
            None => 0,
        },
{
    match clock {
        Some(c) => c,
        None => 0,
    }
}

/// Seconds since the Unix epoch now, `0` if the clock is before it.
pub fn now_unix() -> u64 {
    seconds_or_zero(unix_clock())
}

/// A Microsoft token is used as it is while more than a minute of it is left.
pub open spec fn fresh_token(now: u64, expires_at: u64) -> bool {
    now + 60 < expires_at
}

pub fn token_is_fresh(now: u64, expires_at: u64) -> (b: bool)
    ensures
        b == fresh_token(now, expires_at),
{
    expires_at > 60 && now < expires_at - 60
}

/// The expiry of a token issued at `now` for `expires_in` seconds (wrapping, as the release
/// build's `+` does).
pub fn expiry_time(now: u64, expires_in: u64) -> (t: u64)
    ensures
        t as int == (now + expires_in) % 0x1_0000_0000_0000_0000,
{
    now.wrapping_add(expires_in)
}

// ---------------------------------------------------------------------------------------------
// Ely.by token check
// ---------------------------------------------------------------------------------------------

/// The auth server's verdict on a token from the status of its validate call: `2xx` is valid,
/// `400` and `401` are invalid, anything else says nothing.
pub fn validation_status(code: u16) -> (r: Option<bool>)
    ensures
        crate::net::success_status(code) ==> r == Some(true),
        (code == 400 || code == 401) ==> r == Some(false),
        !crate::net::success_status(code) && code != 400 && code != 401 ==> r is None,
{
    if crate::net::is_success_status(code) {
        Some(true)
    } else if code == 401 || code == 400 {
        Some(false)
    } else {
        None
    }
}

/// A stored Ely.by account is dropped only when the server says its token is invalid; when the
/// server cannot be asked, it stays.
pub fn keeps_elyby_account(validation: Option<bool>) -> (b: bool)
    ensures
        b == (validation != Some(false)),
{
    match validation {
        Some(false) => false,
        _ => true,
    }
}

// ---------------------------------------------------------------------------------------------
// Microsoft sign-in
// ---------------------------------------------------------------------------------------------

pub const CLIENT_ID: &'static str = "00000000402b5328";

pub const REDIRECT_URI: &'static str = "https://login.live.com/oauth20_desktop.srf";

pub const SCOPE: &'static str = "XboxLive.signin offline_access";

pub const AUTHORIZE_ENDPOINT: &'static str = "https://login.live.com/oauth20_authorize.srf";

pub open spec fn authorize_pairs() -> Seq<(Seq<char>, Seq<char>)> {
    seq![
        ("client_id"@, CLIENT_ID@),
        ("response_type"@, "code"@),
        ("response_mode"@, "query"@),
        ("redirect_uri"@, REDIRECT_URI@),
        ("scope"@, SCOPE@),
        ("prompt"@, "select_account"@),
    ]
}

fn pair(k: &str, v: &str) -> (p: (String, String))
    ensures
        p.0@ == k@,
        p.1@ == v@,
{
    (k.to_owned(), v.to_owned())
}

/// The page where the player signs in with Microsoft.
pub fn authorize_url() -> (u: String)
    ensures
        u@ == AUTHORIZE_ENDPOINT@ + seq!['?'] + crate::net::form_encoded(authorize_pairs()),
{
    let mut pairs: Vec<(String, String)> = Vec::new();
    pairs.push(pair("client_id", CLIENT_ID));
    pairs.push(pair("response_type", "code"));
    pairs.push(pair("response_mode", "query"));
    pairs.push(pair("redirect_uri", REDIRECT_URI));
    pairs.push(pair("scope", SCOPE));
    pairs.push(pair("prompt", "select_account"));
    assert(crate::net::pair_texts(pairs@) =~= authorize_pairs());
    let q = crate::net::form_encode(&pairs);
    let mut v = chars_of(AUTHORIZE_ENDPOINT);
    v.push('?');
    crate::text::extend_str(&mut v, q.as_str());
    string_of(v.as_slice())
}

/// What the sign-in window does on navigating to `url`: `None` lets it go on; at the redirect
/// address it stops with the authorization code, or with the error the address carries.
pub open spec fn redirect_outcome(url: Seq<char>) -> Option<Result<Seq<char>, Seq<char>>> {
    if crate::text::starts_with(url, REDIRECT_URI@) {
        let pairs = match crate::net::parsed_url(url) {
            Ok(u) => u.query,
            Err(_) => Seq::<(Seq<char>, Seq<char>)>::empty(),
        };
        match crate::net::first_value(pairs, "code"@) {
            Some(code) => Some(Ok(code)),
            None => Some(
                Err(
                    match crate::net::first_value(pairs, "error_description"@) {
                        Some(d) => d,
                        None => match crate::net::first_value(pairs, "error"@) {
                            Some(e) => e,
                            None => "Вход не завершён"@,
                        },
                    },
                ),
            ),
        }
    } else {
        None
    }
}

pub open spec fn outcome_view(r: Option<Result<String, String>>) -> Option<
    Result<Seq<char>, Seq<char>>,
> {
    match r {
        None => None,
        Some(Ok(c)) => Some(Ok(c@)),
        Some(Err(e)) => Some(Err(e@)),
    }
}

pub fn msa_redirect(url: &str) -> (r: Option<Result<String, String>>)
    ensures
        outcome_view(r) == redirect_outcome(url@),
{
    if !crate::text::str_starts_with(url, REDIRECT_URI) {
        return None;
    }
    let pairs: Vec<(String, String)> = match crate::net::parse_url(url) {
        Ok(u) => u.query,
        Err(_) => Vec::new(),
    };
    assert(crate::net::pair_texts(Seq::<(String, String)>::empty()) =~= Seq::<
        (Seq<char>, Seq<char>),
    >::empty());
    match crate::net::query_first(&pairs, "code") {
        Some(code) => Some(Ok(code)),
        None => {
            let msg = match crate::net::query_first(&pairs, "error_description") {
                Some(d) => d,
                None => match crate::net::query_first(&pairs, "error") {
                    Some(e) => e,
                    None => "Вход не завершён".to_owned(),
                },
            };
            Some(Err(msg))
        },
    }
}

/// The ticket Xbox Live is given for a Microsoft access token.
pub fn rps_ticket(ms_access_token: &str) -> (t: String)
    ensures
        t@ == "d="@ + ms_access_token@,
{
    concat("d=", ms_access_token)
}

/// The identity token Minecraft services are given: `XBL3.0 x=<user hash>;<XSTS token>`.
pub fn identity_token(uhs: &str, xsts_token: &str) -> (t: String)
    ensures
        t@ == "XBL3.0 x="@ + uhs@ + seq![';'] + xsts_token@,
{
    let mut v = chars_of("XBL3.0 x=");
    crate::text::extend_str(&mut v, uhs);
    v.push(';');
    crate::text::extend_str(&mut v, xsts_token);
    string_of(v.as_slice())
}

#[derive(Debug, Clone)]
pub struct XuiEntry {
    pub uhs: String,
}

#[derive(Debug, Clone)]
pub struct DisplayClaims {
    pub xui: Vec<XuiEntry>,
}

/// An Xbox Live (or XSTS) token with its display claims.
#[derive(Debug, Clone)]
pub struct XblResponse {
    pub token: String,
    pub display_claims: DisplayClaims,
}

pub const MISSING_UHS: &'static str = "Xbox Live ответ без uhs";

/// The user hash of the first display claim.
pub fn user_hash(xbl: &XblResponse) -> (r: Result<String, String>)
    ensures
        xbl.display_claims.xui.len() > 0 ==> (r matches Ok(h) && h@
            == xbl.display_claims.xui@[0].uhs@),
        xbl.display_claims.xui.len() == 0 ==> (r matches Err(e) && e@ == MISSING_UHS@),
{
    if xbl.display_claims.xui.len() > 0 {
        Ok(xbl.display_claims.xui[0].uhs.clone())
    } else {
        Err(MISSING_UHS.to_owned())
    }
}

pub const XSTS_REFUSED: &'static str =
    "Этот Microsoft-аккаунт не подходит для Xbox/Minecraft (например, детский аккаунт без семьи, или регион без Xbox Live)";

/// XSTS refuses accounts that cannot play (a child account outside a family, a region without
/// Xbox Live) with `401`.
pub fn xsts_refusal(code: u16) -> (r: Option<String>)
    ensures
        code == 401 ==> (r matches Some(m) && m@ == XSTS_REFUSED@),
        code != 401 ==> r is None,
{
    if code == 401 {
        Some(XSTS_REFUSED.to_owned())
    } else {
        None
    }
}

pub const NO_LICENSE: &'static str = "У этого аккаунта нет купленной лицензии Minecraft";

/// The error for a failed profile request: `404` means the account owns no Minecraft licence.
pub fn profile_failure(code: u16, status: &str, body: &str) -> (m: String)
    ensures
        code == 404 ==> m@ == NO_LICENSE@,
        code != 404 ==> m@ == "Не удалось получить профиль Minecraft"@ + " ("@ + status@ + "): "@
            + body@,
{
    if code == 404 {
        NO_LICENSE.to_owned()
    } else {
        crate::net::http_failure("Не удалось получить профиль Minecraft", status, body)
    }
}

#[derive(Debug, Clone)]
pub struct McSkin {
    pub url: String,
    pub state: String,
}

/// The Minecraft profile of the account.
#[derive(Debug, Clone)]
pub struct McProfile {
    pub id: String,
    pub name: String,
    pub skins: Vec<McSkin>,
}

/// The skin shown for a profile: the first one marked `ACTIVE`, else the first one.
pub open spec fn active_skin(skins: Seq<McSkin>) -> Option<Seq<char>> {
    if exists|i: int| 0 <= i < skins.len() && (#[trigger] skins[i]).state@ == "ACTIVE"@ {
        let i = choose|i: int|
            0 <= i < skins.len() && (#[trigger] skins[i]).state@ == "ACTIVE"@ && forall|j: int|
                0 <= j < i ==> (#[trigger] skins[j]).state@ != "ACTIVE"@;
        Some(skins[i].url@)
    } else if skins.len() > 0 {
        Some(skins[0].url@)
    } else {
        None
    }
}

impl McProfile {
    pub fn active_skin_url(&self) -> (r: Option<String>)
        ensures
            opt_text(r) == active_skin(self.skins@),
    {
        let mut i: usize = 0;
        while i < self.skins.len()
            invariant
                i <= self.skins.len(),
                forall|j: int| 0 <= j < i ==> (#[trigger] self.skins@[j]).state@ != "ACTIVE"@,
            decreases self.skins.len() - i,
        {
            if str_eq(self.skins[i].state.as_str(), "ACTIVE") {
                proof {
                    let w = choose|w: int|
                        0 <= w < self.skins@.len() && (#[trigger] self.skins@[w]).state@
                            == "ACTIVE"@ && forall|j: int|
                            0 <= j < w ==> (#[trigger] self.skins@[j]).state@ != "ACTIVE"@;
                    assert(self.skins@[i as int].state@ == "ACTIVE"@);
                    if w < i {
                        assert(self.skins@[w].state@ != "ACTIVE"@);
                    }
                    if w > i {
                        assert(self.skins@[i as int].state@ != "ACTIVE"@);
                    }
                }
                return Some(self.skins[i].url.clone());
            }
            i = i + 1;
        }
        if self.skins.len() > 0 {
            Some(self.skins[0].url.clone())
        } else {
            None
        }
    }
}

/// The account saved after a Microsoft sign-in.
pub fn signed_in_account(
    profile: &McProfile,
    mc_access_token: String,
    refresh_token: Option<String>,
    now: u64,
    expires_in: u64,
) -> (a: StoredAccount)
    ensures
        a matches StoredAccount::Microsoft {
            uuid,
            username,
            access_token,
            refresh_token: rt,
            expires_at,
            skin_url,
        } && uuid@ == profile.id@ && username@ == profile.name@ && access_token@
            == mc_access_token@ && opt_text(rt) == opt_text(refresh_token) && expires_at as int
            == (now + expires_in) % 0x1_0000_0000_0000_0000 && opt_text(skin_url) == active_skin(
            profile.skins@,
        ),
{
    StoredAccount::Microsoft {
        uuid: profile.id.clone(),
        username: profile.name.clone(),
        access_token: mc_access_token,
        refresh_token: refresh_token,
        expires_at: expiry_time(now, expires_in),
        skin_url: profile.active_skin_url(),
    }
}

// ---------------------------------------------------------------------------------------------
// Loading the current account
// ---------------------------------------------------------------------------------------------

/// The first thing to do with the stored account when the current account is asked for.
#[derive(Debug)]
pub enum AccountPlan {
    /// Nothing is stored.
    NoAccount,
    /// An Ely.by account: ask the auth server whether its token is still valid.
    ValidateEly,
    /// Use the stored account as it is.
    UseStored,
    /// The Microsoft token is still fresh: look up the skin first when `fetch_skin` is set,
    /// then save the account again.
    KeepFresh { fetch_skin: bool },
    /// The Microsoft token has expired: renew it with this refresh token.
    Refresh { refresh_token: String },
    /// The Microsoft token has expired and there is nothing to renew it with.
    Expired,
}

/// Chooses the first step of loading the current account. `want_skin` asks for the skin
/// address too (the interface does; launching does not and skips the extra requests).
pub fn plan_account_load(stored: &Option<StoredAccount>, want_skin: bool, now: u64) -> (p:
    AccountPlan)
    ensures
        *stored is None ==> p is NoAccount,
        *stored matches Some(StoredAccount::ElyBy { .. }) ==> if want_skin {
            p is ValidateEly
        } else {
            p is UseStored
        },
        *stored matches Some(StoredAccount::Microsoft { refresh_token, expires_at, skin_url, .. })
            ==> if fresh_token(now, expires_at) {
            p == (AccountPlan::KeepFresh { fetch_skin: want_skin && skin_url is None })
        } else {
            match refresh_token {
                Some(t) => p matches AccountPlan::Refresh { refresh_token: r } && r@ == t@,
                None => p is Expired,
            }
        },
{
    match stored {
        None => AccountPlan::NoAccount,
        Some(StoredAccount::ElyBy { .. }) => {
            if want_skin {
                AccountPlan::ValidateEly
            } else {
                AccountPlan::UseStored
            }
        },
        Some(StoredAccount::Microsoft { refresh_token, expires_at, skin_url, .. }) => {
            if token_is_fresh(now, *expires_at) {
                AccountPlan::KeepFresh { fetch_skin: want_skin && skin_url.is_none() }
            } else {
                match refresh_token {
                    Some(t) => AccountPlan::Refresh { refresh_token: t.clone() },
                    None => AccountPlan::Expired,
                }
            }
        },
    }
}

/// The account kept after a fresh-token load: `skin` replaces the stored skin address when it
/// was looked up.
pub fn with_skin(account: StoredAccount, skin: Option<Option<String>>) -> (a: StoredAccount)
    ensures
        a.uuid_text() == account.uuid_text(),
        a.username_text() == account.username_text(),
        a.token_text() == account.token_text(),
        a.provider_text() == account.provider_text(),
        a.skin_text() == match skin {
            Some(s) => opt_text(s),
            None => account.skin_text(),
        },
        account matches StoredAccount::Microsoft { refresh_token, expires_at, .. } ==> (
        a matches StoredAccount::Microsoft { refresh_token: rt, expires_at: e, .. } && opt_text(rt)
            == opt_text(refresh_token) && e == expires_at),
{
    match skin {
        None => account,
        Some(s) => match account {
            StoredAccount::Microsoft {
                uuid,
                username,
                access_token,
                refresh_token,
                expires_at,
                skin_url: _,
            } => StoredAccount::Microsoft {
                uuid,
                username,
                access_token,
                refresh_token,
                expires_at,
                skin_url: s,
            },
            StoredAccount::ElyBy { uuid, username, access_token, skin_url: _ } => {
                StoredAccount::ElyBy { uuid, username, access_token, skin_url: s }
            },
        },
    }
}

/// The Microsoft account after its token was renewed: the new access token, the new refresh
/// token if one was issued (else the old one), a new expiry, and `skin` when it was looked up.
pub fn renewed_account(
    account: &StoredAccount,
    old_refresh_token: &str,
    mc_access_token: String,
    new_refresh_token: Option<String>,
    now: u64,
    expires_in: u64,
    skin: Option<Option<String>>,
) -> (a: StoredAccount)
    ensures
        a matches StoredAccount::Microsoft {
            uuid,
            username,
            access_token,
            refresh_token,
            expires_at,
            skin_url,
        } && uuid@ == account.uuid_text() && username@ == account.username_text() && access_token@
            == mc_access_token@ && opt_text(refresh_token) == Some(
            match new_refresh_token {
                Some(t) => t@,
                None => old_refresh_token@,
            },
        ) && expires_at as int == (now + expires_in) % 0x1_0000_0000_0000_0000 && opt_text(
            skin_url,
        ) == match skin {
            Some(s) => opt_text(s),
            None => account.skin_text(),
        },
{
    let refresh = match new_refresh_token {
        Some(t) => t,
        None => old_refresh_token.to_owned(),
    };
    let skin_url = match skin {
        Some(s) => s,
        None => account.skin_url(),
    };
    StoredAccount::Microsoft {
        uuid: account.uuid().to_owned(),
        username: account.username().to_owned(),
        access_token: mc_access_token,
        refresh_token: Some(refresh),
        expires_at: expiry_time(now, expires_in),
        skin_url,
    }
}

} // verus!
