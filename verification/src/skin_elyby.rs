//! Managing Ely.by skins. Ely.by has no API for it, so the launcher drives the website's own
//! endpoints with the cookies of a session the player signed in to in a launcher window; this
//! module holds what is decided about that session, the requests and the website's answers.
use vstd::prelude::*;

use crate::mods::path_view;
use crate::net::opt_text;
use crate::skin::{default_hash, hex16, LicenseSkinItem};
use crate::text::{after_last, chars_of, contains, extend_str, find, split_char, string_of};

verus! {

// ---------------------------------------------------------------------------------------------
// The website session
// ---------------------------------------------------------------------------------------------

/// The cookies of a signed-in ely.by session.
#[derive(Debug, Clone)]
pub struct SkinSession {
    pub php_sess_id: Option<String>,
    pub identity: Option<String>,
}

impl Default for SkinSession {
    fn default() -> (s: Self)
        ensures
            s.php_sess_id is None,
            s.identity is None,
    {
        SkinSession { php_sess_id: None, identity: None }
    }
}

/// The cookie header for a session: `PHPSESSID=...` and `identity=...`, those present, joined
/// by `; `.
pub open spec fn cookie_text(php: Option<Seq<char>>, identity: Option<Seq<char>>) -> Seq<char> {
    match (php, identity) {
        (Some(p), Some(i)) => "PHPSESSID="@ + p + "; "@ + "identity="@ + i,
        (Some(p), None) => "PHPSESSID="@ + p,
        (None, Some(i)) => "identity="@ + i,
        (None, None) => Seq::<char>::empty(),
    }
}

impl SkinSession {
    /// A session is usable when it holds at least one of its cookies.
    pub fn is_valid(&self) -> (b: bool)
        ensures
            b == (self.php_sess_id is Some || self.identity is Some),
    {
        self.php_sess_id.is_some() || self.identity.is_some()
    }

    pub fn cookie_header(&self) -> (h: String)
        ensures
            h@ == cookie_text(opt_text(self.php_sess_id), opt_text(self.identity)),
    {
        let mut v: Vec<char> = Vec::new();
        match &self.php_sess_id {
            Some(p) => {
                extend_str(&mut v, "PHPSESSID=");
                extend_str(&mut v, p.as_str());
            },
            None => {},
        }
        match &self.identity {
            Some(i) => {
                if self.php_sess_id.is_some() {
                    extend_str(&mut v, "; ");
                }
                extend_str(&mut v, "identity=");
                extend_str(&mut v, i.as_str());
            },
            None => {},
        }
        proof {
            match (opt_text(self.php_sess_id), opt_text(self.identity)) {
                (Some(p), Some(i)) => {
                    assert(v@ =~= "PHPSESSID="@ + p + "; "@ + "identity="@ + i);
                },
                (Some(p), None) => {
                    assert(v@ =~= "PHPSESSID="@ + p);
                },
                (None, Some(i)) => {
                    assert(v@ =~= "identity="@ + i);
                },
                (None, None) => {
                    assert(v@ =~= Seq::<char>::empty());
                },
            }
        }
        string_of(v.as_slice())
    }
}

/// The session the website's cookies make: the last `PHPSESSID` and the last `identity` cookie.
pub open spec fn session_cookie(cookies: Seq<(Seq<char>, Seq<char>)>, name: Seq<char>) -> Option<
    Seq<char>,
> {
    crate::net::last_value(cookies, name)
}

/// The session made of the ely.by cookies, given as name and value.
pub fn session_from_cookies(cookies: &Vec<(String, String)>) -> (s: SkinSession)
    ensures
        opt_text(s.php_sess_id) == session_cookie(crate::net::pair_texts(cookies@), "PHPSESSID"@),
        opt_text(s.identity) == session_cookie(crate::net::pair_texts(cookies@), "identity"@),
{
    SkinSession {
        php_sess_id: crate::net::query_last(cookies, "PHPSESSID"),
        identity: crate::net::query_last(cookies, "identity"),
    }
}

pub const NO_SESSION: &'static str = "Нет сессии ely.by — сначала войдите через «Управлять на ely.by»";

/// The saved session, when it can be used.
pub fn session_or_err(session: SkinSession) -> (r: Result<SkinSession, String>)
    ensures
        (session.php_sess_id is Some || session.identity is Some) ==> r == Ok::<
            SkinSession,
            String,
        >(session),
        !(session.php_sess_id is Some || session.identity is Some) ==> (r matches Err(e) && e@
            == NO_SESSION@),
{
    if session.is_valid() {
        Ok(session)
    } else {
        Err(NO_SESSION.to_owned())
    }
}

pub const SESSION_NOT_CAPTURED: &'static str = "Не удалось получить сессию — убедитесь, что вы вошли на сайте ely.by, и попробуйте снова";

/// Finishing the website sign-in by hand needs a usable session.
pub fn check_captured_session(session: &SkinSession) -> (r: Result<(), String>)
    ensures
        r is Ok <==> (session.php_sess_id is Some || session.identity is Some),
        r matches Err(e) ==> e@ == SESSION_NOT_CAPTURED@,
{
    if session.is_valid() {
        Ok(())
    } else {
        Err(SESSION_NOT_CAPTURED.to_owned())
    }
}

pub const SESSION_EXPIRED: &'static str = "Сессия ely.by истекла — войдите заново через «Управлять на ely.by»";

/// The website answers an action with `{"error":"error_login"}` once the session has expired.
pub open spec fn session_expired(body: Seq<char>) -> bool {
    contains(body, "\"error\":\"error_login\""@)
}

pub fn check_session_expired(body: &str) -> (r: Result<(), String>)
    ensures
        r is Ok <==> !session_expired(body@),
        r matches Err(e) ==> e@ == SESSION_EXPIRED@,
{
    if crate::text::str_contains(body, "\"error\":\"error_login\"") {
        Err(SESSION_EXPIRED.to_owned())
    } else {
        Ok(())
    }
}

/// The outcome of a skin change from the website's answer: an expired session is an error,
/// otherwise the change took when the answer says `success_skin_change`.
pub fn wear_elyby_skin_blocking(body: &str) -> (r: Result<bool, String>)
    ensures
        session_expired(body@) ==> (r matches Err(e) && e@ == SESSION_EXPIRED@),
        !session_expired(body@) ==> r == Ok::<bool, String>(
            contains(body@, "success_skin_change"@),
        ),
{
    check_session_expired(body)?;
    Ok(crate::text::str_contains(body, "success_skin_change"))
}

/// The outcome of a skin removal from the website's answer.
pub fn delete_outcome(body: &str) -> (r: Result<bool, String>)
    ensures
        session_expired(body@) ==> (r matches Err(e) && e@ == SESSION_EXPIRED@),
        !session_expired(body@) ==> r == Ok::<bool, String>(
            contains(body@, "success_skin_delete"@),
        ),
{
    check_session_expired(body)?;
    Ok(crate::text::str_contains(body, "success_skin_delete"))
}

/// The form that wears skin `skin_id` (`0` takes the skin off).
pub fn wear_form(skin_id: i64) -> (f: Vec<(String, String)>)
    ensures
        crate::net::pair_texts(f@) == seq![("skinId"@, crate::text::int_text(skin_id as int))],
{
    let id = crate::text::i64_text(skin_id);
    let mut f: Vec<(String, String)> = Vec::new();
    f.push(("skinId".to_owned(), string_of(id.as_slice())));
    assert(crate::net::pair_texts(f@) =~= seq![("skinId"@, crate::text::int_text(skin_id as int))]);
    f
}

/// The form that names an uploaded skin and sets its model.
pub fn skin_metadata_form(name: &str, is_slim: bool) -> (f: Vec<(String, String)>)
    ensures
        crate::net::pair_texts(f@) == seq![
            ("name"@, name@),
            ("description"@, Seq::<char>::empty()),
            ("kind"@, "6"@),
            ("color"@, Seq::<char>::empty()),
            ("tags"@, Seq::<char>::empty()),
            ("isSlim"@, if is_slim {
                "1"@
            } else {
                "0"@
            }),
        ],
{
    let mut f: Vec<(String, String)> = Vec::new();
    f.push(("name".to_owned(), name.to_owned()));
    f.push(("description".to_owned(), String::new()));
    f.push(("kind".to_owned(), "6".to_owned()));
    f.push(("color".to_owned(), String::new()));
    f.push(("tags".to_owned(), String::new()));
    f.push(("isSlim".to_owned(), if is_slim { "1".to_owned() } else { "0".to_owned() }));
    assert(crate::net::pair_texts(f@) =~= seq![
        ("name"@, name@),
        ("description"@, Seq::<char>::empty()),
        ("kind"@, "6"@),
        ("color"@, Seq::<char>::empty()),
        ("tags"@, Seq::<char>::empty()),
        ("isSlim"@, if is_slim {
            "1"@
        } else {
            "0"@
        }),
    ]);
    f
}

// ---------------------------------------------------------------------------------------------
// Signing in to the website in a launcher window
// ---------------------------------------------------------------------------------------------

pub const LOGIN_WINDOW_CLOSED: &'static str = "Окно входа закрыто";

pub const LOGIN_TIMED_OUT: &'static str = "Истекло время ожидания входа";

/// What the watcher of the sign-in window does after a poll.
#[derive(Debug)]
pub enum WebLoginStep {
    /// Poll again later.
    Wait,
    /// The session was captured and saved: close the window and report success.
    Done,
    /// Give up with this message, closing the window first when `close_window` is set.
    Fail { message: String, close_window: bool },
}

/// One poll of the sign-in window: it was closed by the player, a session was captured and
/// saved, or the time ran out; in that order.
pub fn web_login_step(window_open: bool, session_saved: bool, past_deadline: bool) -> (s:
    WebLoginStep)
    ensures
        !window_open ==> (s matches WebLoginStep::Fail { message, close_window } && message@
            == LOGIN_WINDOW_CLOSED@ && !close_window),
        window_open && session_saved ==> s is Done,
        window_open && !session_saved && past_deadline ==> (s matches WebLoginStep::Fail {
            message,
            close_window,
        } && message@ == LOGIN_TIMED_OUT@ && close_window),
        window_open && !session_saved && !past_deadline ==> s is Wait,
{
    if !window_open {
        return WebLoginStep::Fail { message: LOGIN_WINDOW_CLOSED.to_owned(), close_window: false };
    }
    if session_saved {
        return WebLoginStep::Done;
    }
    if past_deadline {
        return WebLoginStep::Fail { message: LOGIN_TIMED_OUT.to_owned(), close_window: true };
    }
    WebLoginStep::Wait
}

// ---------------------------------------------------------------------------------------------
// The skins of a player
// ---------------------------------------------------------------------------------------------

/// An Ely.by skin uploaded by the player.
#[derive(Debug, Clone)]
pub struct ElySkinItem {
    pub id: i64,
    pub skin_url: String,
    pub is_slim: bool,
    pub is_active: bool,
}

/// Where the player's Ely.by skin list is cached.
pub fn elyby_skins_cache_path(game_dir: &str, username: &str) -> (p: Vec<String>)
    ensures
        path_view(p@) == seq![
            game_dir@,
            "skins_list_cache"@,
            "elyby_"@ + hex16(default_hash(username@)) + ".json"@,
        ],
{
    let key = crate::skin::cache_key(username);
    let mut name = chars_of("elyby_");
    extend_str(&mut name, key.as_str());
    extend_str(&mut name, ".json");
    let mut p: Vec<String> = Vec::new();
    p.push(game_dir.to_owned());
    p.push("skins_list_cache".to_owned());
    p.push(string_of(name.as_slice()));
    assert(path_view(p@) =~= seq![
        game_dir@,
        "skins_list_cache"@,
        "elyby_"@ + hex16(default_hash(username@)) + ".json"@,
    ]);
    p
}

/// Where the website session is kept, encrypted like the account.
pub fn skin_session_path(game_dir: &str) -> (p: Vec<String>)
    ensures
        path_view(p@) == crate::mods::path_in(game_dir@, "elyby_skin_session.json"@),
{
    crate::mods::join_path(game_dir, "elyby_skin_session.json")
}

/// The texture hash at the end of a skin address: what follows its last `/`.
pub fn skin_url_hash(url: &str) -> (h: Option<String>)
    ensures
        opt_text(h) == Some(after_last(url@, '/')),
{
    let cs = chars_of(url);
    let tail = crate::text::after_last_char(cs.as_slice(), '/');
    Some(string_of(tail.as_slice()))
}

/// Marks as active the skins whose texture hash is that of the skin the player wears; without
/// a known active skin the marks stay as they were.
pub fn mark_active(items: &mut Vec<ElySkinItem>, active_hash: Option<String>)
    ensures
        final(items).len() == old(items).len(),
        forall|i: int|
            0 <= i < final(items).len() ==> {
                &&& (#[trigger] final(items)@[i]).id == old(items)@[i].id
                &&& final(items)@[i].skin_url@ == old(items)@[i].skin_url@
                &&& final(items)@[i].is_slim == old(items)@[i].is_slim
                &&& final(items)@[i].is_active == match active_hash {
                    Some(h) => after_last(old(items)@[i].skin_url@, '/') == h@,
                    None => old(items)@[i].is_active,
                }
            },
{
    let h = match active_hash {
        Some(h) => h,
        None => {
            return;
        },
    };
    let mut i: usize = 0;
    while i < items.len()
        invariant
            i <= items.len(),
            items.len() == old(items).len(),
            active_hash matches Some(a) && a@ == h@,
            forall|k: int|
                i <= k < items.len() ==> #[trigger] items@[k] == old(items)@[k],
            forall|k: int|
                0 <= k < i ==> {
                    &&& (#[trigger] items@[k]).id == old(items)@[k].id
                    &&& items@[k].skin_url@ == old(items)@[k].skin_url@
                    &&& items@[k].is_slim == old(items)@[k].is_slim
                    &&& items@[k].is_active == (after_last(old(items)@[k].skin_url@, '/') == h@)
                },
        decreases items.len() - i,
    {
        let url = chars_of(items[i].skin_url.as_str());
        let tail = crate::text::after_last_char(url.as_slice(), '/');
        let hc = chars_of(h.as_str());
        let same = crate::text::chars_eq(tail.as_slice(), hc.as_slice());
        let item = ElySkinItem {
            id: items[i].id,
            skin_url: items[i].skin_url.clone(),
            is_slim: items[i].is_slim,
            is_active: same,
        };
        items.set(i, item);
        i = i + 1;
    }
}

/// The model name of a skin for the licence server: `alex` for slim arms, else `steve`.
pub fn skin_model(is_slim: bool) -> (m: &'static str)
    ensures
        m@ == if is_slim {
            "alex"@
        } else {
            "steve"@
        },
{
    if is_slim {
        "alex"
    } else {
        "steve"
    }
}

/// The name a skin uploaded elsewhere is recorded under: `Скин #<id>`.
pub fn default_skin_name(id: i64) -> (n: String)
    ensures
        n@ == "Скин #"@ + crate::text::int_text(id as int),
{
    let mut v = chars_of("Скин #");
    let d = crate::text::i64_text(id);
    crate::text::extend_chars(&mut v, d.as_slice());
    string_of(v.as_slice())
}

/// Whether `id` is the Ely.by id of one of the licence server's skins.
pub open spec fn known_on_server(known: Seq<LicenseSkinItem>, id: i64) -> bool {
    exists|j: int| 0 <= j < known.len() && (#[trigger] known[j]).elyby_id == Some(id)
}

/// The positions of the skins the licence server does not know yet, in order: they are sent to
/// it so that skins uploaded outside the launcher get a record there.
pub fn unsynced_skins(items: &Vec<ElySkinItem>, known: &Vec<LicenseSkinItem>) -> (r: Vec<usize>)
    ensures
        forall|k: int| 0 <= k < r.len() ==> (#[trigger] r@[k]) < items.len(),
        forall|k: int, l: int| 0 <= k < l < r.len() ==> (#[trigger] r@[k]) < (#[trigger] r@[l]),
        forall|i: int|
            0 <= i < items.len() ==> (r@.contains(i as usize) <==> !known_on_server(
                known@,
                #[trigger] items@[i].id,
            )),
{
    let mut r: Vec<usize> = Vec::new();
    let mut i: usize = 0;
    while i < items.len()
        invariant
            i <= items.len(),
            forall|k: int| 0 <= k < r.len() ==> (#[trigger] r@[k]) < i,
            forall|k: int, l: int| 0 <= k < l < r.len() ==> (#[trigger] r@[k]) < (#[trigger] r@[l]),
            forall|j: int|
                0 <= j < i ==> (r@.contains(j as usize) <==> !known_on_server(
                    known@,
                    #[trigger] items@[j].id,
                )),
        decreases items.len() - i,
    {
        let id = items[i].id;
        let mut found = false;
        let mut j: usize = 0;
        while j < known.len()
            invariant
                j <= known.len(),
                found <==> exists|m: int| 0 <= m < j && (#[trigger] known@[m]).elyby_id == Some(id),
            decreases known.len() - j,
        {
            match known[j].elyby_id {
                Some(e) => {
                    if e == id {
                        found = true;
                    }
                },
                None => {},
            }
            j = j + 1;
        }
        let ghost before = r@;
        if !found {
            r.push(i);
        }
        proof {
            assert forall|jj: int|
                0 <= jj <= i implies (r@.contains(jj as usize) <==> !known_on_server(
                known@,
                #[trigger] items@[jj].id,
            )) by {
                if jj < i {
                    if r@.contains(jj as usize) && !found {
                        let w = choose|w: int| 0 <= w < r@.len() && r@[w] == jj as usize;
                        if w == r@.len() - 1 {
                            assert(r@[w] == i);
                        } else {
                            assert(before[w] == jj as usize);
                        }
                    }
                    if !found && before.contains(jj as usize) {
                        let w = choose|w: int| 0 <= w < before.len() && before[w] == jj as usize;
                        assert(r@[w] == jj as usize);
                    }
                } else {
                    if !found {
                        assert(r@[r@.len() - 1] == i);
                    } else {
                        if r@.contains(i) {
                            let w = choose|w: int| 0 <= w < r@.len() && r@[w] == i;
                            assert(r@[w] < i);
                        }
                    }
                }
            }
        }
        i = i + 1;
    }
    r
}

// ---------------------------------------------------------------------------------------------
// The website's pages and answers
// ---------------------------------------------------------------------------------------------

pub const PAGE_UNREADABLE: &'static str = "Не удалось разобрать страницу ely.by — возможно, сайт временно недоступен или изменил вёрстку";

/// The JSON of the skin list a player's page embeds as `alight.service.skins = {...};`: the text
/// after the first `=` that follows the marker, leading whitespace removed. A page without it is
/// an error, never an empty list, so that a cache of the real list is not overwritten.
pub open spec fn embedded_skins_json(html: Seq<char>) -> Result<Seq<char>, Seq<char>> {
    match find(html, "alight.service.skins"@) {
        None => Err(PAGE_UNREADABLE@),
        Some(marker) => match crate::text::char_pos(html.skip(marker), '=') {
            None => Err(PAGE_UNREADABLE@),
            Some(eq) => Ok(crate::text::trim_start(html.skip(marker + eq + 1))),
        },
    }
}

pub fn skins_json_text(html: &str) -> (r: Result<String, String>)
    ensures
        match r {
            Ok(j) => embedded_skins_json(html@) == Ok::<Seq<char>, Seq<char>>(j@),
            Err(e) => embedded_skins_json(html@) == Err::<Seq<char>, Seq<char>>(e@),
        },
{
    let hs = chars_of(html);
    let marker_text = chars_of("alight.service.skins");
    let marker = match crate::text::find_chars(hs.as_slice(), marker_text.as_slice()) {
        None => {
            return Err(PAGE_UNREADABLE.to_owned());
        },
        Some(m) => m,
    };
    proof {
        crate::text::lemma_find_in_bounds(hs@, marker_text@);
    }
    let rest = crate::text::slice_chars(hs.as_slice(), marker, hs.len());
    assert(rest@ == hs@.skip(marker as int));
    let mut eq_sign: Vec<char> = Vec::new();
    eq_sign.push('=');
    assert(eq_sign@ =~= seq!['=']);
    let eq = match crate::text::find_chars(rest.as_slice(), eq_sign.as_slice()) {
        None => {
            return Err(PAGE_UNREADABLE.to_owned());
        },
        Some(e) => e,
    };
    proof {
        crate::text::lemma_find_in_bounds(rest@, eq_sign@);
    }
    let start = marker + eq + 1;
    let tail = crate::text::slice_chars(hs.as_slice(), start, hs.len());
    assert(tail@ == hs@.skip(start as int));
    let trimmed = crate::text::trim_start_chars(tail.as_slice());
    Ok(string_of(trimmed.as_slice()))
}

pub const UPLOAD_FAILED: &'static str = "Не удалось загрузить скин на ely.by";

pub const UPLOAD_NO_ID: &'static str = "Не удалось определить id загруженного скина";

pub const UPLOAD_BAD_ID: &'static str = "Некорректный id скина в ответе ely.by";

/// The id of an uploaded skin, from the address the website answers with: the text after the
/// first `/skins/s` up to the next `/`, as a number.
pub open spec fn uploaded_id(url: Option<Seq<char>>) -> Result<int, Seq<char>> {
    match url {
        None => Err(UPLOAD_FAILED@),
        Some(u) => match find(u, "/skins/s"@) {
            None => Err(UPLOAD_NO_ID@),
            Some(i) => {
                let id_text = split_char(u.skip(i + "/skins/s"@.len()), '/')[0];
                match crate::text::parse_int(id_text, i64::MIN as int, i64::MAX as int) {
                    Some(n) => Ok(n),
                    None => Err(UPLOAD_BAD_ID@),
                }
            },
        },
    }
}

pub fn uploaded_skin_id(url: Option<String>) -> (r: Result<i64, String>)
    ensures
        match r {
            Ok(id) => uploaded_id(opt_text(url)) == Ok::<int, Seq<char>>(id as int),
            Err(e) => uploaded_id(opt_text(url)) == Err::<int, Seq<char>>(e@),
        },
{
    let u = match url {
        None => {
            return Err(UPLOAD_FAILED.to_owned());
        },
        Some(u) => u,
    };
    let us = chars_of(u.as_str());
    let needle = chars_of("/skins/s");
    let i = match crate::text::find_chars(us.as_slice(), needle.as_slice()) {
        None => {
            return Err(UPLOAD_NO_ID.to_owned());
        },
        Some(i) => i,
    };
    proof {
        crate::text::lemma_find_in_bounds(us@, needle@);
    }
    assert(i + needle.len() <= us.len());
    let rest = crate::text::slice_chars(us.as_slice(), i + needle.len(), us.len());
    assert(rest@ == us@.skip(i + needle@.len()));
    let pieces = crate::text::split_chars(rest.as_slice(), '/');
    proof {
        crate::text::lemma_split_char_len(rest@, '/');
    }
    match crate::text::parse_i64_chars(pieces[0].as_slice()) {
        Some(n) => Ok(n),
        None => Err(UPLOAD_BAD_ID.to_owned()),
    }
}

// ---------------------------------------------------------------------------------------------
// Percent-encoding
// ---------------------------------------------------------------------------------------------

/// The bytes that stand for themselves in a URL component.
pub open spec fn unreserved(b: u8) -> bool {
    (0x41 <= b <= 0x5a) || (0x61 <= b <= 0x7a) || (0x30 <= b <= 0x39) || b == 0x2d || b == 0x5f
        || b == 0x2e || b == 0x7e
}

/// `%XX` for a byte, upper-case hex.
pub open spec fn percent_byte(b: u8) -> Seq<char> {
    seq!['%', crate::text::hex_upper(b as int / 16), crate::text::hex_upper(b as int % 16)]
}

/// Each byte of the UTF-8 form of the text kept when unreserved, else written `%XX`.
pub open spec fn percent_encoded(bytes: Seq<u8>) -> Seq<char>
    decreases bytes.len(),
{
    if bytes.len() == 0 {
        Seq::<char>::empty()
    } else {
        percent_encoded(bytes.drop_last()) + if unreserved(bytes.last()) {
            seq![bytes.last() as char]
        } else {
            percent_byte(bytes.last())
        }
    }
}

fn hex_upper_digit(d: u8) -> (c: char)
    requires
        d < 16,
    ensures
        c == crate::text::hex_upper(d as int),
{
    if d < 10 {
        (d + ('0' as u8)) as char
    } else {
        (d - 10 + ('A' as u8)) as char
    }
}

/// `value` percent-encoded for a URL path or query component.
pub fn urlencoding_encode(value: &str) -> (r: String)
    ensures
        r@ == percent_encoded(vstd::utf8::encode_utf8(value@)),
{
    let bytes = value.as_bytes();
    let mut out: Vec<char> = Vec::new();
    let mut i: usize = 0;
    while i < bytes.len()
        invariant
            i <= bytes.len(),
            bytes@ == vstd::utf8::encode_utf8(value@),
            out@ == percent_encoded(bytes@.take(i as int)),
        decreases bytes.len() - i,
    {
        let b = bytes[i];
        assert(bytes@.take((i + 1) as int).drop_last() == bytes@.take(i as int));
        assert(bytes@.take((i + 1) as int).last() == b);
        if (0x41 <= b && b <= 0x5a) || (0x61 <= b && b <= 0x7a) || (0x30 <= b && b <= 0x39) || b
            == 0x2d || b == 0x5f || b == 0x2e || b == 0x7e {
            out.push(b as char);
        } else {
            out.push('%');
            out.push(hex_upper_digit(b / 16));
            out.push(hex_upper_digit(b % 16));
        }
        i = i + 1;
    }
    assert(bytes@.take(bytes.len() as int) == bytes@);
    string_of(out.as_slice())
}

} // verus!
