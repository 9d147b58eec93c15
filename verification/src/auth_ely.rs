//! Signing in with Ely.by through the system browser: the launcher listens on a local port
//! for the redirect, checks it, and answers the browser with a small page.
use vstd::prelude::*;

use crate::net::{first_value, last_value, opt_text, pair_texts, parsed_url};
use crate::text::{
    chars_of, ends_with, extend_str, lines_of, starts_with, string_of, trim, words,
};

verus! {

// ---------------------------------------------------------------------------------------------
// The redirect address
// ---------------------------------------------------------------------------------------------

pub const NO_PORT: &'static str = "redirectUri без порта";

/// The local port and path the backend's redirect address points at.
pub open spec fn redirect_target(uri: Seq<char>) -> Result<(u16, Seq<char>), Seq<char>> {
    match parsed_url(uri) {
        Err(e) => Err(e),
        Ok(u) => match u.port {
            None => Err(NO_PORT@),
            Some(p) => Ok((p, u.path)),
        },
    }
}

pub fn parse_redirect_uri(redirect_uri: &str) -> (r: Result<(u16, String), String>)
    ensures
        match r {
            Ok((p, path)) => redirect_target(redirect_uri@) == Ok::<(u16, Seq<char>), Seq<char>>(
                (p, path@),
            ),
            Err(e) => redirect_target(redirect_uri@) == Err::<(u16, Seq<char>), Seq<char>>(e@),
        },
{
    match crate::net::parse_url(redirect_uri) {
        Err(e) => Err(e),
        Ok(u) => match u.port {
            None => Err(NO_PORT.to_owned()),
            Some(p) => Ok((p, u.path)),
        },
    }
}

// ---------------------------------------------------------------------------------------------
// The callback request
// ---------------------------------------------------------------------------------------------

/// The request target of an HTTP request line (its second word), or nothing.
pub open spec fn request_target(line: Seq<char>) -> Seq<char> {
    if words(line).len() > 1 {
        words(line)[1]
    } else {
        Seq::<char>::empty()
    }
}

/// How the listener answers one incoming request.
#[derive(Debug)]
pub enum CallbackStep {
    /// Not the expected redirect (another path, or a state that does not match): answer
    /// `404` and keep listening, so that another local process cannot end a real sign-in.
    Ignore,
    /// Ely.by reports an error: answer with the failure page and stop with this message.
    Denied { message: String },
    /// Stop with this error without answering.
    Abort { error: String },
    /// The sign-in came back: answer with the success page and go on with this code and state.
    Accept { code: String, state: String },
}

pub const MISSING_CODE: &'static str = "Ответ от ely.by без code";

/// What the listener does with the request whose first line is `line`.
pub open spec fn callback_reaction(
    line: Seq<char>,
    expected_path: Seq<char>,
    expected_state: Seq<char>,
    step: CallbackStep,
) -> bool {
    match parsed_url("http://localhost"@ + request_target(line)) {
        Err(e) => step matches CallbackStep::Abort { error } && error@ == e,
        Ok(u) => {
            let q = u.query;
            if u.path != expected_path || last_value(q, "state"@) != Some(expected_state) {
                step is Ignore
            } else {
                match last_value(q, "error"@) {
                    Some(err) => step matches CallbackStep::Denied { message } && message@ == match last_value(
                        q,
                        "error_description"@,
                    ) {
                        Some(d) => d,
                        None => err,
                    },
                    None => match last_value(q, "code"@) {
                        None => step matches CallbackStep::Abort { error } && error@ == MISSING_CODE@,
                        Some(c) => step matches CallbackStep::Accept { code, state } && code@ == c
                            && state@ == expected_state,
                    },
                }
            }
        },
    }
}

/// The second word of `line`, or nothing.
fn target_of(line: &str) -> (t: String)
    ensures
        t@ == request_target(line@),
{
    let ws = crate::text::split_ws(line);
    assert(ws@.map_values(|w: String| w@).len() == ws@.len());
    if ws.len() > 1 {
        assert(ws@.map_values(|w: String| w@)[1] == ws@[1]@);
        ws[1].clone()
    } else {
        String::new()
    }
}

/// Decides the answer to the request whose first line is `request_line`.
pub fn accept_callback_request(request_line: &str, expected_path: &str, expected_state: &str) -> (step:
    CallbackStep)
    ensures
        callback_reaction(request_line@, expected_path@, expected_state@, step),
{
    let target = target_of(request_line);
    let full = crate::text::concat("http://localhost", target.as_str());
    match crate::net::parse_url(full.as_str()) {
        Err(e) => CallbackStep::Abort { error: e },
        Ok(u) => {
            if !crate::text::str_eq(u.path.as_str(), expected_path) {
                return CallbackStep::Ignore;
            }
            let state = crate::net::query_last(&u.query, "state");
            let state_ok = match &state {
                Some(s) => crate::text::str_eq(s.as_str(), expected_state),
                None => false,
            };
            if !state_ok {
                return CallbackStep::Ignore;
            }
            match crate::net::query_last(&u.query, "error") {
                Some(err) => {
                    let message = match crate::net::query_last(&u.query, "error_description") {
                        Some(d) => d,
                        None => err,
                    };
                    CallbackStep::Denied { message }
                },
                None => match crate::net::query_last(&u.query, "code") {
                    None => CallbackStep::Abort { error: MISSING_CODE.to_owned() },
                    Some(code) => CallbackStep::Accept { code, state: expected_state.to_owned() },
                },
            }
        },
    }
}

pub const LOGIN_CANCELLED: &'static str = "Вход отменён";

pub const LOGIN_TIMED_OUT: &'static str = "Истекло время ожидания входа через ely.by";

/// How long the listener waits for the browser, in seconds.
pub const CALLBACK_DEADLINE_SECS: u64 = 300;

/// While no request has come: stop when the player cancelled, or when more than the deadline
/// has passed (`elapsed` is `secs` seconds and `nanos` nanoseconds); else keep waiting.
pub fn idle_step(cancelled: bool, elapsed_secs: u64, elapsed_nanos: u32) -> (r: Option<String>)
    ensures
        cancelled ==> (r matches Some(m) && m@ == LOGIN_CANCELLED@),
        !cancelled && (elapsed_secs > CALLBACK_DEADLINE_SECS || (elapsed_secs
            == CALLBACK_DEADLINE_SECS && elapsed_nanos > 0)) ==> (r matches Some(m) && m@
            == LOGIN_TIMED_OUT@),
        !cancelled && !(elapsed_secs > CALLBACK_DEADLINE_SECS || (elapsed_secs
            == CALLBACK_DEADLINE_SECS && elapsed_nanos > 0)) ==> r is None,
{
    if cancelled {
        return Some(LOGIN_CANCELLED.to_owned());
    }
    if elapsed_secs > CALLBACK_DEADLINE_SECS || (elapsed_secs == CALLBACK_DEADLINE_SECS
        && elapsed_nanos > 0) {
        return Some(LOGIN_TIMED_OUT.to_owned());
    }
    None
}

pub const STATE_MISMATCH: &'static str = "Некорректный state — возможная подмена ответа (CSRF)";

/// The state that came back must be the one sent out.
pub fn check_state(returned: &str, sent: &str) -> (r: Result<(), String>)
    ensures
        r is Ok <==> returned@ == sent@,
        r matches Err(e) ==> e@ == STATE_MISMATCH@,
{
    if crate::text::str_eq(returned, sent) {
        Ok(())
    } else {
        Err(STATE_MISMATCH.to_owned())
    }
}

// ---------------------------------------------------------------------------------------------
// The answer to the browser
// ---------------------------------------------------------------------------------------------

/// The HTTP response carrying `body`: status `200 OK` or, for any other code, `<code> Not Found`.
pub open spec fn response_text(status: u16, body: Seq<char>) -> Seq<char> {
    "HTTP/1.1 "@ + crate::text::decimal(status as nat) + seq![' '] + (if status == 200 {
        "OK"@
    } else {
        "Not Found"@
    }) + "\r\nContent-Type: text/html; charset=utf-8\r\nContent-Length: "@ + crate::text::decimal(
        (vstd::utf8::encode_utf8(body).len() as usize) as nat,
    ) + "\r\nConnection: close\r\n\r\n"@ + body
}

pub fn http_response(status: u16, body: &str) -> (r: String)
    ensures
        r@ == response_text(status, body@),
{
    let mut v = chars_of("HTTP/1.1 ");
    let code = crate::text::u64_text(status as u64);
    crate::text::extend_chars(&mut v, code.as_slice());
    v.push(' ');
    if status == 200 {
        extend_str(&mut v, "OK");
    } else {
        extend_str(&mut v, "Not Found");
    }
    extend_str(&mut v, "\r\nContent-Type: text/html; charset=utf-8\r\nContent-Length: ");
    let n: usize = body.len();
    let len = crate::text::u64_text(n as u64);
    crate::text::extend_chars(&mut v, len.as_slice());
    extend_str(&mut v, "\r\nConnection: close\r\n\r\n");
    extend_str(&mut v, body);
    string_of(v.as_slice())
}

pub const PAGE_START: &'static str = "<!doctype html><html><head><meta charset=\"utf-8\"><title>";

pub const PAGE_STYLE: &'static str = "</title><style>body{background:#141317;color:#f3f1f4;font-family:system-ui,sans-serif;display:flex;align-items:center;justify-content:center;height:100vh;margin:0}div{text-align:center;max-width:360px;padding:24px}svg{margin-bottom:16px}h1{font-size:20px;margin:0 0 8px}p{color:#9a95a1;margin:0}</style></head><body><div><svg width=\"48\" height=\"48\" viewBox=\"0 0 24 24\" fill=\"";

pub const OK_TITLE: &'static str = "Готово";

pub const OK_TEXT: &'static str = "Вход выполнен — можно закрыть эту вкладку и вернуться в лаунчер";

pub const OK_ICON: &'static str = "<circle cx=\"12\" cy=\"12\" r=\"10\"/><path d=\"m8 12 3 3 5-6\" stroke=\"#141317\" stroke-width=\"2\" fill=\"none\" stroke-linecap=\"round\" stroke-linejoin=\"round\"/>";

pub const OK_COLOR: &'static str = "#ff5f5f";

pub const FAIL_TITLE: &'static str = "Не удалось войти";

pub const FAIL_TEXT: &'static str = "Вход через ely.by не завершён — можно закрыть эту вкладку и попробовать снова в лаунчере";

pub const FAIL_ICON: &'static str = "<circle cx=\"12\" cy=\"12\" r=\"10\"/><path d=\"M9 9l6 6m0-6-6 6\" stroke=\"#141317\" stroke-width=\"2\" fill=\"none\" stroke-linecap=\"round\"/>";

pub const FAIL_COLOR: &'static str = "#ef4444";

/// The page shown in the browser after the redirect.
pub open spec fn page_html(title: Seq<char>, text: Seq<char>, icon: Seq<char>, color: Seq<char>) -> Seq<
    char,
> {
    PAGE_START@ + title + PAGE_STYLE@ + color + "\">"@ + icon + "</svg><h1>"@ + title
        + "</h1><p>"@ + text + "</p></div></body></html>"@
}

pub fn success_page(ok: bool) -> (page: String)
    ensures
        ok ==> page@ == page_html(OK_TITLE@, OK_TEXT@, OK_ICON@, OK_COLOR@),
        !ok ==> page@ == page_html(FAIL_TITLE@, FAIL_TEXT@, FAIL_ICON@, FAIL_COLOR@),
{
    let (title, text, icon, color) = if ok {
        (OK_TITLE, OK_TEXT, OK_ICON, OK_COLOR)
    } else {
        (FAIL_TITLE, FAIL_TEXT, FAIL_ICON, FAIL_COLOR)
    };
    let mut v = chars_of(PAGE_START);
    extend_str(&mut v, title);
    extend_str(&mut v, PAGE_STYLE);
    extend_str(&mut v, color);
    extend_str(&mut v, "\">");
    extend_str(&mut v, icon);
    extend_str(&mut v, "</svg><h1>");
    extend_str(&mut v, title);
    extend_str(&mut v, "</h1><p>");
    extend_str(&mut v, text);
    extend_str(&mut v, "</p></div></body></html>");
    string_of(v.as_slice())
}

// ---------------------------------------------------------------------------------------------
// A busy port
// ---------------------------------------------------------------------------------------------

/// `str::to_uppercase`: the full Unicode upper-case mapping of `s`.
pub uninterp spec fn upper_text(s: Seq<char>) -> Seq<char>;

/// `str::to_uppercase`. Claimed: the result is `upper_text` of the text, that is, it depends
/// on the text alone.
#[verifier::external_body]
fn to_upper(s: &str) -> (r: String)
    ensures
        r@ == upper_text(s@),
{
    s.to_uppercase()
}

/// The process id on a `netstat -ano` line for a TCP socket listening on `port`: the line is
/// upper-cased to test for `TCP` and `LISTENING`, its second column ends in `:<port>`, and its
/// last column is the number.
pub open spec fn listening_pid(line: Seq<char>, port: u16) -> Option<u32> {
    let t = trim(line);
    let up = upper_text(t);
    let parts = words(t);
    if starts_with(up, "TCP"@) && crate::text::contains(up, "LISTENING"@) && parts.len() > 1
        && ends_with(parts[1], seq![':'] + crate::text::decimal(port as nat)) {
        match crate::text::parse_int(parts.last(), 0, u32::MAX as int) {
            Some(n) => Some(n as u32),
            None => None,
        }
    } else {
        None
    }
}

/// The first pid that a line of `lines` yields.
pub open spec fn first_pid(lines: Seq<Seq<char>>, port: u16) -> Option<u32>
    decreases lines.len(),
{
    if lines.len() == 0 {
        None
    } else {
        match listening_pid(lines[0], port) {
            Some(p) => Some(p),
            None => first_pid(lines.skip(1), port),
        }
    }
}

fn line_pid(line: &[char], port: u16) -> (r: Option<u32>)
    ensures
        r == listening_pid(line@, port),
{
    let t = crate::text::trim_chars(line);
    let ts = string_of(t.as_slice());
    let up = to_upper(ts.as_str());
    let parts = crate::text::split_ws(ts.as_str());
    let ghost pv = parts@.map_values(|w: String| w@);
    if !crate::text::str_starts_with(up.as_str(), "TCP") || !crate::text::str_contains(
        up.as_str(),
        "LISTENING",
    ) || parts.len() <= 1 {
        return None;
    }
    assert(pv[1] == parts@[1]@);
    let mut suffix: Vec<char> = Vec::new();
    suffix.push(':');
    let d = crate::text::u64_text(port as u64);
    crate::text::extend_chars(&mut suffix, d.as_slice());
    assert(suffix@ =~= seq![':'] + crate::text::decimal(port as nat));
    let second = chars_of(parts[1].as_str());
    if !crate::text::chars_ends_with(second.as_slice(), suffix.as_slice()) {
        return None;
    }
    let last = chars_of(parts[parts.len() - 1].as_str());
    assert(pv.last() == parts@[parts.len() - 1]@);
    crate::text::parse_u32_chars(last.as_slice())
}

/// The process id listening on `port`, read from the output of `netstat -ano -p TCP`.
pub fn netstat_listening_pid(text: &str, port: u16) -> (r: Option<u32>)
    ensures
        r == first_pid(lines_of(text@), port),
{
    let cs = chars_of(text);
    let lines = crate::text::lines_chars(cs.as_slice());
    let ghost ls = lines_of(text@);
    let mut i: usize = 0;
    assert(ls.skip(0) =~= ls);
    while i < lines.len()
        invariant
            i <= lines.len(),
            ls == lines@.map_values(|l: Vec<char>| l@),
            ls == lines_of(text@),
            first_pid(ls, port) == first_pid(ls.skip(i as int), port),
        decreases lines.len() - i,
    {
        assert(ls.skip(i as int)[0] == lines@[i as int]@);
        assert(ls.skip(i as int).skip(1) =~= ls.skip(i + 1));
        match line_pid(lines[i].as_slice(), port) {
            Some(p) => {
                assert(first_pid(ls.skip(i as int), port) == Some(p));
                return Some(p);
            },
            None => {},
        }
        i = i + 1;
    }
    None
}

/// `s` without the `"` characters at either end.
pub open spec fn unquoted(s: Seq<char>) -> Seq<char>
    decreases s.len(),
{
    if s.len() > 0 && s[0] == '"' {
        unquoted(s.skip(1))
    } else if s.len() > 0 && s.last() == '"' {
        unquoted(s.drop_last())
    } else {
        s
    }
}

fn unquote(s: &[char]) -> (r: Vec<char>)
    ensures
        r@ == unquoted(s@),
{
    let mut a: usize = 0;
    let mut b: usize = s.len();
    assert(s@.subrange(0, s@.len() as int) =~= s@);
    while a < b && s[a] == '"'
        invariant
            a <= b <= s.len(),
            b == s.len(),
            unquoted(s@) == unquoted(s@.subrange(a as int, b as int)),
        decreases b - a,
    {
        assert(s@.subrange(a as int, b as int).skip(1) =~= s@.subrange(a + 1, b as int));
        a = a + 1;
    }
    while a < b && s[b - 1] == '"'
        invariant
            a <= b <= s.len(),
            a == b || s@[a as int] != '"',
            unquoted(s@) == unquoted(s@.subrange(a as int, b as int)),
        decreases b - a,
    {
        assert(s@.subrange(a as int, b as int).drop_last() =~= s@.subrange(a as int, b - 1));
        a = a;
        b = b - 1;
    }
    crate::text::slice_chars(s, a, b)
}

/// The image name on the first line of `tasklist /FO CSV /NH` output: its first field without
/// quotes, if that is not empty.
pub open spec fn task_name(text: Seq<char>) -> Option<Seq<char>> {
    let ls = lines_of(text);
    if ls.len() == 0 {
        None
    } else {
        let name = unquoted(crate::text::split_char(ls[0], ',')[0]);
        if name.len() == 0 {
            None
        } else {
            Some(name)
        }
    }
}

pub fn tasklist_image_name(text: &str) -> (r: Option<String>)
    ensures
        opt_text(r) == task_name(text@),
{
    let cs = chars_of(text);
    let lines = crate::text::lines_chars(cs.as_slice());
    if lines.len() == 0 {
        return None;
    }
    assert(lines_of(text@)[0] == lines@[0]@);
    let fields = crate::text::split_chars(lines[0].as_slice(), ',');
    proof {
        crate::text::lemma_split_char_len(lines@[0]@, ',');
    }
    let name = unquote(fields[0].as_slice());
    if name.len() == 0 {
        None
    } else {
        Some(string_of(name.as_slice()))
    }
}

/// The error for a port the listener could not take, naming the program holding it when known.
pub open spec fn port_busy_text(port: u16, owner: Option<Seq<char>>, err: Seq<char>) -> Seq<char> {
    let p = crate::text::decimal(port as nat);
    let hint = match owner {
        Some(name) => "Порт "@ + p + " занят приложением \""@ + name
            + "\". Закройте его и попробуйте снова, либо перезагрузите компьютер"@,
        None => "Порт "@ + p
            + " занят другим приложением на вашем компьютере. Закройте лишние программы (антивирус, другие лаунчеры, торрент-клиенты) или перезагрузите компьютер и попробуйте снова"@,
    };
    "Не удалось занять порт "@ + p + " для приёма входа от ely.by: "@ + hint + " ("@ + err + ")"@
}

pub fn port_busy_message(port: u16, owner: Option<String>, err: &str) -> (m: String)
    ensures
        m@ == port_busy_text(port, opt_text(owner), err@),
{
    let p = crate::text::u64_text(port as u64);
    let mut hint = chars_of("Порт ");
    crate::text::extend_chars(&mut hint, p.as_slice());
    match &owner {
        Some(name) => {
            extend_str(&mut hint, " занят приложением \"");
            extend_str(&mut hint, name.as_str());
            extend_str(&mut hint, "\". Закройте его и попробуйте снова, либо перезагрузите компьютер");
        },
        None => {
            extend_str(
                &mut hint,
                " занят другим приложением на вашем компьютере. Закройте лишние программы (антивирус, другие лаунчеры, торрент-клиенты) или перезагрузите компьютер и попробуйте снова",
            );
        },
    }
    let mut v = chars_of("Не удалось занять порт ");
    crate::text::extend_chars(&mut v, p.as_slice());
    extend_str(&mut v, " для приёма входа от ely.by: ");
    crate::text::extend_chars(&mut v, hint.as_slice());
    extend_str(&mut v, " (");
    extend_str(&mut v, err);
    extend_str(&mut v, ")");
    string_of(v.as_slice())
}

// ---------------------------------------------------------------------------------------------
// The backend's answers
// ---------------------------------------------------------------------------------------------

/// The backend's answer to the code exchange.
#[derive(Debug, Clone)]
pub struct ElyExchangeResponse {
    pub success: bool,
    pub access_token: Option<String>,
    pub username: Option<String>,
    pub uuid: Option<String>,
    pub error: Option<String>,
}

pub const EXCHANGE_FAILED: &'static str = "Вход через ely.by не удался";

pub const NO_ACCESS_TOKEN: &'static str = "Ответ сервера без accessToken";

pub const NO_USERNAME: &'static str = "Ответ сервера без username";

pub const NO_UUID: &'static str = "Ответ сервера без uuid";

impl ElyExchangeResponse {
    /// The access token, username and uuid of a successful exchange, or the first thing wrong.
    pub fn into_credentials(self) -> (r: Result<(String, String, String), String>)
        ensures
            !self.success ==> (r matches Err(e) && e@ == match self.error {
                Some(m) => m@,
                None => EXCHANGE_FAILED@,
            }),
            self.success && self.access_token is None ==> (r matches Err(e) && e@
                == NO_ACCESS_TOKEN@),
            self.success && self.access_token is Some && self.username is None ==> (r matches Err(
                e,
            ) && e@ == NO_USERNAME@),
            self.success && self.access_token is Some && self.username is Some && self.uuid is None
                ==> (r matches Err(e) && e@ == NO_UUID@),
            self.success && self.access_token is Some && self.username is Some && self.uuid is Some
                ==> (r matches Ok((t, n, u)) && t@ == self.access_token->0@ && n@
                == self.username->0@ && u@ == self.uuid->0@),
    {
        if !self.success {
            return Err(
                match self.error {
                    Some(m) => m,
                    None => EXCHANGE_FAILED.to_owned(),
                },
            );
        }
        let access_token = match self.access_token {
            Some(t) => t,
            None => {
                return Err(NO_ACCESS_TOKEN.to_owned());
            },
        };
        let username = match self.username {
            Some(n) => n,
            None => {
                return Err(NO_USERNAME.to_owned());
            },
        };
        let uuid = match self.uuid {
            Some(u) => u,
            None => {
                return Err(NO_UUID.to_owned());
            },
        };
        Ok((access_token, username, uuid))
    }
}

/// The backend's answer about a player's skin.
#[derive(Debug, Clone)]
pub struct SkinInfoResponse {
    pub success: bool,
    pub skin_url: Option<String>,
}

/// The skin address from the backend's answer, if the request went through and succeeded.
pub fn skin_from_info(info: Option<SkinInfoResponse>) -> (r: Option<String>)
    ensures
        opt_text(r) == match info {
            Some(i) => if i.success {
                opt_text(i.skin_url)
            } else {
                None
            },
            None => None,
        },
{
    match info {
        Some(i) => if i.success {
            i.skin_url
        } else {
            None
        },
        None => None,
    }
}

/// A request that does not carry the state the sign-in was started with is only ever answered
/// `404` and waited past: another local process that reaches the port first cannot end or
/// decide a real sign-in.
pub proof fn mismatched_state_is_ignored(
    line: Seq<char>,
    expected_path: Seq<char>,
    expected_state: Seq<char>,
    step: CallbackStep,
)
    requires
        callback_reaction(line, expected_path, expected_state, step),
        parsed_url("http://localhost"@ + request_target(line)) matches Ok(u) && last_value(
            u.query,
            "state"@,
        ) != Some(expected_state),
    ensures
        step is Ignore,
{
}

} // verus!
