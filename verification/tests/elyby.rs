use lemicraft_launcher::auth_ely::{
    accept_callback_request, check_state, http_response, idle_step, netstat_listening_pid,
    parse_redirect_uri, port_busy_message, skin_from_info, success_page, tasklist_image_name,
    CallbackStep, ElyExchangeResponse, SkinInfoResponse, EXCHANGE_FAILED, LOGIN_CANCELLED,
    LOGIN_TIMED_OUT, MISSING_CODE, NO_ACCESS_TOKEN, NO_PORT, NO_USERNAME, NO_UUID,
    STATE_MISMATCH,
};

#[test]
fn redirect_address() {
    assert_eq!(parse_redirect_uri("http://127.0.0.1:8765/callback"), Ok((8765, "/callback".to_string())));
    assert_eq!(parse_redirect_uri("http://localhost/callback"), Err(NO_PORT.to_string()));
    assert_eq!(parse_redirect_uri("not a url"), Err("relative URL without a base".to_string()));
}

#[test]
fn callback_requests() {
    match accept_callback_request("GET /callback?code=abc&state=s1 HTTP/1.1\r\n", "/callback", "s1") {
        CallbackStep::Accept { code, state } => {
            assert_eq!(code, "abc");
            assert_eq!(state, "s1");
        }
        other => panic!("unexpected {:?}", other),
    }
    assert!(matches!(
        accept_callback_request("GET /favicon.ico HTTP/1.1", "/callback", "s1"),
        CallbackStep::Ignore
    ));
    assert!(matches!(
        accept_callback_request("GET /callback?code=abc&state=evil HTTP/1.1", "/callback", "s1"),
        CallbackStep::Ignore
    ));
    assert!(matches!(accept_callback_request("", "/callback", "s1"), CallbackStep::Ignore));
    match accept_callback_request(
        "GET /callback?state=s1&error=denied&error_description=User%20said%20no HTTP/1.1",
        "/callback",
        "s1",
    ) {
        CallbackStep::Denied { message } => assert_eq!(message, "User said no"),
        other => panic!("unexpected {:?}", other),
    }
    match accept_callback_request("GET /callback?state=s1&error=denied HTTP/1.1", "/callback", "s1") {
        CallbackStep::Denied { message } => assert_eq!(message, "denied"),
        other => panic!("unexpected {:?}", other),
    }
    match accept_callback_request("GET /callback?state=s1 HTTP/1.1", "/callback", "s1") {
        CallbackStep::Abort { error } => assert_eq!(error, MISSING_CODE),
        other => panic!("unexpected {:?}", other),
    }
    // a later value of a repeated parameter wins
    match accept_callback_request("GET /callback?state=x&state=s1&code=1&code=2 HTTP/1.1", "/callback", "s1") {
        CallbackStep::Accept { code, .. } => assert_eq!(code, "2"),
        other => panic!("unexpected {:?}", other),
    }
}

#[test]
fn waiting_for_the_browser() {
    assert_eq!(idle_step(true, 0, 0), Some(LOGIN_CANCELLED.to_string()));
    assert_eq!(idle_step(false, 300, 0), None);
    assert_eq!(idle_step(false, 300, 1), Some(LOGIN_TIMED_OUT.to_string()));
    assert_eq!(idle_step(false, 301, 0), Some(LOGIN_TIMED_OUT.to_string()));
    assert_eq!(check_state("a", "a"), Ok(()));
    assert_eq!(check_state("a", "b"), Err(STATE_MISMATCH.to_string()));
}

#[test]
fn browser_answers() {
    assert_eq!(
        http_response(200, "ок"),
        "HTTP/1.1 200 OK\r\nContent-Type: text/html; charset=utf-8\r\nContent-Length: 4\r\nConnection: close\r\n\r\nок"
    );
    assert_eq!(
        http_response(404, "Not found"),
        "HTTP/1.1 404 Not Found\r\nContent-Type: text/html; charset=utf-8\r\nContent-Length: 9\r\nConnection: close\r\n\r\nNot found"
    );
    let ok = success_page(true);
    assert!(ok.starts_with("<!doctype html><html><head><meta charset=\"utf-8\"><title>Готово</title><style>"));
    assert!(ok.contains("fill=\"#ff5f5f\"><circle"));
    assert!(ok.ends_with("<h1>Готово</h1><p>Вход выполнен — можно закрыть эту вкладку и вернуться в лаунчер</p></div></body></html>"));
    let fail = success_page(false);
    assert!(fail.contains("<title>Не удалось войти</title>"));
    assert!(fail.contains("fill=\"#ef4444\""));
}

#[test]
fn busy_port_owner() {
    let netstat = "\r\nActive Connections\r\n\r\n  Proto  Local Address          Foreign Address        State           PID\r\n  TCP    0.0.0.0:18765          0.0.0.0:0              LISTENING       5\r\n  TCP    0.0.0.0:8765           0.0.0.0:0              LISTENING       4321\r\n  tcp    127.0.0.1:9000         0.0.0.0:0              listening       77\r\n  TCP    127.0.0.1:7000         1.2.3.4:443            ESTABLISHED     8\r\n";
    assert_eq!(netstat_listening_pid(netstat, 8765), Some(4321));
    assert_eq!(netstat_listening_pid(netstat, 9000), Some(77));
    assert_eq!(netstat_listening_pid(netstat, 7000), None);
    assert_eq!(netstat_listening_pid(netstat, 1), None);
    assert_eq!(
        tasklist_image_name("\"javaw.exe\",\"4321\",\"Console\",\"1\",\"120 000 K\"\r\n"),
        Some("javaw.exe".to_string())
    );
    assert_eq!(tasklist_image_name(""), None);
    assert_eq!(tasklist_image_name("\"\",\"1\"\r\n"), None);
    assert_eq!(
        port_busy_message(8765, Some("javaw.exe".to_string()), "os error 10048"),
        "Не удалось занять порт 8765 для приёма входа от ely.by: Порт 8765 занят приложением \"javaw.exe\". Закройте его и попробуйте снова, либо перезагрузите компьютер (os error 10048)"
    );
    assert!(port_busy_message(80, None, "e").starts_with("Не удалось занять порт 80 для приёма входа от ely.by: Порт 80 занят другим приложением"));
}

fn exchange(success: bool, token: Option<&str>, user: Option<&str>, uuid: Option<&str>, error: Option<&str>) -> ElyExchangeResponse {
    ElyExchangeResponse {
        success,
        access_token: token.map(|s| s.to_string()),
        username: user.map(|s| s.to_string()),
        uuid: uuid.map(|s| s.to_string()),
        error: error.map(|s| s.to_string()),
    }
}

#[test]
fn exchange_answers() {
    assert_eq!(
        exchange(true, Some("t"), Some("Steve"), Some("u"), None).into_credentials(),
        Ok(("t".to_string(), "Steve".to_string(), "u".to_string()))
    );
    assert_eq!(exchange(false, None, None, None, Some("bad code")).into_credentials(), Err("bad code".to_string()));
    assert_eq!(exchange(false, None, None, None, None).into_credentials(), Err(EXCHANGE_FAILED.to_string()));
    assert_eq!(exchange(true, None, Some("s"), Some("u"), None).into_credentials(), Err(NO_ACCESS_TOKEN.to_string()));
    assert_eq!(exchange(true, Some("t"), None, Some("u"), None).into_credentials(), Err(NO_USERNAME.to_string()));
    assert_eq!(exchange(true, Some("t"), Some("s"), None, None).into_credentials(), Err(NO_UUID.to_string()));
    assert_eq!(
        skin_from_info(Some(SkinInfoResponse { success: true, skin_url: Some("x.png".to_string()) })),
        Some("x.png".to_string())
    );
    assert_eq!(skin_from_info(Some(SkinInfoResponse { success: false, skin_url: Some("x.png".to_string()) })), None);
    assert_eq!(skin_from_info(None), None);
}
