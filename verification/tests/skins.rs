use lemicraft_launcher::skin::{
    cache_is_fresh, cache_key, check_resolved, check_skin_length, hex16_text, image_cache_dir,
    is_private_or_local, live_or_cached, session_username, skin_data_uri, skin_host_target,
    skins_list_cache_path, IpAddress, BAD_SKIN_ADDRESS, NOT_AN_IMAGE, NO_CURRENT_ACCOUNT,
    SKIN_TOO_LARGE,
};
use lemicraft_launcher::skin_elyby::{
    check_captured_session, check_session_expired, default_skin_name, delete_outcome,
    elyby_skins_cache_path, mark_active, session_from_cookies, session_or_err, skin_metadata_form,
    skin_model, skin_session_path, skin_url_hash, skins_json_text, unsynced_skins,
    uploaded_skin_id, urlencoding_encode, wear_elyby_skin_blocking, wear_form, web_login_step,
    ElySkinItem, SkinSession, WebLoginStep, LOGIN_TIMED_OUT, LOGIN_WINDOW_CLOSED, NO_SESSION,
    PAGE_UNREADABLE, SESSION_EXPIRED, SESSION_NOT_CAPTURED, UPLOAD_BAD_ID, UPLOAD_FAILED,
    UPLOAD_NO_ID,
};
use lemicraft_launcher::skin::LicenseSkinItem;

fn pairs(v: &[(&str, &str)]) -> Vec<(String, String)> {
    v.iter().map(|(a, b)| (a.to_string(), b.to_string())).collect()
}

#[test]
fn cache_keys_are_sixteen_hex_digits() {
    let k = cache_key("Steve");
    assert_eq!(k.len(), 16);
    assert!(k.chars().all(|c| c.is_ascii_hexdigit() && !c.is_ascii_uppercase()));
    assert_eq!(cache_key("Steve"), k);
    assert_ne!(cache_key("Alex"), k);
    assert_eq!(hex16_text(0x1f).into_iter().collect::<String>(), "000000000000001f");
    assert_eq!(hex16_text(u64::MAX).into_iter().collect::<String>(), "ffffffffffffffff");
    assert_eq!(hex16_text(0x0123456789abcdef).into_iter().collect::<String>(), "0123456789abcdef");
}

#[test]
fn skin_cache_locations() {
    assert_eq!(image_cache_dir("/g"), vec!["/g".to_string(), "skin_image_cache".to_string()]);
    assert_eq!(
        skins_list_cache_path("/g", "Steve"),
        vec!["/g".to_string(), "skins_list_cache".to_string(), format!("license_{}.json", cache_key("Steve"))]
    );
    assert_eq!(
        elyby_skins_cache_path("/g", "Steve"),
        vec!["/g".to_string(), "skins_list_cache".to_string(), format!("elyby_{}.json", cache_key("Steve"))]
    );
    assert_eq!(skin_session_path("/g"), vec!["/g".to_string(), "elyby_skin_session.json".to_string()]);
}

#[test]
fn cache_freshness_and_fallback() {
    assert!(cache_is_fresh(Some((3600, 0)), 3600));
    assert!(!cache_is_fresh(Some((3600, 1)), 3600));
    assert!(cache_is_fresh(Some((0, 5)), 3600));
    assert!(!cache_is_fresh(None, 3600));
    assert_eq!(live_or_cached(Ok(1), Some(2)), Ok(1));
    assert_eq!(live_or_cached(Err::<i32, String>("e".to_string()), Some(2)), Ok(2));
    assert_eq!(live_or_cached(Err::<i32, String>("e".to_string()), None), Err("e".to_string()));
}

#[test]
fn local_addresses_are_refused() {
    let v4 = |a, b, c, d| IpAddress::V4([a, b, c, d]);
    assert!(is_private_or_local(v4(127, 0, 0, 1)));
    assert!(is_private_or_local(v4(10, 1, 2, 3)));
    assert!(is_private_or_local(v4(172, 16, 0, 1)));
    assert!(is_private_or_local(v4(172, 31, 255, 255)));
    assert!(!is_private_or_local(v4(172, 32, 0, 1)));
    assert!(is_private_or_local(v4(192, 168, 1, 1)));
    assert!(is_private_or_local(v4(169, 254, 1, 1)));
    assert!(is_private_or_local(v4(0, 0, 0, 0)));
    assert!(is_private_or_local(v4(255, 255, 255, 255)));
    assert!(!is_private_or_local(v4(8, 8, 8, 8)));
    assert!(is_private_or_local(IpAddress::V6([0, 0, 0, 0, 0, 0, 0, 1])));
    assert!(is_private_or_local(IpAddress::V6([0; 8])));
    assert!(is_private_or_local(IpAddress::V6([0xfe80, 0, 0, 0, 0, 0, 0, 1])));
    assert!(is_private_or_local(IpAddress::V6([0xfd00, 0, 0, 0, 0, 0, 0, 1])));
    assert!(is_private_or_local(IpAddress::V6([0, 0, 0, 0, 0, 0xffff, 0x7f00, 0x0001])));
    assert!(!is_private_or_local(IpAddress::V6([0, 0, 0, 0, 0, 0xffff, 0x0808, 0x0808])));
    assert!(!is_private_or_local(IpAddress::V6([0x2001, 0xdb8, 0, 0, 0, 0, 0, 1])));
    assert_eq!(check_resolved(&vec![]), Err(BAD_SKIN_ADDRESS.to_string()));
    assert_eq!(check_resolved(&vec![v4(8, 8, 8, 8)]), Ok(()));
    assert_eq!(check_resolved(&vec![v4(8, 8, 8, 8), v4(10, 0, 0, 1)]), Err(BAD_SKIN_ADDRESS.to_string()));
}

#[test]
fn skin_host_targets() {
    assert_eq!(skin_host_target("https://ely.by/storage/skins/a.png"), Ok(("ely.by".to_string(), 443)));
    assert_eq!(skin_host_target("http://x.y:8080/a.png"), Ok(("x.y".to_string(), 8080)));
    assert_eq!(skin_host_target("http://x.y/a.png"), Ok(("x.y".to_string(), 80)));
    assert_eq!(skin_host_target("ftp://x.y/a.png"), Err(BAD_SKIN_ADDRESS.to_string()));
    assert_eq!(skin_host_target("not a url"), Err(BAD_SKIN_ADDRESS.to_string()));
}

#[test]
fn skin_images() {
    assert_eq!(check_skin_length(None), Ok(()));
    assert_eq!(check_skin_length(Some(20971520)), Ok(()));
    assert_eq!(check_skin_length(Some(20971521)), Err(SKIN_TOO_LARGE.to_string()));
    assert_eq!(skin_data_uri(None, b"hi"), Ok("data:image/png;base64,aGk=".to_string()));
    assert_eq!(skin_data_uri(Some("image/webp".to_string()), b"abc"), Ok("data:image/webp;base64,YWJj".to_string()));
    assert_eq!(skin_data_uri(Some("text/html".to_string()), b"hi"), Err(NOT_AN_IMAGE.to_string()));
    assert_eq!(session_username(None), Err(NO_CURRENT_ACCOUNT.to_string()));
    assert_eq!(
        session_username(Some(("u".to_string(), "Steve".to_string(), "t".to_string(), "Ely.by".to_string()))),
        Ok("Steve".to_string())
    );
}

fn session(php: Option<&str>, identity: Option<&str>) -> SkinSession {
    SkinSession { php_sess_id: php.map(|s| s.to_string()), identity: identity.map(|s| s.to_string()) }
}

#[test]
fn website_sessions() {
    assert_eq!(session(Some("a"), Some("b")).cookie_header(), "PHPSESSID=a; identity=b");
    assert_eq!(session(Some("a"), None).cookie_header(), "PHPSESSID=a");
    assert_eq!(session(None, Some("b")).cookie_header(), "identity=b");
    assert_eq!(session(None, None).cookie_header(), "");
    assert!(session(None, Some("b")).is_valid());
    assert!(!SkinSession::default().is_valid());
    let s = session_from_cookies(&pairs(&[("PHPSESSID", "a"), ("other", "x"), ("identity", "i"), ("PHPSESSID", "b")]));
    assert_eq!(s.php_sess_id, Some("b".to_string()));
    assert_eq!(s.identity, Some("i".to_string()));
    assert!(session_or_err(session(Some("a"), None)).is_ok());
    assert_eq!(session_or_err(session(None, None)).err(), Some(NO_SESSION.to_string()));
    assert_eq!(check_captured_session(&session(None, None)), Err(SESSION_NOT_CAPTURED.to_string()));
}

#[test]
fn website_answers() {
    assert_eq!(check_session_expired("{\"error\":\"error_login\"}"), Err(SESSION_EXPIRED.to_string()));
    assert_eq!(check_session_expired("{}"), Ok(()));
    assert_eq!(wear_elyby_skin_blocking("{\"success_skin_change\":true}"), Ok(true));
    assert_eq!(wear_elyby_skin_blocking("{}"), Ok(false));
    assert_eq!(wear_elyby_skin_blocking("{\"error\":\"error_login\"}"), Err(SESSION_EXPIRED.to_string()));
    assert_eq!(delete_outcome("ok success_skin_delete"), Ok(true));
    assert_eq!(delete_outcome("nope"), Ok(false));
    assert_eq!(wear_form(15), pairs(&[("skinId", "15")]));
    assert_eq!(wear_form(0), pairs(&[("skinId", "0")]));
    assert_eq!(
        skin_metadata_form("My skin", true),
        pairs(&[("name", "My skin"), ("description", ""), ("kind", "6"), ("color", ""), ("tags", ""), ("isSlim", "1")])
    );
}

#[test]
fn web_login_polling() {
    match web_login_step(false, true, true) {
        WebLoginStep::Fail { message, close_window } => {
            assert_eq!(message, LOGIN_WINDOW_CLOSED);
            assert!(!close_window);
        }
        other => panic!("unexpected {:?}", other),
    }
    assert!(matches!(web_login_step(true, true, true), WebLoginStep::Done));
    match web_login_step(true, false, true) {
        WebLoginStep::Fail { message, close_window } => {
            assert_eq!(message, LOGIN_TIMED_OUT);
            assert!(close_window);
        }
        other => panic!("unexpected {:?}", other),
    }
    assert!(matches!(web_login_step(true, false, false), WebLoginStep::Wait));
}

fn item(id: i64, url: &str, active: bool) -> ElySkinItem {
    ElySkinItem { id, skin_url: url.to_string(), is_slim: false, is_active: active }
}

fn known(elyby_id: Option<i64>) -> LicenseSkinItem {
    LicenseSkinItem {
        id: 1,
        elyby_id,
        name: "n".to_string(),
        model: "steve".to_string(),
        file_url: "f".to_string(),
        thumbnail_url: "t".to_string(),
        is_active: false,
        added_at: None,
    }
}

#[test]
fn player_skin_lists() {
    assert_eq!(skin_url_hash("http://ely.by/storage/skins/abc123.png"), Some("abc123.png".to_string()));
    assert_eq!(skin_url_hash("plain"), Some("plain".to_string()));
    let mut items = vec![item(1, "http://e/a.png", false), item(2, "http://e/b.png", true)];
    mark_active(&mut items, Some("a.png".to_string()));
    assert_eq!(items.iter().map(|i| i.is_active).collect::<Vec<_>>(), vec![true, false]);
    mark_active(&mut items, None);
    assert_eq!(items.iter().map(|i| i.is_active).collect::<Vec<_>>(), vec![true, false]);
    assert_eq!(skin_model(true), "alex");
    assert_eq!(skin_model(false), "steve");
    assert_eq!(default_skin_name(42), "Скин #42");
    let items = vec![item(1, "a", false), item(2, "b", false), item(3, "c", false)];
    assert_eq!(unsynced_skins(&items, &vec![known(Some(2)), known(None)]), vec![0, 2]);
    assert_eq!(unsynced_skins(&items, &vec![]), vec![0, 1, 2]);
}

#[test]
fn website_pages() {
    assert_eq!(
        skins_json_text("<script>alight.service.skins =  {\"items\":[]};</script>"),
        Ok("{\"items\":[]};</script>".to_string())
    );
    assert_eq!(skins_json_text("<html></html>"), Err(PAGE_UNREADABLE.to_string()));
    assert_eq!(skins_json_text("alight.service.skins"), Err(PAGE_UNREADABLE.to_string()));
    assert_eq!(uploaded_skin_id(Some("https://ely.by/skins/s12345/edit".to_string())), Ok(12345));
    assert_eq!(uploaded_skin_id(Some("https://ely.by/skins/s12345".to_string())), Ok(12345));
    assert_eq!(uploaded_skin_id(None), Err(UPLOAD_FAILED.to_string()));
    assert_eq!(uploaded_skin_id(Some("https://ely.by/x".to_string())), Err(UPLOAD_NO_ID.to_string()));
    assert_eq!(uploaded_skin_id(Some("https://ely.by/skins/sabc/".to_string())), Err(UPLOAD_BAD_ID.to_string()));
    assert_eq!(urlencoding_encode("Steve_1.-~"), "Steve_1.-~");
    assert_eq!(urlencoding_encode("a b/ö"), "a%20b%2F%C3%B6");
}
