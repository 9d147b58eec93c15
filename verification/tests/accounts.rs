use lemicraft_launcher::auth::{
    account_path, authorize_url, decrypt_bytes, decrypt_legacy_bytes, encrypt_bytes,
    expiry_time, identity_token, keeps_elyby_account, legacy_account_path,
    load_current_session_full, migrate_old_profile, msa_redirect, now_unix,
    old_launcher_plain_profile_path, old_launcher_profile_path, plan_account_load,
    profile_failure, renewed_account, rps_ticket, seconds_or_zero, signed_in_account,
    token_is_fresh, user_hash, validation_status, with_skin, xsts_refusal, AccountInfo,
    AccountPlan, DisplayClaims, McProfile, McSkin, OldUserProfile, StoredAccount, XblResponse,
    XuiEntry, MISSING_UHS, NO_LICENSE, XSTS_REFUSED,
};

fn ely() -> StoredAccount {
    StoredAccount::ElyBy {
        uuid: "u-1".to_string(),
        username: "Steve".to_string(),
        access_token: "tok".to_string(),
        skin_url: Some("https://ely.by/s.png".to_string()),
    }
}

fn microsoft(refresh: Option<&str>, expires_at: u64, skin: Option<&str>) -> StoredAccount {
    StoredAccount::Microsoft {
        uuid: "u-2".to_string(),
        username: "Alex".to_string(),
        access_token: "mc-tok".to_string(),
        refresh_token: refresh.map(|s| s.to_string()),
        expires_at,
        skin_url: skin.map(|s| s.to_string()),
    }
}

#[test]
fn account_accessors() {
    let a = ely();
    assert_eq!(a.uuid(), "u-1");
    assert_eq!(a.username(), "Steve");
    assert_eq!(a.access_token(), "tok");
    assert_eq!(a.skin_url(), Some("https://ely.by/s.png".to_string()));
    assert_eq!(a.provider_label(), "Ely.by");
    let m = microsoft(None, 0, None);
    assert_eq!(m.provider_label(), "Microsoft");
    assert_eq!(m.skin_url(), None);

    let info = AccountInfo::from_account(&a);
    assert_eq!(info.uuid, "u-1");
    assert_eq!(info.username, "Steve");
    assert_eq!(info.skin_url, Some("https://ely.by/s.png".to_string()));
    assert_eq!(info.provider, "Ely.by");
}

#[test]
fn current_session_tuple() {
    assert_eq!(load_current_session_full(None), None);
    assert_eq!(
        load_current_session_full(Some(ely())),
        Some(("u-1".to_string(), "Steve".to_string(), "tok".to_string(), "Ely.by".to_string()))
    );
}

#[test]
fn account_files() {
    assert_eq!(account_path("/g"), vec!["/g".to_string(), "account.sec".to_string()]);
    assert_eq!(legacy_account_path("/g"), vec!["/g".to_string(), "account.json".to_string()]);
    assert_eq!(old_launcher_profile_path("/g"), vec!["/g".to_string(), "user.sec".to_string()]);
    assert_eq!(old_launcher_plain_profile_path("/g"), vec!["/g".to_string(), "user.json".to_string()]);
}

#[test]
fn encryption_passthrough() {
    assert_eq!(encrypt_bytes(b"plain", None), b"plain".to_vec());
    assert_eq!(encrypt_bytes(b"plain", Some(vec![9, 9])), vec![9, 9]);
    assert_eq!(decrypt_bytes(b"plain", None), Some(b"plain".to_vec()));
    assert_eq!(decrypt_bytes(b"sealed", Some(Ok(b"open".to_vec()))), Some(b"open".to_vec()));
    assert_eq!(decrypt_bytes(b"sealed", Some(Err("bad key".to_string()))), None);
    assert_eq!(decrypt_legacy_bytes(b"x", Some(Err("no".to_string()))), None);
    assert_eq!(decrypt_legacy_bytes(b"x", None), Some(b"x".to_vec()));
}

fn old_profile(provider: &str, token: &str) -> OldUserProfile {
    OldUserProfile {
        username: "Steve".to_string(),
        access_token: token.to_string(),
        uuid: "u-9".to_string(),
        provider: provider.to_string(),
    }
}

#[test]
fn old_launcher_migration() {
    match migrate_old_profile(old_profile("Ely.by", "t")) {
        Some(StoredAccount::ElyBy { uuid, username, access_token, skin_url }) => {
            assert_eq!((uuid.as_str(), username.as_str(), access_token.as_str()), ("u-9", "Steve", "t"));
            assert_eq!(skin_url, None);
        }
        other => panic!("unexpected {:?}", other),
    }
    assert!(migrate_old_profile(old_profile("Microsoft", "t")).is_none());
    assert!(migrate_old_profile(old_profile("Ely.by", "")).is_none());
}

#[test]
fn clock_and_expiry() {
    assert_eq!(seconds_or_zero(None), 0);
    assert_eq!(seconds_or_zero(Some(42)), 42);
    assert!(now_unix() > 1_000_000_000);
    assert!(token_is_fresh(100, 161));
    assert!(!token_is_fresh(100, 160));
    assert!(!token_is_fresh(0, 60));
    assert!(!token_is_fresh(u64::MAX, u64::MAX));
    assert_eq!(expiry_time(1000, 3600), 4600);
    assert_eq!(expiry_time(u64::MAX, 2), 1);
}

#[test]
fn ely_token_validation() {
    assert_eq!(validation_status(200), Some(true));
    assert_eq!(validation_status(204), Some(true));
    assert_eq!(validation_status(401), Some(false));
    assert_eq!(validation_status(400), Some(false));
    assert_eq!(validation_status(500), None);
    assert!(!keeps_elyby_account(Some(false)));
    assert!(keeps_elyby_account(Some(true)));
    assert!(keeps_elyby_account(None));
}

#[test]
fn microsoft_sign_in_pieces() {
    assert_eq!(
        authorize_url(),
        "https://login.live.com/oauth20_authorize.srf?client_id=00000000402b5328&response_type=code&response_mode=query&redirect_uri=https%3A%2F%2Flogin.live.com%2Foauth20_desktop.srf&scope=XboxLive.signin+offline_access&prompt=select_account"
    );
    assert_eq!(
        msa_redirect("https://login.live.com/oauth20_desktop.srf?code=M.C123&lc=1033"),
        Some(Ok("M.C123".to_string()))
    );
    assert_eq!(
        msa_redirect("https://login.live.com/oauth20_desktop.srf?error=access_denied&error_description=The%20user%20denied"),
        Some(Err("The user denied".to_string()))
    );
    assert_eq!(
        msa_redirect("https://login.live.com/oauth20_desktop.srf?error=access_denied"),
        Some(Err("access_denied".to_string()))
    );
    assert_eq!(
        msa_redirect("https://login.live.com/oauth20_desktop.srf"),
        Some(Err("Вход не завершён".to_string()))
    );
    assert_eq!(msa_redirect("https://login.live.com/ppsecure/post.srf"), None);
    assert_eq!(rps_ticket("abc"), "d=abc");
    assert_eq!(identity_token("uhs1", "xsts"), "XBL3.0 x=uhs1;xsts");
}

#[test]
fn xbox_answers() {
    let with = XblResponse {
        token: "t".to_string(),
        display_claims: DisplayClaims { xui: vec![XuiEntry { uhs: "h1".to_string() }, XuiEntry { uhs: "h2".to_string() }] },
    };
    assert_eq!(user_hash(&with), Ok("h1".to_string()));
    let without = XblResponse { token: "t".to_string(), display_claims: DisplayClaims { xui: vec![] } };
    assert_eq!(user_hash(&without), Err(MISSING_UHS.to_string()));
    assert_eq!(xsts_refusal(401), Some(XSTS_REFUSED.to_string()));
    assert_eq!(xsts_refusal(200), None);
    assert_eq!(profile_failure(404, "404 Not Found", ""), NO_LICENSE);
    assert_eq!(
        profile_failure(500, "500 Internal Server Error", "oops"),
        "Не удалось получить профиль Minecraft (500 Internal Server Error): oops"
    );
}

fn skin(url: &str, state: &str) -> McSkin {
    McSkin { url: url.to_string(), state: state.to_string() }
}

#[test]
fn active_skin_choice() {
    let p = McProfile {
        id: "id".to_string(),
        name: "Alex".to_string(),
        skins: vec![skin("u1", "INACTIVE"), skin("u2", "ACTIVE"), skin("u3", "ACTIVE")],
    };
    assert_eq!(p.active_skin_url(), Some("u2".to_string()));
    let p = McProfile { id: "id".to_string(), name: "Alex".to_string(), skins: vec![skin("u1", "INACTIVE")] };
    assert_eq!(p.active_skin_url(), Some("u1".to_string()));
    let p = McProfile { id: "id".to_string(), name: "Alex".to_string(), skins: vec![] };
    assert_eq!(p.active_skin_url(), None);
}

#[test]
fn signed_in_and_renewed_accounts() {
    let p = McProfile { id: "id-7".to_string(), name: "Alex".to_string(), skins: vec![skin("u1", "ACTIVE")] };
    match signed_in_account(&p, "mc".to_string(), Some("r".to_string()), 1000, 86400) {
        StoredAccount::Microsoft { uuid, username, access_token, refresh_token, expires_at, skin_url } => {
            assert_eq!((uuid.as_str(), username.as_str(), access_token.as_str()), ("id-7", "Alex", "mc"));
            assert_eq!(refresh_token, Some("r".to_string()));
            assert_eq!(expires_at, 87400);
            assert_eq!(skin_url, Some("u1".to_string()));
        }
        other => panic!("unexpected {:?}", other),
    }
    let previous = microsoft(Some("old-r"), 10, Some("s0"));
    match renewed_account(&previous, "old-r", "new-tok".to_string(), None, 500, 100, None) {
        StoredAccount::Microsoft { uuid, access_token, refresh_token, expires_at, skin_url, .. } => {
            assert_eq!(uuid, "u-2");
            assert_eq!(access_token, "new-tok");
            assert_eq!(refresh_token, Some("old-r".to_string()));
            assert_eq!(expires_at, 600);
            assert_eq!(skin_url, Some("s0".to_string()));
        }
        other => panic!("unexpected {:?}", other),
    }
    match renewed_account(&previous, "old-r", "t".to_string(), Some("new-r".to_string()), 0, 1, Some(None)) {
        StoredAccount::Microsoft { refresh_token, skin_url, .. } => {
            assert_eq!(refresh_token, Some("new-r".to_string()));
            assert_eq!(skin_url, None);
        }
        other => panic!("unexpected {:?}", other),
    }
    let kept = with_skin(ely(), Some(Some("new.png".to_string())));
    assert_eq!(kept.skin_url(), Some("new.png".to_string()));
    assert_eq!(kept.access_token(), "tok");
}

#[test]
fn account_load_plans() {
    assert!(matches!(plan_account_load(&None, true, 0), AccountPlan::NoAccount));
    assert!(matches!(plan_account_load(&Some(ely()), true, 0), AccountPlan::ValidateEly));
    assert!(matches!(plan_account_load(&Some(ely()), false, 0), AccountPlan::UseStored));
    assert!(matches!(
        plan_account_load(&Some(microsoft(Some("r"), 1000, None)), true, 100),
        AccountPlan::KeepFresh { fetch_skin: true }
    ));
    assert!(matches!(
        plan_account_load(&Some(microsoft(Some("r"), 1000, Some("s"))), true, 100),
        AccountPlan::KeepFresh { fetch_skin: false }
    ));
    match plan_account_load(&Some(microsoft(Some("r"), 1000, None)), false, 950) {
        AccountPlan::Refresh { refresh_token } => assert_eq!(refresh_token, "r"),
        other => panic!("unexpected {:?}", other),
    }
    assert!(matches!(plan_account_load(&Some(microsoft(None, 1000, None)), false, 950), AccountPlan::Expired));
}
