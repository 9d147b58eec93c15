use lemicraft_launcher::config::api_endpoint;
use lemicraft_launcher::content::{
    api_status_error, check_external_target, rules_api_url, rules_cache_path,
    violations_api_url, violations_query, ONLY_HTTPS,
};
use lemicraft_launcher::net::{http_failure, is_success_status, query_first, query_last, status_message};
use lemicraft_launcher::server_list::{
    ensure_entry, ensure_lemicraft_server_entry, lemicraft_ip, servers_dat_path, LoadResult,
    ServerEntry, ServersDat,
};
use lemicraft_launcher::settings::{
    default_jvm_args, default_on_launch, default_ram_gb, default_true, get_total_ram_gb,
    ram_gb_from_bytes, ram_gb_from_reading, settings_path, LauncherSettings,
};

#[test]
fn default_settings() {
    let s = LauncherSettings::default();
    assert_eq!(s.ram_gb, 4);
    assert_eq!(s.jvm_args, "-XX:+UseG1GC -XX:+UnlockExperimentalVMOptions");
    assert!(!s.auto_connect);
    assert_eq!(s.on_launch, "hide");
    assert_eq!(s.game_dir, None);
    assert!(!s.show_logs);
    assert!(s.crash_analyzer);
    assert_eq!(default_ram_gb(), 4);
    assert!(default_true());
    assert_eq!(default_jvm_args(), "-XX:+UseG1GC -XX:+UnlockExperimentalVMOptions");
    assert_eq!(default_on_launch(), "hide");
    assert_eq!(settings_path("/g"), vec!["/g".to_string(), "launcher_settings.json".to_string()]);
}

#[test]
fn memory_figures() {
    assert_eq!(ram_gb_from_bytes(0), 16);
    assert_eq!(ram_gb_from_bytes(1 << 29), 16);
    assert_eq!(ram_gb_from_bytes(16 << 30), 16);
    assert_eq!(ram_gb_from_bytes(17_000_000_000), 15);
    assert_eq!(ram_gb_from_bytes(8 << 30), 8);
    assert_eq!(ram_gb_from_reading(None), 16);
    assert_eq!(ram_gb_from_reading(Some(32 << 30)), 32);
    assert!(get_total_ram_gb() >= 1);
}

fn entry(ip: &str, name: &str, hidden: Option<i8>) -> ServerEntry {
    ServerEntry {
        ip: ip.to_string(),
        name: name.to_string(),
        icon: Some("icon".to_string()),
        accept_textures: None,
        hidden,
        accepted_code_of_conduct: Some(1),
    }
}

fn summary(d: &ServersDat) -> Vec<(String, String, Option<i8>)> {
    d.servers.iter().map(|e| (e.ip.clone(), e.name.clone(), e.hidden)).collect()
}

#[test]
fn server_list_gets_the_entry() {
    assert_eq!(servers_dat_path("/mc"), vec!["/mc".to_string(), "servers.dat".to_string()]);
    assert_eq!(lemicraft_ip(), "lemicraft.ru");
    assert!(ensure_lemicraft_server_entry(LoadResult::ParseFailed).is_none());

    let fresh = ensure_lemicraft_server_entry(LoadResult::Empty).unwrap();
    assert_eq!(fresh.servers.len(), 1);
    assert_eq!(fresh.servers[0].ip, "lemicraft.ru");
    assert_eq!(fresh.servers[0].name, "LemiCraft");
    assert_eq!(fresh.servers[0].accept_textures, Some(1));
    assert_eq!(fresh.servers[0].hidden, None);
    assert_eq!(fresh.servers[0].icon, None);

    let other = ServersDat { servers: vec![entry("mc.example.org", "Other", None)] };
    let added = ensure_lemicraft_server_entry(LoadResult::Parsed(other)).unwrap();
    assert_eq!(
        summary(&added),
        vec![
            ("lemicraft.ru".to_string(), "LemiCraft".to_string(), None),
            ("mc.example.org".to_string(), "Other".to_string(), None)
        ]
    );
}

#[test]
fn server_list_fixes_the_entry() {
    let doc = ServersDat {
        servers: vec![entry("a.org", "A", Some(1)), entry("lemicraft.ru", "Lemi", Some(1)), entry("lemicraft.ru", "X", None)],
    };
    let fixed = ensure_entry(doc).unwrap();
    assert_eq!(
        summary(&fixed),
        vec![
            ("a.org".to_string(), "A".to_string(), Some(1)),
            ("lemicraft.ru".to_string(), "LemiCraft".to_string(), None),
            ("lemicraft.ru".to_string(), "X".to_string(), None)
        ]
    );
    assert_eq!(fixed.servers[1].icon, Some("icon".to_string()));
    assert_eq!(fixed.servers[1].accepted_code_of_conduct, Some(1));

    let renamed = ensure_entry(ServersDat { servers: vec![entry("lemicraft.ru", "Lemi", Some(0))] }).unwrap();
    assert_eq!(summary(&renamed), vec![("lemicraft.ru".to_string(), "LemiCraft".to_string(), Some(0))]);

    assert!(ensure_entry(ServersDat { servers: vec![entry("lemicraft.ru", "LemiCraft", None)] }).is_none());
}

#[test]
fn server_list_update_is_idempotent() {
    for doc in [
        ServersDat { servers: vec![] },
        ServersDat { servers: vec![entry("x", "X", None)] },
        ServersDat { servers: vec![entry("lemicraft.ru", "Old", Some(1))] },
    ] {
        let once = ensure_entry(doc).unwrap();
        assert!(ensure_entry(once).is_none());
    }
}

#[test]
fn backend_content() {
    assert_eq!(api_endpoint("/x"), "https://lemicraft.ru/api/x");
    assert_eq!(rules_api_url(), "https://lemicraft.ru/api/launcher/rules");
    assert_eq!(violations_api_url(), "https://lemicraft.ru/api/launcher/violations");
    assert_eq!(rules_cache_path("/g"), vec!["/g".to_string(), "rules_cache.json".to_string()]);
    assert_eq!(api_status_error("Rules API", "503 Service Unavailable"), "Rules API returned 503 Service Unavailable");
    assert_eq!(violations_query("Steve"), vec![("username".to_string(), "Steve".to_string())]);
    assert_eq!(check_external_target("https://ely.by"), Ok(()));
    assert_eq!(check_external_target("file://c:/x"), Err(ONLY_HTTPS.to_string()));
    assert_eq!(check_external_target("http://x"), Err(ONLY_HTTPS.to_string()));
}

#[test]
fn query_parameters() {
    let query = vec![
        ("x".to_string(), "1".to_string()),
        ("y".to_string(), "a b".to_string()),
        ("x".to_string(), "2".to_string()),
    ];
    assert_eq!(query_first(&query, "x"), Some("1".to_string()));
    assert_eq!(query_last(&query, "x"), Some("2".to_string()));
    assert_eq!(query_first(&query, "y"), Some("a b".to_string()));
    assert_eq!(query_first(&query, "z"), None);
    assert_eq!(query_last(&query, "z"), None);
    assert!(is_success_status(204));
    assert!(!is_success_status(302));
    assert_eq!(http_failure("Xbox Live auth failed", "400 Bad Request", "{}"), "Xbox Live auth failed (400 Bad Request): {}");
    assert_eq!(status_message("Не удалось скачать мод", "404 Not Found"), "Не удалось скачать мод (404 Not Found)");
}
