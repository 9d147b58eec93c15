use lemicraft_launcher::mods::{
    after_pack_download, existing_files, import_code_failure, pack_still_installed, prune_state,
    InstalledMod, OfficialPackState, PackDownloadStep, IMPORT_CODE_NOT_FOUND,
    add_copied, catalog_cache_path, check_announced_size, check_entry_count, check_pack_size,
    check_received_size, has_jar_extension, import_extra_entry, mods_entry_target,
    normalize_slug, plan_mod_install, resolve_deps, stale_files, uninstall_blocker,
    untracked_uninstall, ModCatalogEntry, DOWNLOAD_TOO_LARGE_MESSAGE, MAX_DECOMPRESSED_BYTES,
    PACK_MEMBER_MESSAGE, PACK_SIZE_MISMATCH_MESSAGE, TOO_LARGE_MESSAGE, TOO_MANY_ENTRIES_MESSAGE,
};
use lemicraft_launcher::update::{
    hex_string, installer_file_name, is_newer_version, sha256_hex, update_offer,
    update_user_agent, verify_update_checksum, VersionApiResponse, CHECKSUM_MISMATCH_MESSAGE,
    MISSING_CHECKSUM_MESSAGE,
};

fn strings(v: &[&str]) -> Vec<String> {
    v.iter().map(|s| s.to_string()).collect()
}

fn entry(id: &str, name: &str, deps: &[&str], conflicts: &[&str]) -> ModCatalogEntry {
    ModCatalogEntry {
        id: id.to_string(),
        modrinth_id: format!("mr-{id}"),
        category: "utility".to_string(),
        name: name.to_string(),
        description: String::new(),
        deps: strings(deps),
        conflicts: strings(conflicts),
        version: "1.0".to_string(),
        hidden: false,
        configs: vec![],
    }
}

#[test]
fn newer_versions() {
    assert!(is_newer_version("1.2.10", "1.2.9"));
    assert!(!is_newer_version("1.2.9", "1.2.10"));
    assert!(!is_newer_version("1.2.3", "1.2.3"));
    assert!(is_newer_version("1.2.0", "1.2"));
    assert!(!is_newer_version("1.2", "1.2.0"));
    assert!(is_newer_version("2.1.0-beta", "2.0.9"));
    assert!(!is_newer_version("2.1.0-beta", "2.1.0"));
    assert!(is_newer_version("1.x", "0.9"));
}

#[test]
fn newer_version_is_a_strict_order_on_examples() {
    let vs = ["0.9", "1.0", "1.0.1", "1.2", "2.1.0-beta", "10.0"];
    for a in vs {
        assert!(!is_newer_version(a, a));
        for b in vs {
            assert!(!(is_newer_version(a, b) && is_newer_version(b, a)));
            for c in vs {
                if is_newer_version(a, b) && is_newer_version(b, c) {
                    assert!(is_newer_version(a, c));
                }
            }
        }
    }
}

fn response(success: bool, version: &str) -> VersionApiResponse {
    VersionApiResponse {
        success,
        version: version.to_string(),
        download_url: "https://lemicraft.ru/dl/LemiCraft_Setup.exe".to_string(),
        file_size: 1000,
        sha256: Some("ab".to_string()),
        changelog: strings(&["fix"]),
        is_required: true,
        release_date: None,
    }
}

#[test]
fn update_offers() {
    let u = update_offer(response(true, "1.3.0"), "1.2.9").unwrap();
    assert_eq!(u.version, "1.3.0");
    assert_eq!(u.file_size, 1000);
    assert!(u.is_required);
    assert!(update_offer(response(true, "1.2.9"), "1.2.9").is_none());
    assert!(update_offer(response(false, "9.9.9"), "1.2.9").is_none());
    assert_eq!(update_user_agent("1.2.3"), "LemiCraft-Launcher/1.2.3 (Tauri)");
}

#[test]
fn installer_names() {
    assert_eq!(installer_file_name("https://x/dl/LemiCraft_Setup_1.2.exe"), "LemiCraft_Setup_1.2.exe");
    assert_eq!(installer_file_name("https://x/dl/"), "LemiCraft_Installer.exe");
}

#[test]
fn sha256_hex_digests() {
    assert_eq!(sha256_hex(b"abc"), "ba7816bf8f01cfea414140de5dae2223b00361a396177a9cb410ff61f20015ad");
    assert_eq!(sha256_hex(b""), "e3b0c44298fc1c149afbf4c8996fb92427ae41e4649b934ca495991b7852b855");
    assert_eq!(hex_string(&[0x00, 0x0f, 0xa0, 0xff]), "000fa0ff");
}

#[test]
fn update_checksum_verdicts() {
    assert_eq!(verify_update_checksum(&None, "ab"), Err(MISSING_CHECKSUM_MESSAGE.to_string()));
    assert_eq!(verify_update_checksum(&Some(String::new()), "ab"), Err(MISSING_CHECKSUM_MESSAGE.to_string()));
    assert_eq!(verify_update_checksum(&Some("ABCD".to_string()), "abcd"), Ok(()));
    assert_eq!(verify_update_checksum(&Some("abce".to_string()), "abcd"), Err(CHECKSUM_MISMATCH_MESSAGE.to_string()));
}

#[test]
fn dependencies_are_resolved_transitively() {
    let cat = vec![
        entry("a", "A", &["b"], &[]),
        entry("b", "B", &["c"], &[]),
        entry("c", "C", &[], &[]),
        entry("d", "D", &["a"], &[]),
    ];
    let mut out = Vec::new();
    resolve_deps(&strings(&["a"]), &cat, &mut out);
    let mut sorted = out.clone();
    sorted.sort();
    assert_eq!(sorted, strings(&["a", "b", "c"]));

    let mut out = strings(&["c"]);
    resolve_deps(&strings(&["a", "a"]), &cat, &mut out);
    assert_eq!(out[0], "c");
    let mut sorted = out.clone();
    sorted.sort();
    assert_eq!(sorted, strings(&["a", "b", "c"]));
}

#[test]
fn install_plans() {
    let cat = vec![
        entry("a", "Mod A", &["b"], &["x"]),
        entry("b", "Mod B", &[], &[]),
        entry("x", "Mod X", &[], &[]),
    ];
    assert_eq!(
        plan_mod_install(&strings(&["a"]), &cat, &strings(&["x"])),
        Err("«Mod A» конфликтует с «Mod X» — нельзя установить их вместе".to_string())
    );
    let mut planned = plan_mod_install(&strings(&["a"]), &cat, &strings(&["b"])).unwrap();
    planned.sort();
    assert_eq!(planned, strings(&["a"]));
}

#[test]
fn uninstall_checks() {
    let cat = vec![entry("a", "Mod A", &["b"], &[]), entry("b", "Mod B", &[], &[])];
    let installed = strings(&["a", "b"]);
    assert_eq!(uninstall_blocker("b", &installed, &cat), Some("От этого мода зависят: Mod A".to_string()));
    assert_eq!(uninstall_blocker("a", &installed, &cat), None);
    assert_eq!(
        untracked_uninstall("sodium", &Some(strings(&["sodium", "lithium"]))),
        Err(PACK_MEMBER_MESSAGE.to_string())
    );
    assert_eq!(untracked_uninstall("sodium", &Some(strings(&["lithium"]))), Ok(()));
    assert_eq!(untracked_uninstall("sodium", &None), Ok(()));
}

#[test]
fn jar_recognition() {
    assert_eq!(normalize_slug("Sodium Extra-1.2").into_iter().collect::<String>(), "sodiumextra12");
    assert!(has_jar_extension("a.jar"));
    assert!(has_jar_extension("x.y.jar"));
    assert!(!has_jar_extension(".jar"));
    assert!(!has_jar_extension("a.JAR"));
    assert!(!has_jar_extension("a.jar.disabled"));
}

#[test]
fn archive_limits() {
    assert_eq!(check_entry_count(20000), Ok(()));
    assert_eq!(check_entry_count(20001), Err(TOO_MANY_ENTRIES_MESSAGE.to_string()));
    assert_eq!(add_copied(0, 5), Ok(5));
    assert_eq!(add_copied(MAX_DECOMPRESSED_BYTES, 1), Err(TOO_LARGE_MESSAGE.to_string()));
    assert_eq!(
        mods_entry_target(&Some(strings(&["mods", "x.jar"])), false),
        Some(strings(&["x.jar"]))
    );
    assert_eq!(mods_entry_target(&Some(strings(&["config", "x"])), false), None);
    assert_eq!(mods_entry_target(&Some(strings(&["mods", "sub"])), true), None);
    assert!(import_extra_entry(&Some(strings(&["options.txt"])), false));
    assert!(import_extra_entry(&Some(strings(&["config", "a.json"])), false));
    assert!(!import_extra_entry(&Some(strings(&["mods", "a.jar"])), false));
    assert!(!import_extra_entry(&None, false));
}

#[test]
fn download_limits() {
    assert_eq!(check_announced_size(None), Ok(()));
    assert_eq!(check_announced_size(Some(524288001)), Err(DOWNLOAD_TOO_LARGE_MESSAGE.to_string()));
    assert_eq!(check_received_size(10), Ok(()));
    assert_eq!(check_pack_size(0, 5), Ok(()));
    assert_eq!(check_pack_size(10, 10), Ok(()));
    assert_eq!(check_pack_size(10, 9), Err(PACK_SIZE_MISMATCH_MESSAGE.to_string()));
}

#[test]
fn stale_pack_files() {
    assert_eq!(
        stale_files(&strings(&["a", "b", "c"]), &strings(&["b", "d"])),
        strings(&["a", "c"])
    );
    assert_eq!(catalog_cache_path("/g"), strings(&["/g", "mods_catalog_cache.json"]));
}

#[test]
fn state_follows_the_folder() {
    assert_eq!(existing_files(&strings(&["a.jar", "b.jar", "c.jar"]), &vec![true, false, true]), strings(&["a.jar", "c.jar"]));
    let state = vec![
        ("a".to_string(), InstalledMod { files: strings(&["a.jar"]), version: "1".to_string() }),
        ("b".to_string(), InstalledMod { files: strings(&["b1.jar", "b2.jar"]), version: "2".to_string() }),
    ];
    let pruned = prune_state(state, &vec![vec![false], vec![false, true]]);
    assert_eq!(pruned.len(), 1);
    assert_eq!(pruned[0].0, "b");
    assert_eq!(pruned[0].1.files, strings(&["b2.jar"]));
    assert_eq!(pruned[0].1.version, "2");
    let pack = OfficialPackState { files: strings(&["x.jar"]), minimal_mods: strings(&["x"]), version: "3".to_string() };
    assert!(pack_still_installed(pack.clone(), &vec![false, true]).is_some());
    assert!(pack_still_installed(pack, &vec![]).is_none());
}

#[test]
fn pack_download_retries() {
    assert!(matches!(after_pack_download(1, Ok(vec![1, 2])), PackDownloadStep::Got(ref b) if b == &vec![1, 2]));
    assert!(matches!(after_pack_download(1, Err("x".to_string())), PackDownloadStep::Retry { attempt: 2 }));
    match after_pack_download(3, Err("timeout".to_string())) {
        PackDownloadStep::GiveUp { message } => assert_eq!(message, "Не удалось скачать сборку после 3 попыток: timeout"),
        other => panic!("unexpected {:?}", other),
    }
    assert_eq!(import_code_failure(404, "404 Not Found"), IMPORT_CODE_NOT_FOUND);
    assert_eq!(import_code_failure(500, "500 Internal Server Error"), "Не удалось загрузить сборку (500 Internal Server Error)");
}
