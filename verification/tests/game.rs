use lemicraft_launcher::game::{
    after_install_attempt, authlib_direct_url, authlib_injector_path, check_downloaded_authlib,
    current_log_path, format_log4j_event, install_failure_message, installed_version_name,
    is_valid_jar, javaagent_arg, jvm_launch_args, launch_window_action, log4j_line_text,
    minecraft_dir, patch_real_session_args, pick_authlib_asset, quick_play_target,
    restores_window, version_manifest_path, watch_step, xml_attr, InstallStep, LaunchWindow,
    WaitOutcome, WatchStep, XmlLogFilter, AUTHLIB_CORRUPT,
};

fn strings(v: &[&str]) -> Vec<String> {
    v.iter().map(|s| s.to_string()).collect()
}

#[test]
fn game_directory_choice() {
    assert_eq!(minecraft_dir(&None, "/def"), "/def");
    assert_eq!(minecraft_dir(&Some("   ".to_string()), "/def"), "/def");
    assert_eq!(minecraft_dir(&Some(String::new()), "/def"), "/def");
    assert_eq!(minecraft_dir(&Some("D:\\Games\\MC".to_string()), "/def"), "D:\\Games\\MC");
}

#[test]
fn game_file_locations() {
    assert_eq!(current_log_path("/mc"), strings(&["/mc", "logs", "latest.log"]));
    assert_eq!(authlib_injector_path("/g"), strings(&["/g", "authlib-injector.jar"]));
    assert_eq!(installed_version_name(), "fabric-1.21.10-0.18.4");
    assert_eq!(
        version_manifest_path("/mc"),
        strings(&["/mc", "versions", "fabric-1.21.10-0.18.4", "fabric-1.21.10-0.18.4.json"])
    );
}

#[test]
fn jar_magic() {
    assert!(is_valid_jar(b"PK\x03\x04\x14\x00"));
    assert!(!is_valid_jar(b"PK\x03\x04"));
    assert!(!is_valid_jar(b"<html>"));
    assert!(!is_valid_jar(b""));
    assert_eq!(check_downloaded_authlib(b"PK\x03\x04\x14"), Ok(()));
    assert_eq!(check_downloaded_authlib(b"oops!"), Err(AUTHLIB_CORRUPT.to_string()));
}

#[test]
fn authlib_release_addresses() {
    assert_eq!(
        authlib_direct_url("v1.2.5"),
        "https://github.com/yushijinhun/authlib-injector/releases/download/v1.2.5/authlib-injector-1.2.5.jar"
    );
    assert_eq!(
        authlib_direct_url("1.2.5"),
        "https://github.com/yushijinhun/authlib-injector/releases/download/1.2.5/authlib-injector-1.2.5.jar"
    );
    assert_eq!(
        pick_authlib_asset(&strings(&["README.md", "authlib-injector-1.2.5.jar.sha256", "authlib-injector-1.2.5.jar"])),
        Some(2)
    );
    assert_eq!(pick_authlib_asset(&strings(&["other.jar"])), None);
    assert_eq!(javaagent_arg("/g/authlib-injector.jar"), "-javaagent:/g/authlib-injector.jar=ely.by");
}

#[test]
fn xml_attributes() {
    let xml = "<log4j:Event logger=\"a\" thread=\"Render thread\" level=\"WARN\">";
    assert_eq!(xml_attr(xml, "thread"), Some("Render thread".to_string()));
    assert_eq!(xml_attr(xml, "level"), Some("WARN".to_string()));
    assert_eq!(xml_attr(xml, "timestamp"), None);
    assert_eq!(xml_attr("<e level=\"WARN", "level"), None);
}

#[test]
fn log4j_lines() {
    let xml = "<log4j:Event thread=\"main\" level=\"ERROR\">\n<log4j:Message><![CDATA[Boom  \n]]></log4j:Message>\n</log4j:Event>";
    assert_eq!(log4j_line_text(xml, None), "[main/ERROR]: Boom");
    assert_eq!(log4j_line_text(xml, Some("12:34:56".to_string())), "[12:34:56] [main/ERROR]: Boom");
    assert_eq!(log4j_line_text("<log4j:Event>", None), "[?/INFO]: ");
    // no timestamp: no clock part
    assert_eq!(format_log4j_event(xml), "[main/ERROR]: Boom");
}

#[test]
fn log4j_event_times() {
    let stamped = "<log4j:Event timestamp=\"-86400000\" thread=\"main\" level=\"INFO\">\n<log4j:Message><![CDATA[Hi]]></log4j:Message>\n</log4j:Event>";
    let out = format_log4j_event(stamped);
    assert!(out.starts_with('['));
    assert!(is_clock(&out[1..9]), "{out}");
    assert_eq!(&out[9..], "] [main/INFO]: Hi");
    // beyond chrono's dates there is no time of day
    let far = "<log4j:Event timestamp=\"9223372036854775807\" thread=\"main\" level=\"INFO\">\n<log4j:Message><![CDATA[Hi]]></log4j:Message>\n</log4j:Event>";
    assert_eq!(format_log4j_event(far), "[main/INFO]: Hi");
}

fn is_clock(t: &str) -> bool {
    let b = t.as_bytes();
    b.len() == 8
        && b[2] == b':'
        && b[5] == b':'
        && [0, 1, 3, 4, 6, 7].iter().all(|&i| b[i].is_ascii_digit())
}

#[test]
fn log_filter_collapses_event_blocks() {
    let mut f = XmlLogFilter::new();
    assert_eq!(f.feed("plain line"), Some("plain line".to_string()));
    assert_eq!(
        f.feed("  <log4j:Event logger=\"x\" timestamp=\"1700000000000\" level=\"WARN\" thread=\"Render thread\">"),
        None
    );
    assert_eq!(f.feed("    <log4j:Message><![CDATA[Hello  ]]></log4j:Message>"), None);
    let out = f.feed("  </log4j:Event>").expect("the block is complete");
    assert!(out.starts_with('['));
    assert!(is_clock(&out[1..9]), "{out}");
    assert_eq!(&out[9..], "] [Render thread/WARN]: Hello");
    assert!(!f.in_block);
    assert_eq!(f.feed("after"), Some("after".to_string()));
}

#[test]
fn session_args_are_patched() {
    let mut args = strings(&["--username", "Steve", "--accessToken", "0", "--userType", "legacy", "--version", "x"]);
    patch_real_session_args(&mut args, "TOKEN");
    assert_eq!(
        args,
        strings(&["--username", "Steve", "--accessToken", "TOKEN", "--userType", "msa", "--version", "x"])
    );
    let mut tail = strings(&["--accessToken"]);
    patch_real_session_args(&mut tail, "TOKEN");
    assert_eq!(tail, strings(&["--accessToken"]));
}

#[test]
fn jvm_arguments() {
    assert_eq!(
        jvm_launch_args(strings(&["-cp", "x"]), Some("/g/authlib-injector.jar"), 6, " -XX:+UseG1GC  -Dfoo=1 "),
        strings(&["-javaagent:/g/authlib-injector.jar=ely.by", "-cp", "x", "-Xmx6G", "-Xms2G", "-XX:+UseG1GC", "-Dfoo=1"])
    );
    assert_eq!(jvm_launch_args(vec![], None, 1, ""), strings(&["-Xmx1G", "-Xms1G"]));
}

#[test]
fn install_retries() {
    assert!(matches!(after_install_attempt(1, Ok(())), InstallStep::Launch));
    assert!(matches!(after_install_attempt(1, Err("boom".to_string())), InstallStep::Retry { attempt: 2 }));
    assert!(matches!(after_install_attempt(3, Err("boom".to_string())), InstallStep::Retry { attempt: 4 }));
    match after_install_attempt(4, Err("boom".to_string())) {
        InstallStep::GiveUp { message } => {
            assert_eq!(message, "Не удалось установить игру после 4 попыток: boom")
        }
        other => panic!("unexpected {:?}", other),
    }
    assert_eq!(install_failure_message("x"), "Не удалось установить игру после 4 попыток: x");
}

#[test]
fn window_and_process_decisions() {
    assert_eq!(launch_window_action("close"), LaunchWindow::Exit);
    assert_eq!(launch_window_action("hide"), LaunchWindow::Hide);
    assert_eq!(launch_window_action("none"), LaunchWindow::Keep);
    assert!(restores_window("hide"));
    assert!(!restores_window("close"));
    assert_eq!(watch_step(WaitOutcome::Running), WatchStep::KeepWaiting);
    assert_eq!(
        watch_step(WaitOutcome::Exited { success: false, code: Some(1) }),
        WatchStep::Ended { crash: Some(Some(1)) }
    );
    assert_eq!(watch_step(WaitOutcome::Exited { success: true, code: Some(0) }), WatchStep::Ended { crash: None });
    assert_eq!(watch_step(WaitOutcome::Failed), WatchStep::Ended { crash: None });
    assert_eq!(watch_step(WaitOutcome::Gone), WatchStep::Quit);
    assert_eq!(quick_play_target(true), Some(("lemicraft.ru".to_string(), 25565)));
    assert_eq!(quick_play_target(false), None);
}
