use lemicraft_launcher::server_status::{
    after_ping, frame_packet, motd_text, read_varint, response_expected_len, srv_or_default,
    srv_query_name, srv_target_host, status_cache_path, status_json_bounds, status_report,
    status_request_bytes, write_varint, JsonValue, PingOutcome, PingStep, BAD_JSON_LENGTH_MESSAGE,
    EMPTY_RESPONSE_MESSAGE, EOF_MESSAGE, PING_TIMEOUT_MESSAGE, VARINT_TOO_LONG_MESSAGE,
};

fn varint(v: i32) -> Vec<u8> {
    let mut buf = Vec::new();
    write_varint(&mut buf, v);
    buf
}

#[test]
fn varint_encodings() {
    assert_eq!(varint(0), vec![0x00]);
    assert_eq!(varint(1), vec![0x01]);
    assert_eq!(varint(127), vec![0x7f]);
    assert_eq!(varint(128), vec![0x80, 0x01]);
    assert_eq!(varint(300), vec![0xac, 0x02]);
    assert_eq!(varint(754), vec![0xf2, 0x05]);
    assert_eq!(varint(-1), vec![0xff, 0xff, 0xff, 0xff, 0x0f]);
    assert_eq!(varint(i32::MIN), vec![0x80, 0x80, 0x80, 0x80, 0x08]);
}

#[test]
fn varint_appends_to_buffer() {
    let mut buf = vec![9u8];
    write_varint(&mut buf, 300);
    assert_eq!(buf, vec![9, 0xac, 0x02]);
}

#[test]
fn varint_read_gives_back_what_was_written() {
    for v in [0, 1, 127, 128, 300, 754, 25565, -1, -300, i32::MIN, i32::MAX] {
        let mut buf = vec![0xaau8, 0xbb];
        write_varint(&mut buf, v);
        let written_len = buf.len();
        buf.push(0x42);
        assert_eq!(read_varint(&buf, 2), Ok((v, written_len)));
    }
}

#[test]
fn varint_read_errors() {
    assert_eq!(read_varint(&[], 0), Err(EOF_MESSAGE.to_string()));
    assert_eq!(read_varint(&[0x80, 0x80], 0), Err(EOF_MESSAGE.to_string()));
    assert_eq!(
        read_varint(&[0xff, 0xff, 0xff, 0xff, 0xff, 0x01], 0),
        Err(VARINT_TOO_LONG_MESSAGE.to_string())
    );
}

#[test]
fn packets_are_length_prefixed() {
    assert_eq!(frame_packet(&[0x00]), vec![0x01, 0x00]);
    assert_eq!(frame_packet(&[]), vec![0x00]);
}

#[test]
fn status_request_layout() {
    // handshake: id 0, protocol 754, host "a", port 25565 (0x63dd), next state 1; then the
    // empty status request
    assert_eq!(
        status_request_bytes("a", 25565),
        vec![0x08, 0x00, 0xf2, 0x05, 0x01, 0x61, 0x63, 0xdd, 0x01, 0x01, 0x00]
    );
}

#[test]
fn expected_response_length() {
    assert_eq!(response_expected_len(&[0x0a, 0, 0, 0]), None);
    assert_eq!(response_expected_len(&[0x0a, 0, 0, 0, 0]), Some(11));
    assert_eq!(response_expected_len(&[0xac, 0x02, 0, 0, 0]), Some(302));
    assert_eq!(response_expected_len(&[0xff, 0xff, 0xff, 0xff, 0xff]), None);
}

#[test]
fn status_json_range_in_response() {
    assert_eq!(status_json_bounds(&[0x05, 0x00, 0x03, b'{', b'a', b'}']), Ok((3, 6)));
    assert_eq!(status_json_bounds(&[]), Err(EMPTY_RESPONSE_MESSAGE.to_string()));
    assert_eq!(
        status_json_bounds(&[0x02, 0x01, 0x00]),
        Err("Неожиданный id пакета: 1".to_string())
    );
    assert_eq!(
        status_json_bounds(&[0x03, 0x00, 0x05, b'x']),
        Err(BAD_JSON_LENGTH_MESSAGE.to_string())
    );
}

fn s(t: &str) -> JsonValue {
    JsonValue::Str(t.to_string())
}

fn obj(members: Vec<(&str, JsonValue)>) -> JsonValue {
    JsonValue::Object(members.into_iter().map(|(k, v)| (k.to_string(), v)).collect())
}

#[test]
fn motd_flattens_components_and_strips_codes() {
    let desc = obj(vec![
        ("text", s("§aHello ")),
        ("extra", JsonValue::Array(vec![s("World"), obj(vec![("text", s("§l!"))])])),
    ]);
    assert_eq!(motd_text(&desc), "Hello World!");
    assert_eq!(motd_text(&s("§cRed§r text")), "Red text");
    assert_eq!(motd_text(&JsonValue::Number(Some(3))), "");
}

#[test]
fn status_report_reads_players_version_motd() {
    let root = obj(vec![
        ("players", obj(vec![("online", JsonValue::Number(Some(5))), ("max", JsonValue::Number(Some(100)))])),
        ("version", obj(vec![("name", s("Velocity 3.4"))])),
        ("description", s("Hi")),
    ]);
    let r = status_report(&root);
    assert_eq!(r.players_online, 5);
    assert_eq!(r.players_max, 100);
    assert_eq!(r.version, "Velocity 3.4");
    assert_eq!(r.motd, "Hi");

    let empty = status_report(&obj(vec![]));
    assert_eq!(empty.players_online, 0);
    assert_eq!(empty.players_max, 0);
    assert_eq!(empty.version, "?");
    assert_eq!(empty.motd, "");
}

#[test]
fn srv_lookup_results() {
    assert_eq!(srv_query_name(), "_minecraft._tcp.lemicraft.ru.");
    assert_eq!(srv_target_host("mc.lemicraft.ru."), "mc.lemicraft.ru");
    assert_eq!(srv_target_host("host.."), "host");
    assert_eq!(
        srv_or_default(Ok(("node.lemicraft.ru.".to_string(), 25577))),
        ("node.lemicraft.ru".to_string(), 25577)
    );
    assert_eq!(
        srv_or_default(Err("no record".to_string())),
        ("proxy.lemicraft.ru".to_string(), 25565)
    );
}

#[test]
fn ping_retries_then_gives_up() {
    match after_ping(1, PingOutcome::TimedOut) {
        PingStep::Retry { attempt, last_error } => {
            assert_eq!(attempt, 2);
            assert_eq!(last_error, PING_TIMEOUT_MESSAGE);
        }
        other => panic!("unexpected {:?}", other),
    }
    match after_ping(3, PingOutcome::Failed("refused".to_string())) {
        PingStep::GiveUp(e) => assert_eq!(e, "refused"),
        other => panic!("unexpected {:?}", other),
    }
    assert!(matches!(after_ping(2, PingOutcome::Answered(JsonValue::Null)), PingStep::Report(JsonValue::Null)));
}

#[test]
fn status_cache_location() {
    assert_eq!(
        status_cache_path("/data/LemiCraft"),
        vec!["/data/LemiCraft".to_string(), "server_status_cache.json".to_string()]
    );
}
