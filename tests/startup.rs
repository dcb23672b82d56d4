use micropay::startup::{build_startup_message, parse_startup_message, StartupError};

fn pairs(ps: &[(&str, &str)]) -> Vec<(String, String)> {
    ps.iter().map(|(k, v)| (k.to_string(), v.to_string())).collect()
}

#[test]
fn build_then_parse() {
    let params = pairs(&[("user", "alice"), ("database", "shop"), ("application_name", "psql")]);
    let msg = build_startup_message(0x0003_0000, &params);
    assert_eq!(&msg[4..8], &[0, 3, 0, 0]);
    assert_eq!(u32::from_be_bytes(msg[0..4].try_into().unwrap()) as usize, msg.len());
    assert_eq!(*msg.last().unwrap(), 0);
    let (p, kv) = parse_startup_message(&msg, msg.len()).unwrap();
    assert_eq!(p, 0x0003_0000);
    assert_eq!(kv, params);
}

#[test]
fn exact_bytes_of_one_pair() {
    let msg = build_startup_message(196608, &pairs(&[("a", "b")]));
    assert_eq!(msg, vec![0, 0, 0, 13, 0, 3, 0, 0, b'a', 0, b'b', 0, 0]);
}

#[test]
fn empty_parameter_list() {
    let msg = build_startup_message(7, &[]);
    assert_eq!(msg, vec![0, 0, 0, 9, 0, 0, 0, 7, 0]);
    assert_eq!(parse_startup_message(&msg, msg.len()), Ok((7, vec![])));
    let bare = [0u8, 0, 0, 8, 0, 0, 0, 7];
    assert_eq!(parse_startup_message(&bare, 8), Ok((7, vec![])));
}

#[test]
fn startup_errors() {
    assert_eq!(parse_startup_message(&[0, 0, 0, 7, 0, 0, 0], 7), Err(StartupError::TooShort));
    let msg = build_startup_message(7, &pairs(&[("k", "v")]));
    assert_eq!(
        parse_startup_message(&msg, msg.len() - 1),
        Err(StartupError::LengthMismatch { header: msg.len() as u32, got: msg.len() - 1 })
    );
    let key_only = [0u8, 0, 0, 10, 0, 0, 0, 7, b'k', b'k'];
    assert_eq!(parse_startup_message(&key_only, 10), Err(StartupError::UnterminatedKey));
    let no_value_end = [0u8, 0, 0, 11, 0, 0, 0, 7, b'k', 0, b'v'];
    assert_eq!(parse_startup_message(&no_value_end, 11), Err(StartupError::UnterminatedValue));
}

#[test]
fn invalid_utf8_is_replaced() {
    let msg = [0u8, 0, 0, 13, 0, 0, 0, 7, 0xFF, 0, b'v', 0, 0];
    let (_, kv) = parse_startup_message(&msg, 13).unwrap();
    assert_eq!(kv, vec![("\u{FFFD}".to_string(), "v".to_string())]);
}

#[test]
fn non_ascii_pairs_round_trip() {
    let params = pairs(&[("ключ", "значение"), ("名前", "値")]);
    let msg = build_startup_message(196608, &params);
    assert_eq!(parse_startup_message(&msg, msg.len()), Ok((196608, params)));
}
