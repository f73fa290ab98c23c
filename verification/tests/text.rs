use std::time::{Duration, UNIX_EPOCH};
use vchat::clock::{now_secs, secs_at};
use vchat::config::{parse_port, worker_count, Config, Environment, SecretError};
use vchat::names::{valid_name, valid_room};

#[test]
fn room_names() {
    assert!(valid_room("room-1_A"));
    assert!(valid_room("комната"));
    assert!(valid_room("中文"));
    assert!(!valid_room(""));
    assert!(!valid_room("a b"));
    assert!(!valid_room("a.b"));
    assert!(!valid_room("<img src=x onerror=alert(1)>"));
    assert!(valid_room(&"a".repeat(60)));
    assert!(!valid_room(&"a".repeat(61)));
    assert!(valid_room(&"я".repeat(30)));
    assert!(!valid_room(&"я".repeat(31)));
}

#[test]
fn person_names() {
    assert!(valid_name("bob.smith-1_x"));
    assert!(valid_name("Ёжик"));
    assert!(valid_name("ёя"));
    assert!(!valid_name(""));
    assert!(!valid_name("bob smith"));
    assert!(!valid_name("bob/../x"));
    assert!(!valid_name("😀"));
    assert!(valid_name(&"a".repeat(32)));
    assert!(!valid_name(&"a".repeat(33)));
    assert!(!valid_name(&"я".repeat(17)));
}

#[test]
fn every_ascii_character_in_a_name() {
    for code in 0u8..128 {
        let c = code as char;
        let text = c.to_string();
        assert_eq!(valid_room(&text), c.is_ascii_alphanumeric() || c == '-' || c == '_');
        assert_eq!(
            valid_name(&text),
            c.is_ascii_alphanumeric() || c == '-' || c == '_' || c == '.'
        );
    }
}

#[test]
fn white_space_and_russian_letters_in_a_name() {
    for code in 0u32..0x3100 {
        let Some(c) = char::from_u32(code) else { continue };
        let text = c.to_string();
        if c.is_whitespace() {
            assert!(!valid_room(&text) && !valid_name(&text));
        }
    }
    for c in "абвгдеёжзийклмнопрстуфхцчшщъыьэюяАБВГДЕЁЖЗИЙКЛМНОПРСТУФХЦЧШЩЪЫЬЭЮЯ".chars() {
        assert!(valid_room(&c.to_string()) && valid_name(&c.to_string()));
    }
}

#[test]
fn joined_names() {
    let parts = ["a", "a-b", "я", "a b", "a.b", "<", "\u{3000}", "中", "é", "💬"];
    for a in parts {
        for b in parts {
            let joined = format!("{a}{b}");
            assert_eq!(valid_room(&joined), valid_room(a) && valid_room(b));
            assert_eq!(valid_name(&joined), valid_room(&joined.replace('.', "_")));
        }
    }
}

#[test]
fn ports() {
    assert_eq!(parse_port("80"), Some(80));
    for text in [
        "", "0", "+", "+80", "++80", "-1", "-0", "65535", "65536", "00080", "8080 ", " 8080",
        "80a", "99999999999999999999", "99999x", "1_000", "٣",
    ] {
        assert_eq!(parse_port(text), text.parse::<u16>().ok());
    }
}

const SECRET: &str = "a secret of thirty-two letters..";

fn only_secret() -> Environment {
    Environment {
        api_key: None,
        api_secret: Some(SECRET.to_owned()),
        host: None,
        port: None,
        static_dir: None,
        livekit_url: None,
        allowed_origin: None,
    }
}

fn set_up(vars: Environment) -> Config {
    match Config::from_env(vars) {
        Ok(cfg) => cfg,
        Err(e) => panic!("{e:?}"),
    }
}

#[test]
fn there_has_to_be_a_long_secret() {
    let with = |secret: Option<String>| {
        let mut vars = only_secret();
        vars.api_secret = secret;
        Config::from_env(vars).err()
    };
    assert_eq!(with(None), Some(SecretError::Missing));
    assert_eq!(with(Some(String::new())), Some(SecretError::TooShort));
    assert_eq!(with(Some("change_me_in_production".to_owned())), Some(SecretError::TooShort));
    assert_eq!(with(Some("x".repeat(31))), Some(SecretError::TooShort));
    assert_eq!(with(Some("x".repeat(32))), None);
    assert_eq!(with(Some("я".repeat(31))), Some(SecretError::TooShort));
    assert_eq!(with(Some("я".repeat(32))), None);
}

#[test]
fn set_up_with_the_secret_alone() {
    let cfg = set_up(only_secret());
    assert_eq!(cfg.api_key, "vchat_key");
    assert_eq!(cfg.api_secret, SECRET);
    assert_eq!(cfg.host, "127.0.0.1");
    assert_eq!(cfg.port, 3000);
    assert_eq!(cfg.static_dir, "public");
    assert_eq!(cfg.livekit_url, "ws://localhost:7880");
    assert_eq!(cfg.allowed_origin, "*");
}

#[test]
fn set_up_with_variables() {
    let mut vars = only_secret();
    vars.api_key = Some("key".to_owned());
    vars.host = Some("0.0.0.0".to_owned());
    vars.port = Some("8080".to_owned());
    vars.static_dir = Some("/srv".to_owned());
    vars.livekit_url = Some("wss://x".to_owned());
    vars.allowed_origin = Some("https://x".to_owned());
    let cfg = set_up(vars);
    assert_eq!(cfg.api_key, "key");
    assert_eq!(cfg.api_secret, SECRET);
    assert_eq!(cfg.host, "0.0.0.0");
    assert_eq!(cfg.port, 8080);
    assert_eq!(cfg.static_dir, "/srv");
    assert_eq!(cfg.livekit_url, "wss://x");
    assert_eq!(cfg.allowed_origin, "https://x");
    let mut vars = only_secret();
    vars.port = Some("many".to_owned());
    assert_eq!(set_up(vars).port, 3000);
}

#[test]
fn only_the_start_of_the_key_is_shown() {
    let mut vars = only_secret();
    vars.api_key = Some("0123456789".to_owned());
    assert_eq!(set_up(vars).key_prefix(), "01234567");
    let mut vars = only_secret();
    vars.api_key = Some("short".to_owned());
    assert_eq!(set_up(vars).key_prefix(), "short");
}

#[test]
fn workers() {
    assert_eq!(worker_count(None), 4);
    assert_eq!(worker_count(Some(1)), 2);
    assert_eq!(worker_count(Some(15)), 30);
    assert_eq!(worker_count(Some(16)), 32);
    assert_eq!(worker_count(Some(usize::MAX)), 32);
}

#[test]
fn clock() {
    assert_eq!(secs_at(UNIX_EPOCH + Duration::from_millis(5_900)), 5);
    assert_eq!(secs_at(UNIX_EPOCH - Duration::from_secs(5)), 0);
    let now = now_secs();
    assert!(now > 1_700_000_000);
    assert!(now_secs() >= now);
}
