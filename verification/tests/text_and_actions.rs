use rust_mumble::actions::{
    action_name, key_channel, key_session, parse_action, ACTION_BAN, ACTION_KICK, ACTION_LOG,
    ACTION_MUTE,
};
use rust_mumble::clock::hms_now;
use rust_mumble::config::blank;
use rust_mumble::panel::{credentials_accepted, parse_user_command, UserCommand};
use rust_mumble::text::{format_hms, push_decimal, push_two_digits, str_eq};

#[test]
fn keys_of_channels_and_sessions() {
    assert_eq!(key_channel(0), 0);
    assert_eq!(key_channel(u32::MAX), 0xFFFF_FFFF);
    assert_eq!(key_session(0), 1u64 << 40);
    assert_eq!(key_session(7), (1u64 << 40) + 7);
    assert_ne!(key_channel(7), key_session(7));
}

#[test]
fn action_names_round_trip() {
    assert_eq!(parse_action("mute"), ACTION_MUTE);
    assert_eq!(parse_action("kick"), ACTION_KICK);
    assert_eq!(parse_action("log"), ACTION_LOG);
    assert_eq!(parse_action("ban"), ACTION_BAN);
    assert_eq!(parse_action(""), ACTION_LOG);
    assert_eq!(parse_action("Mute"), ACTION_LOG);
    for a in 0u8..=3 {
        assert_eq!(parse_action(action_name(a)), a);
    }
    assert_eq!(action_name(0), "log");
    assert_eq!(action_name(1), "mute");
    assert_eq!(action_name(2), "kick");
    assert_eq!(action_name(3), "ban");
    assert_eq!(action_name(200), "log");
}

#[test]
fn hms_formatting() {
    assert_eq!(format_hms(0), "00:00:00");
    assert_eq!(format_hms(3661), "01:01:01");
    assert_eq!(format_hms(86399), "23:59:59");
    assert_eq!(format_hms(86400 + 3600 * 13 + 60 * 5 + 9), "13:05:09");
    let now = hms_now();
    assert_eq!(now.len(), 8);
    assert_eq!(&now[2..3], ":");
    assert_eq!(&now[5..6], ":");
}

#[test]
fn decimal_formatting() {
    let mut s = String::from("x=");
    push_decimal(&mut s, 0);
    assert_eq!(s, "x=0");
    let mut s = String::new();
    push_decimal(&mut s, 1234567890);
    assert_eq!(s, "1234567890");
    let mut s = String::new();
    push_decimal(&mut s, u64::MAX);
    assert_eq!(s, u64::MAX.to_string());
    let mut s = String::new();
    push_two_digits(&mut s, 7);
    assert_eq!(s, "07");
}

#[test]
fn string_equality() {
    assert!(str_eq("", ""));
    assert!(str_eq("mutualité", "mutualité"));
    assert!(!str_eq("mute", "kick"));
    assert!(!str_eq("ab", "abc"));
}

#[test]
fn blank_texts() {
    assert!(blank(""));
    assert!(blank("   \t\n"));
    assert!(blank("\u{3000}\u{a0}"));
    assert!(!blank("  https://x  "));
    assert!(!blank("a"));
}

#[test]
fn user_commands_parse() {
    assert!(matches!(parse_user_command("block"), Some(UserCommand::Block)));
    assert!(matches!(parse_user_command("unblock"), Some(UserCommand::Unblock)));
    assert!(matches!(parse_user_command("kick"), Some(UserCommand::Kick)));
    assert!(matches!(parse_user_command("reset"), Some(UserCommand::Reset)));
    assert!(matches!(parse_user_command("ban"), Some(UserCommand::Ban)));
    assert!(parse_user_command("explode").is_none());
}

#[test]
fn credentials() {
    assert!(!credentials_accepted("admin", None, Some("admin"), Some("pw")));
    assert!(!credentials_accepted("admin", None, Some("admin"), None));
    assert!(credentials_accepted("admin", Some("pw"), Some("admin"), Some("pw")));
    assert!(!credentials_accepted("admin", Some("pw"), Some("admin"), Some("nope")));
    assert!(!credentials_accepted("admin", Some("pw"), Some("root"), Some("pw")));
    assert!(!credentials_accepted("admin", Some("pw"), Some("admin"), None));
    assert!(!credentials_accepted("admin", Some("pw"), None, None));
}
