use txxxt::charsets::CharsetName;
use txxxt::config::{
    apply_license_verdict, can_start_call, contains_chars, get_account, increment_call_count, is_plus,
    license_check, license_verdict, revoke_license, save_account, save_license_key, url_encode,
    LicenseCheck, LicenseVerdict, UserConfig,
};
use txxxt::render::{BgMode, RenderConfig, RenderMode};
use txxxt::tui::VisualStyle;

#[test]
fn default_config_values() {
    let c = UserConfig::default();
    assert!(!c.color);
    assert_eq!(c.bg_mode, "off");
    assert_eq!(c.brightness_threshold, 85);
    assert_eq!(c.style, "standard");
    assert_eq!(c.calls_today, 0);
    assert!(c.license_key.is_none());
    assert!(!is_plus(&c));
}

#[test]
fn legacy_background_flag_means_motion() {
    let mut c = UserConfig::default();
    c.bg_removal = Some(true);
    assert_eq!(c.effective_bg_mode(), BgMode::Motion);
    c.bg_mode = "person".to_string();
    assert_eq!(c.effective_bg_mode(), BgMode::Person);
    c.bg_removal = None;
    c.bg_mode = "weird".to_string();
    assert_eq!(c.effective_bg_mode(), BgMode::Off);
}

#[test]
fn settings_roundtrip_through_user_config() {
    let mut rc = RenderConfig::default();
    VisualStyle::Charset(CharsetName::Blocks).apply(&mut rc);
    rc.color = true;
    rc.brightness_threshold = 42;
    rc.bg_mode = BgMode::Person;
    rc.mirror = true;
    let saved = UserConfig::from_render_config(&rc, &UserConfig::default());
    assert_eq!(saved.style, "blocks");
    assert_eq!(saved.bg_mode, "person");
    let mut back = RenderConfig::default();
    saved.apply_to(&mut back);
    assert_eq!(back, rc);
    // a wide charset is not in the style list: it comes back as the standard one
    VisualStyle::Charset(CharsetName::Hangul).apply(&mut rc);
    let saved = UserConfig::from_render_config(&rc, &UserConfig::default());
    assert_eq!(saved.style, "한글");
    saved.apply_to(&mut back);
    assert_eq!(back.charset, CharsetName::Standard);
}

#[test]
fn outline_style_roundtrip() {
    let mut rc = RenderConfig::default();
    VisualStyle::Outline.apply(&mut rc);
    let saved = UserConfig::from_render_config(&rc, &UserConfig::default());
    assert_eq!(saved.style, "outline");
    let mut back = RenderConfig::default();
    saved.apply_to(&mut back);
    assert_eq!(back.mode, RenderMode::Outline);
}

#[test]
fn free_calls_count_down_and_reset() {
    let mut c = UserConfig::default();
    let (r, save) = can_start_call(&mut c, "2024-01-01");
    assert_eq!(r, Ok(5));
    assert!(save);
    for left in (1..=5).rev() {
        let (r, _) = can_start_call(&mut c, "2024-01-01");
        assert_eq!(r, Ok(left));
        assert!(increment_call_count(&mut c, "2024-01-01"));
    }
    let (r, save) = can_start_call(&mut c, "2024-01-01");
    assert_eq!(r, Err("daily limit reached (5/5)".to_string()));
    assert!(!save);
    let (r, save) = can_start_call(&mut c, "2024-01-02");
    assert_eq!(r, Ok(5));
    assert!(save);
    assert_eq!(c.calls_today, 0);
}

#[test]
fn plus_users_are_unlimited() {
    let mut c = UserConfig::default();
    save_license_key(&mut c, "KEY", 1000);
    assert!(is_plus(&c));
    let (r, save) = can_start_call(&mut c, "2024-01-01");
    assert_eq!(r, Ok(255));
    assert!(!save);
    assert!(!increment_call_count(&mut c, "2024-01-01"));
    assert_eq!(c.calls_today, 0);
}

#[test]
fn account_roundtrip_and_revoke() {
    let mut c = UserConfig::default();
    assert_eq!(get_account(&c), None);
    save_account(&mut c, "alice", "tok");
    assert_eq!(get_account(&c), Some(("alice".to_string(), "tok".to_string())));
    save_license_key(&mut c, "KEY", 7);
    revoke_license(&mut c);
    assert!(!is_plus(&c));
    assert_eq!(get_account(&c), Some(("alice".to_string(), "tok".to_string())));
}

#[test]
fn url_encoding() {
    assert_eq!(url_encode("abc-XYZ_0.9~"), "abc-XYZ_0.9~");
    assert_eq!(url_encode("a b&c=d"), "a%20b%26c%3Dd");
    assert_eq!(url_encode("é"), "%C3%A9");
    assert_eq!(url_encode(""), "");
}

#[test]
fn license_check_decisions() {
    let mut c = UserConfig::default();
    assert!(matches!(license_check(&c, 0), LicenseCheck::Keep));
    c.license_key = Some("TEST_KEY_DEV".to_string());
    assert!(matches!(license_check(&c, 0), LicenseCheck::Keep));
    c.license_key = Some("K".to_string());
    assert!(matches!(license_check(&c, 0), LicenseCheck::Revoke));
    c.license_validated_at = Some(1_000_000);
    assert!(matches!(license_check(&c, 1_000_000 + 6 * 86400), LicenseCheck::Keep));
    match license_check(&c, 1_000_000 + 7 * 86400 + 5) {
        LicenseCheck::Validate { key, age_days } => {
            assert_eq!(key, "K");
            assert_eq!(age_days, 7);
        }
        _ => panic!("expected a validation"),
    }
    // A clock that went backwards counts as fresh.
    assert!(matches!(license_check(&c, 5), LicenseCheck::Keep));
}

#[test]
fn license_verdicts() {
    assert!(license_verdict(Some("{\"valid\":true,\"x\":1}"), 10) == LicenseVerdict::Refresh);
    assert!(license_verdict(Some("{\"valid\": true}"), 10) == LicenseVerdict::Refresh);
    assert!(license_verdict(Some("{\"valid\":false}"), 10) == LicenseVerdict::Revoke);
    assert!(license_verdict(Some(""), 30) == LicenseVerdict::Keep);
    assert!(license_verdict(Some(""), 31) == LicenseVerdict::Revoke);
    assert!(license_verdict(None, 12) == LicenseVerdict::Keep);
    assert!(license_verdict(None, 45) == LicenseVerdict::Revoke);
}

#[test]
fn verdicts_applied() {
    let mut c = UserConfig::default();
    save_license_key(&mut c, "K", 1);
    apply_license_verdict(&mut c, LicenseVerdict::Refresh, 99);
    assert_eq!(c.license_validated_at, Some(99));
    apply_license_verdict(&mut c, LicenseVerdict::Keep, 500);
    assert_eq!(c.license_validated_at, Some(99));
    apply_license_verdict(&mut c, LicenseVerdict::Revoke, 500);
    assert!(c.license_key.is_none());
    assert!(c.license_validated_at.is_none());
}

#[test]
fn substring_search() {
    let hay: Vec<char> = "hello world".chars().collect();
    let w: Vec<char> = "o w".chars().collect();
    let x: Vec<char> = "wox".chars().collect();
    assert!(contains_chars(&hay, &w));
    assert!(!contains_chars(&hay, &x));
    assert!(contains_chars(&hay, &[]));
    assert!(!contains_chars(&[], &['a']));
}

fn percent_decode(s: &str) -> Vec<u8> {
    let b = s.as_bytes();
    let mut out = Vec::new();
    let mut i = 0;
    while i < b.len() {
        if b[i] == b'%' && i + 2 < b.len() {
            let h = u8::from_str_radix(&s[i + 1..i + 3], 16).unwrap();
            out.push(h);
            i += 3;
        } else {
            out.push(b[i]);
            i += 1;
        }
    }
    out
}

#[test]
fn url_encoding_alphabet_length_and_decoding() {
    for s in ["a b&c=d", "h\u{e9}llo/\u{d55c}\u{ae00}", "~-_.", "100%"] {
        let e = url_encode(s);
        assert!(e.chars().all(|c| c.is_ascii_alphanumeric() || "-_.~%".contains(c)));
        for (i, c) in e.char_indices() {
            if c == '%' {
                let hex = &e[i + 1..i + 3];
                assert!(hex.chars().all(|h| h.is_ascii_digit() || ('A'..='F').contains(&h)));
            }
        }
        let expected_len: usize = s
            .bytes()
            .map(|b| if b.is_ascii_alphanumeric() || b"-_.~".contains(&b) { 1 } else { 3 })
            .sum();
        assert_eq!(e.len(), expected_len);
        assert_eq!(percent_decode(&e), s.as_bytes());
    }
}
