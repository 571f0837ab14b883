use txxxt::charsets::CharsetName;
use txxxt::net::presence::IncomingCall;
use txxxt::net::relay::{join_reply, paired, room_created};
use txxxt::render::{BgMode, RenderConfig, RenderMode};
use txxxt::tui::{Panel, PipCorner};
use txxxt::viewer::{
    call_limit, export_pip_layout, invite_flash, invite_text, pip_rect, stabilize_mask, view_size, CallLimit, CallMode, Ctx,
    Effect, Key, ViewState,
};

fn logged_out() -> Ctx {
    Ctx { account: None, model_ready: true, plus: false }
}

fn logged_in() -> Ctx {
    Ctx { account: Some(("alice".to_string(), "tok".to_string())), model_ready: true, plus: false }
}

fn press(st: &mut ViewState, ctx: &Ctx, keys: &[Key]) -> Vec<Effect> {
    let mut all = Vec::new();
    for &k in keys {
        all.extend(st.handle_key(ctx, k));
    }
    all
}

#[test]
fn fresh_state() {
    let st = ViewState::new();
    assert!(st.running);
    assert_eq!(st.panel, None);
    assert_eq!(st.mode, CallMode::Local);
    assert_eq!(st.pip_scale_idx, 2);
    assert_eq!(st.config, RenderConfig::default());
}

#[test]
fn style_picker_moves_and_applies() {
    let mut st = ViewState::new();
    let ctx = logged_out();
    assert!(press(&mut st, &ctx, &[Key::Char('v')]).is_empty());
    assert_eq!(st.panel, Some(Panel::StylePicker));
    assert_eq!(st.panel_cursor, 0);
    press(&mut st, &ctx, &[Key::Down, Key::Char('j')]);
    assert_eq!(st.panel_cursor, 2);
    assert_eq!(st.config.charset, CharsetName::Dots);
    press(&mut st, &ctx, &[Key::Up]);
    assert_eq!(st.config.charset, CharsetName::Letters);
    for _ in 0..20 {
        press(&mut st, &ctx, &[Key::Down]);
    }
    assert_eq!(st.panel_cursor, 5);
    assert_eq!(st.config.mode, RenderMode::Outline);
    press(&mut st, &ctx, &[Key::Char('v')]);
    assert_eq!(st.panel, None);
    // Reopening puts the cursor on the current style.
    press(&mut st, &ctx, &[Key::Char('1')]);
    assert_eq!(st.panel_cursor, 5);
}

#[test]
fn settings_toggle_and_threshold() {
    let mut st = ViewState::new();
    let ctx = Ctx { account: None, model_ready: false, plus: false };
    press(&mut st, &ctx, &[Key::Char('s'), Key::Enter]);
    assert!(st.config.color);
    let e = press(&mut st, &ctx, &[Key::Down, Key::Right]);
    assert_eq!(
        e,
        vec![Effect::Flash("downloading segmentation model...".to_string()), Effect::DownloadModel]
    );
    assert_eq!(st.config.bg_mode, BgMode::Off);
    let ready = logged_out();
    press(&mut st, &ready, &[Key::Enter]);
    assert_eq!(st.config.bg_mode, BgMode::Person);
    press(&mut st, &ready, &[Key::Enter]);
    assert_eq!(st.config.bg_mode, BgMode::Off);
    press(&mut st, &ready, &[Key::Down, Key::Down, Key::Down]);
    assert_eq!(st.panel_cursor, 4);
    press(&mut st, &ready, &[Key::Char('l'), Key::Char('l')]);
    assert_eq!(st.config.brightness_threshold, 20);
    for _ in 0..10 {
        press(&mut st, &ready, &[Key::Left]);
    }
    assert_eq!(st.config.brightness_threshold, 0);
    press(&mut st, &ready, &[Key::Esc]);
    assert_eq!(st.panel, None);
}

#[test]
fn connect_panel_joins_upper_cased_code() {
    let mut st = ViewState::new();
    let ctx = logged_out();
    press(&mut st, &ctx, &[Key::Char('c')]);
    assert_eq!(st.panel, Some(Panel::Connect));
    let e = press(
        &mut st,
        &ctx,
        &[Key::Char(' '), Key::Char('a'), Key::Char('b'), Key::Char('x'), Key::Backspace, Key::Char('c'), Key::Enter],
    );
    assert_eq!(e, vec![Effect::JoinRoom("ABC".to_string())]);
    assert_eq!(st.panel, None);
    // `q` on an empty input closes the panel.
    press(&mut st, &ctx, &[Key::Char('c'), Key::Char('q')]);
    assert_eq!(st.panel, None);
}

#[test]
fn account_registration_flow() {
    let mut st = ViewState::new();
    st.license_key = Some("KEY-1".to_string());
    let ctx = logged_out();
    press(&mut st, &ctx, &[Key::Char('a')]);
    assert_eq!(st.panel, Some(Panel::Account));
    assert_eq!(st.account_key_input, "KEY-1");
    press(&mut st, &ctx, &[Key::Enter]);
    assert_eq!(st.account_status.as_deref(), Some("enter username"));
    let e = press(&mut st, &ctx, &[Key::Tab, Key::Char('b'), Key::Char('o'), Key::Char('b'), Key::Enter]);
    assert_eq!(e, vec![Effect::Register { key: "KEY-1".to_string(), username: "bob".to_string() }]);
    assert_eq!(st.account_status.as_deref(), Some("registering..."));
    // Registration refused: log in instead.
    let e = st.register_done("KEY-1".to_string(), Err("taken".to_string()));
    assert_eq!(e, vec![Effect::Login("KEY-1".to_string())]);
    let e = st.login_done(Ok(("bob".to_string(), "t1".to_string())));
    assert_eq!(
        e,
        vec![
            Effect::SaveAccount("bob".to_string(), "t1".to_string()),
            Effect::Flash("logged in as @bob".to_string()),
            Effect::StartPresence("t1".to_string()),
        ]
    );
    assert_eq!(st.panel, None);
}

#[test]
fn registration_success() {
    let mut st = ViewState::new();
    st.panel = Some(Panel::Account);
    let e = st.register_done("K".to_string(), Ok(("bob".to_string(), "t".to_string())));
    assert_eq!(
        e,
        vec![
            Effect::SaveLicenseKey("K".to_string()),
            Effect::SaveAccount("bob".to_string(), "t".to_string()),
            Effect::Flash("registered as @bob".to_string()),
            Effect::StartPresence("t".to_string()),
        ]
    );
    assert_eq!(st.panel, None);
    st.panel = Some(Panel::Account);
    st.login_done(Err("invalid license key".to_string()));
    assert_eq!(st.account_status.as_deref(), Some("invalid license key"));
}

#[test]
fn friends_panel_flow() {
    let mut st = ViewState::new();
    let ctx = logged_in();
    let e = press(&mut st, &ctx, &[Key::Char('3')]);
    assert_eq!(e, vec![Effect::RefreshFriends("tok".to_string())]);
    st.friends_loaded(Ok(vec!["bob".to_string(), "carol".to_string()]));
    let e = press(&mut st, &ctx, &[Key::Down, Key::Down, Key::Enter]);
    assert_eq!(e, vec![Effect::CallUser("tok".to_string(), "carol".to_string())]);
    assert_eq!(st.friends_status.as_deref(), Some("calling @carol..."));
    let e = st.call_done(Ok("ROOM42".to_string()));
    assert_eq!(e, vec![Effect::JoinRoom("ROOM42".to_string())]);
    assert_eq!(st.panel, None);
    press(&mut st, &ctx, &[Key::Char('3')]);
    assert_eq!(st.panel, Some(Panel::Friends));
    let e = press(&mut st, &ctx, &[Key::Down, Key::Char('x')]);
    assert_eq!(e, vec![Effect::FriendsRemove("tok".to_string(), "carol".to_string())]);
    st.friend_removed("carol".to_string(), Ok(()));
    assert_eq!(st.friends_list, vec!["bob".to_string()]);
    assert_eq!(st.panel_cursor, 0);
    let e = press(&mut st, &ctx, &[Key::Tab, Key::Char('f'), Key::Char('r'), Key::Char('e'), Key::Char('d'), Key::Enter]);
    assert_eq!(e, vec![Effect::FriendsAdd("tok".to_string(), "fred".to_string())]);
    st.friend_added("fred".to_string(), Ok(()));
    assert_eq!(st.friends_list, vec!["bob".to_string(), "fred".to_string()]);
    assert_eq!(st.friends_status.as_deref(), Some("added @fred"));
    assert!(!st.friends_adding);
    st.friends_loaded(Err("offline".to_string()));
    assert!(st.friends_list.is_empty());
}

#[test]
fn friends_need_login() {
    let mut st = ViewState::new();
    press(&mut st, &logged_out(), &[Key::Char('3')]);
    assert_eq!(st.panel, Some(Panel::Account));
}

#[test]
fn f_opens_settings() {
    for ctx in [logged_out(), logged_in()] {
        let mut st = ViewState::new();
        assert!(press(&mut st, &ctx, &[Key::Char('f')]).is_empty());
        assert_eq!(st.panel, Some(Panel::Settings));
        press(&mut st, &ctx, &[Key::Char('f')]);
        assert_eq!(st.panel, None);
        // from another panel, f switches to the settings
        press(&mut st, &ctx, &[Key::Char('v'), Key::Char('f')]);
        assert_eq!(st.panel, Some(Panel::Settings));
    }
}

#[test]
fn preference_folder_editing() {
    let mut st = ViewState::new();
    let ctx = logged_out();
    let e = press(&mut st, &ctx, &[Key::Char(','), Key::Enter]);
    assert_eq!(e, vec![Effect::ListDir]);
    assert!(st.pref_editing);
    assert_eq!(st.pref_input, "~/Downloads");
    let e = press(&mut st, &ctx, &[Key::Char('/')]);
    assert_eq!(e, vec![Effect::ListDir]);
    assert_eq!(press(&mut st, &ctx, &[Key::Tab]), vec![Effect::TabComplete]);
    let e = st.tab_completed(vec!["~/Downloads/a/".to_string(), "~/Downloads/b/".to_string()]);
    assert_eq!(e, vec![Effect::ListDir]);
    assert_eq!(st.pref_input, "~/Downloads/a/");
    press(&mut st, &ctx, &[Key::BackTab]);
    assert_eq!(st.pref_input, "~/Downloads/b/");
    st.pref_dir_count = 3;
    press(&mut st, &ctx, &[Key::Down, Key::Down, Key::Down, Key::Down]);
    assert_eq!(st.pref_dir_cursor, Some(2));
    let e = press(&mut st, &ctx, &[Key::Up, Key::Enter]);
    assert_eq!(e, vec![Effect::PickDirEntry(1), Effect::ListDir]);
    assert_eq!(st.pref_dir_cursor, None);
    let e = press(&mut st, &ctx, &[Key::Enter]);
    assert_eq!(
        e,
        vec![Effect::SaveSettings, Effect::Flash("save folder: ~/Downloads/b/".to_string())]
    );
    assert_eq!(st.save_dir.as_deref(), Some("~/Downloads/b/"));
    assert!(!st.pref_editing);
}

#[test]
fn call_controls() {
    let mut st = ViewState::new();
    let ctx = logged_out();
    // Outside a call the PIP keys do nothing.
    press(&mut st, &ctx, &[Key::Char('+'), Key::Char('p')]);
    assert_eq!(st.pip_scale_idx, 2);
    st.mode = CallMode::Call;
    press(&mut st, &ctx, &[Key::Char('+'), Key::Char('+'), Key::Char('+')]);
    assert_eq!(st.pip_scale_idx, 4);
    press(&mut st, &ctx, &[Key::Char('p')]);
    assert_eq!(st.pip_corner, PipCorner::TopLeft);
    let e = press(&mut st, &ctx, &[Key::Char('m')]);
    assert_eq!(e, vec![Effect::Flash("muted".to_string()), Effect::SendStatus]);
    let e = press(&mut st, &ctx, &[Key::Char('h')]);
    assert_eq!(e, vec![Effect::Flash("camera off".to_string()), Effect::SendStatus]);
    assert_eq!(press(&mut st, &ctx, &[Key::Char('q')]), vec![Effect::EndCall]);
    assert!(st.running);
    st.mode = CallMode::Local;
    press(&mut st, &ctx, &[Key::Esc]);
    assert!(!st.running);
}

#[test]
fn incoming_call_popup() {
    let mut st = ViewState::new();
    st.incoming(IncomingCall { caller: String::new(), code: "X".to_string() });
    assert!(st.pending_call.is_none());
    st.incoming(IncomingCall { caller: "bob".to_string(), code: "ABC234".to_string() });
    st.incoming(IncomingCall { caller: "eve".to_string(), code: "ZZZ".to_string() });
    assert_eq!(st.pending_call.as_ref().unwrap().caller, "bob");
    // Other keys are swallowed while the popup shows.
    assert!(press(&mut st, &logged_out(), &[Key::Char('v')]).is_empty());
    assert_eq!(st.panel, None);
    let e = press(&mut st, &logged_out(), &[Key::Char('A')]);
    assert_eq!(e, vec![Effect::JoinRoom("ABC234".to_string())]);
    assert!(st.pending_call.is_none());
}

#[test]
fn misc_global_keys() {
    let mut st = ViewState::new();
    let ctx = logged_out();
    assert_eq!(press(&mut st, &ctx, &[Key::Char('y')]), vec![Effect::ExportSave]);
    assert_eq!(press(&mut st, &ctx, &[Key::Char('r')]), vec![Effect::CreateRoom]);
    assert_eq!(
        press(&mut st, &ctx, &[Key::Char('u')]),
        vec![Effect::OpenPlusPage, Effect::Flash("opening txxxt.me/plus...".to_string())]
    );
    let plus = Ctx { account: None, model_ready: false, plus: true };
    assert!(press(&mut st, &plus, &[Key::Char('u')]).is_empty());
    press(&mut st, &ctx, &[Key::Char('`')]);
    assert!(st.show_help);
}

#[test]
fn free_call_timer() {
    assert_eq!(call_limit(0), CallLimit::Quiet);
    assert_eq!(call_limit(240), CallLimit::Warn("1 minute remaining".to_string()));
    assert_eq!(call_limit(270), CallLimit::Warn("30 seconds remaining".to_string()));
    assert_eq!(call_limit(300), CallLimit::End("5 min limit — press [u] to upgrade".to_string()));
    assert_eq!(call_limit(1000), CallLimit::End("5 min limit — press [u] to upgrade".to_string()));
}

#[test]
fn view_and_pip_geometry() {
    let mut config = RenderConfig::default();
    assert_eq!(view_size(80, 24, &config), (78, 21));
    assert_eq!(view_size(1, 2, &config), (0, 0));
    config.charset = CharsetName::Hangul;
    assert_eq!(view_size(80, 24, &config), (39, 21));
    config.mode = RenderMode::Outline;
    assert_eq!(view_size(80, 24, &config), (78, 21));
    let area = (0, 0, 100, 40);
    assert_eq!(pip_rect(area, PipCorner::TopRight, 25), (74, 1, 25, 10));
    assert_eq!(pip_rect(area, PipCorner::BottomLeft, 25), (1, 29, 25, 10));
    assert_eq!(pip_rect(area, PipCorner::TopLeft, 15), (1, 1, 16, 6));
}

#[test]
fn mask_stabilizes() {
    let stable = [true, true, false, false];
    let prev = [true, false, true, false];
    let new = [false, false, true, true];
    assert_eq!(stabilize_mask(Some(&stable), Some(&prev), &new), vec![true, false, true, false]);
    assert_eq!(stabilize_mask(None, Some(&prev), &new), new.to_vec());
    assert_eq!(stabilize_mask(Some(&stable[..2]), Some(&prev), &new), new.to_vec());
}

#[test]
fn relay_room_replies() {
    assert_eq!(room_created("ROOM ABC234\n"), Some("ABC234".to_string()));
    assert_eq!(room_created("ERR full"), None);
    assert!(paired(" PAIRED\n"));
    assert!(!paired("PAIR"));
    assert_eq!(join_reply("OK\n", "ABC"), Ok(()));
    assert_eq!(join_reply("ERR no such room", "ABC"), Err("room not found: ABC".to_string()));
    assert_eq!(join_reply("HUH", "ABC"), Err("unexpected relay response".to_string()));
    assert_eq!(invite_text("QWE"), "txxxt me ↓\ncode: QWE\ntxxxt.me/QWE");
    assert_eq!(invite_flash("QWE", true), "invite copied! code: QWE");
    assert_eq!(invite_flash("QWE", false), "code: QWE | txxxt.me/QWE");
}

#[test]
fn snapshot_pip_layout() {
    assert_eq!(export_pip_layout(100, 40, PipCorner::TopRight, 25), (74, 0, 25, 10));
    assert_eq!(export_pip_layout(100, 40, PipCorner::BottomLeft, 25), (0, 29, 25, 10));
    assert_eq!(export_pip_layout(100, 40, PipCorner::BottomRight, 50), (49, 19, 50, 20));
    assert_eq!(export_pip_layout(10, 5, PipCorner::BottomRight, 15), (0, 0, 16, 6));
}

#[test]
fn menu_keys_toggle() {
    let ctx = logged_out();
    for k in ['v', '1', 's', '2'] {
        let mut st = ViewState::new();
        let before = st.config;
        assert!(st.handle_key(&ctx, Key::Char(k)).is_empty());
        assert!(st.panel.is_some());
        assert!(st.handle_key(&ctx, Key::Char(k)).is_empty());
        assert_eq!(st.panel, None);
        assert_eq!(st.config, before);
    }
}

#[test]
fn call_keys_toggle_back() {
    let mut st = ViewState::new();
    let ctx = logged_out();
    st.mode = CallMode::Call;
    let e = press(&mut st, &ctx, &[Key::Char('m'), Key::Char('m')]);
    assert_eq!(
        e,
        vec![
            Effect::Flash("muted".to_string()),
            Effect::SendStatus,
            Effect::Flash("unmuted".to_string()),
            Effect::SendStatus
        ]
    );
    assert!(!st.audio_muted);
    press(&mut st, &ctx, &[Key::Char('h')]);
    assert!(st.camera_hidden);
    assert!(!st.audio_muted);
    let e = press(&mut st, &ctx, &[Key::Char('h')]);
    assert_eq!(e, vec![Effect::Flash("camera on".to_string()), Effect::SendStatus]);
    assert!(!st.camera_hidden);
}
