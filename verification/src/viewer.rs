//! The viewer's interface state and what each key press does to it.
//!
//! A key press changes the state and asks for outside work (network calls,
//! file access, flashes with a time stamp); the caller performs that work and
//! reports the outcome back through the `*_done` functions, which decide the
//! next state in turn.
use vstd::prelude::*;

use crate::config::opt_view;
use crate::net::presence::IncomingCall;
use crate::render::{BgMode, RenderConfig};
use crate::text::{chars_of, push_char, push_chars, string_of, to_uppercase, trim_chars, trimmed, uppercase};
use crate::tui::{
    all_settings, all_styles, next_corner, style_applied, style_of_config, Panel, PipCorner, SettingsItem,
    VisualStyle, SETTINGS_COUNT, STYLE_COUNT,
};

verus! {

/// A key press, as far as the interface tells keys apart.
#[derive(Debug, Clone, Copy, PartialEq, Eq, Structural)]
pub enum Key {
    Char(char),
    Up,
    Down,
    Left,
    Right,
    Enter,
    Esc,
    Tab,
    BackTab,
    Backspace,
    Other,
}

/// Whether the viewer is on its own or in (or setting up) a call.
#[derive(Debug, Clone, Copy, PartialEq, Eq, Structural)]
pub enum CallMode {
    Local,
    Call,
    /// Waiting for a peer to join the relay room.
    RelayWaiting,
    /// Joining a relay room.
    RelayJoining,
}

/// Number of picture-in-picture sizes.
pub const PIP_SCALE_COUNT: usize = 5;

/// PIP size as a percentage of the screen, by index.
pub const PIP_SCALES: [u16; 5] = [15, 20, 25, 33, 50];

/// The PIP size a fresh viewer starts with (25%).
pub const PIP_DEFAULT_SCALE_IDX: usize = 2;

/// The interface state the keys act on.
pub struct ViewState {
    pub config: RenderConfig,
    pub running: bool,
    /// Currently open overlay panel.
    pub panel: Option<Panel>,
    /// Cursor position within the open panel.
    pub panel_cursor: usize,
    pub mode: CallMode,
    /// Whether the help overlay is visible (independent of panel).
    pub show_help: bool,
    /// Incoming call waiting for the user to accept or decline.
    pub pending_call: Option<IncomingCall>,
    /// Text input of the Connect panel (room code).
    pub connect_input: String,
    pub pip_corner: PipCorner,
    /// Index into `PIP_SCALES`.
    pub pip_scale_idx: usize,
    pub audio_muted: bool,
    pub camera_hidden: bool,
    /// Saved export folder (None = ~/Downloads).
    pub save_dir: Option<String>,
    /// Saved license key, offered when the account panel opens.
    pub license_key: Option<String>,
    /// Whether the preference panel is editing its text input.
    pub pref_editing: bool,
    pub pref_input: String,
    /// Number of directory entries listed under the preference input.
    pub pref_dir_count: usize,
    /// Cursor in the directory listing (None = on the input field).
    pub pref_dir_cursor: Option<usize>,
    /// Tab completion: matches and the one shown.
    pub pref_tab_matches: Vec<String>,
    pub pref_tab_index: usize,
    /// The input when Tab was first pressed.
    pub pref_tab_base: String,
    /// Focused account field (0 = key, 1 = username).
    pub account_field: usize,
    pub account_key_input: String,
    pub account_username_input: String,
    pub account_status: Option<String>,
    pub friends_list: Vec<String>,
    /// Whether the add-friend input is focused.
    pub friends_adding: bool,
    pub friends_add_input: String,
    pub friends_status: Option<String>,
}

/// The mathematical model of `ViewState`.
#[verifier::ext_equal]
pub struct UiModel {
    pub config: RenderConfig,
    pub running: bool,
    pub panel: Option<Panel>,
    pub panel_cursor: int,
    pub mode: CallMode,
    pub show_help: bool,
    /// (caller, room code)
    pub pending_call: Option<(Seq<char>, Seq<char>)>,
    pub connect_input: Seq<char>,
    pub pip_corner: PipCorner,
    pub pip_scale_idx: int,
    pub audio_muted: bool,
    pub camera_hidden: bool,
    pub save_dir: Option<Seq<char>>,
    pub license_key: Option<Seq<char>>,
    pub pref_editing: bool,
    pub pref_input: Seq<char>,
    pub pref_dir_count: int,
    pub pref_dir_cursor: Option<int>,
    pub pref_tab_matches: Seq<Seq<char>>,
    pub pref_tab_index: int,
    pub pref_tab_base: Seq<char>,
    pub account_field: int,
    pub account_key_input: Seq<char>,
    pub account_username_input: Seq<char>,
    pub account_status: Option<Seq<char>>,
    pub friends_list: Seq<Seq<char>>,
    pub friends_adding: bool,
    pub friends_add_input: Seq<char>,
    pub friends_status: Option<Seq<char>>,
}

/// Characters of each string.
pub open spec fn strings_view(v: Seq<String>) -> Seq<Seq<char>> {
    v.map_values(|s: String| s@)
}

impl View for ViewState {
    type V = UiModel;

    open spec fn view(&self) -> UiModel {
        UiModel {
            config: self.config,
            running: self.running,
            panel: self.panel,
            panel_cursor: self.panel_cursor as int,
            mode: self.mode,
            show_help: self.show_help,
            pending_call: match self.pending_call {
                Some(c) => Some((c.caller@, c.code@)),
                None => None,
            },
            connect_input: self.connect_input@,
            pip_corner: self.pip_corner,
            pip_scale_idx: self.pip_scale_idx as int,
            audio_muted: self.audio_muted,
            camera_hidden: self.camera_hidden,
            save_dir: opt_view(self.save_dir),
            license_key: opt_view(self.license_key),
            pref_editing: self.pref_editing,
            pref_input: self.pref_input@,
            pref_dir_count: self.pref_dir_count as int,
            pref_dir_cursor: match self.pref_dir_cursor {
                Some(i) => Some(i as int),
                None => None,
            },
            pref_tab_matches: strings_view(self.pref_tab_matches@),
            pref_tab_index: self.pref_tab_index as int,
            pref_tab_base: self.pref_tab_base@,
            account_field: self.account_field as int,
            account_key_input: self.account_key_input@,
            account_username_input: self.account_username_input@,
            account_status: opt_view(self.account_status),
            friends_list: strings_view(self.friends_list@),
            friends_adding: self.friends_adding,
            friends_add_input: self.friends_add_input@,
            friends_status: opt_view(self.friends_status),
        }
    }
}

/// What the interface reads of the world when a key arrives.
pub struct Ctx {
    /// Saved account (username, session token), if logged in.
    pub account: Option<(String, String)>,
    /// Whether the segmentation model is on disk.
    pub model_ready: bool,
    /// Whether txxxt+ is active.
    pub plus: bool,
}

/// The mathematical model of `Ctx`.
pub struct CtxModel {
    pub account: Option<(Seq<char>, Seq<char>)>,
    pub model_ready: bool,
    pub plus: bool,
}

impl View for Ctx {
    type V = CtxModel;

    open spec fn view(&self) -> CtxModel {
        CtxModel {
            account: match self.account {
                Some((u, t)) => Some((u@, t@)),
                None => None,
            },
            model_ready: self.model_ready,
            plus: self.plus,
        }
    }
}

/// Outside work a key press asks for.
#[derive(Debug, Clone, PartialEq, Eq)]
pub enum Effect {
    /// Show a message in the status bar.
    Flash(String),
    /// Join the relay room with this code.
    JoinRoom(String),
    /// Create a relay room and wait for a peer.
    CreateRoom,
    /// End the call or the relay attempt.
    EndCall,
    /// Fetch the friends list with this session token.
    RefreshFriends(String),
    /// Download the segmentation model in the background.
    DownloadModel,
    /// Save the settings (the export folder changed).
    SaveSettings,
    /// List the directories matching the preference input.
    ListDir,
    /// Compute the tab completions of the preference input.
    TabComplete,
    /// Replace the preference input by the listed directory at this index.
    PickDirEntry(usize),
    /// Register this username with this license key (then log in).
    Register { key: String, username: String },
    /// Log in with this license key.
    Login(String),
    /// Forget the saved account.
    Logout,
    /// Add a friend: (token, username).
    FriendsAdd(String, String),
    /// Remove a friend: (token, username).
    FriendsRemove(String, String),
    /// Call a friend: (token, username).
    CallUser(String, String),
    /// Save the current frame.
    ExportSave,
    /// Open the txxxt+ page in the browser.
    OpenPlusPage,
    /// Send the mic/camera status to the peer.
    SendStatus,
    /// Save the license key with the current time.
    SaveLicenseKey(String),
    /// Save the account: (username, token).
    SaveAccount(String, String),
    /// Start the presence connection with this token.
    StartPresence(String),
}

/// The mathematical model of `Effect`.
pub enum EffectModel {
    Flash(Seq<char>),
    JoinRoom(Seq<char>),
    CreateRoom,
    EndCall,
    RefreshFriends(Seq<char>),
    DownloadModel,
    SaveSettings,
    ListDir,
    TabComplete,
    PickDirEntry(int),
    Register { key: Seq<char>, username: Seq<char> },
    Login(Seq<char>),
    Logout,
    FriendsAdd(Seq<char>, Seq<char>),
    FriendsRemove(Seq<char>, Seq<char>),
    CallUser(Seq<char>, Seq<char>),
    ExportSave,
    OpenPlusPage,
    SendStatus,
    SaveLicenseKey(Seq<char>),
    SaveAccount(Seq<char>, Seq<char>),
    StartPresence(Seq<char>),
}

impl View for Effect {
    type V = EffectModel;

    open spec fn view(&self) -> EffectModel {
        match self {
            Effect::Flash(s) => EffectModel::Flash(s@),
            Effect::JoinRoom(s) => EffectModel::JoinRoom(s@),
            Effect::CreateRoom => EffectModel::CreateRoom,
            Effect::EndCall => EffectModel::EndCall,
            Effect::RefreshFriends(s) => EffectModel::RefreshFriends(s@),
            Effect::DownloadModel => EffectModel::DownloadModel,
            Effect::SaveSettings => EffectModel::SaveSettings,
            Effect::ListDir => EffectModel::ListDir,
            Effect::TabComplete => EffectModel::TabComplete,
            Effect::PickDirEntry(i) => EffectModel::PickDirEntry(*i as int),
            Effect::Register { key, username } => EffectModel::Register { key: key@, username: username@ },
            Effect::Login(s) => EffectModel::Login(s@),
            Effect::Logout => EffectModel::Logout,
            Effect::FriendsAdd(t, u) => EffectModel::FriendsAdd(t@, u@),
            Effect::FriendsRemove(t, u) => EffectModel::FriendsRemove(t@, u@),
            Effect::CallUser(t, u) => EffectModel::CallUser(t@, u@),
            Effect::ExportSave => EffectModel::ExportSave,
            Effect::OpenPlusPage => EffectModel::OpenPlusPage,
            Effect::SendStatus => EffectModel::SendStatus,
            Effect::SaveLicenseKey(s) => EffectModel::SaveLicenseKey(s@),
            Effect::SaveAccount(u, t) => EffectModel::SaveAccount(u@, t@),
            Effect::StartPresence(s) => EffectModel::StartPresence(s@),
        }
    }
}

/// The models of a list of effects.
pub open spec fn effects_view(v: Seq<Effect>) -> Seq<EffectModel> {
    v.map_values(|e: Effect| e@)
}

/// A state and the outside work asked for.
pub type Step = (UiModel, Seq<EffectModel>);

/// A state with nothing else to do.
pub open spec fn only(m: UiModel) -> Step {
    (m, Seq::empty())
}

/// The state a fresh viewer starts in.
pub open spec fn initial_model() -> UiModel {
    UiModel {
        config: crate::render::default_render_config(),
        running: true,
        panel: None,
        panel_cursor: 0,
        mode: CallMode::Local,
        show_help: false,
        pending_call: None,
        connect_input: Seq::empty(),
        pip_corner: PipCorner::TopRight,
        pip_scale_idx: 2,
        audio_muted: false,
        camera_hidden: false,
        save_dir: None,
        license_key: None,
        pref_editing: false,
        pref_input: Seq::empty(),
        pref_dir_count: 0,
        pref_dir_cursor: None,
        pref_tab_matches: Seq::empty(),
        pref_tab_index: 0,
        pref_tab_base: Seq::empty(),
        account_field: 0,
        account_key_input: Seq::empty(),
        account_username_input: Seq::empty(),
        account_status: None,
        friends_list: Seq::empty(),
        friends_adding: false,
        friends_add_input: Seq::empty(),
        friends_status: None,
    }
}


/// `i - 1`, stopping at zero.
pub open spec fn sat_dec(i: int) -> int {
    if i > 0 {
        i - 1
    } else {
        0
    }
}

/// The state with no panel open.
pub open spec fn closed(m: UiModel) -> UiModel {
    UiModel { panel: None, ..m }
}

/// The state with the style picker open, its cursor on the current style.
pub open spec fn style_picker_opened(m: UiModel) -> UiModel {
    UiModel {
        panel: Some(Panel::StylePicker),
        panel_cursor: crate::tui::style_index(style_of_config(m.config)),
        ..m
    }
}

/// The state with the settings panel open on its first item.
pub open spec fn settings_opened(m: UiModel) -> UiModel {
    UiModel { panel: Some(Panel::Settings), panel_cursor: 0, ..m }
}

/// The state with the account panel open on the key field; an empty key
/// field is filled with the saved license key.
pub open spec fn account_opened(m: UiModel) -> UiModel {
    UiModel {
        panel: Some(Panel::Account),
        account_field: 0,
        account_status: None,
        account_key_input: if m.account_key_input.len() == 0 && m.license_key is Some {
            m.license_key.unwrap()
        } else {
            m.account_key_input
        },
        ..m
    }
}

/// Open the friends panel; an empty list is fetched again.
pub open spec fn friends_opened(m: UiModel, c: CtxModel) -> Step {
    let n = UiModel {
        panel: Some(Panel::Friends),
        panel_cursor: 0,
        friends_adding: false,
        friends_add_input: Seq::empty(),
        friends_status: None,
        ..m
    };
    if m.friends_list.len() == 0 && c.account is Some {
        (n, seq![EffectModel::RefreshFriends(c.account.unwrap().1)])
    } else {
        only(n)
    }
}

/// Whether the open panel takes typed text, so letter keys do not switch panels.
pub open spec fn text_input(m: UiModel, c: CtxModel) -> bool {
    match m.panel {
        Some(Panel::Connect) => true,
        Some(Panel::Friends) => m.friends_adding,
        Some(Panel::Account) => c.account is None,
        _ => false,
    }
}

/// Menu keys pressed while panel `p` is open: the key of the open panel
/// closes it, another panel's key opens that panel.
pub open spec fn switch_step(m: UiModel, c: CtxModel, p: Panel, key: Key) -> Option<Step> {
    let logged_in = c.account is Some;
    match key {
        Key::Char(ch) => if ch == 'v' || ch == '1' {
            if p == Panel::StylePicker {
                Some(only(closed(m)))
            } else {
                Some(only(style_picker_opened(m)))
            }
        } else if ch == 's' || ch == '2' || ch == 'f' {
            if p == Panel::Settings {
                Some(only(closed(m)))
            } else {
                Some(only(settings_opened(m)))
            }
        } else if ch == '3' {
            if logged_in {
                if p == Panel::Friends {
                    Some(only(closed(m)))
                } else {
                    Some(friends_opened(m, c))
                }
            } else if p == Panel::Account {
                Some(only(closed(m)))
            } else {
                Some(only(account_opened(m)))
            }
        } else if ch == 'a' {
            if p == Panel::Account {
                Some(only(closed(m)))
            } else {
                Some(only(account_opened(m)))
            }
        } else if ch == '4' {
            if !logged_in {
                Some(only(m))
            } else if p == Panel::Account {
                Some(only(closed(m)))
            } else {
                Some(only(account_opened(m)))
            }
        } else {
            None
        },
        _ => None,
    }
}

/// Whether the key moves a cursor up (arrow or `k`).
pub open spec fn is_up(key: Key) -> bool {
    key == Key::Up || key == Key::Char('k')
}

/// Whether the key moves a cursor down (arrow or `j`).
pub open spec fn is_down(key: Key) -> bool {
    key == Key::Down || key == Key::Char('j')
}

/// The cursor one step down, staying below `count`.
pub open spec fn cursor_down(i: int, count: int) -> int {
    if i + 1 < count {
        i + 1
    } else {
        i
    }
}

/// Keys of the style picker: moving the cursor applies the style under it.
pub open spec fn style_picker_step(m: UiModel, key: Key) -> Option<Step> {
    if is_up(key) || is_down(key) {
        let i = if is_up(key) {
            sat_dec(m.panel_cursor)
        } else {
            cursor_down(m.panel_cursor, STYLE_COUNT as int)
        };
        Some(only(UiModel { panel_cursor: i, config: style_applied(all_styles()[i], m.config), ..m }))
    } else if key == Key::Enter || key == Key::Esc || key == Key::Char('v') || key == Key::Char('q') {
        Some(only(closed(m)))
    } else {
        None
    }
}

/// Message shown while the segmentation model downloads.
pub open spec fn downloading_msg() -> Seq<char> {
    "downloading segmentation model..."@
}

/// A setting that needs the segmentation model, when it is missing.
pub open spec fn model_missing(m: UiModel) -> Step {
    (m, seq![EffectModel::Flash(downloading_msg()), EffectModel::DownloadModel])
}

/// Change the setting under the cursor; `right` raises the brightness
/// threshold, otherwise it is lowered (by 5, within 0..=255).
pub open spec fn setting_changed(m: UiModel, c: CtxModel, right: bool) -> Step {
    let cfg = m.config;
    match all_settings()[m.panel_cursor] {
        SettingsItem::Color => only(UiModel { config: RenderConfig { color: !cfg.color, ..cfg }, ..m }),
        SettingsItem::Background => if cfg.bg_mode == BgMode::Person {
            only(UiModel { config: RenderConfig { bg_mode: BgMode::Off, ..cfg }, ..m })
        } else if c.model_ready {
            only(UiModel { config: RenderConfig { bg_mode: BgMode::Person, ..cfg }, ..m })
        } else {
            model_missing(m)
        },
        SettingsItem::Contour => if c.model_ready {
            only(UiModel { config: RenderConfig { contour: !cfg.contour, ..cfg }, ..m })
        } else {
            model_missing(m)
        },
        SettingsItem::Mirror => only(UiModel { config: RenderConfig { mirror: !cfg.mirror, ..cfg }, ..m }),
        SettingsItem::Brightness => {
            let t = cfg.brightness_threshold as int;
            let n = if right {
                if t + 5 > 255 { 255 } else { t + 5 }
            } else {
                if t < 5 { 0 } else { t - 5 }
            };
            only(UiModel { config: RenderConfig { brightness_threshold: n as u8, ..cfg }, ..m })
        },
    }
}

/// Keys of the settings panel.
pub open spec fn settings_step(m: UiModel, c: CtxModel, key: Key) -> Option<Step> {
    if is_up(key) {
        Some(only(UiModel { panel_cursor: sat_dec(m.panel_cursor), ..m }))
    } else if is_down(key) {
        Some(only(UiModel { panel_cursor: cursor_down(m.panel_cursor, SETTINGS_COUNT as int), ..m }))
    } else if key == Key::Left || key == Key::Right || key == Key::Char('h') || key == Key::Char('l')
        || key == Key::Enter {
        Some(setting_changed(m, c, key == Key::Right || key == Key::Char('l')))
    } else if key == Key::Esc || key == Key::Char('s') || key == Key::Char('q') {
        Some(only(closed(m)))
    } else {
        None
    }
}

/// The state with tab completion forgotten.
pub open spec fn tab_cleared(m: UiModel) -> UiModel {
    UiModel { pref_tab_matches: Seq::empty(), pref_tab_index: 0, pref_tab_base: Seq::empty(), ..m }
}

/// The export folder as shown: `~/Downloads` when none is saved.
pub open spec fn shown_dir(d: Option<Seq<char>>) -> Seq<char> {
    match d {
        Some(s) => s,
        None => "~/Downloads"@,
    }
}

/// A string without its last character (unchanged when empty).
pub open spec fn popped(s: Seq<char>) -> Seq<char> {
    if s.len() > 0 {
        s.drop_last()
    } else {
        s
    }
}

/// The input was edited: the listing is refreshed, its cursor and the tab
/// completion are reset.
pub open spec fn pref_edited(m: UiModel, input: Seq<char>) -> Step {
    (UiModel { pref_input: input, pref_dir_cursor: None, ..tab_cleared(m) }, seq![EffectModel::ListDir])
}

/// Keys of the preference panel while its folder input is being edited
/// (every key is taken).
pub open spec fn pref_editing_step(m: UiModel, key: Key) -> Step {
    match key {
        Key::Enter => match m.pref_dir_cursor {
            Some(i) => if i < m.pref_dir_count {
                (
                    UiModel { pref_dir_cursor: None, ..tab_cleared(m) },
                    seq![EffectModel::PickDirEntry(i), EffectModel::ListDir],
                )
            } else {
                only(m)
            },
            None => {
                let v = trimmed(m.pref_input);
                let d = if v.len() == 0 { None } else { Some(v) };
                (
                    UiModel { save_dir: d, pref_editing: false, ..m },
                    seq![EffectModel::SaveSettings, EffectModel::Flash("save folder: "@ + shown_dir(d))],
                )
            },
        },
        Key::Tab | Key::BackTab => if m.pref_tab_matches.len() == 0 || (key == Key::Tab && m.pref_tab_base
            != m.pref_input) {
            (m, seq![EffectModel::TabComplete])
        } else {
            let i = (m.pref_tab_index + 1) % (m.pref_tab_matches.len() as int);
            (
                UiModel { pref_tab_index: i, pref_input: m.pref_tab_matches[i], pref_dir_cursor: None, ..m },
                seq![EffectModel::ListDir],
            )
        },
        Key::Up => match m.pref_dir_cursor {
            Some(i) => if i > 0 {
                only(UiModel { pref_dir_cursor: Some(i - 1), ..m })
            } else {
                only(UiModel { pref_dir_cursor: None, ..m })
            },
            None => only(m),
        },
        Key::Down => if m.pref_dir_count > 0 {
            let last = m.pref_dir_count - 1;
            only(
                UiModel {
                    pref_dir_cursor: Some(
                        match m.pref_dir_cursor {
                            None => 0,
                            Some(i) => if i < last - 1 { i + 1 } else { last },
                        },
                    ),
                    ..m
                },
            )
        } else {
            only(m)
        },
        Key::Esc => only(UiModel { pref_editing: false, pref_dir_cursor: None, ..tab_cleared(m) }),
        Key::Backspace => pref_edited(m, popped(m.pref_input)),
        Key::Char(ch) => pref_edited(m, m.pref_input.push(ch)),
        _ => only(m),
    }
}

/// Keys of the preference panel.
pub open spec fn pref_step(m: UiModel, key: Key) -> Option<Step> {
    if m.pref_editing {
        Some(pref_editing_step(m, key))
    } else if key == Key::Enter {
        Some(
            (
                UiModel {
                    pref_editing: true,
                    pref_input: shown_dir(m.save_dir),
                    pref_dir_cursor: None,
                    ..tab_cleared(m)
                },
                seq![EffectModel::ListDir],
            ),
        )
    } else if is_up(key) {
        Some(only(UiModel { panel_cursor: sat_dec(m.panel_cursor), ..m }))
    } else if is_down(key) {
        Some(only(UiModel { panel_cursor: cursor_down(m.panel_cursor, 1), ..m }))
    } else if key == Key::Esc || key == Key::Char(',') || key == Key::Char('q') {
        Some(only(closed(m)))
    } else {
        None
    }
}

/// Keys of the connect panel, which edits a room code (every key is taken).
pub open spec fn connect_step(m: UiModel, key: Key) -> Step {
    let empty = m.connect_input.len() == 0;
    match key {
        Key::Enter => {
            let code = uppercase(trimmed(m.connect_input));
            if code.len() > 0 {
                (closed(m), seq![EffectModel::JoinRoom(code)])
            } else {
                only(m)
            }
        },
        Key::Esc => only(closed(m)),
        Key::Backspace => only(UiModel { connect_input: popped(m.connect_input), ..m }),
        Key::Char(ch) => if (ch == 'q' || ch == 'c') && empty {
            only(closed(m))
        } else {
            only(UiModel { connect_input: m.connect_input.push(ch), ..m })
        },
        _ => only(m),
    }
}

/// The account panel with a status line.
pub open spec fn account_said(m: UiModel, msg: Seq<char>) -> UiModel {
    UiModel { account_status: Some(msg), ..m }
}

/// Keys of the account panel: logged in, `l` logs out; logged out, the
/// panel edits a license key and a username and Enter registers them.
pub open spec fn account_step(m: UiModel, c: CtxModel, key: Key) -> Step {
    if c.account is Some {
        if key == Key::Char('l') {
            (closed(m), seq![EffectModel::Logout, EffectModel::Flash("logged out"@)])
        } else if key == Key::Esc || key == Key::Char('a') {
            only(closed(m))
        } else {
            only(m)
        }
    } else {
        match key {
            Key::Tab => only(UiModel { account_field: 1 - m.account_field, ..m }),
            Key::Enter => {
                let k = trimmed(m.account_key_input);
                let u = trimmed(m.account_username_input);
                if k.len() == 0 {
                    only(account_said(m, "enter license key"@))
                } else if u.len() == 0 {
                    only(account_said(m, "enter username"@))
                } else {
                    (
                        account_said(m, "registering..."@),
                        seq![EffectModel::Register { key: k, username: u }],
                    )
                }
            },
            Key::Esc => only(closed(m)),
            Key::Backspace => if m.account_field == 0 {
                only(UiModel { account_key_input: popped(m.account_key_input), ..m })
            } else {
                only(UiModel { account_username_input: popped(m.account_username_input), ..m })
            },
            Key::Char(ch) => if ch == '\x1b' {
                only(closed(m))
            } else if m.account_field == 0 {
                only(UiModel { account_key_input: m.account_key_input.push(ch), ..m })
            } else {
                only(UiModel { account_username_input: m.account_username_input.push(ch), ..m })
            },
            _ => only(m),
        }
    }
}

/// The friends panel with a status line.
pub open spec fn friends_said(m: UiModel, msg: Seq<char>) -> UiModel {
    UiModel { friends_status: Some(msg), ..m }
}

/// Keys of the friends panel: the add-friend input, or the list (move,
/// call, remove, start adding). Every key is taken.
pub open spec fn friends_step(m: UiModel, c: CtxModel, key: Key) -> Step {
    if m.friends_adding {
        match key {
            Key::Enter => {
                let name = trimmed(m.friends_add_input);
                if name.len() > 0 && c.account is Some {
                    (m, seq![EffectModel::FriendsAdd(c.account.unwrap().1, name)])
                } else {
                    only(m)
                }
            },
            Key::Esc | Key::Tab => only(UiModel { friends_adding: false, ..m }),
            Key::Backspace => only(UiModel { friends_add_input: popped(m.friends_add_input), ..m }),
            Key::Char(ch) => only(UiModel { friends_add_input: m.friends_add_input.push(ch), ..m }),
            _ => only(m),
        }
    } else {
        let has = 0 <= m.panel_cursor < m.friends_list.len() && c.account is Some;
        if is_up(key) {
            only(UiModel { panel_cursor: sat_dec(m.panel_cursor), ..m })
        } else if is_down(key) {
            only(UiModel { panel_cursor: cursor_down(m.panel_cursor, m.friends_list.len() as int), ..m })
        } else if key == Key::Enter || key == Key::Char('c') {
            if has {
                let friend = m.friends_list[m.panel_cursor];
                (
                    friends_said(m, "calling @"@ + friend + "..."@),
                    seq![EffectModel::CallUser(c.account.unwrap().1, friend)],
                )
            } else {
                only(m)
            }
        } else if key == Key::Char('x') {
            if has {
                (m, seq![EffectModel::FriendsRemove(c.account.unwrap().1, m.friends_list[m.panel_cursor])])
            } else {
                only(m)
            }
        } else if key == Key::Tab {
            only(UiModel { friends_adding: true, friends_add_input: Seq::empty(), ..m })
        } else if key == Key::Esc {
            only(closed(m))
        } else {
            only(m)
        }
    }
}

/// A key while a panel is open: `None` when the panel does not take it.
pub open spec fn panel_step(m: UiModel, c: CtxModel, key: Key) -> Option<Step> {
    match m.panel {
        None => None,
        Some(p) => {
            let switched = if text_input(m, c) {
                None
            } else {
                switch_step(m, c, p, key)
            };
            if switched is Some {
                switched
            } else {
                match p {
                    Panel::StylePicker => style_picker_step(m, key),
                    Panel::Settings => settings_step(m, c, key),
                    Panel::Preference => pref_step(m, key),
                    Panel::Connect => Some(connect_step(m, key)),
                    Panel::Account => Some(account_step(m, c, key)),
                    Panel::Friends => Some(friends_step(m, c, key)),
                }
            }
        },
    }
}

/// Toggle mute or camera during a call: flash the new state and tell the peer.
pub open spec fn toggled(n: UiModel, msg: Seq<char>) -> Step {
    (n, seq![EffectModel::Flash(msg), EffectModel::SendStatus])
}

/// A key no panel took.
pub open spec fn global_step(m: UiModel, c: CtxModel, key: Key) -> Step {
    let local = m.mode == CallMode::Local;
    let in_call = m.mode == CallMode::Call;
    let logged_in = c.account is Some;
    match key {
        Key::Esc => if local {
            only(UiModel { running: false, ..m })
        } else {
            (m, seq![EffectModel::EndCall])
        },
        Key::Char(ch) => if ch == 'q' {
            if local {
                only(UiModel { running: false, ..m })
            } else {
                (m, seq![EffectModel::EndCall])
            }
        } else if ch == 'c' {
            if local {
                only(UiModel { panel: Some(Panel::Connect), connect_input: Seq::empty(), ..m })
            } else {
                only(m)
            }
        } else if ch == '`' {
            only(UiModel { show_help: !m.show_help, ..m })
        } else if ch == 'r' {
            if local {
                (m, seq![EffectModel::CreateRoom])
            } else {
                only(m)
            }
        } else if ch == 'v' || ch == '1' {
            only(style_picker_opened(m))
        } else if ch == 's' || ch == '2' || ch == 'f' {
            only(settings_opened(m))
        } else if ch == ',' {
            only(UiModel { panel: Some(Panel::Preference), panel_cursor: 0, pref_editing: false, ..m })
        } else if ch == 'a' {
            only(account_opened(m))
        } else if ch == '4' {
            if logged_in {
                only(account_opened(m))
            } else {
                only(m)
            }
        } else if ch == '3' {
            if logged_in {
                friends_opened(m, c)
            } else {
                only(account_opened(m))
            }
        } else if ch == 'y' {
            (m, seq![EffectModel::ExportSave])
        } else if ch == 'u' {
            if c.plus {
                only(m)
            } else {
                (m, seq![EffectModel::OpenPlusPage, EffectModel::Flash("opening txxxt.me/plus..."@)])
            }
        } else if ch == '+' || ch == '=' {
            if in_call {
                only(UiModel { pip_scale_idx: cursor_down(m.pip_scale_idx, PIP_SCALE_COUNT as int), ..m })
            } else {
                only(m)
            }
        } else if ch == '-' {
            if in_call {
                only(UiModel { pip_scale_idx: sat_dec(m.pip_scale_idx), ..m })
            } else {
                only(m)
            }
        } else if ch == 'p' {
            if in_call {
                only(UiModel { pip_corner: next_corner(m.pip_corner), ..m })
            } else {
                only(m)
            }
        } else if ch == 'm' {
            if in_call {
                toggled(
                    UiModel { audio_muted: !m.audio_muted, ..m },
                    if m.audio_muted { "unmuted"@ } else { "muted"@ },
                )
            } else {
                only(m)
            }
        } else if ch == 'h' {
            if in_call {
                toggled(
                    UiModel { camera_hidden: !m.camera_hidden, ..m },
                    if m.camera_hidden { "camera on"@ } else { "camera off"@ },
                )
            } else {
                only(m)
            }
        } else {
            only(m)
        },
        _ => only(m),
    }
}

/// What a key press does: an incoming-call popup takes the key first
/// (`a` accepts, `d` or Esc declines), then the open panel, then the
/// global keys.
pub open spec fn key_step(m: UiModel, c: CtxModel, key: Key) -> Step {
    match m.pending_call {
        Some((caller, code)) => if key == Key::Char('a') || key == Key::Char('A') {
            (UiModel { pending_call: None, ..m }, seq![EffectModel::JoinRoom(code)])
        } else if key == Key::Char('d') || key == Key::Char('D') || key == Key::Esc {
            only(UiModel { pending_call: None, ..m })
        } else {
            only(m)
        },
        None => match panel_step(m, c, key) {
            Some(s) => s,
            None => global_step(m, c, key),
        },
    }
}

/// The bounds the state keeps: cursors inside their lists, the account field
/// 0 or 1, the PIP size a valid index.
pub open spec fn well_formed(m: UiModel) -> bool {
    &&& 0 <= m.panel_cursor < usize::MAX
    &&& m.panel == Some(Panel::StylePicker) ==> m.panel_cursor < STYLE_COUNT
    &&& m.panel == Some(Panel::Settings) ==> m.panel_cursor < SETTINGS_COUNT
    &&& m.panel == Some(Panel::Preference) ==> m.panel_cursor < 1
    &&& 0 <= m.account_field <= 1
    &&& 0 <= m.pip_scale_idx < PIP_SCALE_COUNT
    &&& 0 <= m.pref_dir_count <= usize::MAX
    &&& (m.pref_dir_cursor matches Some(i) ==> 0 <= i <= usize::MAX)
    &&& m.pref_tab_matches.len() > 0 ==> 0 <= m.pref_tab_index < m.pref_tab_matches.len()
    &&& m.friends_list.len() <= usize::MAX
}

/// The one key press on which the viewer's own code fails: moving down a
/// one-entry folder listing whose cursor is already on it.
pub open spec fn key_fails(m: UiModel, key: Key) -> bool {
    &&& m.pending_call is None
    &&& m.panel == Some(Panel::Preference)
    &&& m.pref_editing
    &&& key == Key::Down
    &&& m.pref_dir_count == 1
    &&& m.pref_dir_cursor is Some
}

impl ViewState {
    /// The state a fresh viewer starts in.
    pub fn new() -> (s: Self)
        ensures
            s@ == initial_model(),
    {
        let s = ViewState {
            config: RenderConfig::default(),
            running: true,
            panel: None,
            panel_cursor: 0,
            mode: CallMode::Local,
            show_help: false,
            pending_call: None,
            connect_input: String::new(),
            pip_corner: PipCorner::TopRight,
            pip_scale_idx: PIP_DEFAULT_SCALE_IDX,
            audio_muted: false,
            camera_hidden: false,
            save_dir: None,
            license_key: None,
            pref_editing: false,
            pref_input: String::new(),
            pref_dir_count: 0,
            pref_dir_cursor: None,
            pref_tab_matches: Vec::new(),
            pref_tab_index: 0,
            pref_tab_base: String::new(),
            account_field: 0,
            account_key_input: String::new(),
            account_username_input: String::new(),
            account_status: None,
            friends_list: Vec::new(),
            friends_adding: false,
            friends_add_input: String::new(),
            friends_status: None,
        };
        assert(s@.pref_tab_matches =~= Seq::<Seq<char>>::empty());
        assert(s@.friends_list =~= Seq::<Seq<char>>::empty());
        assert(s@ =~= initial_model());
        s
    }
}



/// The characters of a text result.
pub open spec fn text_result(r: Result<String, String>) -> Result<Seq<char>, Seq<char>> {
    match r {
        Ok(s) => Ok(s@),
        Err(e) => Err(e@),
    }
}

/// The characters of a (username, token) result.
pub open spec fn account_result(r: Result<(String, String), String>) -> Result<(Seq<char>, Seq<char>), Seq<char>> {
    match r {
        Ok((u, t)) => Ok((u@, t@)),
        Err(e) => Err(e@),
    }
}

/// The characters of a result that carries nothing on success.
pub open spec fn unit_result(r: Result<(), String>) -> Result<(), Seq<char>> {
    match r {
        Ok(()) => Ok(()),
        Err(e) => Err(e@),
    }
}

/// The friends list arrived: it replaces the list; a failure empties the
/// list and shows the error.
pub open spec fn friends_loaded_model(m: UiModel, r: Result<Seq<Seq<char>>, Seq<char>>) -> UiModel {
    match r {
        Ok(list) => UiModel { friends_list: list, ..m },
        Err(e) => UiModel { friends_list: Seq::empty(), friends_status: Some(e), ..m },
    }
}

/// Registration answered: on success the key and account are saved, the
/// panel closes and presence starts; on failure a login with the same key
/// is tried (the name may be registered already).
pub open spec fn register_done_step(m: UiModel, key: Seq<char>, r: Result<(Seq<char>, Seq<char>), Seq<char>>) -> Step {
    match r {
        Ok((u, t)) => (
            closed(m),
            seq![
                EffectModel::SaveLicenseKey(key),
                EffectModel::SaveAccount(u, t),
                EffectModel::Flash("registered as @"@ + u),
                EffectModel::StartPresence(t),
            ],
        ),
        Err(_) => (m, seq![EffectModel::Login(key)]),
    }
}

/// Login answered: on success the account is saved, the panel closes and
/// presence starts; on failure the error shows in the account panel.
pub open spec fn login_done_step(m: UiModel, r: Result<(Seq<char>, Seq<char>), Seq<char>>) -> Step {
    match r {
        Ok((u, t)) => (
            closed(m),
            seq![
                EffectModel::SaveAccount(u, t),
                EffectModel::Flash("logged in as @"@ + u),
                EffectModel::StartPresence(t),
            ],
        ),
        Err(e) => only(account_said(m, e)),
    }
}

/// Adding `name` answered: on success it joins the list and the input closes.
pub open spec fn friend_added_model(m: UiModel, name: Seq<char>, r: Result<(), Seq<char>>) -> UiModel {
    match r {
        Ok(()) => UiModel {
            friends_list: m.friends_list.push(name),
            friends_add_input: Seq::empty(),
            friends_adding: false,
            friends_status: Some("added @"@ + name),
            ..m
        },
        Err(e) => friends_said(m, e),
    }
}

/// Removing the friend under the cursor answered: on success it leaves the
/// list and the cursor stays on the list.
pub open spec fn friend_removed_model(m: UiModel, name: Seq<char>, r: Result<(), Seq<char>>) -> UiModel {
    match r {
        Ok(()) => {
            let list = m.friends_list.remove(m.panel_cursor);
            UiModel {
                friends_list: list,
                panel_cursor: if m.panel_cursor > 0 && m.panel_cursor >= list.len() {
                    m.panel_cursor - 1
                } else {
                    m.panel_cursor
                },
                friends_status: Some("removed @"@ + name),
                ..m
            }
        },
        Err(e) => friends_said(m, e),
    }
}

/// Calling a friend answered: join the room the server created.
pub open spec fn call_done_step(m: UiModel, r: Result<Seq<char>, Seq<char>>) -> Step {
    match r {
        Ok(code) => (closed(m), seq![EffectModel::JoinRoom(code)]),
        Err(e) => only(friends_said(m, e)),
    }
}

/// Tab completions arrived: remember them with the input they complete, and
/// show the first.
pub open spec fn tab_completed_step(m: UiModel, matches: Seq<Seq<char>>) -> Step {
    let n = UiModel { pref_tab_base: m.pref_input, pref_tab_matches: matches, pref_tab_index: 0, ..m };
    if matches.len() > 0 {
        (UiModel { pref_input: matches[0], pref_dir_cursor: None, ..n }, seq![EffectModel::ListDir])
    } else {
        only(n)
    }
}

/// Whether the produced state and effects are the ones a step names.
pub open spec fn stepped(s: Step, m: UiModel, e: Seq<Effect>) -> bool {
    s.0 == m && s.1 == effects_view(e)
}

/// No outside work.
fn no_effects() -> (e: Vec<Effect>)
    ensures
        effects_view(e@) == Seq::<EffectModel>::empty(),
{
    let e: Vec<Effect> = Vec::new();
    assert(effects_view(e@) =~= Seq::<EffectModel>::empty());
    e
}

/// One piece of outside work.
fn one_effect(a: Effect) -> (e: Vec<Effect>)
    ensures
        effects_view(e@) == seq![a@],
{
    let mut e: Vec<Effect> = Vec::new();
    e.push(a);
    assert(effects_view(e@) =~= seq![a@]);
    e
}

/// Two pieces of outside work, in order.
fn two_effects(a: Effect, b: Effect) -> (e: Vec<Effect>)
    ensures
        effects_view(e@) == seq![a@, b@],
{
    let mut e: Vec<Effect> = Vec::new();
    e.push(a);
    e.push(b);
    assert(effects_view(e@) =~= seq![a@, b@]);
    e
}

/// A string without its last character (unchanged when empty).
fn popped_string(s: &String) -> (r: String)
    ensures
        r@ == popped(s@),
{
    let cs = chars_of(s.as_str());
    if cs.len() > 0 {
        let init = crate::text::chars_until(cs.as_slice(), cs.len() - 1);
        assert(cs@.take(cs@.len() - 1) =~= cs@.drop_last());
        string_of(init.as_slice())
    } else {
        s.clone()
    }
}

/// `s` with `c` appended.
fn pushed_string(s: &String, c: char) -> (r: String)
    ensures
        r@ == s@.push(c),
{
    let mut r = s.clone();
    push_char(&mut r, c);
    r
}

/// The concatenation of three strings.
fn concat3(a: &str, b: &str, c: &str) -> (r: String)
    ensures
        r@ == a@ + b@ + c@,
{
    let mut r = String::from_str(a);
    push_chars(&mut r, chars_of(b).as_slice());
    push_chars(&mut r, chars_of(c).as_slice());
    r
}

/// A string's characters trimmed of white space.
fn trimmed_string(s: &String) -> (r: String)
    ensures
        r@ == trimmed(s@),
{
    let t = trim_chars(chars_of(s.as_str()).as_slice());
    string_of(t.as_slice())
}

/// A flash with a fixed message.
fn flash(msg: &str) -> (e: Effect)
    ensures
        e@ == EffectModel::Flash(msg@),
{
    Effect::Flash(String::from_str(msg))
}

impl ViewState {
    fn close(&mut self)
        ensures
            final(self)@ == closed(old(self)@),
    {
        self.panel = None;
        assert(self@ =~~= closed(old(self)@));
    }

    fn open_style_picker(&mut self)
        ensures
            final(self)@ == style_picker_opened(old(self)@),
    {
        self.panel = Some(Panel::StylePicker);
        self.panel_cursor = VisualStyle::from_config(&self.config).index();
        assert(self@ =~~= style_picker_opened(old(self)@));
    }

    fn open_settings(&mut self)
        ensures
            final(self)@ == settings_opened(old(self)@),
    {
        self.panel = Some(Panel::Settings);
        self.panel_cursor = 0;
        assert(self@ =~~= settings_opened(old(self)@));
    }

    fn open_account(&mut self)
        ensures
            final(self)@ == account_opened(old(self)@),
    {
        self.panel = Some(Panel::Account);
        self.account_field = 0;
        self.account_status = None;
        if self.account_key_input.as_str().unicode_len() == 0 {
            match &self.license_key {
                Some(k) => {
                    self.account_key_input = k.clone();
                },
                None => {},
            }
        }
        assert(self@ =~~= account_opened(old(self)@));
    }

    fn open_friends(&mut self, ctx: &Ctx) -> (e: Vec<Effect>)
        ensures
            stepped(friends_opened(old(self)@, ctx@), final(self)@, e@),
    {
        self.panel = Some(Panel::Friends);
        self.panel_cursor = 0;
        self.friends_adding = false;
        self.friends_add_input = String::new();
        self.friends_status = None;
        let ghost n = self@;
        let e = if self.friends_list.len() == 0 {
            match &ctx.account {
                Some((_, token)) => one_effect(Effect::RefreshFriends(token.clone())),
                None => no_effects(),
            }
        } else {
            no_effects()
        };
        assert(self@ =~~= friends_opened(old(self)@, ctx@).0);
        e
    }

    fn switch_panel(&mut self, ctx: &Ctx, p: Panel, key: Key) -> (r: Option<Vec<Effect>>)
        ensures
            match r {
                Some(e) => switch_step(old(self)@, ctx@, p, key) matches Some(s) && stepped(s, final(self)@, e@),
                None => switch_step(old(self)@, ctx@, p, key) is None && final(self)@ == old(self)@,
            },
    {
        let logged_in = ctx.account.is_some();
        match key {
            Key::Char(ch) => {
                if ch == 'v' || ch == '1' {
                    if p == Panel::StylePicker {
                        self.close();
                    } else {
                        self.open_style_picker();
                    }
                    Some(no_effects())
                } else if ch == 's' || ch == '2' || ch == 'f' {
                    if p == Panel::Settings {
                        self.close();
                    } else {
                        self.open_settings();
                    }
                    Some(no_effects())
                } else if ch == '3' {
                    if logged_in {
                        if p == Panel::Friends {
                            self.close();
                            Some(no_effects())
                        } else {
                            Some(self.open_friends(ctx))
                        }
                    } else {
                        if p == Panel::Account {
                            self.close();
                        } else {
                            self.open_account();
                        }
                        Some(no_effects())
                    }
                } else if ch == 'a' {
                    if p == Panel::Account {
                        self.close();
                    } else {
                        self.open_account();
                    }
                    Some(no_effects())
                } else if ch == '4' {
                    if logged_in {
                        if p == Panel::Account {
                            self.close();
                        } else {
                            self.open_account();
                        }
                    }
                    Some(no_effects())
                } else {
                    None
                }
            },
            _ => None,
        }
    }
}


impl ViewState {
    fn select_style(&mut self, i: usize)
        requires
            i < STYLE_COUNT,
        ensures
            final(self)@ == (UiModel {
                panel_cursor: i as int,
                config: style_applied(all_styles()[i as int], old(self)@.config),
                ..old(self)@
            }),
    {
        self.panel_cursor = i;
        VisualStyle::at(i).apply(&mut self.config);
        assert(self@ =~~= (UiModel {
            panel_cursor: i as int,
            config: style_applied(all_styles()[i as int], old(self)@.config),
            ..old(self)@
        }));
    }

    fn style_picker_key(&mut self, key: Key) -> (r: Option<Vec<Effect>>)
        requires
            well_formed(old(self)@),
            old(self).panel == Some(Panel::StylePicker),
        ensures
            match r {
                Some(e) => style_picker_step(old(self)@, key) matches Some(s) && stepped(s, final(self)@, e@),
                None => style_picker_step(old(self)@, key) is None && final(self)@ == old(self)@,
            },
    {
        let up = key == Key::Up || key == Key::Char('k');
        let down = key == Key::Down || key == Key::Char('j');
        if up || down {
            let i = if up {
                if self.panel_cursor > 0 {
                    self.panel_cursor - 1
                } else {
                    0
                }
            } else if self.panel_cursor + 1 < STYLE_COUNT {
                self.panel_cursor + 1
            } else {
                self.panel_cursor
            };
            self.select_style(i);
            Some(no_effects())
        } else if key == Key::Enter || key == Key::Esc || key == Key::Char('v') || key == Key::Char('q') {
            self.close();
            Some(no_effects())
        } else {
            None
        }
    }

    #[verifier::rlimit(40)]
    fn change_setting(&mut self, ctx: &Ctx, right: bool) -> (e: Vec<Effect>)
        requires
            old(self).panel_cursor < SETTINGS_COUNT,
        ensures
            stepped(setting_changed(old(self)@, ctx@, right), final(self)@, e@),
    {
        match SettingsItem::at(self.panel_cursor) {
            SettingsItem::Color => {
                self.config.color = !self.config.color;
            },
            SettingsItem::Background => {
                if self.config.bg_mode == BgMode::Person {
                    self.config.bg_mode = BgMode::Off;
                } else if ctx.model_ready {
                    self.config.bg_mode = BgMode::Person;
                } else {
                    return two_effects(flash("downloading segmentation model..."), Effect::DownloadModel);
                }
            },
            SettingsItem::Contour => {
                if ctx.model_ready {
                    self.config.contour = !self.config.contour;
                } else {
                    return two_effects(flash("downloading segmentation model..."), Effect::DownloadModel);
                }
            },
            SettingsItem::Mirror => {
                self.config.mirror = !self.config.mirror;
            },
            SettingsItem::Brightness => {
                let t = self.config.brightness_threshold;
                self.config.brightness_threshold = if right {
                    t.saturating_add(5)
                } else {
                    t.saturating_sub(5)
                };
            },
        }
        assert(self@ =~~= setting_changed(old(self)@, ctx@, right).0);
        no_effects()
    }

    fn settings_key(&mut self, ctx: &Ctx, key: Key) -> (r: Option<Vec<Effect>>)
        requires
            well_formed(old(self)@),
            old(self).panel == Some(Panel::Settings),
        ensures
            match r {
                Some(e) => settings_step(old(self)@, ctx@, key) matches Some(s) && stepped(s, final(self)@, e@),
                None => settings_step(old(self)@, ctx@, key) is None && final(self)@ == old(self)@,
            },
    {
        if key == Key::Up || key == Key::Char('k') {
            if self.panel_cursor > 0 {
                self.panel_cursor = self.panel_cursor - 1;
            }
            assert(self@ =~~= settings_step(old(self)@, ctx@, key).unwrap().0);
            Some(no_effects())
        } else if key == Key::Down || key == Key::Char('j') {
            if self.panel_cursor + 1 < SETTINGS_COUNT {
                self.panel_cursor = self.panel_cursor + 1;
            }
            assert(self@ =~~= settings_step(old(self)@, ctx@, key).unwrap().0);
            Some(no_effects())
        } else if key == Key::Left || key == Key::Right || key == Key::Char('h') || key == Key::Char('l')
            || key == Key::Enter {
            Some(self.change_setting(ctx, key == Key::Right || key == Key::Char('l')))
        } else if key == Key::Esc || key == Key::Char('s') || key == Key::Char('q') {
            self.close();
            Some(no_effects())
        } else {
            None
        }
    }

    fn clear_tab(&mut self)
        ensures
            final(self)@ == tab_cleared(old(self)@),
    {
        self.pref_tab_matches = Vec::new();
        self.pref_tab_index = 0;
        self.pref_tab_base = String::new();
        assert(self@ =~~= tab_cleared(old(self)@));
    }

    fn pref_edit(&mut self, input: String) -> (e: Vec<Effect>)
        ensures
            stepped(pref_edited(old(self)@, input@), final(self)@, e@),
    {
        self.pref_input = input;
        self.pref_dir_cursor = None;
        self.clear_tab();
        assert(self@ =~~= pref_edited(old(self)@, input@).0);
        one_effect(Effect::ListDir)
    }

    fn pref_enter(&mut self) -> (e: Vec<Effect>)
        requires
            well_formed(old(self)@),
        ensures
            stepped(pref_editing_step(old(self)@, Key::Enter), final(self)@, e@),
    {
        match self.pref_dir_cursor {
            Some(i) => {
                if i < self.pref_dir_count {
                    self.pref_dir_cursor = None;
                    self.clear_tab();
                    assert(self@ =~~= pref_editing_step(old(self)@, Key::Enter).0);
                    two_effects(Effect::PickDirEntry(i), Effect::ListDir)
                } else {
                    no_effects()
                }
            },
            None => {
                let v = trimmed_string(&self.pref_input);
                let shown = if v.as_str().unicode_len() == 0 {
                    self.save_dir = None;
                    String::from_str("~/Downloads")
                } else {
                    let shown = v.clone();
                    self.save_dir = Some(v);
                    shown
                };
                self.pref_editing = false;
                assert(self@ =~~= pref_editing_step(old(self)@, Key::Enter).0);
                assert(shown@ == shown_dir(self@.save_dir));
                let mut msg = String::from_str("save folder: ");
                push_chars(&mut msg, chars_of(shown.as_str()).as_slice());
                two_effects(Effect::SaveSettings, Effect::Flash(msg))
            },
        }
    }

    fn pref_tab(&mut self, key: Key) -> (e: Vec<Effect>)
        requires
            well_formed(old(self)@),
            key == Key::Tab || key == Key::BackTab,
        ensures
            stepped(pref_editing_step(old(self)@, key), final(self)@, e@),
    {
        let n = self.pref_tab_matches.len();
        if n == 0 || (key == Key::Tab && self.pref_tab_base != self.pref_input) {
            one_effect(Effect::TabComplete)
        } else {
            let i = (self.pref_tab_index + 1) % n;
            self.pref_tab_index = i;
            self.pref_input = self.pref_tab_matches[i].clone();
            self.pref_dir_cursor = None;
            assert(self@ =~~= pref_editing_step(old(self)@, key).0);
            one_effect(Effect::ListDir)
        }
    }

    fn pref_listing_cursor(&mut self, key: Key) -> (e: Vec<Effect>)
        requires
            well_formed(old(self)@),
            key == Key::Up || key == Key::Down,
            !(key == Key::Down && old(self).pref_dir_count == 1 && old(self).pref_dir_cursor is Some),
        ensures
            stepped(pref_editing_step(old(self)@, key), final(self)@, e@),
    {
        if key == Key::Up {
            match self.pref_dir_cursor {
                Some(i) => {
                    if i > 0 {
                        self.pref_dir_cursor = Some(i - 1);
                    } else {
                        self.pref_dir_cursor = None;
                    }
                },
                None => {},
            }
        } else if self.pref_dir_count > 0 {
            let last = self.pref_dir_count - 1;
            self.pref_dir_cursor = Some(
                match self.pref_dir_cursor {
                    None => 0,
                    Some(i) => if i < last - 1 {
                        i + 1
                    } else {
                        last
                    },
                },
            );
        }
        assert(self@ =~~= pref_editing_step(old(self)@, key).0);
        no_effects()
    }

    fn pref_editing_key(&mut self, key: Key) -> (e: Vec<Effect>)
        requires
            well_formed(old(self)@),
            !(key == Key::Down && old(self).pref_dir_count == 1 && old(self).pref_dir_cursor is Some),
        ensures
            stepped(pref_editing_step(old(self)@, key), final(self)@, e@),
    {
        match key {
            Key::Enter => self.pref_enter(),
            Key::Tab | Key::BackTab => self.pref_tab(key),
            Key::Up | Key::Down => self.pref_listing_cursor(key),
            Key::Esc => {
                self.pref_editing = false;
                self.pref_dir_cursor = None;
                self.clear_tab();
                assert(self@ =~~= pref_editing_step(old(self)@, key).0);
                no_effects()
            },
            Key::Backspace => {
                let input = popped_string(&self.pref_input);
                self.pref_edit(input)
            },
            Key::Char(ch) => {
                let input = pushed_string(&self.pref_input, ch);
                self.pref_edit(input)
            },
            _ => no_effects(),
        }
    }

    fn pref_key(&mut self, key: Key) -> (r: Option<Vec<Effect>>)
        requires
            well_formed(old(self)@),
            old(self).panel == Some(Panel::Preference),
            !(old(self).pref_editing && key == Key::Down && old(self).pref_dir_count == 1
                && old(self).pref_dir_cursor is Some),
        ensures
            match r {
                Some(e) => pref_step(old(self)@, key) matches Some(s) && stepped(s, final(self)@, e@),
                None => pref_step(old(self)@, key) is None && final(self)@ == old(self)@,
            },
    {
        if self.pref_editing {
            Some(self.pref_editing_key(key))
        } else if key == Key::Enter {
            let input = match &self.save_dir {
                Some(d) => d.clone(),
                None => String::from_str("~/Downloads"),
            };
            self.pref_editing = true;
            self.pref_input = input;
            self.pref_dir_cursor = None;
            self.clear_tab();
            assert(self@ =~~= pref_step(old(self)@, key).unwrap().0);
            Some(one_effect(Effect::ListDir))
        } else if key == Key::Up || key == Key::Char('k') || key == Key::Down || key == Key::Char('j') {
            if (key == Key::Up || key == Key::Char('k')) && self.panel_cursor > 0 {
                self.panel_cursor = self.panel_cursor - 1;
            }
            assert(self@ =~~= pref_step(old(self)@, key).unwrap().0);
            Some(no_effects())
        } else if key == Key::Esc || key == Key::Char(',') || key == Key::Char('q') {
            self.close();
            Some(no_effects())
        } else {
            None
        }
    }

    /// The connect panel's code was submitted (already trimmed and upper-cased):
    /// a non-empty code closes the panel and joins that room.
    pub fn submit_room_code(&mut self, code: String) -> (e: Vec<Effect>)
        ensures
            code@.len() > 0 ==> stepped((closed(old(self)@), seq![EffectModel::JoinRoom(code@)]), final(self)@, e@),
            code@.len() == 0 ==> stepped(only(old(self)@), final(self)@, e@),
    {
        if code.as_str().unicode_len() > 0 {
            self.close();
            one_effect(Effect::JoinRoom(code))
        } else {
            no_effects()
        }
    }

    fn connect_key(&mut self, key: Key) -> (e: Vec<Effect>)
        ensures
            stepped(connect_step(old(self)@, key), final(self)@, e@),
    {
        let empty = self.connect_input.as_str().unicode_len() == 0;
        match key {
            Key::Enter => {
                let t = trimmed_string(&self.connect_input);
                let code = to_uppercase(t.as_str());
                self.submit_room_code(code)
            },
            Key::Esc => {
                self.close();
                no_effects()
            },
            Key::Backspace => {
                self.connect_input = popped_string(&self.connect_input);
                assert(self@ =~~= connect_step(old(self)@, key).0);
                no_effects()
            },
            Key::Char(ch) => {
                if (ch == 'q' || ch == 'c') && empty {
                    self.close();
                } else {
                    self.connect_input = pushed_string(&self.connect_input, ch);
                    assert(self@ =~~= connect_step(old(self)@, key).0);
                }
                no_effects()
            },
            _ => no_effects(),
        }
    }

    fn account_key(&mut self, ctx: &Ctx, key: Key) -> (e: Vec<Effect>)
        requires
            well_formed(old(self)@),
        ensures
            stepped(account_step(old(self)@, ctx@, key), final(self)@, e@),
    {
        if ctx.account.is_some() {
            if key == Key::Char('l') {
                self.close();
                two_effects(Effect::Logout, flash("logged out"))
            } else if key == Key::Esc || key == Key::Char('a') {
                self.close();
                no_effects()
            } else {
                no_effects()
            }
        } else {
            match key {
                Key::Tab => {
                    self.account_field = 1 - self.account_field;
                    assert(self@ =~~= account_step(old(self)@, ctx@, key).0);
                    no_effects()
                },
                Key::Enter => {
                    let k = trimmed_string(&self.account_key_input);
                    let u = trimmed_string(&self.account_username_input);
                    if k.as_str().unicode_len() == 0 {
                        self.account_status = Some(String::from_str("enter license key"));
                        assert(self@ =~~= account_step(old(self)@, ctx@, key).0);
                        no_effects()
                    } else if u.as_str().unicode_len() == 0 {
                        self.account_status = Some(String::from_str("enter username"));
                        assert(self@ =~~= account_step(old(self)@, ctx@, key).0);
                        no_effects()
                    } else {
                        self.account_status = Some(String::from_str("registering..."));
                        assert(self@ =~~= account_step(old(self)@, ctx@, key).0);
                        one_effect(Effect::Register { key: k, username: u })
                    }
                },
                Key::Esc => {
                    self.close();
                    no_effects()
                },
                Key::Backspace => {
                    if self.account_field == 0 {
                        self.account_key_input = popped_string(&self.account_key_input);
                    } else {
                        self.account_username_input = popped_string(&self.account_username_input);
                    }
                    assert(self@ =~~= account_step(old(self)@, ctx@, key).0);
                    no_effects()
                },
                Key::Char(ch) => {
                    if ch == '\x1b' {
                        self.close();
                    } else if self.account_field == 0 {
                        self.account_key_input = pushed_string(&self.account_key_input, ch);
                    } else {
                        self.account_username_input = pushed_string(&self.account_username_input, ch);
                    }
                    assert(self@ =~~= account_step(old(self)@, ctx@, key).0);
                    no_effects()
                },
                _ => no_effects(),
            }
        }
    }

    fn friends_key(&mut self, ctx: &Ctx, key: Key) -> (e: Vec<Effect>)
        requires
            well_formed(old(self)@),
        ensures
            stepped(friends_step(old(self)@, ctx@, key), final(self)@, e@),
    {
        if self.friends_adding {
            match key {
                Key::Enter => {
                    let name = trimmed_string(&self.friends_add_input);
                    match &ctx.account {
                        Some((_, token)) => {
                            if name.as_str().unicode_len() > 0 {
                                one_effect(Effect::FriendsAdd(token.clone(), name))
                            } else {
                                no_effects()
                            }
                        },
                        None => no_effects(),
                    }
                },
                Key::Esc | Key::Tab => {
                    self.friends_adding = false;
                    assert(self@ =~~= friends_step(old(self)@, ctx@, key).0);
                    no_effects()
                },
                Key::Backspace => {
                    self.friends_add_input = popped_string(&self.friends_add_input);
                    assert(self@ =~~= friends_step(old(self)@, ctx@, key).0);
                    no_effects()
                },
                Key::Char(ch) => {
                    self.friends_add_input = pushed_string(&self.friends_add_input, ch);
                    assert(self@ =~~= friends_step(old(self)@, ctx@, key).0);
                    no_effects()
                },
                _ => no_effects(),
            }
        } else {
            let n = self.friends_list.len();
            if key == Key::Up || key == Key::Char('k') {
                if self.panel_cursor > 0 {
                    self.panel_cursor = self.panel_cursor - 1;
                }
                assert(self@ =~~= friends_step(old(self)@, ctx@, key).0);
                no_effects()
            } else if key == Key::Down || key == Key::Char('j') {
                if self.panel_cursor + 1 < n {
                    self.panel_cursor = self.panel_cursor + 1;
                }
                assert(self@ =~~= friends_step(old(self)@, ctx@, key).0);
                no_effects()
            } else if key == Key::Enter || key == Key::Char('c') || key == Key::Char('x') {
                match &ctx.account {
                    Some((_, token)) => {
                        if self.panel_cursor < n {
                            let friend = self.friends_list[self.panel_cursor].clone();
                            if key == Key::Char('x') {
                                one_effect(Effect::FriendsRemove(token.clone(), friend))
                            } else {
                                self.friends_status = Some(concat3("calling @", friend.as_str(), "..."));
                                assert(self@ =~~= friends_step(old(self)@, ctx@, key).0);
                                one_effect(Effect::CallUser(token.clone(), friend))
                            }
                        } else {
                            no_effects()
                        }
                    },
                    None => no_effects(),
                }
            } else if key == Key::Tab {
                self.friends_adding = true;
                self.friends_add_input = String::new();
                assert(self@ =~~= friends_step(old(self)@, ctx@, key).0);
                no_effects()
            } else if key == Key::Esc {
                self.close();
                no_effects()
            } else {
                no_effects()
            }
        }
    }
}


impl ViewState {
    /// A key while a panel is open; `None` when the panel leaves it to the global keys.
    fn panel_key(&mut self, ctx: &Ctx, key: Key) -> (r: Option<Vec<Effect>>)
        requires
            well_formed(old(self)@),
            !(old(self).panel == Some(Panel::Preference) && old(self).pref_editing && key == Key::Down
                && old(self).pref_dir_count == 1 && old(self).pref_dir_cursor is Some),
        ensures
            match r {
                Some(e) => panel_step(old(self)@, ctx@, key) matches Some(s) && stepped(s, final(self)@, e@),
                None => panel_step(old(self)@, ctx@, key) is None && final(self)@ == old(self)@,
            },
    {
        let p = match self.panel {
            Some(p) => p,
            None => return None,
        };
        let text = match p {
            Panel::Connect => true,
            Panel::Friends => self.friends_adding,
            Panel::Account => ctx.account.is_none(),
            _ => false,
        };
        if !text {
            let switched = self.switch_panel(ctx, p, key);
            if switched.is_some() {
                return switched;
            }
        }
        match p {
            Panel::StylePicker => self.style_picker_key(key),
            Panel::Settings => self.settings_key(ctx, key),
            Panel::Preference => self.pref_key(key),
            Panel::Connect => Some(self.connect_key(key)),
            Panel::Account => Some(self.account_key(ctx, key)),
            Panel::Friends => Some(self.friends_key(ctx, key)),
        }
    }

    fn toggle_effects(msg: &str) -> (e: Vec<Effect>)
        ensures
            effects_view(e@) == seq![EffectModel::Flash(msg@), EffectModel::SendStatus],
    {
        two_effects(flash(msg), Effect::SendStatus)
    }

    /// Keys that only act during a call: PIP size and corner, mute, camera.
    fn call_key(&mut self, ctx: &Ctx, ch: char) -> (e: Vec<Effect>)
        requires
            well_formed(old(self)@),
            old(self).mode == CallMode::Call,
            ch == '+' || ch == '=' || ch == '-' || ch == 'p' || ch == 'm' || ch == 'h',
        ensures
            stepped(global_step(old(self)@, ctx@, Key::Char(ch)), final(self)@, e@),
    {
        if ch == '+' || ch == '=' {
            if self.pip_scale_idx + 1 < PIP_SCALE_COUNT {
                self.pip_scale_idx = self.pip_scale_idx + 1;
            }
            assert(self@ =~~= global_step(old(self)@, ctx@, Key::Char(ch)).0);
            no_effects()
        } else if ch == '-' {
            if self.pip_scale_idx > 0 {
                self.pip_scale_idx = self.pip_scale_idx - 1;
            }
            assert(self@ =~~= global_step(old(self)@, ctx@, Key::Char(ch)).0);
            no_effects()
        } else if ch == 'p' {
            self.pip_corner = self.pip_corner.next();
            assert(self@ =~~= global_step(old(self)@, ctx@, Key::Char(ch)).0);
            no_effects()
        } else if ch == 'm' {
            self.audio_muted = !self.audio_muted;
            assert(self@ =~~= global_step(old(self)@, ctx@, Key::Char(ch)).0);
            if self.audio_muted {
                Self::toggle_effects("muted")
            } else {
                Self::toggle_effects("unmuted")
            }
        } else {
            self.camera_hidden = !self.camera_hidden;
            assert(self@ =~~= global_step(old(self)@, ctx@, Key::Char(ch)).0);
            if self.camera_hidden {
                Self::toggle_effects("camera off")
            } else {
                Self::toggle_effects("camera on")
            }
        }
    }

    /// Keys that open panels from the main view.
    fn menu_key(&mut self, ctx: &Ctx, ch: char) -> (e: Vec<Effect>)
        requires
            well_formed(old(self)@),
            ch == 'v' || ch == '1' || ch == 's' || ch == '2' || ch == ',' || ch == 'a' || ch == '4'
                || ch == 'f' || ch == '3',
        ensures
            stepped(global_step(old(self)@, ctx@, Key::Char(ch)), final(self)@, e@),
    {
        let logged_in = ctx.account.is_some();
        if ch == 'v' || ch == '1' {
            self.open_style_picker();
            no_effects()
        } else if ch == 's' || ch == '2' || ch == 'f' {
            self.open_settings();
            no_effects()
        } else if ch == ',' {
            self.panel = Some(Panel::Preference);
            self.panel_cursor = 0;
            self.pref_editing = false;
            assert(self@ =~~= global_step(old(self)@, ctx@, Key::Char(ch)).0);
            no_effects()
        } else if ch == 'a' || (ch == '4' && logged_in) || (ch == '3' && !logged_in) {
            self.open_account();
            no_effects()
        } else if ch == '4' {
            no_effects()
        } else {
            self.open_friends(ctx)
        }
    }

    /// A key no panel took.
    fn global_key(&mut self, ctx: &Ctx, key: Key) -> (e: Vec<Effect>)
        requires
            well_formed(old(self)@),
        ensures
            stepped(global_step(old(self)@, ctx@, key), final(self)@, e@),
    {
        let local = self.mode == CallMode::Local;
        let ch = match key {
            Key::Esc => {
                if local {
                    self.running = false;
                    assert(self@ =~~= global_step(old(self)@, ctx@, key).0);
                    return no_effects();
                } else {
                    return one_effect(Effect::EndCall);
                }
            },
            Key::Char(c) => c,
            _ => return no_effects(),
        };
        if ch == 'q' {
            if local {
                self.running = false;
                assert(self@ =~~= global_step(old(self)@, ctx@, key).0);
                no_effects()
            } else {
                one_effect(Effect::EndCall)
            }
        } else if ch == 'c' {
            if local {
                self.panel = Some(Panel::Connect);
                self.connect_input = String::new();
                assert(self@ =~~= global_step(old(self)@, ctx@, key).0);
            }
            no_effects()
        } else if ch == '`' {
            self.show_help = !self.show_help;
            assert(self@ =~~= global_step(old(self)@, ctx@, key).0);
            no_effects()
        } else if ch == 'r' {
            if local {
                one_effect(Effect::CreateRoom)
            } else {
                no_effects()
            }
        } else if ch == 'v' || ch == '1' || ch == 's' || ch == '2' || ch == ',' || ch == 'a' || ch == '4'
            || ch == 'f' || ch == '3' {
            self.menu_key(ctx, ch)
        } else if ch == 'y' {
            one_effect(Effect::ExportSave)
        } else if ch == 'u' {
            if ctx.plus {
                no_effects()
            } else {
                two_effects(Effect::OpenPlusPage, flash("opening txxxt.me/plus..."))
            }
        } else if (ch == '+' || ch == '=' || ch == '-' || ch == 'p' || ch == 'm' || ch == 'h')
            && self.mode == CallMode::Call {
            self.call_key(ctx, ch)
        } else {
            no_effects()
        }
    }

    /// Handle a key press: the new state and the outside work it asks for.
    pub fn handle_key(&mut self, ctx: &Ctx, key: Key) -> (e: Vec<Effect>)
        requires
            well_formed(old(self)@),
            !key_fails(old(self)@, key),
        ensures
            stepped(key_step(old(self)@, ctx@, key), final(self)@, e@),
            well_formed(final(self)@),
    {
        proof {
            lemma_key_step_well_formed(old(self)@, ctx@, key);
        }
        if self.pending_call.is_some() {
            if key == Key::Char('a') || key == Key::Char('A') {
                let call = self.pending_call.take();
                match call {
                    Some(c) => {
                        assert(self@ =~~= key_step(old(self)@, ctx@, key).0);
                        return one_effect(Effect::JoinRoom(c.code));
                    },
                    None => {
                        return no_effects();
                    },
                }
            } else if key == Key::Char('d') || key == Key::Char('D') || key == Key::Esc {
                self.pending_call = None;
                assert(self@ =~~= key_step(old(self)@, ctx@, key).0);
            }
            return no_effects();
        }
        match self.panel_key(ctx, key) {
            Some(e) => e,
            None => self.global_key(ctx, key),
        }
    }

    /// The friends list arrived (or failed).
    pub fn friends_loaded(&mut self, r: Result<Vec<String>, String>)
        ensures
            final(self)@ == friends_loaded_model(
                old(self)@,
                match r {
                    Ok(v) => Ok(strings_view(v@)),
                    Err(e) => Err(e@),
                },
            ),
    {
        match r {
            Ok(list) => {
                self.friends_list = list;
                assert(self@ =~~= friends_loaded_model(old(self)@, Ok(strings_view(list@))));
            },
            Err(e) => {
                self.friends_list = Vec::new();
                self.friends_status = Some(e);
                assert(self@ =~~= friends_loaded_model(old(self)@, Err(e@)));
            },
        }
    }

    /// The registration of `key` answered.
    pub fn register_done(&mut self, key: String, r: Result<(String, String), String>) -> (e: Vec<Effect>)
        ensures
            stepped(register_done_step(old(self)@, key@, account_result(r)), final(self)@, e@),
    {
        match r {
            Ok((u, t)) => {
                self.close();
                let mut e: Vec<Effect> = Vec::new();
                let msg = concat3("registered as @", u.as_str(), "");
                e.push(Effect::SaveLicenseKey(key));
                e.push(Effect::SaveAccount(u, t.clone()));
                e.push(Effect::Flash(msg));
                e.push(Effect::StartPresence(t));
                proof {
                    reveal_strlit("");
                }
                assert(effects_view(e@) =~= register_done_step(old(self)@, key@, account_result(r)).1);
                e
            },
            Err(_) => one_effect(Effect::Login(key)),
        }
    }

    /// The login answered.
    pub fn login_done(&mut self, r: Result<(String, String), String>) -> (e: Vec<Effect>)
        ensures
            stepped(login_done_step(old(self)@, account_result(r)), final(self)@, e@),
    {
        match r {
            Ok((u, t)) => {
                self.close();
                let mut e: Vec<Effect> = Vec::new();
                let msg = concat3("logged in as @", u.as_str(), "");
                e.push(Effect::SaveAccount(u, t.clone()));
                e.push(Effect::Flash(msg));
                e.push(Effect::StartPresence(t));
                proof {
                    reveal_strlit("");
                }
                assert(effects_view(e@) =~= login_done_step(old(self)@, account_result(r)).1);
                e
            },
            Err(msg) => {
                self.account_status = Some(msg);
                assert(self@ =~~= login_done_step(old(self)@, account_result(r)).0);
                no_effects()
            },
        }
    }

    /// Adding friend `name` answered.
    pub fn friend_added(&mut self, name: String, r: Result<(), String>)
        ensures
            final(self)@ == friend_added_model(old(self)@, name@, unit_result(r)),
    {
        match r {
            Ok(()) => {
                proof {
                    reveal_strlit("");
                }
                let status = concat3("added @", name.as_str(), "");
                self.friends_list.push(name);
                self.friends_add_input = String::new();
                self.friends_adding = false;
                self.friends_status = Some(status);
                assert(strings_view(self.friends_list@) =~= old(self)@.friends_list.push(name@));
                assert(self@ =~~= friend_added_model(old(self)@, name@, unit_result(r)));
            },
            Err(e) => {
                self.friends_status = Some(e);
                assert(self@ =~~= friend_added_model(old(self)@, name@, unit_result(r)));
            },
        }
    }

    /// Removing friend `name`, the one under the cursor, answered.
    pub fn friend_removed(&mut self, name: String, r: Result<(), String>)
        requires
            old(self).panel_cursor < old(self).friends_list@.len(),
        ensures
            final(self)@ == friend_removed_model(old(self)@, name@, unit_result(r)),
    {
        match r {
            Ok(()) => {
                proof {
                    reveal_strlit("");
                }
                let status = concat3("removed @", name.as_str(), "");
                self.friends_list.remove(self.panel_cursor);
                if self.panel_cursor > 0 && self.panel_cursor >= self.friends_list.len() {
                    self.panel_cursor = self.panel_cursor - 1;
                }
                self.friends_status = Some(status);
                assert(strings_view(self.friends_list@) =~= old(self)@.friends_list.remove(
                    old(self).panel_cursor as int,
                ));
                assert(self@ =~~= friend_removed_model(old(self)@, name@, unit_result(r)));
            },
            Err(e) => {
                self.friends_status = Some(e);
                assert(self@ =~~= friend_removed_model(old(self)@, name@, unit_result(r)));
            },
        }
    }

    /// Calling a friend answered with a room code (or failed).
    pub fn call_done(&mut self, r: Result<String, String>) -> (e: Vec<Effect>)
        ensures
            stepped(call_done_step(old(self)@, text_result(r)), final(self)@, e@),
    {
        match r {
            Ok(code) => {
                self.close();
                one_effect(Effect::JoinRoom(code))
            },
            Err(msg) => {
                self.friends_status = Some(msg);
                assert(self@ =~~= call_done_step(old(self)@, text_result(r)).0);
                no_effects()
            },
        }
    }

    /// Tab completions of the preference input arrived.
    pub fn tab_completed(&mut self, matches: Vec<String>) -> (e: Vec<Effect>)
        ensures
            stepped(tab_completed_step(old(self)@, strings_view(matches@)), final(self)@, e@),
    {
        self.pref_tab_base = self.pref_input.clone();
        self.pref_tab_index = 0;
        if matches.len() > 0 {
            self.pref_input = matches[0].clone();
            self.pref_dir_cursor = None;
            self.pref_tab_matches = matches;
            assert(self@ =~~= tab_completed_step(old(self)@, strings_view(matches@)).0);
            one_effect(Effect::ListDir)
        } else {
            self.pref_tab_matches = matches;
            assert(self@ =~~= tab_completed_step(old(self)@, strings_view(matches@)).0);
            no_effects()
        }
    }
}

/// What the call timer says for free users.
#[derive(Debug, Clone, PartialEq, Eq)]
pub enum CallLimit {
    /// Nothing to say.
    Quiet,
    /// Show this warning.
    Warn(String),
    /// The call reached the limit: show this message and end the call.
    End(String),
}

/// Length of a free call, in seconds.
pub const FREE_CALL_SECS: u64 = 300;

/// What the call timer says after `elapsed` seconds of a free call.
pub open spec fn call_limit_spec(elapsed: u64) -> (int, Seq<char>) {
    if elapsed >= 300 {
        (2, "5 min limit — press [u] to upgrade"@)
    } else if 300 - elapsed == 60 {
        (1, "1 minute remaining"@)
    } else if 300 - elapsed == 30 {
        (1, "30 seconds remaining"@)
    } else {
        (0, Seq::empty())
    }
}

/// The call timer of free users: warnings one minute and thirty seconds
/// before the five-minute limit, and the end of the call at the limit.
pub fn call_limit(elapsed: u64) -> (r: CallLimit)
    ensures
        match r {
            CallLimit::Quiet => call_limit_spec(elapsed).0 == 0,
            CallLimit::Warn(m) => call_limit_spec(elapsed) == (1int, m@),
            CallLimit::End(m) => call_limit_spec(elapsed) == (2int, m@),
        },
{
    if elapsed >= FREE_CALL_SECS {
        CallLimit::End(String::from_str("5 min limit — press [u] to upgrade"))
    } else if FREE_CALL_SECS - elapsed == 60 {
        CallLimit::Warn(String::from_str("1 minute remaining"))
    } else if FREE_CALL_SECS - elapsed == 30 {
        CallLimit::Warn(String::from_str("30 seconds remaining"))
    } else {
        CallLimit::Quiet
    }
}

/// Columns and rows of the rendered view inside a terminal of `width` x
/// `height`: a border on each side, a status line, and half the columns for
/// double-width character sets.
pub open spec fn view_size_spec(width: u16, height: u16, config: RenderConfig) -> (int, int) {
    let raw = if width >= 2 { width - 2 } else { 0 };
    let cols = if config.mode == crate::render::RenderMode::Normal && crate::charsets::charset_is_wide(
        config.charset,
    ) {
        raw / 2
    } else {
        raw
    };
    (cols, if height >= 3 { height - 3 } else { 0 })
}

/// The size of the rendered view in a terminal of `width` x `height`.
pub fn view_size(width: u16, height: u16, config: &RenderConfig) -> (r: (u16, u16))
    ensures
        (r.0 as int, r.1 as int) == view_size_spec(width, height, *config),
{
    let raw = width.saturating_sub(2);
    let cols = if config.mode == crate::render::RenderMode::Normal && config.charset.is_wide() {
        raw / 2
    } else {
        raw
    };
    (cols, height.saturating_sub(3))
}

/// The picture-in-picture rectangle (x, y, width, height) inside the area
/// (x, y, width, height): `scale` percent of the area, at least 16 x 6,
/// one cell in from the chosen corner.
pub open spec fn pip_rect_spec(area: (u16, u16, u16, u16), corner: PipCorner, scale: u16) -> (int, int, int, int) {
    let (x, y, w, h) = area;
    let pw = if w * scale / 100 > 16 { w * scale / 100 } else { 16 };
    let ph = if h * scale / 100 > 6 { h * scale / 100 } else { 6 };
    let left = x + 1;
    let right = x + w - pw - 1;
    let top = y + 1;
    let bottom = y + h - ph - 1;
    match corner {
        PipCorner::TopRight => (right, top, pw, ph),
        PipCorner::TopLeft => (left, top, pw, ph),
        PipCorner::BottomRight => (right, bottom, pw, ph),
        PipCorner::BottomLeft => (left, bottom, pw, ph),
    }
}

/// Whether the PIP position at `corner` is computed without leaving `u16`.
pub open spec fn pip_fits(area: (u16, u16, u16, u16), corner: PipCorner, scale: u16) -> bool {
    let (x, y, w, h) = area;
    let (px, py, pw, ph) = pip_rect_spec(area, corner, scale);
    &&& w * scale <= u16::MAX
    &&& h * scale <= u16::MAX
    &&& (corner == PipCorner::TopRight || corner == PipCorner::BottomRight) ==> x + w <= u16::MAX && px >= 0
    &&& (corner == PipCorner::TopLeft || corner == PipCorner::BottomLeft) ==> x + 1 <= u16::MAX
    &&& (corner == PipCorner::BottomRight || corner == PipCorner::BottomLeft) ==> y + h <= u16::MAX && py >= 0
    &&& (corner == PipCorner::TopRight || corner == PipCorner::TopLeft) ==> y + 1 <= u16::MAX
}

/// The rectangle of the local picture during a call.
pub fn pip_rect(area: (u16, u16, u16, u16), corner: PipCorner, scale: u16) -> (r: (u16, u16, u16, u16))
    requires
        pip_fits(area, corner, scale),
    ensures
        (r.0 as int, r.1 as int, r.2 as int, r.3 as int) == pip_rect_spec(area, corner, scale),
{
    let (x, y, w, h) = area;
    let sw = w * scale / 100;
    let sh = h * scale / 100;
    let pw = if sw > 16 { sw } else { 16 };
    let ph = if sh > 6 { sh } else { 6 };
    match corner {
        PipCorner::TopRight => (x + w - pw - 1, y + 1, pw, ph),
        PipCorner::TopLeft => (x + 1, y + 1, pw, ph),
        PipCorner::BottomRight => (x + w - pw - 1, y + h - ph - 1, pw, ph),
        PipCorner::BottomLeft => (x + 1, y + h - ph - 1, pw, ph),
    }
}

/// Where the own picture goes in a saved call snapshot of `cols` x `rows`
/// cells: (x, y, width, height), `scale` percent of the snapshot and at
/// least 16 x 6, against the chosen corner (one cell in on the right and
/// bottom sides, clamped at zero).
pub open spec fn export_pip_spec(cols: int, rows: int, corner: PipCorner, scale: int) -> (int, int, int, int) {
    let pw = if cols * scale / 100 > 16 { cols * scale / 100 } else { 16 };
    let ph = if rows * scale / 100 > 6 { rows * scale / 100 } else { 6 };
    let right = if cols >= pw + 1 { cols - (pw + 1) } else { 0 };
    let bottom = if rows >= ph + 1 { rows - (ph + 1) } else { 0 };
    match corner {
        PipCorner::TopRight => (right, 0, pw, ph),
        PipCorner::TopLeft => (0, 0, pw, ph),
        PipCorner::BottomRight => (right, bottom, pw, ph),
        PipCorner::BottomLeft => (0, bottom, pw, ph),
    }
}

/// The own picture's place in a saved call snapshot.
pub fn export_pip_layout(cols: usize, rows: usize, corner: PipCorner, scale: usize) -> (r: (
    usize,
    usize,
    usize,
    usize,
))
    requires
        cols * scale <= usize::MAX,
        rows * scale <= usize::MAX,
    ensures
        (r.0 as int, r.1 as int, r.2 as int, r.3 as int) == export_pip_spec(
            cols as int,
            rows as int,
            corner,
            scale as int,
        ),
{
    let sw = cols * scale / 100;
    let sh = rows * scale / 100;
    let pw = if sw > 16 { sw } else { 16 };
    let ph = if sh > 6 { sh } else { 6 };
    let right = if cols >= pw && cols - pw >= 1 { cols - pw - 1 } else { 0 };
    let bottom = if rows >= ph && rows - ph >= 1 { rows - ph - 1 } else { 0 };
    match corner {
        PipCorner::TopRight => (right, 0, pw, ph),
        PipCorner::TopLeft => (0, 0, pw, ph),
        PipCorner::BottomRight => (right, bottom, pw, ph),
        PipCorner::BottomLeft => (0, bottom, pw, ph),
    }
}

/// The person mask shown next: where the new raw mask agrees with the
/// previous raw mask it is taken, elsewhere the shown mask is kept (a pixel
/// changes only when two masks in a row agree). Without a shown and a
/// previous mask of the same size, the new mask is taken as it is.
pub open spec fn stabilized(stable: Option<Seq<bool>>, prev: Option<Seq<bool>>, new: Seq<bool>) -> Seq<bool> {
    match (stable, prev) {
        (Some(s), Some(p)) if s.len() == new.len() && p.len() == new.len() => Seq::new(
            new.len(),
            |i: int| if p[i] == new[i] { new[i] } else { s[i] },
        ),
        _ => new,
    }
}

/// Steady the person mask between frames.
pub fn stabilize_mask(stable: Option<&[bool]>, prev: Option<&[bool]>, new: &[bool]) -> (r: Vec<bool>)
    ensures
        r@ == stabilized(
            match stable {
                Some(s) => Some(s@),
                None => None,
            },
            match prev {
                Some(p) => Some(p@),
                None => None,
            },
            new@,
        ),
{
    let mut out: Vec<bool> = Vec::new();
    match (stable, prev) {
        (Some(s), Some(p)) => {
            if s.len() == new.len() && p.len() == new.len() {
                let mut i: usize = 0;
                while i < new.len()
                    invariant
                        s@.len() == new@.len(),
                        p@.len() == new@.len(),
                        i <= new@.len(),
                        out@.len() == i,
                        forall|k: int| 0 <= k < i ==> out@[k] == (if p@[k] == new@[k] { new@[k] } else { s@[k] }),
                    decreases new@.len() - i,
                {
                    out.push(if p[i] == new[i] { new[i] } else { s[i] });
                    i = i + 1;
                }
                proof {
                    assert(out@ =~= stabilized(Some(s@), Some(p@), new@));
                }
                return out;
            }
        },
        _ => {},
    }
    let mut i: usize = 0;
    while i < new.len()
        invariant
            i <= new@.len(),
            out@ == new@.take(i as int),
        decreases new@.len() - i,
    {
        out.push(new[i]);
        i = i + 1;
        assert(out@ =~= new@.take(i as int));
    }
    assert(new@.take(new@.len() as int) =~= new@);
    out
}

/// The invitation put on the clipboard for a new room.
pub open spec fn invite_spec(code: Seq<char>) -> Seq<char> {
    "txxxt me ↓\ncode: "@ + code + "\ntxxxt.me/"@ + code
}

/// The invitation text for room `code`.
pub fn invite_text(code: &str) -> (r: String)
    ensures
        r@ == invite_spec(code@),
{
    let c = chars_of(code);
    let mut r = String::from_str("txxxt me ↓\ncode: ");
    push_chars(&mut r, c.as_slice());
    push_chars(&mut r, chars_of("\ntxxxt.me/").as_slice());
    push_chars(&mut r, c.as_slice());
    r
}

/// The flash shown once a room exists: whether the invitation reached the
/// clipboard, and the code.
pub open spec fn invite_flash_spec(code: Seq<char>, copied: bool) -> Seq<char> {
    if copied {
        "invite copied! code: "@ + code
    } else {
        "code: "@ + code + " | txxxt.me/"@ + code
    }
}

/// The flash for a new room.
pub fn invite_flash(code: &str, copied: bool) -> (r: String)
    ensures
        r@ == invite_flash_spec(code@, copied),
{
    let c = chars_of(code);
    if copied {
        let mut r = String::from_str("invite copied! code: ");
        push_chars(&mut r, c.as_slice());
        r
    } else {
        let mut r = String::from_str("code: ");
        push_chars(&mut r, c.as_slice());
        push_chars(&mut r, chars_of(" | txxxt.me/").as_slice());
        push_chars(&mut r, c.as_slice());
        r
    }
}

impl ViewState {
    /// A call notification arrived on the presence connection: it waits for
    /// an answer unless another one already does; the empty notification the
    /// connection uses to probe the channel is dropped.
    pub fn incoming(&mut self, call: IncomingCall)
        ensures
            final(self)@ == (if old(self).pending_call is None && call.caller@.len() > 0 {
                UiModel { pending_call: Some((call.caller@, call.code@)), ..old(self)@ }
            } else {
                old(self)@
            }),
    {
        if self.pending_call.is_none() && call.caller.as_str().unicode_len() > 0 {
            let ghost cv = (call.caller@, call.code@);
            self.pending_call = Some(call);
            assert(self@ =~~= UiModel { pending_call: Some(cv), ..old(self)@ });
        }
    }
}

proof fn lemma_pref_step_well_formed(m: UiModel, key: Key)
    requires
        well_formed(m),
        m.panel == Some(Panel::Preference),
        !(m.pref_editing && key == Key::Down && m.pref_dir_count == 1 && m.pref_dir_cursor is Some),
    ensures
        pref_step(m, key) matches Some(s) ==> well_formed(s.0),
{
    if m.pref_editing {
        assert(well_formed(pref_editing_step(m, key).0));
    }
}

proof fn lemma_switch_step_well_formed(m: UiModel, c: CtxModel, p: Panel, key: Key)
    requires
        well_formed(m),
    ensures
        switch_step(m, c, p, key) matches Some(s) ==> well_formed(s.0),
{
}

proof fn lemma_style_picker_step_well_formed(m: UiModel, key: Key)
    requires
        well_formed(m),
        m.panel == Some(Panel::StylePicker),
    ensures
        style_picker_step(m, key) matches Some(s) ==> well_formed(s.0),
{
}

proof fn lemma_settings_step_well_formed(m: UiModel, c: CtxModel, key: Key)
    requires
        well_formed(m),
        m.panel == Some(Panel::Settings),
    ensures
        settings_step(m, c, key) matches Some(s) ==> well_formed(s.0),
{
}

proof fn lemma_text_panels_well_formed(m: UiModel, c: CtxModel, key: Key)
    requires
        well_formed(m),
    ensures
        well_formed(connect_step(m, key).0),
        well_formed(account_step(m, c, key).0),
        m.panel == Some(Panel::Friends) ==> well_formed(friends_step(m, c, key).0),
{
}

proof fn lemma_panel_step_well_formed(m: UiModel, c: CtxModel, key: Key)
    requires
        well_formed(m),
        !(m.panel == Some(Panel::Preference) && m.pref_editing && key == Key::Down && m.pref_dir_count == 1
            && m.pref_dir_cursor is Some),
    ensures
        panel_step(m, c, key) matches Some(s) ==> well_formed(s.0),
{
    match m.panel {
        None => {},
        Some(p) => {
            lemma_switch_step_well_formed(m, c, p, key);
            lemma_text_panels_well_formed(m, c, key);
            match p {
                Panel::StylePicker => lemma_style_picker_step_well_formed(m, key),
                Panel::Settings => lemma_settings_step_well_formed(m, c, key),
                Panel::Preference => lemma_pref_step_well_formed(m, key),
                _ => {},
            }
        },
    }
}

proof fn lemma_global_step_well_formed(m: UiModel, c: CtxModel, key: Key)
    requires
        well_formed(m),
    ensures
        well_formed(global_step(m, c, key).0),
{
}

/// Every key press keeps the interface state well formed (on the inputs on
/// which the viewer's own code does not fail).
pub proof fn lemma_key_step_well_formed(m: UiModel, c: CtxModel, key: Key)
    requires
        well_formed(m),
        !key_fails(m, key),
    ensures
        well_formed(key_step(m, c, key).0),
{
    if m.pending_call is None {
        lemma_panel_step_well_formed(m, c, key);
        lemma_global_step_well_formed(m, c, key);
    }
}


/// The style keys (`v`, `1`) and the settings keys (`s`, `2`, `f`) toggle
/// their panel: from the main view, the key opens its panel and pressing it
/// again closes it, without changing the render settings or asking for
/// outside work.
pub proof fn lemma_menu_key_toggles(m: UiModel, c: CtxModel, ch: char)
    requires
        m.pending_call is None,
        m.panel is None,
        ch == 'v' || ch == '1' || ch == 's' || ch == '2' || ch == 'f',
    ensures
        (ch == 'v' || ch == '1') ==> key_step(m, c, Key::Char(ch)).0.panel == Some(Panel::StylePicker),
        (ch == 's' || ch == '2' || ch == 'f') ==> key_step(m, c, Key::Char(ch)).0.panel == Some(
            Panel::Settings,
        ),
        key_step(m, c, Key::Char(ch)).1.len() == 0,
        key_step(key_step(m, c, Key::Char(ch)).0, c, Key::Char(ch)).0.panel is None,
        key_step(key_step(m, c, Key::Char(ch)).0, c, Key::Char(ch)).0.config == m.config,
        key_step(key_step(m, c, Key::Char(ch)).0, c, Key::Char(ch)).1.len() == 0,
{
    let m1 = key_step(m, c, Key::Char(ch)).0;
    assert(m1.pending_call is None);
    assert(!text_input(m1, c));
}

/// In a call, with no panel open and no incoming call waiting, `m` mutes and
/// unmutes the microphone and `h` hides and shows the camera: a press flips
/// that one setting and tells the peer, and a second press restores the state.
pub proof fn lemma_call_keys_toggle(m: UiModel, c: CtxModel, ch: char)
    requires
        m.pending_call is None,
        m.panel is None,
        m.mode == CallMode::Call,
        ch == 'm' || ch == 'h',
    ensures
        ({
            let m1 = key_step(m, c, Key::Char(ch)).0;
            &&& ch == 'm' ==> m1 == UiModel { audio_muted: !m.audio_muted, ..m }
            &&& ch == 'h' ==> m1 == UiModel { camera_hidden: !m.camera_hidden, ..m }
            &&& key_step(m, c, Key::Char(ch)).1.last() == EffectModel::SendStatus
            &&& key_step(m1, c, Key::Char(ch)).0 == m
        }),
{
    let m1 = key_step(m, c, Key::Char(ch)).0;
    assert(m1.pending_call is None && m1.panel is None);
}

/// In a call, with no panel open and no incoming call waiting, `-` shrinks
/// the picture-in-picture one size step and `+` (or `=`) grows it one step,
/// each stopping at the end of the size list and changing nothing else; from
/// any size below the largest, `+` then `-` comes back to the same state, and
/// from any size above the smallest, `-` then `+` does.
pub proof fn lemma_pip_size_keys(m: UiModel, c: CtxModel)
    requires
        m.pending_call is None,
        m.panel is None,
        m.mode == CallMode::Call,
        0 <= m.pip_scale_idx < PIP_SCALE_COUNT,
    ensures
        ({
            let shrunk = key_step(m, c, Key::Char('-'));
            let grown = key_step(m, c, Key::Char('+'));
            &&& m.pip_scale_idx > 0 ==> shrunk.0 == UiModel { pip_scale_idx: m.pip_scale_idx - 1, ..m }
            &&& m.pip_scale_idx == 0 ==> shrunk.0 == m
            &&& shrunk.1.len() == 0
            &&& m.pip_scale_idx + 1 < PIP_SCALE_COUNT ==> grown.0 == UiModel {
                pip_scale_idx: m.pip_scale_idx + 1,
                ..m
            }
            &&& m.pip_scale_idx + 1 == PIP_SCALE_COUNT ==> grown.0 == m
            &&& key_step(m, c, Key::Char('=')) == grown
            &&& grown.1.len() == 0
            &&& m.pip_scale_idx + 1 < PIP_SCALE_COUNT ==> key_step(grown.0, c, Key::Char('-')).0 == m
            &&& m.pip_scale_idx > 0 ==> key_step(shrunk.0, c, Key::Char('+')).0 == m
        }),
{
    let shrunk = key_step(m, c, Key::Char('-')).0;
    let grown = key_step(m, c, Key::Char('+')).0;
    assert(shrunk.pending_call is None && shrunk.panel is None && shrunk.mode == CallMode::Call);
    assert(grown.pending_call is None && grown.panel is None && grown.mode == CallMode::Call);
}

} // verus!
