//! Persisted user settings and the rules applied to them: render settings,
//! the txxxt+ license state, the saved account and the daily call allowance
//! of free users. Reading and writing the settings file is left to the caller.
use vstd::prelude::*;
use vstd::string::StringSliceAdditionalSpecFns;

use crate::charsets::{charset_is_wide, CharsetName};
use crate::render::{BgMode, RenderConfig};
use crate::text::{chars_of, push_char, str_eq};
use crate::tui::{style_applied, style_label, style_named, style_of_config, VisualStyle};

verus! {

/// Persisted user settings.
#[derive(Debug, Clone)]
pub struct UserConfig {
    pub color: bool,
    /// Background mode: "off", "motion", or "person".
    pub bg_mode: String,
    /// Legacy field — migrated to bg_mode on load.
    pub bg_removal: Option<bool>,
    pub contour: bool,
    pub mirror: bool,
    pub brightness_threshold: u8,
    pub style: String,
    /// Custom save directory. None = ~/Downloads.
    pub save_dir: Option<String>,
    /// txxxt+ license key.
    pub license_key: Option<String>,
    /// Unix timestamp of last successful license validation.
    pub license_validated_at: Option<u64>,
    /// Registered username (txxxt+).
    pub username: Option<String>,
    /// Session token for authenticated relay commands.
    pub session_token: Option<String>,
    /// Number of calls made today (free users: max 5/day).
    pub calls_today: u8,
    /// Date of last call count (YYYY-MM-DD). Resets when day changes.
    pub calls_date: Option<String>,
}

/// Characters of an optional string.
pub open spec fn opt_view(o: Option<String>) -> Option<Seq<char>> {
    match o {
        Some(s) => Some(s@),
        None => None,
    }
}

pub fn default_false() -> (r: bool)
    ensures
        r == false,
{
    false
}

pub fn default_true() -> (r: bool)
    ensures
        r == true,
{
    true
}

pub fn default_brightness_threshold() -> (r: u8)
    ensures
        r == 85,
{
    85
}

pub fn default_style() -> (r: String)
    ensures
        r@ == "standard"@,
{
    String::from_str("standard")
}

pub fn default_bg_mode() -> (r: String)
    ensures
        r@ == "off"@,
{
    String::from_str("off")
}

/// The settings of a fresh installation.
pub open spec fn is_default_config(c: UserConfig) -> bool {
    &&& c.color == false
    &&& c.bg_mode@ == "off"@
    &&& c.bg_removal is None
    &&& c.contour == false
    &&& c.mirror == true
    &&& c.brightness_threshold == 85
    &&& c.style@ == "standard"@
    &&& c.save_dir is None
    &&& c.license_key is None
    &&& c.license_validated_at is None
    &&& c.username is None
    &&& c.session_token is None
    &&& c.calls_today == 0
    &&& c.calls_date is None
}

impl Default for UserConfig {
    fn default() -> (r: Self)
        ensures
            is_default_config(r),
    {
        UserConfig {
            color: false,
            bg_mode: String::from_str("off"),
            bg_removal: None,
            contour: false,
            mirror: true,
            brightness_threshold: 85,
            style: String::from_str("standard"),
            save_dir: None,
            license_key: None,
            license_validated_at: None,
            username: None,
            session_token: None,
            calls_today: 0,
            calls_date: None,
        }
    }
}

/// The background mode a stored name selects; unknown names select `Off`.
pub open spec fn bg_mode_named(s: Seq<char>) -> BgMode {
    if s == "motion"@ {
        BgMode::Motion
    } else if s == "person"@ {
        BgMode::Person
    } else {
        BgMode::Off
    }
}

/// The stored name of a background mode.
pub open spec fn bg_mode_name(m: BgMode) -> Seq<char> {
    match m {
        BgMode::Off => "off"@,
        BgMode::Motion => "motion"@,
        BgMode::Person => "person"@,
    }
}

fn bg_mode_from_str(s: &str) -> (m: BgMode)
    ensures
        m == bg_mode_named(s@),
{
    if str_eq(s, "motion") {
        BgMode::Motion
    } else if str_eq(s, "person") {
        BgMode::Person
    } else {
        BgMode::Off
    }
}

fn bg_mode_to_str(mode: BgMode) -> (s: &'static str)
    ensures
        s@ == bg_mode_name(mode),
{
    match mode {
        BgMode::Off => "off",
        BgMode::Motion => "motion",
        BgMode::Person => "person",
    }
}

/// Every background mode is read back from its stored name.
pub proof fn lemma_bg_mode_name_roundtrip(m: BgMode)
    ensures
        bg_mode_named(bg_mode_name(m)) == m,
{
    reveal_strlit("off");
    reveal_strlit("motion");
    reveal_strlit("person");
    assert("off"@.len() != "motion"@.len());
    assert("off"@[0] != "person"@[0]);
    assert("person"@[0] != "motion"@[0]);
}

/// The effective background mode of stored settings: the legacy
/// `bg_removal = true` with mode "off" means motion-based removal.
pub open spec fn effective_bg(c: UserConfig) -> BgMode {
    if c.bg_removal == Some(true) && c.bg_mode@ == "off"@ {
        BgMode::Motion
    } else {
        bg_mode_named(c.bg_mode@)
    }
}

/// The render settings of `c` as `from_render_config` stores them.
pub open spec fn stores_render_config(u: UserConfig, c: RenderConfig) -> bool {
    &&& u.color == c.color
    &&& u.bg_mode@ == bg_mode_name(c.bg_mode)
    &&& u.bg_removal is None
    &&& u.contour == c.contour
    &&& u.mirror == c.mirror
    &&& u.brightness_threshold == c.brightness_threshold
    &&& u.style@ == style_label(style_of_config(c))
}

/// The render configuration `apply_to` makes of `c` under the settings `u`.
pub open spec fn applied_config(u: UserConfig, c: RenderConfig) -> RenderConfig {
    style_applied(
        style_named(u.style@),
        RenderConfig {
            color: u.color,
            bg_mode: effective_bg(u),
            contour: u.contour,
            mirror: u.mirror,
            brightness_threshold: u.brightness_threshold,
            ..c
        },
    )
}

fn clone_opt(o: &Option<String>) -> (r: Option<String>)
    ensures
        r == *o,
{
    match o {
        Some(s) => Some(s.clone()),
        None => None,
    }
}

fn style_by_label(s: &str) -> (r: VisualStyle)
    ensures
        r == style_named(s@),
{
    if str_eq(s, "standard") {
        VisualStyle::Charset(CharsetName::Standard)
    } else if str_eq(s, "letters") {
        VisualStyle::Charset(CharsetName::Letters)
    } else if str_eq(s, "dots") {
        VisualStyle::Charset(CharsetName::Dots)
    } else if str_eq(s, "digits") {
        VisualStyle::Charset(CharsetName::Digits)
    } else if str_eq(s, "blocks") {
        VisualStyle::Charset(CharsetName::Blocks)
    } else if str_eq(s, "outline") {
        VisualStyle::Outline
    } else {
        VisualStyle::Charset(CharsetName::Standard)
    }
}

impl UserConfig {
    /// Resolve the effective BgMode, handling legacy migration.
    pub fn effective_bg_mode(&self) -> (m: BgMode)
        ensures
            m == effective_bg(*self),
    {
        if let Some(true) = self.bg_removal {
            if str_eq(self.bg_mode.as_str(), "off") {
                return BgMode::Motion;
            }
        }
        bg_mode_from_str(self.bg_mode.as_str())
    }

    /// Build a UserConfig from the current RenderConfig state and existing preferences.
    pub fn from_render_config(config: &RenderConfig, prev: &UserConfig) -> (u: Self)
        ensures
            stores_render_config(u, *config),
            u.save_dir == prev.save_dir,
            u.license_key == prev.license_key,
            u.license_validated_at == prev.license_validated_at,
            u.username == prev.username,
            u.session_token == prev.session_token,
            u.calls_today == prev.calls_today,
            u.calls_date == prev.calls_date,
    {
        let style = VisualStyle::from_config(config);
        UserConfig {
            color: config.color,
            bg_mode: String::from_str(bg_mode_to_str(config.bg_mode)),
            bg_removal: None,
            contour: config.contour,
            mirror: config.mirror,
            brightness_threshold: config.brightness_threshold,
            style: String::from_str(style.label()),
            save_dir: clone_opt(&prev.save_dir),
            license_key: clone_opt(&prev.license_key),
            license_validated_at: prev.license_validated_at,
            username: clone_opt(&prev.username),
            session_token: clone_opt(&prev.session_token),
            calls_today: prev.calls_today,
            calls_date: clone_opt(&prev.calls_date),
        }
    }

    /// Apply this UserConfig to a RenderConfig.
    pub fn apply_to(&self, config: &mut RenderConfig)
        ensures
            *final(config) == applied_config(*self, *old(config)),
    {
        config.color = self.color;
        config.bg_mode = self.effective_bg_mode();
        config.contour = self.contour;
        config.mirror = self.mirror;
        config.brightness_threshold = self.brightness_threshold;
        let style = style_by_label(self.style.as_str());
        style.apply(config);
    }
}

/// Saving the render settings and applying them again restores every render
/// setting: color, background, contour, mirror, brightness threshold and
/// mode, and the charset too in normal mode when it is one of the style list
/// (a wide charset, which the list does not offer, comes back as the
/// standard one; outline mode keeps the charset the target already had).
pub proof fn lemma_settings_roundtrip(u: UserConfig, c: RenderConfig, target: RenderConfig)
    requires
        stores_render_config(u, c),
    ensures
        applied_config(u, target).color == c.color,
        applied_config(u, target).bg_mode == c.bg_mode,
        applied_config(u, target).contour == c.contour,
        applied_config(u, target).mirror == c.mirror,
        applied_config(u, target).brightness_threshold == c.brightness_threshold,
        applied_config(u, target).mode == c.mode,
        applied_config(u, target).charset == (if c.mode is Normal {
            if charset_is_wide(c.charset) {
                CharsetName::Standard
            } else {
                c.charset
            }
        } else {
            target.charset
        }),
{
    if crate::tui::style_listed(style_of_config(c)) {
        crate::tui::lemma_style_label_roundtrip(style_of_config(c));
    } else {
        reveal_strlit("standard");
        reveal_strlit("letters");
        reveal_strlit("dots");
        reveal_strlit("digits");
        reveal_strlit("blocks");
        reveal_strlit("outline");
        reveal_strlit("한글");
        reveal_strlit("ひらがな");
        reveal_strlit("カタカナ");
        reveal_strlit("漢字");
        let l = style_label(style_of_config(c));
        assert(l.len() == 2 || l.len() == 4);
        if l.len() == 4 {
            assert(l[0] != "dots"@[0]);
        }
        assert(l != "standard"@ && l != "letters"@ && l != "digits"@ && l != "blocks"@ && l
            != "outline"@ && l != "dots"@);
        assert(style_named(style_label(style_of_config(c))) == VisualStyle::Charset(CharsetName::Standard));
    }
    lemma_bg_mode_name_roundtrip(c.bg_mode);
    reveal_strlit("off");
    reveal_strlit("motion");
    reveal_strlit("person");
}

/// Whether the settings hold an activated txxxt+ license.
pub open spec fn plus_active(c: UserConfig) -> bool {
    c.license_key is Some && c.license_validated_at is Some
}

/// Check if the user has txxxt+ activated (valid license key saved).
pub fn is_plus(config: &UserConfig) -> (r: bool)
    ensures
        r == plus_active(*config),
{
    config.license_key.is_some() && config.license_validated_at.is_some()
}

/// Maximum daily calls for free users.
pub const MAX_FREE_CALLS: u8 = 5;

/// Calls already counted for `today`: the stored count when it belongs to
/// `today`, none otherwise.
pub open spec fn calls_used(count: u8, date: Option<Seq<char>>, today: Seq<char>) -> u8 {
    if date == Some(today) {
        count
    } else {
        0
    }
}

/// The call allowance: `Some(remaining)` when a call may start, `None` when
/// the daily limit is reached; txxxt+ users always have `u8::MAX`.
pub open spec fn allowance(plus: bool, count: u8, date: Option<Seq<char>>, today: Seq<char>) -> Option<u8> {
    if plus {
        Some(255)
    } else if calls_used(count, date, today) >= 5 {
        None
    } else {
        Some((5 - calls_used(count, date, today)) as u8)
    }
}

/// The daily-limit message.
pub open spec fn limit_message() -> Seq<char> {
    "daily limit reached (5/5)"@
}

fn same_day(date: &Option<String>, today: &str) -> (r: bool)
    ensures
        r == (opt_view(*date) == Some(today@)),
{
    match date {
        Some(d) => str_eq(d.as_str(), today),
        None => false,
    }
}

/// The render and export preferences of two settings agree.
pub open spec fn same_prefs(a: UserConfig, b: UserConfig) -> bool {
    &&& a.color == b.color
    &&& a.bg_mode == b.bg_mode
    &&& a.bg_removal == b.bg_removal
    &&& a.contour == b.contour
    &&& a.mirror == b.mirror
    &&& a.brightness_threshold == b.brightness_threshold
    &&& a.style == b.style
    &&& a.save_dir == b.save_dir
}

/// The license state of two settings agrees.
pub open spec fn same_license(a: UserConfig, b: UserConfig) -> bool {
    a.license_key == b.license_key && a.license_validated_at == b.license_validated_at
}

/// The saved account of two settings agrees.
pub open spec fn same_account(a: UserConfig, b: UserConfig) -> bool {
    a.username == b.username && a.session_token == b.session_token
}

/// The call counter of two settings agrees.
pub open spec fn same_calls(a: UserConfig, b: UserConfig) -> bool {
    a.calls_today == b.calls_today && a.calls_date == b.calls_date
}

/// Check if the user can start a new call. Returns remaining calls or the
/// error message; resets the counter when `today` is a new day, and returns
/// `true` beside the answer when the settings changed and must be saved.
pub fn can_start_call(config: &mut UserConfig, today: &str) -> (r: (Result<u8, String>, bool))
    ensures
        match r.0 {
            Ok(n) => allowance(
                plus_active(*old(config)),
                old(config).calls_today,
                opt_view(old(config).calls_date),
                today@,
            ) == Some(n),
            Err(msg) => allowance(
                plus_active(*old(config)),
                old(config).calls_today,
                opt_view(old(config).calls_date),
                today@,
            ) is None && msg@ == limit_message(),
        },
        r.1 == (!plus_active(*old(config)) && opt_view(old(config).calls_date) != Some(today@)),
        r.1 ==> final(config).calls_today == 0 && opt_view(final(config).calls_date) == Some(today@),
        !r.1 ==> *final(config) == *old(config),
        same_prefs(*final(config), *old(config)),
        same_license(*final(config), *old(config)),
        same_account(*final(config), *old(config)),
{
    if is_plus(config) {
        return (Ok(u8::MAX), false);
    }
    let mut changed = false;
    if !same_day(&config.calls_date, today) {
        config.calls_today = 0;
        config.calls_date = Some(String::from_str(today));
        changed = true;
    }
    if config.calls_today >= MAX_FREE_CALLS {
        (Err(String::from_str("daily limit reached (5/5)")), changed)
    } else {
        (Ok(MAX_FREE_CALLS - config.calls_today), changed)
    }
}

/// Call count and date after one more call on `today`.
pub open spec fn after_increment(count: u8, date: Option<Seq<char>>, today: Seq<char>) -> (int, Option<
    Seq<char>,
>) {
    (calls_used(count, date, today) + 1, Some(today))
}

/// Increment the daily call counter. Call this when a call actually starts.
/// Returns whether the settings changed and must be saved (never for txxxt+).
pub fn increment_call_count(config: &mut UserConfig, today: &str) -> (save: bool)
    requires
        !plus_active(*old(config)) ==> calls_used(
            old(config).calls_today,
            opt_view(old(config).calls_date),
            today@,
        ) < 255,
    ensures
        save == !plus_active(*old(config)),
        !save ==> *final(config) == *old(config),
        save ==> final(config).calls_today as int == after_increment(
            old(config).calls_today,
            opt_view(old(config).calls_date),
            today@,
        ).0 && opt_view(final(config).calls_date) == after_increment(
            old(config).calls_today,
            opt_view(old(config).calls_date),
            today@,
        ).1,
        same_prefs(*final(config), *old(config)),
        same_license(*final(config), *old(config)),
        same_account(*final(config), *old(config)),
{
    if is_plus(config) {
        return false;
    }
    if !same_day(&config.calls_date, today) {
        config.calls_today = 0;
        config.calls_date = Some(String::from_str(today));
    }
    config.calls_today = config.calls_today + 1;
    true
}

/// A free user who may still call and then starts a call has one call fewer
/// left that day; after the last one the limit is reached.
pub proof fn lemma_call_allowance_counts_down(count: u8, date: Option<Seq<char>>, today: Seq<char>)
    requires
        allowance(false, count, date, today) is Some,
    ensures
        calls_used(count, date, today) < 255,
        ({
            let (c2, d2) = after_increment(count, date, today);
            let k = allowance(false, count, date, today).unwrap();
            allowance(false, c2 as u8, d2, today) == (if k > 1 {
                Some((k - 1) as u8)
            } else {
                None
            })
        }),
{
}

/// Save a license key with the time it was validated.
pub fn save_license_key(config: &mut UserConfig, key: &str, now: u64)
    ensures
        opt_view(final(config).license_key) == Some(key@),
        final(config).license_validated_at == Some(now),
        same_prefs(*final(config), *old(config)),
        same_account(*final(config), *old(config)),
        same_calls(*final(config), *old(config)),
{
    config.license_key = Some(String::from_str(key));
    config.license_validated_at = Some(now);
}

/// Save username and session token (after successful LOGIN).
pub fn save_account(config: &mut UserConfig, username: &str, token: &str)
    ensures
        opt_view(final(config).username) == Some(username@),
        opt_view(final(config).session_token) == Some(token@),
        same_prefs(*final(config), *old(config)),
        same_license(*final(config), *old(config)),
        same_calls(*final(config), *old(config)),
{
    config.username = Some(String::from_str(username));
    config.session_token = Some(String::from_str(token));
}

/// Get saved account (username, token). Returns None if not logged in.
pub fn get_account(config: &UserConfig) -> (r: Option<(String, String)>)
    ensures
        match r {
            Some((u, t)) => config.username == Some(u) && config.session_token == Some(t),
            None => config.username is None || config.session_token is None,
        },
{
    match (&config.username, &config.session_token) {
        (Some(u), Some(t)) => Some((u.clone(), t.clone())),
        _ => None,
    }
}

/// Saving an account and reading it back gives that account.
pub proof fn lemma_account_roundtrip(c: UserConfig, username: Seq<char>, token: Seq<char>)
    requires
        opt_view(c.username) == Some(username),
        opt_view(c.session_token) == Some(token),
    ensures
        c.username matches Some(u) && u@ == username,
        c.session_token matches Some(t) && t@ == token,
{
}

/// Remove the license key (invalid key).
pub fn revoke_license(config: &mut UserConfig)
    ensures
        final(config).license_key is None,
        final(config).license_validated_at is None,
        !plus_active(*final(config)),
        same_prefs(*final(config), *old(config)),
        same_account(*final(config), *old(config)),
        same_calls(*final(config), *old(config)),
{
    config.license_key = None;
    config.license_validated_at = None;
}


/// Upper-case hexadecimal digits, by value.
pub const HEX_DIGITS: [char; 16] = [
    '0', '1', '2', '3', '4', '5', '6', '7', '8', '9', 'A', 'B', 'C', 'D', 'E', 'F',
];

/// Bytes that form encoding leaves as they are: ASCII letters, digits and `-_.~`.
pub open spec fn unreserved(b: u8) -> bool {
    ||| 0x41 <= b <= 0x5a
    ||| 0x61 <= b <= 0x7a
    ||| 0x30 <= b <= 0x39
    ||| b == 0x2d
    ||| b == 0x5f
    ||| b == 0x2e
    ||| b == 0x7e
}

/// The encoding of one byte: itself, or `%` and two upper-case hex digits.
pub open spec fn url_piece(b: u8) -> Seq<char> {
    if unreserved(b) {
        seq![b as char]
    } else {
        seq!['%', HEX_DIGITS@[(b / 16) as int], HEX_DIGITS@[(b % 16) as int]]
    }
}

/// The form encoding of a byte sequence, byte by byte.
pub open spec fn url_encoded(bytes: Seq<u8>) -> Seq<char>
    decreases bytes.len(),
{
    if bytes.len() == 0 {
        Seq::empty()
    } else {
        url_encoded(bytes.drop_last()) + url_piece(bytes.last())
    }
}

/// Simple URL encoding for form data values: each UTF-8 byte of `s` that is
/// not an ASCII letter, digit or one of `-_.~` becomes `%HH`.
pub fn url_encode(s: &str) -> (r: String)
    ensures
        r@ == url_encoded(s.spec_bytes()),
{
    let bytes = s.as_bytes();
    let mut out = String::new();
    let mut i: usize = 0;
    while i < bytes.len()
        invariant
            i <= bytes@.len(),
            out@ == url_encoded(bytes@.take(i as int)),
        decreases bytes@.len() - i,
    {
        let b = bytes[i];
        proof {
            assert(bytes@.take(i + 1).drop_last() =~= bytes@.take(i as int));
        }
        if (b >= 0x41 && b <= 0x5a) || (b >= 0x61 && b <= 0x7a) || (b >= 0x30 && b <= 0x39)
            || b == 0x2d || b == 0x5f || b == 0x2e || b == 0x7e {
            push_char(&mut out, b as char);
        } else {
            push_char(&mut out, '%');
            push_char(&mut out, HEX_DIGITS[(b / 16) as usize]);
            push_char(&mut out, HEX_DIGITS[(b % 16) as usize]);
        }
        i = i + 1;
    }
    proof {
        assert(bytes@.take(bytes@.len() as int) =~= bytes@);
    }
    out
}

/// Value of an upper-case hexadecimal digit.
pub open spec fn hex_value(c: char) -> int {
    if '0' <= c && c <= '9' {
        c as int - 48
    } else {
        c as int - 55
    }
}

/// Percent-decoding: `%` and two hex digits give the byte they spell, any
/// other character gives its own code as a byte.
pub open spec fn percent_decoded(s: Seq<char>) -> Seq<u8>
    decreases s.len(),
{
    if s.len() == 0 {
        Seq::empty()
    } else if s[0] == '%' && s.len() >= 3 {
        seq![(hex_value(s[1]) * 16 + hex_value(s[2])) as u8] + percent_decoded(s.skip(3))
    } else {
        seq![(s[0] as int) as u8] + percent_decoded(s.drop_first())
    }
}

/// Length of the encoding of a byte sequence: one character for each byte
/// left as it is, three for each byte written `%HH`.
pub open spec fn url_encoded_len(bytes: Seq<u8>) -> int
    decreases bytes.len(),
{
    if bytes.len() == 0 {
        0
    } else {
        url_encoded_len(bytes.drop_last()) + if unreserved(bytes.last()) {
            1int
        } else {
            3int
        }
    }
}

/// Whether a character may appear in an encoding: an ASCII letter or digit,
/// one of `-_.~`, or `%`.
pub open spec fn url_char(c: char) -> bool {
    ||| 'A' <= c && c <= 'Z'
    ||| 'a' <= c && c <= 'z'
    ||| '0' <= c && c <= '9'
    ||| c == '-' || c == '_' || c == '.' || c == '~' || c == '%'
}

/// Whether a character is an upper-case hexadecimal digit.
pub open spec fn upper_hex(c: char) -> bool {
    ('0' <= c && c <= '9') || ('A' <= c && c <= 'F')
}

proof fn lemma_hex_digit(i: int)
    requires
        0 <= i < 16,
    ensures
        upper_hex(HEX_DIGITS@[i]),
        hex_value(HEX_DIGITS@[i]) == i,
{
    assert(HEX_DIGITS@ == seq!['0', '1', '2', '3', '4', '5', '6', '7', '8', '9', 'A', 'B', 'C', 'D', 'E', 'F']);
}

proof fn lemma_encoded_front(b: u8, bs: Seq<u8>)
    ensures
        url_encoded(seq![b] + bs) == url_piece(b) + url_encoded(bs),
    decreases bs.len(),
{
    if bs.len() == 0 {
        assert(seq![b] + bs =~= seq![b]);
        assert(seq![b].drop_last() =~= Seq::<u8>::empty());
        assert(url_encoded(bs) =~= Seq::<char>::empty());
        assert(url_encoded(seq![b]) == url_encoded(Seq::<u8>::empty()) + url_piece(b));
        assert(Seq::<char>::empty() + url_piece(b) =~= url_piece(b));
        assert(url_piece(b) + Seq::<char>::empty() =~= url_piece(b));
    } else {
        assert((seq![b] + bs).drop_last() =~= seq![b] + bs.drop_last());
        lemma_encoded_front(b, bs.drop_last());
        assert(url_piece(b) + url_encoded(bs) =~= url_piece(b) + url_encoded(bs.drop_last()) + url_piece(
            bs.last(),
        ));
    }
}

proof fn lemma_piece_decodes(b: u8, rest: Seq<char>)
    ensures
        percent_decoded(url_piece(b) + rest) == seq![b] + percent_decoded(rest),
{
    let t = url_piece(b) + rest;
    if unreserved(b) {
        assert(t[0] == b as char);
        assert(t.drop_first() =~= rest);
        assert((b as char) as int == b as int);
    } else {
        lemma_hex_digit((b / 16) as int);
        lemma_hex_digit((b % 16) as int);
        assert(t.skip(3) =~= rest);
        assert(t[1] == HEX_DIGITS@[(b / 16) as int] && t[2] == HEX_DIGITS@[(b % 16) as int]);
        assert((b / 16) * 16 + b % 16 == b);
    }
}

proof fn lemma_piece_shape(b: u8)
    ensures
        url_piece(b).len() == if unreserved(b) { 1int } else { 3int },
        forall|k: int| 0 <= k < url_piece(b).len() ==> url_char(#[trigger] url_piece(b)[k]),
        forall|k: int|
            0 <= k < url_piece(b).len() && url_piece(b)[k] == '%' ==> k == 0 && !unreserved(b),
        !unreserved(b) ==> upper_hex(url_piece(b)[1]) && upper_hex(url_piece(b)[2]),
{
    if !unreserved(b) {
        lemma_hex_digit((b / 16) as int);
        lemma_hex_digit((b % 16) as int);
    } else {
        assert((b as char) as int == b as int);
    }
}

/// What form encoding makes of any bytes: its length is one character per
/// byte left as it is and three per byte written `%HH`; it uses only ASCII
/// letters, digits, `-_.~` and `%`; every `%` is followed by two upper-case
/// hex digits; and percent-decoding it gives the bytes back.
pub proof fn lemma_url_encoding(bytes: Seq<u8>)
    ensures
        url_encoded(bytes).len() == url_encoded_len(bytes),
        forall|k: int| 0 <= k < url_encoded(bytes).len() ==> url_char(#[trigger] url_encoded(bytes)[k]),
        forall|k: int|
            0 <= k < url_encoded(bytes).len() && #[trigger] url_encoded(bytes)[k] == '%' ==> k + 2
                < url_encoded(bytes).len() && upper_hex(url_encoded(bytes)[k + 1]) && upper_hex(
                url_encoded(bytes)[k + 2],
            ),
        percent_decoded(url_encoded(bytes)) == bytes,
    decreases bytes.len(),
{
    if bytes.len() == 0 {
        assert(percent_decoded(Seq::<char>::empty()) =~= Seq::<u8>::empty());
    } else {
        let init = bytes.drop_last();
        let b = bytes.last();
        lemma_url_encoding(init);
        lemma_piece_shape(b);
        let e = url_encoded(bytes);
        let a = url_encoded(init);
        let p = url_piece(b);
        assert(e == a + p);
        assert forall|k: int| 0 <= k < e.len() implies url_char(#[trigger] e[k]) by {
            if k < a.len() {
                assert(e[k] == a[k]);
            } else {
                assert(e[k] == p[k - a.len()]);
            }
        }
        assert forall|k: int| 0 <= k < e.len() && #[trigger] e[k] == '%' implies k + 2 < e.len()
            && upper_hex(e[k + 1]) && upper_hex(e[k + 2]) by {
            if k < a.len() {
                assert(e[k] == a[k]);
                assert(e[k + 1] == a[k + 1] && e[k + 2] == a[k + 2]);
            } else {
                assert(e[k] == p[k - a.len()]);
                assert(e[k + 1] == p[1] && e[k + 2] == p[2]);
            }
        }
        // decoding, from the front
        let b0 = bytes[0];
        let tail = bytes.drop_first();
        assert(bytes =~= seq![b0] + tail);
        lemma_encoded_front(b0, tail);
        lemma_url_encoding(tail);
        lemma_piece_decodes(b0, url_encoded(tail));
    }
}

/// Key that skips license validation altogether.
pub open spec fn dev_key() -> Seq<char> {
    "TEST_KEY_DEV"@
}

/// What start-up does about the saved license.
pub enum LicenseCheck {
    /// Nothing to do: no key, the development key, or validated within the week.
    Keep,
    /// A key that was never validated: remove it.
    Revoke,
    /// Ask the license service about `key`; the last validation is `age_days` old.
    Validate { key: String, age_days: u64 },
}

/// Whole days from the last validation to `now` (none when the clock went back).
pub open spec fn license_age(validated_at: u64, now: u64) -> int {
    if now >= validated_at { (now - validated_at) / 86400 } else { 0 }
}

/// Decide what to do about the saved license at start-up.
pub fn license_check(config: &UserConfig, now: u64) -> (r: LicenseCheck)
    ensures
        match config.license_key {
            None => r is Keep,
            Some(k) => if k@ == dev_key() {
                r is Keep
            } else {
                match config.license_validated_at {
                    None => r is Revoke,
                    Some(at) => if license_age(at, now) < 7 {
                        r is Keep
                    } else {
                        r matches LicenseCheck::Validate { key, age_days } && key@ == k@
                            && age_days == license_age(at, now)
                    },
                }
            },
        },
{
    match &config.license_key {
        None => LicenseCheck::Keep,
        Some(key) => {
            proof {
                reveal_strlit("TEST_KEY_DEV");
            }
            if str_eq(key.as_str(), "TEST_KEY_DEV") {
                return LicenseCheck::Keep;
            }
            match config.license_validated_at {
                None => LicenseCheck::Revoke,
                Some(at) => {
                    let age_days = now.saturating_sub(at) / 86400;
                    if age_days < 7 {
                        LicenseCheck::Keep
                    } else {
                        LicenseCheck::Validate { key: key.clone(), age_days }
                    }
                },
            }
        },
    }
}

/// What the answer of the license service means for the saved license.
#[derive(Debug, Clone, Copy, PartialEq, Eq, Structural)]
pub enum LicenseVerdict {
    /// Valid: record now as the last validation.
    Refresh,
    /// Invalid, or offline for too long: remove the key.
    Revoke,
    /// Offline, and the last validation is recent enough: leave it.
    Keep,
}

/// Whether `needle` occurs in `hay`.
pub open spec fn occurs(hay: Seq<char>, needle: Seq<char>) -> bool {
    exists|i: int| 0 <= i <= hay.len() - needle.len() && #[trigger] hay.subrange(i, i + needle.len()) == needle
}

/// Whether `needle` occurs in `hay`.
pub fn contains_chars(hay: &[char], needle: &[char]) -> (r: bool)
    ensures
        r == occurs(hay@, needle@),
{
    if needle.len() > hay.len() {
        return false;
    }
    let last = hay.len() - needle.len();
    let mut i: usize = 0;
    loop
        invariant
            needle@.len() <= hay@.len(),
            last == hay@.len() - needle@.len(),
            i <= last,
            forall|k: int| 0 <= k < i ==> #[trigger] hay@.subrange(k, k + needle@.len()) != needle@,
        decreases last - i,
    {
        let mut j: usize = 0;
        let mut same = true;
        while j < needle.len()
            invariant
                needle@.len() <= hay@.len(),
                i <= last,
                last == hay@.len() - needle@.len(),
                j <= needle@.len(),
                i + needle@.len() <= hay.len(),
                same == (forall|t: int| 0 <= t < j ==> hay@[i + t] == needle@[t]),
            decreases needle@.len() - j,
        {
            if hay[i + j] != needle[j] {
                same = false;
            }
            j = j + 1;
        }
        if same {
            assert(hay@.subrange(i as int, i + needle@.len()) =~= needle@);
            return true;
        }
        proof {
            let t = choose|t: int| 0 <= t < needle@.len() && hay@[i + t] != needle@[t];
            assert(hay@.subrange(i as int, i + needle@.len())[t] != needle@[t]);
        }
        if i == last {
            return false;
        }
        i = i + 1;
    }
}

/// Whether a reply of the license service says the key is valid.
pub open spec fn reply_valid(body: Seq<char>) -> bool {
    occurs(body, "\"valid\":true"@) || occurs(body, "\"valid\": true"@)
}

/// Judge the answer of the license service: `None` when it could not be
/// reached. An empty answer counts as unreachable; offline, a license
/// validated at most 30 days ago is kept.
pub fn license_verdict(body: Option<&str>, age_days: u64) -> (r: LicenseVerdict)
    ensures
        r == match body {
            Some(b) if b@.len() > 0 => if reply_valid(b@) {
                LicenseVerdict::Refresh
            } else {
                LicenseVerdict::Revoke
            },
            _ => if age_days > 30 {
                LicenseVerdict::Revoke
            } else {
                LicenseVerdict::Keep
            },
        },
{
    match body {
        Some(b) if b.unicode_len() > 0 => {
            let hay = chars_of(b);
            let with_colon = chars_of("\"valid\":true");
            let with_space = chars_of("\"valid\": true");
            if contains_chars(hay.as_slice(), with_colon.as_slice())
                || contains_chars(hay.as_slice(), with_space.as_slice()) {
                LicenseVerdict::Refresh
            } else {
                LicenseVerdict::Revoke
            }
        },
        _ => {
            if age_days > 30 {
                LicenseVerdict::Revoke
            } else {
                LicenseVerdict::Keep
            }
        },
    }
}

/// Carry out a verdict on the settings: a refresh records `now` as the last
/// validation, a revocation removes the key, keeping changes nothing.
pub fn apply_license_verdict(config: &mut UserConfig, verdict: LicenseVerdict, now: u64)
    ensures
        verdict == LicenseVerdict::Refresh ==> final(config).license_validated_at == Some(now)
            && final(config).license_key == old(config).license_key,
        verdict == LicenseVerdict::Revoke ==> final(config).license_key is None
            && final(config).license_validated_at is None,
        verdict == LicenseVerdict::Keep ==> *final(config) == *old(config),
        same_prefs(*final(config), *old(config)),
        same_account(*final(config), *old(config)),
        same_calls(*final(config), *old(config)),
{
    match verdict {
        LicenseVerdict::Refresh => {
            config.license_validated_at = Some(now);
        },
        LicenseVerdict::Revoke => {
            revoke_license(config);
        },
        LicenseVerdict::Keep => {},
    }
}

} // verus!
