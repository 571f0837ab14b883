//! Interface vocabulary of the viewer: visual styles, panels, PIP corners,
//! settings items and the menu layout.
use vstd::prelude::*;

use crate::charsets::{charset_is_wide, charset_label, CharsetName};
use crate::render::{BgMode, RenderConfig, RenderMode};
use crate::text::{decimal, push_decimal};

verus! {

/// Which overlay panel is currently open.
#[derive(Debug, Clone, Copy, PartialEq, Eq, Structural)]
pub enum Panel {
    StylePicker,
    Settings,
    Preference,
    Connect,
    Account,
    Friends,
}

/// Unified visual style: charsets + outline in one list.
#[derive(Debug, Clone, Copy, PartialEq, Eq, Structural)]
pub enum VisualStyle {
    Charset(CharsetName),
    Outline,
}

/// Number of visual styles.
pub const STYLE_COUNT: usize = 6;

/// The six styles of the style list in display order: standard, letters,
/// dots, digits, blocks and outline.
pub open spec fn all_styles() -> Seq<VisualStyle> {
    seq![
        VisualStyle::Charset(CharsetName::Standard),
        VisualStyle::Charset(CharsetName::Letters),
        VisualStyle::Charset(CharsetName::Dots),
        VisualStyle::Charset(CharsetName::Digits),
        VisualStyle::Charset(CharsetName::Blocks),
        VisualStyle::Outline,
    ]
}

/// Whether a style is in the style list: every style but those of the wide
/// (fullwidth) charsets, which only the command-line conversion offers.
pub open spec fn style_listed(s: VisualStyle) -> bool {
    match s {
        VisualStyle::Charset(cs) => !charset_is_wide(cs),
        VisualStyle::Outline => true,
    }
}

/// Position of a style in the display order; 0 for a style not in the list.
pub open spec fn style_index(s: VisualStyle) -> int {
    match s {
        VisualStyle::Charset(CharsetName::Standard) => 0,
        VisualStyle::Charset(CharsetName::Letters) => 1,
        VisualStyle::Charset(CharsetName::Dots) => 2,
        VisualStyle::Charset(CharsetName::Digits) => 3,
        VisualStyle::Charset(CharsetName::Blocks) => 4,
        VisualStyle::Outline => 5,
        _ => 0,
    }
}

/// The display name of a style.
pub open spec fn style_label(s: VisualStyle) -> Seq<char> {
    match s {
        VisualStyle::Charset(cs) => charset_label(cs),
        VisualStyle::Outline => "outline"@,
    }
}

/// The configuration after applying a style: a charset style selects normal
/// mode and that charset; the outline style selects outline mode and keeps
/// the charset.
pub open spec fn style_applied(s: VisualStyle, c: RenderConfig) -> RenderConfig {
    match s {
        VisualStyle::Charset(cs) => RenderConfig { mode: RenderMode::Normal, charset: cs, ..c },
        VisualStyle::Outline => RenderConfig { mode: RenderMode::Outline, ..c },
    }
}

/// The style a configuration shows.
pub open spec fn style_of_config(c: RenderConfig) -> VisualStyle {
    match c.mode {
        RenderMode::Outline => VisualStyle::Outline,
        RenderMode::Normal => VisualStyle::Charset(c.charset),
    }
}

/// The style of the list whose label is `s`; the standard charset when no
/// listed style has that label.
pub open spec fn style_named(s: Seq<char>) -> VisualStyle {
    if s == "standard"@ {
        VisualStyle::Charset(CharsetName::Standard)
    } else if s == "letters"@ {
        VisualStyle::Charset(CharsetName::Letters)
    } else if s == "dots"@ {
        VisualStyle::Charset(CharsetName::Dots)
    } else if s == "digits"@ {
        VisualStyle::Charset(CharsetName::Digits)
    } else if s == "blocks"@ {
        VisualStyle::Charset(CharsetName::Blocks)
    } else if s == "outline"@ {
        VisualStyle::Outline
    } else {
        VisualStyle::Charset(CharsetName::Standard)
    }
}

impl VisualStyle {
    /// The style at position `i` of the display order.
    pub fn at(i: usize) -> (s: VisualStyle)
        requires
            i < STYLE_COUNT,
        ensures
            s == all_styles()[i as int],
    {
        match i {
            0 => VisualStyle::Charset(CharsetName::Standard),
            1 => VisualStyle::Charset(CharsetName::Letters),
            2 => VisualStyle::Charset(CharsetName::Dots),
            3 => VisualStyle::Charset(CharsetName::Digits),
            4 => VisualStyle::Charset(CharsetName::Blocks),
            _ => VisualStyle::Outline,
        }
    }

    pub fn label(self) -> (r: &'static str)
        ensures
            r@ == style_label(self),
    {
        match self {
            VisualStyle::Charset(cs) => cs.label(),
            VisualStyle::Outline => "outline",
        }
    }

    /// Apply this style to a RenderConfig.
    pub fn apply(self, config: &mut RenderConfig)
        ensures
            *final(config) == style_applied(self, *old(config)),
    {
        match self {
            VisualStyle::Charset(cs) => {
                config.mode = RenderMode::Normal;
                config.charset = cs;
            },
            VisualStyle::Outline => {
                config.mode = RenderMode::Outline;
            },
        }
    }

    /// Determine current style from config.
    pub fn from_config(config: &RenderConfig) -> (s: Self)
        ensures
            s == style_of_config(*config),
    {
        match config.mode {
            RenderMode::Outline => VisualStyle::Outline,
            RenderMode::Normal => VisualStyle::Charset(config.charset),
        }
    }

    /// Index of this style in the display order; 0 for a style not in the list.
    pub fn index(self) -> (i: usize)
        ensures
            i < STYLE_COUNT,
            i == style_index(self),
            style_listed(self) ==> all_styles()[i as int] == self,
    {
        match self {
            VisualStyle::Charset(CharsetName::Standard) => 0,
            VisualStyle::Charset(CharsetName::Letters) => 1,
            VisualStyle::Charset(CharsetName::Dots) => 2,
            VisualStyle::Charset(CharsetName::Digits) => 3,
            VisualStyle::Charset(CharsetName::Blocks) => 4,
            VisualStyle::Outline => 5,
            _ => 0,
        }
    }
}

/// Every style of the list is named by its own label, so a style saved by
/// label is found again.
pub proof fn lemma_style_label_roundtrip(s: VisualStyle)
    requires
        style_listed(s),
    ensures
        style_named(style_label(s)) == s,
{
    reveal_strlit("standard");
    reveal_strlit("letters");
    reveal_strlit("dots");
    reveal_strlit("digits");
    reveal_strlit("blocks");
    reveal_strlit("outline");
    match s {
        VisualStyle::Charset(CharsetName::Letters) => {
            assert("letters"@.len() != "standard"@.len());
        },
        VisualStyle::Charset(CharsetName::Dots) => {
            assert("dots"@.len() != "standard"@.len());
            assert("dots"@.len() != "letters"@.len());
        },
        VisualStyle::Charset(CharsetName::Digits) => {
            assert("digits"@.len() != "standard"@.len());
            assert("digits"@.len() != "letters"@.len());
            assert("digits"@.len() != "dots"@.len());
        },
        VisualStyle::Charset(CharsetName::Blocks) => {
            assert("blocks"@.len() != "standard"@.len());
            assert("blocks"@.len() != "letters"@.len());
            assert("blocks"@.len() != "dots"@.len());
            assert("blocks"@[0] != "digits"@[0]);
        },
        VisualStyle::Outline => {
            assert("outline"@.len() != "standard"@.len());
            assert("outline"@[0] != "letters"@[0]);
            assert("outline"@.len() != "dots"@.len());
            assert("outline"@.len() != "digits"@.len());
            assert("outline"@.len() != "blocks"@.len());
        },
        _ => {},
    }
}

/// The style list holds exactly the six styles standard, letters, dots,
/// digits, blocks and outline, each once and under a label of its own.
pub proof fn lemma_style_list(s: VisualStyle)
    ensures
        all_styles().len() == STYLE_COUNT,
        STYLE_COUNT == 6,
        style_listed(s) <==> exists|i: int| 0 <= i < STYLE_COUNT && all_styles()[i] == s,
        forall|i: int, j: int|
            0 <= i < STYLE_COUNT && 0 <= j < STYLE_COUNT && i != j ==> style_label(all_styles()[i])
                != style_label(all_styles()[j]),
{
    if style_listed(s) {
        assert(all_styles()[style_index(s)] == s);
    }
    assert forall|i: int, j: int|
        0 <= i < STYLE_COUNT && 0 <= j < STYLE_COUNT && i != j implies style_label(all_styles()[i])
        != style_label(all_styles()[j]) by {
        lemma_style_label_roundtrip(all_styles()[i]);
        lemma_style_label_roundtrip(all_styles()[j]);
    }
}

/// Applying a style and reading the style back gives that style, and the
/// style list holds each style exactly once.
pub proof fn lemma_style_apply_roundtrip(s: VisualStyle, c: RenderConfig)
    ensures
        style_of_config(style_applied(s, c)) == s,
        forall|i: int, j: int|
            0 <= i < STYLE_COUNT && 0 <= j < STYLE_COUNT && i != j ==> all_styles()[i] != all_styles()[j],
        all_styles().len() == STYLE_COUNT,
{
}

/// PIP corner position.
#[derive(Debug, Clone, Copy, PartialEq, Eq, Structural)]
pub enum PipCorner {
    TopRight,
    TopLeft,
    BottomRight,
    BottomLeft,
}

/// The corner after `c` when cycling clockwise through the corners.
pub open spec fn next_corner(c: PipCorner) -> PipCorner {
    match c {
        PipCorner::TopRight => PipCorner::TopLeft,
        PipCorner::TopLeft => PipCorner::BottomLeft,
        PipCorner::BottomLeft => PipCorner::BottomRight,
        PipCorner::BottomRight => PipCorner::TopRight,
    }
}

impl PipCorner {
    pub fn next(self) -> (r: Self)
        ensures
            r == next_corner(self),
    {
        match self {
            PipCorner::TopRight => PipCorner::TopLeft,
            PipCorner::TopLeft => PipCorner::BottomLeft,
            PipCorner::BottomLeft => PipCorner::BottomRight,
            PipCorner::BottomRight => PipCorner::TopRight,
        }
    }

    pub fn label(self) -> (r: &'static str)
        ensures
            r@ == match self {
                PipCorner::TopRight => "top-right"@,
                PipCorner::TopLeft => "top-left"@,
                PipCorner::BottomRight => "bottom-right"@,
                PipCorner::BottomLeft => "bottom-left"@,
            },
    {
        match self {
            PipCorner::TopRight => "top-right",
            PipCorner::TopLeft => "top-left",
            PipCorner::BottomRight => "bottom-right",
            PipCorner::BottomLeft => "bottom-left",
        }
    }
}

/// Pressing the corner key four times brings the PIP back to where it was,
/// visiting all four corners on the way.
pub proof fn lemma_corner_cycle(c: PipCorner)
    ensures
        next_corner(next_corner(next_corner(next_corner(c)))) == c,
        next_corner(c) != c,
        next_corner(next_corner(c)) != c,
        next_corner(next_corner(next_corner(c))) != c,
{
}

/// Settings panel items.
#[derive(Debug, Clone, Copy, PartialEq, Eq, Structural)]
pub enum SettingsItem {
    Color,
    Background,
    Contour,
    Mirror,
    Brightness,
}

/// Number of settings items.
pub const SETTINGS_COUNT: usize = 5;

/// The name shown for a settings item.
pub open spec fn settings_label(item: SettingsItem) -> Seq<char> {
    match item {
        SettingsItem::Color => "color"@,
        SettingsItem::Background => "background"@,
        SettingsItem::Contour => "contour"@,
        SettingsItem::Mirror => "mirror"@,
        SettingsItem::Brightness => "bright threshold"@,
    }
}

/// Settings items in display order.
pub open spec fn all_settings() -> Seq<SettingsItem> {
    seq![
        SettingsItem::Color,
        SettingsItem::Background,
        SettingsItem::Contour,
        SettingsItem::Mirror,
        SettingsItem::Brightness,
    ]
}

impl SettingsItem {
    /// The item at position `i` of the settings panel.
    pub fn at(i: usize) -> (s: SettingsItem)
        requires
            i < SETTINGS_COUNT,
        ensures
            s == all_settings()[i as int],
    {
        match i {
            0 => SettingsItem::Color,
            1 => SettingsItem::Background,
            2 => SettingsItem::Contour,
            3 => SettingsItem::Mirror,
            _ => SettingsItem::Brightness,
        }
    }

    pub fn label(self) -> (r: &'static str)
        ensures
            r@ == settings_label(self),
    {
        match self {
            SettingsItem::Color => "color",
            SettingsItem::Background => "background",
            SettingsItem::Contour => "contour",
            SettingsItem::Mirror => "mirror",
            SettingsItem::Brightness => "bright threshold",
        }
    }
}

/// Preference panel items.
#[derive(Debug, Clone, Copy, PartialEq, Eq, Structural)]
pub enum PrefItem {
    SaveDir,
}

impl PrefItem {
    pub fn label(self) -> (r: &'static str)
        ensures
            r@ == "save folder"@,
    {
        match self {
            PrefItem::SaveDir => "save folder",
        }
    }
}

/// The menu entries (label after the key letter, and panel) in bar order;
/// the friends entry shows only when logged in.
pub open spec fn menu_items(logged_in: bool) -> Seq<(Seq<char>, Panel)> {
    if logged_in {
        seq![
            ("isual"@, Panel::StylePicker),
            ("ettings"@, Panel::Settings),
            ("riends"@, Panel::Friends),
            ("ccount"@, Panel::Account),
            ("onnect"@, Panel::Connect),
        ]
    } else {
        seq![
            ("isual"@, Panel::StylePicker),
            ("ettings"@, Panel::Settings),
            ("ccount"@, Panel::Account),
            ("onnect"@, Panel::Connect),
        ]
    }
}

/// Column where the entries from `i` on start, given that entry `i` starts
/// at column `x`: each entry " [k]rest (N) │" takes the label's length plus ten.
pub open spec fn menu_x_from(items: Seq<(Seq<char>, Panel)>, panel: Panel, i: int, x: int) -> int
    decreases items.len() - i,
{
    if i >= items.len() {
        x
    } else if items[i].1 == panel {
        x
    } else {
        menu_x_from(items, panel, i + 1, x + items[i].0.len() + 10)
    }
}

/// The x offset of a menu item's dropdown panel: one column of border, then
/// the widths of the entries before it; past the last entry for a panel with
/// no entry.
pub open spec fn menu_x(panel: Panel, logged_in: bool) -> int {
    menu_x_from(menu_items(logged_in), panel, 0, 1)
}

/// Calculate the x offset for a menu item's dropdown panel.
pub fn menu_item_x(panel: Panel, logged_in: bool) -> (x: u16)
    ensures
        x == menu_x(panel, logged_in),
{
    proof {
        reveal_strlit("isual");
        reveal_strlit("ettings");
        reveal_strlit("riends");
        reveal_strlit("ccount");
        reveal_strlit("onnect");
        reveal_with_fuel(menu_x_from, 6);
    }
    if logged_in {
        match panel {
            Panel::StylePicker => 1,
            Panel::Settings => 16,
            Panel::Friends => 33,
            Panel::Account => 49,
            Panel::Connect => 65,
            Panel::Preference => 81,
        }
    } else {
        match panel {
            Panel::StylePicker => 1,
            Panel::Settings => 16,
            Panel::Account => 33,
            Panel::Connect => 49,
            Panel::Friends | Panel::Preference => 65,
        }
    }
}

/// "ON" or "OFF".
pub open spec fn on_off(on: bool) -> Seq<char> {
    if on {
        "ON"@
    } else {
        "OFF"@
    }
}

/// The value a settings row shows, and whether the row is dimmed: the
/// switches show "ON" or "OFF", the brightness threshold shows its number
/// between arrows; the background and contour switches are dimmed while
/// off with no segmentation model to turn them on with.
pub open spec fn settings_value(item: SettingsItem, c: RenderConfig, model_available: bool) -> (
    Seq<char>,
    bool,
) {
    match item {
        SettingsItem::Color => (on_off(c.color), false),
        SettingsItem::Background => {
            let on = c.bg_mode == BgMode::Person;
            (on_off(on), !on && !model_available)
        },
        SettingsItem::Contour => (on_off(c.contour), !c.contour && !model_available),
        SettingsItem::Mirror => (on_off(c.mirror), false),
        SettingsItem::Brightness => (
            "\u{25c0} "@ + decimal(c.brightness_threshold as nat) + " \u{25b6}"@,
            false,
        ),
    }
}

/// The text of a settings row, " label  value ", and whether it is dimmed.
pub fn settings_row(item: SettingsItem, c: &RenderConfig, model_available: bool) -> (r: (String, bool))
    ensures
        r.0@ == " "@ + settings_label(item) + "  "@ + settings_value(item, *c, model_available).0 + " "@,
        r.1 == settings_value(item, *c, model_available).1,
{
    let mut row = String::from_str(" ");
    row.append(item.label());
    row.append("  ");
    let dimmed = match item {
        SettingsItem::Color => {
            row.append(if c.color { "ON" } else { "OFF" });
            false
        },
        SettingsItem::Background => {
            let on = c.bg_mode == BgMode::Person;
            row.append(if on { "ON" } else { "OFF" });
            !on && !model_available
        },
        SettingsItem::Contour => {
            row.append(if c.contour { "ON" } else { "OFF" });
            !c.contour && !model_available
        },
        SettingsItem::Mirror => {
            row.append(if c.mirror { "ON" } else { "OFF" });
            false
        },
        SettingsItem::Brightness => {
            row.append("\u{25c0} ");
            push_decimal(&mut row, c.brightness_threshold as u64);
            row.append(" \u{25b6}");
            false
        },
    };
    row.append(" ");
    (row, dimmed)
}

} // verus!
