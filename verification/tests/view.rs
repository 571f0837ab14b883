use txxxt::charsets::CharsetName;
use txxxt::render::{
    brightness_to_char, edge_gradient, gaussian_blur_3x3, render_cell, render_grid, AsciiCell, CellSample,
    RenderConfig, RenderMode,
};
use txxxt::tui::{menu_item_x, settings_row, Panel, PipCorner, SettingsItem, VisualStyle, STYLE_COUNT};

#[test]
fn charset_metadata() {
    assert_eq!(CharsetName::Standard.chars().len(), 70);
    assert_eq!(CharsetName::Standard.chars()[0], ' ');
    assert_eq!(CharsetName::Standard.chars()[69], '$');
    assert_eq!(CharsetName::Blocks.chars(), &[' ', '░', '▒', '▓', '█']);
    assert_eq!(CharsetName::Hangul.label(), "한글");
    assert_eq!(CharsetName::Dots.label(), "dots");
    assert!(CharsetName::Hanja.is_wide());
    assert!(!CharsetName::Digits.is_wide());
}

#[test]
fn brightness_maps_to_ramp() {
    let blocks = CharsetName::Blocks.chars();
    assert_eq!(brightness_to_char(0, blocks), ' ');
    assert_eq!(brightness_to_char(255, blocks), '█');
    assert_eq!(brightness_to_char(128, blocks), '▒');
    assert_eq!(brightness_to_char(63, blocks), ' ');
    assert_eq!(brightness_to_char(64, blocks), '░');
}

#[test]
fn cell_decisions() {
    let mut config = RenderConfig::default();
    let s = CellSample { rgb: (200, 100, 50), brightness: 255, edge: '╱' };
    assert_eq!(render_cell(s, &config), AsciiCell { ch: '$', color: None });
    config.color = true;
    assert_eq!(render_cell(s, &config), AsciiCell { ch: '$', color: Some((200, 100, 50)) });
    let dark = CellSample { rgb: (1, 1, 1), brightness: 5, edge: '─' };
    assert_eq!(render_cell(dark, &config), AsciiCell { ch: ' ', color: None });
    config.mode = RenderMode::Outline;
    assert_eq!(render_cell(s, &config), AsciiCell { ch: '╱', color: Some((200, 100, 50)) });
    let grid = render_grid(&vec![vec![s, dark]], &config);
    assert_eq!(grid, vec![vec![AsciiCell { ch: '╱', color: Some((200, 100, 50)) }, AsciiCell { ch: ' ', color: None }]]);
}

#[test]
fn blur_of_flat_image_is_flat() {
    let img = vec![40u8; 12];
    assert_eq!(gaussian_blur_3x3(&img, 4, 3), img);
}

#[test]
fn blur_single_bright_pixel() {
    // 3x3 with a bright center: center keeps 4/16 of it.
    let mut img = vec![0u8; 9];
    img[4] = 160;
    let out = gaussian_blur_3x3(&img, 3, 3);
    assert_eq!(out[4], 40);
    assert_eq!(out[1], 20);
    assert_eq!(out[0], 10);
}

#[test]
fn sobel_on_vertical_edge() {
    // Left column dark, the rest bright.
    let w = 4u32;
    let h = 3u32;
    let mut g = vec![200u8; 12];
    for y in 0..3 {
        g[y * 4] = 0;
    }
    assert_eq!(edge_gradient(&g, w, h, 1, 1, 10), Some((800, 0)));
    assert_eq!(edge_gradient(&g, w, h, 2, 1, 10), None);
    assert_eq!(edge_gradient(&g, w, h, 0, 1, 10), None);
}

#[test]
fn style_list() {
    assert_eq!(VisualStyle::at(0), VisualStyle::Charset(CharsetName::Standard));
    assert_eq!(VisualStyle::at(5), VisualStyle::Outline);
    assert_eq!(STYLE_COUNT, 6);
    let labels: Vec<&str> = (0..STYLE_COUNT).map(|i| VisualStyle::at(i).label()).collect();
    assert_eq!(labels, vec!["standard", "letters", "dots", "digits", "blocks", "outline"]);
    // a wide charset is not listed; its index falls back to the first style
    assert_eq!(VisualStyle::Charset(CharsetName::Katakana).index(), 0);
    let mut rc = RenderConfig::default();
    VisualStyle::Charset(CharsetName::Dots).apply(&mut rc);
    assert_eq!(VisualStyle::from_config(&rc), VisualStyle::Charset(CharsetName::Dots));
    assert_eq!(VisualStyle::from_config(&rc).index(), 2);
}

#[test]
fn pip_corner_cycle() {
    let c = PipCorner::TopRight;
    assert_eq!(c.next(), PipCorner::TopLeft);
    assert_eq!(c.next().next(), PipCorner::BottomLeft);
    assert_eq!(c.next().next().next(), PipCorner::BottomRight);
    assert_eq!(c.next().next().next().next(), PipCorner::TopRight);
    assert_eq!(PipCorner::BottomLeft.label(), "bottom-left");
}

#[test]
fn settings_items() {
    assert_eq!(SettingsItem::at(0).label(), "color");
    assert_eq!(SettingsItem::at(4).label(), "bright threshold");
}

#[test]
fn menu_positions() {
    assert_eq!(menu_item_x(Panel::StylePicker, false), 1);
    assert_eq!(menu_item_x(Panel::Settings, false), 16);
    assert_eq!(menu_item_x(Panel::Account, false), 33);
    assert_eq!(menu_item_x(Panel::Connect, false), 49);
    assert_eq!(menu_item_x(Panel::Friends, true), 33);
    assert_eq!(menu_item_x(Panel::Account, true), 49);
    assert_eq!(menu_item_x(Panel::Connect, true), 65);
    assert_eq!(menu_item_x(Panel::Preference, false), 65);
}

#[test]
fn settings_rows_show_values() {
    let mut c = RenderConfig::default();
    c.brightness_threshold = 85;
    assert_eq!(settings_row(SettingsItem::Color, &c, true), (" color  OFF ".to_string(), false));
    c.color = true;
    assert_eq!(settings_row(SettingsItem::Color, &c, true), (" color  ON ".to_string(), false));
    assert_eq!(settings_row(SettingsItem::Background, &c, false), (" background  OFF ".to_string(), true));
    assert_eq!(settings_row(SettingsItem::Background, &c, true), (" background  OFF ".to_string(), false));
    assert_eq!(settings_row(SettingsItem::Mirror, &c, false), (" mirror  OFF ".to_string(), false));
    assert_eq!(
        settings_row(SettingsItem::Brightness, &c, false),
        (" bright threshold  \u{25c0} 85 \u{25b6} ".to_string(), false)
    );
    c.contour = true;
    assert_eq!(settings_row(SettingsItem::Contour, &c, false), (" contour  ON ".to_string(), false));
}
