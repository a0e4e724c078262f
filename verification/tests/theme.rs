use gamut::preferences::{AppPreferences, ThemeColors, ThemePreference};
use gamut::theme_choice::{
    hex_read_is_complete, parse_custom_palette, parse_hex_color, parse_theme,
    resolve_theme_choice, theme_label, theme_read_is_complete, CustomPalette, Rgba8,
    SystemTheme, ThemeChoice,
};

fn colors(background: &str, text: &str, accent: &str) -> ThemeColors {
    ThemeColors {
        background: background.to_string(),
        text: text.to_string(),
        accent: accent.to_string(),
    }
}

#[test]
fn hex_colors_read_as_bytes() {
    assert_eq!(
        parse_hex_color(" #112233 "),
        Some(Rgba8 { r: 0x11, g: 0x22, b: 0x33, a: 255 })
    );
    assert_eq!(
        parse_hex_color("##aabbcc80"),
        Some(Rgba8 { r: 0xaa, g: 0xbb, b: 0xcc, a: 0x80 })
    );
    assert_eq!(
        parse_hex_color("+f+f+f"),
        Some(Rgba8 { r: 15, g: 15, b: 15, a: 255 })
    );
    assert_eq!(parse_hex_color("invalid"), None);
    assert_eq!(parse_hex_color("12345"), None);
    assert_eq!(parse_hex_color("1234567"), None);
    assert_eq!(parse_hex_color("12zz56"), None);
    assert_eq!(parse_hex_color("-12345"), None);
    assert_eq!(parse_hex_color("é1234"), None);
}

#[test]
fn reading_stops_before_a_cut_character() {
    assert!(hex_read_is_complete("#112233"));
    assert!(hex_read_is_complete("é1234"));
    assert!(!hex_read_is_complete("aé123"));
    assert!(!hex_read_is_complete("xé123"));
    assert!(hex_read_is_complete("zzé12"));
    assert!(!hex_read_is_complete("12€3"));
    assert!(hex_read_is_complete("anything longer than eight bytes"));
}

#[test]
fn invalid_custom_theme_falls_back_to_dark_choice() {
    let custom = colors("invalid", "#FFFFFF", "#3366FF");
    assert!(theme_read_is_complete(ThemePreference::Custom, &custom));
    assert_eq!(
        resolve_theme_choice(ThemePreference::Custom, SystemTheme::Light, &custom),
        ThemeChoice::Dark
    );
}

#[test]
fn valid_custom_theme_parses_palette() {
    let palette = parse_custom_palette(&colors("#112233", "#EEF0F3", "#5588FF"))
        .expect("expected custom palette to parse");
    assert_eq!(
        palette,
        CustomPalette {
            background: Rgba8 { r: 0x11, g: 0x22, b: 0x33, a: 255 },
            text: Rgba8 { r: 0xEE, g: 0xF0, b: 0xF3, a: 255 },
            primary: Rgba8 { r: 0x55, g: 0x88, b: 0xFF, a: 255 },
        }
    );
    assert!(palette.text.r > palette.background.r);
}

#[test]
fn resolve_theme_supports_custom_mode() {
    let custom = colors("#112233", "#EEF0F3", "#5588FF");
    let palette = parse_custom_palette(&custom).unwrap();
    assert_eq!(
        resolve_theme_choice(ThemePreference::Custom, SystemTheme::Dark, &custom),
        ThemeChoice::Custom(palette)
    );
}

#[test]
fn built_in_and_system_choices() {
    let defaults = AppPreferences::defaults();
    let custom = &defaults.appearance.custom_theme;
    assert_eq!(resolve_theme_choice(ThemePreference::Dark, SystemTheme::Light, custom), ThemeChoice::Dark);
    assert_eq!(resolve_theme_choice(ThemePreference::Light, SystemTheme::Dark, custom), ThemeChoice::Light);
    assert_eq!(resolve_theme_choice(ThemePreference::System, SystemTheme::Light, custom), ThemeChoice::Light);
    assert_eq!(resolve_theme_choice(ThemePreference::System, SystemTheme::Dark, custom), ThemeChoice::Dark);
    assert_eq!(
        resolve_theme_choice(ThemePreference::System, SystemTheme::Unspecified, custom),
        ThemeChoice::Dark
    );
}

#[test]
fn theme_labels_read_back() {
    assert_eq!(theme_label(ThemePreference::Light), "Light");
    assert_eq!(theme_label(ThemePreference::Custom), "System");
    assert_eq!(parse_theme(theme_label(ThemePreference::Dark)), ThemePreference::Dark);
    assert_eq!(parse_theme("Light"), ThemePreference::Light);
    assert_eq!(parse_theme("light"), ThemePreference::System);
    assert_eq!(parse_theme(""), ThemePreference::System);
    assert_eq!(ThemePreference::Custom.label(), "Custom");
}
