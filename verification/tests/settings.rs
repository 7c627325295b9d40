//! The settings.
use dockyard::settings::{ColorScheme, Settings, StoredSettings, Theme};

#[test]
fn themes_round_trip_through_keys_and_places() {
    let cases = [
        (Theme::System, "system", 0, ColorScheme::Default),
        (Theme::Light, "light", 1, ColorScheme::ForceLight),
        (Theme::Dark, "dark", 2, ColorScheme::ForceDark),
    ];
    for (theme, key, index, scheme) in cases {
        assert_eq!(theme.as_key(), key);
        assert_eq!(Theme::from_key(key), theme);
        assert_eq!(theme.as_index(), index);
        assert_eq!(Theme::from_index(index), theme);
        assert_eq!(theme.color_scheme(), scheme);
    }
    assert_eq!(Theme::from_key("sepia"), Theme::System);
    assert_eq!(Theme::from_key("Light"), Theme::System);
    assert_eq!(Theme::from_index(3), Theme::System);
    assert_eq!(Theme::from_index(u32::MAX), Theme::System);
    assert_eq!(Theme::default(), Theme::System);
}

#[test]
fn settings_round_trip() {
    for logs_wrap in [false, true] {
        for logs_timestamps in [false, true] {
            for theme in [Theme::System, Theme::Light, Theme::Dark] {
                let settings = Settings {
                    logs_wrap,
                    logs_timestamps,
                    theme,
                };
                assert_eq!(Settings::load(Some(settings.save())), settings);
                assert_eq!(settings.apply_theme(), theme.color_scheme());
            }
        }
    }
}

#[test]
fn missing_keys_keep_their_defaults() {
    let defaults = Settings {
        logs_wrap: true,
        logs_timestamps: false,
        theme: Theme::System,
    };
    assert_eq!(Settings::default(), defaults);
    assert_eq!(Settings::load(None), defaults);
    let partial = StoredSettings {
        wrap: Some(false),
        timestamps: None,
        theme: Some("nonsense".to_owned()),
    };
    assert_eq!(
        Settings::load(Some(partial)),
        Settings {
            logs_wrap: false,
            ..defaults
        }
    );
}
