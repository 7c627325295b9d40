//! The settings that outlive the app.
//!
//! They are kept as a few keys in a file; reading and writing that file is the
//! caller's. Here is what the keys mean.
use vstd::prelude::*;

use crate::text::{same_text, text_view};

verus! {

/// The window's colour scheme: follow the desktop, or force light or dark.
#[derive(Debug, Clone, Copy, PartialEq, Eq, Structural)]
pub enum Theme {
    /// Follow the desktop's preference.
    System,
    Light,
    Dark,
}

impl Default for Theme {
    fn default() -> (r: Theme)
        ensures
            r == Theme::System,
    {
        Theme::System
    }
}

/// A colour scheme to apply.
#[derive(Debug, Clone, Copy, PartialEq, Eq, Structural)]
pub enum ColorScheme {
    Default,
    ForceLight,
    ForceDark,
}

/// The colour scheme of a theme.
pub open spec fn theme_scheme(theme: Theme) -> ColorScheme {
    match theme {
        Theme::System => ColorScheme::Default,
        Theme::Light => ColorScheme::ForceLight,
        Theme::Dark => ColorScheme::ForceDark,
    }
}

/// The stored form of a theme.
pub open spec fn theme_key(theme: Theme) -> Seq<char> {
    match theme {
        Theme::System => "system"@,
        Theme::Light => "light"@,
        Theme::Dark => "dark"@,
    }
}

/// The theme that a stored form stands for: `System` for anything unknown.
pub open spec fn theme_named(key: Seq<char>) -> Theme {
    if key == "light"@ {
        Theme::Light
    } else if key == "dark"@ {
        Theme::Dark
    } else {
        Theme::System
    }
}

/// Where a theme stands in the list to choose from.
pub open spec fn theme_index(theme: Theme) -> u32 {
    match theme {
        Theme::System => 0,
        Theme::Light => 1,
        Theme::Dark => 2,
    }
}

/// The theme at a place in the list: `System` for any other place.
pub open spec fn theme_at(index: u32) -> Theme {
    if index == 1 {
        Theme::Light
    } else if index == 2 {
        Theme::Dark
    } else {
        Theme::System
    }
}

impl Theme {
    /// The colour scheme that this theme asks for.
    pub fn color_scheme(self) -> (r: ColorScheme)
        ensures
            r == theme_scheme(self),
    {
        match self {
            Theme::System => ColorScheme::Default,
            Theme::Light => ColorScheme::ForceLight,
            Theme::Dark => ColorScheme::ForceDark,
        }
    }

    /// The stable string that is stored.
    pub fn as_key(self) -> (r: &'static str)
        ensures
            r@ == theme_key(self),
    {
        match self {
            Theme::System => "system",
            Theme::Light => "light",
            Theme::Dark => "dark",
        }
    }

    /// Reads the stored form; anything unknown is `System`.
    pub fn from_key(key: &str) -> (r: Theme)
        ensures
            r == theme_named(key@),
    {
        if same_text(key, "light") {
            Theme::Light
        } else if same_text(key, "dark") {
            Theme::Dark
        } else {
            Theme::System
        }
    }

    /// Where the theme stands in the list of the preferences.
    pub fn as_index(self) -> (r: u32)
        ensures
            r == theme_index(self),
    {
        match self {
            Theme::System => 0,
            Theme::Light => 1,
            Theme::Dark => 2,
        }
    }

    /// The theme at a place in the list; anything unexpected is `System`.
    pub fn from_index(index: u32) -> (r: Theme)
        ensures
            r == theme_at(index),
    {
        match index {
            1 => Theme::Light,
            2 => Theme::Dark,
            _ => Theme::System,
        }
    }
}

/// A theme survives being stored and read again, and being chosen from the list; what
/// stands for no theme reads as `System`.
pub proof fn themes_read_back(theme: Theme, key: Seq<char>, index: u32)
    ensures
        theme_named(theme_key(theme)) == theme,
        theme_at(theme_index(theme)) == theme,
        (forall|t: Theme| key != #[trigger] theme_key(t)) ==> theme_named(key) == Theme::System,
        (forall|t: Theme| index != #[trigger] theme_index(t)) ==> theme_at(index) == Theme::System,
{
    reveal_strlit("system");
    reveal_strlit("light");
    reveal_strlit("dark");
    assert("system"@.len() == 6);
    assert("light"@.len() == 5);
    assert("dark"@.len() == 4);
    assert(theme_key(Theme::Light) == "light"@);
    assert(theme_key(Theme::Dark) == "dark"@);
    assert(theme_index(Theme::Light) == 1);
    assert(theme_index(Theme::Dark) == 2);
}

/// The settings. Read once at the start, and stored on every change.
#[derive(Debug, Clone, Copy, PartialEq, Eq, Structural)]
pub struct Settings {
    /// Whether a new log panel wraps long lines.
    pub logs_wrap: bool,
    /// Whether a new log panel shows timestamps.
    pub logs_timestamps: bool,
    pub theme: Theme,
}

/// The settings before anything was stored.
pub open spec fn default_settings() -> Settings {
    Settings { logs_wrap: true, logs_timestamps: false, theme: Theme::System }
}

impl Default for Settings {
    fn default() -> (r: Settings)
        ensures
            r == default_settings(),
    {
        Settings { logs_wrap: true, logs_timestamps: false, theme: Theme::System }
    }
}

/// What the file holds: each key as far as it is there and can be read.
#[derive(Debug, Clone, PartialEq, Eq)]
pub struct StoredSettings {
    /// `wrap` in the group `logs`.
    pub wrap: Option<bool>,
    /// `timestamps` in the group `logs`.
    pub timestamps: Option<bool>,
    /// `theme` in the group `appearance`.
    pub theme: Option<String>,
}

/// The settings that a file stands for; each key for itself, with the default for what
/// is not there.
pub open spec fn loaded_settings(
    wrap: Option<bool>,
    timestamps: Option<bool>,
    theme: Option<Seq<char>>,
) -> Settings {
    Settings {
        logs_wrap: match wrap {
            Some(wrap) => wrap,
            None => default_settings().logs_wrap,
        },
        logs_timestamps: match timestamps {
            Some(timestamps) => timestamps,
            None => default_settings().logs_timestamps,
        },
        theme: match theme {
            Some(key) => theme_named(key),
            None => default_settings().theme,
        },
    }
}

impl Settings {
    /// Reads the settings; `stored` is `None` where there is no file or it cannot be
    /// read. A broken file must never stop the app.
    pub fn load(stored: Option<StoredSettings>) -> (r: Settings)
        ensures
            r == match stored {
                Some(stored) => loaded_settings(
                    stored.wrap,
                    stored.timestamps,
                    text_view(stored.theme),
                ),
                None => default_settings(),
            },
    {
        let mut settings = Settings::default();
        match stored {
            Some(stored) => {
                match stored.wrap {
                    Some(wrap) => {
                        settings.logs_wrap = wrap;
                    },
                    None => {},
                }
                match stored.timestamps {
                    Some(timestamps) => {
                        settings.logs_timestamps = timestamps;
                    },
                    None => {},
                }
                match stored.theme {
                    Some(key) => {
                        settings.theme = Theme::from_key(key.as_str());
                    },
                    None => {},
                }
            },
            None => {},
        }
        settings
    }

    /// What to store.
    pub fn save(&self) -> (r: StoredSettings)
        ensures
            r.wrap == Some(self.logs_wrap),
            r.timestamps == Some(self.logs_timestamps),
            text_view(r.theme) == Some(theme_key(self.theme)),
    {
        StoredSettings {
            wrap: Some(self.logs_wrap),
            timestamps: Some(self.logs_timestamps),
            theme: Some(self.theme.as_key().to_owned()),
        }
    }

    /// The colour scheme to apply to the whole app.
    pub fn apply_theme(&self) -> (r: ColorScheme)
        ensures
            r == theme_scheme(self.theme),
    {
        self.theme.color_scheme()
    }
}

/// Settings survive being stored and read again.
pub proof fn settings_read_back(settings: Settings)
    ensures
        loaded_settings(
            Some(settings.logs_wrap),
            Some(settings.logs_timestamps),
            Some(theme_key(settings.theme)),
        ) == settings,
{
    themes_read_back(settings.theme, Seq::empty(), 0);
}

/// A key that is missing does not disturb the others, and a file without any gives the
/// defaults.
pub proof fn settings_keys_are_independent(
    wrap: Option<bool>,
    timestamps: Option<bool>,
    theme: Option<Seq<char>>,
)
    ensures
        loaded_settings(None, None, None) == default_settings(),
        loaded_settings(wrap, timestamps, theme) == (Settings {
            logs_wrap: loaded_settings(wrap, None, None).logs_wrap,
            logs_timestamps: loaded_settings(None, timestamps, None).logs_timestamps,
            theme: loaded_settings(None, None, theme).theme,
        }),
{
}

/// Each key that is there is what the settings say; a theme is known by its name. What is
/// missing is as at the start: lines wrap, no timestamps, and the desktop's theme.
pub proof fn stored_keys_are_what_is_set(
    wrap: Option<bool>,
    timestamps: Option<bool>,
    theme: Option<Seq<char>>,
)
    ensures
        ({
            let settings = loaded_settings(wrap, timestamps, theme);
            &&& wrap is Some ==> settings.logs_wrap == wrap->0
            &&& wrap is None ==> settings.logs_wrap
            &&& timestamps is Some ==> settings.logs_timestamps == timestamps->0
            &&& timestamps is None ==> !settings.logs_timestamps
            &&& settings.theme == Theme::Light <==> theme == Some("light"@)
            &&& settings.theme == Theme::Dark <==> theme == Some("dark"@)
        }),
        default_settings().logs_wrap,
        !default_settings().logs_timestamps,
        default_settings().theme == Theme::System,
{
    reveal_strlit("light");
    reveal_strlit("dark");
    assert("light"@.len() != "dark"@.len());
}

/// A theme forces the scheme of its name, and only the system's theme forces none.
pub proof fn themes_force_their_scheme(theme: Theme)
    ensures
        theme_scheme(theme) == ColorScheme::ForceLight <==> theme == Theme::Light,
        theme_scheme(theme) == ColorScheme::ForceDark <==> theme == Theme::Dark,
        theme_scheme(theme) == ColorScheme::Default <==> theme == Theme::System,
{
}

} // verus!
