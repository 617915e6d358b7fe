//! The user's settings.

use vstd::prelude::*;

verus! {

/// The capacity of the history where the settings name none.
pub const DEFAULT_MAX_HISTORY: usize = 50;

/// The tag of the dark theme.
pub open spec fn dark_tag() -> Seq<char> {
    "dark"@
}

/// The tag of the light theme.
pub open spec fn light_tag() -> Seq<char> {
    "light"@
}

/// The settings of the application.
///
/// `max_history` is the capacity of the history. `theme` is `"dark"` or
/// `"light"`; it and `start_login` concern the presentation only.
#[derive(Debug, Clone)]
pub struct AppConfig {
    pub max_history: usize,
    pub theme: String,
    pub start_login: bool,
}

/// What an [`AppConfig`] holds, as plain mathematical values.
pub struct ConfigView {
    pub max_history: nat,
    pub theme: Seq<char>,
    pub start_login: bool,
}

impl ConfigView {
    /// A capacity of 50, the dark theme, no start at login.
    pub open spec fn defaults() -> ConfigView {
        ConfigView { max_history: 50, theme: dark_tag(), start_login: false }
    }
}

impl View for AppConfig {
    type V = ConfigView;

    open spec fn view(&self) -> ConfigView {
        ConfigView {
            max_history: self.max_history as nat,
            theme: self.theme@,
            start_login: self.start_login,
        }
    }
}

impl Default for AppConfig {
    fn default() -> (config: AppConfig)
        ensures
            config@ == ConfigView::defaults(),
    {
        AppConfig {
            max_history: DEFAULT_MAX_HISTORY,
            theme: "dark".to_owned(),
            start_login: false,
        }
    }
}

impl AppConfig {
    /// Whether the dark theme is chosen.
    pub fn is_dark(&self) -> (dark: bool)
        ensures
            dark == (self@.theme == dark_tag()),
    {
        let tag = "dark".to_owned();
        self.theme == tag
    }

    /// Chooses the dark or the light theme.
    pub fn set_dark(&mut self, dark: bool)
        ensures
            final(self)@ == (ConfigView {
                theme: if dark {
                    dark_tag()
                } else {
                    light_tag()
                },
                ..old(self)@
            }),
    {
        self.theme = if dark {
            "dark".to_owned()
        } else {
            "light".to_owned()
        };
    }
}

} // verus!
