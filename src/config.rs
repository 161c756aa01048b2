use vstd::prelude::*;
use crate::theme::{get_theme, theme_colors, theme_named};

verus! {

/// The colours of the launcher window, as `0xRRGGBB`.
#[derive(Debug, Clone, Copy, PartialEq, Eq, Structural)]
pub struct Theme {
    pub bg_color: u32,
    pub fg_color: u32,
    pub selected_bg: u32,
    pub selected_fg: u32,
    pub border_color: u32,
    pub query_bg: u32,
    pub accent_color: u32,
}

/// The launcher's settings.
#[derive(Debug, Clone)]
pub struct Config {
    pub theme_name: Option<String>,
    pub font: String,
    pub font_size: u16,
    pub width: u16,
    pub height: u16,
    pub item_height: u16,
    pub padding: u16,
    pub border_width: u16,
    pub corner_radius: u16,
    pub max_results: usize,
    pub show_descriptions: bool,
    pub show_icons: bool,
    /// Seconds after which the item cache is stale.
    pub cache_timeout: u64,
    pub theme: Theme,
}

impl Default for Config {
    fn default() -> (r: Config)
        ensures
            r.theme_name is Some && r.theme_name->0@ == "catppuccin-mocha"@,
            r.font@ == "JetBrains Mono"@,
            r.font_size == 18,
            r.width == 800,
            r.height == 500,
            r.item_height == 64,
            r.padding == 16,
            r.border_width == 2,
            r.corner_radius == 12,
            r.max_results == 50,
            r.show_descriptions,
            r.show_icons,
            r.cache_timeout == 300,
            r.theme == theme_colors(0),
    {
        Config {
            theme_name: Some("catppuccin-mocha".to_owned()),
            font: "JetBrains Mono".to_owned(),
            font_size: 18,
            width: 800,
            height: 500,
            item_height: 64,
            padding: 16,
            border_width: 2,
            corner_radius: 12,
            max_results: 50,
            show_descriptions: true,
            show_icons: true,
            cache_timeout: 300,
            theme: Theme {
                bg_color: 0x1e1e2e,
                fg_color: 0xcdd6f4,
                selected_bg: 0x89b4fa,
                selected_fg: 0x1e1e2e,
                border_color: 0x6c7086,
                query_bg: 0x313244,
                accent_color: 0xf38ba8,
            },
        }
    }
}

/// The theme that `name` selects over `current`: the built-in theme of
/// that name, or `current` when there is no name or no such theme.
pub open spec fn resolved_theme(name: Option<String>, current: Theme) -> Theme {
    match name {
        Some(n) => match theme_named(n@) {
            Some(t) => t,
            None => current,
        },
        None => current,
    }
}

impl Config {
    /// Sets the colours to the built-in theme named by `theme_name`, if any.
    pub fn resolve_theme(&mut self)
        ensures
            *final(self) == (Config {
                theme: resolved_theme(old(self).theme_name, old(self).theme),
                ..*old(self)
            }),
    {
        match &self.theme_name {
            Some(name) => match get_theme(name.as_str()) {
                Some(t) => {
                    self.theme = t;
                },
                None => {},
            },
            None => {},
        }
    }
}

} // verus!
