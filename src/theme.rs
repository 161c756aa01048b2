use vstd::prelude::*;
use crate::config::Theme;
use crate::text::{chars_of, same_chars};

verus! {

/// Number of built-in themes.
pub const THEME_COUNT: usize = 9;

/// The name of built-in theme `i` (for `0 <= i < THEME_COUNT`).
pub open spec fn theme_name(i: int) -> Seq<char> {
    if i == 0 {
        "catppuccin-mocha"@
    } else if i == 1 {
        "catppuccin-latte"@
    } else if i == 2 {
        "nord-dark"@
    } else if i == 3 {
        "nord-light"@
    } else if i == 4 {
        "dracula"@
    } else if i == 5 {
        "tokyonight-dark"@
    } else if i == 6 {
        "tokyonight-light"@
    } else if i == 7 {
        "gruvbox-dark"@
    } else {
        "gruvbox-light"@
    }
}

/// The colours of built-in theme `i` (for `0 <= i < THEME_COUNT`).
pub open spec fn theme_colors(i: int) -> Theme {
    if i == 0 {
        Theme {
            bg_color: 0x1e1e2e,
            fg_color: 0xcdd6f4,
            selected_bg: 0x89b4fa,
            selected_fg: 0x1e1e2e,
            border_color: 0x6c7086,
            query_bg: 0x313244,
            accent_color: 0xf38ba8,
        }
    } else if i == 1 {
        Theme {
            bg_color: 0xeff1f5,
            fg_color: 0x4c4f69,
            selected_bg: 0x1e66f5,
            selected_fg: 0xeff1f5,
            border_color: 0xacb0be,
            query_bg: 0xccd0da,
            accent_color: 0xd20f39,
        }
    } else if i == 2 {
        Theme {
            bg_color: 0x2e3440,
            fg_color: 0xd8dee9,
            selected_bg: 0x88c0d0,
            selected_fg: 0x2e3440,
            border_color: 0x4c566a,
            query_bg: 0x3b4252,
            accent_color: 0x8fbcbb,
        }
    } else if i == 3 {
        Theme {
            bg_color: 0xeceff4,
            fg_color: 0x2e3440,
            selected_bg: 0x88c0d0,
            selected_fg: 0x2e3440,
            border_color: 0xd8dee9,
            query_bg: 0xe5e9f0,
            accent_color: 0x81a1c1,
        }
    } else if i == 4 {
        Theme {
            bg_color: 0x282a36,
            fg_color: 0xf8f8f2,
            selected_bg: 0xbd93f9,
            selected_fg: 0x282a36,
            border_color: 0x44475a,
            query_bg: 0x44475a,
            accent_color: 0xff79c6,
        }
    } else if i == 5 {
        Theme {
            bg_color: 0x1a1b26,
            fg_color: 0xa9b1d6,
            selected_bg: 0x7aa2f7,
            selected_fg: 0x1a1b26,
            border_color: 0x414868,
            query_bg: 0x24283b,
            accent_color: 0xbb9af7,
        }
    } else if i == 6 {
        Theme {
            bg_color: 0xd5d6db,
            fg_color: 0x343b58,
            selected_bg: 0x3454a4,
            selected_fg: 0xd5d6db,
            border_color: 0x9699a3,
            query_bg: 0xc8c9ce,
            accent_color: 0x8c73cc,
        }
    } else if i == 7 {
        Theme {
            bg_color: 0x282828,
            fg_color: 0xebdbb2,
            selected_bg: 0x83a598,
            selected_fg: 0x282828,
            border_color: 0x504945,
            query_bg: 0x3c3836,
            accent_color: 0xfe8019,
        }
    } else {
        Theme {
            bg_color: 0xfbf1c7,
            fg_color: 0x3c3836,
            selected_bg: 0x83a598,
            selected_fg: 0xfbf1c7,
            border_color: 0xbdae93,
            query_bg: 0xebdbb2,
            accent_color: 0xd65d0e,
        }
    }
}

/// The built-in theme called `name`, searching from theme `i` on.
pub open spec fn theme_lookup(name: Seq<char>, i: int) -> Option<Theme>
    decreases THEME_COUNT - i,
{
    if i < 0 || i >= THEME_COUNT {
        None
    } else if name == theme_name(i) {
        Some(theme_colors(i))
    } else {
        theme_lookup(name, i + 1)
    }
}

/// The built-in theme called `name`, if there is one.
pub open spec fn theme_named(name: Seq<char>) -> Option<Theme> {
    theme_lookup(name, 0)
}

fn theme_name_at(i: usize) -> (r: &'static str)
    requires
        i < THEME_COUNT,
    ensures
        r@ == theme_name(i as int),
{
    if i == 0 {
        "catppuccin-mocha"
    } else if i == 1 {
        "catppuccin-latte"
    } else if i == 2 {
        "nord-dark"
    } else if i == 3 {
        "nord-light"
    } else if i == 4 {
        "dracula"
    } else if i == 5 {
        "tokyonight-dark"
    } else if i == 6 {
        "tokyonight-light"
    } else if i == 7 {
        "gruvbox-dark"
    } else {
        "gruvbox-light"
    }
}

fn theme_at(i: usize) -> (r: Theme)
    requires
        i < THEME_COUNT,
    ensures
        r == theme_colors(i as int),
{
    if i == 0 {
        Theme {
            bg_color: 0x1e1e2e,
            fg_color: 0xcdd6f4,
            selected_bg: 0x89b4fa,
            selected_fg: 0x1e1e2e,
            border_color: 0x6c7086,
            query_bg: 0x313244,
            accent_color: 0xf38ba8,
        }
    } else if i == 1 {
        Theme {
            bg_color: 0xeff1f5,
            fg_color: 0x4c4f69,
            selected_bg: 0x1e66f5,
            selected_fg: 0xeff1f5,
            border_color: 0xacb0be,
            query_bg: 0xccd0da,
            accent_color: 0xd20f39,
        }
    } else if i == 2 {
        Theme {
            bg_color: 0x2e3440,
            fg_color: 0xd8dee9,
            selected_bg: 0x88c0d0,
            selected_fg: 0x2e3440,
            border_color: 0x4c566a,
            query_bg: 0x3b4252,
            accent_color: 0x8fbcbb,
        }
    } else if i == 3 {
        Theme {
            bg_color: 0xeceff4,
            fg_color: 0x2e3440,
            selected_bg: 0x88c0d0,
            selected_fg: 0x2e3440,
            border_color: 0xd8dee9,
            query_bg: 0xe5e9f0,
            accent_color: 0x81a1c1,
        }
    } else if i == 4 {
        Theme {
            bg_color: 0x282a36,
            fg_color: 0xf8f8f2,
            selected_bg: 0xbd93f9,
            selected_fg: 0x282a36,
            border_color: 0x44475a,
            query_bg: 0x44475a,
            accent_color: 0xff79c6,
        }
    } else if i == 5 {
        Theme {
            bg_color: 0x1a1b26,
            fg_color: 0xa9b1d6,
            selected_bg: 0x7aa2f7,
            selected_fg: 0x1a1b26,
            border_color: 0x414868,
            query_bg: 0x24283b,
            accent_color: 0xbb9af7,
        }
    } else if i == 6 {
        Theme {
            bg_color: 0xd5d6db,
            fg_color: 0x343b58,
            selected_bg: 0x3454a4,
            selected_fg: 0xd5d6db,
            border_color: 0x9699a3,
            query_bg: 0xc8c9ce,
            accent_color: 0x8c73cc,
        }
    } else if i == 7 {
        Theme {
            bg_color: 0x282828,
            fg_color: 0xebdbb2,
            selected_bg: 0x83a598,
            selected_fg: 0x282828,
            border_color: 0x504945,
            query_bg: 0x3c3836,
            accent_color: 0xfe8019,
        }
    } else {
        Theme {
            bg_color: 0xfbf1c7,
            fg_color: 0x3c3836,
            selected_bg: 0x83a598,
            selected_fg: 0xfbf1c7,
            border_color: 0xbdae93,
            query_bg: 0xebdbb2,
            accent_color: 0xd65d0e,
        }
    }
}

/// The built-in theme called `name`, if there is one.
pub fn get_theme(name: &str) -> (r: Option<Theme>)
    ensures
        r == theme_named(name@),
{
    let n = chars_of(name);
    let mut i: usize = 0;
    while i < THEME_COUNT
        invariant
            i <= THEME_COUNT,
            n@ == name@,
            theme_lookup(name@, 0) == theme_lookup(name@, i as int),
        decreases THEME_COUNT - i,
    {
        let candidate = chars_of(theme_name_at(i));
        if same_chars(&n, &candidate) {
            return Some(theme_at(i));
        }
        i += 1;
    }
    None
}

/// The names of the built-in themes, in order.
pub fn list_themes() -> (r: Vec<&'static str>)
    ensures
        r@.len() == THEME_COUNT,
        forall|i: int| 0 <= i < THEME_COUNT ==> (#[trigger] r@[i])@ == theme_name(i),
{
    let mut r: Vec<&'static str> = Vec::new();
    let mut i: usize = 0;
    while i < THEME_COUNT
        invariant
            i <= THEME_COUNT,
            r@.len() == i,
            forall|j: int| 0 <= j < i ==> (#[trigger] r@[j])@ == theme_name(j),
        decreases THEME_COUNT - i,
    {
        r.push(theme_name_at(i));
        i += 1;
    }
    r
}

} // verus!
