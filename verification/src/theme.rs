//! Colour themes of the terminal interface.

use vstd::prelude::*;

verus! {

/// The name of a theme.
#[derive(Debug, Clone, Copy, PartialEq, Eq, Structural)]
pub enum ThemeName {
    /// Dark, after gruvbox.
    Dark,
    /// Light.
    Light,
    /// Sixteen colours, for limited terminals.
    Ansi,
}

impl Default for ThemeName {
    fn default() -> (r: ThemeName)
        ensures
            r == ThemeName::Dark,
    {
        ThemeName::Dark
    }
}

/// A colour: by its red, green and blue, or one of the terminal's own.
#[derive(Debug, Clone, Copy, PartialEq, Eq, Structural)]
pub enum Color {
    Rgb(u8, u8, u8),
    Black,
    Blue,
    DarkGray,
    Green,
    Magenta,
    Red,
    White,
    Yellow,
}

/// The colours of a theme.
#[derive(Debug, Clone, Copy, PartialEq, Eq, Structural)]
pub struct Theme {
    pub fg: Color,
    pub bg: Color,
    pub dim: Color,
    pub bold: Color,
    pub success: Color,
    pub error: Color,
    pub warning: Color,
    pub info: Color,
    pub assistant: Color,
    pub assistant_bold: Color,
    pub user: Color,
    pub user_bold: Color,
    pub tool_name: Color,
    pub tool_summary: Color,
    pub tool_success: Color,
    pub tool_error: Color,
    pub diff_added: Color,
    pub diff_removed: Color,
    pub diff_added_dim: Color,
    pub diff_removed_dim: Color,
    pub status_bg: Color,
    pub status_fg: Color,
    pub thinking: Color,
    pub border: Color,
    pub border_bold: Color,
    pub divider: Color,
}

/// The dark theme.
pub open spec fn dark_colors() -> Theme {
    Theme {
        fg: Color::Rgb(213, 196, 161),
        bg: Color::Rgb(40, 40, 40),
        dim: Color::Rgb(146, 131, 116),
        bold: Color::Rgb(250, 233, 213),
        success: Color::Rgb(184, 187, 38),
        error: Color::Rgb(251, 73, 52),
        warning: Color::Rgb(250, 189, 47),
        info: Color::Rgb(131, 165, 152),
        assistant: Color::Rgb(131, 165, 152),
        assistant_bold: Color::Rgb(211, 134, 155),
        user: Color::Rgb(184, 187, 38),
        user_bold: Color::Rgb(250, 233, 213),
        tool_name: Color::Rgb(250, 189, 47),
        tool_summary: Color::Rgb(146, 131, 116),
        tool_success: Color::Rgb(184, 187, 38),
        tool_error: Color::Rgb(251, 73, 52),
        diff_added: Color::Rgb(152, 195, 121),
        diff_removed: Color::Rgb(224, 108, 117),
        diff_added_dim: Color::Rgb(99, 166, 71),
        diff_removed_dim: Color::Rgb(184, 68, 77),
        status_bg: Color::Rgb(60, 60, 60),
        status_fg: Color::Rgb(213, 196, 161),
        thinking: Color::Rgb(184, 187, 38),
        border: Color::Rgb(100, 100, 100),
        border_bold: Color::Rgb(180, 180, 180),
        divider: Color::Rgb(80, 80, 80),
    }
}

/// The light theme.
pub open spec fn light_colors() -> Theme {
    Theme {
        fg: Color::Rgb(60, 60, 60),
        bg: Color::Rgb(250, 250, 250),
        dim: Color::Rgb(140, 140, 140),
        bold: Color::Rgb(30, 30, 30),
        success: Color::Rgb(84, 128, 0),
        error: Color::Rgb(200, 60, 60),
        warning: Color::Rgb(200, 150, 0),
        info: Color::Rgb(40, 80, 180),
        assistant: Color::Rgb(80, 120, 180),
        assistant_bold: Color::Rgb(140, 80, 160),
        user: Color::Rgb(84, 128, 0),
        user_bold: Color::Rgb(30, 30, 30),
        tool_name: Color::Rgb(200, 150, 0),
        tool_summary: Color::Rgb(140, 140, 140),
        tool_success: Color::Rgb(84, 128, 0),
        tool_error: Color::Rgb(200, 60, 60),
        diff_added: Color::Rgb(120, 180, 60),
        diff_removed: Color::Rgb(200, 100, 100),
        diff_added_dim: Color::Rgb(180, 220, 150),
        diff_removed_dim: Color::Rgb(240, 200, 200),
        status_bg: Color::Rgb(220, 220, 220),
        status_fg: Color::Rgb(60, 60, 60),
        thinking: Color::Rgb(84, 128, 0),
        border: Color::Rgb(180, 180, 180),
        border_bold: Color::Rgb(100, 100, 100),
        divider: Color::Rgb(200, 200, 200),
    }
}

/// The theme of sixteen colours.
pub open spec fn ansi_colors() -> Theme {
    Theme {
        fg: Color::White,
        bg: Color::Black,
        dim: Color::DarkGray,
        bold: Color::White,
        success: Color::Green,
        error: Color::Red,
        warning: Color::Yellow,
        info: Color::Blue,
        assistant: Color::Blue,
        assistant_bold: Color::Magenta,
        user: Color::Green,
        user_bold: Color::White,
        tool_name: Color::Yellow,
        tool_summary: Color::DarkGray,
        tool_success: Color::Green,
        tool_error: Color::Red,
        diff_added: Color::Green,
        diff_removed: Color::Red,
        diff_added_dim: Color::Rgb(99, 166, 71),
        diff_removed_dim: Color::Rgb(184, 68, 77),
        status_bg: Color::DarkGray,
        status_fg: Color::White,
        thinking: Color::Green,
        border: Color::White,
        border_bold: Color::White,
        divider: Color::DarkGray,
    }
}

/// The colours of a theme by its name.
pub open spec fn colors_of(name: ThemeName) -> Theme {
    match name {
        ThemeName::Dark => dark_colors(),
        ThemeName::Light => light_colors(),
        ThemeName::Ansi => ansi_colors(),
    }
}

impl Theme {
    /// The dark theme.
    pub fn dark() -> (r: Theme)
        ensures
            r == dark_colors(),
    {
        Theme {
            fg: Color::Rgb(213, 196, 161),
            bg: Color::Rgb(40, 40, 40),
            dim: Color::Rgb(146, 131, 116),
            bold: Color::Rgb(250, 233, 213),
            success: Color::Rgb(184, 187, 38),
            error: Color::Rgb(251, 73, 52),
            warning: Color::Rgb(250, 189, 47),
            info: Color::Rgb(131, 165, 152),
            assistant: Color::Rgb(131, 165, 152),
            assistant_bold: Color::Rgb(211, 134, 155),
            user: Color::Rgb(184, 187, 38),
            user_bold: Color::Rgb(250, 233, 213),
            tool_name: Color::Rgb(250, 189, 47),
            tool_summary: Color::Rgb(146, 131, 116),
            tool_success: Color::Rgb(184, 187, 38),
            tool_error: Color::Rgb(251, 73, 52),
            diff_added: Color::Rgb(152, 195, 121),
            diff_removed: Color::Rgb(224, 108, 117),
            diff_added_dim: Color::Rgb(99, 166, 71),
            diff_removed_dim: Color::Rgb(184, 68, 77),
            status_bg: Color::Rgb(60, 60, 60),
            status_fg: Color::Rgb(213, 196, 161),
            thinking: Color::Rgb(184, 187, 38),
            border: Color::Rgb(100, 100, 100),
            border_bold: Color::Rgb(180, 180, 180),
            divider: Color::Rgb(80, 80, 80),
        }
    }

    /// The light theme.
    pub fn light() -> (r: Theme)
        ensures
            r == light_colors(),
    {
        Theme {
            fg: Color::Rgb(60, 60, 60),
            bg: Color::Rgb(250, 250, 250),
            dim: Color::Rgb(140, 140, 140),
            bold: Color::Rgb(30, 30, 30),
            success: Color::Rgb(84, 128, 0),
            error: Color::Rgb(200, 60, 60),
            warning: Color::Rgb(200, 150, 0),
            info: Color::Rgb(40, 80, 180),
            assistant: Color::Rgb(80, 120, 180),
            assistant_bold: Color::Rgb(140, 80, 160),
            user: Color::Rgb(84, 128, 0),
            user_bold: Color::Rgb(30, 30, 30),
            tool_name: Color::Rgb(200, 150, 0),
            tool_summary: Color::Rgb(140, 140, 140),
            tool_success: Color::Rgb(84, 128, 0),
            tool_error: Color::Rgb(200, 60, 60),
            diff_added: Color::Rgb(120, 180, 60),
            diff_removed: Color::Rgb(200, 100, 100),
            diff_added_dim: Color::Rgb(180, 220, 150),
            diff_removed_dim: Color::Rgb(240, 200, 200),
            status_bg: Color::Rgb(220, 220, 220),
            status_fg: Color::Rgb(60, 60, 60),
            thinking: Color::Rgb(84, 128, 0),
            border: Color::Rgb(180, 180, 180),
            border_bold: Color::Rgb(100, 100, 100),
            divider: Color::Rgb(200, 200, 200),
        }
    }

    /// The theme of sixteen colours.
    pub fn ansi() -> (r: Theme)
        ensures
            r == ansi_colors(),
    {
        Theme {
            fg: Color::White,
            bg: Color::Black,
            dim: Color::DarkGray,
            bold: Color::White,
            success: Color::Green,
            error: Color::Red,
            warning: Color::Yellow,
            info: Color::Blue,
            assistant: Color::Blue,
            assistant_bold: Color::Magenta,
            user: Color::Green,
            user_bold: Color::White,
            tool_name: Color::Yellow,
            tool_summary: Color::DarkGray,
            tool_success: Color::Green,
            tool_error: Color::Red,
            diff_added: Color::Green,
            diff_removed: Color::Red,
            diff_added_dim: Color::Rgb(99, 166, 71),
            diff_removed_dim: Color::Rgb(184, 68, 77),
            status_bg: Color::DarkGray,
            status_fg: Color::White,
            thinking: Color::Green,
            border: Color::White,
            border_bold: Color::White,
            divider: Color::DarkGray,
        }
    }

    /// The theme of a name.
    pub fn from_name(name: ThemeName) -> (r: Theme)
        ensures
            r == colors_of(name),
    {
        match name {
            ThemeName::Dark => Theme::dark(),
            ThemeName::Light => Theme::light(),
            ThemeName::Ansi => Theme::ansi(),
        }
    }
}

/// The theme that is used unless another is chosen.
pub fn default_theme() -> (r: Theme)
    ensures
        r == dark_colors(),
{
    Theme::dark()
}

} // verus!
