//! The colours of the chat screen.

use vstd::prelude::*;
use crate::state::MessageRole;

verus! {

/// A colour of the terminal: one of its named colours, or red, green and
/// blue parts.
#[derive(Debug, Clone, Copy, PartialEq, Eq, Structural)]
pub enum ThemeColor {
    Cyan,
    Green,
    Yellow,
    Blue,
    Red,
    LightBlue,
    LightGreen,
    LightYellow,
    Rgb(u8, u8, u8),
}

/// The colours that the chat screen is drawn in.
#[derive(Debug, Clone, Copy, PartialEq, Eq, Structural)]
pub struct ChatTheme {
    pub user_color: ThemeColor,
    pub assistant_color: ThemeColor,
    pub system_color: ThemeColor,
    pub highlight_bg: ThemeColor,
    pub normal_border: ThemeColor,
    pub insert_border: ThemeColor,
}

/// The themes that come with the program.
#[derive(Debug, Clone, Copy, PartialEq, Eq, Structural)]
pub enum ThemePreset {
    Default,
    Dark,
    Light,
}

/// The colours of a preset.
pub open spec fn preset_theme(preset: ThemePreset) -> ChatTheme {
    match preset {
        ThemePreset::Default => ChatTheme {
            user_color: ThemeColor::Cyan,
            assistant_color: ThemeColor::Green,
            system_color: ThemeColor::Yellow,
            highlight_bg: ThemeColor::Rgb(40, 40, 40),
            normal_border: ThemeColor::Blue,
            insert_border: ThemeColor::Green,
        },
        ThemePreset::Dark => ChatTheme {
            user_color: ThemeColor::LightBlue,
            assistant_color: ThemeColor::LightGreen,
            system_color: ThemeColor::LightYellow,
            highlight_bg: ThemeColor::Rgb(60, 60, 60),
            normal_border: ThemeColor::Blue,
            insert_border: ThemeColor::Green,
        },
        ThemePreset::Light => ChatTheme {
            user_color: ThemeColor::Blue,
            assistant_color: ThemeColor::Rgb(0, 150, 0),
            system_color: ThemeColor::Red,
            highlight_bg: ThemeColor::Rgb(240, 240, 220),
            normal_border: ThemeColor::Rgb(0, 0, 150),
            insert_border: ThemeColor::Rgb(0, 120, 0),
        },
    }
}

impl ChatTheme {
    /// The colour in which the messages of `role` are written.
    pub open spec fn message_color(self, role: MessageRole) -> ThemeColor {
        match role {
            MessageRole::User => self.user_color,
            MessageRole::Assistant => self.assistant_color,
            MessageRole::System => self.system_color,
        }
    }

    /// The theme of a preset.
    pub fn from_preset(preset: ThemePreset) -> (theme: ChatTheme)
        ensures
            theme == preset_theme(preset),
    {
        match preset {
            ThemePreset::Default => ChatTheme {
                user_color: ThemeColor::Cyan,
                assistant_color: ThemeColor::Green,
                system_color: ThemeColor::Yellow,
                highlight_bg: ThemeColor::Rgb(40, 40, 40),
                normal_border: ThemeColor::Blue,
                insert_border: ThemeColor::Green,
            },
            ThemePreset::Dark => ChatTheme {
                user_color: ThemeColor::LightBlue,
                assistant_color: ThemeColor::LightGreen,
                system_color: ThemeColor::LightYellow,
                highlight_bg: ThemeColor::Rgb(60, 60, 60),
                normal_border: ThemeColor::Blue,
                insert_border: ThemeColor::Green,
            },
            ThemePreset::Light => ChatTheme {
                user_color: ThemeColor::Blue,
                assistant_color: ThemeColor::Rgb(0, 150, 0),
                system_color: ThemeColor::Red,
                highlight_bg: ThemeColor::Rgb(240, 240, 220),
                normal_border: ThemeColor::Rgb(0, 0, 150),
                insert_border: ThemeColor::Rgb(0, 120, 0),
            },
        }
    }

    /// The foreground colour of the messages of `role`.
    pub fn get_message_style(&self, role: &MessageRole) -> (color: ThemeColor)
        ensures
            color == self.message_color(*role),
    {
        match role {
            MessageRole::User => self.user_color,
            MessageRole::Assistant => self.assistant_color,
            MessageRole::System => self.system_color,
        }
    }

    /// The background colour of the highlighted line.
    pub fn get_highlight_style(&self) -> (color: ThemeColor)
        ensures
            color == self.highlight_bg,
    {
        self.highlight_bg
    }

    /// The colour of the input area's border.
    pub fn get_border_color(&self, is_insert_mode: bool) -> (color: ThemeColor)
        ensures
            color == if is_insert_mode {
                self.insert_border
            } else {
                self.normal_border
            },
    {
        if is_insert_mode {
            self.insert_border
        } else {
            self.normal_border
        }
    }
}

} // verus!
