//! The settings panel's choices: which entry of each selector matches the
//! configuration, and what a selected entry sets.
use vstd::prelude::*;
use crate::domain::config::{box_style_name, box_style_of, theme_name, theme_of, BoxStyle, Theme};

verus! {

/// The theme selector's entry for a theme: light 0, dark 1.
pub open spec fn theme_choice_of(theme: Theme) -> u32 {
    if theme == Theme::Dark { 1 } else { 0 }
}

/// The theme name a selector entry sets: dark for entry 1, else light.
pub open spec fn theme_for_choice_of(active: Option<u32>) -> Seq<char> {
    if active == Some(1u32) { "dark"@ } else { "light"@ }
}

/// The box style selector's entry for a style: card 0, solid 1, plain 2.
pub open spec fn box_style_choice_of(style: BoxStyle) -> u32 {
    match style {
        BoxStyle::Card => 0,
        BoxStyle::Solid => 1,
        BoxStyle::Plain => 2,
    }
}

/// The box style name a selector entry sets: solid for 1, plain for 2,
/// else card.
pub open spec fn box_style_for_choice_of(active: Option<u32>) -> Seq<char> {
    if active == Some(1u32) {
        "solid"@
    } else if active == Some(2u32) {
        "plain"@
    } else {
        "card"@
    }
}

/// The icon size selector's entry for a size: 40 small (0), 56 large (2),
/// anything else medium (1).
pub open spec fn icon_size_choice_of(size: i32) -> u32 {
    if size == 40 { 0 } else if size == 56 { 2 } else { 1 }
}

/// The icon size a selector entry sets: 40, 48 or 56.
pub open spec fn icon_size_for_choice_of(active: Option<u32>) -> i32 {
    if active == Some(0u32) { 40 } else if active == Some(2u32) { 56 } else { 48 }
}

/// The theme selector's entry for a theme.
pub fn theme_choice(theme: Theme) -> (r: u32)
    ensures
        r == theme_choice_of(theme),
{
    match theme {
        Theme::Dark => 1,
        Theme::Light => 0,
    }
}

/// The theme name a selector entry sets.
pub fn theme_for_choice(active: Option<u32>) -> (r: &'static str)
    ensures
        r@ == theme_for_choice_of(active),
{
    match active {
        Some(1) => "dark",
        _ => "light",
    }
}

/// The box style selector's entry for a style.
pub fn box_style_choice(style: BoxStyle) -> (r: u32)
    ensures
        r == box_style_choice_of(style),
{
    match style {
        BoxStyle::Card => 0,
        BoxStyle::Solid => 1,
        BoxStyle::Plain => 2,
    }
}

/// The box style name a selector entry sets.
pub fn box_style_for_choice(active: Option<u32>) -> (r: &'static str)
    ensures
        r@ == box_style_for_choice_of(active),
{
    match active {
        Some(1) => "solid",
        Some(2) => "plain",
        _ => "card",
    }
}

/// The icon size selector's entry for a size.
pub fn icon_size_choice(size: i32) -> (r: u32)
    ensures
        r == icon_size_choice_of(size),
{
    if size == 40 {
        0
    } else if size == 56 {
        2
    } else {
        1
    }
}

/// The icon size a selector entry sets.
pub fn icon_size_for_choice(active: Option<u32>) -> (r: i32)
    ensures
        r == icon_size_for_choice_of(active),
{
    match active {
        Some(0) => 40,
        Some(2) => 56,
        _ => 48,
    }
}

/// Law: selecting the entry the panel shows for a setting keeps the
/// setting (for the icon size, one of the three sizes offered).
pub proof fn lemma_settings_choices_round_trip(theme: Theme, style: BoxStyle, size: i32)
    ensures
        theme_of(theme_for_choice_of(Some(theme_choice_of(theme)))) == theme,
        box_style_of(box_style_for_choice_of(Some(box_style_choice_of(style)))) == style,
        (size == 40 || size == 48 || size == 56) ==> icon_size_for_choice_of(Some(icon_size_choice_of(size))) == size,
{
    crate::domain::config::lemma_theme_round_trip(theme);
    crate::domain::config::lemma_box_style_round_trip(style);
    assert(theme_for_choice_of(Some(theme_choice_of(theme))) == theme_name(theme));
    assert(box_style_for_choice_of(Some(box_style_choice_of(style))) == box_style_name(style));
}

} // verus!
