//! Configuration data: icon and box state, typed theme and box style.
//!
//! The full configuration record also holds the box opacity, a float, and
//! is kept by the program around this library together with its JSON form.
use vstd::prelude::*;
use crate::text::str_eq;

verus! {

/// A desktop icon: its path and desktop coordinates.
#[derive(Clone, Debug, PartialEq, Eq)]
pub struct IconState {
    pub path: String,
    pub x: i32,
    pub y: i32,
}

/// An organize box: geometry, state and the icons it holds.
#[derive(Clone, Debug, PartialEq)]
pub struct BoxState {
    pub id: String,
    pub title: String,
    pub x: i32,
    pub y: i32,
    pub w: i32,
    pub h: i32,
    pub collapsed: bool,
    pub color: Option<String>,
    pub icons: Vec<IconState>,
}

/// Interface theme.
#[derive(Clone, Copy, PartialEq, Eq, Debug, Structural)]
pub enum Theme {
    Light,
    Dark,
}

/// The theme a configuration name selects: `"dark"`, else light.
pub open spec fn theme_of(s: Seq<char>) -> Theme {
    if s == "dark"@ {
        Theme::Dark
    } else {
        Theme::Light
    }
}

/// The configuration name of a theme.
pub open spec fn theme_name(t: Theme) -> Seq<char> {
    match t {
        Theme::Light => "light"@,
        Theme::Dark => "dark"@,
    }
}

impl Theme {
    /// The theme a configuration name selects (unknown names give light).
    pub fn parse(s: &str) -> (r: Theme)
        ensures
            r == theme_of(s@),
    {
        if str_eq(s, "dark") {
            Theme::Dark
        } else {
            Theme::Light
        }
    }

    /// The configuration name of the theme.
    pub fn as_str(self) -> (r: &'static str)
        ensures
            r@ == theme_name(self),
    {
        match self {
            Theme::Light => "light",
            Theme::Dark => "dark",
        }
    }
}

/// Law: a theme's name parses back to the theme.
pub proof fn lemma_theme_round_trip(t: Theme)
    ensures
        theme_of(theme_name(t)) == t,
{
    reveal_strlit("light");
    reveal_strlit("dark");
    assert("light"@ != "dark"@) by {
        assert("light"@.len() != "dark"@.len());
    }
}

/// Box style.
#[derive(Clone, Copy, PartialEq, Eq, Debug, Structural)]
pub enum BoxStyle {
    Card,
    Solid,
    Plain,
}

/// The box style a configuration name selects: `"solid"`, `"plain"`, else card.
pub open spec fn box_style_of(s: Seq<char>) -> BoxStyle {
    if s == "solid"@ {
        BoxStyle::Solid
    } else if s == "plain"@ {
        BoxStyle::Plain
    } else {
        BoxStyle::Card
    }
}

/// The configuration name of a box style.
pub open spec fn box_style_name(b: BoxStyle) -> Seq<char> {
    match b {
        BoxStyle::Card => "card"@,
        BoxStyle::Solid => "solid"@,
        BoxStyle::Plain => "plain"@,
    }
}

impl BoxStyle {
    /// The box style a configuration name selects (unknown names give card).
    pub fn parse(s: &str) -> (r: BoxStyle)
        ensures
            r == box_style_of(s@),
    {
        if str_eq(s, "solid") {
            BoxStyle::Solid
        } else if str_eq(s, "plain") {
            BoxStyle::Plain
        } else {
            BoxStyle::Card
        }
    }

    /// The configuration name of the box style.
    pub fn as_str(self) -> (r: &'static str)
        ensures
            r@ == box_style_name(self),
    {
        match self {
            BoxStyle::Card => "card",
            BoxStyle::Solid => "solid",
            BoxStyle::Plain => "plain",
        }
    }
}

/// Law: a box style's name parses back to the style.
pub proof fn lemma_box_style_round_trip(b: BoxStyle)
    ensures
        box_style_of(box_style_name(b)) == b,
{
    reveal_strlit("card");
    reveal_strlit("solid");
    reveal_strlit("plain");
    assert("card"@ != "solid"@ && "card"@ != "plain"@ && "solid"@ != "plain"@) by {
        assert("card"@.len() != "solid"@.len());
        assert("card"@.len() != "plain"@.len());
        assert("solid"@[0] != "plain"@[0]);
    }
}

/// The configuration's settings apart from the box opacity (a float, kept
/// by the program around this library) and the saved icons, boxes and
/// hidden entries.
#[derive(Clone, Debug)]
pub struct Preferences {
    pub first_run: bool,
    pub icon_size: i32,
    pub grid_gap: i32,
    pub double_click_organize: bool,
    pub auto_organize: bool,
    pub show_files: bool,
    pub show_desktop_icons: bool,
    pub theme: String,
    pub box_style: String,
    pub box_seq: u64,
}

impl Default for Preferences {
    /// The settings of a fresh configuration: first run, 48-pixel icons,
    /// a 10-pixel gap, double-click organizing on, automatic organizing
    /// off, files and desktop icons shown, light theme, card boxes, no box
    /// numbered yet.
    fn default() -> (r: Preferences)
        ensures
            r.first_run,
            r.icon_size == 48,
            r.grid_gap == 10,
            r.double_click_organize,
            !r.auto_organize,
            r.show_files,
            r.show_desktop_icons,
            r.theme@ == "light"@,
            r.box_style@ == "card"@,
            r.box_seq == 0,
    {
        Preferences {
            first_run: true,
            icon_size: 48,
            grid_gap: 10,
            double_click_organize: true,
            auto_organize: false,
            show_files: true,
            show_desktop_icons: true,
            theme: String::from_str("light"),
            box_style: String::from_str("card"),
            box_seq: 0,
        }
    }
}

impl Preferences {
    /// The typed theme.
    pub fn theme(&self) -> (r: Theme)
        ensures
            r == theme_of(self.theme@),
    {
        Theme::parse(self.theme.as_str())
    }

    /// The typed box style.
    pub fn box_style(&self) -> (r: BoxStyle)
        ensures
            r == box_style_of(self.box_style@),
    {
        BoxStyle::parse(self.box_style.as_str())
    }
}

/// Law: the default settings select the light theme and card boxes.
pub proof fn lemma_default_theme_and_style()
    ensures
        theme_of("light"@) == Theme::Light,
        box_style_of("card"@) == BoxStyle::Card,
{
    lemma_theme_round_trip(Theme::Light);
    lemma_box_style_round_trip(BoxStyle::Card);
}

} // verus!
