//! Rules behind the icon widgets: display names and icon-theme candidates.
pub mod desktop_icon;
pub mod icon_surface;
pub mod settings;
