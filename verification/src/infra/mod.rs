//! Platform rules: single instance, autostart entry, launcher detection.
//! The processes and files themselves are handled by the program around
//! this library; these modules decide what to do with them.
pub mod autostart;
pub mod launch;
pub mod single_instance;
