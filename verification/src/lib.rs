pub mod text;
pub mod format;
pub mod words;
pub mod calculator;
pub mod shortcut;
pub mod preferences;
pub mod model;
pub mod editor;
pub mod capture;
pub mod desktop;
pub mod catalog;
pub mod progress;
pub mod scrollbar;
pub mod keys;
pub mod theme_choice;
pub mod selection;
pub mod session;
pub mod display;
pub mod ipc;
pub mod surface;
pub mod tabs;
pub mod settings;
pub mod visibility;
pub mod window_options;
