//! Host-side core of a plugin-driven GUI application: the registry that tracks
//! plugin modules through load, unload, reload and activation, the capture
//! buffer for diagnostic records, and the log view that the host keeps per
//! target.

pub mod laws;
pub mod logbook;
pub mod logger;
pub mod model;
pub mod plugins;
pub mod text;
pub mod ui;

pub use logbook::{LogBook, LogChannel};
pub use logger::{ImguiLogger, Level};
pub use plugins::{Candidate, LoadFailure, LoadOutcome, PluginRecord, Plugins, Reloaded};
pub use text::is_plugin_file;
pub use ui::{log_file_content, log_file_path, UiState};
