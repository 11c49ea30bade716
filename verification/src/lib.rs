//! shh: a terminal browser of SSH hosts. This library holds every decision
//! of the program, each with its contract: the host tree and its filter,
//! the selection, the add/edit wizard, the rename and delete dialogs, the
//! ssh command line, the cleaning of the configuration, and what the
//! screen shows. `laws` states and proves properties across operations.
pub mod text;
pub mod config;
pub mod host;
pub mod ssh;
pub mod app;
pub mod ui;
pub mod laws;
