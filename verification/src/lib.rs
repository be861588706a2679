//! The verified core of Chartr's workspace shell: chrome modes, keymaps,
//! persistence planning, backend supervision, and the text rules behind them.

pub mod mode;
pub mod text;
pub mod space_order;
pub mod backend;
pub mod notices;
pub mod keymap;
pub mod persistence;
pub mod browser;
pub mod browser_runtime;
pub mod chrome;
pub mod sorter;
pub mod keys;
pub mod palette;
pub mod plugin_installer;
pub mod commands;
pub mod launch;
pub mod assets;
pub mod fonts;
pub mod session;
pub mod closing;
pub mod links;
pub mod restore;
