//! Decision logic of the desktop client's maintenance commands: path
//! handling for Windows and Unix paths, clean-up of legacy installs and app
//! bundles, and the plans behind the application commands.

pub mod lex;
pub mod path;
pub mod path_list;
pub mod legacy_install;
pub mod text;
pub mod legacy_app;
pub mod commands;
