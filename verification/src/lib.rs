//! ArkBox archive toolkit: the format rules, names, paths and byte layouts
//! behind a multi-format compressor, each stated and proved with Verus.

pub mod apple_double;
pub mod archive;
pub mod bytes;
pub mod calendar;
pub mod cli;
pub mod crypto;
pub mod edit;
pub mod engines;
pub mod error;
pub mod keychain;
pub mod model;
pub mod paths;
pub mod presets;
pub mod preview;
pub mod quicklook;
pub mod rar;
pub mod sevenzip_cli;
pub mod shell_menu;
pub mod single;
pub mod text;
