//! The logic of the freemkv disc backup tool, with its contracts: which
//! command an argument list selects and what its flags say (`cli`, `pipe`,
//! `disc_info`, `info`), the rip plan and job list and the decisions of the
//! copy and mux loops (`pipe`), the disc title list (`disc_info`), the drive
//! report, profile files and issue text (`info`, `toml`, `base64`,
//! `archive`), the read-check report (`verify`), the message catalog
//! (`strings`) and the verbosity filter (`output`).
pub mod text;
pub mod strings;
pub mod output;
pub mod toml;
pub mod base64;
pub mod info;
pub mod cli;
pub mod pipe;
pub mod lang;
pub mod disc_info;
pub mod verify;
pub mod archive;
