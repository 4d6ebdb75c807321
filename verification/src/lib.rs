//! A browser's query string read as a command line.
//!
//! A page opened as `index.html?k=1&begin&something=spa%20ce` is treated like a
//! program started with `-k=1 --begin --something=spa ce`: every key of the
//! query string becomes one dash-prefixed token, and [`easy_parse`] takes such a
//! token apart again.

pub mod host;
pub mod parse;
pub mod table;
pub mod token;
pub mod version;

pub use host::{
    delete_program_parameter, get_hash, link_open, link_open_outcome, path, set_hash,
    set_program_parameter, Host, LinkOpenFailed, Request,
};
pub use parse::easy_parse;
pub use table::{delete_entries, perform, set_entry};
pub use token::{format_token, get_program_parameters, RawParameter};
pub use version::crate_version;
