//! Typed access to a hierarchical key-value configuration store that is driven
//! through an external command-line tool. The library builds each run of the
//! tool and reads typed values out of what the tool printed; running the tool
//! is left to the caller.
pub mod access;
pub mod laws;
pub mod listing;
pub mod text;

pub use access::{
    get_boolean, get_int, get_string, get_uint, list_dir, list_request, raw_value, read_request,
    set_boolean, set_int, set_string, set_uint, write_outcome, write_request, Action, ConfigError,
    Invocation,
};
