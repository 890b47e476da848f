//! What a session remembers between runs.

use vstd::prelude::*;
use std::path::PathBuf;
use crate::file_manager::{empty_path, path_buf_text};

verus! {

/// The settings of a session: where the game's data is.
pub struct Config {
    pub game_path: PathBuf,
}

impl Default for Config {
    /// No game directory has been chosen: the path is empty.
    fn default() -> (config: Self)
        ensures
            path_buf_text(config.game_path) == Seq::<u8>::empty(),
    {
        Config { game_path: empty_path() }
    }
}

} // verus!
