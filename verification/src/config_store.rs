//! The user's settings, and a store for them that keeps nothing.
use vstd::prelude::*;

verus! {

/// The settings kept between sessions.
#[derive(Debug)]
pub struct AppConfig {
    pub theme: String,
    pub show_hex_integers: bool,
}

impl Default for AppConfig {
    fn default() -> (r: Self)
        ensures
            r.theme@ == "Default"@,
            !r.show_hex_integers,
    {
        AppConfig { theme: "Default".to_owned(), show_hex_integers: false }
    }
}

/// The settings store of the program in a web browser, which keeps
/// nothing: it loads the browser's defaults and discards what it is given.
/// A program with a file system keeps its settings in a store of its own.
pub struct ConfigStore;

impl ConfigStore {
    pub fn new() -> (r: Option<Self>)
        ensures
            r is Some,
    {
        Some(ConfigStore)
    }

    /// The settings of a page in a web browser: nothing is kept, so these
    /// are the browser's defaults, with a theme that suits its terminal.
    pub fn load(&self) -> (r: AppConfig)
        ensures
            r.theme@ == "Ros\u{e9} Pine Moon"@,
            !r.show_hex_integers,
    {
        AppConfig { theme: "Ros\u{e9} Pine Moon".to_owned(), show_hex_integers: false }
    }

    pub fn save(&self, config: &AppConfig) {
    }
}

} // verus!
