//! The settings: their defaults, and what the command line and the saved state
//! make of them.
use vstd::prelude::*;

verus! {

/// The settings file. A missing file means the defaults.
#[derive(Debug)]
pub struct GpurConfig {
    /// Poll interval in milliseconds.
    pub tick_ms: u64,
    /// Path to a theme; none means the built-in one.
    pub theme: Option<String>,
    /// Samples kept per card.
    pub history_len: usize,
    /// Graph glyph set: "braille", "block" or "ascii".
    pub graphs: String,
}

impl Default for GpurConfig {
    fn default() -> (c: Self)
        ensures
            c.tick_ms == 1000,
            c.theme is None,
            c.history_len == 300,
            c.graphs@ == "braille"@,
    {
        GpurConfig {
            tick_ms: 1000,
            theme: None,
            history_len: 300,
            graphs: "braille".to_owned(),
        }
    }
}

} // verus!
