//! The command line, and what it decides together with the settings.
use vstd::prelude::*;
use crate::text::{a_text_is_found_where_it_stands, contains_text};
use crate::app::GraphStyle;
use crate::backend::opt_text;
use crate::config::GpurConfig;

verus! {

/// The options of one run.
#[derive(Debug)]
pub struct Cli {
    /// Fabricated cards, so many.
    pub mock: Option<usize>,
    pub config: Option<String>,
    pub theme: Option<String>,
    pub tick_ms: Option<u64>,
    pub no_splash: bool,
    /// Print one snapshot and exit.
    pub once: bool,
    /// The same, for machines.
    pub json: bool,
    pub graphs: Option<GraphStyle>,
    /// Append one record per poll to this file.
    pub log: Option<String>,
    /// Play such a file.
    pub replay: Option<String>,
    pub completions: Option<CompletionShell>,
    pub man: bool,
}

/// Shells that completions can be made for.
#[derive(Clone, Copy, PartialEq, Eq, Structural, Debug)]
pub enum CompletionShell {
    Bash,
    Zsh,
    Fish,
    Powershell,
    Elvish,
    Nushell,
}

/// A text in quotes, its special characters escaped.
pub uninterp spec fn quoted(s: Seq<char>) -> Seq<char>;

/// std's `Debug` of a text, which is a function of the text alone.
#[verifier::external_body]
fn quote(s: &str) -> (r: String)
    ensures
        r@ == quoted(s@),
{
    format!("{s:?}")
}

impl Cli {
    /// Without a screen. What a person once did on the screen then plays no
    /// part.
    pub fn headless(&self) -> (b: bool)
        ensures
            b == (self.once || self.json),
    {
        self.once || self.json
    }

    /// The theme to load: the option's, else the settings'.
    pub fn theme_path(&self, cfg: &GpurConfig) -> (r: Option<String>)
        ensures
            opt_text(r) == theme_named(opt_text(self.theme), opt_text(cfg.theme)),
    {
        match &self.theme {
            Some(t) => Some(t.clone()),
            None => match &cfg.theme {
                Some(t) => Some(t.clone()),
                None => None,
            },
        }
    }

    /// The glyphs to draw with: the option's, else the settings', which have to
    /// name a set there is.
    pub fn graph_style(&self, cfg: &GpurConfig) -> (r: Result<GraphStyle, String>)
        ensures
            style_chosen(r, self.graphs, cfg.graphs@),
    {
        if let Some(s) = self.graphs {
            return Ok(s);
        }
        match GraphStyle::from_config(cfg.graphs.as_str()) {
            Some(s) => Ok(s),
            None => {
                let mut e = String::new();
                let named = quote(cfg.graphs.as_str());
                e.append("unknown graphs value ");
                e.append(named.as_str());
                e.append(" in config (expected braille, block, or ascii)");
                assert(e@ =~= "unknown graphs value "@ + quoted(cfg.graphs@)
                    + " in config (expected braille, block, or ascii)"@);
                Err(e)
            },
        }
    }
}

/// The theme file: the one on the command line, else the configured one.
pub open spec fn theme_named(flag: Option<Seq<char>>, configured: Option<Seq<char>>) -> Option<
    Seq<char>,
> {
    if flag is Some {
        flag
    } else {
        configured
    }
}

/// The graph style: the one on the command line, else the configured one where
/// it is the name of one.
pub open spec fn style_chosen(
    r: Result<GraphStyle, String>,
    flag: Option<GraphStyle>,
    configured: Seq<char>,
) -> bool {
    match (flag, GraphStyle::named(configured)) {
        (Some(s), _) => r == Ok::<GraphStyle, String>(s),
        (None, Some(s)) => r == Ok::<GraphStyle, String>(s),
        (None, None) => r matches Err(e) && e@ == "unknown graphs value "@ + quoted(configured)
            + " in config (expected braille, block, or ascii)"@,
    }
}

/// The command line wins over the configuration, which counts where the command
/// line says nothing.
pub proof fn the_command_line_wins(
    r: Result<GraphStyle, String>,
    s: GraphStyle,
    configured: Seq<char>,
    flag: Seq<char>,
    theme: Option<Seq<char>>,
)
    ensures
        theme_named(Some(flag), theme) == Some(flag),
        theme_named(None, theme) == theme,
        style_chosen(r, Some(s), configured) ==> r == Ok::<GraphStyle, String>(s),
        style_chosen(r, None, configured) && GraphStyle::named(configured) == Some(s) ==> r == Ok::<
            GraphStyle,
            String,
        >(s),
        style_chosen(r, None, configured) && GraphStyle::named(configured) is None ==> (
        r matches Err(e) && contains_text(e@, quoted(configured))),
{
    let a = "unknown graphs value "@;
    let z = " in config (expected braille, block, or ascii)"@;
    a_text_is_found_where_it_stands(a, quoted(configured), z);
}

} // verus!
