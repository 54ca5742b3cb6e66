//! What the tokenizer is asked to look for.

use vstd::prelude::*;

verus! {

/// The constructs that can be turned on and off.
///
/// Paragraphs, blank lines and data are always there.
#[derive(Clone, Copy, Debug, PartialEq, Eq, Structural)]
pub struct Constructs {
    /// Autolinks: `<https://example.com>`.
    pub autolink: bool,
    /// Character escapes: `\*`.
    pub character_escape: bool,
    /// Character references: `&amp;`.
    pub character_reference: bool,
    /// Fenced code blocks.
    pub code_fenced: bool,
    /// Indented code blocks.
    pub code_indented: bool,
    /// Code spans.
    pub code_text: bool,
    /// Definitions.
    pub definition: bool,
    /// ATX headings.
    pub heading_atx: bool,
    /// Blocks of raw HTML.
    pub html_flow: bool,
    /// Raw HTML inside paragraphs and headings.
    pub html_text: bool,
    /// Images.
    pub label_start_image: bool,
    /// Links.
    pub label_start_link: bool,
}

impl Constructs {
    /// Everything that the grammar knows.
    pub fn all() -> (constructs: Self)
        ensures
            constructs == Self::everything(),
    {
        Constructs {
            autolink: true,
            character_escape: true,
            character_reference: true,
            code_fenced: true,
            code_indented: true,
            code_text: true,
            definition: true,
            heading_atx: true,
            html_flow: true,
            html_text: true,
            label_start_image: true,
            label_start_link: true,
        }
    }

    /// Every construct turned on.
    pub open spec fn everything() -> Self {
        Constructs {
            autolink: true,
            character_escape: true,
            character_reference: true,
            code_fenced: true,
            code_indented: true,
            code_text: true,
            definition: true,
            heading_atx: true,
            html_flow: true,
            html_text: true,
            label_start_image: true,
            label_start_link: true,
        }
    }
}

/// How to turn a text into events.
#[derive(Clone, Copy, Debug, PartialEq, Eq, Structural)]
pub struct ParseOptions {
    pub constructs: Constructs,
}

impl ParseOptions {
    /// Markdown as it is written on GitHub: every construct is turned on.
    pub fn gfm() -> (options: Self)
        ensures
            options.constructs == Constructs::everything(),
    {
        ParseOptions { constructs: Constructs::all() }
    }
}

impl Default for ParseOptions {
    fn default() -> (options: Self)
        ensures
            options.constructs == Constructs::everything(),
    {
        ParseOptions { constructs: Constructs::all() }
    }
}

} // verus!
