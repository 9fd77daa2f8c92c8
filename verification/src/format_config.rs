//! Formatter settings, read from the `[fmt]` table of `pata.toml`.

use vstd::prelude::*;
use crate::text::str_is;

verus! {

/// Formatter settings; each is optional in `pata.toml` and has a default.
#[derive(Debug, Clone)]
pub struct FormatterConfig {
    /// Line length limit for wrapping (default 100).
    pub line_width: Option<usize>,
    /// `"spaces"` or `"tabs"` (default `"spaces"`).
    pub indent_style: Option<String>,
    /// Spaces per indentation level (default 4).
    pub indent_width: Option<usize>,
}

impl Default for FormatterConfig {
    fn default() -> (r: Self)
        ensures
            r.line_width == Some(100usize),
            r.indent_style matches Some(s) && s@ == "spaces"@,
            r.indent_width == Some(4usize),
    {
        FormatterConfig {
            line_width: Some(100),
            indent_style: Some("spaces".to_string()),
            indent_width: Some(4),
        }
    }
}

/// Whether the settings ask for tab indentation.
pub open spec fn uses_tabs(c: FormatterConfig) -> bool {
    c.indent_style matches Some(s) && s@ == "tabs"@
}

/// The indentation width in effect.
pub open spec fn indent_width_spec(c: FormatterConfig) -> usize {
    match c.indent_width {
        Some(w) => w,
        None => 4,
    }
}

/// The text repeated once per nesting level.
pub open spec fn indent_unit_spec(c: FormatterConfig) -> Seq<char> {
    if uses_tabs(c) {
        seq!['\t']
    } else {
        Seq::new(indent_width_spec(c) as nat, |i: int| ' ')
    }
}

impl FormatterConfig {
    pub fn line_width(&self) -> (r: usize)
        ensures
            r == match self.line_width {
                Some(w) => w,
                None => 100,
            },
    {
        match self.line_width {
            Some(w) => w,
            None => 100,
        }
    }

    pub fn indent_width(&self) -> (r: usize)
        ensures
            r == indent_width_spec(*self),
    {
        match self.indent_width {
            Some(w) => w,
            None => 4,
        }
    }

    /// Whether `indent_style` is `"tabs"`.
    pub fn use_tabs(&self) -> (r: bool)
        ensures
            r == uses_tabs(*self),
    {
        match &self.indent_style {
            Some(s) => str_is(s.as_str(), "tabs"),
            None => false,
        }
    }

    /// One tab when tabs are asked for (the width then does not apply), otherwise
    /// `indent_width()` spaces.
    pub fn indent_unit(&self) -> (r: String)
        ensures
            r@ == indent_unit_spec(*self),
    {
        if self.use_tabs() {
            let v: Vec<char> = vec!['\t'];
            crate::text::string_of(v.as_slice())
        } else {
            let w = self.indent_width();
            let mut v: Vec<char> = Vec::new();
            while v.len() < w
                invariant
                    v.len() <= w,
                    forall|i: int| 0 <= i < v.len() ==> v@[i] == ' ',
                decreases w - v.len(),
            {
                v.push(' ');
            }
            assert(v@ =~= Seq::new(w as nat, |i: int| ' '));
            crate::text::string_of(v.as_slice())
        }
    }
}

} // verus!
