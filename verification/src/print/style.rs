//! Token kinds and the style table that maps them to terminal attributes.
//!
//! The printer itself never inspects terminal capabilities: a [`Styler`] is
//! plain data (an escape-sequence prefix per token kind plus one shared reset
//! suffix), resolved once by the caller and handed in through the
//! configuration.  Display width is always measured on the raw token text;
//! the escape sequences around it contribute nothing to the column count.

use vstd::prelude::*;

verus! {

/// Semantic kind of an emitted token, used to look up display attributes.
#[derive(Clone, Copy, PartialEq, Eq, Debug)]
pub enum Style {
    /// Braces and brackets of sets, arrays and similar collections.
    SetLiteral,
    /// Numeric literals.
    NumberLit,
    /// String literals.
    StringLit,
    /// Boolean literals.
    BoolLit,
    /// Object type names and field names.
    Label,
}

/// A style table: one escape-sequence prefix per token kind and a shared
/// reset suffix.  With every prefix empty the table renders plain text.
pub struct Styler {
    pub set_literal: Vec<char>,
    pub number_lit: Vec<char>,
    pub string_lit: Vec<char>,
    pub bool_lit: Vec<char>,
    pub label: Vec<char>,
    pub reset: Vec<char>,
}

impl Styler {
    /// The prefix this table assigns to a token kind.
    pub open spec fn spec_prefix(&self, style: Style) -> Seq<char> {
        match style {
            Style::SetLiteral => self.set_literal@,
            Style::NumberLit => self.number_lit@,
            Style::StringLit => self.string_lit@,
            Style::BoolLit => self.bool_lit@,
            Style::Label => self.label@,
        }
    }

    /// A table with no attributes at all: every token renders as bare text.
    pub fn plain() -> (r: Styler)
        ensures
            r.set_literal@ == Seq::<char>::empty(),
            r.number_lit@ == Seq::<char>::empty(),
            r.string_lit@ == Seq::<char>::empty(),
            r.bool_lit@ == Seq::<char>::empty(),
            r.label@ == Seq::<char>::empty(),
            r.reset@ == Seq::<char>::empty(),
    {
        Styler {
            set_literal: Vec::new(),
            number_lit: Vec::new(),
            string_lit: Vec::new(),
            bool_lit: Vec::new(),
            label: Vec::new(),
            reset: Vec::new(),
        }
    }

    /// The default dark 256-color theme.
    pub fn dark_256() -> (r: Styler)
        ensures
            r.set_literal@ == "\u{1b}[38;5;146m"@,
            r.number_lit@ == "\u{1b}[38;5;114m"@,
            r.string_lit@ == "\u{1b}[38;5;186m"@,
            r.bool_lit@ == "\u{1b}[38;5;81m"@,
            r.label@ == "\u{1b}[38;5;153m"@,
            r.reset@ == "\u{1b}[0m"@,
    {
        Styler {
            set_literal: str_chars("\u{1b}[38;5;146m"),
            number_lit: str_chars("\u{1b}[38;5;114m"),
            string_lit: str_chars("\u{1b}[38;5;186m"),
            bool_lit: str_chars("\u{1b}[38;5;81m"),
            label: str_chars("\u{1b}[38;5;153m"),
            reset: str_chars("\u{1b}[0m"),
        }
    }

    /// Look up the prefix for a token kind.
    pub fn prefix(&self, style: Style) -> (r: Vec<char>)
        ensures
            r@ == self.spec_prefix(style),
    {
        match style {
            Style::SetLiteral => self.set_literal.clone(),
            Style::NumberLit => self.number_lit.clone(),
            Style::StringLit => self.string_lit.clone(),
            Style::BoolLit => self.bool_lit.clone(),
            Style::Label => self.label.clone(),
        }
    }

    /// Attach this table's attributes for `style` to a piece of token text.
    pub fn apply(&self, style: Style, text: Vec<char>) -> (r: Styled)
        ensures
            r.prefix@ == self.spec_prefix(style),
            r.suffix@ == self.reset@,
            r.text@ == text@,
    {
        Styled { prefix: self.prefix(style), text, suffix: self.reset.clone() }
    }
}

impl Clone for Styler {
    fn clone(&self) -> (r: Styler)
        ensures
            r.set_literal@ == self.set_literal@,
            r.number_lit@ == self.number_lit@,
            r.string_lit@ == self.string_lit@,
            r.bool_lit@ == self.bool_lit@,
            r.label@ == self.label@,
            r.reset@ == self.reset@,
    {
        Styler {
            set_literal: self.set_literal.clone(),
            number_lit: self.number_lit.clone(),
            string_lit: self.string_lit.clone(),
            bool_lit: self.bool_lit.clone(),
            label: self.label.clone(),
            reset: self.reset.clone(),
        }
    }
}

/// A token ready for emission: raw text framed by attribute sequences.
/// Only `text` counts toward the display column.
pub struct Styled {
    pub prefix: Vec<char>,
    pub text: Vec<char>,
    pub suffix: Vec<char>,
}

impl Styled {
    /// The characters this token adds to the output buffer.
    pub open spec fn emitted(&self, colors: bool) -> Seq<char> {
        if colors {
            self.prefix@ + self.text@ + self.suffix@
        } else {
            self.text@
        }
    }

    /// The display width of this token.
    pub open spec fn width(&self) -> nat {
        self.text@.len()
    }

    /// An unstyled token: bare text with empty attribute frames.
    pub fn bare(text: Vec<char>) -> (r: Styled)
        ensures
            r.prefix@ == Seq::<char>::empty(),
            r.suffix@ == Seq::<char>::empty(),
            r.text@ == text@,
            forall|colors: bool| r.emitted(colors) == text@,
    {
        let r = Styled { prefix: Vec::new(), text, suffix: Vec::new() };
        proof {
            assert forall|colors: bool| r.emitted(colors) == r.text@ by {
                assert(r.emitted(true) =~= r.text@);
            }
        }
        r
    }
}

/// Collect the characters of a string slice into a vector.
pub fn str_chars(s: &str) -> (r: Vec<char>)
    ensures
        r@ == s@,
{
    let n = s.unicode_len();
    let mut r: Vec<char> = Vec::new();
    let mut i: usize = 0;
    while i < n
        invariant
            i <= n,
            n == s@.len(),
            r@ == s@.take(i as int),
        decreases n - i,
    {
        r.push(s.get_char(i));
        proof {
            assert(r@ =~= s@.take(i as int + 1));
        }
        i = i + 1;
    }
    proof {
        assert(r@ =~= s@);
    }
    r
}

} // verus!
