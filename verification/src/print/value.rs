//! The printable value model and its rendering into the printer.
//!
//! Displayable values form a flat closed set of variants (scalars, strings,
//! collections, objects, numeric vectors) dispatched once at the top and
//! recursing structurally.  For every variant two reference layouts are
//! specified: `flow_text` (the one-line rendering whose display width decides
//! whether the single-line attempt fits) and `block_text` (the indented
//! one-item-per-line rendering used after a fallback).  Rendering is a pure
//! function of the value and the printer configuration, so replaying a value
//! a second time reproduces its text exactly.

use vstd::prelude::*;

use crate::print::buffer::BlockFallback;
use crate::print::buffer::Delim;
use crate::print::buffer::Printer;
use crate::print::buffer::block_lead;
use crate::print::buffer::flow_lead;
use crate::print::buffer::flow_lead_width;
use crate::print::buffer::sat_add;
use crate::print::buffer::sat_mul;
use crate::print::buffer::spaces;
use crate::print::style::Style;
use crate::print::style::Styled;
use crate::print::style::str_chars;
use crate::repl::VectorLimit;

verus! {

/// A displayable value.
pub enum Item {
    /// A scalar whose literal text is already rendered: numbers, booleans,
    /// identifiers, dates and the like.
    Scalar(Style, String),
    /// A string scalar; the printer quotes and escapes it.
    Text(String),
    /// A set, rendered inside braces.
    SetOf(Vec<Item>),
    /// An array, rendered inside square brackets.
    ArrayOf(Vec<Item>),
    /// A tuple, rendered inside parentheses.
    TupleOf(Vec<Item>),
    /// An object with a type name and named fields.
    Object(ObjectItem),
    /// A numeric vector whose element literals are already rendered; its
    /// display length is capped separately from other collections.
    VectorOf(Vec<String>),
}

/// An object value: a type name (possibly empty) and its fields.
pub struct ObjectItem {
    pub name: String,
    pub fields: Vec<Field>,
}

/// One object field.  Implicit fields render only when the configuration
/// asks for them.
pub struct Field {
    pub name: String,
    pub implicit: bool,
    pub value: Item,
}

impl Item {
    /// Whether this value renders as a single token with no brackets.
    pub open spec fn is_scalar(&self) -> bool {
        match self {
            Item::Scalar(_, _) => true,
            Item::Text(_) => true,
            _ => false,
        }
    }
}

/// The configuration fields the reference layouts depend on.
#[verifier::ext_equal]
pub ghost struct RenderCfg {
    pub colors: bool,
    pub indent: nat,
    pub expand: bool,
    pub implicit: bool,
    pub max_items: Option<usize>,
    pub vec_limit: VectorLimit,
    pub trailing: bool,
    pub set_literal: Seq<char>,
    pub number_lit: Seq<char>,
    pub string_lit: Seq<char>,
    pub bool_lit: Seq<char>,
    pub label: Seq<char>,
    pub reset: Seq<char>,
}

impl RenderCfg {
    /// The escape prefix for a token kind.
    pub open spec fn prefix(self, style: Style) -> Seq<char> {
        match style {
            Style::SetLiteral => self.set_literal,
            Style::NumberLit => self.number_lit,
            Style::StringLit => self.string_lit,
            Style::BoolLit => self.bool_lit,
            Style::Label => self.label,
        }
    }

    /// Token text as it lands in the buffer: framed by the attribute
    /// sequences when colors are on, bare otherwise.
    pub open spec fn styled(self, style: Style, text: Seq<char>) -> Seq<char> {
        if self.colors {
            self.prefix(style) + text + self.reset
        } else {
            text
        }
    }
}

impl Printer {
    /// The rendering configuration this printer carries.
    pub open spec fn rcfg(&self) -> RenderCfg {
        RenderCfg {
            colors: self.colors,
            indent: self.indent as nat,
            expand: self.expand_strings,
            implicit: self.implicit_properties,
            max_items: self.max_items,
            vec_limit: self.max_vector_length,
            trailing: self.trailing_comma,
            set_literal: self.styler.set_literal@,
            number_lit: self.styler.number_lit@,
            string_lit: self.styler.string_lit@,
            bool_lit: self.styler.bool_lit@,
            label: self.styler.label@,
            reset: self.styler.reset@,
        }
    }
}

/// How many of `len` elements are displayed under an optional cap.
pub open spec fn shown_count(len: nat, limit: Option<usize>) -> nat {
    match limit {
        Option::None => len,
        Option::Some(m) => if len <= m {
            len
        } else {
            m as nat
        },
    }
}

/// The escape sequence a single character contributes inside a quoted
/// string.  With `expand` set, control characters print literally.
pub open spec fn escaped_char(c: char, expand: bool) -> Seq<char> {
    if c == '\'' {
        seq!['\\', '\'']
    } else if c == '\\' {
        seq!['\\', '\\']
    } else if !expand && c == '\n' {
        seq!['\\', 'n']
    } else if !expand && c == '\t' {
        seq!['\\', 't']
    } else if !expand && c == '\r' {
        seq!['\\', 'r']
    } else if !expand && (c as u32) < 32 {
        seq!['\\', 'x', hex_digit((c as u32 / 16) as nat), hex_digit((c as u32 % 16) as nat)]
    } else {
        seq![c]
    }
}

/// The lowercase hexadecimal digit for `n < 16`.
pub open spec fn hex_digit(n: nat) -> char {
    if n == 0 {
        '0'
    } else if n == 1 {
        '1'
    } else if n == 2 {
        '2'
    } else if n == 3 {
        '3'
    } else if n == 4 {
        '4'
    } else if n == 5 {
        '5'
    } else if n == 6 {
        '6'
    } else if n == 7 {
        '7'
    } else if n == 8 {
        '8'
    } else if n == 9 {
        '9'
    } else if n == 10 {
        'a'
    } else if n == 11 {
        'b'
    } else if n == 12 {
        'c'
    } else if n == 13 {
        'd'
    } else if n == 14 {
        'e'
    } else {
        'f'
    }
}

/// The body of a quoted string: every character escaped.
pub open spec fn escaped_seq(s: Seq<char>, expand: bool) -> Seq<char>
    decreases s.len(),
{
    if s.len() == 0 {
        Seq::empty()
    } else {
        escaped_char(s[0], expand) + escaped_seq(s.drop_first(), expand)
    }
}

/// A string scalar's rendering: single quotes around the escaped body.
pub open spec fn quoted(s: Seq<char>, expand: bool) -> Seq<char> {
    seq!['\''] + escaped_seq(s, expand) + seq!['\'']
}

/// The raw (unstyled) token text of a scalar value.
pub open spec fn scalar_chars(item: Item, cfg: RenderCfg) -> Seq<char> {
    match item {
        Item::Scalar(_, s) => s@,
        Item::Text(s) => quoted(s@, cfg.expand),
        _ => Seq::empty(),
    }
}

/// The token kind of a scalar value.
pub open spec fn scalar_style(item: Item) -> Style {
    match item {
        Item::Scalar(sty, _) => sty,
        _ => Style::StringLit,
    }
}

/// Whether a field renders under this configuration.
pub open spec fn field_visible(f: Field, cfg: RenderCfg) -> bool {
    !f.implicit || cfg.implicit
}

/// Whether any field of the sequence renders.
pub open spec fn any_visible(fs: Seq<Field>, cfg: RenderCfg) -> bool {
    exists|i: int| 0 <= i < fs.len() && field_visible(fs[i], cfg)
}

/// The one-line rendering of a value (no leading separator).
pub open spec fn flow_text(item: Item, cfg: RenderCfg) -> Seq<char>
    decreases item, 2int,
{
    match item {
        Item::Scalar(sty, s) => cfg.styled(sty, s@),
        Item::Text(s) => cfg.styled(Style::StringLit, quoted(s@, cfg.expand)),
        Item::SetOf(items) => flow_composite('{', '}', items@, cfg.max_items, cfg),
        Item::ArrayOf(items) => flow_composite('[', ']', items@, cfg.max_items, cfg),
        Item::TupleOf(items) => flow_composite('(', ')', items@, cfg.max_items, cfg),
        Item::Object(o) => flow_object_label(o.name@, cfg) + flow_object_body(o.fields@, cfg),
        Item::VectorOf(elems) => flow_vector(elems@, cfg),
    }
}

/// The display width of the one-line rendering (styling contributes none).
pub open spec fn flow_width(item: Item, cfg: RenderCfg) -> nat
    decreases item, 2int,
{
    match item {
        Item::Scalar(sty, s) => s@.len(),
        Item::Text(s) => quoted(s@, cfg.expand).len(),
        Item::SetOf(items) => flow_composite_width(items@, cfg.max_items, cfg),
        Item::ArrayOf(items) => flow_composite_width(items@, cfg.max_items, cfg),
        Item::TupleOf(items) => flow_composite_width(items@, cfg.max_items, cfg),
        Item::Object(o) => flow_object_label_width(o.name@) + flow_object_body_width(
            o.fields@,
            cfg,
        ),
        Item::VectorOf(elems) => flow_vector_width(elems@, cfg),
    }
}

/// The tail a one-line collection body ends with: either the truncation
/// marker (when elements were cut), or the trailing separator the
/// configuration asks for after a non-empty body.
pub open spec fn flow_tail(shown: nat, ell: bool, cfg: RenderCfg) -> Seq<char> {
    if ell {
        (if shown > 0 {
            seq![',', ' ']
        } else {
            Seq::empty()
        }) + seq!['.', '.', '.']
    } else if cfg.trailing && shown > 0 {
        seq![',']
    } else {
        Seq::empty()
    }
}

/// Display width of [`flow_tail`].
pub open spec fn flow_tail_width(shown: nat, ell: bool, cfg: RenderCfg) -> nat {
    flow_tail(shown, ell, cfg).len()
}

/// One-line rendering of a bracketed collection.
pub open spec fn flow_composite(
    open: char,
    close: char,
    items: Seq<Item>,
    limit: Option<usize>,
    cfg: RenderCfg,
) -> Seq<char>
    decreases items, 1int,
{
    let k = shown_count(items.len(), limit);
    let ell = k < items.len();
    cfg.styled(Style::SetLiteral, seq![open]) + flow_items(items, k, cfg) + flow_tail(k, ell, cfg)
        + cfg.styled(Style::SetLiteral, seq![close])
}

/// Display width of [`flow_composite`].
pub open spec fn flow_composite_width(
    items: Seq<Item>,
    limit: Option<usize>,
    cfg: RenderCfg,
) -> nat
    decreases items, 1int,
{
    let k = shown_count(items.len(), limit);
    let ell = k < items.len();
    1 + flow_items_width(items, k, cfg) + flow_tail_width(k, ell, cfg) + 1
}

/// The first `k` values joined with `", "` on one line.
pub open spec fn flow_items(items: Seq<Item>, k: nat, cfg: RenderCfg) -> Seq<char>
    decreases items, 0int, k,
{
    if k == 0 || items.len() == 0 {
        Seq::empty()
    } else if k == 1 {
        flow_text(items[0], cfg)
    } else {
        flow_text(items[0], cfg) + seq![',', ' '] + flow_items(
            items.drop_first(),
            (k - 1) as nat,
            cfg,
        )
    }
}

/// Display width of [`flow_items`].
pub open spec fn flow_items_width(items: Seq<Item>, k: nat, cfg: RenderCfg) -> nat
    decreases items, 0int, k,
{
    if k == 0 || items.len() == 0 {
        0
    } else if k == 1 {
        flow_width(items[0], cfg)
    } else {
        flow_width(items[0], cfg) + 2 + flow_items_width(items.drop_first(), (k - 1) as nat, cfg)
    }
}

/// The object label: the type name and a space, or nothing.
pub open spec fn flow_object_label(name: Seq<char>, cfg: RenderCfg) -> Seq<char> {
    if name.len() > 0 {
        cfg.styled(Style::Label, name + seq![' '])
    } else {
        Seq::empty()
    }
}

/// Display width of [`flow_object_label`].
pub open spec fn flow_object_label_width(name: Seq<char>) -> nat {
    if name.len() > 0 {
        name.len() + 1
    } else {
        0
    }
}

/// One-line rendering of an object body: visible fields inside braces.
pub open spec fn flow_object_body(fs: Seq<Field>, cfg: RenderCfg) -> Seq<char>
    decreases fs, 1int,
{
    cfg.styled(Style::SetLiteral, seq!['{']) + flow_fields(fs, false, cfg) + (if cfg.trailing
        && any_visible(fs, cfg) {
        seq![',']
    } else {
        Seq::empty()
    }) + cfg.styled(Style::SetLiteral, seq!['}'])
}

/// Display width of [`flow_object_body`].
pub open spec fn flow_object_body_width(fs: Seq<Field>, cfg: RenderCfg) -> nat
    decreases fs, 1int,
{
    1 + flow_fields_width(fs, false, cfg) + (if cfg.trailing && any_visible(fs, cfg) {
        1nat
    } else {
        0nat
    }) + 1
}

/// Visible fields joined with `", "` on one line; `before` records whether a
/// field was already rendered, so a separator is owed first.
pub open spec fn flow_fields(fs: Seq<Field>, before: bool, cfg: RenderCfg) -> Seq<char>
    decreases fs, 0int,
{
    if fs.len() == 0 {
        Seq::empty()
    } else if field_visible(fs[0], cfg) {
        (if before {
            seq![',', ' ']
        } else {
            Seq::empty()
        }) + cfg.styled(Style::Label, fs[0].name@ + seq![':', ' ']) + flow_text(fs[0].value, cfg)
            + flow_fields(fs.drop_first(), true, cfg)
    } else {
        flow_fields(fs.drop_first(), before, cfg)
    }
}

/// Display width of [`flow_fields`].
pub open spec fn flow_fields_width(fs: Seq<Field>, before: bool, cfg: RenderCfg) -> nat
    decreases fs, 0int,
{
    if fs.len() == 0 {
        0
    } else if field_visible(fs[0], cfg) {
        (if before {
            2nat
        } else {
            0nat
        }) + fs[0].name@.len() + 2 + flow_width(fs[0].value, cfg) + flow_fields_width(
            fs.drop_first(),
            true,
            cfg,
        )
    } else {
        flow_fields_width(fs.drop_first(), before, cfg)
    }
}

/// One-line rendering of a numeric vector under its own display cap.
pub open spec fn flow_vector(elems: Seq<String>, cfg: RenderCfg) -> Seq<char>
    decreases elems,
{
    let k = cfg.vec_limit.spec_shown(elems.len());
    let ell = k < elems.len();
    cfg.styled(Style::SetLiteral, seq!['[']) + flow_vector_elems(elems, k, cfg) + flow_tail(
        k,
        ell,
        cfg,
    ) + cfg.styled(Style::SetLiteral, seq![']'])
}

/// Display width of [`flow_vector`].
pub open spec fn flow_vector_width(elems: Seq<String>, cfg: RenderCfg) -> nat
    decreases elems,
{
    let k = cfg.vec_limit.spec_shown(elems.len());
    let ell = k < elems.len();
    1 + flow_vector_elems_width(elems, k) + flow_tail_width(k, ell, cfg) + 1
}

/// The first `k` vector elements joined with `", "`.
pub open spec fn flow_vector_elems(elems: Seq<String>, k: nat, cfg: RenderCfg) -> Seq<char>
    decreases k,
{
    if k == 0 || elems.len() == 0 {
        Seq::empty()
    } else if k == 1 {
        cfg.styled(Style::NumberLit, elems[0]@)
    } else {
        cfg.styled(Style::NumberLit, elems[0]@) + seq![',', ' '] + flow_vector_elems(
            elems.drop_first(),
            (k - 1) as nat,
            cfg,
        )
    }
}

/// Display width of [`flow_vector_elems`].
pub open spec fn flow_vector_elems_width(elems: Seq<String>, k: nat) -> nat
    decreases k,
{
    if k == 0 || elems.len() == 0 {
        0
    } else if k == 1 {
        elems[0]@.len()
    } else {
        elems[0]@.len() + 2 + flow_vector_elems_width(elems.drop_first(), (k - 1) as nat)
    }
}

/// The block rendering of a value, starting at the current line position;
/// the value's own inner lines are indented one level below `d`.
pub open spec fn block_text(item: Item, d: nat, cfg: RenderCfg) -> Seq<char>
    decreases item, 2int,
{
    match item {
        Item::Scalar(sty, s) => cfg.styled(sty, s@),
        Item::Text(s) => cfg.styled(Style::StringLit, quoted(s@, cfg.expand)),
        Item::SetOf(items) => block_composite('{', '}', items@, cfg.max_items, d, cfg),
        Item::ArrayOf(items) => block_composite('[', ']', items@, cfg.max_items, d, cfg),
        Item::TupleOf(items) => block_composite('(', ')', items@, cfg.max_items, d, cfg),
        Item::Object(o) => flow_object_label(o.name@, cfg) + block_object_body(o.fields@, d, cfg),
        Item::VectorOf(elems) => block_vector(elems@, d, cfg),
    }
}

/// The tail a block collection body ends with before the closing bracket
/// moves to its own line: the truncation marker on a line of its own, or
/// the trailing separator the configuration asks for.
pub open spec fn block_tail(shown: nat, ell: bool, iw: nat, cfg: RenderCfg) -> Seq<char> {
    if ell {
        (if shown > 0 {
            seq![',', '\n']
        } else {
            seq!['\n']
        }) + spaces(iw) + seq!['.', '.', '.']
    } else if cfg.trailing && shown > 0 {
        seq![',']
    } else {
        Seq::empty()
    }
}

/// Block rendering of a bracketed collection.
pub open spec fn block_composite(
    open: char,
    close: char,
    items: Seq<Item>,
    limit: Option<usize>,
    d: nat,
    cfg: RenderCfg,
) -> Seq<char>
    decreases items, 1int,
{
    let k = shown_count(items.len(), limit);
    let ell = k < items.len();
    let iw_in = sat_mul(d + 1, cfg.indent);
    let iw_out = sat_mul(d, cfg.indent);
    if k == 0 && !ell {
        cfg.styled(Style::SetLiteral, seq![open]) + cfg.styled(Style::SetLiteral, seq![close])
    } else {
        cfg.styled(Style::SetLiteral, seq![open]) + block_items(items, k, d + 1, true, cfg)
            + block_tail(k, ell, iw_in, cfg) + seq!['\n'] + spaces(iw_out) + cfg.styled(
            Style::SetLiteral,
            seq![close],
        )
    }
}

/// The first `k` values, each on its own line at depth `d`.
pub open spec fn block_items(items: Seq<Item>, k: nat, d: nat, first: bool, cfg: RenderCfg) -> Seq<
    char,
>
    decreases items, 0int, k,
{
    if k == 0 || items.len() == 0 {
        Seq::empty()
    } else {
        (if first {
            seq!['\n']
        } else {
            seq![',', '\n']
        }) + spaces(sat_mul(d, cfg.indent)) + block_text(items[0], d, cfg) + block_items(
            items.drop_first(),
            (k - 1) as nat,
            d,
            false,
            cfg,
        )
    }
}

/// Block rendering of an object body: visible fields, one per line.
pub open spec fn block_object_body(fs: Seq<Field>, d: nat, cfg: RenderCfg) -> Seq<char>
    decreases fs, 1int,
{
    if !any_visible(fs, cfg) {
        cfg.styled(Style::SetLiteral, seq!['{']) + cfg.styled(Style::SetLiteral, seq!['}'])
    } else {
        cfg.styled(Style::SetLiteral, seq!['{']) + block_fields(fs, d + 1, true, cfg) + (
        if cfg.trailing {
            seq![',']
        } else {
            Seq::empty()
        }) + seq!['\n'] + spaces(sat_mul(d, cfg.indent)) + cfg.styled(
            Style::SetLiteral,
            seq!['}'],
        )
    }
}

/// Visible fields, each on its own line at depth `d`.
pub open spec fn block_fields(fs: Seq<Field>, d: nat, first: bool, cfg: RenderCfg) -> Seq<char>
    decreases fs, 0int,
{
    if fs.len() == 0 {
        Seq::empty()
    } else if field_visible(fs[0], cfg) {
        (if first {
            seq!['\n']
        } else {
            seq![',', '\n']
        }) + spaces(sat_mul(d, cfg.indent)) + cfg.styled(Style::Label, fs[0].name@ + seq![':', ' '])
            + block_text(fs[0].value, d, cfg) + block_fields(fs.drop_first(), d, false, cfg)
    } else {
        block_fields(fs.drop_first(), d, first, cfg)
    }
}

/// Block rendering of a numeric vector under its own display cap.
pub open spec fn block_vector(elems: Seq<String>, d: nat, cfg: RenderCfg) -> Seq<char>
    decreases elems,
{
    let k = cfg.vec_limit.spec_shown(elems.len());
    let ell = k < elems.len();
    let iw_in = sat_mul(d + 1, cfg.indent);
    let iw_out = sat_mul(d, cfg.indent);
    if k == 0 && !ell {
        cfg.styled(Style::SetLiteral, seq!['[']) + cfg.styled(Style::SetLiteral, seq![']'])
    } else {
        cfg.styled(Style::SetLiteral, seq!['[']) + block_vector_elems(elems, k, d + 1, true, cfg)
            + block_tail(k, ell, iw_in, cfg) + seq!['\n'] + spaces(iw_out) + cfg.styled(
            Style::SetLiteral,
            seq![']'],
        )
    }
}

/// What remains of a one-line element join after the first `i` of `k`
/// elements have been emitted: the separator still owed, then the rest.
pub open spec fn flow_rem(items: Seq<Item>, i: nat, k: nat, cfg: RenderCfg) -> Seq<char> {
    if i >= k {
        Seq::empty()
    } else if i == 0 {
        flow_items(items, k, cfg)
    } else {
        seq![',', ' '] + flow_items(items.skip(i as int), (k - i) as nat, cfg)
    }
}

/// Display width of [`flow_rem`].
pub open spec fn flow_rem_width(items: Seq<Item>, i: nat, k: nat, cfg: RenderCfg) -> nat {
    if i >= k {
        0
    } else if i == 0 {
        flow_items_width(items, k, cfg)
    } else {
        2 + flow_items_width(items.skip(i as int), (k - i) as nat, cfg)
    }
}

/// Peeling one element off the remainder of a one-line join.
pub proof fn lemma_flow_rem_step(items: Seq<Item>, i: nat, k: nat, cfg: RenderCfg)
    requires
        i < k,
        k <= items.len(),
    ensures
        flow_rem(items, i, k, cfg) == (if i > 0 {
            seq![',', ' ']
        } else {
            Seq::<char>::empty()
        }) + flow_text(items[i as int], cfg) + flow_rem(items, i + 1, k, cfg),
        flow_rem_width(items, i, k, cfg) == (if i > 0 {
            2nat
        } else {
            0nat
        }) + flow_width(items[i as int], cfg) + flow_rem_width(items, i + 1, k, cfg),
{
    let rest = items.skip(i as int);
    assert(rest[0] == items[i as int]);
    assert(rest.drop_first() =~= items.skip(i as int + 1));
    if i == 0 {
        assert(items.skip(0) =~= items);
        if k == 1 {
            assert(flow_rem(items, 1, k, cfg) =~= Seq::<char>::empty());
            assert(flow_items(items, k, cfg) =~= Seq::<char>::empty() + flow_text(
                items[0],
                cfg,
            ) + Seq::<char>::empty());
        } else {
            assert(flow_items(items, k, cfg) == flow_text(items[0], cfg) + seq![',', ' ']
                + flow_items(items.drop_first(), (k - 1) as nat, cfg));
            assert(items.drop_first() =~= items.skip(1));
            assert(flow_items(items, k, cfg) =~= Seq::<char>::empty() + flow_text(items[0], cfg)
                + (seq![',', ' '] + flow_items(items.skip(1), (k - 1) as nat, cfg)));
        }
    } else {
        if k - i == 1 {
            assert(flow_items(rest, 1, cfg) == flow_text(rest[0], cfg));
            assert(flow_rem(items, i, k, cfg) =~= seq![',', ' '] + flow_text(items[i as int], cfg)
                + Seq::<char>::empty());
        } else {
            assert(flow_items(rest, (k - i) as nat, cfg) == flow_text(rest[0], cfg)
                + seq![',', ' '] + flow_items(rest.drop_first(), (k - i - 1) as nat, cfg));
            assert(flow_rem(items, i, k, cfg) =~= seq![',', ' '] + flow_text(items[i as int], cfg)
                + (seq![',', ' '] + flow_items(items.skip(i as int + 1), (k - i - 1) as nat, cfg)));
        }
    }
}

/// What remains of a one-line vector-element join after the first `i`
/// elements.
pub open spec fn flow_vec_rem(elems: Seq<String>, i: nat, k: nat, cfg: RenderCfg) -> Seq<char> {
    if i >= k {
        Seq::empty()
    } else if i == 0 {
        flow_vector_elems(elems, k, cfg)
    } else {
        seq![',', ' '] + flow_vector_elems(elems.skip(i as int), (k - i) as nat, cfg)
    }
}

/// Display width of [`flow_vec_rem`].
pub open spec fn flow_vec_rem_width(elems: Seq<String>, i: nat, k: nat) -> nat {
    if i >= k {
        0
    } else if i == 0 {
        flow_vector_elems_width(elems, k)
    } else {
        2 + flow_vector_elems_width(elems.skip(i as int), (k - i) as nat)
    }
}

/// Peeling one element off the remainder of a one-line vector join.
pub proof fn lemma_flow_vec_rem_step(elems: Seq<String>, i: nat, k: nat, cfg: RenderCfg)
    requires
        i < k,
        k <= elems.len(),
    ensures
        flow_vec_rem(elems, i, k, cfg) == (if i > 0 {
            seq![',', ' ']
        } else {
            Seq::<char>::empty()
        }) + cfg.styled(Style::NumberLit, elems[i as int]@) + flow_vec_rem(elems, i + 1, k, cfg),
        flow_vec_rem_width(elems, i, k) == (if i > 0 {
            2nat
        } else {
            0nat
        }) + elems[i as int]@.len() + flow_vec_rem_width(elems, i + 1, k),
{
    let rest = elems.skip(i as int);
    assert(rest[0] == elems[i as int]);
    assert(rest.drop_first() =~= elems.skip(i as int + 1));
    if i == 0 {
        assert(elems.skip(0) =~= elems);
        if k == 1 {
            assert(flow_vec_rem(elems, 0, k, cfg) =~= Seq::<char>::empty() + cfg.styled(
                Style::NumberLit,
                elems[0]@,
            ) + Seq::<char>::empty());
        } else {
            assert(elems.drop_first() =~= elems.skip(1));
            assert(flow_vec_rem(elems, 0, k, cfg) =~= Seq::<char>::empty() + cfg.styled(
                Style::NumberLit,
                elems[0]@,
            ) + (seq![',', ' '] + flow_vector_elems(elems.skip(1), (k - 1) as nat, cfg)));
        }
    } else {
        if k - i == 1 {
            assert(flow_vec_rem(elems, i, k, cfg) =~= seq![',', ' '] + cfg.styled(
                Style::NumberLit,
                elems[i as int]@,
            ) + Seq::<char>::empty());
        } else {
            assert(flow_vec_rem(elems, i, k, cfg) =~= seq![',', ' '] + cfg.styled(
                Style::NumberLit,
                elems[i as int]@,
            ) + (seq![',', ' '] + flow_vector_elems(elems.skip(i as int + 1), (k - i - 1) as nat,
            cfg)));
        }
    }
}

/// What remains of a block element list after the first `i` of `k`
/// elements, each element carrying its own line lead.
pub open spec fn block_rem(items: Seq<Item>, i: nat, k: nat, d: nat, cfg: RenderCfg) -> Seq<char> {
    if i >= k {
        Seq::empty()
    } else {
        block_items(items.skip(i as int), (k - i) as nat, d, i == 0, cfg)
    }
}

/// Peeling one element off the remainder of a block element list.
pub proof fn lemma_block_rem_step(items: Seq<Item>, i: nat, k: nat, d: nat, cfg: RenderCfg)
    requires
        i < k,
        k <= items.len(),
    ensures
        block_rem(items, i, k, d, cfg) == (if i == 0 {
            seq!['\n']
        } else {
            seq![',', '\n']
        }) + spaces(sat_mul(d, cfg.indent)) + block_text(items[i as int], d, cfg) + block_rem(
            items,
            i + 1,
            k,
            d,
            cfg,
        ),
{
    let rest = items.skip(i as int);
    assert(rest[0] == items[i as int]);
    assert(rest.drop_first() =~= items.skip(i as int + 1));
    if i + 1 < k {
        assert(block_items(rest, (k - i) as nat, d, i == 0, cfg) == (if i == 0 {
            seq!['\n']
        } else {
            seq![',', '\n']
        }) + spaces(sat_mul(d, cfg.indent)) + block_text(rest[0], d, cfg) + block_items(
            rest.drop_first(),
            (k - i - 1) as nat,
            d,
            false,
            cfg,
        ));
    } else {
        assert(block_items(rest.drop_first(), 0, d, false, cfg) == Seq::<char>::empty());
    }
}

/// What remains of a block vector-element list after the first `i`
/// elements.
pub open spec fn block_vec_rem(elems: Seq<String>, i: nat, k: nat, d: nat, cfg: RenderCfg) -> Seq<
    char,
> {
    if i >= k {
        Seq::empty()
    } else {
        block_vector_elems(elems.skip(i as int), (k - i) as nat, d, i == 0, cfg)
    }
}

/// Peeling one element off the remainder of a block vector list.
pub proof fn lemma_block_vec_rem_step(elems: Seq<String>, i: nat, k: nat, d: nat, cfg: RenderCfg)
    requires
        i < k,
        k <= elems.len(),
    ensures
        block_vec_rem(elems, i, k, d, cfg) == (if i == 0 {
            seq!['\n']
        } else {
            seq![',', '\n']
        }) + spaces(sat_mul(d, cfg.indent)) + cfg.styled(Style::NumberLit, elems[i as int]@)
            + block_vec_rem(elems, i + 1, k, d, cfg),
{
    let rest = elems.skip(i as int);
    assert(rest[0] == elems[i as int]);
    assert(rest.drop_first() =~= elems.skip(i as int + 1));
    if i + 1 >= k {
        assert(block_vector_elems(rest.drop_first(), 0, d, false, cfg) == Seq::<char>::empty());
    }
}

/// The first `k` vector elements, each on its own line at depth `d`.
pub open spec fn block_vector_elems(
    elems: Seq<String>,
    k: nat,
    d: nat,
    first: bool,
    cfg: RenderCfg,
) -> Seq<char>
    decreases k,
{
    if k == 0 || elems.len() == 0 {
        Seq::empty()
    } else {
        (if first {
            seq!['\n']
        } else {
            seq![',', '\n']
        }) + spaces(sat_mul(d, cfg.indent)) + cfg.styled(Style::NumberLit, elems[0]@)
            + block_vector_elems(elems.drop_first(), (k - 1) as nat, d, false, cfg)
    }
}

/// The lowercase hexadecimal digit for `n < 16`, executable form.
pub fn hex_digit_char(n: u32) -> (r: char)
    requires
        n < 16,
    ensures
        r == hex_digit(n as nat),
{
    match n {
        0 => '0',
        1 => '1',
        2 => '2',
        3 => '3',
        4 => '4',
        5 => '5',
        6 => '6',
        7 => '7',
        8 => '8',
        9 => '9',
        10 => 'a',
        11 => 'b',
        12 => 'c',
        13 => 'd',
        14 => 'e',
        _ => 'f',
    }
}

/// Append the escape sequence for one character to `out`.
fn push_escaped(out: &mut Vec<char>, c: char, expand: bool)
    ensures
        final(out)@ == old(out)@ + escaped_char(c, expand),
{
    if c == '\'' {
        out.push('\\');
        out.push('\'');
    } else if c == '\\' {
        out.push('\\');
        out.push('\\');
    } else if !expand && c == '\n' {
        out.push('\\');
        out.push('n');
    } else if !expand && c == '\t' {
        out.push('\\');
        out.push('t');
    } else if !expand && c == '\r' {
        out.push('\\');
        out.push('r');
    } else if !expand && (c as u32) < 32 {
        out.push('\\');
        out.push('x');
        out.push(hex_digit_char((c as u32) / 16));
        out.push(hex_digit_char((c as u32) % 16));
    } else {
        out.push(c);
    }
    proof {
        assert(out@ =~= old(out)@ + escaped_char(c, expand));
    }
}

/// Quote and escape a string scalar for display.
pub fn escape_text(s: &str, expand: bool) -> (r: Vec<char>)
    ensures
        r@ == quoted(s@, expand),
{
    let n = s.unicode_len();
    let mut r: Vec<char> = Vec::new();
    r.push('\'');
    let mut i: usize = 0;
    while i < n
        invariant
            i <= n,
            n == s@.len(),
            r@ == seq!['\''] + escaped_seq(s@.take(i as int), expand),
        decreases n - i,
    {
        let c = s.get_char(i);
        push_escaped(&mut r, c, expand);
        proof {
            lemma_escaped_snoc(s@, i as int, expand);
        }
        i = i + 1;
    }
    r.push('\'');
    proof {
        assert(s@.take(n as int) =~= s@);
        assert(r@ =~= quoted(s@, expand));
    }
    r
}

/// Escaping one more character extends the escaped prefix.
proof fn lemma_escaped_snoc(s: Seq<char>, i: int, expand: bool)
    requires
        0 <= i < s.len(),
    ensures
        escaped_seq(s.take(i + 1), expand) == escaped_seq(s.take(i), expand) + escaped_char(
            s[i],
            expand,
        ),
    decreases i,
{
    if i == 0 {
        assert(s.take(1).drop_first() =~= Seq::<char>::empty());
        assert(s.take(1)[0] == s[0]);
        assert(escaped_seq(s.take(1), expand) == escaped_char(s[0], expand) + escaped_seq(
            Seq::<char>::empty(),
            expand,
        ));
        assert(escaped_char(s[0], expand) + escaped_seq(Seq::<char>::empty(), expand)
            =~= escaped_char(s[0], expand));
        assert(escaped_seq(s.take(0), expand) == Seq::<char>::empty());
        assert(escaped_seq(s.take(0), expand) + escaped_char(s[0], expand) =~= escaped_char(
            s[0],
            expand,
        ));
    } else {
        lemma_escaped_snoc(s.drop_first(), i - 1, expand);
        assert(s.take(i + 1).drop_first() =~= s.drop_first().take(i));
        assert(s.take(i).drop_first() =~= s.drop_first().take(i - 1));
        assert(s.drop_first()[i - 1] == s[i]);
        assert(escaped_seq(s.take(i + 1), expand) == escaped_char(s[0], expand) + escaped_seq(
            s.drop_first().take(i),
            expand,
        ));
        assert(escaped_seq(s.take(i), expand) == escaped_char(s[0], expand) + escaped_seq(
            s.drop_first().take(i - 1),
            expand,
        ));
        assert(escaped_char(s[0], expand) + (escaped_seq(s.drop_first().take(i - 1), expand)
            + escaped_char(s[i], expand)) =~= (escaped_char(s[0], expand) + escaped_seq(
            s.drop_first().take(i - 1),
            expand,
        )) + escaped_char(s[i], expand));
    }
}

/// Successful single-line emission of `text` (display width `w`) from
/// `pre`: the pending separator was honored, the cursor advanced within
/// the width, and nothing committed changed.
pub open spec fn flow_ok(pre: Printer, post: Printer, text: Seq<char>, w: nat) -> bool {
    &&& pre.column + flow_lead_width(pre.delim) + w <= pre.max_width
    &&& post.buffer@ == pre.buffer@ + flow_lead(pre.delim) + text
    &&& post.column == pre.column + flow_lead_width(pre.delim) + w
    &&& post.delim == Delim::Clear
    &&& post.flow
    &&& post.cur_indent == pre.cur_indent
    &&& post.committed == pre.committed
    &&& post.committed_column == pre.committed_column
    &&& post.committed_indent == pre.committed_indent
    &&& post.fallback == pre.fallback
}

/// Failed single-line emission of a token of display width `w`: the line
/// would have overflowed, so the printer rolled back for block replay.
pub open spec fn flow_err(pre: Printer, post: Printer, w: nat) -> bool {
    &&& pre.column + flow_lead_width(pre.delim) + w > pre.max_width
    &&& pre.rolled_back(&post)
}

/// Block-layout emission of `text` from `pre`: the pending separator
/// became a fresh indented line, and the emission committed.
pub open spec fn block_ok(pre: Printer, post: Printer, text: Seq<char>) -> bool {
    &&& post.buffer@ == pre.buffer@ + block_lead(pre.delim, pre.ind_chars()) + text
    &&& post.delim == Delim::Clear
    &&& !post.flow
    &&& post.fallback == pre.fallback
    &&& post.cur_indent == pre.cur_indent
}

/// Emission of `text` from a fresh printer (neither in flow nor fallen
/// back): no separator was pending, and the text landed verbatim.
pub open spec fn fresh_ok(pre: Printer, post: Printer, text: Seq<char>, w: nat) -> bool {
    &&& post.buffer@ == pre.buffer@ + text
    &&& post.column == sat_add(pre.column as nat, w)
    &&& post.delim == Delim::Clear
    &&& post.cur_indent == pre.cur_indent
    &&& !post.fallback
}

/// The committed prefix of the buffer survives any extension beyond it.
pub(crate) proof fn lemma_committed_prefix(a: Seq<char>, b: Seq<char>, m: int)
    requires
        0 <= m <= a.len(),
        a.len() <= b.len(),
        b.take(a.len() as int) == a,
    ensures
        b.take(m) == a.take(m),
{
    assert forall|j: int| 0 <= j < m implies b.take(m)[j] == a.take(m)[j] by {
        assert(b.take(a.len() as int)[j] == b[j]);
    }
    assert(b.take(m) =~= a.take(m));
}

/// Taking no more than the first summand of a concatenation ignores the rest.
pub(crate) proof fn lemma_take_app(a: Seq<char>, b: Seq<char>, m: int)
    requires
        0 <= m <= a.len(),
    ensures
        (a + b).take(m) == a.take(m),
{
    assert((a + b).take(m) =~= a.take(m));
}

/// The empty sequence is a right identity of concatenation.
pub(crate) proof fn lemma_add_empty(a: Seq<char>)
    ensures
        a + Seq::<char>::empty() == a,
{
    assert(a + Seq::<char>::empty() =~= a);
}

/// Pull a base sequence out of a left-associated concatenation.
pub(crate) proof fn lemma_pull3(b: Seq<char>, x1: Seq<char>, x2: Seq<char>)
    ensures
        b + x1 + x2 == b + (x1 + x2),
{
    vstd::seq_lib::lemma_concat_associative(b, x1, x2);
}

/// Pull a base sequence out of a left-associated concatenation.
pub(crate) proof fn lemma_pull4(b: Seq<char>, x1: Seq<char>, x2: Seq<char>, x3: Seq<char>)
    ensures
        b + x1 + x2 + x3 == b + (x1 + x2 + x3),
{
    lemma_pull3(b, x1, x2);
    vstd::seq_lib::lemma_concat_associative(b, x1 + x2, x3);
}

/// Pull a base sequence out of a left-associated concatenation.
pub(crate) proof fn lemma_pull5(b: Seq<char>, x1: Seq<char>, x2: Seq<char>, x3: Seq<char>, x4: Seq<char>)
    ensures
        b + x1 + x2 + x3 + x4 == b + (x1 + x2 + x3 + x4),
{
    lemma_pull4(b, x1, x2, x3);
    vstd::seq_lib::lemma_concat_associative(b, x1 + x2 + x3, x4);
}

/// Pull a base sequence out of a left-associated concatenation.
pub(crate) proof fn lemma_pull6(
    b: Seq<char>,
    x1: Seq<char>,
    x2: Seq<char>,
    x3: Seq<char>,
    x4: Seq<char>,
    x5: Seq<char>,
)
    ensures
        b + x1 + x2 + x3 + x4 + x5 == b + (x1 + x2 + x3 + x4 + x5),
{
    lemma_pull5(b, x1, x2, x3, x4);
    vstd::seq_lib::lemma_concat_associative(b, x1 + x2 + x3 + x4, x5);
}

/// Pull a base sequence out of a left-associated concatenation.
pub(crate) proof fn lemma_pull7(
    b: Seq<char>,
    x1: Seq<char>,
    x2: Seq<char>,
    x3: Seq<char>,
    x4: Seq<char>,
    x5: Seq<char>,
    x6: Seq<char>,
)
    ensures
        b + x1 + x2 + x3 + x4 + x5 + x6 == b + (x1 + x2 + x3 + x4 + x5 + x6),
{
    lemma_pull6(b, x1, x2, x3, x4, x5);
    vstd::seq_lib::lemma_concat_associative(b, x1 + x2 + x3 + x4 + x5, x6);
}

/// Render one value into the printer.
///
/// In flow the emission either fits entirely — the buffer grows by exactly
/// the value's one-line rendering — or the printer rolls back and reports
/// the fallback.  In block layout the buffer grows by the value's block
/// rendering and nothing can fail.  Either way the text depends only on
/// the value and the printer's configuration, never on prior state, so a
/// replay reproduces it exactly.
#[verifier::rlimit(100)]
#[verifier::spinoff_prover]
pub fn format_item(prn: &mut Printer, item: &Item) -> (r: Result<(), BlockFallback>)
    requires
        old(prn).wf(),
        !old(prn).flow && !old(prn).fallback ==> old(prn).delim == Delim::Clear && (
        item.is_scalar() || old(prn).column + flow_width(*item, old(prn).rcfg()) <= old(
            prn,
        ).max_width),
    ensures
        final(prn).wf(),
        old(prn).cfg_like(final(prn)),
        old(prn).flow ==> match r {
            Ok(_) => flow_ok(
                *old(prn),
                *final(prn),
                flow_text(*item, old(prn).rcfg()),
                flow_width(*item, old(prn).rcfg()),
            ),
            Err(_) => flow_err(*old(prn), *final(prn), flow_width(*item, old(prn).rcfg())),
        },
        (!old(prn).flow && old(prn).fallback) ==> r is Ok && block_ok(
            *old(prn),
            *final(prn),
            block_text(*item, old(prn).cur_indent as nat, old(prn).rcfg()),
        ),
        (!old(prn).flow && !old(prn).fallback) ==> r is Ok && fresh_ok(
            *old(prn),
            *final(prn),
            flow_text(*item, old(prn).rcfg()),
            flow_width(*item, old(prn).rcfg()),
        ),
    decreases *item, 1int,
{
    match item {
        Item::Scalar(sty, s) => {
            let text = str_chars(s.as_str());
            let piece = prn.styler.apply(*sty, text);
            proof {
                assert(piece.emitted(old(prn).colors) =~= old(prn).rcfg().styled(*sty, s@));
            }
            prn.write_styled(&piece)
        },
        Item::Text(s) => {
            let text = escape_text(s.as_str(), prn.expand_strings);
            let piece = prn.styler.apply(Style::StringLit, text);
            proof {
                assert(piece.emitted(old(prn).colors) =~= old(prn).rcfg().styled(
                    Style::StringLit,
                    quoted(s@, old(prn).rcfg().expand),
                ));
            }
            prn.write_styled(&piece)
        },
        Item::SetOf(items) => format_list(prn, items, '{', '}'),
        Item::ArrayOf(items) => format_list(prn, items, '[', ']'),
        Item::TupleOf(items) => format_list(prn, items, '(', ')'),
        Item::Object(o) => format_object(prn, o),
        Item::VectorOf(elems) => format_vector(prn, elems),
    }
}

/// Render a bracketed collection, applying the per-collection item cap.
#[verifier::rlimit(100)]
#[verifier::spinoff_prover]
fn format_list(prn: &mut Printer, items: &Vec<Item>, open_c: char, close_c: char) -> (r: Result<
    (),
    BlockFallback,
>)
    requires
        old(prn).wf(),
        !old(prn).flow && !old(prn).fallback ==> old(prn).delim == Delim::Clear && old(prn).column
            + flow_composite_width(items@, old(prn).max_items, old(prn).rcfg()) <= old(
            prn,
        ).max_width,
    ensures
        final(prn).wf(),
        old(prn).cfg_like(final(prn)),
        old(prn).flow ==> match r {
            Ok(_) => flow_ok(
                *old(prn),
                *final(prn),
                flow_composite(open_c, close_c, items@, old(prn).max_items, old(prn).rcfg()),
                flow_composite_width(items@, old(prn).max_items, old(prn).rcfg()),
            ),
            Err(_) => flow_err(
                *old(prn),
                *final(prn),
                flow_composite_width(items@, old(prn).max_items, old(prn).rcfg()),
            ),
        },
        (!old(prn).flow && old(prn).fallback) ==> r is Ok && block_ok(
            *old(prn),
            *final(prn),
            block_composite(
                open_c,
                close_c,
                items@,
                old(prn).max_items,
                old(prn).cur_indent as nat,
                old(prn).rcfg(),
            ),
        ),
        (!old(prn).flow && !old(prn).fallback) ==> r is Ok && fresh_ok(
            *old(prn),
            *final(prn),
            flow_composite(open_c, close_c, items@, old(prn).max_items, old(prn).rcfg()),
            flow_composite_width(items@, old(prn).max_items, old(prn).rcfg()),
        ),
    decreases *items, 0int,
{
    let ghost pre = *prn;
    let ghost cfg = pre.rcfg();
    let ghost comp_w = flow_composite_width(items@, pre.max_items, cfg);
    let ghost fresh = !pre.flow && !pre.fallback;
    let ghost lead0: Seq<char> = if pre.flow {
        flow_lead(pre.delim)
    } else {
        Seq::empty()
    };
    let ghost lead0w: nat = if pre.flow {
        flow_lead_width(pre.delim)
    } else {
        0
    };
    let ghost d_in: nat = (pre.cur_indent + 1) as nat;
    let ghost sopen = cfg.styled(Style::SetLiteral, seq![open_c]);
    let ghost sclose = cfg.styled(Style::SetLiteral, seq![close_c]);
    let ghost bl0 = block_lead(pre.delim, pre.ind_chars());
    let ghost bf = pre.buffer@ + lead0;
    let ghost bb = pre.buffer@ + bl0;

    let n = items.len();
    let k: usize = match prn.max_items {
        Option::Some(m) => if n <= m {
            n
        } else {
            m
        },
        Option::None => n,
    };
    let ghost ell = (k as nat) < items@.len();
    let ghost sitems = flow_items(items@, k as nat, cfg);
    let ghost sitems_w = flow_items_width(items@, k as nat, cfg);
    let ghost bitems = block_items(items@, k as nat, d_in, true, cfg);
    let ghost ftarget = bf + sopen + sitems;
    let ghost btarget = bb + sopen + bitems;
    proof {
        assert(comp_w == 1 + sitems_w + flow_tail_width(k as nat, ell, cfg) + 1);
        assert(flow_tail_width(k as nat, true, cfg) == (if k > 0 {
            5nat
        } else {
            3nat
        }));
        assert(flow_tail_width(k as nat, false, cfg) == (if cfg.trailing && k > 0 {
            1nat
        } else {
            0nat
        }));
        if pre.flow || fresh {
            assert(flow_lead(pre.delim) == lead0);
        }
    }

    let mut open_text: Vec<char> = Vec::new();
    open_text.push(open_c);
    let open_piece = prn.styler.apply(Style::SetLiteral, open_text);
    proof {
        assert(open_piece.text@ =~= seq![open_c]);
        assert(open_piece.emitted(pre.colors) =~= sopen);
    }
    match prn.open_block(&open_piece) {
        Err(e) => {
            proof {
                if fresh {
                    assert(false);
                }
            }
            return Err(e);
        },
        Ok(_) => {},
    }
    let ghost mode_flow = prn.flow;
    proof {
        assert(prn.rcfg() =~= cfg);
        if mode_flow {
            assert(prn.buffer@ == bf + sopen);
            if k == 0 {
                assert(flow_rem(items@, 0nat, 0nat, cfg) == Seq::<char>::empty());
                assert(sitems == Seq::<char>::empty());
                lemma_add_empty(bf + sopen);
            } else {
                assert(flow_rem(items@, 0nat, k as nat, cfg) == sitems);
            }
            assert(prn.buffer@ + flow_rem(items@, 0nat, k as nat, cfg) == ftarget);
            lemma_take_app(pre.buffer@, lead0, pre.buffer@.len() as int);
            lemma_take_app(bf, sopen, pre.buffer@.len() as int);
            assert(pre.buffer@.take(pre.buffer@.len() as int) =~= pre.buffer@);
            assert(prn.buffer@.take(pre.buffer@.len() as int) == pre.buffer@);
        } else {
            assert(prn.buffer@ == bb + sopen);
            assert(items@.skip(0) =~= items@);
            if k == 0 {
                assert(bitems == Seq::<char>::empty());
                assert(block_rem(items@, 0nat, k as nat, d_in, cfg) == Seq::<char>::empty());
                lemma_add_empty(bb + sopen);
            } else {
                assert(block_rem(items@, 0nat, k as nat, d_in, cfg) == bitems);
            }
            assert(prn.buffer@ + block_rem(items@, 0nat, k as nat, d_in, cfg) == btarget);
        }
    }

    let mut i: usize = 0;
    while i < k
        invariant
            prn.wf(),
            pre.cfg_like(prn),
            prn.rcfg() == cfg,
            i <= k,
            k <= n,
            n == items@.len(),
            k as nat == shown_count(items@.len(), cfg.max_items),
            prn.cur_indent == pre.cur_indent + 1,
            prn.fallback == pre.fallback,
            prn.delim == (if i == 0 {
                Delim::Open
            } else {
                Delim::Comma
            }),
            prn.flow == mode_flow,
            fresh ==> mode_flow && pre.delim == Delim::Clear && pre.column + comp_w
                <= pre.max_width,
            pre.flow ==> mode_flow && lead0 == flow_lead(pre.delim) && lead0w == flow_lead_width(
                pre.delim,
            ),
            !pre.flow ==> lead0 == Seq::<char>::empty() && lead0w == 0,
            !mode_flow ==> !pre.flow && pre.fallback,
            pre.wf(),
            pre == *old(prn),
            cfg == pre.rcfg(),
            fresh == (!pre.flow && !pre.fallback),
            d_in == pre.cur_indent + 1,
            lead0 == (if pre.flow {
                flow_lead(pre.delim)
            } else {
                Seq::<char>::empty()
            }),
            lead0w == (if pre.flow {
                flow_lead_width(pre.delim)
            } else {
                0nat
            }),
            comp_w == flow_composite_width(items@, cfg.max_items, cfg),
            comp_w == 1 + sitems_w + flow_tail_width(k as nat, ell, cfg) + 1,
            ell == ((k as nat) < items@.len()),
            sitems == flow_items(items@, k as nat, cfg),
            sitems_w == flow_items_width(items@, k as nat, cfg),
            bitems == block_items(items@, k as nat, d_in, true, cfg),
            sopen == cfg.styled(Style::SetLiteral, seq![open_c]),
            sclose == cfg.styled(Style::SetLiteral, seq![close_c]),
            bl0 == block_lead(pre.delim, pre.ind_chars()),
            ftarget == bf + sopen + sitems,
            btarget == bb + sopen + bitems,
            bf == pre.buffer@ + lead0,
            bb == pre.buffer@ + bl0,
            mode_flow ==> {
                &&& prn.committed == pre.committed
                &&& prn.committed_column == pre.committed_column
                &&& prn.committed_indent == pre.committed_indent
                &&& prn.buffer@.len() >= pre.buffer@.len()
                &&& prn.buffer@.take(pre.buffer@.len() as int) == pre.buffer@
                &&& prn.buffer@ + flow_rem(items@, i as nat, k as nat, cfg) == ftarget
                &&& prn.column + flow_rem_width(items@, i as nat, k as nat, cfg) == pre.column
                    + lead0w + 1 + sitems_w
            },
            !mode_flow ==> prn.buffer@ + block_rem(items@, i as nat, k as nat, d_in, cfg)
                == btarget,
        decreases k - i,
    {
        let ghost at = *prn;
        proof {
            lemma_flow_rem_step(items@, i as nat, k as nat, cfg);
            lemma_block_rem_step(items@, i as nat, k as nat, d_in, cfg);
        }
        match format_item(prn, &items[i]) {
            Err(e) => {
                proof {
                    assert(pre.column + lead0w + comp_w > pre.max_width);
                    lemma_committed_prefix(pre.buffer@, at.buffer@, pre.committed as int);
                    assert(pre.rolled_back(prn));
                    if fresh {
                        assert(false);
                    }
                }
                return Err(e);
            },
            Ok(_) => {},
        }
        match prn.comma() {
            Err(e) => {
                proof {
                    assert(false);
                }
                return Err(e);
            },
            Ok(_) => {},
        }
        proof {
            assert(prn.rcfg() =~= cfg);
            let ghost fx = flow_text(items@[i as int], cfg);
            let ghost bx = block_text(items@[i as int], d_in, cfg);
            let ghost remn = flow_rem(items@, i as nat + 1, k as nat, cfg);
            let ghost bremn = block_rem(items@, i as nat + 1, k as nat, d_in, cfg);
            if mode_flow {
                assert(prn.buffer@ == at.buffer@ + flow_lead(at.delim) + fx);
                lemma_pull4(at.buffer@, flow_lead(at.delim), fx, remn);
                assert(prn.buffer@ + remn == at.buffer@ + (flow_lead(at.delim) + fx + remn));
                assert(flow_lead(at.delim) + fx + remn == flow_rem(items@, i as nat, k as nat,
                cfg));
                assert(prn.buffer@ + remn == ftarget);
                lemma_take_app(at.buffer@, flow_lead(at.delim), pre.buffer@.len() as int);
                lemma_take_app(
                    at.buffer@ + flow_lead(at.delim),
                    fx,
                    pre.buffer@.len() as int,
                );
                assert(prn.buffer@.take(pre.buffer@.len() as int) == pre.buffer@);
            } else {
                assert(prn.buffer@ == at.buffer@ + block_lead(at.delim, at.ind_chars()) + bx);
                assert(at.ind_chars() == sat_mul(d_in, cfg.indent));
                assert(block_lead(at.delim, at.ind_chars()) == (if i == 0 {
                    seq!['\n']
                } else {
                    seq![',', '\n']
                }) + spaces(sat_mul(d_in, cfg.indent)));
                lemma_pull4(at.buffer@, block_lead(at.delim, at.ind_chars()), bx, bremn);
                assert(block_lead(at.delim, at.ind_chars()) + bx + bremn == block_rem(
                    items@,
                    i as nat,
                    k as nat,
                    d_in,
                    cfg,
                ));
                assert(prn.buffer@ + bremn == btarget);
            }
        }
        i = i + 1;
    }

    let ghost at_tail = *prn;
    proof {
        if mode_flow {
            lemma_add_empty(at_tail.buffer@);
            assert(at_tail.buffer@ == ftarget);
            assert(at_tail.column == pre.column + lead0w + 1 + sitems_w);
        } else {
            lemma_add_empty(at_tail.buffer@);
            assert(at_tail.buffer@ == btarget);
        }
    }
    if k < n {
        match prn.ellipsis() {
            Err(e) => {
                proof {
                    assert(pre.column + lead0w + comp_w > pre.max_width);
                    lemma_committed_prefix(pre.buffer@, at_tail.buffer@, pre.committed as int);
                    assert(pre.rolled_back(prn));
                    if fresh {
                        assert(false);
                    }
                }
                return Err(e);
            },
            Ok(_) => {},
        }
        proof {
            let ghost dots = seq!['.', '.', '.'];
            if mode_flow {
                assert(prn.buffer@ == at_tail.buffer@ + flow_lead(at_tail.delim) + dots);
                lemma_pull3(at_tail.buffer@, flow_lead(at_tail.delim), dots);
                assert(flow_lead(at_tail.delim) + dots == flow_tail(k as nat, true, cfg));
                assert(prn.buffer@ == ftarget + flow_tail(k as nat, true, cfg));
                lemma_take_app(at_tail.buffer@, flow_lead(at_tail.delim), pre.buffer@.len() as int);
                lemma_take_app(
                    at_tail.buffer@ + flow_lead(at_tail.delim),
                    dots,
                    pre.buffer@.len() as int,
                );
                assert(prn.buffer@.take(pre.buffer@.len() as int) == pre.buffer@);
                assert(prn.column == pre.column + lead0w + 1 + sitems_w + flow_tail_width(
                    k as nat,
                    true,
                    cfg,
                ));
            } else {
                assert(prn.buffer@ == at_tail.buffer@ + block_lead(
                    at_tail.delim,
                    at_tail.ind_chars(),
                ) + dots);
                lemma_pull3(at_tail.buffer@, block_lead(at_tail.delim, at_tail.ind_chars()), dots);
                assert(at_tail.ind_chars() == sat_mul(d_in, cfg.indent));
                assert(block_lead(at_tail.delim, at_tail.ind_chars()) + dots == block_tail(
                    k as nat,
                    true,
                    sat_mul(d_in, cfg.indent),
                    cfg,
                ));
                assert(prn.buffer@ == btarget + block_tail(
                    k as nat,
                    true,
                    sat_mul(d_in, cfg.indent),
                    cfg,
                ));
            }
        }
    }

    let ghost at_close = *prn;
    let mut close_text: Vec<char> = Vec::new();
    close_text.push(close_c);
    let close_piece = prn.styler.apply(Style::SetLiteral, close_text);
    proof {
        assert(close_piece.text@ =~= seq![close_c]);
        assert(close_piece.emitted(pre.colors) =~= sclose);
    }
    match prn.close_block(&close_piece, true) {
        Err(e) => {
            proof {
                assert(pre.column + lead0w + comp_w > pre.max_width);
                lemma_committed_prefix(pre.buffer@, at_close.buffer@, pre.committed as int);
                assert(pre.rolled_back(prn));
                if fresh {
                    assert(false);
                }
            }
            return Err(e);
        },
        Ok(_) => {},
    }
    proof {
        let ghost sep: Seq<char> = if at_close.close_sep(true) {
            seq![',']
        } else {
            Seq::empty()
        };
        if mode_flow {
            assert(prn.buffer@ == at_close.buffer@ + sep + sclose);
            if ell {
                let ghost ft = flow_tail(k as nat, true, cfg);
                assert(sep == Seq::<char>::empty());
                lemma_add_empty(at_close.buffer@);
                assert(prn.buffer@ == bf + sopen + sitems + ft + sclose);
                lemma_pull5(bf, sopen, sitems, ft, sclose);
                assert(prn.buffer@ == bf + flow_composite(
                    open_c,
                    close_c,
                    items@,
                    cfg.max_items,
                    cfg,
                ));
            } else {
                assert(sep == flow_tail(k as nat, false, cfg));
                assert(prn.buffer@ == bf + sopen + sitems + sep + sclose);
                lemma_pull5(bf, sopen, sitems, sep, sclose);
                assert(prn.buffer@ == bf + flow_composite(
                    open_c,
                    close_c,
                    items@,
                    cfg.max_items,
                    cfg,
                ));
            }
            assert(prn.column == pre.column + lead0w + comp_w);
            if fresh {
                lemma_add_empty(pre.buffer@);
                assert(bf == pre.buffer@);
            }
        } else {
            let ghost iw_in = sat_mul(d_in, cfg.indent);
            let ghost iw_out = sat_mul(pre.cur_indent as nat, cfg.indent);
            let ghost nl = seq!['\n'];
            assert(sat_mul((at_close.cur_indent - 1) as nat, cfg.indent) == iw_out);
            if k == 0 && !ell {
                assert(at_close.delim == Delim::Open);
                assert(prn.buffer@ == at_close.buffer@ + sclose);
                assert(at_close.buffer@ == bb + sopen);
                lemma_pull3(bb, sopen, sclose);
                assert(prn.buffer@ == bb + block_composite(
                    open_c,
                    close_c,
                    items@,
                    cfg.max_items,
                    pre.cur_indent as nat,
                    cfg,
                ));
            } else if ell {
                let ghost bt = block_tail(k as nat, true, iw_in, cfg);
                assert(at_close.delim == Delim::Clear);
                assert(sep == Seq::<char>::empty());
                assert(prn.buffer@ == at_close.buffer@ + sep + nl + spaces(iw_out)
                    + sclose);
                lemma_add_empty(at_close.buffer@);
                assert(prn.buffer@ == bb + sopen + bitems + bt + nl + spaces(iw_out)
                    + sclose);
                lemma_pull7(bb, sopen, bitems, bt, nl, spaces(iw_out), sclose);
                assert(prn.buffer@ == bb + block_composite(
                    open_c,
                    close_c,
                    items@,
                    cfg.max_items,
                    pre.cur_indent as nat,
                    cfg,
                ));
            } else {
                assert(at_close.delim == Delim::Comma);
                assert(sep == block_tail(k as nat, false, iw_in, cfg));
                assert(prn.buffer@ == bb + sopen + bitems + sep + nl + spaces(iw_out)
                    + sclose);
                lemma_pull7(bb, sopen, bitems, sep, nl, spaces(iw_out), sclose);
                assert(prn.buffer@ == bb + block_composite(
                    open_c,
                    close_c,
                    items@,
                    cfg.max_items,
                    pre.cur_indent as nat,
                    cfg,
                ));
            }
        }
    }
    Ok(())
}

/// Render a numeric vector, applying the vector display cap.
#[verifier::rlimit(100)]
#[verifier::spinoff_prover]
fn format_vector(prn: &mut Printer, elems: &Vec<String>) -> (r: Result<(), BlockFallback>)
    requires
        old(prn).wf(),
        !old(prn).flow && !old(prn).fallback ==> old(prn).delim == Delim::Clear && old(prn).column
            + flow_vector_width(elems@, old(prn).rcfg()) <= old(prn).max_width,
    ensures
        final(prn).wf(),
        old(prn).cfg_like(final(prn)),
        old(prn).flow ==> match r {
            Ok(_) => flow_ok(
                *old(prn),
                *final(prn),
                flow_vector(elems@, old(prn).rcfg()),
                flow_vector_width(elems@, old(prn).rcfg()),
            ),
            Err(_) => flow_err(*old(prn), *final(prn), flow_vector_width(elems@, old(prn).rcfg())),
        },
        (!old(prn).flow && old(prn).fallback) ==> r is Ok && block_ok(
            *old(prn),
            *final(prn),
            block_vector(elems@, old(prn).cur_indent as nat, old(prn).rcfg()),
        ),
        (!old(prn).flow && !old(prn).fallback) ==> r is Ok && fresh_ok(
            *old(prn),
            *final(prn),
            flow_vector(elems@, old(prn).rcfg()),
            flow_vector_width(elems@, old(prn).rcfg()),
        ),
{
    let ghost pre = *prn;
    let ghost cfg = pre.rcfg();
    let ghost comp_w = flow_vector_width(elems@, cfg);
    let ghost fresh = !pre.flow && !pre.fallback;
    let ghost lead0: Seq<char> = if pre.flow {
        flow_lead(pre.delim)
    } else {
        Seq::empty()
    };
    let ghost lead0w: nat = if pre.flow {
        flow_lead_width(pre.delim)
    } else {
        0
    };
    let ghost d_in: nat = (pre.cur_indent + 1) as nat;
    let ghost sopen = cfg.styled(Style::SetLiteral, seq!['[']);
    let ghost sclose = cfg.styled(Style::SetLiteral, seq![']']);
    let ghost bl0 = block_lead(pre.delim, pre.ind_chars());
    let ghost bf = pre.buffer@ + lead0;
    let ghost bb = pre.buffer@ + bl0;

    let n = elems.len();
    let k: usize = prn.max_vector_length.shown(n);
    let ghost ell = (k as nat) < elems@.len();
    let ghost sitems = flow_vector_elems(elems@, k as nat, cfg);
    let ghost sitems_w = flow_vector_elems_width(elems@, k as nat);
    let ghost bitems = block_vector_elems(elems@, k as nat, d_in, true, cfg);
    let ghost ftarget = bf + sopen + sitems;
    let ghost btarget = bb + sopen + bitems;
    proof {
        assert(comp_w == 1 + sitems_w + flow_tail_width(k as nat, ell, cfg) + 1);
        assert(flow_tail_width(k as nat, true, cfg) == (if k > 0 {
            5nat
        } else {
            3nat
        }));
        assert(flow_tail_width(k as nat, false, cfg) == (if cfg.trailing && k > 0 {
            1nat
        } else {
            0nat
        }));
        if pre.flow || fresh {
            assert(flow_lead(pre.delim) == lead0);
        }
    }

    let mut open_text: Vec<char> = Vec::new();
    open_text.push('[');
    let open_piece = prn.styler.apply(Style::SetLiteral, open_text);
    proof {
        assert(open_piece.text@ =~= seq!['[']);
        assert(open_piece.emitted(pre.colors) =~= sopen);
    }
    match prn.open_block(&open_piece) {
        Err(e) => {
            proof {
                if fresh {
                    assert(false);
                }
            }
            return Err(e);
        },
        Ok(_) => {},
    }
    let ghost mode_flow = prn.flow;
    proof {
        assert(prn.rcfg() =~= cfg);
        if mode_flow {
            assert(prn.buffer@ == bf + sopen);
            if k == 0 {
                assert(sitems == Seq::<char>::empty());
                lemma_add_empty(bf + sopen);
            } else {
                assert(flow_vec_rem(elems@, 0nat, k as nat, cfg) == sitems);
            }
            assert(prn.buffer@ + flow_vec_rem(elems@, 0nat, k as nat, cfg) == ftarget);
            lemma_take_app(pre.buffer@, lead0, pre.buffer@.len() as int);
            lemma_take_app(bf, sopen, pre.buffer@.len() as int);
            assert(pre.buffer@.take(pre.buffer@.len() as int) =~= pre.buffer@);
            assert(prn.buffer@.take(pre.buffer@.len() as int) == pre.buffer@);
        } else {
            assert(prn.buffer@ == bb + sopen);
            assert(elems@.skip(0) =~= elems@);
            if k == 0 {
                assert(bitems == Seq::<char>::empty());
                assert(block_vec_rem(elems@, 0nat, k as nat, d_in, cfg) == Seq::<char>::empty());
                lemma_add_empty(bb + sopen);
            } else {
                assert(block_vec_rem(elems@, 0nat, k as nat, d_in, cfg) == bitems);
            }
            assert(prn.buffer@ + block_vec_rem(elems@, 0nat, k as nat, d_in, cfg) == btarget);
        }
    }

    let mut i: usize = 0;
    while i < k
        invariant
            prn.wf(),
            pre.cfg_like(prn),
            prn.rcfg() == cfg,
            i <= k,
            k <= n,
            n == elems@.len(),
            k as nat == cfg.vec_limit.spec_shown(elems@.len()),
            prn.cur_indent == pre.cur_indent + 1,
            prn.fallback == pre.fallback,
            prn.delim == (if i == 0 {
                Delim::Open
            } else {
                Delim::Comma
            }),
            prn.flow == mode_flow,
            fresh ==> mode_flow && pre.delim == Delim::Clear && pre.column + comp_w
                <= pre.max_width,
            pre.flow ==> mode_flow && lead0 == flow_lead(pre.delim) && lead0w == flow_lead_width(
                pre.delim,
            ),
            !pre.flow ==> lead0 == Seq::<char>::empty() && lead0w == 0,
            !mode_flow ==> !pre.flow && pre.fallback,
            pre.wf(),
            pre == *old(prn),
            cfg == pre.rcfg(),
            fresh == (!pre.flow && !pre.fallback),
            d_in == pre.cur_indent + 1,
            lead0 == (if pre.flow {
                flow_lead(pre.delim)
            } else {
                Seq::<char>::empty()
            }),
            lead0w == (if pre.flow {
                flow_lead_width(pre.delim)
            } else {
                0nat
            }),
            comp_w == flow_vector_width(elems@, cfg),
            comp_w == 1 + sitems_w + flow_tail_width(k as nat, ell, cfg) + 1,
            ell == ((k as nat) < elems@.len()),
            sitems == flow_vector_elems(elems@, k as nat, cfg),
            sitems_w == flow_vector_elems_width(elems@, k as nat),
            bitems == block_vector_elems(elems@, k as nat, d_in, true, cfg),
            sopen == cfg.styled(Style::SetLiteral, seq!['[']),
            sclose == cfg.styled(Style::SetLiteral, seq![']']),
            bl0 == block_lead(pre.delim, pre.ind_chars()),
            ftarget == bf + sopen + sitems,
            btarget == bb + sopen + bitems,
            bf == pre.buffer@ + lead0,
            bb == pre.buffer@ + bl0,
            mode_flow ==> {
                &&& prn.committed == pre.committed
                &&& prn.committed_column == pre.committed_column
                &&& prn.committed_indent == pre.committed_indent
                &&& prn.buffer@.len() >= pre.buffer@.len()
                &&& prn.buffer@.take(pre.buffer@.len() as int) == pre.buffer@
                &&& prn.buffer@ + flow_vec_rem(elems@, i as nat, k as nat, cfg) == ftarget
                &&& prn.column + flow_vec_rem_width(elems@, i as nat, k as nat) == pre.column
                    + lead0w + 1 + sitems_w
            },
            !mode_flow ==> prn.buffer@ + block_vec_rem(elems@, i as nat, k as nat, d_in, cfg)
                == btarget,
        decreases k - i,
    {
        let ghost at = *prn;
        proof {
            lemma_flow_vec_rem_step(elems@, i as nat, k as nat, cfg);
            lemma_block_vec_rem_step(elems@, i as nat, k as nat, d_in, cfg);
        }
        let text = str_chars(elems[i].as_str());
        let piece = prn.styler.apply(Style::NumberLit, text);
        proof {
            assert(piece.emitted(at.colors) =~= cfg.styled(Style::NumberLit, elems@[i as int]@));
        }
        match prn.write_styled(&piece) {
            Err(e) => {
                proof {
                    assert(pre.column + lead0w + comp_w > pre.max_width);
                    lemma_committed_prefix(pre.buffer@, at.buffer@, pre.committed as int);
                    assert(pre.rolled_back(prn));
                    if fresh {
                        assert(false);
                    }
                }
                return Err(e);
            },
            Ok(_) => {},
        }
        match prn.comma() {
            Err(e) => {
                proof {
                    assert(false);
                }
                return Err(e);
            },
            Ok(_) => {},
        }
        proof {
            assert(prn.rcfg() =~= cfg);
            let ghost fx = cfg.styled(Style::NumberLit, elems@[i as int]@);
            let ghost remn = flow_vec_rem(elems@, i as nat + 1, k as nat, cfg);
            let ghost bremn = block_vec_rem(elems@, i as nat + 1, k as nat, d_in, cfg);
            if mode_flow {
                assert(prn.buffer@ == at.buffer@ + flow_lead(at.delim) + fx);
                lemma_pull4(at.buffer@, flow_lead(at.delim), fx, remn);
                assert(flow_lead(at.delim) + fx + remn == flow_vec_rem(
                    elems@,
                    i as nat,
                    k as nat,
                    cfg,
                ));
                assert(prn.buffer@ + remn == ftarget);
                lemma_take_app(at.buffer@, flow_lead(at.delim), pre.buffer@.len() as int);
                lemma_take_app(at.buffer@ + flow_lead(at.delim), fx, pre.buffer@.len() as int);
                assert(prn.buffer@.take(pre.buffer@.len() as int) == pre.buffer@);
            } else {
                assert(prn.buffer@ == at.buffer@ + block_lead(at.delim, at.ind_chars()) + fx);
                assert(at.ind_chars() == sat_mul(d_in, cfg.indent));
                assert(block_lead(at.delim, at.ind_chars()) == (if i == 0 {
                    seq!['\n']
                } else {
                    seq![',', '\n']
                }) + spaces(sat_mul(d_in, cfg.indent)));
                lemma_pull4(at.buffer@, block_lead(at.delim, at.ind_chars()), fx, bremn);
                assert(block_lead(at.delim, at.ind_chars()) + fx + bremn == block_vec_rem(
                    elems@,
                    i as nat,
                    k as nat,
                    d_in,
                    cfg,
                ));
                assert(prn.buffer@ + bremn == btarget);
            }
        }
        i = i + 1;
    }

    let ghost at_tail = *prn;
    proof {
        if mode_flow {
            lemma_add_empty(at_tail.buffer@);
            assert(at_tail.buffer@ == ftarget);
            assert(at_tail.column == pre.column + lead0w + 1 + sitems_w);
        } else {
            lemma_add_empty(at_tail.buffer@);
            assert(at_tail.buffer@ == btarget);
        }
    }
    if k < n {
        match prn.ellipsis() {
            Err(e) => {
                proof {
                    assert(pre.column + lead0w + comp_w > pre.max_width);
                    lemma_committed_prefix(pre.buffer@, at_tail.buffer@, pre.committed as int);
                    assert(pre.rolled_back(prn));
                    if fresh {
                        assert(false);
                    }
                }
                return Err(e);
            },
            Ok(_) => {},
        }
        proof {
            let ghost dots = seq!['.', '.', '.'];
            if mode_flow {
                assert(prn.buffer@ == at_tail.buffer@ + flow_lead(at_tail.delim) + dots);
                lemma_pull3(at_tail.buffer@, flow_lead(at_tail.delim), dots);
                assert(flow_lead(at_tail.delim) + dots == flow_tail(k as nat, true, cfg));
                assert(prn.buffer@ == ftarget + flow_tail(k as nat, true, cfg));
                lemma_take_app(at_tail.buffer@, flow_lead(at_tail.delim), pre.buffer@.len() as int);
                lemma_take_app(
                    at_tail.buffer@ + flow_lead(at_tail.delim),
                    dots,
                    pre.buffer@.len() as int,
                );
                assert(prn.buffer@.take(pre.buffer@.len() as int) == pre.buffer@);
                assert(prn.column == pre.column + lead0w + 1 + sitems_w + flow_tail_width(
                    k as nat,
                    true,
                    cfg,
                ));
            } else {
                assert(prn.buffer@ == at_tail.buffer@ + block_lead(
                    at_tail.delim,
                    at_tail.ind_chars(),
                ) + dots);
                lemma_pull3(at_tail.buffer@, block_lead(at_tail.delim, at_tail.ind_chars()), dots);
                assert(at_tail.ind_chars() == sat_mul(d_in, cfg.indent));
                assert(block_lead(at_tail.delim, at_tail.ind_chars()) + dots == block_tail(
                    k as nat,
                    true,
                    sat_mul(d_in, cfg.indent),
                    cfg,
                ));
                assert(prn.buffer@ == btarget + block_tail(
                    k as nat,
                    true,
                    sat_mul(d_in, cfg.indent),
                    cfg,
                ));
            }
        }
    }

    let ghost at_close = *prn;
    let mut close_text: Vec<char> = Vec::new();
    close_text.push(']');
    let close_piece = prn.styler.apply(Style::SetLiteral, close_text);
    proof {
        assert(close_piece.text@ =~= seq![']']);
        assert(close_piece.emitted(pre.colors) =~= sclose);
    }
    match prn.close_block(&close_piece, true) {
        Err(e) => {
            proof {
                assert(pre.column + lead0w + comp_w > pre.max_width);
                lemma_committed_prefix(pre.buffer@, at_close.buffer@, pre.committed as int);
                assert(pre.rolled_back(prn));
                if fresh {
                    assert(false);
                }
            }
            return Err(e);
        },
        Ok(_) => {},
    }
    proof {
        let ghost sep: Seq<char> = if at_close.close_sep(true) {
            seq![',']
        } else {
            Seq::empty()
        };
        if mode_flow {
            assert(prn.buffer@ == at_close.buffer@ + sep + sclose);
            if ell {
                let ghost ft = flow_tail(k as nat, true, cfg);
                assert(sep == Seq::<char>::empty());
                lemma_add_empty(at_close.buffer@);
                assert(prn.buffer@ == bf + sopen + sitems + ft + sclose);
                lemma_pull5(bf, sopen, sitems, ft, sclose);
                assert(prn.buffer@ == bf + flow_vector(elems@, cfg));
            } else {
                assert(sep == flow_tail(k as nat, false, cfg));
                assert(prn.buffer@ == bf + sopen + sitems + sep + sclose);
                lemma_pull5(bf, sopen, sitems, sep, sclose);
                assert(prn.buffer@ == bf + flow_vector(elems@, cfg));
            }
            assert(prn.column == pre.column + lead0w + comp_w);
            if fresh {
                lemma_add_empty(pre.buffer@);
                assert(bf == pre.buffer@);
            }
        } else {
            let ghost iw_in = sat_mul(d_in, cfg.indent);
            let ghost iw_out = sat_mul(pre.cur_indent as nat, cfg.indent);
            let ghost nl = seq!['\n'];
            assert(sat_mul((at_close.cur_indent - 1) as nat, cfg.indent) == iw_out);
            if k == 0 && !ell {
                assert(at_close.delim == Delim::Open);
                assert(prn.buffer@ == at_close.buffer@ + sclose);
                assert(at_close.buffer@ == bb + sopen);
                lemma_pull3(bb, sopen, sclose);
                assert(prn.buffer@ == bb + block_vector(elems@, pre.cur_indent as nat,
                cfg));
            } else if ell {
                let ghost bt = block_tail(k as nat, true, iw_in, cfg);
                assert(at_close.delim == Delim::Clear);
                assert(sep == Seq::<char>::empty());
                assert(prn.buffer@ == at_close.buffer@ + sep + nl + spaces(iw_out)
                    + sclose);
                lemma_add_empty(at_close.buffer@);
                assert(prn.buffer@ == bb + sopen + bitems + bt + nl + spaces(iw_out)
                    + sclose);
                lemma_pull7(bb, sopen, bitems, bt, nl, spaces(iw_out), sclose);
                assert(prn.buffer@ == bb + block_vector(elems@, pre.cur_indent as nat,
                cfg));
            } else {
                assert(at_close.delim == Delim::Comma);
                assert(sep == block_tail(k as nat, false, iw_in, cfg));
                assert(prn.buffer@ == bb + sopen + bitems + sep + nl + spaces(iw_out)
                    + sclose);
                lemma_pull7(bb, sopen, bitems, sep, nl, spaces(iw_out), sclose);
                assert(prn.buffer@ == bb + block_vector(elems@, pre.cur_indent as nat,
                cfg));
            }
        }
    }
    Ok(())
}

/// A sequence of fields none of which renders contributes no block lines.
proof fn lemma_block_fields_invisible(fs: Seq<Field>, d: nat, first: bool, cfg: RenderCfg)
    requires
        !any_visible(fs, cfg),
    ensures
        block_fields(fs, d, first, cfg) == Seq::<char>::empty(),
    decreases fs.len(),
{
    if fs.len() == 0 {
    } else {
        assert(!field_visible(fs[0], cfg));
        assert forall|j: int| 0 <= j < fs.drop_first().len() implies !field_visible(
            fs.drop_first()[j],
            cfg,
        ) by {
            assert(fs.drop_first()[j] == fs[j + 1]);
        }
        lemma_block_fields_invisible(fs.drop_first(), d, first, cfg);
    }
}

/// Render an object: its label, then its visible fields.
#[verifier::rlimit(100)]
#[verifier::spinoff_prover]
fn format_object(prn: &mut Printer, o: &ObjectItem) -> (r: Result<(), BlockFallback>)
    requires
        old(prn).wf(),
        !old(prn).flow && !old(prn).fallback ==> old(prn).delim == Delim::Clear && old(prn).column
            + flow_object_label_width(o.name@) + flow_object_body_width(o.fields@, old(prn).rcfg())
            <= old(prn).max_width,
    ensures
        final(prn).wf(),
        old(prn).cfg_like(final(prn)),
        old(prn).flow ==> match r {
            Ok(_) => flow_ok(
                *old(prn),
                *final(prn),
                flow_object_label(o.name@, old(prn).rcfg()) + flow_object_body(
                    o.fields@,
                    old(prn).rcfg(),
                ),
                flow_object_label_width(o.name@) + flow_object_body_width(
                    o.fields@,
                    old(prn).rcfg(),
                ),
            ),
            Err(_) => flow_err(
                *old(prn),
                *final(prn),
                flow_object_label_width(o.name@) + flow_object_body_width(
                    o.fields@,
                    old(prn).rcfg(),
                ),
            ),
        },
        (!old(prn).flow && old(prn).fallback) ==> r is Ok && block_ok(
            *old(prn),
            *final(prn),
            flow_object_label(o.name@, old(prn).rcfg()) + block_object_body(
                o.fields@,
                old(prn).cur_indent as nat,
                old(prn).rcfg(),
            ),
        ),
        (!old(prn).flow && !old(prn).fallback) ==> r is Ok && fresh_ok(
            *old(prn),
            *final(prn),
            flow_object_label(o.name@, old(prn).rcfg()) + flow_object_body(
                o.fields@,
                old(prn).rcfg(),
            ),
            flow_object_label_width(o.name@) + flow_object_body_width(o.fields@, old(prn).rcfg()),
        ),
    decreases *o, 0int,
{
    let ghost pre = *prn;
    let ghost cfg = pre.rcfg();
    let ghost fs = o.fields@;
    let ghost label_w = flow_object_label_width(o.name@);
    let ghost body_w = flow_object_body_width(fs, cfg);
    let ghost wff = flow_fields_width(fs, false, cfg);
    let ghost fresh = !pre.flow && !pre.fallback;
    let ghost lead0: Seq<char> = if pre.flow {
        flow_lead(pre.delim)
    } else {
        Seq::empty()
    };
    let ghost lead0w: nat = if pre.flow {
        flow_lead_width(pre.delim)
    } else {
        0
    };
    let ghost d: nat = pre.cur_indent as nat;
    let ghost d_in: nat = d + 1;
    let ghost slabel = flow_object_label(o.name@, cfg);
    let ghost sopen = cfg.styled(Style::SetLiteral, seq!['{']);
    let ghost sclose = cfg.styled(Style::SetLiteral, seq!['}']);
    let ghost bl0 = block_lead(pre.delim, pre.ind_chars());
    let ghost bfo = pre.buffer@ + lead0 + slabel;
    let ghost bbo = pre.buffer@ + bl0 + slabel;
    let ghost wft = flow_fields(fs, false, cfg);
    let ghost bft = block_fields(fs, d_in, true, cfg);
    let ghost ftarget = bfo + sopen + wft;
    let ghost btarget = bbo + sopen + bft;
    let ghost anyv = any_visible(fs, cfg);
    let ghost trailw: nat = if cfg.trailing && anyv {
        1nat
    } else {
        0nat
    };
    proof {
        assert(body_w == 1 + wff + trailw + 1);
        if pre.flow || fresh {
            assert(flow_lead(pre.delim) == lead0);
        }
    }

    // The label, when the object has a type name.
    let name_len = o.name.as_str().unicode_len();
    if name_len > 0 {
        let mut label_text = str_chars(o.name.as_str());
        label_text.push(' ');
        let label_piece = prn.styler.apply(Style::Label, label_text);
        proof {
            assert(label_piece.text@ =~= o.name@ + seq![' ']);
            assert(label_piece.emitted(pre.colors) =~= slabel);
            assert(label_piece.width() == label_w);
        }
        match prn.write_styled(&label_piece) {
            Err(e) => {
                proof {
                    assert(pre.column + lead0w + (label_w + body_w) > pre.max_width);
                    if fresh {
                        assert(false);
                    }
                }
                return Err(e);
            },
            Ok(_) => {},
        }
    }
    let ghost base = *prn;
    proof {
        assert(base.rcfg() =~= cfg);
        if name_len == 0 {
            assert(slabel == Seq::<char>::empty());
            lemma_add_empty(pre.buffer@ + lead0);
            lemma_add_empty(pre.buffer@ + bl0);
            assert(base.buffer@ == pre.buffer@);
        } else {
            if pre.flow {
                assert(base.buffer@ == bfo);
                assert(base.column == pre.column + lead0w + label_w);
            } else {
                assert(base.buffer@ == pre.buffer@ + bl0 + slabel);
            }
        }
        if fresh && name_len > 0 {
            assert(base.column == sat_add(pre.column as nat, label_w));
            assert(pre.column + label_w + 2 <= pre.max_width);
            assert(base.column == pre.column + label_w);
        }
    }

    let mut open_text: Vec<char> = Vec::new();
    open_text.push('{');
    let open_piece = prn.styler.apply(Style::SetLiteral, open_text);
    proof {
        assert(open_piece.text@ =~= seq!['{']);
        assert(open_piece.emitted(pre.colors) =~= sopen);
    }
    match prn.open_block(&open_piece) {
        Err(e) => {
            proof {
                assert(pre.column + lead0w + (label_w + body_w) > pre.max_width);
                if name_len > 0 && pre.flow {
                    lemma_take_app(pre.buffer@, lead0, pre.committed as int);
                    lemma_take_app(pre.buffer@ + lead0, slabel, pre.committed as int);
                }
                assert(pre.rolled_back(prn));
                if fresh {
                    assert(false);
                }
            }
            return Err(e);
        },
        Ok(_) => {},
    }
    let ghost mode_flow = prn.flow;
    proof {
        assert(prn.rcfg() =~= cfg);
        if mode_flow {
            assert(prn.buffer@ == bfo + sopen);
            assert(prn.column == pre.column + lead0w + label_w + 1);
            lemma_take_app(pre.buffer@, lead0, pre.buffer@.len() as int);
            lemma_take_app(pre.buffer@ + lead0, slabel, pre.buffer@.len() as int);
            lemma_take_app(bfo, sopen, pre.buffer@.len() as int);
            assert(pre.buffer@.take(pre.buffer@.len() as int) =~= pre.buffer@);
            assert(prn.buffer@.take(pre.buffer@.len() as int) == pre.buffer@);
            assert(fs.skip(0) =~= fs);
        } else {
            assert(prn.buffer@ == bbo + sopen);
            assert(fs.skip(0) =~= fs);
        }
        assert(fs.take(0int) =~= Seq::<Field>::empty());
        assert(!any_visible(fs.take(0int), cfg));
    }

    let n = o.fields.len();
    let mut before: bool = false;
    let mut i: usize = 0;
    while i < n
        invariant
            prn.wf(),
            pre.cfg_like(prn),
            prn.rcfg() == cfg,
            i <= n,
            n == fs.len(),
            fs == o.fields@,
            prn.cur_indent == pre.cur_indent + 1,
            prn.fallback == pre.fallback,
            before == any_visible(fs.take(i as int), cfg),
            prn.delim == (if before {
                Delim::Comma
            } else {
                Delim::Open
            }),
            prn.flow == mode_flow,
            fresh ==> mode_flow && pre.delim == Delim::Clear && pre.column + label_w + body_w
                <= pre.max_width,
            pre.flow ==> mode_flow && lead0 == flow_lead(pre.delim) && lead0w == flow_lead_width(
                pre.delim,
            ),
            !pre.flow ==> lead0 == Seq::<char>::empty() && lead0w == 0,
            !mode_flow ==> !pre.flow && pre.fallback,
            pre.wf(),
            pre == *old(prn),
            cfg == pre.rcfg(),
            fresh == (!pre.flow && !pre.fallback),
            lead0 == (if pre.flow {
                flow_lead(pre.delim)
            } else {
                Seq::<char>::empty()
            }),
            lead0w == (if pre.flow {
                flow_lead_width(pre.delim)
            } else {
                0nat
            }),
            sopen == cfg.styled(Style::SetLiteral, seq!['{']),
            sclose == cfg.styled(Style::SetLiteral, seq!['}']),
            bl0 == block_lead(pre.delim, pre.ind_chars()),
            label_w == flow_object_label_width(o.name@),
            body_w == 1 + wff + trailw + 1,
            trailw == (if cfg.trailing && anyv {
                1nat
            } else {
                0nat
            }),
            anyv == any_visible(fs, cfg),
            wff == flow_fields_width(fs, false, cfg),
            slabel == flow_object_label(o.name@, cfg),
            ftarget == bfo + sopen + wft,
            btarget == bbo + sopen + bft,
            bfo == pre.buffer@ + lead0 + slabel,
            bbo == pre.buffer@ + bl0 + slabel,
            wft == flow_fields(fs, false, cfg),
            bft == block_fields(fs, d_in, true, cfg),
            d_in == pre.cur_indent + 1,
            mode_flow ==> {
                &&& pre.flow ==> prn.committed == pre.committed && prn.committed_column
                    == pre.committed_column && prn.committed_indent == pre.committed_indent
                &&& prn.buffer@.len() >= pre.buffer@.len()
                &&& prn.buffer@.take(pre.buffer@.len() as int) == pre.buffer@
                &&& prn.buffer@ + flow_fields(fs.skip(i as int), before, cfg) == ftarget
                &&& prn.column + flow_fields_width(fs.skip(i as int), before, cfg) == pre.column
                    + lead0w + label_w + 1 + wff
            },
            !mode_flow ==> prn.buffer@ + block_fields(fs.skip(i as int), d_in, !before, cfg)
                == btarget,
        decreases n - i,
    {
        let ghost at = *prn;
        proof {
            assert(fs.skip(i as int)[0] == fs[i as int]);
            assert(fs.skip(i as int).drop_first() =~= fs.skip(i as int + 1));
            assert(fs.take(i as int + 1) =~= fs.take(i as int).push(fs[i as int]));
        }
        let f = &o.fields[i];
        let visible = !f.implicit || prn.implicit_properties;
        if visible {
            let ghost sepb: Seq<char> = if before {
                seq![',', ' ']
            } else {
                Seq::empty()
            };
            let ghost sepbw: nat = if before {
                2nat
            } else {
                0nat
            };
            let mut lab_text = str_chars(f.name.as_str());
            lab_text.push(':');
            lab_text.push(' ');
            let lab_piece = prn.styler.apply(Style::Label, lab_text);
            let ghost slab = cfg.styled(Style::Label, fs[i as int].name@ + seq![':', ' ']);
            let ghost fxv = flow_text(fs[i as int].value, cfg);
            let ghost fxw = flow_width(fs[i as int].value, cfg);
            let ghost bxv = block_text(fs[i as int].value, d_in, cfg);
            let ghost rest = flow_fields(fs.skip(i as int + 1), true, cfg);
            let ghost restw = flow_fields_width(fs.skip(i as int + 1), true, cfg);
            let ghost brest = block_fields(fs.skip(i as int + 1), d_in, false, cfg);
            proof {
                assert(lab_piece.text@ =~= fs[i as int].name@ + seq![':', ' ']);
                assert(lab_piece.emitted(at.colors) =~= slab);
                assert(lab_piece.width() == fs[i as int].name@.len() + 2);
                if mode_flow {
                    assert(flow_fields(fs.skip(i as int), before, cfg) == sepb + slab + fxv
                        + rest);
                    assert(flow_fields_width(fs.skip(i as int), before, cfg) == sepbw + (
                    fs[i as int].name@.len() + 2) + fxw + restw);
                } else {
                    assert(block_fields(fs.skip(i as int), d_in, !before, cfg) == (if !before {
                        seq!['\n']
                    } else {
                        seq![',', '\n']
                    }) + spaces(sat_mul(d_in, cfg.indent)) + slab + bxv + brest);
                }
            }
            match prn.write_styled(&lab_piece) {
                Err(e) => {
                    proof {
                        assert(pre.column + lead0w + (label_w + body_w) > pre.max_width);
                        lemma_committed_prefix(pre.buffer@, at.buffer@, pre.committed as int);
                        assert(pre.rolled_back(prn));
                        if fresh {
                            assert(false);
                        }
                    }
                    return Err(e);
                },
                Ok(_) => {},
            }
            let ghost mid = *prn;
            proof {
                if mode_flow {
                    assert(mid.buffer@ == at.buffer@ + sepb + slab);
                    lemma_take_app(at.buffer@, sepb, pre.buffer@.len() as int);
                    lemma_take_app(at.buffer@ + sepb, slab, pre.buffer@.len() as int);
                    assert(mid.buffer@.take(pre.buffer@.len() as int) == pre.buffer@);
                }
            }
            match format_item(prn, &f.value) {
                Err(e) => {
                    proof {
                        assert(pre.column + lead0w + (label_w + body_w) > pre.max_width);
                        lemma_committed_prefix(pre.buffer@, mid.buffer@, pre.committed as int);
                        assert(pre.rolled_back(prn));
                        if fresh {
                            assert(false);
                        }
                    }
                    return Err(e);
                },
                Ok(_) => {},
            }
            match prn.comma() {
                Err(e) => {
                    proof {
                        assert(false);
                    }
                    return Err(e);
                },
                Ok(_) => {},
            }
            proof {
                assert(prn.rcfg() =~= cfg);
                assert(fs.take(i as int + 1)[i as int] == fs[i as int]);
                assert(field_visible(fs[i as int], cfg));
                assert(any_visible(fs.take(i as int + 1), cfg));
                if mode_flow {
                    assert(prn.buffer@ == mid.buffer@ + flow_lead(Delim::Clear) + fxv);
                    lemma_add_empty(mid.buffer@);
                    assert(prn.buffer@ == mid.buffer@ + fxv);
                    assert(prn.buffer@ == at.buffer@ + sepb + slab + fxv);
                    lemma_pull5(at.buffer@, sepb, slab, fxv, rest);
                    assert(prn.buffer@ + rest == at.buffer@ + (sepb + slab + fxv + rest));
                    assert(prn.buffer@ + flow_fields(fs.skip(i as int + 1), true, cfg)
                        == ftarget);
                    lemma_take_app(mid.buffer@, fxv, pre.buffer@.len() as int);
                    assert(prn.buffer@.take(pre.buffer@.len() as int) == pre.buffer@);
                } else {
                    assert(prn.buffer@ == mid.buffer@ + block_lead(
                        Delim::Clear,
                        mid.ind_chars(),
                    ) + bxv);
                    lemma_add_empty(mid.buffer@);
                    assert(prn.buffer@ == mid.buffer@ + bxv);
                    assert(mid.buffer@ == at.buffer@ + block_lead(at.delim, at.ind_chars())
                        + slab);
                    assert(at.ind_chars() == sat_mul(d_in, cfg.indent));
                    assert(block_lead(at.delim, at.ind_chars()) == (if !before {
                        seq!['\n']
                    } else {
                        seq![',', '\n']
                    }) + spaces(sat_mul(d_in, cfg.indent)));
                    lemma_pull5(
                        at.buffer@,
                        block_lead(at.delim, at.ind_chars()),
                        slab,
                        bxv,
                        brest,
                    );
                    assert(prn.buffer@ + brest == at.buffer@ + (block_lead(at.delim,
                    at.ind_chars()) + slab + bxv + brest));
                    assert(prn.buffer@ + block_fields(fs.skip(i as int + 1), d_in, false, cfg)
                        == btarget);
                }
            }
            before = true;
        } else {
            proof {
                assert(any_visible(fs.take(i as int + 1), cfg) == any_visible(
                    fs.take(i as int),
                    cfg,
                ));
                assert(flow_fields(fs.skip(i as int), before, cfg) == flow_fields(
                    fs.skip(i as int + 1),
                    before,
                    cfg,
                ));
                assert(flow_fields_width(fs.skip(i as int), before, cfg) == flow_fields_width(
                    fs.skip(i as int + 1),
                    before,
                    cfg,
                ));
                assert(block_fields(fs.skip(i as int), d_in, !before, cfg) == block_fields(
                    fs.skip(i as int + 1),
                    d_in,
                    !before,
                    cfg,
                ));
            }
        }
        i = i + 1;
    }

    proof {
        assert(fs.take(n as int) =~= fs);
        assert(before == anyv);
        assert(fs.skip(n as int).len() == 0);
        assert(flow_fields(fs.skip(n as int), before, cfg) == Seq::<char>::empty());
        assert(block_fields(fs.skip(n as int), d_in, !before, cfg) == Seq::<char>::empty());
    }
    let ghost at_close = *prn;
    proof {
        if mode_flow {
            lemma_add_empty(at_close.buffer@);
            assert(at_close.buffer@ == ftarget);
            assert(at_close.column == pre.column + lead0w + label_w + 1 + wff);
        } else {
            lemma_add_empty(at_close.buffer@);
            assert(at_close.buffer@ == btarget);
        }
    }
    let mut close_text: Vec<char> = Vec::new();
    close_text.push('}');
    let close_piece = prn.styler.apply(Style::SetLiteral, close_text);
    proof {
        assert(close_piece.text@ =~= seq!['}']);
        assert(close_piece.emitted(pre.colors) =~= sclose);
    }
    match prn.close_block(&close_piece, true) {
        Err(e) => {
            proof {
                assert(pre.column + lead0w + (label_w + body_w) > pre.max_width);
                lemma_committed_prefix(pre.buffer@, at_close.buffer@, pre.committed as int);
                assert(pre.rolled_back(prn));
                if fresh {
                    assert(false);
                }
            }
            return Err(e);
        },
        Ok(_) => {},
    }
    proof {
        let ghost sep: Seq<char> = if at_close.close_sep(true) {
            seq![',']
        } else {
            Seq::empty()
        };
        let ghost bl = pre.buffer@ + lead0;
        let ghost bb2 = pre.buffer@ + bl0;
        if mode_flow {
            let ghost obody = flow_object_body(fs, cfg);
            assert(prn.buffer@ == at_close.buffer@ + sep + sclose);
            assert(sep == (if cfg.trailing && anyv {
                seq![',']
            } else {
                Seq::<char>::empty()
            }));
            assert(prn.buffer@ == bfo + sopen + wft + sep + sclose);
            lemma_pull5(bfo, sopen, wft, sep, sclose);
            assert(sopen + wft + sep + sclose == obody);
            assert(prn.buffer@ == bfo + obody);
            lemma_pull3(bl, slabel, obody);
            assert(prn.buffer@ == bl + (slabel + obody));
            assert(prn.column == pre.column + lead0w + (label_w + body_w));
            if fresh {
                lemma_add_empty(pre.buffer@);
                assert(bl == pre.buffer@);
            }
        } else {
            let ghost iw_out = sat_mul(d, cfg.indent);
            let ghost nl = seq!['\n'];
            let ghost bbody = block_object_body(fs, d, cfg);
            assert(sat_mul((at_close.cur_indent - 1) as nat, cfg.indent) == iw_out);
            if !anyv {
                assert(at_close.delim == Delim::Open);
                lemma_block_fields_invisible(fs, d_in, true, cfg);
                assert(bft == Seq::<char>::empty());
                lemma_add_empty(bbo + sopen);
                assert(at_close.buffer@ == bbo + sopen);
                assert(prn.buffer@ == at_close.buffer@ + sclose);
                lemma_pull3(bbo, sopen, sclose);
                assert(sopen + sclose == bbody);
                assert(prn.buffer@ == bbo + bbody);
            } else {
                assert(at_close.delim == Delim::Comma);
                assert(sep == (if cfg.trailing {
                    seq![',']
                } else {
                    Seq::<char>::empty()
                }));
                assert(prn.buffer@ == at_close.buffer@ + sep + nl + spaces(iw_out)
                    + sclose);
                assert(prn.buffer@ == bbo + sopen + bft + sep + nl + spaces(iw_out)
                    + sclose);
                lemma_pull7(bbo, sopen, bft, sep, nl, spaces(iw_out), sclose);
                assert(sopen + bft + sep + nl + spaces(iw_out) + sclose == bbody);
                assert(prn.buffer@ == bbo + bbody);
            }
            lemma_pull3(bb2, slabel, bbody);
            assert(prn.buffer@ == bb2 + (slabel + bbody));
        }
    }
    Ok(())
}

/// The single-line rendering of a top-level row list between bare brackets.
pub open spec fn rows_flow_text(
    items: Seq<Item>,
    k: nat,
    ell: bool,
    cfg: RenderCfg,
    sopen: Seq<char>,
    sclose: Seq<char>,
) -> Seq<char> {
    sopen + flow_items(items, k, cfg) + flow_tail(k, ell, cfg) + sclose
}

/// Display width of [`rows_flow_text`].
pub open spec fn rows_flow_width(items: Seq<Item>, k: nat, ell: bool, cfg: RenderCfg) -> nat {
    1 + flow_items_width(items, k, cfg) + flow_tail_width(k, ell, cfg) + 1
}

/// The block rendering of a top-level row list between bare brackets.
pub open spec fn rows_block_text(
    items: Seq<Item>,
    k: nat,
    ell: bool,
    cfg: RenderCfg,
    sopen: Seq<char>,
    sclose: Seq<char>,
) -> Seq<char> {
    if k == 0 && !ell {
        sopen + sclose
    } else {
        sopen + block_items(items, k, 1, true, cfg) + block_tail(
            k,
            ell,
            sat_mul(1, cfg.indent),
            cfg,
        ) + seq!['\n'] + spaces(sat_mul(0, cfg.indent)) + sclose
    }
}

/// What one render call produces for a row list: the single line exactly
/// when its display width fits, the block layout otherwise.
pub open spec fn rows_rendered(
    items: Seq<Item>,
    cfg: RenderCfg,
    max_width: nat,
    sopen: Seq<char>,
    sclose: Seq<char>,
) -> Seq<char> {
    let k = shown_count(items.len(), cfg.max_items);
    let ell = k < items.len();
    if rows_flow_width(items, k, ell, cfg) <= max_width {
        rows_flow_text(items, k, ell, cfg, sopen, sclose)
    } else {
        rows_block_text(items, k, ell, cfg, sopen, sclose)
    }
}

/// Render a row list from a fresh printer (`reopen` unset: the single-line
/// attempt, which reports the fallback signal if the width is exceeded) or
/// replay it after a fallback (`reopen` set: block layout, cannot fail).
#[verifier::rlimit(100)]
#[verifier::spinoff_prover]
pub fn format_rows_str(
    prn: &mut Printer,
    items: &Vec<Item>,
    open_c: char,
    close_c: char,
    reopen: bool,
) -> (r: Result<(), BlockFallback>)
    requires
        old(prn).wf(),
        old(prn).buffer@.len() == 0,
        old(prn).committed == 0,
        old(prn).committed_column == 0,
        old(prn).committed_indent == 0,
        old(prn).column == 0,
        old(prn).cur_indent == 0,
        old(prn).delim == Delim::Clear,
        !old(prn).flow,
        old(prn).fallback == reopen,
    ensures
        final(prn).wf(),
        old(prn).cfg_like(final(prn)),
        ({
            let cfg = old(prn).rcfg();
            let k = shown_count(items@.len(), cfg.max_items);
            let ell = k < items@.len();
            match r {
                Ok(_) => {
                    &&& final(prn).buffer@ == (if reopen {
                        rows_block_text(items@, k, ell, cfg, seq![open_c], seq![close_c])
                    } else {
                        rows_flow_text(items@, k, ell, cfg, seq![open_c], seq![close_c])
                    })
                    &&& !reopen ==> rows_flow_width(items@, k, ell, cfg) <= old(prn).max_width
                },
                Err(_) => {
                    &&& !reopen
                    &&& rows_flow_width(items@, k, ell, cfg) > old(prn).max_width
                    &&& final(prn).buffer@.len() == 0
                    &&& final(prn).committed == 0
                    &&& final(prn).committed_column == 0
                    &&& final(prn).committed_indent == 0
                    &&& final(prn).column == 0
                    &&& final(prn).cur_indent == 0
                    &&& final(prn).delim == Delim::Clear
                    &&& !final(prn).flow
                    &&& final(prn).fallback
                },
            }
        }),
{
    let ghost pre = *prn;
    let ghost cfg = pre.rcfg();
    let ghost sopen = seq![open_c];
    let ghost sclose = seq![close_c];

    let n = items.len();
    let k: usize = match prn.max_items {
        Option::Some(m) => if n <= m {
            n
        } else {
            m
        },
        Option::None => n,
    };
    let ghost ell = (k as nat) < items@.len();
    let ghost sitems = flow_items(items@, k as nat, cfg);
    let ghost sitems_w = flow_items_width(items@, k as nat, cfg);
    let ghost bitems = block_items(items@, k as nat, 1, true, cfg);
    let ghost comp_w = rows_flow_width(items@, k as nat, ell, cfg);
    let ghost ftarget = pre.buffer@ + sopen + sitems;
    let ghost btarget = pre.buffer@ + sopen + bitems;
    proof {
        assert(comp_w == 1 + sitems_w + flow_tail_width(k as nat, ell, cfg) + 1);
        assert(flow_tail_width(k as nat, true, cfg) == (if k > 0 {
            5nat
        } else {
            3nat
        }));
        assert(flow_tail_width(k as nat, false, cfg) == (if cfg.trailing && k > 0 {
            1nat
        } else {
            0nat
        }));
    }

    let open_piece = Styled::bare(vec![open_c]);
    proof {
        assert(open_piece.text@ =~= sopen);
    }
    if reopen {
        match prn.reopen_block(&open_piece) {
            Err(e) => {
                proof {
                    assert(false);
                }
                return Err(e);
            },
            Ok(_) => {},
        }
    } else {
        match prn.open_block(&open_piece) {
            Err(e) => {
                proof {
                    assert(pre.buffer@.take(0int) =~= Seq::<char>::empty());
                }
                return Err(e);
            },
            Ok(_) => {},
        }
    }
    let ghost mode_flow = prn.flow;
    proof {
        assert(prn.rcfg() =~= cfg);
        assert(mode_flow == !reopen);
        if mode_flow {
            assert(prn.buffer@ == pre.buffer@ + flow_lead(Delim::Clear) + sopen);
            lemma_add_empty(pre.buffer@);
            assert(pre.buffer@ + flow_lead(Delim::Clear) == pre.buffer@);
            assert(prn.buffer@ == pre.buffer@ + sopen);
            if k == 0 {
                assert(sitems == Seq::<char>::empty());
                lemma_add_empty(pre.buffer@ + sopen);
            } else {
                assert(flow_rem(items@, 0nat, k as nat, cfg) == sitems);
            }
            assert(prn.buffer@ + flow_rem(items@, 0nat, k as nat, cfg) == ftarget);
        } else {
            assert(prn.buffer@ == pre.buffer@ + block_lead(Delim::Clear, pre.ind_chars())
                + sopen);
            lemma_add_empty(pre.buffer@);
            assert(prn.buffer@ == pre.buffer@ + sopen);
            assert(items@.skip(0) =~= items@);
            if k == 0 {
                assert(bitems == Seq::<char>::empty());
                assert(block_rem(items@, 0nat, k as nat, 1, cfg) == Seq::<char>::empty());
                lemma_add_empty(pre.buffer@ + sopen);
            } else {
                assert(block_rem(items@, 0nat, k as nat, 1, cfg) == bitems);
            }
            assert(prn.buffer@ + block_rem(items@, 0nat, k as nat, 1, cfg) == btarget);
        }
    }

    let mut i: usize = 0;
    while i < k
        invariant
            prn.wf(),
            pre.cfg_like(prn),
            prn.rcfg() == cfg,
            i <= k,
            k <= n,
            n == items@.len(),
            k as nat == shown_count(items@.len(), cfg.max_items),
            prn.cur_indent == 1,
            prn.fallback == pre.fallback,
            prn.delim == (if i == 0 {
                Delim::Open
            } else {
                Delim::Comma
            }),
            prn.flow == mode_flow,
            mode_flow == !reopen,
            pre.wf(),
            pre == *old(prn),
            pre.buffer@.len() == 0,
            pre.committed == 0,
            pre.committed_column == 0,
            pre.committed_indent == 0,
            pre.column == 0,
            pre.cur_indent == 0,
            pre.delim == Delim::Clear,
            !pre.flow,
            pre.fallback == reopen,
            cfg == pre.rcfg(),
            comp_w == rows_flow_width(items@, k as nat, ell, cfg),
            comp_w == 1 + sitems_w + flow_tail_width(k as nat, ell, cfg) + 1,
            ell == ((k as nat) < items@.len()),
            sitems == flow_items(items@, k as nat, cfg),
            sitems_w == flow_items_width(items@, k as nat, cfg),
            bitems == block_items(items@, k as nat, 1, true, cfg),
            sopen == seq![open_c],
            sclose == seq![close_c],
            ftarget == pre.buffer@ + sopen + sitems,
            btarget == pre.buffer@ + sopen + bitems,
            mode_flow ==> {
                &&& prn.committed == 0
                &&& prn.committed_column == 0
                &&& prn.committed_indent == 0
                &&& prn.buffer@ + flow_rem(items@, i as nat, k as nat, cfg) == ftarget
                &&& prn.column + flow_rem_width(items@, i as nat, k as nat, cfg) == 1 + sitems_w
            },
            !mode_flow ==> prn.buffer@ + block_rem(items@, i as nat, k as nat, 1, cfg) == btarget,
        decreases k - i,
    {
        let ghost at = *prn;
        proof {
            lemma_flow_rem_step(items@, i as nat, k as nat, cfg);
            lemma_block_rem_step(items@, i as nat, k as nat, 1, cfg);
        }
        match format_item(prn, &items[i]) {
            Err(e) => {
                proof {
                    assert(comp_w > pre.max_width);
                    assert(at.buffer@.take(0int) =~= Seq::<char>::empty());
                    assert(pre.buffer@.take(0int) =~= Seq::<char>::empty());
                    assert(pre.rolled_back(prn));
                }
                return Err(e);
            },
            Ok(_) => {},
        }
        match prn.comma() {
            Err(e) => {
                proof {
                    assert(false);
                }
                return Err(e);
            },
            Ok(_) => {},
        }
        proof {
            assert(prn.rcfg() =~= cfg);
            let ghost fx = flow_text(items@[i as int], cfg);
            let ghost bx = block_text(items@[i as int], 1, cfg);
            let ghost remn = flow_rem(items@, i as nat + 1, k as nat, cfg);
            let ghost bremn = block_rem(items@, i as nat + 1, k as nat, 1, cfg);
            if mode_flow {
                assert(prn.buffer@ == at.buffer@ + flow_lead(at.delim) + fx);
                lemma_pull4(at.buffer@, flow_lead(at.delim), fx, remn);
                assert(flow_lead(at.delim) + fx + remn == flow_rem(items@, i as nat, k as nat,
                cfg));
                assert(prn.buffer@ + remn == ftarget);
            } else {
                assert(prn.buffer@ == at.buffer@ + block_lead(at.delim, at.ind_chars()) + bx);
                assert(at.ind_chars() == sat_mul(1, cfg.indent));
                assert(block_lead(at.delim, at.ind_chars()) == (if i == 0 {
                    seq!['\n']
                } else {
                    seq![',', '\n']
                }) + spaces(sat_mul(1, cfg.indent)));
                lemma_pull4(at.buffer@, block_lead(at.delim, at.ind_chars()), bx, bremn);
                assert(block_lead(at.delim, at.ind_chars()) + bx + bremn == block_rem(
                    items@,
                    i as nat,
                    k as nat,
                    1,
                    cfg,
                ));
                assert(prn.buffer@ + bremn == btarget);
            }
        }
        i = i + 1;
    }

    let ghost at_tail = *prn;
    proof {
        if mode_flow {
            lemma_add_empty(at_tail.buffer@);
            assert(at_tail.buffer@ == ftarget);
            assert(at_tail.column == 1 + sitems_w);
        } else {
            lemma_add_empty(at_tail.buffer@);
            assert(at_tail.buffer@ == btarget);
        }
    }
    if k < n {
        match prn.ellipsis() {
            Err(e) => {
                proof {
                    assert(comp_w > pre.max_width);
                    assert(at_tail.buffer@.take(0int) =~= Seq::<char>::empty());
                    assert(pre.buffer@.take(0int) =~= Seq::<char>::empty());
                    assert(pre.rolled_back(prn));
                }
                return Err(e);
            },
            Ok(_) => {},
        }
        proof {
            let ghost dots = seq!['.', '.', '.'];
            if mode_flow {
                assert(prn.buffer@ == at_tail.buffer@ + flow_lead(at_tail.delim) + dots);
                lemma_pull3(at_tail.buffer@, flow_lead(at_tail.delim), dots);
                assert(flow_lead(at_tail.delim) + dots == flow_tail(k as nat, true, cfg));
                assert(prn.buffer@ == ftarget + flow_tail(k as nat, true, cfg));
                assert(prn.column == 1 + sitems_w + flow_tail_width(k as nat, true, cfg));
            } else {
                assert(prn.buffer@ == at_tail.buffer@ + block_lead(
                    at_tail.delim,
                    at_tail.ind_chars(),
                ) + dots);
                lemma_pull3(at_tail.buffer@, block_lead(at_tail.delim, at_tail.ind_chars()), dots);
                assert(at_tail.ind_chars() == sat_mul(1, cfg.indent));
                assert(block_lead(at_tail.delim, at_tail.ind_chars()) + dots == block_tail(
                    k as nat,
                    true,
                    sat_mul(1, cfg.indent),
                    cfg,
                ));
                assert(prn.buffer@ == btarget + block_tail(
                    k as nat,
                    true,
                    sat_mul(1, cfg.indent),
                    cfg,
                ));
            }
        }
    }

    let ghost at_close = *prn;
    let close_piece = Styled::bare(vec![close_c]);
    proof {
        assert(close_piece.text@ =~= sclose);
    }
    match prn.close_block(&close_piece, true) {
        Err(e) => {
            proof {
                assert(comp_w > pre.max_width);
                assert(at_close.buffer@.take(0int) =~= Seq::<char>::empty());
                assert(pre.buffer@.take(0int) =~= Seq::<char>::empty());
                assert(pre.rolled_back(prn));
            }
            return Err(e);
        },
        Ok(_) => {},
    }
    proof {
        let ghost sep: Seq<char> = if at_close.close_sep(true) {
            seq![',']
        } else {
            Seq::empty()
        };
        if mode_flow {
            assert(prn.buffer@ == at_close.buffer@ + sep + sclose);
            if ell {
                let ghost ft = flow_tail(k as nat, true, cfg);
                assert(sep == Seq::<char>::empty());
                lemma_add_empty(at_close.buffer@);
                assert(prn.buffer@ == pre.buffer@ + sopen + sitems + ft + sclose);
                lemma_pull5(pre.buffer@, sopen, sitems, ft, sclose);
                lemma_add_empty(pre.buffer@);
                assert(prn.buffer@ == rows_flow_text(items@, k as nat, ell, cfg, sopen, sclose));
            } else {
                assert(sep == flow_tail(k as nat, false, cfg));
                assert(prn.buffer@ == pre.buffer@ + sopen + sitems + sep + sclose);
                lemma_pull5(pre.buffer@, sopen, sitems, sep, sclose);
                lemma_add_empty(pre.buffer@);
                assert(prn.buffer@ == rows_flow_text(items@, k as nat, ell, cfg, sopen, sclose));
            }
            assert(prn.column == comp_w);
            assert(comp_w <= pre.max_width);
        } else {
            let ghost iw_in = sat_mul(1, cfg.indent);
            let ghost iw_out = sat_mul(0, cfg.indent);
            let ghost nl = seq!['\n'];
            assert(sat_mul((at_close.cur_indent - 1) as nat, cfg.indent) == iw_out);
            if k == 0 && !ell {
                assert(at_close.delim == Delim::Open);
                assert(prn.buffer@ == at_close.buffer@ + sclose);
                assert(at_close.buffer@ == pre.buffer@ + sopen);
                lemma_pull3(pre.buffer@, sopen, sclose);
                lemma_add_empty(pre.buffer@);
                assert(prn.buffer@ == rows_block_text(items@, k as nat, ell, cfg, sopen, sclose));
            } else if ell {
                let ghost bt = block_tail(k as nat, true, iw_in, cfg);
                assert(at_close.delim == Delim::Clear);
                assert(sep == Seq::<char>::empty());
                assert(prn.buffer@ == at_close.buffer@ + sep + nl + spaces(iw_out) + sclose);
                lemma_add_empty(at_close.buffer@);
                assert(prn.buffer@ == pre.buffer@ + sopen + bitems + bt + nl + spaces(iw_out)
                    + sclose);
                lemma_pull7(pre.buffer@, sopen, bitems, bt, nl, spaces(iw_out), sclose);
                lemma_add_empty(pre.buffer@);
                assert(prn.buffer@ == rows_block_text(items@, k as nat, ell, cfg, sopen, sclose));
            } else {
                assert(at_close.delim == Delim::Comma);
                assert(sep == block_tail(k as nat, false, iw_in, cfg));
                assert(prn.buffer@ == pre.buffer@ + sopen + bitems + sep + nl + spaces(iw_out)
                    + sclose);
                lemma_pull7(pre.buffer@, sopen, bitems, sep, nl, spaces(iw_out), sclose);
                lemma_add_empty(pre.buffer@);
                assert(prn.buffer@ == rows_block_text(items@, k as nat, ell, cfg, sopen, sclose));
            }
        }
    }
    Ok(())
}

} // verus!
