//! The output engine: a streaming, backtracking pretty-printer.
//!
//! A render first attempts a compact single-line ("flow") layout.  Every
//! token emission checks the configured maximum width; the first token that
//! would overflow converts into a recoverable fallback signal, the
//! speculative buffer is discarded back to the last commit point, and the
//! driver replays the already-materialized values in an indented multi-line
//! ("block") layout, where no width check applies.

use vstd::prelude::*;

use colorful::Colorful;

pub mod buffer;
pub mod laws;
pub mod stream;
pub mod style;
pub mod value;

use crate::branding::BRANDING_CLI_CMD;
use crate::print::buffer::Delim;
use crate::print::buffer::Printer;
use crate::print::style::Styler;
use crate::print::value::Item;
use crate::print::value::RenderCfg;
use crate::print::value::flow_text;
use crate::print::value::flow_width;
use crate::print::value::format_item;
use crate::print::value::format_rows_str;
use crate::print::value::rows_rendered;
use crate::repl::VectorLimit;

verus! {

/// Options for one render call, constructed once and read-only thereafter.
pub struct Config {
    /// Force colors on or off; `None` auto-detects from the output.
    pub colors: Option<bool>,
    /// Spaces per nesting level in block layout.
    pub indent: usize,
    /// Print control characters literally instead of escaped.
    pub expand_strings: bool,
    /// Maximum line width; `None` derives it from the terminal (falling
    /// back to 80 columns).
    pub max_width: Option<usize>,
    /// Render normally-hidden fields.
    pub implicit_properties: bool,
    /// Cap on elements shown per collection before the truncation marker.
    pub max_items: Option<usize>,
    /// Cap on displayed numeric-vector elements.
    pub max_vector_length: VectorLimit,
    /// The style table for token rendering.
    pub styler: Styler,
}

impl Config {
    /// The default configuration: auto-detected colors, two-space indent,
    /// expanded strings, no caps, the default dark theme.
    pub fn new() -> (c: Config)
        ensures
            c.colors is None,
            c.indent == 2,
            c.expand_strings,
            c.max_width is None,
            !c.implicit_properties,
            c.max_items is None,
            c.max_vector_length == VectorLimit::Unlimited,
            c.styler.set_literal@ == "\u{1b}[38;5;146m"@,
            c.styler.number_lit@ == "\u{1b}[38;5;114m"@,
            c.styler.string_lit@ == "\u{1b}[38;5;186m"@,
            c.styler.bool_lit@ == "\u{1b}[38;5;81m"@,
            c.styler.label@ == "\u{1b}[38;5;153m"@,
            c.styler.reset@ == "\u{1b}[0m"@,
    {
        Config {
            colors: Option::None,
            indent: crate::DEFAULT_INDENT,
            expand_strings: true,
            max_width: Option::None,
            implicit_properties: false,
            max_items: Option::None,
            max_vector_length: VectorLimit::Unlimited,
            styler: Styler::dark_256(),
        }
    }

    /// Set an explicit maximum line width.
    pub fn max_width(&mut self, value: usize) -> (r: &mut Config)
        ensures
            *final(self) == *final(r),
            *r == (Config { max_width: Some(value), ..*old(self) }),
    {
        self.max_width = Option::Some(value);
        self
    }

    /// Cap the number of elements shown per collection.
    pub fn max_items(&mut self, value: Option<usize>) -> (r: &mut Config)
        ensures
            *final(self) == *final(r),
            *r == (Config { max_items: value, ..*old(self) }),
    {
        self.max_items = value;
        self
    }

    /// Cap the number of displayed numeric-vector elements.
    pub fn max_vector_length(&mut self, value: VectorLimit) -> (r: &mut Config)
        ensures
            *final(self) == *final(r),
            *r == (Config { max_vector_length: value, ..*old(self) }),
    {
        self.max_vector_length = value;
        self
    }

    /// Force colors on or off.
    pub fn colors(&mut self, value: bool) -> (r: &mut Config)
        ensures
            *final(self) == *final(r),
            *r == (Config { colors: Some(value), ..*old(self) }),
    {
        self.colors = Option::Some(value);
        self
    }

    /// Print control characters literally instead of escaped.
    pub fn expand_strings(&mut self, value: bool) -> (r: &mut Config)
        ensures
            *final(self) == *final(r),
            *r == (Config { expand_strings: value, ..*old(self) }),
    {
        self.expand_strings = value;
        self
    }

    /// Render normally-hidden fields.
    pub fn implicit_properties(&mut self, value: bool) -> (r: &mut Config)
        ensures
            *final(self) == *final(r),
            *r == (Config { implicit_properties: value, ..*old(self) }),
    {
        self.implicit_properties = value;
        self
    }

    /// The rendering configuration this `Config` induces once the color
    /// choice and separator policy are resolved.
    pub open spec fn rcfg_with(&self, colors: bool, trailing: bool) -> RenderCfg {
        RenderCfg {
            colors,
            indent: self.indent as nat,
            expand: self.expand_strings,
            implicit: self.implicit_properties,
            max_items: self.max_items,
            vec_limit: self.max_vector_length,
            trailing,
            set_literal: self.styler.set_literal@,
            number_lit: self.styler.number_lit@,
            string_lit: self.styler.string_lit@,
            bool_lit: self.styler.bool_lit@,
            label: self.styler.label@,
            reset: self.styler.reset@,
        }
    }
}

/// The color choice the machine-readable path resolves to: forced on or
/// off, never auto-detected.
pub open spec fn json_colors(c: Config) -> bool {
    match c.colors {
        Some(b) => b,
        None => false,
    }
}

/// The line width a configuration resolves to when no terminal is asked.
pub open spec fn resolved_max_width(c: Config) -> nat {
    match c.max_width {
        Some(w) => w as nat,
        None => 80,
    }
}

impl Printer {
    /// A fresh printer for one render call.
    pub fn start(config: &Config, max_width: usize, colors: bool, trailing_comma: bool) -> (p:
        Printer)
        ensures
            p.wf(),
            p.buffer@.len() == 0,
            p.committed == 0,
            p.committed_column == 0,
            p.committed_indent == 0,
            p.column == 0,
            p.cur_indent == 0,
            !p.flow,
            !p.fallback,
            p.delim == Delim::Clear,
            p.colors == colors,
            p.indent == config.indent,
            p.expand_strings == config.expand_strings,
            p.max_width == max_width,
            p.implicit_properties == config.implicit_properties,
            p.max_items == config.max_items,
            p.max_vector_length == config.max_vector_length,
            p.trailing_comma == trailing_comma,
            p.rcfg() == config.rcfg_with(colors, trailing_comma),
    {
        let p = Printer {
            colors,
            indent: config.indent,
            expand_strings: config.expand_strings,
            max_width,
            implicit_properties: config.implicit_properties,
            max_items: config.max_items,
            max_vector_length: config.max_vector_length,
            trailing_comma,
            styler: config.styler.clone(),
            buffer: Vec::new(),
            committed: 0,
            committed_column: 0,
            committed_indent: 0,
            column: 0,
            cur_indent: 0,
            flow: false,
            fallback: false,
            delim: Delim::Clear,
        };
        proof {
            assert(p.rcfg() =~= config.rcfg_with(colors, trailing_comma));
        }
        p
    }
}

/// Render a machine-readable list: all rows between square brackets, no
/// trailing separator, a single line when it fits, block layout otherwise.
pub fn json_to_string(items: &Vec<Item>, config: &Config) -> (r: String)
    ensures
        r@ == rows_rendered(
            items@,
            config.rcfg_with(json_colors(*config), false),
            resolved_max_width(*config),
            seq!['['],
            seq![']'],
        ),
{
    let colors = match config.colors {
        Option::Some(b) => b,
        Option::None => false,
    };
    let max_width = match config.max_width {
        Option::Some(w) => w,
        Option::None => 80,
    };
    let mut prn = Printer::start(config, max_width, colors, false);
    match format_rows_str(&mut prn, items, '[', ']', false) {
        Ok(_) => {},
        Err(_) => {
            match format_rows_str(&mut prn, items, '[', ']', true) {
                Ok(_) => {},
                Err(_) => {
                    proof {
                        assert(false);
                    }
                },
            }
        },
    }
    prn.end()
}

/// Render one value to a string.  A lone scalar never enters the fallback
/// path by construction; a composite is accepted when its one-line
/// rendering fits the resolved width.
pub fn json_item_to_string(item: &Item, config: &Config) -> (r: String)
    requires
        item.is_scalar() || flow_width(*item, config.rcfg_with(json_colors(*config), false))
            <= resolved_max_width(*config),
    ensures
        r@ == flow_text(*item, config.rcfg_with(json_colors(*config), false)),
{
    let colors = match config.colors {
        Option::Some(b) => b,
        Option::None => false,
    };
    let max_width = match config.max_width {
        Option::Some(w) => w,
        Option::None => 80,
    };
    let mut prn = Printer::start(config, max_width, colors, false);
    match format_item(&mut prn, item) {
        Ok(_) => {},
        Err(_) => {
            proof {
                assert(false);
            }
        },
    }
    prn.end()
}

/// The escape-sequence prefix that renders bold text in the given
/// 256-color foreground, as colorful emits it.
pub open spec fn sgr_bold_fg(code: Seq<char>) -> Seq<char> {
    "\u{1b}[38;5;"@ + code + ";1m"@
}

/// The reset escape sequence.
pub open spec fn sgr_reset() -> Seq<char> {
    "\u{1b}[0m"@
}

/// Relies on colorful's `Colorful::bold` and `Colorful::light_green`: the
/// rendered form is the text inside the combined SGR prefix (foreground
/// color 10, bold) and the reset code.
#[verifier::external_body]
fn bold_light_green(s: &str) -> (r: String)
    ensures
        r@ == sgr_bold_fg("10"@) + s@ + sgr_reset(),
{
    format!("{}", s.bold().light_green())
}

/// Relies on colorful's `Colorful::bold` and `Colorful::white`: the
/// rendered form is the text inside the combined SGR prefix (foreground
/// color 15, bold) and the reset code.
#[verifier::external_body]
fn bold_white(s: &str) -> (r: String)
    ensures
        r@ == sgr_bold_fg("15"@) + s@ + sgr_reset(),
{
    format!("{}", s.bold().white())
}

/// Relies on colorful's `Colorful::bold` and `Colorful::yellow`: the
/// rendered form is the text inside the combined SGR prefix (foreground
/// color 3, bold) and the reset code.
#[verifier::external_body]
fn bold_yellow(s: &str) -> (r: String)
    ensures
        r@ == sgr_bold_fg("3"@) + s@ + sgr_reset(),
{
    format!("{}", s.bold().yellow())
}

/// Relies on colorful's `Colorful::bold` and `Colorful::light_red`: the
/// rendered form is the text inside the combined SGR prefix (foreground
/// color 9, bold) and the reset code.
#[verifier::external_body]
fn bold_light_red(s: &str) -> (r: String)
    ensures
        r@ == sgr_bold_fg("9"@) + s@ + sgr_reset(),
{
    format!("{}", s.bold().light_red())
}

/// Relies on colorful's `Colorful::dark_gray` and `Colorful::bold`: the
/// rendered form is the text inside the combined SGR prefix (foreground
/// color 8, bold) and the reset code.
#[verifier::external_body]
fn bold_dark_gray(s: &str) -> (r: String)
    ensures
        r@ == sgr_bold_fg("8"@) + s@ + sgr_reset(),
{
    format!("{}", s.dark_gray().bold())
}

/// Relies on colorful's `Colorful::bold` and `Colorful::color` with the
/// 256-color orange tone 172: the rendered form is the text inside the
/// combined SGR prefix and the reset code.
#[verifier::external_body]
fn bold_orange(s: &str) -> (r: String)
    ensures
        r@ == sgr_bold_fg("172"@) + s@ + sgr_reset(),
{
    format!("{}", s.bold().color(colorful::Color::Orange3))
}

/// Relies on colorful's `Colorful::bold` alone: the rendered form is the
/// text inside the bold SGR prefix and the reset code.
#[verifier::external_body]
fn bold_only(s: &str) -> (r: String)
    ensures
        r@ == "\u{1b}[1m"@ + s@ + sgr_reset(),
{
    format!("{}", s.bold())
}

/// The error-message marker: the CLI command name and `error:`,
/// highlighted when colors are on.
pub open spec fn err_marker_text(colors: bool) -> Seq<char> {
    if colors {
        sgr_bold_fg("9"@) + BRANDING_CLI_CMD@ + " error:"@ + sgr_reset()
    } else {
        BRANDING_CLI_CMD@ + " error:"@
    }
}

/// Build the error-message marker.
pub fn err_marker(colors: bool) -> (r: String)
    ensures
        r@ == err_marker_text(colors),
{
    let base = BRANDING_CLI_CMD.to_owned().concat(" error:");
    if colors {
        bold_light_red(base.as_str())
    } else {
        base
    }
}

/// Build an error line: the marker, a space, then the message — short
/// messages emphasized, long ones plain (emphasis on long lines reads
/// poorly).
pub fn error(line: &str, colors: bool) -> (r: String)
    ensures
        r@ == err_marker_text(colors) + seq![' '] + (if line@.len() > 60 {
            line@
        } else if colors {
            "\u{1b}[1m"@ + line@ + sgr_reset()
        } else {
            line@
        }),
{
    let marker = err_marker(colors);
    let n = line.unicode_len();
    let body = if n > 60 {
        line.to_owned()
    } else if colors {
        bold_only(line)
    } else {
        line.to_owned()
    };
    let r = marker.concat(" ").concat(body.as_str());
    proof {
        reveal_strlit(" ");
        assert(" "@ =~= seq![' ']);
    }
    r
}

/// Build a success line: highlighted green when colors are on.
pub fn success(line: &str, colors: bool) -> (r: String)
    ensures
        r@ == (if colors {
            sgr_bold_fg("10"@) + line@ + sgr_reset()
        } else {
            line@
        }),
{
    if colors {
        bold_light_green(line)
    } else {
        line.to_owned()
    }
}

/// Build a titled success line: `title: msg`, with the title green and the
/// message white when colors are on.
pub fn success_msg(title: &str, msg: &str, colors: bool) -> (r: String)
    ensures
        r@ == (if colors {
            sgr_bold_fg("10"@) + title@ + sgr_reset() + ": "@ + sgr_bold_fg("15"@) + msg@
                + sgr_reset()
        } else {
            title@ + ": "@ + msg@
        }),
{
    if colors {
        let t = bold_light_green(title);
        let m = bold_white(msg);
        t.concat(": ").concat(m.as_str())
    } else {
        title.to_owned().concat(": ").concat(msg)
    }
}

/// Build a warning line: highlighted yellow when colors are on.
pub fn warn(line: &str, colors: bool) -> (r: String)
    ensures
        r@ == (if colors {
            sgr_bold_fg("3"@) + line@ + sgr_reset()
        } else {
            line@
        }),
{
    if colors {
        bold_yellow(line)
    } else {
        line.to_owned()
    }
}

/// Build a prompt line: bold orange when colors are on.
pub fn prompt(line: &str, colors: bool) -> (r: String)
    ensures
        r@ == (if colors {
            sgr_bold_fg("172"@) + line@ + sgr_reset()
        } else {
            line@
        }),
{
    if colors {
        bold_orange(line)
    } else {
        line.to_owned()
    }
}

/// Build a completion notice: `OK:` and the result, dimmed when colors are
/// on.
pub fn completion(res: &str, colors: bool) -> (r: String)
    ensures
        r@ == (if colors {
            sgr_bold_fg("8"@) + "OK: "@ + res@ + sgr_reset()
        } else {
            "OK: "@ + res@
        }),
{
    let base = "OK: ".to_owned().concat(res);
    if colors {
        bold_dark_gray(base.as_str())
    } else {
        base
    }
}

} // verus!
