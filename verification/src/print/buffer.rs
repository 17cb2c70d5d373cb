//! Printer state and token-emission operations.
//!
//! The printer accumulates characters in a speculative buffer.  While `flow`
//! is set it is attempting a single-line layout: every emission checks the
//! configured width, and the first token that would overflow truncates the
//! buffer back to the commit point, restores the committed cursor, and
//! reports a [`BlockFallback`] signal instead of writing.  With `flow` unset
//! the printer is in block layout: each pending separator turns into a
//! newline plus indentation, nothing can fail, and every emission commits.

use vstd::prelude::*;

use crate::print::style::Styled;
use crate::print::style::Styler;
use crate::repl::VectorLimit;
use crate::text::chars_to_string;

verus! {

/// Pending-separator state between tokens.
#[derive(Clone, Copy, PartialEq, Eq, Structural, Debug)]
pub enum Delim {
    /// Nothing pending: the next token continues the current line.
    Clear,
    /// A block was just opened: the next token is its first element.
    Open,
    /// A separator is owed before the next token.
    Comma,
}

/// Signal that the single-line attempt exceeded the width and the caller
/// must replay the current value in block layout.
pub struct BlockFallback;

/// `n` spaces.
pub open spec fn spaces(n: nat) -> Seq<char> {
    Seq::new(n, |i: int| ' ')
}

/// Addition capped at the largest `usize` value.
pub open spec fn sat_add(a: nat, b: nat) -> nat {
    if a + b <= usize::MAX {
        (a + b) as nat
    } else {
        usize::MAX as nat
    }
}

/// Multiplication capped at the largest `usize` value.
pub open spec fn sat_mul(a: nat, b: nat) -> nat {
    if a * b <= usize::MAX {
        (a * b) as nat
    } else {
        usize::MAX as nat
    }
}

/// Display width of the separator text a pending delimiter contributes on a
/// single line.
pub open spec fn flow_lead_width(delim: Delim) -> nat {
    match delim {
        Delim::Clear => 0,
        Delim::Open => 0,
        Delim::Comma => 2,
    }
}

/// Separator text a pending delimiter contributes on a single line.
pub open spec fn flow_lead(delim: Delim) -> Seq<char> {
    match delim {
        Delim::Clear => Seq::empty(),
        Delim::Open => Seq::empty(),
        Delim::Comma => seq![',', ' '],
    }
}

/// Text a pending delimiter contributes in block layout, where `iw` is the
/// indentation width of the line being started.
pub open spec fn block_lead(delim: Delim, iw: nat) -> Seq<char> {
    match delim {
        Delim::Clear => Seq::empty(),
        Delim::Open => seq!['\n'] + spaces(iw),
        Delim::Comma => seq![',', '\n'] + spaces(iw),
    }
}

/// Column position after a block-layout emission of width `w`.
pub open spec fn block_column(delim: Delim, column: nat, iw: nat, w: nat) -> nat {
    match delim {
        Delim::Clear => sat_add(column, w),
        Delim::Open => sat_add(iw, w),
        Delim::Comma => sat_add(iw, w),
    }
}

/// The layout engine.  One instance drives one top-level render.
pub struct Printer {
    // configuration, fixed for the lifetime of the render
    pub colors: bool,
    pub indent: usize,
    pub expand_strings: bool,
    pub max_width: usize,
    pub implicit_properties: bool,
    pub max_items: Option<usize>,
    pub max_vector_length: VectorLimit,
    pub trailing_comma: bool,
    pub styler: Styler,
    // layout state
    pub buffer: Vec<char>,
    pub committed: usize,
    pub committed_column: usize,
    pub committed_indent: usize,
    pub column: usize,
    pub cur_indent: usize,
    pub flow: bool,
    pub fallback: bool,
    pub delim: Delim,
}

impl Printer {
    /// Structural well-formedness of the layout state.
    pub open spec fn wf(&self) -> bool {
        &&& self.committed <= self.buffer@.len()
        &&& self.committed_indent <= self.committed
        &&& self.cur_indent <= self.buffer@.len()
        &&& !self.flow ==> {
            &&& self.committed == self.buffer@.len()
            &&& self.committed_column == self.column
            &&& self.committed_indent == self.cur_indent
        }
        &&& self.flow ==> self.column <= self.max_width && !self.fallback
    }

    /// The two printers share every configuration field.
    pub open spec fn cfg_like(&self, o: &Printer) -> bool {
        &&& self.colors == o.colors
        &&& self.indent == o.indent
        &&& self.expand_strings == o.expand_strings
        &&& self.max_width == o.max_width
        &&& self.implicit_properties == o.implicit_properties
        &&& self.max_items == o.max_items
        &&& self.max_vector_length == o.max_vector_length
        &&& self.trailing_comma == o.trailing_comma
        &&& self.styler.set_literal@ == o.styler.set_literal@
        &&& self.styler.number_lit@ == o.styler.number_lit@
        &&& self.styler.string_lit@ == o.styler.string_lit@
        &&& self.styler.bool_lit@ == o.styler.bool_lit@
        &&& self.styler.label@ == o.styler.label@
        &&& self.styler.reset@ == o.styler.reset@
    }

    /// Indentation width of a fresh line at the current nesting depth.
    pub open spec fn ind_chars(&self) -> nat {
        sat_mul(self.cur_indent as nat, self.indent as nat)
    }

    /// `post` is `self` with everything speculative discarded: the buffer is
    /// truncated to the commit point, the cursor is restored, and the
    /// printer has switched to block layout for the replay.
    pub open spec fn rolled_back(&self, post: &Printer) -> bool {
        &&& self.cfg_like(post)
        &&& post.buffer@ == self.buffer@.take(self.committed as int)
        &&& post.committed == self.committed
        &&& post.committed_column == self.committed_column
        &&& post.committed_indent == self.committed_indent
        &&& post.column == self.committed_column
        &&& post.cur_indent == self.committed_indent
        &&& !post.flow
        &&& post.fallback
        &&& post.delim == Delim::Clear
    }

    /// Everything except the pending delimiter is unchanged.
    pub open spec fn only_delim_changed(&self, post: &Printer) -> bool {
        &&& self.cfg_like(post)
        &&& post.buffer@ == self.buffer@
        &&& post.committed == self.committed
        &&& post.committed_column == self.committed_column
        &&& post.committed_indent == self.committed_indent
        &&& post.column == self.column
        &&& post.cur_indent == self.cur_indent
        &&& post.flow == self.flow
        &&& post.fallback == self.fallback
    }

    /// Append `n` spaces to the buffer, touching nothing else.
    fn push_spaces(&mut self, n: usize)
        ensures
            final(self).buffer@ == old(self).buffer@ + spaces(n as nat),
            *final(self) == (Printer { buffer: final(self).buffer, ..*old(self) }),
    {
        let mut i: usize = 0;
        while i < n
            invariant
                i <= n,
                self.buffer@ == old(self).buffer@ + spaces(i as nat),
                *self == (Printer { buffer: self.buffer, ..*old(self) }),
            decreases n - i,
        {
            self.buffer.push(' ');
            proof {
                assert(self.buffer@ =~= old(self).buffer@ + spaces(i as nat + 1));
            }
            i = i + 1;
        }
    }

    /// Append a token's characters (with attribute frames when colors are
    /// enabled) to the buffer, touching nothing else.
    fn push_emitted(&mut self, piece: &Styled)
        ensures
            final(self).buffer@ == old(self).buffer@ + piece.emitted(old(self).colors),
            *final(self) == (Printer { buffer: final(self).buffer, ..*old(self) }),
    {
        if self.colors {
            self.buffer.extend_from_slice(piece.prefix.as_slice());
            self.buffer.extend_from_slice(piece.text.as_slice());
            self.buffer.extend_from_slice(piece.suffix.as_slice());
            proof {
                assert(self.buffer@ =~= old(self).buffer@ + piece.emitted(old(self).colors));
            }
        } else {
            self.buffer.extend_from_slice(piece.text.as_slice());
        }
    }

    /// Indentation width of a fresh line at the current nesting depth.
    fn ind_width(&self) -> (r: usize)
        ensures
            r as nat == self.ind_chars(),
    {
        if self.indent == 0 {
            0
        } else if self.cur_indent <= usize::MAX / self.indent {
            proof {
                assert(self.cur_indent * self.indent <= (usize::MAX / self.indent) * self.indent
                    <= usize::MAX) by (nonlinear_arith)
                    requires
                        self.indent > 0,
                        self.cur_indent <= usize::MAX / self.indent,
                ;
            }
            self.cur_indent * self.indent
        } else {
            proof {
                assert(self.cur_indent * self.indent > usize::MAX) by (nonlinear_arith)
                    requires
                        self.indent > 0,
                        self.cur_indent > usize::MAX / self.indent,
                ;
            }
            usize::MAX
        }
    }

    /// Discard everything speculative and switch to block layout.
    fn roll_back(&mut self)
        requires
            old(self).wf(),
        ensures
            final(self).wf(),
            old(self).rolled_back(final(self)),
    {
        self.buffer.truncate(self.committed);
        self.column = self.committed_column;
        self.cur_indent = self.committed_indent;
        self.delim = Delim::Clear;
        self.flow = false;
        self.fallback = true;
    }

    /// Emit one token: pending separator first, then the token itself.
    ///
    /// On a single line the combined width is checked against the maximum;
    /// an overflow discards the speculative text and reports the fallback
    /// signal.  In block layout a pending separator starts a fresh indented
    /// line and the emission always succeeds and commits.
    pub fn write_styled(&mut self, piece: &Styled) -> (r: Result<(), BlockFallback>)
        requires
            old(self).wf(),
        ensures
            final(self).wf(),
            old(self).cfg_like(final(self)),
            old(self).flow ==> match r {
                Ok(_) => {
                    &&& old(self).column + flow_lead_width(old(self).delim) + piece.width()
                        <= old(self).max_width
                    &&& final(self).buffer@ == old(self).buffer@ + flow_lead(old(self).delim)
                        + piece.emitted(old(self).colors)
                    &&& final(self).column == old(self).column + flow_lead_width(old(self).delim)
                        + piece.width()
                    &&& final(self).delim == Delim::Clear
                    &&& final(self).flow
                    &&& final(self).cur_indent == old(self).cur_indent
                    &&& final(self).committed == old(self).committed
                    &&& final(self).committed_column == old(self).committed_column
                    &&& final(self).committed_indent == old(self).committed_indent
                    &&& final(self).fallback == old(self).fallback
                },
                Err(_) => {
                    &&& old(self).column + flow_lead_width(old(self).delim) + piece.width()
                        > old(self).max_width
                    &&& old(self).rolled_back(final(self))
                },
            },
            !old(self).flow ==> {
                &&& r is Ok
                &&& final(self).buffer@ == old(self).buffer@ + block_lead(
                    old(self).delim,
                    old(self).ind_chars(),
                ) + piece.emitted(old(self).colors)
                &&& final(self).column == block_column(
                    old(self).delim,
                    old(self).column as nat,
                    old(self).ind_chars(),
                    piece.width(),
                )
                &&& final(self).delim == Delim::Clear
                &&& !final(self).flow
                &&& final(self).fallback == old(self).fallback
                &&& final(self).cur_indent == old(self).cur_indent
            },
    {
        if self.flow {
            let avail = self.max_width - self.column;
            let lead_w: usize = match self.delim {
                Delim::Comma => 2,
                _ => 0,
            };
            if lead_w > avail || piece.text.len() > avail - lead_w {
                self.roll_back();
                return Err(BlockFallback);
            }
            match self.delim {
                Delim::Comma => {
                    self.buffer.push(',');
                    self.buffer.push(' ');
                },
                _ => {},
            }
            self.push_emitted(piece);
            self.column = self.column + lead_w + piece.text.len();
            self.delim = Delim::Clear;
            proof {
                assert(self.buffer@ =~= old(self).buffer@ + flow_lead(old(self).delim)
                    + piece.emitted(old(self).colors));
            }
            Ok(())
        } else {
            let w = piece.text.len();
            let iw = self.ind_width();
            match self.delim {
                Delim::Clear => {
                    self.push_emitted(piece);
                    self.column = if self.column <= usize::MAX - w {
                        self.column + w
                    } else {
                        usize::MAX
                    };
                },
                Delim::Open => {
                    self.buffer.push('\n');
                    self.push_spaces(iw);
                    self.push_emitted(piece);
                    self.column = if iw <= usize::MAX - w {
                        iw + w
                    } else {
                        usize::MAX
                    };
                },
                Delim::Comma => {
                    self.buffer.push(',');
                    self.buffer.push('\n');
                    self.push_spaces(iw);
                    self.push_emitted(piece);
                    self.column = if iw <= usize::MAX - w {
                        iw + w
                    } else {
                        usize::MAX
                    };
                },
            }
            self.delim = Delim::Clear;
            self.committed = self.buffer.len();
            self.committed_column = self.column;
            self.committed_indent = self.cur_indent;
            proof {
                assert(self.buffer@ =~= old(self).buffer@ + block_lead(
                    old(self).delim,
                    old(self).ind_chars(),
                ) + piece.emitted(old(self).colors));
            }
            Ok(())
        }
    }

    /// Open a structural block: emit the opening bracket, push a fresh
    /// delimiter context and deepen the nesting by one level.
    ///
    /// On a fresh printer (not yet in flow and not fallen back, cursor
    /// within the width) this also starts the single-line attempt; the
    /// returned flag reports whether that new boundary was created.
    pub fn open_block(&mut self, piece: &Styled) -> (r: Result<bool, BlockFallback>)
        requires
            old(self).wf(),
            piece.text@.len() >= 1,
        ensures
            final(self).wf(),
            old(self).cfg_like(final(self)),
            ({
                let started = !old(self).flow && !old(self).fallback && old(self).column
                    <= old(self).max_width;
                let was_flow = old(self).flow || started;
                match r {
                    Ok(b) => {
                        &&& b == started
                        &&& final(self).cur_indent == old(self).cur_indent + 1
                        &&& final(self).delim == Delim::Open
                        &&& final(self).flow == was_flow
                        &&& final(self).fallback == old(self).fallback
                        &&& was_flow ==> {
                            &&& old(self).column + flow_lead_width(old(self).delim)
                                + piece.width() <= old(self).max_width
                            &&& final(self).buffer@ == old(self).buffer@ + flow_lead(
                                old(self).delim,
                            ) + piece.emitted(old(self).colors)
                            &&& final(self).column == old(self).column + flow_lead_width(
                                old(self).delim,
                            ) + piece.width()
                            &&& final(self).committed == old(self).committed
                            &&& final(self).committed_column == old(self).committed_column
                            &&& final(self).committed_indent == old(self).committed_indent
                        }
                        &&& !was_flow ==> {
                            &&& final(self).buffer@ == old(self).buffer@ + block_lead(
                                old(self).delim,
                                old(self).ind_chars(),
                            ) + piece.emitted(old(self).colors)
                            &&& final(self).column == block_column(
                                old(self).delim,
                                old(self).column as nat,
                                old(self).ind_chars(),
                                piece.width(),
                            )
                        }
                    },
                    Err(_) => {
                        &&& was_flow
                        &&& old(self).column + flow_lead_width(old(self).delim) + piece.width()
                            > old(self).max_width
                        &&& old(self).rolled_back(final(self))
                    },
                }
            }),
    {
        let started = !self.flow && !self.fallback && self.column <= self.max_width;
        if started {
            self.flow = true;
        }
        match self.write_styled(piece) {
            Err(e) => {
                return Err(e);
            },
            Ok(_) => {},
        }
        let n = self.buffer.len();
        proof {
            // the bracket was just written, so the depth stays below the
            // buffer length and the increment cannot overflow
            assert(self.cur_indent < n);
        }
        self.cur_indent = self.cur_indent + 1;
        if !self.flow {
            self.committed_indent = self.cur_indent;
        }
        self.delim = Delim::Open;
        Ok(started)
    }

    /// Re-establish the outer block's context after a fallback, so the
    /// buffered values can be replayed in block layout without duplicating
    /// the opening bracket (the speculative copy was discarded).
    pub fn reopen_block(&mut self, piece: &Styled) -> (r: Result<(), BlockFallback>)
        requires
            old(self).wf(),
            !old(self).flow,
            piece.text@.len() >= 1,
        ensures
            final(self).wf(),
            old(self).cfg_like(final(self)),
            r is Ok,
            final(self).buffer@ == old(self).buffer@ + block_lead(
                old(self).delim,
                old(self).ind_chars(),
            ) + piece.emitted(old(self).colors),
            final(self).column == block_column(
                old(self).delim,
                old(self).column as nat,
                old(self).ind_chars(),
                piece.width(),
            ),
            final(self).cur_indent == old(self).cur_indent + 1,
            final(self).delim == Delim::Open,
            !final(self).flow,
            final(self).fallback == old(self).fallback,
    {
        match self.write_styled(piece) {
            Err(e) => {
                return Err(e);
            },
            Ok(_) => {},
        }
        self.cur_indent = self.cur_indent + 1;
        self.committed_indent = self.cur_indent;
        self.delim = Delim::Open;
        Ok(())
    }

    /// Whether closing a block now owes a trailing separator.
    pub open spec fn close_sep(&self, allow_trailing_sep: bool) -> bool {
        self.delim == Delim::Comma && self.trailing_comma && allow_trailing_sep
    }

    /// Close a structural block: flush the pending separator according to
    /// the trailing-separator setting and block emptiness, emit the closing
    /// bracket, and shallow the nesting by one level.
    ///
    /// An empty block (nothing emitted since it was opened) closes on the
    /// same line with no separator; in block layout a non-empty block puts
    /// the closing bracket on its own line at the outer indentation.
    pub fn close_block(&mut self, piece: &Styled, allow_trailing_sep: bool) -> (r: Result<
        (),
        BlockFallback,
    >)
        requires
            old(self).wf(),
            old(self).cur_indent >= 1,
            piece.text@.len() >= 1,
        ensures
            final(self).wf(),
            old(self).cfg_like(final(self)),
            ({
                let sep: Seq<char> = if old(self).close_sep(allow_trailing_sep) {
                    seq![',']
                } else {
                    Seq::empty()
                };
                let outer_iw = sat_mul((old(self).cur_indent - 1) as nat, old(self).indent as nat);
                match r {
                    Ok(_) => {
                        &&& final(self).cur_indent == old(self).cur_indent - 1
                        &&& final(self).delim == Delim::Clear
                        &&& final(self).flow == old(self).flow
                        &&& final(self).fallback == old(self).fallback
                        &&& old(self).flow ==> {
                            &&& old(self).column + sep.len() + piece.width() <= old(
                                self,
                            ).max_width
                            &&& final(self).buffer@ == old(self).buffer@ + sep + piece.emitted(
                                old(self).colors,
                            )
                            &&& final(self).column == old(self).column + sep.len()
                                + piece.width()
                            &&& final(self).committed == old(self).committed
                            &&& final(self).committed_column == old(self).committed_column
                            &&& final(self).committed_indent == old(self).committed_indent
                        }
                        &&& (!old(self).flow && old(self).delim == Delim::Open) ==> {
                            &&& final(self).buffer@ == old(self).buffer@ + piece.emitted(
                                old(self).colors,
                            )
                            &&& final(self).column == sat_add(
                                old(self).column as nat,
                                piece.width(),
                            )
                        }
                        &&& (!old(self).flow && old(self).delim != Delim::Open) ==> {
                            &&& final(self).buffer@ == old(self).buffer@ + sep + seq!['\n']
                                + spaces(outer_iw) + piece.emitted(old(self).colors)
                            &&& final(self).column == sat_add(outer_iw, piece.width())
                        }
                    },
                    Err(_) => {
                        &&& old(self).flow
                        &&& old(self).column + sep.len() + piece.width() > old(self).max_width
                        &&& old(self).rolled_back(final(self))
                    },
                }
            }),
    {
        let empty = match self.delim {
            Delim::Open => true,
            _ => false,
        };
        let sep = match self.delim {
            Delim::Comma => self.trailing_comma && allow_trailing_sep,
            _ => false,
        };
        if self.flow {
            let avail = self.max_width - self.column;
            let sep_w: usize = if sep {
                1
            } else {
                0
            };
            if sep_w > avail || piece.text.len() > avail - sep_w {
                self.roll_back();
                return Err(BlockFallback);
            }
            if sep {
                self.buffer.push(',');
            }
            self.push_emitted(piece);
            self.column = self.column + sep_w + piece.text.len();
        } else {
            if empty {
                self.push_emitted(piece);
                let w = piece.text.len();
                self.column = if self.column <= usize::MAX - w {
                    self.column + w
                } else {
                    usize::MAX
                };
            } else {
                if sep {
                    self.buffer.push(',');
                }
                self.buffer.push('\n');
                self.cur_indent = self.cur_indent - 1;
                let iw = self.ind_width();
                self.push_spaces(iw);
                self.push_emitted(piece);
                let w = piece.text.len();
                self.column = if iw <= usize::MAX - w {
                    iw + w
                } else {
                    usize::MAX
                };
                self.cur_indent = self.cur_indent + 1;
            }
            self.committed = self.buffer.len();
            self.committed_column = self.column;
        }
        self.cur_indent = self.cur_indent - 1;
        if !self.flow {
            self.committed_indent = self.cur_indent;
        }
        self.delim = Delim::Clear;
        proof {
            if old(self).flow {
                if old(self).close_sep(allow_trailing_sep) {
                    assert(self.buffer@ =~= old(self).buffer@ + seq![','] + piece.emitted(
                        old(self).colors,
                    ));
                } else {
                    assert(self.buffer@ =~= old(self).buffer@ + Seq::<char>::empty()
                        + piece.emitted(old(self).colors));
                }
            } else if old(self).delim != Delim::Open {
                let outer_iw = sat_mul((old(self).cur_indent - 1) as nat, old(self).indent as nat);
                if old(self).close_sep(allow_trailing_sep) {
                    assert(self.buffer@ =~= old(self).buffer@ + seq![','] + seq!['\n'] + spaces(
                        outer_iw,
                    ) + piece.emitted(old(self).colors));
                } else {
                    assert(self.buffer@ =~= old(self).buffer@ + Seq::<char>::empty() + seq!['\n']
                        + spaces(outer_iw) + piece.emitted(old(self).colors));
                }
            }
        }
        Ok(())
    }

    /// Record that a separator is owed before the next token; nothing is
    /// emitted until the next token decides how to honor it.
    pub fn comma(&mut self) -> (r: Result<(), BlockFallback>)
        requires
            old(self).wf(),
        ensures
            final(self).wf(),
            r is Ok,
            old(self).only_delim_changed(final(self)),
            final(self).delim == Delim::Comma,
    {
        self.delim = Delim::Comma;
        Ok(())
    }

    /// Emit the truncation marker used when an item limit cuts a collection
    /// short.  It honors the pending separator like any other token and
    /// leaves no separator pending afterwards.
    pub fn ellipsis(&mut self) -> (r: Result<(), BlockFallback>)
        requires
            old(self).wf(),
        ensures
            final(self).wf(),
            old(self).cfg_like(final(self)),
            old(self).flow ==> match r {
                Ok(_) => {
                    &&& old(self).column + flow_lead_width(old(self).delim) + 3 <= old(
                        self,
                    ).max_width
                    &&& final(self).buffer@ == old(self).buffer@ + flow_lead(old(self).delim)
                        + seq!['.', '.', '.']
                    &&& final(self).column == old(self).column + flow_lead_width(old(self).delim)
                        + 3
                    &&& final(self).delim == Delim::Clear
                    &&& final(self).flow
                    &&& final(self).cur_indent == old(self).cur_indent
                    &&& final(self).committed == old(self).committed
                    &&& final(self).committed_column == old(self).committed_column
                    &&& final(self).committed_indent == old(self).committed_indent
                    &&& final(self).fallback == old(self).fallback
                },
                Err(_) => {
                    &&& old(self).column + flow_lead_width(old(self).delim) + 3 > old(
                        self,
                    ).max_width
                    &&& old(self).rolled_back(final(self))
                },
            },
            !old(self).flow ==> {
                &&& r is Ok
                &&& final(self).buffer@ == old(self).buffer@ + block_lead(
                    old(self).delim,
                    old(self).ind_chars(),
                ) + seq!['.', '.', '.']
                &&& final(self).delim == Delim::Clear
                &&& !final(self).flow
                &&& final(self).fallback == old(self).fallback
                &&& final(self).cur_indent == old(self).cur_indent
            },
    {
        let dots = Styled::bare(vec!['.', '.', '.']);
        self.write_styled(&dots)
    }

    /// Finalize the render and hand the accumulated text out.  Reaching the
    /// end of input without a fallback confirms the single-line attempt fit,
    /// so the whole buffer is final either way.
    pub fn end(self) -> (r: String)
        ensures
            r@ == self.buffer@,
    {
        chars_to_string(&self.buffer)
    }
}

} // verus!
