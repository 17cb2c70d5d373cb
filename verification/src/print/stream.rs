//! The two-phase driver for a streamed sequence of top-level rows.
//!
//! Phase one buffers incoming rows — up to one visual line's worth — while
//! attempting the single-line layout.  The first emission that would exceed
//! the width discards the speculative text and replays the buffered rows in
//! block layout; rows that arrive afterwards render directly, one per line,
//! without being buffered.  The item cap truncates the output with an
//! ellipsis but the driver keeps accepting rows until the source is
//! exhausted, so the source is always fully drained.  The final text is a
//! pure function of the received rows and the configuration: byte-identical
//! across repeated runs, with the single-line form exactly when it fits.

use vstd::prelude::*;

use crate::print::Config;
use crate::print::buffer::Delim;
use crate::print::buffer::Printer;
use crate::print::buffer::block_lead;
use crate::print::buffer::flow_lead;
use crate::print::buffer::flow_lead_width;
use crate::print::buffer::sat_mul;
use crate::print::buffer::spaces;
use crate::print::style::Style;
use crate::print::value::Item;
use crate::print::value::RenderCfg;
use crate::print::value::block_items;
use crate::print::value::block_rem;
use crate::print::value::block_tail;
use crate::print::value::block_text;
use crate::print::value::flow_items;
use crate::print::value::flow_items_width;
use crate::print::value::flow_tail;
use crate::print::value::flow_tail_width;
use crate::print::value::flow_text;
use crate::print::value::flow_width;
use crate::print::value::format_item;
use crate::print::value::lemma_add_empty;
use crate::print::value::lemma_block_rem_step;
use crate::print::value::lemma_pull3;
use crate::print::value::lemma_pull4;
use crate::print::value::rows_block_text;
use crate::print::value::rows_flow_text;
use crate::print::value::rows_flow_width;
use crate::print::value::rows_rendered;
use crate::print::value::shown_count;

verus! {

/// The opening brace of the streamed row list, with its display attributes.
pub open spec fn native_open(cfg: RenderCfg) -> Seq<char> {
    cfg.styled(Style::SetLiteral, seq!['{'])
}

/// The closing brace of the streamed row list, with its display attributes.
pub open spec fn native_close(cfg: RenderCfg) -> Seq<char> {
    cfg.styled(Style::SetLiteral, seq!['}'])
}

/// A join of `k` elements reads only the first `k` of them.
pub proof fn lemma_items_prefix(s: Seq<Item>, t: Seq<Item>, k: nat, d: nat, cfg: RenderCfg)
    requires
        k <= s.len(),
        k <= t.len(),
        s.take(k as int) == t.take(k as int),
    ensures
        flow_items(s, k, cfg) == flow_items(t, k, cfg),
        flow_items_width(s, k, cfg) == flow_items_width(t, k, cfg),
        block_items(s, k, d, true, cfg) == block_items(t, k, d, true, cfg),
        block_items(s, k, d, false, cfg) == block_items(t, k, d, false, cfg),
    decreases k,
{
    if k > 0 {
        assert(s.take(k as int)[0] == s[0]);
        assert(t.take(k as int)[0] == t[0]);
        assert(s[0] == t[0]);
        if k > 1 {
            assert forall|j: int| 0 <= j < k - 1 implies #[trigger] s.drop_first().take(
                k as int - 1,
            )[j] == t.drop_first().take(k as int - 1)[j] by {
                assert(s.take(k as int)[j + 1] == s[j + 1]);
                assert(t.take(k as int)[j + 1] == t[j + 1]);
            }
            assert(s.drop_first().take(k as int - 1) =~= t.drop_first().take(k as int - 1));
            lemma_items_prefix(s.drop_first(), t.drop_first(), (k - 1) as nat, d, cfg);
        } else {
            assert(flow_items(s, 1, cfg) == flow_text(s[0], cfg));
            assert(flow_items(t, 1, cfg) == flow_text(t[0], cfg));
            assert(block_items(s.drop_first(), 0, d, false, cfg) == Seq::<char>::empty());
            assert(block_items(t.drop_first(), 0, d, false, cfg) == Seq::<char>::empty());
        }
    }
}

/// Appending a row beyond the shown prefix leaves every join unchanged.
pub proof fn lemma_items_push(s: Seq<Item>, x: Item, k: nat, d: nat, cfg: RenderCfg)
    requires
        k <= s.len(),
    ensures
        flow_items(s.push(x), k, cfg) == flow_items(s, k, cfg),
        flow_items_width(s.push(x), k, cfg) == flow_items_width(s, k, cfg),
        block_items(s.push(x), k, d, true, cfg) == block_items(s, k, d, true, cfg),
{
    assert(s.push(x).take(k as int) =~= s.take(k as int));
    lemma_items_prefix(s.push(x), s, k, d, cfg);
}

/// Appending one more shown row extends the joins by that row's rendering.
pub proof fn lemma_items_snoc(s: Seq<Item>, x: Item, d: nat, cfg: RenderCfg)
    ensures
        flow_items(s.push(x), s.len() + 1, cfg) == flow_items(s, s.len(), cfg) + (if s.len() > 0 {
            seq![',', ' ']
        } else {
            Seq::<char>::empty()
        }) + flow_text(x, cfg),
        flow_items_width(s.push(x), s.len() + 1, cfg) == flow_items_width(s, s.len(), cfg) + (
        if s.len() > 0 {
            2nat
        } else {
            0nat
        }) + flow_width(x, cfg),
        block_items(s.push(x), s.len() + 1, d, true, cfg) == block_items(s, s.len(), d, true, cfg)
            + (if s.len() == 0 {
            seq!['\n']
        } else {
            seq![',', '\n']
        }) + spaces(sat_mul(d, cfg.indent)) + block_text(x, d, cfg),
    decreases s.len(),
{
    let sp = s.push(x);
    if s.len() == 0 {
        assert(sp[0] == x);
        assert(sp.drop_first() =~= Seq::<Item>::empty());
        assert(flow_items(sp, 1, cfg) == flow_text(x, cfg));
        assert(Seq::<char>::empty() + Seq::<char>::empty() + flow_text(x, cfg) =~= flow_text(
            x,
            cfg,
        ));
        assert(block_items(sp.drop_first(), 0, d, false, cfg) == Seq::<char>::empty());
        assert(block_items(sp, 1, d, true, cfg) == seq!['\n'] + spaces(sat_mul(d, cfg.indent))
            + block_text(x, d, cfg) + Seq::<char>::empty());
        lemma_add_empty(
            seq!['\n'] + spaces(sat_mul(d, cfg.indent)) + block_text(x, d, cfg),
        );
        assert(block_items(s, 0, d, true, cfg) == Seq::<char>::empty());
        assert(Seq::<char>::empty() + seq!['\n'] + spaces(sat_mul(d, cfg.indent)) + block_text(
            x,
            d,
            cfg,
        ) =~= seq!['\n'] + spaces(sat_mul(d, cfg.indent)) + block_text(x, d, cfg));
    } else {
        assert(sp[0] == s[0]);
        assert(sp.drop_first() =~= s.drop_first().push(x));
        lemma_items_snoc(s.drop_first(), x, d, cfg);
        let n0 = s.len();
        // flow text
        let t0 = flow_text(s[0], cfg);
        let sep = seq![',', ' '];
        let tailsep: Seq<char> = if s.drop_first().len() > 0 {
            seq![',', ' ']
        } else {
            Seq::<char>::empty()
        };
        assert(flow_items(sp, n0 + 1, cfg) == t0 + sep + flow_items(
            s.drop_first().push(x),
            n0,
            cfg,
        ));
        if n0 == 1 {
            assert(flow_items(s, 1, cfg) == t0);
            assert(flow_items(s.drop_first(), 0, cfg) == Seq::<char>::empty());
            assert(flow_items(s.drop_first().push(x), 1, cfg) == Seq::<char>::empty()
                + Seq::<char>::empty() + flow_text(x, cfg));
            assert(t0 + sep + (Seq::<char>::empty() + Seq::<char>::empty() + flow_text(x, cfg))
                =~= t0 + sep + flow_text(x, cfg));
            assert(flow_items(s, 1, cfg) + seq![',', ' '] + flow_text(x, cfg) =~= t0 + sep
                + flow_text(x, cfg));
        } else {
            assert(flow_items(s, n0, cfg) == t0 + sep + flow_items(
                s.drop_first(),
                (n0 - 1) as nat,
                cfg,
            ));
            assert(t0 + sep + (flow_items(s.drop_first(), (n0 - 1) as nat, cfg) + seq![',', ' ']
                + flow_text(x, cfg)) =~= (t0 + sep + flow_items(s.drop_first(), (n0 - 1) as nat,
            cfg)) + seq![',', ' '] + flow_text(x, cfg));
        }
        // block text
        let b0 = seq!['\n'] + spaces(sat_mul(d, cfg.indent)) + block_text(s[0], d, cfg);
        let bx = seq![',', '\n'] + spaces(sat_mul(d, cfg.indent)) + block_text(x, d, cfg);
        assert(block_items(sp, n0 + 1, d, true, cfg) == seq!['\n'] + spaces(
            sat_mul(d, cfg.indent),
        ) + block_text(s[0], d, cfg) + block_items(s.drop_first().push(x), n0, d, false, cfg));
        lemma_block_snoc_false(s.drop_first(), x, d, cfg);
        assert(block_items(s, n0, d, true, cfg) == seq!['\n'] + spaces(sat_mul(d, cfg.indent))
            + block_text(s[0], d, cfg) + block_items(s.drop_first(), (n0 - 1) as nat, d, false,
        cfg));
        assert(b0 + (block_items(s.drop_first(), (n0 - 1) as nat, d, false, cfg) + seq![',', '\n']
            + spaces(sat_mul(d, cfg.indent)) + block_text(x, d, cfg)) =~= (b0 + block_items(
            s.drop_first(),
            (n0 - 1) as nat,
            d,
            false,
            cfg,
        )) + seq![',', '\n'] + spaces(sat_mul(d, cfg.indent)) + block_text(x, d, cfg));
    }
}

/// Appending one more shown row to a non-first block join.
proof fn lemma_block_snoc_false(s: Seq<Item>, x: Item, d: nat, cfg: RenderCfg)
    ensures
        block_items(s.push(x), s.len() + 1, d, false, cfg) == block_items(s, s.len(), d, false,
        cfg) + seq![',', '\n'] + spaces(sat_mul(d, cfg.indent)) + block_text(x, d, cfg),
    decreases s.len(),
{
    let sp = s.push(x);
    if s.len() == 0 {
        assert(sp[0] == x);
        assert(sp.drop_first() =~= Seq::<Item>::empty());
        assert(block_items(sp.drop_first(), 0, d, false, cfg) == Seq::<char>::empty());
        assert(block_items(sp, 1, d, false, cfg) == seq![',', '\n'] + spaces(
            sat_mul(d, cfg.indent),
        ) + block_text(x, d, cfg) + Seq::<char>::empty());
        lemma_add_empty(
            seq![',', '\n'] + spaces(sat_mul(d, cfg.indent)) + block_text(x, d, cfg),
        );
        assert(Seq::<char>::empty() + seq![',', '\n'] + spaces(sat_mul(d, cfg.indent))
            + block_text(x, d, cfg) =~= seq![',', '\n'] + spaces(sat_mul(d, cfg.indent))
            + block_text(x, d, cfg));
    } else {
        assert(sp[0] == s[0]);
        assert(sp.drop_first() =~= s.drop_first().push(x));
        lemma_block_snoc_false(s.drop_first(), x, d, cfg);
        let b0 = seq![',', '\n'] + spaces(sat_mul(d, cfg.indent)) + block_text(s[0], d, cfg);
        assert(b0 + (block_items(s.drop_first(), (s.len() - 1) as nat, d, false, cfg) + seq![
            ',',
            '\n',
        ] + spaces(sat_mul(d, cfg.indent)) + block_text(x, d, cfg)) =~= (b0 + block_items(
            s.drop_first(),
            (s.len() - 1) as nat,
            d,
            false,
            cfg,
        )) + seq![',', '\n'] + spaces(sat_mul(d, cfg.indent)) + block_text(x, d, cfg));
    }
}

/// The one-line width of the shown rows never shrinks as rows arrive.
pub proof fn lemma_rows_width_push(s: Seq<Item>, x: Item, cfg: RenderCfg)
    ensures
        ({
            let k0 = shown_count(s.len(), cfg.max_items);
            let e0 = k0 < s.len();
            let k1 = shown_count(s.len() + 1, cfg.max_items);
            let e1 = k1 < s.len() + 1;
            rows_flow_width(s.push(x), k1, e1, cfg) >= rows_flow_width(s, k0, e0, cfg)
        }),
{
    let k0 = shown_count(s.len(), cfg.max_items);
    let e0 = k0 < s.len();
    let k1 = shown_count(s.len() + 1, cfg.max_items);
    let e1 = k1 < s.len() + 1;
    if k1 == k0 {
        lemma_items_push(s, x, k0, 1, cfg);
    } else {
        assert(k1 == k0 + 1 && k0 == s.len() && !e0);
        lemma_items_snoc(s, x, 1, cfg);
    }
}

/// Where the driver stands in the two-phase protocol.
#[derive(Clone, Copy, PartialEq, Eq, Structural, Debug)]
pub enum Phase {
    /// Buffering rows while the single-line attempt is alive.
    Flowing,
    /// The item cap was reached on the single line; remaining rows are
    /// consumed without rendering.
    FlowDrain,
    /// Block layout after a fallback; rows render directly, unbuffered.
    Block,
    /// The item cap was reached in block layout; remaining rows are
    /// consumed without rendering.
    BlockDrain,
}

/// Drives one streamed render: rows are pushed in source order, and
/// [`RowsDriver::finish`] yields the complete text once the source is
/// exhausted.
pub struct RowsDriver {
    pub prn: Printer,
    pub row_buf: Vec<Item>,
    pub phase: Phase,
    pub count: usize,
    pub recv_log: Ghost<Seq<Item>>,
}

impl RowsDriver {
    /// Every row received so far, in source order.
    pub open spec fn received(&self) -> Seq<Item> {
        self.recv_log@
    }

    /// The rendering configuration fixed at construction.
    pub open spec fn cfg(&self) -> RenderCfg {
        self.prn.rcfg()
    }

    /// The width limit fixed at construction.
    pub open spec fn width_limit(&self) -> nat {
        self.prn.max_width as nat
    }

    /// Evidence that the one-line layout of the received rows exceeds the
    /// width, so the block layout is final.
    pub open spec fn over_evidence(&self) -> bool {
        let recv = self.recv_log@;
        let cfg = self.prn.rcfg();
        let k = shown_count(recv.len(), cfg.max_items);
        rows_flow_width(recv, k, k < recv.len(), cfg) > self.prn.max_width
    }

    /// The driver's protocol invariant: the printer buffer holds exactly
    /// the rendering of the received rows appropriate to the phase.
    pub open spec fn wf(&self) -> bool {
        let recv = self.recv_log@;
        let cfg = self.prn.rcfg();
        let sopen = native_open(cfg);
        let k = shown_count(recv.len(), cfg.max_items);
        &&& self.prn.wf()
        &&& self.prn.cur_indent == 1
        &&& match self.phase {
            Phase::Flowing => {
                &&& self.prn.flow
                &&& self.row_buf@ == recv
                &&& match cfg.max_items {
                    Option::Some(m) => recv.len() <= m,
                    Option::None => true,
                }
                &&& self.prn.delim == (if recv.len() == 0 {
                    Delim::Open
                } else {
                    Delim::Comma
                })
                &&& self.prn.committed == 0
                &&& self.prn.committed_column == 0
                &&& self.prn.committed_indent == 0
                &&& self.prn.buffer@ == sopen + flow_items(recv, recv.len(), cfg)
                &&& self.prn.column == 1 + flow_items_width(recv, recv.len(), cfg)
            },
            Phase::FlowDrain => {
                &&& self.prn.flow
                &&& k < recv.len()
                &&& match cfg.max_items {
                    Option::Some(m) => recv.len() > m && k == m,
                    Option::None => false,
                }
                &&& self.row_buf@.len() > k
                &&& self.row_buf@.len() <= recv.len()
                &&& self.row_buf@ == recv.take(self.row_buf@.len() as int)
                &&& self.prn.delim == Delim::Clear
                &&& self.prn.committed == 0
                &&& self.prn.committed_column == 0
                &&& self.prn.committed_indent == 0
                &&& self.prn.buffer@ == sopen + flow_items(recv, k, cfg) + flow_tail(
                    k,
                    true,
                    cfg,
                )
                &&& self.prn.column == 1 + flow_items_width(recv, k, cfg) + flow_tail_width(
                    k,
                    true,
                    cfg,
                )
            },
            Phase::Block => {
                &&& !self.prn.flow
                &&& self.prn.fallback
                &&& self.count as nat == recv.len()
                &&& match cfg.max_items {
                    Option::Some(m) => recv.len() <= m,
                    Option::None => true,
                }
                &&& self.prn.delim == (if recv.len() == 0 {
                    Delim::Open
                } else {
                    Delim::Comma
                })
                &&& self.prn.buffer@ == sopen + block_items(recv, recv.len(), 1, true, cfg)
                &&& self.over_evidence()
            },
            Phase::BlockDrain => {
                &&& !self.prn.flow
                &&& self.prn.fallback
                &&& k < recv.len()
                &&& self.prn.delim == Delim::Clear
                &&& self.prn.buffer@ == sopen + block_items(recv, k, 1, true, cfg) + block_tail(
                    k,
                    true,
                    sat_mul(1, cfg.indent),
                    cfg,
                )
                &&& self.over_evidence()
            },
        }
    }

    /// Start a streamed render: the opening brace is emitted and the
    /// single-line attempt begins.
    #[verifier::rlimit(100)]
    #[verifier::spinoff_prover]
    pub fn new(config: &Config, max_width: usize, colors: bool) -> (d: RowsDriver)
        ensures
            d.wf(),
            d.received() == Seq::<Item>::empty(),
            d.cfg() == config.rcfg_with(colors, true),
            d.width_limit() == max_width as nat,
    {
        let mut prn = Printer::start(config, max_width, colors, true);
        let ghost cfg = prn.rcfg();
        let mut open_text: Vec<char> = Vec::new();
        open_text.push('{');
        let piece = prn.styler.apply(Style::SetLiteral, open_text);
        proof {
            assert(piece.text@ =~= seq!['{']);
            assert(piece.emitted(prn.colors) =~= native_open(cfg));
        }
        match prn.open_block(&piece) {
            Ok(_) => {
                proof {
                    lemma_add_empty(Seq::<char>::empty() + native_open(cfg));
                    assert(Seq::<char>::empty() + flow_lead(Delim::Clear) =~= Seq::<
                        char,
                    >::empty());
                    assert(prn.buffer@ =~= native_open(cfg) + flow_items(
                        Seq::<Item>::empty(),
                        0,
                        cfg,
                    ));
                }
                RowsDriver {
                    prn,
                    row_buf: Vec::new(),
                    phase: Phase::Flowing,
                    count: 0,
                    recv_log: Ghost(Seq::empty()),
                }
            },
            Err(_) => {
                // The opening brace alone exceeds the width: go straight to
                // block layout.
                match prn.reopen_block(&piece) {
                    Err(_) => {
                        proof {
                            assert(false);
                        }
                        RowsDriver {
                            prn,
                            row_buf: Vec::new(),
                            phase: Phase::Block,
                            count: 0,
                            recv_log: Ghost(Seq::empty()),
                        }
                    },
                    Ok(_) => {
                        proof {
                            assert(prn.buffer@ =~= native_open(cfg) + block_items(
                                Seq::<Item>::empty(),
                                0,
                                1,
                                true,
                                cfg,
                            ));
                            assert(rows_flow_width(Seq::<Item>::empty(), 0, false, cfg) == 2);
                        }
                        RowsDriver {
                            prn,
                            row_buf: Vec::new(),
                            phase: Phase::Block,
                            count: 0,
                            recv_log: Ghost(Seq::empty()),
                        }
                    },
                }
            },
        }
    }

    /// Replay the buffered rows in block layout after a fallback discarded
    /// the speculative single line.
    #[verifier::rlimit(100)]
    #[verifier::spinoff_prover]
    fn replay(&mut self)
        requires
            old(self).prn.wf(),
            !old(self).prn.flow,
            old(self).prn.fallback,
            old(self).prn.buffer@.len() == 0,
            old(self).prn.committed == 0,
            old(self).prn.committed_column == 0,
            old(self).prn.committed_indent == 0,
            old(self).prn.column == 0,
            old(self).prn.cur_indent == 0,
            old(self).prn.delim == Delim::Clear,
            old(self).row_buf@ == old(self).recv_log@,
            old(self).over_evidence(),
        ensures
            final(self).wf(),
            final(self).recv_log@ == old(self).recv_log@,
            final(self).prn.rcfg() == old(self).prn.rcfg(),
            final(self).prn.max_width == old(self).prn.max_width,
            final(self).phase == Phase::Block || final(self).phase == Phase::BlockDrain,
    {
        let ghost recv = self.recv_log@;
        let ghost cfg = self.prn.rcfg();
        let ghost sopen = native_open(cfg);
        let ghost pre = self.prn;

        let n = self.row_buf.len();
        let k: usize = match self.prn.max_items {
            Option::Some(m) => if n <= m {
                n
            } else {
                m
            },
            Option::None => n,
        };
        let ghost ell = (k as nat) < recv.len();
        let ghost bitems = block_items(recv, k as nat, 1, true, cfg);
        let ghost btarget = sopen + bitems;

        let mut open_text: Vec<char> = Vec::new();
        open_text.push('{');
        let piece = self.prn.styler.apply(Style::SetLiteral, open_text);
        proof {
            assert(piece.text@ =~= seq!['{']);
            assert(piece.emitted(self.prn.colors) =~= sopen);
        }
        match self.prn.reopen_block(&piece) {
            Err(_) => {
                proof {
                    assert(false);
                }
            },
            Ok(_) => {},
        }
        proof {
            lemma_add_empty(pre.buffer@);
            assert(self.prn.buffer@ == pre.buffer@ + sopen);
            assert(pre.buffer@ + sopen =~= sopen);
            assert(recv.skip(0) =~= recv);
            if k == 0 {
                assert(bitems == Seq::<char>::empty());
                assert(block_rem(recv, 0nat, k as nat, 1, cfg) == Seq::<char>::empty());
                lemma_add_empty(sopen);
            } else {
                assert(block_rem(recv, 0nat, k as nat, 1, cfg) == bitems);
            }
            assert(self.prn.buffer@ + block_rem(recv, 0nat, k as nat, 1, cfg) == btarget);
        }

        let mut j: usize = 0;
        while j < k
            invariant
                self.prn.wf(),
                pre.cfg_like(&self.prn),
                self.prn.rcfg() == cfg,
                j <= k,
                k <= n,
                n == self.row_buf@.len(),
                self.row_buf@ == recv,
                recv == self.recv_log@,
                k as nat == shown_count(recv.len(), cfg.max_items),
                ell == ((k as nat) < recv.len()),
                cfg == pre.rcfg(),
                sopen == native_open(cfg),
                bitems == block_items(recv, k as nat, 1, true, cfg),
                btarget == sopen + bitems,
                self.prn.cur_indent == 1,
                !self.prn.flow,
                self.prn.fallback,
                self.prn.delim == (if j == 0 {
                    Delim::Open
                } else {
                    Delim::Comma
                }),
                self.prn.buffer@ + block_rem(recv, j as nat, k as nat, 1, cfg) == btarget,
            decreases k - j,
        {
            let ghost at = self.prn;
            proof {
                lemma_block_rem_step(recv, j as nat, k as nat, 1, cfg);
            }
            match format_item(&mut self.prn, &self.row_buf[j]) {
                Err(_) => {
                    proof {
                        assert(false);
                    }
                },
                Ok(_) => {},
            }
            match self.prn.comma() {
                Err(_) => {
                    proof {
                        assert(false);
                    }
                },
                Ok(_) => {},
            }
            proof {
                assert(self.prn.rcfg() =~= cfg);
                let ghost bx = block_text(recv[j as int], 1, cfg);
                let ghost bremn = block_rem(recv, j as nat + 1, k as nat, 1, cfg);
                assert(self.prn.buffer@ == at.buffer@ + block_lead(at.delim, at.ind_chars())
                    + bx);
                assert(at.ind_chars() == sat_mul(1, cfg.indent));
                lemma_pull4(at.buffer@, block_lead(at.delim, at.ind_chars()), bx, bremn);
                assert(block_lead(at.delim, at.ind_chars()) + bx + bremn == block_rem(
                    recv,
                    j as nat,
                    k as nat,
                    1,
                    cfg,
                ));
                assert(self.prn.buffer@ + bremn == btarget);
            }
            j = j + 1;
        }
        proof {
            lemma_add_empty(self.prn.buffer@);
            assert(self.prn.buffer@ == btarget);
        }

        if k < n {
            let ghost at_tail = self.prn;
            match self.prn.ellipsis() {
                Err(_) => {
                    proof {
                        assert(false);
                    }
                },
                Ok(_) => {},
            }
            proof {
                let ghost dots = seq!['.', '.', '.'];
                assert(self.prn.buffer@ == at_tail.buffer@ + block_lead(
                    at_tail.delim,
                    at_tail.ind_chars(),
                ) + dots);
                lemma_pull3(
                    at_tail.buffer@,
                    block_lead(at_tail.delim, at_tail.ind_chars()),
                    dots,
                );
                assert(at_tail.ind_chars() == sat_mul(1, cfg.indent));
                assert(block_lead(at_tail.delim, at_tail.ind_chars()) + dots == block_tail(
                    k as nat,
                    true,
                    sat_mul(1, cfg.indent),
                    cfg,
                ));
                assert(self.prn.buffer@ == btarget + block_tail(
                    k as nat,
                    true,
                    sat_mul(1, cfg.indent),
                    cfg,
                ));
            }
            self.phase = Phase::BlockDrain;
        } else {
            self.phase = Phase::Block;
        }
        self.count = k;
    }
}

impl RowsDriver {
    /// Accept the next row from the source.  The driver never refuses a
    /// row: past the item cap it consumes and discards, which is what keeps
    /// the source fully drained.
    #[verifier::rlimit(100)]
    #[verifier::spinoff_prover]
    pub fn push(&mut self, item: Item)
        requires
            old(self).wf(),
            old(self).recv_log@.len() < usize::MAX,
        ensures
            final(self).wf(),
            final(self).recv_log@ == old(self).recv_log@.push(item),
            final(self).prn.rcfg() == old(self).prn.rcfg(),
            final(self).prn.max_width == old(self).prn.max_width,
    {
        let ghost recv0 = self.recv_log@;
        let ghost cfg = self.prn.rcfg();
        let ghost sopen = native_open(cfg);
        let ghost x = item;
        let ghost recv1 = recv0.push(x);
        proof {
            lemma_rows_width_push(recv0, x, cfg);
        }
        match self.phase {
            Phase::Flowing => {
                let limit_hit = match self.prn.max_items {
                    Option::Some(m) => self.row_buf.len() >= m,
                    Option::None => false,
                };
                if limit_hit {
                    self.row_buf.push(item);
                    self.recv_log = Ghost(recv1);
                    let ghost m = shown_count(recv1.len(), cfg.max_items);
                    proof {
                        assert(m == recv0.len());
                        lemma_items_push(recv0, x, m, 1, cfg);
                    }
                    let ghost at = self.prn;
                    match self.prn.ellipsis() {
                        Ok(_) => {
                            proof {
                                let ghost dots = seq!['.', '.', '.'];
                                assert(self.prn.buffer@ == at.buffer@ + flow_lead(at.delim)
                                    + dots);
                                lemma_pull3(at.buffer@, flow_lead(at.delim), dots);
                                assert(flow_lead(at.delim) + dots == flow_tail(m, true, cfg));
                                assert(at.buffer@ == sopen + flow_items(recv1, m, cfg));
                                assert(self.prn.buffer@ == sopen + flow_items(recv1, m, cfg)
                                    + flow_tail(m, true, cfg));
                                assert(self.row_buf@ =~= recv1.take(self.row_buf@.len() as int));
                            }
                            self.phase = Phase::FlowDrain;
                        },
                        Err(_) => {
                            proof {
                                assert(at.column + flow_lead_width(at.delim) + 3
                                    > at.max_width);
                                assert(flow_tail_width(m, true, cfg) == flow_lead_width(at.delim)
                                    + 3);
                                assert(rows_flow_width(recv1, m, true, cfg) > self.prn.max_width);
                                assert(self.row_buf@ =~= recv1);
                            }
                            self.replay();
                        },
                    }
                } else {
                    let ghost at = self.prn;
                    match format_item(&mut self.prn, &item) {
                        Ok(_) => {
                            match self.prn.comma() {
                                Err(_) => {
                                    proof {
                                        assert(false);
                                    }
                                },
                                Ok(_) => {},
                            }
                            self.row_buf.push(item);
                            self.recv_log = Ghost(recv1);
                            proof {
                                lemma_items_snoc(recv0, x, 1, cfg);
                                let ghost fx = flow_text(x, cfg);
                                let ghost sep = flow_lead(at.delim);
                                assert(self.prn.buffer@ == at.buffer@ + sep + fx);
                                lemma_pull3(at.buffer@, sep, fx);
                                assert(at.buffer@ == sopen + flow_items(
                                    recv0,
                                    recv0.len(),
                                    cfg,
                                ));
                                lemma_pull3(
                                    sopen,
                                    flow_items(recv0, recv0.len(), cfg),
                                    sep + fx,
                                );
                                assert(flow_items(recv0, recv0.len(), cfg) + (sep + fx)
                                    =~= flow_items(recv0, recv0.len(), cfg) + sep + fx);
                                assert(self.prn.buffer@ == sopen + flow_items(
                                    recv1,
                                    recv1.len(),
                                    cfg,
                                ));
                            }
                        },
                        Err(_) => {
                            self.row_buf.push(item);
                            self.recv_log = Ghost(recv1);
                            proof {
                                lemma_items_snoc(recv0, x, 1, cfg);
                                assert(at.column + flow_lead_width(at.delim) + flow_width(x, cfg)
                                    > at.max_width);
                                let ghost k1 = shown_count(recv1.len(), cfg.max_items);
                                assert(k1 == recv1.len());
                                assert(flow_items_width(recv1, k1, cfg) == flow_items_width(
                                    recv0,
                                    recv0.len(),
                                    cfg,
                                ) + flow_lead_width(at.delim) + flow_width(x, cfg));
                                assert(rows_flow_width(recv1, k1, false, cfg)
                                    > self.prn.max_width);
                                assert(self.row_buf@ =~= recv1);
                            }
                            self.replay();
                        },
                    }
                }
            },
            Phase::FlowDrain => {
                self.recv_log = Ghost(recv1);
                proof {
                    let ghost k = shown_count(recv0.len(), cfg.max_items);
                    lemma_items_push(recv0, x, k, 1, cfg);
                    assert(shown_count(recv1.len(), cfg.max_items) == k);
                    assert(self.row_buf@ =~= recv1.take(self.row_buf@.len() as int));
                }
            },
            Phase::Block => {
                let limit_hit = match self.prn.max_items {
                    Option::Some(m) => self.count >= m,
                    Option::None => false,
                };
                self.recv_log = Ghost(recv1);
                if limit_hit {
                    let ghost m = shown_count(recv1.len(), cfg.max_items);
                    proof {
                        assert(m == recv0.len());
                        lemma_items_push(recv0, x, m, 1, cfg);
                    }
                    let ghost at = self.prn;
                    match self.prn.ellipsis() {
                        Err(_) => {
                            proof {
                                assert(false);
                            }
                        },
                        Ok(_) => {},
                    }
                    proof {
                        let ghost dots = seq!['.', '.', '.'];
                        assert(self.prn.buffer@ == at.buffer@ + block_lead(
                            at.delim,
                            at.ind_chars(),
                        ) + dots);
                        lemma_pull3(at.buffer@, block_lead(at.delim, at.ind_chars()), dots);
                        assert(at.ind_chars() == sat_mul(1, cfg.indent));
                        assert(block_lead(at.delim, at.ind_chars()) + dots == block_tail(
                            m,
                            true,
                            sat_mul(1, cfg.indent),
                            cfg,
                        ));
                        assert(at.buffer@ == sopen + block_items(recv1, m, 1, true, cfg));
                    }
                    self.phase = Phase::BlockDrain;
                } else {
                    let ghost at = self.prn;
                    match format_item(&mut self.prn, &item) {
                        Err(_) => {
                            proof {
                                assert(false);
                            }
                        },
                        Ok(_) => {},
                    }
                    match self.prn.comma() {
                        Err(_) => {
                            proof {
                                assert(false);
                            }
                        },
                        Ok(_) => {},
                    }
                    self.count = self.count + 1;
                    proof {
                        lemma_items_snoc(recv0, x, 1, cfg);
                        let ghost bx = block_text(x, 1, cfg);
                        let ghost bl = block_lead(at.delim, at.ind_chars());
                        assert(self.prn.buffer@ == at.buffer@ + bl + bx);
                        lemma_pull3(at.buffer@, bl, bx);
                        assert(at.ind_chars() == sat_mul(1, cfg.indent));
                        assert(at.buffer@ == sopen + block_items(
                            recv0,
                            recv0.len(),
                            1,
                            true,
                            cfg,
                        ));
                        lemma_pull3(
                            sopen,
                            block_items(recv0, recv0.len(), 1, true, cfg),
                            bl + bx,
                        );
                        assert(block_items(recv0, recv0.len(), 1, true, cfg) + (bl + bx)
                            =~= block_items(recv0, recv0.len(), 1, true, cfg) + bl + bx);
                        assert(bl == (if recv0.len() == 0 {
                            seq!['\n']
                        } else {
                            seq![',', '\n']
                        }) + spaces(sat_mul(1, cfg.indent)));
                        assert(block_items(recv0, recv0.len(), 1, true, cfg) + bl + bx
                            =~= block_items(recv0, recv0.len(), 1, true, cfg) + (if recv0.len()
                            == 0 {
                            seq!['\n']
                        } else {
                            seq![',', '\n']
                        }) + spaces(sat_mul(1, cfg.indent)) + bx);
                        assert(self.prn.buffer@ == sopen + block_items(
                            recv1,
                            recv1.len(),
                            1,
                            true,
                            cfg,
                        ));
                    }
                }
            },
            Phase::BlockDrain => {
                self.recv_log = Ghost(recv1);
                proof {
                    let ghost k = shown_count(recv0.len(), cfg.max_items);
                    lemma_items_push(recv0, x, k, 1, cfg);
                    assert(shown_count(recv1.len(), cfg.max_items) == k);
                }
            },
        }
    }

    /// The source is exhausted: close the outer block and hand the final
    /// text out.  The single line is returned exactly when its display
    /// width fits the limit; otherwise the block layout is, replaying the
    /// buffered prefix if the overflow only shows at the closing brace.
    #[verifier::rlimit(100)]
    #[verifier::spinoff_prover]
    pub fn finish(self) -> (r: String)
        requires
            self.wf(),
        ensures
            r@ == rows_rendered(
                self.recv_log@,
                self.prn.rcfg(),
                self.prn.max_width as nat,
                native_open(self.prn.rcfg()),
                native_close(self.prn.rcfg()),
            ),
    {
        let ghost phase0 = self.phase;
        let mut this = self;
        let ghost recv = this.recv_log@;
        let ghost cfg = this.prn.rcfg();
        let ghost sopen = native_open(cfg);
        let ghost sclose = native_close(cfg);
        let ghost k = shown_count(recv.len(), cfg.max_items);
        let ghost ell = k < recv.len();

        let mut close_text: Vec<char> = Vec::new();
        close_text.push('}');
        let close_piece = this.prn.styler.apply(Style::SetLiteral, close_text);
        proof {
            assert(close_piece.text@ =~= seq!['}']);
            assert(close_piece.emitted(this.prn.colors) =~= sclose);
        }

        let in_flow = match this.phase {
            Phase::Flowing => true,
            Phase::FlowDrain => true,
            _ => false,
        };
        if in_flow {
            let ghost at = this.prn;
            match this.prn.close_block(&close_piece, true) {
                Ok(_) => {
                    proof {
                        let ghost sep: Seq<char> = if at.close_sep(true) {
                            seq![',']
                        } else {
                            Seq::empty()
                        };
                        assert(this.prn.buffer@ == at.buffer@ + sep + sclose);
                        match phase0 {
                            Phase::Flowing => {
                                assert(k == recv.len() && !ell);
                                assert(sep == flow_tail(k, false, cfg));
                                assert(this.prn.buffer@ == sopen + flow_items(recv, k, cfg) + sep
                                    + sclose);
                                lemma_pull4(sopen, flow_items(recv, k, cfg), sep, sclose);
                                assert(sopen + (flow_items(recv, k, cfg) + sep + sclose)
                                    =~= sopen + flow_items(recv, k, cfg) + flow_tail(
                                    k,
                                    false,
                                    cfg,
                                ) + sclose);
                                assert(this.prn.column == rows_flow_width(recv, k, false, cfg));
                                assert(rows_flow_width(recv, k, ell, cfg)
                                    <= this.prn.max_width);
                            },
                            Phase::FlowDrain => {
                                assert(ell);
                                assert(sep == Seq::<char>::empty());
                                lemma_add_empty(at.buffer@);
                                assert(this.prn.buffer@ == sopen + flow_items(recv, k, cfg)
                                    + flow_tail(k, true, cfg) + sclose);
                                assert(this.prn.column == rows_flow_width(recv, k, true, cfg));
                                assert(rows_flow_width(recv, k, ell, cfg)
                                    <= this.prn.max_width);
                            },
                            _ => {},
                        }
                        assert(this.prn.buffer@ == rows_flow_text(recv, k, ell, cfg, sopen,
                        sclose));
                    }
                    return this.prn.end();
                },
                Err(_) => {
                    proof {
                        let ghost sep: Seq<char> = if at.close_sep(true) {
                            seq![',']
                        } else {
                            Seq::empty()
                        };
                        match phase0 {
                            Phase::Flowing => {
                                assert(k == recv.len() && !ell);
                                assert(sep.len() == flow_tail_width(k, false, cfg));
                                assert(rows_flow_width(recv, k, ell, cfg) > this.prn.max_width);
                                assert(this.row_buf@ =~= recv);
                            },
                            Phase::FlowDrain => {
                                assert(sep == Seq::<char>::empty());
                                assert(rows_flow_width(recv, k, ell, cfg) > this.prn.max_width);
                            },
                            _ => {},
                        }
                    }
                    let still_buffered = match this.phase {
                        Phase::Flowing => true,
                        _ => false,
                    };
                    if still_buffered {
                        this.replay();
                    } else {
                        // The buffered prefix covers the shown rows; replay
                        // it and re-emit the truncation marker.
                        this.replay_truncated();
                    }
                },
            }
        }

        // Block layout: the closing brace goes on its own line (or directly
        // after the opening brace when nothing rendered).
        let ghost at2 = this.prn;
        match this.prn.close_block(&close_piece, true) {
            Err(_) => {
                proof {
                    assert(false);
                }
            },
            Ok(_) => {},
        }
        proof {
            let ghost sep: Seq<char> = if at2.close_sep(true) {
                seq![',']
            } else {
                Seq::empty()
            };
            let ghost nl = seq!['\n'];
            let ghost iw_out = sat_mul(0, cfg.indent);
            assert(sat_mul((at2.cur_indent - 1) as nat, cfg.indent) == iw_out);
            match this.phase {
                Phase::Block => {
                    assert(k == recv.len() && !ell);
                    if this.count == 0 {
                        assert(at2.delim == Delim::Open);
                        assert(this.prn.buffer@ == at2.buffer@ + sclose);
                        assert(block_items(recv, 0, 1, true, cfg) == Seq::<char>::empty());
                        lemma_add_empty(sopen);
                        assert(at2.buffer@ == sopen);
                        assert(this.prn.buffer@ == rows_block_text(recv, k, ell, cfg, sopen,
                        sclose));
                    } else {
                        assert(at2.delim == Delim::Comma);
                        assert(sep == block_tail(k, false, sat_mul(1, cfg.indent), cfg));
                        assert(this.prn.buffer@ == at2.buffer@ + sep + nl + spaces(iw_out)
                            + sclose);
                        assert(this.prn.buffer@ == sopen + block_items(recv, k, 1, true, cfg)
                            + sep + nl + spaces(iw_out) + sclose);
                        assert(this.prn.buffer@ == rows_block_text(recv, k, ell, cfg, sopen,
                        sclose));
                    }
                },
                Phase::BlockDrain => {
                    assert(ell);
                    assert(at2.delim == Delim::Clear);
                    assert(sep == Seq::<char>::empty());
                    assert(this.prn.buffer@ == at2.buffer@ + sep + nl + spaces(iw_out) + sclose);
                    lemma_add_empty(at2.buffer@);
                    assert(this.prn.buffer@ == sopen + block_items(recv, k, 1, true, cfg)
                        + block_tail(k, true, sat_mul(1, cfg.indent), cfg) + nl + spaces(iw_out)
                        + sclose);
                    assert(this.prn.buffer@ == rows_block_text(recv, k, ell, cfg, sopen,
                    sclose));
                },
                _ => {
                    assert(false);
                },
            }
            assert(rows_flow_width(recv, k, ell, cfg) > this.prn.max_width);
        }
        this.prn.end()
    }

    /// Replay the buffered prefix in block layout after the single-line
    /// attempt failed beyond the item cap: the shown rows, then the
    /// truncation marker.
    #[verifier::rlimit(100)]
    #[verifier::spinoff_prover]
    fn replay_truncated(&mut self)
        requires
            old(self).prn.wf(),
            !old(self).prn.flow,
            old(self).prn.fallback,
            old(self).prn.buffer@.len() == 0,
            old(self).prn.committed == 0,
            old(self).prn.committed_column == 0,
            old(self).prn.committed_indent == 0,
            old(self).prn.column == 0,
            old(self).prn.cur_indent == 0,
            old(self).prn.delim == Delim::Clear,
            ({
                let recv = old(self).recv_log@;
                let cfg = old(self).prn.rcfg();
                let k = shown_count(recv.len(), cfg.max_items);
                &&& k < recv.len()
                &&& match cfg.max_items {
                    Option::Some(m) => recv.len() > m && k == m,
                    Option::None => false,
                }
                &&& old(self).row_buf@.len() > k
                &&& old(self).row_buf@.len() <= recv.len()
                &&& old(self).row_buf@ == recv.take(old(self).row_buf@.len() as int)
            }),
            old(self).over_evidence(),
        ensures
            final(self).wf(),
            final(self).recv_log@ == old(self).recv_log@,
            final(self).prn.rcfg() == old(self).prn.rcfg(),
            final(self).prn.max_width == old(self).prn.max_width,
            final(self).phase == Phase::BlockDrain,
    {
        let ghost recv = self.recv_log@;
        let ghost cfg = self.prn.rcfg();
        let ghost sopen = native_open(cfg);
        let ghost pre = self.prn;
        let ghost k_spec = shown_count(recv.len(), cfg.max_items);

        let n = self.row_buf.len();
        let k: usize = match self.prn.max_items {
            Option::Some(m) => if n <= m {
                n
            } else {
                m
            },
            Option::None => n,
        };
        proof {
            assert(k as nat == k_spec);
            assert(self.row_buf@.take(k as int) =~= recv.take(k as int));
            lemma_items_prefix(self.row_buf@, recv, k as nat, 1, cfg);
        }
        let ghost bitems = block_items(recv, k as nat, 1, true, cfg);
        let ghost btarget = sopen + bitems;

        let mut open_text: Vec<char> = Vec::new();
        open_text.push('{');
        let piece = self.prn.styler.apply(Style::SetLiteral, open_text);
        proof {
            assert(piece.text@ =~= seq!['{']);
            assert(piece.emitted(self.prn.colors) =~= sopen);
        }
        match self.prn.reopen_block(&piece) {
            Err(_) => {
                proof {
                    assert(false);
                }
            },
            Ok(_) => {},
        }
        proof {
            lemma_add_empty(pre.buffer@);
            assert(self.prn.buffer@ == pre.buffer@ + sopen);
            assert(pre.buffer@ + sopen =~= sopen);
            assert(recv.skip(0) =~= recv);
            if k == 0 {
                assert(bitems == Seq::<char>::empty());
                assert(block_rem(recv, 0nat, k as nat, 1, cfg) == Seq::<char>::empty());
                lemma_add_empty(sopen);
            } else {
                assert(block_rem(recv, 0nat, k as nat, 1, cfg) == bitems);
            }
            assert(self.prn.buffer@ + block_rem(recv, 0nat, k as nat, 1, cfg) == btarget);
        }

        let mut j: usize = 0;
        while j < k
            invariant
                self.prn.wf(),
                pre.cfg_like(&self.prn),
                self.prn.rcfg() == cfg,
                j <= k,
                k <= n,
                n == self.row_buf@.len(),
                n <= recv.len(),
                self.row_buf@ == recv.take(n as int),
                recv == self.recv_log@,
                k as nat == shown_count(recv.len(), cfg.max_items),
                cfg == pre.rcfg(),
                sopen == native_open(cfg),
                bitems == block_items(recv, k as nat, 1, true, cfg),
                btarget == sopen + bitems,
                self.prn.cur_indent == 1,
                !self.prn.flow,
                self.prn.fallback,
                self.prn.delim == (if j == 0 {
                    Delim::Open
                } else {
                    Delim::Comma
                }),
                self.prn.buffer@ + block_rem(recv, j as nat, k as nat, 1, cfg) == btarget,
            decreases k - j,
        {
            let ghost at = self.prn;
            proof {
                lemma_block_rem_step(recv, j as nat, k as nat, 1, cfg);
                assert(self.row_buf@[j as int] == recv[j as int]);
            }
            match format_item(&mut self.prn, &self.row_buf[j]) {
                Err(_) => {
                    proof {
                        assert(false);
                    }
                },
                Ok(_) => {},
            }
            match self.prn.comma() {
                Err(_) => {
                    proof {
                        assert(false);
                    }
                },
                Ok(_) => {},
            }
            proof {
                assert(self.prn.rcfg() =~= cfg);
                let ghost bx = block_text(recv[j as int], 1, cfg);
                let ghost bremn = block_rem(recv, j as nat + 1, k as nat, 1, cfg);
                assert(self.prn.buffer@ == at.buffer@ + block_lead(at.delim, at.ind_chars())
                    + bx);
                assert(at.ind_chars() == sat_mul(1, cfg.indent));
                lemma_pull4(at.buffer@, block_lead(at.delim, at.ind_chars()), bx, bremn);
                assert(block_lead(at.delim, at.ind_chars()) + bx + bremn == block_rem(
                    recv,
                    j as nat,
                    k as nat,
                    1,
                    cfg,
                ));
                assert(self.prn.buffer@ + bremn == btarget);
            }
            j = j + 1;
        }
        proof {
            lemma_add_empty(self.prn.buffer@);
            assert(self.prn.buffer@ == btarget);
        }

        let ghost at_tail = self.prn;
        match self.prn.ellipsis() {
            Err(_) => {
                proof {
                    assert(false);
                }
            },
            Ok(_) => {},
        }
        proof {
            let ghost dots = seq!['.', '.', '.'];
            assert(self.prn.buffer@ == at_tail.buffer@ + block_lead(
                at_tail.delim,
                at_tail.ind_chars(),
            ) + dots);
            lemma_pull3(at_tail.buffer@, block_lead(at_tail.delim, at_tail.ind_chars()), dots);
            assert(at_tail.ind_chars() == sat_mul(1, cfg.indent));
            assert(block_lead(at_tail.delim, at_tail.ind_chars()) + dots == block_tail(
                k as nat,
                true,
                sat_mul(1, cfg.indent),
                cfg,
            ));
            assert(self.prn.buffer@ == btarget + block_tail(
                k as nat,
                true,
                sat_mul(1, cfg.indent),
                cfg,
            ));
        }
        self.phase = Phase::BlockDrain;
        self.count = k;
    }
}

} // verus!
