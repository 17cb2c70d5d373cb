//! The printer's guarantees, stated and proved once over the reference
//! layouts.  The render entry points promise their output equals
//! [`rows_rendered`], so each law transfers to every render.

use vstd::prelude::*;

use crate::print::stream::lemma_items_prefix;
use crate::print::value::Item;
use crate::print::value::RenderCfg;
use crate::print::value::flow_items;
use crate::print::value::flow_tail;
use crate::print::value::rows_block_text;
use crate::print::value::rows_flow_text;
use crate::print::value::rows_flow_width;
use crate::print::value::rows_rendered;
use crate::print::value::shown_count;

verus! {

/// A row list whose one-line rendering fits the width limit renders as
/// exactly that single line: brackets, rows and separators, nothing else.
pub proof fn lemma_fits_renders_flow(
    items: Seq<Item>,
    cfg: RenderCfg,
    max_width: nat,
    sopen: Seq<char>,
    sclose: Seq<char>,
)
    requires
        rows_flow_width(
            items,
            shown_count(items.len(), cfg.max_items),
            shown_count(items.len(), cfg.max_items) < items.len(),
            cfg,
        ) <= max_width,
    ensures
        rows_rendered(items, cfg, max_width, sopen, sclose) == rows_flow_text(
            items,
            shown_count(items.len(), cfg.max_items),
            shown_count(items.len(), cfg.max_items) < items.len(),
            cfg,
            sopen,
            sclose,
        ),
{
}

/// A row list whose one-line rendering exceeds the width limit renders in
/// block layout: one row per line at one indent level, brackets on their
/// own boundary lines.
pub proof fn lemma_overflow_renders_block(
    items: Seq<Item>,
    cfg: RenderCfg,
    max_width: nat,
    sopen: Seq<char>,
    sclose: Seq<char>,
)
    requires
        rows_flow_width(
            items,
            shown_count(items.len(), cfg.max_items),
            shown_count(items.len(), cfg.max_items) < items.len(),
            cfg,
        ) > max_width,
    ensures
        rows_rendered(items, cfg, max_width, sopen, sclose) == rows_block_text(
            items,
            shown_count(items.len(), cfg.max_items),
            shown_count(items.len(), cfg.max_items) < items.len(),
            cfg,
            sopen,
            sclose,
        ),
{
}

/// Under an item cap of `m`, a longer row list renders exactly its first
/// `m` rows plus one truncation marker: the output is the same for any two
/// sources that agree on those first `m` rows, however much else they
/// yield.
pub proof fn lemma_item_cap_prefix_decides(
    items1: Seq<Item>,
    items2: Seq<Item>,
    m: usize,
    cfg: RenderCfg,
    max_width: nat,
    sopen: Seq<char>,
    sclose: Seq<char>,
)
    requires
        cfg.max_items == Some(m),
        items1.len() > m,
        items2.len() > m,
        items1.take(m as int) == items2.take(m as int),
    ensures
        rows_rendered(items1, cfg, max_width, sopen, sclose) == rows_rendered(
            items2,
            cfg,
            max_width,
            sopen,
            sclose,
        ),
{
    lemma_items_prefix(items1, items2, m as nat, 1, cfg);
    assert(shown_count(items1.len(), cfg.max_items) == m);
    assert(shown_count(items2.len(), cfg.max_items) == m);
}

/// Rendering is deterministic: the same rows under the same configuration
/// yield byte-identical output, however many times the render runs.
pub proof fn lemma_deterministic(
    out1: Seq<char>,
    out2: Seq<char>,
    items: Seq<Item>,
    cfg: RenderCfg,
    max_width: nat,
    sopen: Seq<char>,
    sclose: Seq<char>,
)
    requires
        out1 == rows_rendered(items, cfg, max_width, sopen, sclose),
        out2 == rows_rendered(items, cfg, max_width, sopen, sclose),
    ensures
        out1 == out2,
{
}

/// Replaying after a fallback diverges nowhere: the block layout is a
/// function of the received rows alone, so a render that fell back partway
/// through equals a render that was in block layout from the start.
pub proof fn lemma_replay_equivalence(
    items: Seq<Item>,
    cfg: RenderCfg,
    max_width: nat,
    sopen: Seq<char>,
    sclose: Seq<char>,
)
    requires
        rows_flow_width(
            items,
            shown_count(items.len(), cfg.max_items),
            shown_count(items.len(), cfg.max_items) < items.len(),
            cfg,
        ) > max_width,
    ensures
        rows_rendered(items, cfg, max_width, sopen, sclose) == rows_block_text(
            items,
            shown_count(items.len(), cfg.max_items),
            shown_count(items.len(), cfg.max_items) < items.len(),
            cfg,
            sopen,
            sclose,
        ),
        rows_rendered(items, cfg, 0, sopen, sclose) == rows_rendered(
            items,
            cfg,
            max_width,
            sopen,
            sclose,
        ),
{
    assert(rows_flow_width(
        items,
        shown_count(items.len(), cfg.max_items),
        shown_count(items.len(), cfg.max_items) < items.len(),
        cfg,
    ) > 0);
}

/// An empty row list renders as the bare brackets — `[]` for the
/// machine-readable path, `{}` for the native one — at every width, with
/// no separator artifacts.
pub proof fn lemma_empty_renders_brackets(
    cfg: RenderCfg,
    max_width: nat,
    sopen: Seq<char>,
    sclose: Seq<char>,
)
    ensures
        rows_rendered(Seq::<Item>::empty(), cfg, max_width, sopen, sclose) == sopen + sclose,
{
    let items = Seq::<Item>::empty();
    assert(shown_count(items.len(), cfg.max_items) == 0);
    assert(flow_items(items, 0, cfg) == Seq::<char>::empty());
    assert(flow_tail(0, false, cfg) == Seq::<char>::empty());
    assert(sopen + Seq::<char>::empty() + Seq::<char>::empty() + sclose =~= sopen + sclose);
}

/// Separators never leak: on one line an untruncated row list carries a
/// trailing separator exactly when the configuration asks for one and the
/// list is non-empty.
pub proof fn lemma_trailing_separator(
    items: Seq<Item>,
    cfg: RenderCfg,
    sopen: Seq<char>,
    sclose: Seq<char>,
)
    requires
        shown_count(items.len(), cfg.max_items) == items.len(),
    ensures
        cfg.trailing && items.len() > 0 ==> rows_flow_text(
            items,
            items.len(),
            false,
            cfg,
            sopen,
            sclose,
        ) == sopen + flow_items(items, items.len(), cfg) + seq![','] + sclose,
        !(cfg.trailing && items.len() > 0) ==> rows_flow_text(
            items,
            items.len(),
            false,
            cfg,
            sopen,
            sclose,
        ) == sopen + flow_items(items, items.len(), cfg) + sclose,
{
    if !(cfg.trailing && items.len() > 0) {
        assert(flow_tail(items.len(), false, cfg) == Seq::<char>::empty());
        assert(sopen + flow_items(items, items.len(), cfg) + Seq::<char>::empty() + sclose
            =~= sopen + flow_items(items, items.len(), cfg) + sclose);
    }
}

} // verus!
