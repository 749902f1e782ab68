//! Counts of evaluated rows and blocks.
use crate::text::{
    is_text_less, lemma_text_less_carries_on, lemma_text_less_decides, nat_text, owned, push_nat,
    push_usize, same_text, text_less, views,
};
use vstd::prelude::*;

verus! {

/// How often blocks of a kind and length were evaluated, and how many rows that
/// took.
#[derive(Debug)]
pub struct BlockEvalStats {
    pub kind: String,
    pub len: usize,
    pub calls: u64,
    pub rows: u64,
}

pub struct StatsView {
    pub kind: Seq<char>,
    pub len: usize,
    pub calls: u64,
    pub rows: u64,
}

impl View for BlockEvalStats {
    type V = StatsView;

    open spec fn view(&self) -> StatsView {
        StatsView { kind: self.kind@, len: self.len, calls: self.calls, rows: self.rows }
    }
}

impl StatsView {
    /// The order of kinds and lengths.
    pub open spec fn before(self, other: StatsView) -> bool {
        text_less(self.kind, other.kind) || (self.kind == other.kind && self.len < other.len)
    }

    pub open spec fn same_key(self, other: StatsView) -> bool {
        self.kind == other.kind && self.len == other.len
    }

    /// After one more evaluation.
    pub open spec fn bumped(self, rows: u64) -> StatsView {
        StatsView {
            calls: saturating_sum(self.calls, 1),
            rows: saturating_sum(self.rows, rows),
            ..self
        }
    }
}

/// A sum that stays at the limit.
pub open spec fn saturating_sum(a: u64, b: u64) -> u64 {
    if a + b > u64::MAX {
        u64::MAX
    } else {
        (a + b) as u64
    }
}

/// The counts as mathematical values.
pub open spec fn stats_views(list: Seq<BlockEvalStats>) -> Seq<StatsView> {
    Seq::new(list.len(), |i: int| list[i]@)
}

/// Each kind and length stands once, in order.
pub open spec fn in_order(list: Seq<StatsView>) -> bool {
    forall|i: int, j: int|
        0 <= i < j < list.len() ==> (#[trigger] list[i]).before(#[trigger] list[j])
}

/// Counts of evaluated rows and blocks.
#[derive(Debug)]
pub struct RowEvalTrace {
    pub calls: u64,
    pub nanos: u64,
    pub blocks: Vec<BlockEvalStats>,
}

proof fn lemma_order(a: StatsView, b: StatsView, c: StatsView)
    ensures
        a.same_key(b) || a.before(b) || b.before(a),
        a.before(b) && b.before(c) ==> a.before(c),
        !(a.before(b) && a.same_key(b)),
{
    lemma_text_less_decides(a.kind, b.kind);
    if a.before(b) && b.before(c) {
        if text_less(a.kind, b.kind) && text_less(b.kind, c.kind) {
            lemma_text_less_carries_on(a.kind, b.kind, c.kind);
        }
    }
}

impl RowEvalTrace {
    pub open spec fn wf(self) -> bool {
        in_order(stats_views(self.blocks@))
    }

    /// Counts of nothing.
    pub fn new() -> (t: RowEvalTrace)
        ensures
            t.wf(),
            t.calls == 0,
            t.nanos == 0,
            t.blocks@.len() == 0,
    {
        RowEvalTrace { calls: 0, nanos: 0, blocks: Vec::new() }
    }

    /// Counts a row and the time it took.
    pub fn record_row(&mut self, enabled: bool, nanos: u64)
        ensures
            final(self).blocks == old(self).blocks,
            !enabled ==> *final(self) == *old(self),
            enabled ==> final(self).calls == (old(self).calls + 1) % 0x1_0000_0000_0000_0000
                && final(self).nanos == (old(self).nanos + nanos) % 0x1_0000_0000_0000_0000,
    {
        if enabled {
            self.calls = self.calls.wrapping_add(1);
            self.nanos = self.nanos.wrapping_add(nanos);
        }
    }
}

/// Starts counting anew.
pub fn reset_solve_row_eval_trace(trace: &mut RowEvalTrace, enabled: bool)
    requires
        old(trace).wf(),
    ensures
        final(trace).wf(),
        !enabled ==> *final(trace) == *old(trace),
        enabled ==> final(trace).calls == 0 && final(trace).nanos == 0 && final(trace).blocks@.len() == 0,
{
    if enabled {
        *trace = RowEvalTrace::new();
    }
}

/// What counting an evaluation of a block changes.
pub open spec fn recorded(
    before: Seq<StatsView>,
    after: Seq<StatsView>,
    kind: Seq<char>,
    len: usize,
    rows: u64,
) -> bool {
    let new = StatsView { kind, len, calls: 1, rows };
    ||| exists|i: int|
        0 <= i < before.len() && (#[trigger] before[i]).same_key(new) && after == before.update(
            i,
            before[i].bumped(rows),
        )
    ||| (forall|i: int| 0 <= i < before.len() ==> !(#[trigger] before[i]).same_key(new)) && exists|
        p: int,
    | 0 <= p <= before.len() && after == #[trigger] before.insert(p, new)
}

/// Counts an evaluation of a block.
pub fn record_solve_block_eval(
    trace: &mut RowEvalTrace,
    enabled: bool,
    kind: &str,
    len: usize,
    rows: usize,
)
    requires
        old(trace).wf(),
    ensures
        final(trace).wf(),
        !enabled ==> *final(trace) == *old(trace),
        enabled ==> final(trace).calls == old(trace).calls && final(trace).nanos == old(trace).nanos && recorded(
            stats_views(old(trace).blocks@),
            stats_views(final(trace).blocks@),
            kind@,
            len,
            rows as u64,
        ),
{
    if !enabled {
        return;
    }
    let ghost before = stats_views(trace.blocks@);
    let ghost new = StatsView { kind: kind@, len, calls: 1, rows: rows as u64 };
    let mut p: usize = 0;
    while p < trace.blocks.len() && (is_text_less(trace.blocks[p].kind.as_str(), kind) || (
    same_text(trace.blocks[p].kind.as_str(), kind) && trace.blocks[p].len < len))
        invariant
            p <= trace.blocks@.len(),
            *trace == *old(trace),
            before == stats_views(trace.blocks@),
            new == (StatsView { kind: kind@, len, calls: 1, rows: rows as u64 }),
            forall|i: int| 0 <= i < p ==> (#[trigger] before[i]).before(new),
        decreases trace.blocks.len() - p,
    {
        assert(before[p as int] == trace.blocks@[p as int]@);
        p = p + 1;
    }
    if p < trace.blocks.len() && same_text(trace.blocks[p].kind.as_str(), kind)
        && trace.blocks[p].len == len {
        assert(before[p as int] == trace.blocks@[p as int]@);
        let calls: u64 = trace.blocks[p].calls.saturating_add(1);
        let total: u64 = trace.blocks[p].rows.saturating_add(rows as u64);
        trace.blocks[p].calls = calls;
        trace.blocks[p].rows = total;
        proof {
            let after = stats_views(trace.blocks@);
            assert(after =~= before.update(p as int, before[p as int].bumped(rows as u64)));
            assert(before[p as int].same_key(new));
            assert forall|i: int, j: int| 0 <= i < j < after.len() implies (
            #[trigger] after[i]).before(#[trigger] after[j]) by {
                assert(before[i].before(before[j]));
            }
        }
        return;
    }
    let entry = BlockEvalStats { kind: owned(kind), len, calls: 1, rows: rows as u64 };
    trace.blocks.insert(p, entry);
    proof {
        let after = stats_views(trace.blocks@);
        assert(after =~= before.insert(p as int, new));
        assert forall|i: int| 0 <= i < before.len() implies if i < p {
            (#[trigger] before[i]).before(new)
        } else {
            new.before(before[i])
        } by {
            if i >= p {
                let at = before[p as int];
                assert(at == old(trace).blocks@[p as int]@);
                lemma_order(at, new, new);
                lemma_order(new, at, before[i]);
                if i > p {
                    assert(at.before(before[i]));
                }
            }
        }
        assert forall|i: int| 0 <= i < before.len() implies !(#[trigger] before[i]).same_key(new) by {
            lemma_order(before[i], new, new);
            lemma_order(new, before[i], new);
        }
        assert forall|i: int, j: int| 0 <= i < j < after.len() implies (#[trigger] after[i]).before(
            #[trigger] after[j],
        ) by {
            if i < p && j > p {
                assert(before[i].before(before[j - 1]));
            } else if i < p && j < p {
                assert(before[i].before(before[j]));
            } else if i > p {
                assert(before[i - 1].before(before[j - 1]));
            } else if i == p {
                assert(new.before(before[j - 1]));
            } else {
                assert(before[i].before(new));
            }
        }
    }
}

/// Blocks with more rows come first, earlier ones first among those with as many.
pub open spec fn comes_first(list: Seq<StatsView>, i: int, j: int) -> bool {
    list[i].rows > list[j].rows || (list[i].rows == list[j].rows && i < j)
}

/// Whether a position is listed.
pub open spec fn listed(top: Seq<usize>, e: int) -> bool {
    exists|l: int| 0 <= l < top.len() && (#[trigger] top[l]) == e
}

/// Whether these are the blocks that come first, in their order.
pub open spec fn is_top(list: Seq<StatsView>, top: Seq<usize>) -> bool {
    &&& forall|k: int| 0 <= k < top.len() ==> (#[trigger] top[k]) < list.len()
    &&& forall|k: int, l: int|
        0 <= k < l < top.len() ==> comes_first(list, #[trigger] top[k] as int, #[trigger] top[l] as int)
    &&& forall|k: int, e: int|
        #![trigger top[k], listed(top, e)]
        0 <= k < top.len() && 0 <= e < list.len() && !listed(top, e) ==> comes_first(
            list,
            top[k] as int,
            e,
        )
}

fn is_listed(top: &Vec<usize>, e: usize) -> (r: bool)
    ensures
        r == listed(top@, e as int),
{
    let mut l: usize = 0;
    while l < top.len()
        invariant
            l <= top@.len(),
            forall|k: int| 0 <= k < l ==> (#[trigger] top@[k]) != e,
        decreases top.len() - l,
    {
        if top[l] == e {
            return true;
        }
        l = l + 1;
    }
    false
}

/// The block that comes first among those that are not listed.
fn best_unlisted(blocks: &Vec<BlockEvalStats>, top: &Vec<usize>) -> (r: Option<usize>)
    ensures
        match r {
            Some(b) => b < blocks@.len() && !listed(top@, b as int) && forall|e: int|
                0 <= e < blocks@.len() && e != b && !#[trigger] listed(top@, e) ==> comes_first(
                    stats_views(blocks@),
                    b as int,
                    e,
                ),
            None => forall|e: int| 0 <= e < blocks@.len() ==> #[trigger] listed(top@, e),
        },
{
    let ghost list = stats_views(blocks@);
    let mut best: Option<usize> = None;
    let mut i: usize = 0;
    while i < blocks.len()
        invariant
            i <= blocks@.len(),
            list == stats_views(blocks@),
            match best {
                Some(b) => b < i && !listed(top@, b as int) && forall|e: int|
                    0 <= e < i && e != b && !#[trigger] listed(top@, e) ==> comes_first(
                        list,
                        b as int,
                        e,
                    ),
                None => forall|e: int| 0 <= e < i ==> #[trigger] listed(top@, e),
            },
        decreases blocks.len() - i,
    {
        assert(list[i as int] == blocks@[i as int]@);
        if !is_listed(top, i) {
            match best {
                Some(b) => {
                    assert(list[b as int] == blocks@[b as int]@);
                    if blocks[i].rows > blocks[b].rows {
                        best = Some(i);
                    }
                },
                None => {
                    best = Some(i);
                },
            }
        }
        i = i + 1;
    }
    best
}

proof fn lemma_top_grows(list: Seq<StatsView>, top: Seq<usize>, b: usize)
    requires
        is_top(list, top),
        b < list.len(),
        !listed(top, b as int),
        forall|e: int|
            0 <= e < list.len() && e != b && !#[trigger] listed(top, e) ==> comes_first(
                list,
                b as int,
                e,
            ),
    ensures
        is_top(list, top.push(b)),
{
    let after = top.push(b);
    assert forall|k: int, l: int| 0 <= k < l < after.len() implies comes_first(
        list,
        #[trigger] after[k] as int,
        #[trigger] after[l] as int,
    ) by {
        assert(top[k] == after[k]);
        if l < top.len() {
            assert(top[l] == after[l]);
        }
    }
    assert forall|k: int, e: int|
        #![trigger after[k], listed(after, e)]
        0 <= k < after.len() && 0 <= e < list.len() && !listed(after, e) implies comes_first(
        list,
        after[k] as int,
        e,
    ) by {
        if listed(top, e) {
            let l = choose|l: int| 0 <= l < top.len() && (#[trigger] top[l]) == e;
            assert(after[l] == e);
        }
        assert(after[top.len() as int] == b);
        if k < top.len() {
            assert(top[k] == after[k]);
        }
    }
}

/// The blocks that come first, at most `limit` of them.
pub fn top_blocks(blocks: &Vec<BlockEvalStats>, limit: usize) -> (top: Vec<usize>)
    ensures
        is_top(stats_views(blocks@), top@),
        top@.len() == if limit < blocks@.len() {
            limit as int
        } else {
            blocks@.len() as int
        },
{
    let ghost list = stats_views(blocks@);
    let mut top: Vec<usize> = Vec::new();
    let wanted: usize = if limit < blocks.len() {
        limit
    } else {
        blocks.len()
    };
    while top.len() < wanted
        invariant
            list == stats_views(blocks@),
            wanted <= blocks@.len(),
            wanted == if limit < blocks@.len() {
                limit as int
            } else {
                blocks@.len() as int
            },
            top@.len() <= wanted,
            is_top(list, top@),
        decreases wanted - top.len(),
    {
        match best_unlisted(blocks, &top) {
            Some(b) => {
                proof {
                    lemma_top_grows(list, top@, b);
                }
                top.push(b);
            },
            None => {
                proof {
                    lemma_all_listed(top@, blocks@.len() as int);
                }
                return top;
            },
        }
    }
    top
}

/// A list that has every position is as long as there are positions.
proof fn lemma_all_listed(top: Seq<usize>, n: int)
    requires
        0 <= n,
        forall|e: int| 0 <= e < n ==> #[trigger] listed(top, e),
    ensures
        top.len() >= n,
    decreases n,
{
    if n > 0 {
        assert(listed(top, n - 1));
        let last = choose|l: int| 0 <= l < top.len() && (#[trigger] top[l]) == n - 1;
        let rest = top.remove(last);
        assert forall|e: int| 0 <= e < n - 1 implies #[trigger] listed(rest, e) by {
            assert(listed(top, e));
            let l = choose|l: int| 0 <= l < top.len() && (#[trigger] top[l]) == e;
            if l < last {
                assert(rest[l] == e);
            } else {
                assert(rest[l - 1] == e);
            }
        }
        lemma_all_listed(rest, n - 1);
    }
}

/// The line about a block.
pub open spec fn block_line(label: Seq<char>, stats: StatsView) -> Seq<char> {
    label + ": block kind="@ + stats.kind + " len="@ + nat_text(stats.len as nat) + " calls="@
        + nat_text(stats.calls as nat) + " rows="@ + nat_text(stats.rows as nat)
}

/// The lines about the blocks with the most rows, eight at most; none where
/// nothing is counted.
pub fn trace_solve_row_eval_snapshot(trace: &RowEvalTrace, enabled: bool, label: &str) -> (lines:
    Vec<String>)
    ensures
        !enabled ==> lines@.len() == 0,
        enabled ==> exists|top: Seq<usize>| #[trigger]
            is_top(stats_views(trace.blocks@), top) && top.len() == if 8 < trace.blocks@.len() {
                8
            } else {
                trace.blocks@.len() as int
            } && views(lines@) == Seq::new(
                top.len(),
                |k: int| block_line(label@, trace.blocks@[top[k] as int]@),
            ),
{
    let mut lines: Vec<String> = Vec::new();
    if !enabled {
        return lines;
    }
    let top = top_blocks(&trace.blocks, 8);
    let mut k: usize = 0;
    while k < top.len()
        invariant
            k <= top@.len(),
            is_top(stats_views(trace.blocks@), top@),
            views(lines@) == Seq::new(
                k as nat,
                |k: int| block_line(label@, trace.blocks@[top@[k] as int]@),
            ),
        decreases top.len() - k,
    {
        let ghost before = views(lines@);
        let stats = &trace.blocks[top[k]];
        let mut line = owned(label);
        line.append(": block kind=");
        line.append(stats.kind.as_str());
        line.append(" len=");
        push_usize(&mut line, stats.len);
        line.append(" calls=");
        push_nat(&mut line, stats.calls);
        line.append(" rows=");
        push_nat(&mut line, stats.rows);
        let ghost text = line@;
        lines.push(line);
        k = k + 1;
        assert(views(lines@) =~= before.push(text));
        assert(views(lines@) =~= Seq::new(
            k as nat,
            |k: int| block_line(label@, trace.blocks@[top@[k] as int]@),
        ));
    }
    lines
}

} // verus!
