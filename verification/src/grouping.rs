//! Bringing one symbol's files, and one symbol's bars, together.
use vstd::prelude::*;

use crate::model::Bar;
use crate::text::chars_of;

verus! {

/// Whether one text comes before another, character by character.
pub open spec fn comes_before(a: Seq<char>, b: Seq<char>) -> bool
    decreases a.len(),
{
    if b.len() == 0 {
        false
    } else if a.len() == 0 {
        true
    } else if a[0] != b[0] {
        a[0] < b[0]
    } else {
        comes_before(a.drop_first(), b.drop_first())
    }
}

/// Of two texts that differ, one comes before the other, and not the other way round.
pub proof fn texts_are_ordered(a: Seq<char>, b: Seq<char>)
    ensures
        comes_before(a, b) && comes_before(b, a) ==> false,
        !comes_before(a, b) && !comes_before(b, a) ==> a == b,
        !comes_before(a, a),
    decreases a.len(),
{
    if a.len() > 0 {
        texts_are_ordered(a.drop_first(), a.drop_first());
    }
    if a.len() > 0 && b.len() > 0 && a[0] == b[0] {
        texts_are_ordered(a.drop_first(), b.drop_first());
        if a.drop_first() == b.drop_first() {
            assert(a =~= seq![a[0]] + a.drop_first());
            assert(b =~= seq![b[0]] + b.drop_first());
        }
    }
}

/// The order of texts carries over.
pub proof fn order_of_texts_carries_over(a: Seq<char>, b: Seq<char>, c: Seq<char>)
    requires
        comes_before(a, b),
        comes_before(b, c),
    ensures
        comes_before(a, c),
    decreases a.len(),
{
    if a.len() > 0 && b.len() > 0 && c.len() > 0 && a[0] == b[0] && b[0] == c[0] {
        order_of_texts_carries_over(a.drop_first(), b.drop_first(), c.drop_first());
    }
}

/// How two texts stand to each other.
#[derive(Debug, Clone, Copy, PartialEq, Eq, Structural)]
pub(crate) enum Side {
    Before,
    Same,
    After,
}

pub(crate) open spec fn side_of(a: Seq<char>, b: Seq<char>) -> Side {
    if comes_before(a, b) {
        Side::Before
    } else if a == b {
        Side::Same
    } else {
        Side::After
    }
}

/// How two texts stand to each other.
pub(crate) fn place(a: &str, b: &str) -> (r: Side)
    ensures
        r == side_of(a@, b@),
        r == Side::Before <==> comes_before(a@, b@),
        r == Side::Same <==> a@ == b@,
        r == Side::After ==> comes_before(b@, a@),
{
    let x = chars_of(a);
    let y = chars_of(b);
    let mut i: usize = 0;
    assert(a@.skip(0) =~= a@);
    assert(b@.skip(0) =~= b@);
    while i < x.len() && i < y.len() && x[i] == y[i]
        invariant
            x@ == a@,
            y@ == b@,
            i <= x.len(),
            i <= y.len(),
            a@.take(i as int) == b@.take(i as int),
            comes_before(a@, b@) == comes_before(a@.skip(i as int), b@.skip(i as int)),
        decreases x.len() - i,
    {
        assert(a@.skip(i as int).drop_first() =~= a@.skip(i + 1));
        assert(b@.skip(i as int).drop_first() =~= b@.skip(i + 1));
        assert(a@.take(i + 1) =~= a@.take(i as int).push(a@[i as int]));
        assert(b@.take(i + 1) =~= b@.take(i as int).push(b@[i as int]));
        i += 1;
    }
    proof {
        texts_are_ordered(a@, b@);
        if i == x.len() && i == y.len() {
            assert(a@.take(i as int) =~= a@);
            assert(b@.take(i as int) =~= b@);
        }
    }
    if i == y.len() {
        if i == x.len() {
            Side::Same
        } else {
            Side::After
        }
    } else if i == x.len() || x[i] < y[i] {
        Side::Before
    } else {
        Side::After
    }
}

/// One symbol and the files that report it, by their positions.
#[derive(Debug)]
pub struct Group {
    pub symbol: String,
    pub members: Vec<usize>,
}

/// The positions at which a symbol stands, in order.
pub open spec fn positions_of(symbols: Seq<Seq<char>>, symbol: Seq<char>) -> Seq<usize>
    decreases symbols.len(),
{
    if symbols.len() == 0 {
        Seq::empty()
    } else {
        let before = positions_of(symbols.drop_last(), symbol);
        if symbols.last() == symbol {
            before.push((symbols.len() - 1) as usize)
        } else {
            before
        }
    }
}

/// Whether groups hold every symbol once, in ascending order, with all its positions.
pub open spec fn groups_of(groups: Seq<Group>, symbols: Seq<Seq<char>>) -> bool {
    &&& forall|i: int, j: int|
        0 <= i < j < groups.len() ==> #[trigger] comes_before(
            groups[i].symbol@,
            groups[j].symbol@,
        )
    &&& forall|i: int|
        0 <= i < groups.len() ==> (#[trigger] groups[i]).members@ == positions_of(
            symbols,
            groups[i].symbol@,
        ) && groups[i].members@.len() > 0
    &&& forall|k: int|
        0 <= k < symbols.len() ==> exists|i: int|
            0 <= i < groups.len() && (#[trigger] groups[i]).symbol@ == #[trigger] symbols[k]
}

/// Where a symbol stands among ascending ones, or has to be put.
fn find_group(groups: &Vec<Group>, symbol: &str) -> (r: (usize, bool))
    requires
        forall|i: int, j: int|
            0 <= i < j < groups@.len() ==> #[trigger] comes_before(
                groups@[i].symbol@,
                groups@[j].symbol@,
            ),
    ensures
        r.0 <= groups@.len(),
        forall|i: int| 0 <= i < r.0 ==> comes_before((#[trigger] groups@[i]).symbol@, symbol@),
        r.1 ==> r.0 < groups@.len() && groups@[r.0 as int].symbol@ == symbol@,
        !r.1 ==> forall|i: int|
            r.0 <= i < groups@.len() ==> comes_before(symbol@, (#[trigger] groups@[i]).symbol@),
{
    let mut at: usize = 0;
    while at < groups.len()
        invariant
            at <= groups.len(),
            forall|i: int, j: int|
                0 <= i < j < groups@.len() ==> #[trigger] comes_before(
                    groups@[i].symbol@,
                    groups@[j].symbol@,
                ),
            forall|i: int| 0 <= i < at ==> comes_before((#[trigger] groups@[i]).symbol@, symbol@),
        decreases groups.len() - at,
    {
        match place(groups[at].symbol.as_str(), symbol) {
            Side::Before => {
                at += 1;
            },
            Side::Same => {
                return (at, true);
            },
            Side::After => {
                proof {
                    assert forall|i: int| at <= i < groups@.len() implies comes_before(
                        symbol@,
                        (#[trigger] groups@[i]).symbol@,
                    ) by {
                        if i > at {
                            assert(comes_before(groups@[at as int].symbol@, groups@[i].symbol@));
                            order_of_texts_carries_over(
                                symbol@,
                                groups@[at as int].symbol@,
                                groups@[i].symbol@,
                            );
                        }
                    }
                }
                return (at, false);
            },
        }
    }
    (at, false)
}

proof fn lemma_no_positions(symbols: Seq<Seq<char>>, symbol: Seq<char>)
    requires
        forall|k: int| 0 <= k < symbols.len() ==> #[trigger] symbols[k] != symbol,
    ensures
        positions_of(symbols, symbol) == Seq::<usize>::empty(),
    decreases symbols.len(),
{
    if symbols.len() > 0 {
        assert(symbols.last() != symbol);
        assert forall|k: int| 0 <= k < symbols.drop_last().len() implies
            #[trigger] symbols.drop_last()[k] != symbol by {
            assert(symbols[k] != symbol);
        }
        lemma_no_positions(symbols.drop_last(), symbol);
    }
}

proof fn lemma_existing_group(
    groups: Seq<Group>,
    after: Seq<Group>,
    symbols: Seq<Seq<char>>,
    symbol: Seq<char>,
    at: int,
)
    requires
        groups_of(groups, symbols),
        0 <= at < groups.len(),
        groups[at].symbol@ == symbol,
        after.len() == groups.len(),
        forall|i: int| 0 <= i < groups.len() && i != at ==> #[trigger] after[i] == groups[i],
        after[at].symbol@ == symbol,
        after[at].members@ == groups[at].members@.push(symbols.len() as usize),
    ensures
        groups_of(after, symbols.push(symbol)),
{
    let all = symbols.push(symbol);
    assert(all.drop_last() =~= symbols);
    assert forall|i: int| 0 <= i < after.len() implies after[i].symbol@ == groups[i].symbol@ by {
        if i != at {
            assert(after[i] == groups[i]);
        }
    }
    assert forall|i: int, j: int| 0 <= i < j < after.len() implies #[trigger] comes_before(
        after[i].symbol@,
        after[j].symbol@,
    ) by {
        assert(comes_before(groups[i].symbol@, groups[j].symbol@));
    }
    assert forall|i: int| 0 <= i < after.len() implies (#[trigger] after[i]).members@
        == positions_of(all, after[i].symbol@) && after[i].members@.len() > 0 by {
        assert(groups[i].members@ == positions_of(symbols, groups[i].symbol@));
        if i != at {
            assert(after[i] == groups[i]);
            if i < at {
                assert(comes_before(groups[i].symbol@, groups[at].symbol@));
            } else {
                assert(comes_before(groups[at].symbol@, groups[i].symbol@));
            }
            texts_are_ordered(symbol, symbol);
        }
    }
    assert forall|k: int| 0 <= k < all.len() implies exists|i: int|
        0 <= i < after.len() && (#[trigger] after[i]).symbol@ == #[trigger] all[k] by {
        if k < symbols.len() {
            assert(symbols[k] == all[k]);
            let i = choose|i: int|
                0 <= i < groups.len() && (#[trigger] groups[i]).symbol@ == symbols[k];
            assert(after[i].symbol@ == all[k]);
        } else {
            assert(after[at].symbol@ == all[k]);
        }
    }
}

proof fn lemma_new_group(
    groups: Seq<Group>,
    group: Group,
    symbols: Seq<Seq<char>>,
    symbol: Seq<char>,
    at: int,
)
    requires
        groups_of(groups, symbols),
        0 <= at <= groups.len(),
        forall|i: int| 0 <= i < at ==> comes_before((#[trigger] groups[i]).symbol@, symbol),
        forall|i: int|
            at <= i < groups.len() ==> comes_before(symbol, (#[trigger] groups[i]).symbol@),
        group.symbol@ == symbol,
        group.members@ == seq![symbols.len() as usize],
    ensures
        groups_of(groups.insert(at, group), symbols.push(symbol)),
{
    let all = symbols.push(symbol);
    let after = groups.insert(at, group);
    assert(all.drop_last() =~= symbols);
    texts_are_ordered(symbol, symbol);
    assert forall|k: int| 0 <= k < symbols.len() implies #[trigger] symbols[k] != symbol by {
        let i = choose|i: int|
            0 <= i < groups.len() && (#[trigger] groups[i]).symbol@ == symbols[k];
        assert(groups[i].symbol@ == symbols[k]);
    }
    lemma_no_positions(symbols, symbol);
    assert forall|i: int, j: int| 0 <= i < j < after.len() implies #[trigger] comes_before(
        after[i].symbol@,
        after[j].symbol@,
    ) by {
        let p = if i < at { i } else { i - 1 };
        let q = if j < at { j } else { j - 1 };
        if i == at {
            assert(after[j] == groups[q]);
        } else if j == at {
            assert(after[i] == groups[p]);
        } else {
            assert(after[i] == groups[p] && after[j] == groups[q]);
            assert(comes_before(groups[p].symbol@, groups[q].symbol@));
        }
    }
    assert forall|i: int| 0 <= i < after.len() implies (#[trigger] after[i]).members@
        == positions_of(all, after[i].symbol@) && after[i].members@.len() > 0 by {
        if i == at {
            assert(positions_of(all, symbol) =~= seq![symbols.len() as usize]);
        } else {
            let p = if i < at { i } else { i - 1 };
            assert(after[i] == groups[p]);
        }
    }
    assert forall|k: int| 0 <= k < all.len() implies exists|i: int|
        0 <= i < after.len() && (#[trigger] after[i]).symbol@ == #[trigger] all[k] by {
        if k < symbols.len() {
            assert(symbols[k] == all[k]);
            let i = choose|i: int|
                0 <= i < groups.len() && (#[trigger] groups[i]).symbol@ == symbols[k];
            let q = if i < at { i } else { i + 1 };
            assert(after[q] == groups[i]);
            assert(after[q].symbol@ == all[k]);
        } else {
            assert(after[at].symbol@ == all[k]);
        }
    }
}

/// Groups files by the symbol each reports, symbols ascending and each one's files in the order in
/// which they were found, so a symbol's files feed one resampler as a single ascending stream.
pub fn group_by_symbol(symbols: &Vec<String>) -> (r: Vec<Group>)
    ensures
        groups_of(r@, crate::text::texts(symbols@)),
{
    let mut groups: Vec<Group> = Vec::new();
    let ghost all = crate::text::texts(symbols@);
    let mut i: usize = 0;
    while i < symbols.len()
        invariant
            i <= symbols.len(),
            all == crate::text::texts(symbols@),
            groups_of(groups@, all.take(i as int)),
        decreases symbols.len() - i,
    {
        let (at, found) = find_group(&groups, symbols[i].as_str());
        let ghost before = groups@;
        assert(all.take(i + 1) =~= all.take(i as int).push(symbols@[i as int]@));
        if found {
            let mut group = groups.remove(at);
            group.members.push(i);
            groups.insert(at, group);
            proof {
                lemma_existing_group(
                    before,
                    groups@,
                    all.take(i as int),
                    symbols@[i as int]@,
                    at as int,
                );
            }
        } else {
            let group = Group { symbol: symbols[i].clone(), members: vec![i] };
            proof {
                assert(group.members@ =~= seq![i]);
                lemma_new_group(before, group, all.take(i as int), symbols@[i as int]@, at as int);
            }
            groups.insert(at, group);
        }
        i += 1;
    }
    assert(all.take(i as int) =~= all);
    groups
}

// ---- bars in order ------------------------------------------------------------------

/// Where a bar goes among ascending ones: behind those that do not come later.
pub open spec fn slot(bars: Seq<Bar>, time: u32) -> int
    decreases bars.len(),
{
    if bars.len() > 0 && bars.last().time > time {
        slot(bars.drop_last(), time)
    } else {
        bars.len() as int
    }
}

/// The bars in ascending order of time, those of one time in the order they came in.
pub open spec fn in_order(bars: Seq<Bar>) -> Seq<Bar>
    decreases bars.len(),
{
    if bars.len() == 0 {
        bars
    } else {
        let before = in_order(bars.drop_last());
        before.insert(slot(before, bars.last().time), bars.last())
    }
}

/// Whether times do not go back.
pub open spec fn ascending(bars: Seq<Bar>) -> bool {
    forall|i: int, j: int| 0 <= i <= j < bars.len() ==> bars[i].time <= bars[j].time
}

/// The bars of one time, in order.
pub open spec fn bars_at(bars: Seq<Bar>, time: u32) -> Seq<Bar>
    decreases bars.len(),
{
    if bars.len() == 0 {
        bars
    } else if bars.last().time == time {
        bars_at(bars.drop_last(), time).push(bars.last())
    } else {
        bars_at(bars.drop_last(), time)
    }
}

proof fn lemma_slot(bars: Seq<Bar>, time: u32)
    requires
        ascending(bars),
    ensures
        0 <= slot(bars, time) <= bars.len(),
        forall|i: int| 0 <= i < slot(bars, time) ==> bars[i].time <= time,
        forall|i: int| slot(bars, time) <= i < bars.len() ==> bars[i].time > time,
    decreases bars.len(),
{
    if bars.len() > 0 && bars.last().time > time {
        assert(ascending(bars.drop_last()));
        lemma_slot(bars.drop_last(), time);
        assert forall|i: int| slot(bars, time) <= i < bars.len() implies bars[i].time > time by {
            if i < bars.len() - 1 {
                assert(bars.drop_last()[i].time > time);
            }
        }
        assert forall|i: int| 0 <= i < slot(bars, time) implies bars[i].time <= time by {
            assert(bars.drop_last()[i].time <= time);
        }
    }
}

proof fn lemma_bars_at_insert(bars: Seq<Bar>, at: int, bar: Bar, time: u32)
    requires
        0 <= at <= bars.len(),
        forall|i: int| at <= i < bars.len() ==> bars[i].time > bar.time,
    ensures
        bars_at(bars.insert(at, bar), time) == if bar.time == time {
            bars_at(bars, time).push(bar)
        } else {
            bars_at(bars, time)
        },
    decreases bars.len(),
{
    let after = bars.insert(at, bar);
    if at == bars.len() {
        assert(after.drop_last() =~= bars);
    } else {
        let rest = bars.drop_last();
        assert(after.drop_last() =~= rest.insert(at, bar));
        assert(after.last() == bars.last());
        assert forall|i: int| at <= i < rest.len() implies rest[i].time > bar.time by {
            assert(bars[i].time > bar.time);
        }
        lemma_bars_at_insert(rest, at, bar, time);
        if bar.time == time {
            assert(bars.last().time > time);
        }
    }
}

/// Putting bars in order keeps every bar, orders them by time, and leaves those of one time in the
/// order they had.
pub proof fn ordering_keeps_the_bars(bars: Seq<Bar>, time: u32)
    ensures
        in_order(bars).len() == bars.len(),
        ascending(in_order(bars)),
        in_order(bars).to_multiset() == bars.to_multiset(),
        bars_at(in_order(bars), time) == bars_at(bars, time),
    decreases bars.len(),
{
    if bars.len() > 0 {
        let rest = bars.drop_last();
        let bar = bars.last();
        let before = in_order(rest);
        ordering_keeps_the_bars(rest, time);
        lemma_slot(before, bar.time);
        let at = slot(before, bar.time);
        lemma_bars_at_insert(before, at, bar, time);
        let after = before.insert(at, bar);
        assert(after.remove(at) =~= before);
        broadcast use vstd::seq_lib::group_to_multiset_ensures;
        assert(bars =~= rest.push(bar));
    }
}

/// Bars that are in order stay as they are.
pub proof fn ordered_bars_stay(bars: Seq<Bar>)
    requires
        ascending(bars),
    ensures
        in_order(bars) == bars,
    decreases bars.len(),
{
    if bars.len() > 0 {
        let rest = bars.drop_last();
        assert(ascending(rest));
        ordered_bars_stay(rest);
        assert(rest.len() > 0 ==> rest.last().time <= bars.last().time);
        assert(rest.insert(rest.len() as int, bars.last()) =~= bars);
    }
}

/// Puts bars in ascending order of time. A symbol may span several files; the merged bars have to
/// ascend for whatever assumes ordered input.
pub fn sort_bars(bars: &Vec<Bar>) -> (r: Vec<Bar>)
    ensures
        r@ == in_order(bars@),
{
    let mut out: Vec<Bar> = Vec::new();
    let mut i: usize = 0;
    while i < bars.len()
        invariant
            i <= bars.len(),
            out@ == in_order(bars@.take(i as int)),
        decreases bars.len() - i,
    {
        let bar = bars[i];
        let ghost before = out@;
        let mut at: usize = out.len();
        assert(before.take(at as int) =~= before);
        while at > 0 && out[at - 1].time > bar.time
            invariant
                at <= out.len(),
                out@ == before,
                slot(before, bar.time) == slot(before.take(at as int), bar.time),
            decreases at,
        {
            assert(before.take(at as int).drop_last() =~= before.take(at - 1));
            at -= 1;
        }
        proof {
            assert(at > 0 ==> before.take(at as int).last() == before[at - 1]);
            assert(bars@.take(i + 1).drop_last() =~= bars@.take(i as int));
            assert(bars@.take(i + 1).last() == bar);
        }
        out.insert(at, bar);
        i += 1;
    }
    assert(bars@.take(i as int) =~= bars@);
    out
}

} // verus!
