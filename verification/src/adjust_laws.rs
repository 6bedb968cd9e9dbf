//! What adjusting a series comes to: the factors that corporate actions put on prices and volumes.
use vstd::prelude::*;

use crate::adjust::{ActionKind, ActionSpec, AdjustmentMode, CorporateAction, Number, Ratio, Step};
use crate::model::Bar;

verus! {

/// Whether two ratios of whole numbers are the same number.
pub open spec fn same_ratio(a: (int, int), b: (int, int)) -> bool {
    a.1 > 0 && b.1 > 0 && a.0 * b.1 == b.0 * a.1
}

/// Whether a step does to the bars before an ex-date what the action does: a split divides prices by
/// its ratio and multiplies volumes by it; a dividend, in a total-return series, scales prices by
/// what is left of the last close before the ex-date, if anything is, and leaves volumes alone.
pub open spec fn does(
    step: Step,
    action: CorporateAction,
    mode: AdjustmentMode,
    close: u32,
) -> bool {
    match action.kind {
        ActionKind::Split { ratio } => {
            &&& same_ratio(step.price_factor(), (ratio.den as int, ratio.num as int))
            &&& same_ratio(step.volume_factor(), (ratio.num as int, ratio.den as int))
        },
        ActionKind::CashDividend { amount } => {
            let (paid, worth) = (amount.num * 10_000, close * amount.den);
            &&& same_ratio(step.volume_factor(), (1, 1))
            &&& same_ratio(
                step.price_factor(),
                if mode == AdjustmentMode::TotalReturn && paid < worth {
                    (worth - paid, worth)
                } else {
                    (1, 1)
                },
            )
        },
    }
}

/// A split scales prices by one over its ratio and volumes by the ratio, in every mode but raw; a
/// dividend only scales prices, and only in a total-return series.
pub proof fn a_step_does_what_its_action_does(
    action: CorporateAction,
    mode: AdjustmentMode,
    close: u32,
)
    requires
        action.valid(),
        mode != AdjustmentMode::Raw,
    ensures
        does(crate::adjust::step_of(action, mode, close), action, mode, close),
{
    let step = crate::adjust::step_of(action, mode, close);
    match action.kind {
        ActionKind::Split { ratio } => {
            let (n, d) = (ratio.num as int, ratio.den as int);
            assert(n * d == d * n) by (nonlinear_arith);
            assert(d * n == d * n && 1 * n == n * 1 && 1 * d == d * 1);
        },
        ActionKind::CashDividend { amount } => {
            let (paid, worth) = (amount.num * 10_000, close * amount.den);
            if paid < worth {
                let left = worth - paid;
                assert(left * worth == left * worth);
            }
        },
    }
}

/// Whether bar `j` is the last before an instant.
pub open spec fn last_before(bars: Seq<Bar>, j: int, time: u32) -> bool {
    &&& 0 <= j < bars.len()
    &&& bars[j].time < time
    &&& j + 1 == bars.len() || bars[j + 1].time >= time
}

/// Whether a step does what an action does in a series, which has a last bar before the ex-date.
pub open spec fn does_in(
    step: Step,
    action: CorporateAction,
    mode: AdjustmentMode,
    bars: Seq<Bar>,
) -> bool {
    exists|j: int|
        #[trigger] last_before(bars, j, action.time) && does(step, action, mode, bars[j].close)
}

proof fn lemma_after(actions: Seq<CorporateAction>, mode: AdjustmentMode, bar: Bar)
    ensures
        ({
            let s = crate::adjust::steps_after(actions, mode, bar);
            let n = actions.len() as int;
            &&& s.len() <= n
            &&& forall|k: int|
                0 <= k < s.len() ==> #[trigger] s[k] == crate::adjust::step_of(
                    actions[n - 1 - k],
                    mode,
                    bar.close,
                )
            &&& forall|m: int|
                n - s.len() <= m < n ==> (#[trigger] actions[m]).time > bar.time
            &&& s.len() < n ==> actions[n - 1 - s.len()].time <= bar.time
        }),
    decreases actions.len(),
{
    let n = actions.len() as int;
    if n > 0 && actions.last().time > bar.time {
        let init = actions.drop_last();
        lemma_after(init, mode, bar);
        let rest = crate::adjust::steps_after(init, mode, bar);
        let s = crate::adjust::steps_after(actions, mode, bar);
        assert forall|k: int| 0 <= k < s.len() implies #[trigger] s[k] == crate::adjust::step_of(
            actions[n - 1 - k],
            mode,
            bar.close,
        ) by {
            if k > 0 {
                assert(s[k] == rest[k - 1]);
                assert(init[n - 1 - k] == actions[n - 1 - k]);
            }
        }
        assert forall|m: int| n - s.len() <= m < n implies (#[trigger] actions[m]).time
            > bar.time by {
            if m < n - 1 {
                assert(init[m] == actions[m]);
            }
        }
        if s.len() < n {
            assert(init[n - 1 - s.len()] == actions[n - 1 - s.len()]);
        }
    }
}

/// The steps of a bar are those of exactly the actions whose ex-date is strictly after it, latest
/// first, in split-only mode as in total return. Each does what its action does, a dividend by the
/// close of the last bar before its ex-date.
pub proof fn later_actions_apply(
    bars: Seq<Bar>,
    actions: Seq<CorporateAction>,
    mode: AdjustmentMode,
    i: int,
)
    requires
        mode != AdjustmentMode::Raw,
        forall|a: int, b: int|
            0 <= a <= b < bars.len() ==> (#[trigger] bars[a]).time <= (#[trigger] bars[b]).time,
        forall|a: int, b: int|
            0 <= a <= b < actions.len() ==> (#[trigger] actions[a]).time <= (#[trigger]
            actions[b]).time,
        forall|a: int| 0 <= a < actions.len() ==> (#[trigger] actions[a]).valid(),
        0 <= i < bars.len(),
    ensures
        ({
            let steps = crate::adjust::steps_from(bars, actions, mode, i);
            let n = actions.len() as int;
            &&& steps.len() <= n
            &&& forall|m: int|
                0 <= m < n ==> ((#[trigger] actions[m]).time > bars[i].time <==> m >= n
                    - steps.len())
            &&& forall|k: int|
                0 <= k < steps.len() ==> does_in(
                    #[trigger] steps[k],
                    actions[n - 1 - k],
                    mode,
                    bars,
                )
        }),
    decreases bars.len() - i,
{
    let n = actions.len() as int;
    let steps = crate::adjust::steps_from(bars, actions, mode, i);
    let later = crate::adjust::steps_from(bars, actions, mode, i + 1);
    if i + 1 < bars.len() {
        later_actions_apply(bars, actions, mode, i + 1);
    }
    let c = later.len() as int;
    let head = actions.take(n - c);
    let s = crate::adjust::steps_after(head, mode, bars[i]);
    lemma_after(head, mode, bars[i]);
    assert(steps =~= later + s);
    assert forall|m: int| 0 <= m < n implies ((#[trigger] actions[m]).time > bars[i].time <==> m
        >= n - steps.len()) by {
        if m >= n - c {
            assert(bars[i].time <= bars[i + 1].time);
        } else if m >= n - c - s.len() {
            assert(head[m].time > bars[i].time);
        } else {
            let e = n - c - s.len() - 1;
            assert(head[e] == actions[e]);
            assert(actions[m].time <= actions[e].time);
        }
    }
    assert forall|k: int| 0 <= k < steps.len() implies does_in(
        #[trigger] steps[k],
        actions[n - 1 - k],
        mode,
        bars,
    ) by {
        if k < c {
            assert(steps[k] == later[k]);
        } else {
            let m = n - 1 - k;
            assert(steps[k] == s[k - c]);
            assert(head[m] == actions[m]);
            assert(head[m].time > bars[i].time);
            assert(actions[m].valid());
            a_step_does_what_its_action_does(actions[m], mode, bars[i].close);
            assert(last_before(bars, i, actions[m].time));
        }
    }
}

/// What a series of steps does to a bar is what each does to it in turn: nothing for none, and one
/// factor more for one step more.
pub proof fn each_step_is_one_more_factor(steps: Seq<Step>, step: Step)
    ensures
        crate::adjust::price_product(Seq::<Step>::empty()) == (1int, 1int),
        crate::adjust::volume_product(Seq::<Step>::empty()) == (1int, 1int),
        crate::adjust::price_product(steps.push(step)).0 == crate::adjust::price_product(steps).0
            * step.price_factor().0,
        crate::adjust::price_product(steps.push(step)).1 == crate::adjust::price_product(steps).1
            * step.price_factor().1,
        crate::adjust::volume_product(steps.push(step)).0 == crate::adjust::volume_product(steps).0
            * step.volume_factor().0,
        crate::adjust::volume_product(steps.push(step)).1 == crate::adjust::volume_product(steps).1
            * step.volume_factor().1,
{
    assert(steps.push(step).drop_last() =~= steps);
}

/// Splits change how a holding is counted, not what it is worth: price times volume stays.
pub proof fn splits_keep_the_turnover(steps: Seq<Step>)
    requires
        forall|k: int| 0 <= k < steps.len() ==> !(#[trigger] steps[k] is Dividend),
    ensures
        crate::adjust::price_product(steps).0 * crate::adjust::volume_product(steps).0
            == crate::adjust::price_product(steps).1 * crate::adjust::volume_product(steps).1,
    decreases steps.len(),
{
    if steps.len() > 0 {
        let init = steps.drop_last();
        assert forall|k: int| 0 <= k < init.len() implies !(#[trigger] init[k] is Dividend) by {
            assert(init[k] == steps[k]);
        }
        splits_keep_the_turnover(init);
        assert(!(steps[steps.len() - 1] is Dividend));
        let step = steps.last();
        let (p, q) = crate::adjust::price_product(init);
        let (x, y) = crate::adjust::volume_product(init);
        let (n, d) = step.price_factor();
        let (v, w) = step.volume_factor();
        assert(n * v == d * w) by {
            match step {
                Step::Split { ratio } => {
                    let (a, b) = (ratio.num as int, ratio.den as int);
                    assert(b * a == a * b) by (nonlinear_arith);
                },
                _ => {},
            }
        }
        assert((p * n) * (x * v) == (q * d) * (y * w)) by (nonlinear_arith)
            requires
                p * x == q * y,
                n * v == d * w,
        {
            assert((p * n) * (x * v) == (p * x) * (n * v));
            assert((q * d) * (y * w) == (q * y) * (d * w));
        }
    }
}

/// The back-adjusted series has no jump at a split: what the old price becomes over the new one is
/// the old price over the new one, divided by the ratio. So a price that fell by just the ratio comes
/// out level.
pub proof fn a_split_leaves_no_jump(
    action: CorporateAction,
    ratio: Ratio,
    mode: AdjustmentMode,
    before: u32,
    after: u32,
)
    requires
        action.kind == (ActionKind::Split { ratio }),
        ratio.valid(),
        mode != AdjustmentMode::Raw,
        before * ratio.den == after * ratio.num,
    ensures
        ({
            let (n, d) = crate::adjust::step_of(action, mode, before).price_factor();
            d > 0 && before * n == after * d
        }),
{
    let (n, d) = crate::adjust::step_of(action, mode, before).price_factor();
    if ratio.num == ratio.den {
        assert(before == after) by (nonlinear_arith)
            requires
                before * ratio.den == after * ratio.num,
                ratio.num == ratio.den,
                ratio.num > 0,
        ;
    }
}

/// Whether a number is the ratio `n` to `d`.
pub open spec fn is_number(number: Number, n: u64, d: u64) -> bool {
    !number.negative && number.num == n && number.den == d
}

/// A row of the table is a split if it gives a split and no dividend, a dividend if it gives a
/// dividend and no split, of the very number that it gives, from the midnight of its date.
pub proof fn rows_say_what_they_stand_for(row: ActionSpec, zone: Seq<char>, action: CorporateAction)
    requires
        crate::adjust::row_action(row, zone) == Ok::<
            CorporateAction,
            crate::adjust::RowProblem,
        >(action),
    ensures
        match action.kind {
            ActionKind::Split { ratio } => row.dividend is None && row.split is Some && is_number(
                row.split->0,
                ratio.num,
                ratio.den,
            ) && ratio.num > 0 && ratio.den > 0 && ratio.num != ratio.den,
            ActionKind::CashDividend { amount } => row.split is None && row.dividend is Some
                && is_number(row.dividend->0, amount.num, amount.den) && amount.num > 0 && amount.den
                > 0,
        },
        crate::civil::date_named(row.date@) is Some,
        ({
            let (y, m, d) = crate::civil::date_named(row.date@)->0;
            crate::civil::civil_second(zone, (y, m, d, 0i8, 0i8, 0i8), 0) == Some(action.time as i64)
        }),
{
}

/// A row with one positive number, and a date that begins at a time a file can hold, is accepted; a
/// split has to change something besides.
pub proof fn sound_rows_are_accepted(row: ActionSpec, zone: Seq<char>, number: Number, second: i64)
    requires
        row.split is None != row.dividend is None,
        row.split is Some ==> row.split->0 == number && (2 * number.num <= number.den || number.num
            >= 2 * number.den),
        row.dividend is Some ==> row.dividend->0 == number,
        !number.negative && number.num > 0 && number.den > 0,
        crate::civil::date_named(row.date@) is Some,
        ({
            let (y, m, d) = crate::civil::date_named(row.date@)->0;
            crate::civil::civil_second(zone, (y, m, d, 0i8, 0i8, 0i8), 0) == Some(second)
        }),
        0 <= second <= u32::MAX,
    ensures
        crate::adjust::row_action(row, zone) is Ok,
{
}

/// The tokens that name each mode, and no others.
pub proof fn modes_by_name(value: Seq<char>)
    ensures
        AdjustmentMode::named(value) == Some(AdjustmentMode::Raw) <==> value == "raw"@,
        AdjustmentMode::named(value) == Some(AdjustmentMode::SplitOnly) <==> value == "split-only"@
            || value == "splits"@,
        AdjustmentMode::named(value) == Some(AdjustmentMode::TotalReturn) <==> value
            == "total-return"@ || value == "total"@,
{
    reveal_strlit("raw");
    reveal_strlit("split-only");
    reveal_strlit("splits");
    reveal_strlit("total-return");
    reveal_strlit("total");
    assert("raw"@.len() == 3 && "split-only"@.len() == 10 && "splits"@.len() == 6
        && "total-return"@.len() == 12 && "total"@.len() == 5);
}

/// Whether a number is within a twentieth of another.
pub open spec fn close_to(a: int, b: int) -> bool {
    20 * (a - b) < b && 20 * (b - a) < b
}

/// What looks like a split is one into, or out of, two or more shares, and takes the close to within
/// a twentieth of the next open.
pub proof fn apparent_splits_bridge_the_gap(prev: Bar, cur: Bar, ratio: Ratio)
    requires
        crate::adjust::split_between(prev, cur) == Some(ratio),
    ensures
        (ratio.num >= 2 && ratio.den == 1) || (ratio.num == 1 && ratio.den >= 2),
        ratio.den == 1 ==> prev.close > cur.open,
        ratio.num == 1 ==> prev.close < cur.open,
        ratio.den == 1 ==> close_to(prev.close as int, ratio.num * cur.open),
        ratio.num == 1 ==> close_to(cur.open as int, ratio.den * prev.close),
{
    let (a, b) = (prev.close as int, cur.open as int);
    if 2 * a > 3 * b {
        lemma_factor(a, b);
    } else {
        lemma_factor(b, a);
    }
}

proof fn lemma_factor(a: int, b: int)
    requires
        0 <= a <= u32::MAX,
        0 < b <= u32::MAX,
    ensures
        0 <= crate::adjust::nearest(a, b) <= u64::MAX,
{
    let f = crate::adjust::nearest(a, b);
    assert(0 <= f <= 2 * a + b) by (nonlinear_arith)
        requires
            f == (2 * a + b) / (2 * b),
            a >= 0,
            b > 0,
    ;
}

/// A price that falls or rises by just a whole factor of two or more looks like that split.
pub proof fn whole_factors_are_detected(prev: Bar, cur: Bar, factor: u32)
    requires
        factor >= 2,
        prev.close > 0,
        cur.open > 0,
    ensures
        prev.close == factor * cur.open ==> crate::adjust::split_between(prev, cur) == Some(
            Ratio { num: factor as u64, den: 1 },
        ),
        cur.open == factor * prev.close ==> crate::adjust::split_between(prev, cur) == Some(
            Ratio { num: 1, den: factor as u64 },
        ),
{
    let (a, b, f) = (prev.close as int, cur.open as int, factor as int);
    if a == f * b {
        lemma_whole(a, b, f);
    }
    if b == f * a {
        lemma_whole(b, a, f);
    }
}

proof fn lemma_whole(a: int, b: int, f: int)
    requires
        b > 0,
        f >= 2,
        a == f * b,
    ensures
        crate::adjust::nearest(a, b) == f,
        2 * a > 3 * b,
        f * b > 0,
{
    assert(2 * a + b == f * (2 * b) + b) by (nonlinear_arith)
        requires
            a == f * b,
    ;
    vstd::arithmetic::div_mod::lemma_fundamental_div_mod_converse(2 * a + b, 2 * b, f, b);
    assert(f * b >= 2 * b) by (nonlinear_arith)
        requires
            f >= 2,
            b > 0,
    ;
}

/// Prices that stay within half as much again of each other look like no split.
pub proof fn small_moves_are_no_splits(prev: Bar, cur: Bar)
    requires
        2 * prev.close <= 3 * cur.open,
        2 * cur.open <= 3 * prev.close,
    ensures
        crate::adjust::split_between(prev, cur) is None,
{
}

/// Splits are found between each bar and the next, at the time of the later one, in order.
pub proof fn splits_are_found_at_their_bars(bars: Seq<Bar>, bar: Bar)
    requires
        bars.len() > 0,
    ensures
        crate::adjust::apparent_splits(seq![bar]) == Seq::<CorporateAction>::empty(),
        match crate::adjust::split_between(bars.last(), bar) {
            None => crate::adjust::apparent_splits(bars.push(bar)) == crate::adjust::apparent_splits(
                bars,
            ),
            Some(ratio) => crate::adjust::apparent_splits(bars.push(bar))
                == crate::adjust::apparent_splits(bars).push(
                CorporateAction { time: bar.time, kind: ActionKind::Split { ratio } },
            ),
        },
{
    assert(bars.push(bar).drop_last() =~= bars);
}

// ---- the table ---------------------------------------------------------------------------

/// The rows of a symbol stand for one action each, in order; the first that is refused is reported by
/// its place, with what is wrong with it.
pub proof fn rows_are_read_in_order(rows: Seq<ActionSpec>, zone: Seq<char>, i: int)
    requires
        rows.len() <= usize::MAX,
        0 <= i < rows.len(),
    ensures
        match crate::adjust::row_actions(rows, zone) {
            Ok(actions) => actions.len() == rows.len() && crate::adjust::row_action(rows[i], zone)
                == Ok::<CorporateAction, crate::adjust::RowProblem>(actions[i]),
            Err(e) => {
                &&& e.row < rows.len()
                &&& i < e.row ==> crate::adjust::row_action(rows[i], zone) is Ok
                &&& i == e.row ==> crate::adjust::row_action(rows[i], zone) == Err::<
                    CorporateAction,
                    crate::adjust::RowProblem,
                >(e.problem)
            },
        },
    decreases rows.len(),
{
    let init = rows.drop_last();
    if i < init.len() {
        rows_are_read_in_order(init, zone, i);
        assert(init[i] == rows[i]);
    } else if init.len() > 0 {
        rows_are_read_in_order(init, zone, init.len() - 1);
    }
}

/// The actions at a time, in order.
pub open spec fn at_time(actions: Seq<CorporateAction>, time: u32) -> Seq<CorporateAction> {
    actions.filter(|a: CorporateAction| a.time == time)
}

proof fn lemma_at_push(actions: Seq<CorporateAction>, action: CorporateAction, time: u32)
    ensures
        at_time(actions.push(action), time) == (if action.time == time {
            at_time(actions, time).push(action)
        } else {
            at_time(actions, time)
        }),
{
    reveal(Seq::filter);
    assert(actions.push(action).drop_last() =~= actions);
}

proof fn lemma_put(sorted: Seq<CorporateAction>, action: CorporateAction, time: u32)
    requires
        forall|i: int, j: int|
            0 <= i <= j < sorted.len() ==> (#[trigger] sorted[i]).time <= (#[trigger]
            sorted[j]).time,
    ensures
        at_time(crate::adjust::put_in_order(sorted, action), time) == at_time(
            sorted.push(action),
            time,
        ),
    decreases sorted.len(),
{
    if sorted.len() > 0 && sorted.last().time > action.time {
        let init = sorted.drop_last();
        let x = sorted.last();
        assert forall|i: int, j: int| 0 <= i <= j < init.len() implies (#[trigger] init[i]).time <= (
        #[trigger] init[j]).time by {
            assert(init[i] == sorted[i] && init[j] == sorted[j]);
        }
        lemma_put(init, action, time);
        lemma_at_push(crate::adjust::put_in_order(init, action), x, time);
        lemma_at_push(init, action, time);
        lemma_at_push(init, x, time);
        lemma_at_push(sorted, action, time);
        assert(init.push(x) =~= sorted);
    }
}

/// Actions at one time keep the order in which the table gives them.
pub proof fn actions_at_one_time_keep_their_order(actions: Seq<CorporateAction>, time: u32)
    ensures
        at_time(crate::adjust::in_order(actions), time) == at_time(actions, time),
    decreases actions.len(),
{
    if actions.len() > 0 {
        let init = actions.drop_last();
        actions_at_one_time_keep_their_order(init, time);
        crate::adjust::order_keeps_the_actions(init);
        lemma_put(crate::adjust::in_order(init), actions.last(), time);
        lemma_at_push(crate::adjust::in_order(init), actions.last(), time);
        lemma_at_push(init, actions.last(), time);
        assert(init.push(actions.last()) =~= actions);
    }
}

/// A symbol's actions are those of its own entry, in order of time; a symbol without one has none.
pub proof fn symbols_have_their_own_actions(
    entries: Seq<crate::adjust::SymbolActions>,
    symbol: Seq<char>,
    zone: Seq<char>,
)
    ensures
        match crate::adjust::entry_of(entries, symbol) {
            None => crate::adjust::resolved(entries, symbol, zone) == Ok::<
                Seq<CorporateAction>,
                crate::adjust::ActionError,
            >(Seq::empty()) && forall|i: int|
                0 <= i < entries.len() ==> crate::symbol::normalized(
                    (#[trigger] entries[i]).symbol@,
                ) != crate::symbol::normalized(symbol),
            Some(i) => {
                &&& 0 <= i < entries.len()
                &&& crate::symbol::normalized(entries[i].symbol@) == crate::symbol::normalized(
                    symbol,
                )
                &&& match crate::adjust::row_actions(entries[i].rows@, zone) {
                    Err(e) => crate::adjust::resolved(entries, symbol, zone) == Err::<
                        Seq<CorporateAction>,
                        crate::adjust::ActionError,
                    >(e),
                    Ok(actions) => crate::adjust::resolved(entries, symbol, zone) == Ok::<
                        Seq<CorporateAction>,
                        crate::adjust::ActionError,
                    >(crate::adjust::in_order(actions)),
                }
            },
        },
    decreases entries.len(),
{
    if entries.len() > 0 {
        let init = entries.drop_last();
        symbols_have_their_own_actions(init, symbol, zone);
        match crate::adjust::entry_of(init, symbol) {
            Some(i) => {
                assert(init[i] == entries[i]);
            },
            None => {
                if crate::adjust::entry_of(entries, symbol) is None {
                    assert forall|i: int| 0 <= i < entries.len() implies crate::symbol::normalized(
                        (#[trigger] entries[i]).symbol@,
                    ) != crate::symbol::normalized(symbol) by {
                        if i < init.len() {
                            assert(init[i] == entries[i]);
                        }
                    }
                }
            },
        }
    }
}

} // verus!
