//! Corporate actions and price adjustment.
//!
//! Ticks in an archive are **raw trade prints** — the prices that actually changed hands. A split
//! therefore shows up as a discontinuity: AAPL's 4-for-1 in August 2020 drops the close from
//! $498.90 to $127.62 overnight, which any return calculation reads as a −75% day.
//!
//! Rather than rewriting stored prices, actions are kept in a small hand-auditable table and the
//! adjustment is applied **in memory at read time**. That keeps the raw prints recoverable, avoids
//! rewriting gigabytes when a new split lands, avoids compounding fixed-point rounding, and lets
//! one archive serve raw, split-adjusted, and total-return views of the same data.
//!
//! An adjustment is a list of steps, latest action first, and a number of steps for each bar: a
//! bar's factor is the product of that many steps, taken exactly, as a ratio of whole numbers.
use vstd::prelude::*;

use crate::civil::{parse_date, Zone};
use crate::grouping::{comes_before, order_of_texts_carries_over, place, texts_are_ordered, Side};
use crate::model::Bar;
use crate::symbol::normalize_symbol;
use crate::text::same;

verus! {

/// A number as a ratio of whole numbers: 4-for-1 is 4/1, 0.75 is 75/100.
#[derive(Debug, Clone, Copy, PartialEq, Eq, Structural)]
pub struct Ratio {
    pub num: u64,
    pub den: u64,
}

impl Ratio {
    /// Above zero.
    pub open spec fn valid(self) -> bool {
        self.num > 0 && self.den > 0
    }
}

/// What happened to the share class.
#[derive(Debug, Clone, Copy, PartialEq, Eq, Structural)]
pub enum ActionKind {
    /// New shares per old share: 4 is a 4-for-1 split, 0.1 a 1-for-10 reverse split.
    Split { ratio: Ratio },
    /// Cash paid per share.
    CashDividend { amount: Ratio },
}

/// A corporate action, stamped at the ex-date's exchange-local midnight.
#[derive(Debug, Clone, Copy, PartialEq, Eq, Structural)]
pub struct CorporateAction {
    pub time: u32,
    pub kind: ActionKind,
}

impl CorporateAction {
    pub open spec fn valid(self) -> bool {
        match self.kind {
            ActionKind::Split { ratio } => ratio.valid(),
            ActionKind::CashDividend { amount } => amount.den > 0,
        }
    }
}

/// Which adjustments to apply when reading prices.
#[derive(Debug, Clone, Copy, PartialEq, Eq, Structural)]
pub enum AdjustmentMode {
    /// Exactly what traded. Splits appear as discontinuities.
    Raw,
    /// Back-adjust splits only — the right default for price-based research.
    SplitOnly,
    /// Splits plus dividends reinvested, giving a total-return series.
    TotalReturn,
}

impl Default for AdjustmentMode {
    fn default() -> (r: Self)
        ensures
            r == AdjustmentMode::SplitOnly,
    {
        AdjustmentMode::SplitOnly
    }
}

impl AdjustmentMode {
    /// The mode that a token names.
    pub open spec fn named(value: Seq<char>) -> Option<AdjustmentMode> {
        if value == "raw"@ {
            Some(AdjustmentMode::Raw)
        } else if value == "split-only"@ || value == "splits"@ {
            Some(AdjustmentMode::SplitOnly)
        } else if value == "total-return"@ || value == "total"@ {
            Some(AdjustmentMode::TotalReturn)
        } else {
            None
        }
    }

    /// Parses a CLI token. Returns `None` for anything unrecognized so a token classifier can
    /// fall through to paths and symbols.
    pub fn from_token(value: &str) -> (r: Option<Self>)
        ensures
            r == AdjustmentMode::named(value@),
    {
        if same(value, "raw") {
            Some(AdjustmentMode::Raw)
        } else if same(value, "split-only") || same(value, "splits") {
            Some(AdjustmentMode::SplitOnly)
        } else if same(value, "total-return") || same(value, "total") {
            Some(AdjustmentMode::TotalReturn)
        } else {
            None
        }
    }
}

// ---- the action table --------------------------------------------------------------

/// A number as it stands in a table: `num / den`, below zero where `negative`. A denominator of zero
/// stands for a number that is not finite.
#[derive(Debug, Clone, Copy, PartialEq, Eq, Structural)]
pub struct Number {
    pub negative: bool,
    pub num: u64,
    pub den: u64,
}

impl Number {
    /// Finite and above zero.
    pub open spec fn positive(self) -> bool {
        self.den > 0 && self.num > 0 && !self.negative
    }

    /// What double precision takes for one: the numbers that round to one, or to the double just
    /// below it.
    pub open spec fn about_one(self) -> bool {
        if self.num < self.den {
            (self.den - self.num) * 0x40_0000_0000_0000 < 3 * self.den
        } else {
            (self.num - self.den) * 0x20_0000_0000_0000 <= self.den
        }
    }
}

/// One row of the `[actions]` table.
#[derive(Debug)]
pub struct ActionSpec {
    /// Ex-date as `YYYY-MM-DD`, in the exchange timezone.
    pub date: String,
    /// New shares per old share.
    pub split: Option<Number>,
    /// Cash per share.
    pub dividend: Option<Number>,
}

/// One symbol's rows.
#[derive(Debug)]
pub struct SymbolActions {
    pub symbol: String,
    pub rows: Vec<ActionSpec>,
}

/// The `[actions]` table: symbols in key order, each once, with its actions.
#[derive(Debug)]
pub struct ActionTable {
    entries: Vec<SymbolActions>,
}

impl View for ActionTable {
    type V = Seq<SymbolActions>;

    closed spec fn view(&self) -> Seq<SymbolActions> {
        self.entries@
    }
}

/// Whether entries stand in the order of their symbols, no symbol twice.
pub open spec fn keyed(entries: Seq<SymbolActions>) -> bool {
    forall|i: int, j: int|
        0 <= i < j < entries.len() ==> comes_before(
            (#[trigger] entries[i]).symbol@,
            (#[trigger] entries[j]).symbol@,
        )
}

/// The entries with one more in its place; one of the same symbol gives way to it.
pub open spec fn put_entry(entries: Seq<SymbolActions>, entry: SymbolActions) -> Seq<SymbolActions>
    decreases entries.len(),
{
    if entries.len() == 0 {
        entries.push(entry)
    } else if comes_before(entry.symbol@, entries.last().symbol@) {
        put_entry(entries.drop_last(), entry).push(entries.last())
    } else if entries.last().symbol@ == entry.symbol@ {
        entries.drop_last().push(entry)
    } else {
        entries.push(entry)
    }
}

proof fn lemma_put_entry(entries: Seq<SymbolActions>, entry: SymbolActions)
    requires
        keyed(entries),
    ensures
        keyed(put_entry(entries, entry)),
        forall|i: int|
            0 <= i < put_entry(entries, entry).len() ==> ({
                let put = #[trigger] put_entry(entries, entry)[i];
                put == entry || exists|j: int| 0 <= j < entries.len() && #[trigger] entries[j] == put
            }),
    decreases entries.len(),
{
    let put = put_entry(entries, entry);
    let n = entries.len() - 1;
    if entries.len() > 0 {
        let init = entries.drop_last();
        let last = entries[n];
        assert(keyed(init)) by {
            assert forall|i: int, j: int| 0 <= i < j < init.len() implies comes_before(
                (#[trigger] init[i]).symbol@,
                (#[trigger] init[j]).symbol@,
            ) by {
                assert(entries[i] == init[i] && entries[j] == init[j]);
            }
        }
        assert forall|i: int| 0 <= i < init.len() implies comes_before(
            (#[trigger] init[i]).symbol@,
            last.symbol@,
        ) by {
            assert(entries[i] == init[i]);
        }
        texts_are_ordered(entry.symbol@, last.symbol@);
        if comes_before(entry.symbol@, last.symbol@) {
            lemma_put_entry(init, entry);
            let before = put_entry(init, entry);
            assert forall|i: int, j: int| 0 <= i < j < put.len() implies comes_before(
                (#[trigger] put[i]).symbol@,
                (#[trigger] put[j]).symbol@,
            ) by {
                assert(put[i] == before[i]);
                if j < before.len() {
                    assert(put[j] == before[j]);
                } else if before[i] != entry {
                    let k = choose|k: int| 0 <= k < init.len() && #[trigger] init[k] == before[i];
                    assert(comes_before(init[k].symbol@, last.symbol@));
                }
            }
            assert forall|i: int| 0 <= i < put.len() implies (#[trigger] put[i]) == entry
                || exists|j: int| 0 <= j < entries.len() && #[trigger] entries[j] == put[i] by {
                if i < before.len() {
                    assert(put[i] == before[i]);
                    if before[i] != entry {
                        let k = choose|k: int|
                            0 <= k < init.len() && #[trigger] init[k] == before[i];
                        assert(entries[k] == put[i]);
                    }
                } else {
                    assert(entries[n] == put[i]);
                }
            }
        } else {
            let kept = if last.symbol@ == entry.symbol@ {
                init
            } else {
                entries
            };
            assert(put == kept.push(entry));
            assert forall|i: int, j: int| 0 <= i < j < put.len() implies comes_before(
                (#[trigger] put[i]).symbol@,
                (#[trigger] put[j]).symbol@,
            ) by {
                assert(put[i] == entries[i]);
                if j < kept.len() {
                    assert(put[j] == entries[j]);
                } else if i < n {
                    assert(init[i] == entries[i]);
                    if last.symbol@ != entry.symbol@ {
                        order_of_texts_carries_over(
                            init[i].symbol@,
                            last.symbol@,
                            entry.symbol@,
                        );
                    }
                }
            }
            assert forall|i: int| 0 <= i < put.len() implies (#[trigger] put[i]) == entry
                || exists|j: int| 0 <= j < entries.len() && #[trigger] entries[j] == put[i] by {
                if i < kept.len() {
                    assert(entries[i] == put[i]);
                }
            }
        }
    }
}

/// What is wrong with a row.
#[derive(Debug, Clone, Copy, PartialEq, Eq, Structural)]
pub enum RowProblem {
    /// Both a split and a dividend.
    Both,
    /// Neither a split nor a dividend.
    Neither,
    /// A split ratio that is not positive, or is one.
    BadRatio,
    /// A dividend that is not positive.
    BadAmount,
    /// An ex-date that does not read as a date.
    BadDate,
    /// An ex-date that is not a valid local time.
    NotLocal,
    /// An ex-date outside the times that a file can hold.
    OutOfRange,
}

/// A row that is refused.
#[derive(Debug, Clone, Copy, PartialEq, Eq, Structural)]
pub struct ActionError {
    /// The number of the row among its symbol's.
    pub row: usize,
    pub problem: RowProblem,
}

/// What a row's split or dividend amounts to.
pub open spec fn row_kind(split: Option<Number>, dividend: Option<Number>) -> Result<
    ActionKind,
    RowProblem,
> {
    match (split, dividend) {
        (Some(_), Some(_)) => Err(RowProblem::Both),
        (None, None) => Err(RowProblem::Neither),
        (Some(n), None) => if !n.positive() || n.about_one() {
            Err(RowProblem::BadRatio)
        } else {
            Ok(ActionKind::Split { ratio: Ratio { num: n.num, den: n.den } })
        },
        (None, Some(n)) => if !n.positive() {
            Err(RowProblem::BadAmount)
        } else {
            Ok(ActionKind::CashDividend { amount: Ratio { num: n.num, den: n.den } })
        },
    }
}

/// The local midnight of an ex-date.
pub open spec fn ex_time(date: Seq<char>, zone: Seq<char>) -> Result<u32, RowProblem> {
    match crate::civil::date_named(date) {
        None => Err(RowProblem::BadDate),
        Some((year, month, day)) => match crate::civil::civil_second(
            zone,
            (year, month, day, 0i8, 0i8, 0i8),
            0,
        ) {
            None => Err(RowProblem::NotLocal),
            Some(second) => if 0 <= second <= u32::MAX {
                Ok(second as u32)
            } else {
                Err(RowProblem::OutOfRange)
            },
        },
    }
}

/// What a row stands for. What it says is looked at before its date.
pub open spec fn row_action(row: ActionSpec, zone: Seq<char>) -> Result<
    CorporateAction,
    RowProblem,
> {
    match row_kind(row.split, row.dividend) {
        Err(problem) => Err(problem),
        Ok(kind) => match ex_time(row.date@, zone) {
            Err(problem) => Err(problem),
            Ok(time) => Ok(CorporateAction { time, kind }),
        },
    }
}

/// What rows stand for, in the order of the table, or the first that is refused.
pub open spec fn row_actions(rows: Seq<ActionSpec>, zone: Seq<char>) -> Result<
    Seq<CorporateAction>,
    ActionError,
>
    decreases rows.len(),
{
    if rows.len() == 0 {
        Ok(Seq::empty())
    } else {
        match row_actions(rows.drop_last(), zone) {
            Err(e) => Err(e),
            Ok(before) => match row_action(rows.last(), zone) {
                Err(problem) => Err(ActionError { row: (rows.len() - 1) as usize, problem }),
                Ok(action) => Ok(before.push(action)),
            },
        }
    }
}

/// An action put into a list by time, behind those at the same time.
pub open spec fn put_in_order(
    sorted: Seq<CorporateAction>,
    action: CorporateAction,
) -> Seq<CorporateAction>
    decreases sorted.len(),
{
    if sorted.len() > 0 && sorted.last().time > action.time {
        put_in_order(sorted.drop_last(), action).push(sorted.last())
    } else {
        sorted.push(action)
    }
}

/// Actions by time; those at the same time keep their order.
pub open spec fn in_order(actions: Seq<CorporateAction>) -> Seq<CorporateAction>
    decreases actions.len(),
{
    if actions.len() == 0 {
        Seq::empty()
    } else {
        put_in_order(in_order(actions.drop_last()), actions.last())
    }
}

pub open spec fn ascending(actions: Seq<CorporateAction>) -> bool {
    forall|i: int, j: int| 0 <= i <= j < actions.len() ==> (#[trigger] actions[i]).time <= (
    #[trigger] actions[j]).time
}

proof fn lemma_put_in_order(sorted: Seq<CorporateAction>, action: CorporateAction)
    requires
        ascending(sorted),
    ensures
        ascending(put_in_order(sorted, action)),
        put_in_order(sorted, action).to_multiset() == sorted.to_multiset().insert(action),
        put_in_order(sorted, action).len() == sorted.len() + 1,
        sorted.len() > 0 && sorted.last().time > action.time ==> put_in_order(
            sorted,
            action,
        ).last().time == sorted.last().time,
        forall|i: int|
            0 <= i < put_in_order(sorted, action).len() ==> (#[trigger] put_in_order(
                sorted,
                action,
            )[i]).time <= crate::aggregate::larger(
                action.time as int,
                if sorted.len() > 0 {
                    sorted.last().time as int
                } else {
                    0
                },
            ),
    decreases sorted.len(),
{
    broadcast use vstd::seq_lib::group_to_multiset_ensures;

    if sorted.len() > 0 && sorted.last().time > action.time {
        let init = sorted.drop_last();
        let x = sorted.last();
        lemma_put_in_order(init, action);
        let p = put_in_order(init, action);
        assert(init.push(x) =~= sorted);
        assert(p.push(x).to_multiset() =~= p.to_multiset().insert(x));
        assert(sorted.to_multiset() =~= init.to_multiset().insert(x));
        assert(p.push(x).to_multiset() =~= sorted.to_multiset().insert(action));
        assert(init.len() > 0 ==> init.last().time <= x.time);
    } else {
        assert(sorted.push(action).to_multiset() =~= sorted.to_multiset().insert(action));
    }
}

/// Putting actions in order sorts them by time and keeps every one.
pub proof fn order_keeps_the_actions(actions: Seq<CorporateAction>)
    ensures
        ascending(in_order(actions)),
        in_order(actions).to_multiset() == actions.to_multiset(),
        in_order(actions).len() == actions.len(),
    decreases actions.len(),
{
    broadcast use vstd::seq_lib::group_to_multiset_ensures;

    if actions.len() > 0 {
        order_keeps_the_actions(actions.drop_last());
        lemma_put_in_order(in_order(actions.drop_last()), actions.last());
        assert(actions.drop_last().push(actions.last()) =~= actions);
    } else {
        assert(in_order(actions) =~= actions);
    }
}

/// The first entry whose symbol is the wanted one, case aside.
pub open spec fn entry_of(entries: Seq<SymbolActions>, symbol: Seq<char>) -> Option<int>
    decreases entries.len(),
{
    if entries.len() == 0 {
        None
    } else {
        match entry_of(entries.drop_last(), symbol) {
            Some(i) => Some(i),
            None => if crate::symbol::normalized(entries.last().symbol@)
                == crate::symbol::normalized(symbol) {
                Some(entries.len() - 1)
            } else {
                None
            },
        }
    }
}

/// A symbol's actions in order of time: none for a symbol that has no entry.
pub open spec fn resolved(entries: Seq<SymbolActions>, symbol: Seq<char>, zone: Seq<char>) -> Result<
    Seq<CorporateAction>,
    ActionError,
> {
    match entry_of(entries, symbol) {
        None => Ok(Seq::empty()),
        Some(i) => match row_actions(entries[i].rows@, zone) {
            Ok(actions) => Ok(in_order(actions)),
            Err(e) => Err(e),
        },
    }
}

fn read_kind(split: Option<Number>, dividend: Option<Number>) -> (r: Result<ActionKind, RowProblem>)
    ensures
        r == row_kind(split, dividend),
{
    match (split, dividend) {
        (Some(_), Some(_)) => Err(RowProblem::Both),
        (None, None) => Err(RowProblem::Neither),
        (Some(n), None) => {
            let positive = n.den > 0 && n.num > 0 && !n.negative;
            let one = if n.num < n.den {
                (n.den - n.num) as u128 * 0x40_0000_0000_0000 < 3 * (n.den as u128)
            } else {
                (n.num - n.den) as u128 * 0x20_0000_0000_0000 <= n.den as u128
            };
            if !positive || one {
                Err(RowProblem::BadRatio)
            } else {
                Ok(ActionKind::Split { ratio: Ratio { num: n.num, den: n.den } })
            }
        },
        (None, Some(n)) => if !(n.den > 0 && n.num > 0 && !n.negative) {
            Err(RowProblem::BadAmount)
        } else {
            Ok(ActionKind::CashDividend { amount: Ratio { num: n.num, den: n.den } })
        },
    }
}

fn read_row(row: &ActionSpec, tz: &Zone) -> (r: Result<CorporateAction, RowProblem>)
    ensures
        r == row_action(*row, tz@),
{
    let kind = match read_kind(row.split, row.dividend) {
        Ok(kind) => kind,
        Err(problem) => return Err(problem),
    };
    let date = match parse_date(row.date.as_str()) {
        Some(date) => date,
        None => return Err(RowProblem::BadDate),
    };
    match tz.second_of(date, 0) {
        None => Err(RowProblem::NotLocal),
        Some(second) => if 0 <= second && second <= u32::MAX as i64 {
            Ok(CorporateAction { time: second as u32, kind })
        } else {
            Err(RowProblem::OutOfRange)
        },
    }
}

/// Puts an action into an ordered list, behind those at the same time.
fn insert_by_time(list: &mut Vec<CorporateAction>, action: CorporateAction)
    ensures
        final(list)@ == put_in_order(old(list)@, action),
{
    let ghost before = list@;
    let mut at: usize = list.len();
    assert(before.take(at as int) =~= before);
    assert(before.skip(at as int) =~= Seq::empty());
    assert(put_in_order(before, action) =~= put_in_order(before, action) + Seq::empty());
    while at > 0 && list[at - 1].time > action.time
        invariant
            at <= list@.len(),
            list@ == before,
            put_in_order(before, action) == put_in_order(before.take(at as int), action)
                + before.skip(at as int),
        decreases at,
    {
        proof {
            let head = before.take(at as int);
            assert(head.drop_last() =~= before.take(at - 1));
            assert(put_in_order(before.take(at - 1), action).push(before[at - 1]) + before.skip(
                at as int,
            ) =~= put_in_order(before.take(at - 1), action) + before.skip(at - 1));
        }
        at -= 1;
    }
    list.insert(at, action);
    assert(list@ =~= before.take(at as int).push(action) + before.skip(at as int));
}

impl ActionTable {
    #[verifier::type_invariant]
    spec fn valid(&self) -> bool {
        keyed(self.entries@)
    }

    /// A table without entries.
    pub fn new() -> (r: Self)
        ensures
            r@ == Seq::<SymbolActions>::empty(),
    {
        ActionTable { entries: Vec::new() }
    }

    /// The table with a symbol's rows; rows it had for that very symbol give way to them.
    pub fn insert(self, symbol: String, rows: Vec<ActionSpec>) -> (r: Self)
        ensures
            r@ == put_entry(self@, (SymbolActions { symbol, rows })),
            keyed(r@),
    {
        proof {
            use_type_invariant(&self);
        }
        let mut entries = self.entries;
        let entry = SymbolActions { symbol, rows };
        let ghost before = entries@;
        let ghost put = put_entry(before, entry);
        let mut at: usize = entries.len();
        assert(before.take(at as int) =~= before);
        assert(put =~= put_entry(before.take(at as int), entry) + before.skip(at as int));
        while at > 0 && place(entry.symbol.as_str(), entries[at - 1].symbol.as_str())
            == Side::Before
            invariant
                at <= entries@.len(),
                entries@ == before,
                put == put_entry(before.take(at as int), entry) + before.skip(at as int),
            decreases at,
        {
            proof {
                let head = before.take(at as int);
                assert(head.drop_last() =~= before.take(at - 1));
                assert(put_entry(before.take(at - 1), entry).push(before[at - 1]) + before.skip(
                    at as int,
                ) =~= put_entry(before.take(at - 1), entry) + before.skip(at - 1));
            }
            at -= 1;
        }
        proof {
            lemma_put_entry(before, entry);
            if at > 0 {
                assert(before.take(at as int).last() == before[at - 1]);
                assert(before.take(at as int).drop_last() =~= before.take(at - 1));
            }
        }
        if at > 0 && same(entry.symbol.as_str(), entries[at - 1].symbol.as_str()) {
            entries.remove(at - 1);
            at -= 1;
            assert(entries@ =~= before.take(at as int) + before.skip(at + 1));
            entries.insert(at, entry);
            assert(entries@ =~= before.take(at as int).push(entry) + before.skip(at + 1));
        } else {
            entries.insert(at, entry);
            assert(entries@ =~= before.take(at as int).push(entry) + before.skip(at as int));
        }
        assert(entries@ =~= put);
        ActionTable { entries }
    }

    pub fn is_empty(&self) -> (r: bool)
        ensures
            r == (self@.len() == 0),
    {
        self.entries.len() == 0
    }

    /// The symbols of the table, in order, each once.
    pub fn symbols(&self) -> (r: Vec<String>)
        ensures
            crate::text::texts(r@) == self@.map_values(|e: SymbolActions| e.symbol@),
            forall|i: int, j: int|
                0 <= i < j < r@.len() ==> comes_before(
                    (#[trigger] r@[i])@,
                    (#[trigger] r@[j])@,
                ),
    {
        proof {
            use_type_invariant(self);
        }
        let mut out: Vec<String> = Vec::new();
        let mut i: usize = 0;
        while i < self.entries.len()
            invariant
                i <= self.entries.len(),
                out@.len() == i,
                forall|j: int| 0 <= j < i ==> (#[trigger] out@[j])@ == self.entries@[j].symbol@,
            decreases self.entries.len() - i,
        {
            out.push(self.entries[i].symbol.clone());
            i += 1;
        }
        assert(crate::text::texts(out@) =~= self.entries@.map_values(
            |e: SymbolActions| e.symbol@,
        ));
        out
    }

    /// Where a symbol's entry stands, whatever its case.
    fn find(&self, symbol: &str) -> (r: Option<usize>)
        ensures
            match entry_of(self@, symbol@) {
                Some(k) => r == Some(k as usize) && 0 <= k < self@.len() && k <= usize::MAX,
                None => r is None,
            },
    {
        let wanted = normalize_symbol(symbol);
        let mut k: usize = 0;
        while k < self.entries.len()
            invariant
                k <= self.entries.len(),
                wanted@ == crate::symbol::normalized(symbol@),
                entry_of(self.entries@.take(k as int), symbol@) is None,
            decreases self.entries.len() - k,
        {
            let key = normalize_symbol(self.entries[k].symbol.as_str());
            proof {
                assert(self.entries@.take(k + 1).drop_last() =~= self.entries@.take(k as int));
                assert(self.entries@.take(k + 1).last() == self.entries@[k as int]);
            }
            if same(key.as_str(), wanted.as_str()) {
                proof {
                    lemma_entry_stays(self.entries@, symbol@, k as int);
                }
                return Some(k);
            }
            k += 1;
        }
        assert(self.entries@.take(k as int) =~= self.entries@);
        None
    }

    /// A symbol's rows as they stand in the table; none for a symbol without an entry.
    pub fn rows(&self, symbol: &str) -> (r: Option<&Vec<ActionSpec>>)
        ensures
            match entry_of(self@, symbol@) {
                Some(k) => r == Some(&self@[k].rows),
                None => r is None,
            },
    {
        match self.find(symbol) {
            Some(k) => Some(&self.entries[k].rows),
            None => None,
        }
    }

    /// Resolves one symbol's actions into epoch-stamped form, sorted ascending.
    ///
    /// Symbol lookup is case-insensitive. An unknown symbol yields an empty list — a symbol with
    /// no corporate actions is the common case, not an error.
    pub fn resolve(&self, symbol: &str, tz: &Zone) -> (r: Result<
        Vec<CorporateAction>,
        ActionError,
    >)
        ensures
            match resolved(self@, symbol@, tz@) {
                Ok(actions) => r matches Ok(found) && found@ == actions,
                Err(e) => r matches Err(found) && found == e,
            },
            r matches Ok(found) ==> forall|i: int|
                0 <= i < found@.len() ==> (#[trigger] found@[i]).valid(),
    {
        let k: usize = match self.find(symbol) {
            Some(k) => k,
            None => return Ok(Vec::new()),
        };
        let rows = &self.entries[k].rows;
        let mut out: Vec<CorporateAction> = Vec::new();
        let ghost mut plain: Seq<CorporateAction> = Seq::empty();
        let mut i: usize = 0;
        while i < rows.len()
            invariant
                i <= rows.len(),
                row_actions(rows@.take(i as int), tz@) == Ok::<Seq<CorporateAction>, ActionError>(
                    plain,
                ),
                out@ == in_order(plain),
                forall|j: int| 0 <= j < out@.len() ==> (#[trigger] out@[j]).valid(),
                rows@ == self.entries@[k as int].rows@,
                resolved(self.entries@, symbol@, tz@) == match row_actions(rows@, tz@) {
                    Ok(actions) => Ok(in_order(actions)),
                    Err(e) => Err(e),
                },
            decreases rows.len() - i,
        {
            proof {
                assert(rows@.take(i + 1).drop_last() =~= rows@.take(i as int));
                assert(rows@.take(i + 1).last() == rows@[i as int]);
                if row_actions(rows@.take(i + 1), tz@) is Err {
                    lemma_row_error_stays(rows@, tz@, i + 1);
                }
            }
            let action = match read_row(&rows[i], tz) {
                Ok(action) => action,
                Err(problem) => return Err(ActionError { row: i, problem }),
            };
            let ghost before = out@;
            insert_by_time(&mut out, action);
            proof {
                lemma_put_valid(before, action);
                assert(plain.push(action).drop_last() =~= plain);
                plain = plain.push(action);
            }
            i += 1;
        }
        assert(rows@.take(i as int) =~= rows@);
        Ok(out)
    }
}

proof fn lemma_put_valid(sorted: Seq<CorporateAction>, action: CorporateAction)
    requires
        forall|j: int| 0 <= j < sorted.len() ==> (#[trigger] sorted[j]).valid(),
        action.valid(),
    ensures
        forall|j: int|
            0 <= j < put_in_order(sorted, action).len() ==> (#[trigger] put_in_order(
                sorted,
                action,
            )[j]).valid(),
    decreases sorted.len(),
{
    if sorted.len() > 0 && sorted.last().time > action.time {
        assert forall|j: int| 0 <= j < sorted.drop_last().len() implies (
        #[trigger] sorted.drop_last()[j]).valid() by {
            assert(sorted[j].valid());
        }
        lemma_put_valid(sorted.drop_last(), action);
        let p = put_in_order(sorted.drop_last(), action);
        let all = put_in_order(sorted, action);
        assert(sorted[sorted.len() - 1].valid());
        assert forall|j: int| 0 <= j < all.len() implies (#[trigger] all[j]).valid() by {
            if j < p.len() {
                assert(all[j] == p[j]);
            }
        }
    } else {
        let all = put_in_order(sorted, action);
        assert forall|j: int| 0 <= j < all.len() implies (#[trigger] all[j]).valid() by {
            if j < sorted.len() {
                assert(sorted[j].valid());
            }
        }
    }
}

proof fn lemma_entry_stays(entries: Seq<SymbolActions>, symbol: Seq<char>, k: int)
    requires
        0 <= k < entries.len(),
        entry_of(entries.take(k + 1), symbol) == Some(k),
    ensures
        entry_of(entries, symbol) == Some(k),
    decreases entries.len(),
{
    if k + 1 == entries.len() {
        assert(entries.take(k + 1) =~= entries);
    } else {
        assert(entries.drop_last().take(k + 1) =~= entries.take(k + 1));
        lemma_entry_stays(entries.drop_last(), symbol, k);
    }
}

proof fn lemma_row_error_stays(rows: Seq<ActionSpec>, zone: Seq<char>, k: int)
    requires
        0 <= k <= rows.len(),
        row_actions(rows.take(k), zone) is Err,
    ensures
        row_actions(rows, zone) == row_actions(rows.take(k), zone),
    decreases rows.len(),
{
    if k == rows.len() {
        assert(rows.take(k) =~= rows);
    } else {
        assert(rows.drop_last().take(k) =~= rows.take(k));
        lemma_row_error_stays(rows.drop_last(), zone, k);
    }
}

/// Symbols that differ only in case and surrounding space have the same actions.
pub proof fn lookup_ignores_case(
    entries: Seq<SymbolActions>,
    a: Seq<char>,
    b: Seq<char>,
    zone: Seq<char>,
)
    requires
        crate::symbol::normalized(a) == crate::symbol::normalized(b),
    ensures
        resolved(entries, a, zone) == resolved(entries, b, zone),
{
    lemma_same_entry(entries, a, b);
}

proof fn lemma_same_entry(entries: Seq<SymbolActions>, a: Seq<char>, b: Seq<char>)
    requires
        crate::symbol::normalized(a) == crate::symbol::normalized(b),
    ensures
        entry_of(entries, a) == entry_of(entries, b),
    decreases entries.len(),
{
    if entries.len() > 0 {
        lemma_same_entry(entries.drop_last(), a, b);
    }
}

// ---- applying actions ----------------------------------------------------------------

/// What one action does to the bars before its ex-date.
#[derive(Debug, Clone, Copy, PartialEq, Eq, Structural)]
pub enum Step {
    /// Prices are divided by the ratio, volumes multiplied by it.
    Split { ratio: Ratio },
    /// Prices are scaled by what is left of the close before the ex-date after the dividend.
    Dividend { amount: Ratio, close: u32 },
    /// Nothing.
    Neutral,
}

impl Step {
    pub open spec fn valid(self) -> bool {
        match self {
            Step::Split { ratio } => ratio.valid(),
            Step::Dividend { amount, .. } => amount.den > 0,
            Step::Neutral => true,
        }
    }

    /// What prices are multiplied by. A dividend that is not below the close it detaches from does
    /// nothing.
    pub open spec fn price_factor(self) -> (int, int) {
        match self {
            Step::Split { ratio } => (ratio.den as int, ratio.num as int),
            Step::Dividend { amount, close } => if amount.num * 10_000 < close * amount.den {
                (close * amount.den - amount.num * 10_000, close * amount.den)
            } else {
                (1, 1)
            },
            Step::Neutral => (1, 1),
        }
    }

    /// What volumes are multiplied by. Dividends do not touch volume.
    pub open spec fn volume_factor(self) -> (int, int) {
        match self {
            Step::Split { ratio } => (ratio.num as int, ratio.den as int),
            _ => (1, 1),
        }
    }
}

/// The product of the steps' factors on prices.
pub open spec fn price_product(steps: Seq<Step>) -> (int, int)
    decreases steps.len(),
{
    if steps.len() == 0 {
        (1, 1)
    } else {
        let (num, den) = price_product(steps.drop_last());
        let (n, d) = steps.last().price_factor();
        (num * n, den * d)
    }
}

/// The product of the steps' factors on volumes.
pub open spec fn volume_product(steps: Seq<Step>) -> (int, int)
    decreases steps.len(),
{
    if steps.len() == 0 {
        (1, 1)
    } else {
        let (num, den) = volume_product(steps.drop_last());
        let (n, d) = steps.last().volume_factor();
        (num * n, den * d)
    }
}

/// The step of an action whose ex-date follows a bar with the given close. A split into as many
/// shares does nothing.
pub open spec fn step_of(action: CorporateAction, mode: AdjustmentMode, close: u32) -> Step {
    match action.kind {
        ActionKind::Split { ratio } => if ratio.num == ratio.den {
            Step::Neutral
        } else {
            Step::Split { ratio }
        },
        ActionKind::CashDividend { amount } => if mode is TotalReturn {
            Step::Dividend { amount, close }
        } else {
            Step::Neutral
        },
    }
}

/// The steps of the actions at the end of a list whose ex-dates are strictly after a bar, latest
/// first.
pub open spec fn steps_after(
    actions: Seq<CorporateAction>,
    mode: AdjustmentMode,
    bar: Bar,
) -> Seq<Step>
    decreases actions.len(),
{
    if actions.len() > 0 && actions.last().time > bar.time {
        seq![step_of(actions.last(), mode, bar.close)] + steps_after(
            actions.drop_last(),
            mode,
            bar,
        )
    } else {
        Seq::empty()
    }
}

/// The steps that apply to bar `i`: those of every later bar, then those of the actions between this
/// bar and the next.
pub open spec fn steps_from(
    bars: Seq<Bar>,
    actions: Seq<CorporateAction>,
    mode: AdjustmentMode,
    i: int,
) -> Seq<Step>
    decreases bars.len() - i,
{
    if mode is Raw || i >= bars.len() || i < 0 {
        Seq::empty()
    } else {
        let later = steps_from(bars, actions, mode, i + 1);
        later + steps_after(actions.take(actions.len() - later.len()), mode, bars[i])
    }
}

/// How a series of bars is adjusted: the first `counts[i]` of the steps apply to bar `i`.
#[derive(Debug)]
pub struct Adjustment {
    pub steps: Vec<Step>,
    pub counts: Vec<usize>,
}

proof fn lemma_steps_after(actions: Seq<CorporateAction>, mode: AdjustmentMode, bar: Bar)
    ensures
        steps_after(actions, mode, bar).len() <= actions.len(),
    decreases actions.len(),
{
    if actions.len() > 0 && actions.last().time > bar.time {
        lemma_steps_after(actions.drop_last(), mode, bar);
    }
}

proof fn lemma_steps_from(
    bars: Seq<Bar>,
    actions: Seq<CorporateAction>,
    mode: AdjustmentMode,
    i: int,
)
    ensures
        steps_from(bars, actions, mode, i).len() <= actions.len(),
    decreases bars.len() - i,
{
    if !(mode is Raw || i >= bars.len() || i < 0) {
        lemma_steps_from(bars, actions, mode, i + 1);
        let later = steps_from(bars, actions, mode, i + 1);
        lemma_steps_after(actions.take(actions.len() - later.len()), mode, bars[i]);
    }
}

fn make_step(action: CorporateAction, mode: AdjustmentMode, close: u32) -> (r: Step)
    ensures
        r == step_of(action, mode, close),
        action.valid() ==> r.valid(),
{
    match action.kind {
        ActionKind::Split { ratio } => if ratio.num == ratio.den {
            Step::Neutral
        } else {
            Step::Split { ratio }
        },
        ActionKind::CashDividend { amount } => match mode {
            AdjustmentMode::TotalReturn => Step::Dividend { amount, close },
            _ => Step::Neutral,
        },
    }
}

/// Folds in every action at the end of the first `next` whose ex-date is strictly after a bar.
fn fold_actions(
    steps: &mut Vec<Step>,
    actions: &[CorporateAction],
    next: usize,
    mode: AdjustmentMode,
    bar: &Bar,
) -> (r: usize)
    requires
        next <= actions@.len(),
        old(steps)@.len() + next == actions@.len(),
        forall|j: int| 0 <= j < actions@.len() ==> (#[trigger] actions@[j]).valid(),
        forall|j: int| 0 <= j < old(steps)@.len() ==> (#[trigger] old(steps)@[j]).valid(),
    ensures
        final(steps)@ == old(steps)@ + steps_after(actions@.take(next as int), mode, *bar),
        final(steps)@.len() + r == actions@.len(),
        forall|j: int| 0 <= j < final(steps)@.len() ==> (#[trigger] final(steps)@[j]).valid(),
{
    let ghost all = steps@ + steps_after(actions@.take(next as int), mode, *bar);
    let mut next: usize = next;
    while next > 0 && actions[next - 1].time > bar.time
        invariant
            next <= actions@.len(),
            steps@.len() + next == actions@.len(),
            all == steps@ + steps_after(actions@.take(next as int), mode, *bar),
            forall|j: int| 0 <= j < actions@.len() ==> (#[trigger] actions@[j]).valid(),
            forall|j: int| 0 <= j < steps@.len() ==> (#[trigger] steps@[j]).valid(),
        decreases next,
    {
        let ghost before = steps@;
        assert(actions@[next - 1].valid());
        steps.push(make_step(actions[next - 1], mode, bar.close));
        proof {
            let list = actions@.take(next as int);
            assert(list.drop_last() =~= actions@.take(next - 1));
            let s = step_of(list.last(), mode, bar.close);
            let rest = steps_after(actions@.take(next - 1), mode, *bar);
            assert(before + (seq![s] + rest) =~= before.push(s) + rest);
        }
        next -= 1;
    }
    assert(all =~= steps@);
    next
}

/// Back-adjusts `bars` for `actions`, which must be sorted ascending by time.
///
/// Walks backwards, so each price is scaled exactly once no matter how many actions precede it —
/// repeated multiplication would compound rounding. Bars on or after an ex-date are left alone: they
/// already trade at the new price.
pub fn adjust_bars(bars: &[Bar], actions: &[CorporateAction], mode: AdjustmentMode) -> (r: Adjustment)
    requires
        forall|j: int| 0 <= j < actions@.len() ==> (#[trigger] actions@[j]).valid(),
    ensures
        r.steps@ == steps_from(bars@, actions@, mode, 0),
        r.counts@.len() == bars@.len(),
        forall|i: int|
            0 <= i < bars@.len() ==> #[trigger] r.counts@[i] == steps_from(
                bars@,
                actions@,
                mode,
                i,
            ).len(),
        r.valid(),
{
    let mut steps: Vec<Step> = Vec::new();
    let mut reversed: Vec<usize> = Vec::new();
    let mut next: usize = actions.len();
    let raw = match mode {
        AdjustmentMode::Raw => true,
        _ => false,
    };
    let mut i: usize = bars.len();
    while i > 0
        invariant
            i <= bars@.len(),
            raw == (mode is Raw),
            next <= actions@.len(),
            steps@ == steps_from(bars@, actions@, mode, i as int),
            steps@.len() + next == actions@.len(),
            reversed@.len() == bars@.len() - i,
            forall|j: int|
                i <= j < bars@.len() ==> reversed@[bars@.len() - 1 - j] == (#[trigger] steps_from(
                    bars@,
                    actions@,
                    mode,
                    j,
                )).len(),
            forall|j: int| 0 <= j < actions@.len() ==> (#[trigger] actions@[j]).valid(),
            forall|j: int| 0 <= j < steps@.len() ==> (#[trigger] steps@[j]).valid(),
        decreases i,
    {
        let ghost later = steps@;
        if !raw {
            next = fold_actions(&mut steps, actions, next, mode, &bars[i - 1]);
        }
        assert(steps@ =~= steps_from(bars@, actions@, mode, i - 1));
        reversed.push(steps.len());
        i -= 1;
    }
    let mut counts: Vec<usize> = Vec::new();
    let n: usize = reversed.len();
    let mut k: usize = 0;
    while k < n
        invariant
            k <= n,
            n == reversed@.len(),
            counts@.len() == k,
            forall|j: int| 0 <= j < k ==> #[trigger] counts@[j] == reversed@[n - 1 - j],
        decreases n - k,
    {
        counts.push(reversed[n - 1 - k]);
        k += 1;
    }
    proof {
        assert forall|j: int| 0 <= j < bars@.len() implies #[trigger] counts@[j] == steps_from(
            bars@,
            actions@,
            mode,
            j,
        ).len() by {
            assert(reversed@[bars@.len() - 1 - j] == steps_from(bars@, actions@, mode, j).len());
        }
        assert forall|j: int| 0 <= j < counts@.len() implies (#[trigger] counts@[j])
            <= steps@.len() by {
            lemma_prefix(bars@, actions@, mode, 0, j);
        }
    }
    Adjustment { steps, counts }
}

/// The steps of a bar begin with those of every later bar.
proof fn lemma_prefix(
    bars: Seq<Bar>,
    actions: Seq<CorporateAction>,
    mode: AdjustmentMode,
    i: int,
    j: int,
)
    requires
        0 <= i <= j <= bars.len(),
    ensures
        steps_from(bars, actions, mode, j).len() <= steps_from(bars, actions, mode, i).len(),
        steps_from(bars, actions, mode, j) == steps_from(bars, actions, mode, i).take(
            steps_from(bars, actions, mode, j).len() as int,
        ),
    decreases j - i,
{
    if i < j {
        lemma_prefix(bars, actions, mode, i + 1, j);
        let a = steps_from(bars, actions, mode, i);
        let b = steps_from(bars, actions, mode, i + 1);
        let c = steps_from(bars, actions, mode, j);
        if !(mode is Raw) {
            assert(a.take(b.len() as int) =~= b);
            assert(a.take(c.len() as int) =~= b.take(c.len() as int));
        } else {
            assert(c =~= a.take(c.len() as int));
        }
    } else {
        let a = steps_from(bars, actions, mode, i);
        assert(a.take(a.len() as int) =~= a);
    }
}

/// A bar's steps are the first of all the steps, so one list serves every bar.
pub proof fn one_list_of_steps(
    bars: Seq<Bar>,
    actions: Seq<CorporateAction>,
    mode: AdjustmentMode,
    i: int,
)
    requires
        0 <= i < bars.len(),
    ensures
        steps_from(bars, actions, mode, i) == steps_from(bars, actions, mode, 0).take(
            steps_from(bars, actions, mode, i).len() as int,
        ),
{
    lemma_prefix(bars, actions, mode, 0, i);
}

/// What a bar's volume is multiplied by: `num / den`. The product is rounded to whole shares.
#[derive(Debug, Clone, Copy, PartialEq, Eq, Structural)]
pub struct Scale {
    pub num: u128,
    pub den: u128,
}

/// Whether a scale is the product of the steps' factors on volumes, or is missing because that takes
/// more than 128 bits to write.
pub open spec fn scales_volume(scale: Option<Scale>, steps: Seq<Step>) -> bool {
    let (num, den) = volume_product(steps);
    &&& scale is Some <==> num <= u128::MAX && den <= u128::MAX
    &&& scale matches Some(s) ==> s.num == num && s.den == den
}

impl Adjustment {
    pub open spec fn valid(&self) -> bool {
        &&& forall|j: int| 0 <= j < self.steps@.len() ==> (#[trigger] self.steps@[j]).valid()
        &&& forall|j: int| 0 <= j < self.counts@.len() ==> (#[trigger] self.counts@[j])
            <= self.steps@.len()
    }

    /// The exact scale of the volume of bar `i`, which only splits touch; `None` when it takes more
    /// than 128 bits to write. Its prices are scaled by the [`factors`] of its steps, one after
    /// another.
    pub fn scale(&self, i: usize) -> (r: Option<Scale>)
        requires
            self.valid(),
            i < self.counts@.len(),
        ensures
            scales_volume(r, self.steps@.take(self.counts@[i as int] as int)),
    {
        scale_of(&self.steps, self.counts[i])
    }
}

proof fn lemma_products_positive(steps: Seq<Step>)
    requires
        forall|j: int| 0 <= j < steps.len() ==> (#[trigger] steps[j]).valid(),
    ensures
        volume_product(steps).0 >= 1,
        volume_product(steps).1 >= 1,
    decreases steps.len(),
{
    if steps.len() > 0 {
        let init = steps.drop_last();
        assert forall|j: int| 0 <= j < init.len() implies (#[trigger] init[j]).valid() by {
            assert(steps[j].valid());
        }
        lemma_products_positive(init);
        assert(steps[steps.len() - 1].valid());
        lemma_factor_positive(steps.last());
        let (v, w) = steps.last().volume_factor();
        lemma_product_grows(volume_product(init).0, v);
        lemma_product_grows(volume_product(init).1, w);
    }
}

proof fn lemma_factor_positive(step: Step)
    requires
        step.valid(),
    ensures
        1 <= step.price_factor().0 <= u128::MAX,
        1 <= step.price_factor().1 <= u128::MAX,
        1 <= step.volume_factor().0 <= u128::MAX,
        1 <= step.volume_factor().1 <= u128::MAX,
{
    if let Step::Dividend { amount, close } = step {
        assert(0 <= close * amount.den <= 0x1_0000_0000 * 0x1_0000_0000_0000_0000)
            by (nonlinear_arith)
            requires
                0 <= close <= 0x1_0000_0000,
                0 <= amount.den <= 0x1_0000_0000_0000_0000,
        ;
    }
}

proof fn lemma_product_grows(a: int, b: int)
    requires
        a >= 1,
        b >= 1,
    ensures
        a * b >= a,
        a * b >= b,
        a * b >= 1,
{
    assert(a * b >= a && a * b >= b) by (nonlinear_arith)
        requires
            a >= 1,
            b >= 1,
    ;
}

/// Products only grow, so one that does not fit stays so.
proof fn lemma_products_grow(steps: Seq<Step>, k: int)
    requires
        0 <= k <= steps.len(),
        forall|j: int| 0 <= j < steps.len() ==> (#[trigger] steps[j]).valid(),
    ensures
        volume_product(steps.take(k)).0 <= volume_product(steps).0,
        volume_product(steps.take(k)).1 <= volume_product(steps).1,
    decreases steps.len(),
{
    if k == steps.len() {
        assert(steps.take(k) =~= steps);
    } else {
        let init = steps.drop_last();
        assert forall|j: int| 0 <= j < init.len() implies (#[trigger] init[j]).valid() by {
            assert(steps[j].valid());
        }
        lemma_products_grow(init, k);
        assert(init.take(k) =~= steps.take(k));
        lemma_products_positive(init);
        assert(steps[steps.len() - 1].valid());
        lemma_factor_positive(steps.last());
        let (v, w) = steps.last().volume_factor();
        lemma_product_grows(volume_product(init).0, v);
        lemma_product_grows(volume_product(init).1, w);
    }
}

/// A step's factor on prices, as a ratio, and then the one on volumes.
pub fn factors(step: Step) -> (r: (u128, u128, u128, u128))
    requires
        step.valid(),
    ensures
        r.0 == step.price_factor().0,
        r.1 == step.price_factor().1,
        r.2 == step.volume_factor().0,
        r.3 == step.volume_factor().1,
{
    match step {
        Step::Split { ratio } => (
            ratio.den as u128,
            ratio.num as u128,
            ratio.num as u128,
            ratio.den as u128,
        ),
        Step::Dividend { amount, close } => {
            proof {
                assert(0 <= close * amount.den <= 0x1_0000_0000 * 0x1_0000_0000_0000_0000)
                    by (nonlinear_arith)
                    requires
                        0 <= close <= 0x1_0000_0000,
                        0 <= amount.den <= 0x1_0000_0000_0000_0000,
                ;
            }
            let whole: u128 = close as u128 * amount.den as u128;
            let paid: u128 = amount.num as u128 * 10_000;
            if paid < whole {
                (whole - paid, whole, 1, 1)
            } else {
                (1, 1, 1, 1)
            }
        },
        Step::Neutral => (1, 1, 1, 1),
    }
}

/// The exact scale of a volume by the first `count` steps; `None` when it takes more than 128 bits to
/// write.
fn scale_of(steps: &Vec<Step>, count: usize) -> (r: Option<Scale>)
    requires
        count <= steps@.len(),
        forall|j: int| 0 <= j < steps@.len() ==> (#[trigger] steps@[j]).valid(),
    ensures
        scales_volume(r, steps@.take(count as int)),
{
    let ghost all = steps@.take(count as int);
    let mut scale = Scale { num: 1, den: 1 };
    let mut k: usize = 0;
    while k < count
        invariant
            k <= count <= steps@.len(),
            all == steps@.take(count as int),
            forall|j: int| 0 <= j < steps@.len() ==> (#[trigger] steps@[j]).valid(),
            scale.num == volume_product(all.take(k as int)).0,
            scale.den == volume_product(all.take(k as int)).1,
        decreases count - k,
    {
        assert(steps@[k as int].valid());
        let (_, _, num, den) = factors(steps[k]);
        proof {
            assert(all.take(k + 1).drop_last() =~= all.take(k as int));
            assert(all.take(k + 1).last() == steps@[k as int]);
            assert forall|j: int| 0 <= j < all.len() implies (#[trigger] all[j]).valid() by {
                assert(steps@[j].valid());
            }
            lemma_products_grow(all, k + 1);
        }
        match (scale.num.checked_mul(num), scale.den.checked_mul(den)) {
            (Some(num), Some(den)) => {
                scale = Scale { num, den };
            },
            _ => {
                return None;
            },
        }
        k += 1;
    }
    assert(all.take(k as int) =~= all);
    Some(scale)
}

// ---- streaming -------------------------------------------------------------------------

/// A total-return adjustment needs the close before each ex-date, which a forward streaming pass
/// cannot see.
#[derive(Debug, Clone, Copy, PartialEq, Eq, Structural)]
pub struct NeedsSeries;

/// Adjusts bars as they stream, in one forward pass.
///
/// A split needs no market data at all: the factor for a bar is the product of `1/ratio` over every
/// split with a *later* ex-date, which the action table alone determines. Since an action table
/// holds a handful of rows and bars arrive in ascending time, a cursor over those rows gives each
/// bar its factor with no buffering and no extra I/O — so even a whole-history conversion at `1s`
/// can be adjusted at constant memory.
///
/// Dividends are the exception, and the reason [`Adjuster::streaming`] refuses
/// [`AdjustmentMode::TotalReturn`]: their factor is `(C - D) / C`, where `C` is the close
/// immediately *before* the ex-date. That price is not in the table, and the bars needing it are
/// emitted before a forward pass ever reaches it. Use [`adjust_bars`] over a materialized series
/// for total-return.
#[derive(Debug)]
pub struct Adjuster {
    /// The ex-dates, ascending.
    times: Vec<u32>,
    /// The steps, latest ex-date first.
    steps: Vec<Step>,
    cursor: usize,
}

/// The split-only steps of a list of actions, latest first.
pub open spec fn split_steps(actions: Seq<CorporateAction>) -> Seq<Step> {
    Seq::new(
        actions.len(),
        |k: int| step_of(actions[actions.len() - 1 - k], AdjustmentMode::SplitOnly, 0),
    )
}

pub open spec fn action_times(actions: Seq<CorporateAction>) -> Seq<u32> {
    actions.map_values(|a: CorporateAction| a.time)
}

/// Past every ex-date, from a position on, that an instant is at or after.
pub open spec fn past(times: Seq<u32>, cursor: int, time: int) -> int
    decreases times.len() - cursor,
{
    if 0 <= cursor < times.len() && times[cursor] <= time {
        past(times, cursor + 1, time)
    } else {
        cursor
    }
}

impl Adjuster {
    pub closed spec fn ex_dates(&self) -> Seq<u32> {
        self.times@
    }

    pub closed spec fn all_steps(&self) -> Seq<Step> {
        self.steps@
    }

    pub closed spec fn position(&self) -> int {
        self.cursor as int
    }

    #[verifier::type_invariant]
    spec fn valid(&self) -> bool {
        &&& self.cursor <= self.times@.len()
        &&& self.steps@.len() == self.times@.len()
        &&& forall|j: int| 0 <= j < self.steps@.len() ==> (#[trigger] self.steps@[j]).valid()
    }

    /// Builds an adjuster usable in a streaming pass.
    ///
    /// Refuses [`AdjustmentMode::TotalReturn`], which cannot be done forward-only.
    pub fn streaming(actions: &[CorporateAction], mode: AdjustmentMode) -> (r: Result<
        Self,
        NeedsSeries,
    >)
        requires
            forall|j: int| 0 <= j < actions@.len() ==> (#[trigger] actions@[j]).valid(),
        ensures
            match mode {
                AdjustmentMode::Raw => r matches Ok(a) && a.ex_dates() == Seq::<u32>::empty()
                    && a.all_steps() == Seq::<Step>::empty() && a.position() == 0,
                AdjustmentMode::SplitOnly => r matches Ok(a) && a.ex_dates() == action_times(
                    actions@,
                ) && a.all_steps() == split_steps(actions@) && a.position() == 0,
                AdjustmentMode::TotalReturn => r is Err,
            },
    {
        match mode {
            AdjustmentMode::Raw => Ok(
                Adjuster { times: Vec::new(), steps: Vec::new(), cursor: 0 },
            ),
            AdjustmentMode::SplitOnly => Ok(Adjuster::splits(actions)),
            AdjustmentMode::TotalReturn => Err(NeedsSeries),
        }
    }

    /// Split-only adjustment. `actions` must be sorted ascending by time; non-splits are ignored.
    pub fn splits(actions: &[CorporateAction]) -> (r: Self)
        requires
            forall|j: int| 0 <= j < actions@.len() ==> (#[trigger] actions@[j]).valid(),
        ensures
            r.ex_dates() == action_times(actions@),
            r.all_steps() == split_steps(actions@),
            r.position() == 0,
    {
        let mut times: Vec<u32> = Vec::new();
        let mut steps: Vec<Step> = Vec::new();
        let n: usize = actions.len();
        let mut k: usize = 0;
        while k < n
            invariant
                k <= n,
                n == actions@.len(),
                times@.len() == k,
                steps@.len() == k,
                forall|j: int| 0 <= j < n ==> (#[trigger] actions@[j]).valid(),
                forall|j: int| 0 <= j < k ==> #[trigger] times@[j] == actions@[j].time,
                forall|j: int|
                    0 <= j < k ==> #[trigger] steps@[j] == step_of(
                        actions@[n - 1 - j],
                        AdjustmentMode::SplitOnly,
                        0,
                    ),
                forall|j: int| 0 <= j < k ==> (#[trigger] steps@[j]).valid(),
            decreases n - k,
        {
            assert(actions@[n - 1 - k].valid());
            times.push(actions[k].time);
            steps.push(make_step(actions[n - 1 - k], AdjustmentMode::SplitOnly, 0));
            k += 1;
        }
        assert(times@ =~= action_times(actions@));
        assert(steps@ =~= split_steps(actions@));
        Adjuster { times, steps, cursor: 0 }
    }

    /// True when this adjuster would leave every bar untouched.
    pub fn is_identity(&self) -> (r: bool)
        ensures
            r == forall|k: int|
                0 <= k < self.all_steps().len() ==> (#[trigger] self.all_steps()[k])
                    == Step::Neutral,
    {
        let mut k: usize = 0;
        while k < self.steps.len()
            invariant
                k <= self.steps.len(),
                forall|j: int| 0 <= j < k ==> (#[trigger] self.steps@[j]) == Step::Neutral,
            decreases self.steps.len() - k,
        {
            if self.steps[k] != Step::Neutral {
                assert(self.all_steps()[k as int] != Step::Neutral);
                return false;
            }
            k += 1;
        }
        true
    }

    /// All the steps, latest ex-date first.
    pub fn steps(&self) -> (r: &Vec<Step>)
        ensures
            r@ == self.all_steps(),
            forall|k: int| 0 <= k < r@.len() ==> (#[trigger] r@[k]).valid(),
    {
        proof {
            use_type_invariant(self);
        }
        &self.steps
    }

    /// The number of steps that apply to a bar. Bars must be supplied in ascending time order.
    pub fn apply(&mut self, bar: &Bar) -> (r: usize)
        ensures
            final(self).ex_dates() == old(self).ex_dates(),
            final(self).all_steps() == old(self).all_steps(),
            final(self).position() == past(
                old(self).ex_dates(),
                old(self).position(),
                bar.time as int,
            ),
            r == old(self).ex_dates().len() - final(self).position(),
            r <= old(self).all_steps().len(),
    {
        proof {
            use_type_invariant(&*self);
        }
        // Advance past every ex-date this bar is at or after; those no longer apply to it.
        let mut cursor: usize = self.cursor;
        while cursor < self.times.len() && self.times[cursor] <= bar.time
            invariant
                cursor <= self.times@.len(),
                past(self.times@, self.cursor as int, bar.time as int) == past(
                    self.times@,
                    cursor as int,
                    bar.time as int,
                ),
            decreases self.times.len() - cursor,
        {
            cursor += 1;
        }
        self.cursor = cursor;
        self.times.len() - cursor
    }

    /// The exact scale of the volume of a bar to which so many steps apply; `None` when it takes more
    /// than 128 bits to write.
    pub fn scale(&self, count: usize) -> (r: Option<Scale>)
        requires
            count <= self.all_steps().len(),
        ensures
            scales_volume(r, self.all_steps().take(count as int)),
    {
        proof {
            use_type_invariant(self);
        }
        scale_of(&self.steps, count)
    }
}

/// The actions at the end of a list whose ex-dates are strictly after an instant.
pub open spec fn count_after(actions: Seq<CorporateAction>, time: int) -> int
    decreases actions.len(),
{
    if actions.len() > 0 && actions.last().time > time {
        1 + count_after(actions.drop_last(), time)
    } else {
        0
    }
}

pub open spec fn bars_ascend(bars: Seq<Bar>) -> bool {
    forall|i: int, j: int| 0 <= i <= j < bars.len() ==> (#[trigger] bars[i]).time <= (#[trigger]
    bars[j]).time
}

proof fn lemma_count_bounds(actions: Seq<CorporateAction>, time: int)
    ensures
        0 <= count_after(actions, time) <= actions.len(),
        forall|k: int|
            actions.len() - count_after(actions, time) <= k < actions.len() ==> (#[trigger]
            actions[k]).time > time,
        count_after(actions, time) < actions.len() ==> actions[actions.len() - 1 - count_after(
            actions,
            time,
        )].time <= time,
    decreases actions.len(),
{
    if actions.len() > 0 && actions.last().time > time {
        let init = actions.drop_last();
        lemma_count_bounds(init, time);
        assert forall|k: int|
            actions.len() - count_after(actions, time) <= k < actions.len() implies (#[trigger]
        actions[k]).time > time by {
            if k < init.len() {
                assert(init[k] == actions[k]);
            }
        }
    }
}

proof fn lemma_count_splits(actions: Seq<CorporateAction>, earlier: int, later: int)
    requires
        earlier <= later,
    ensures
        count_after(actions, earlier) == count_after(actions, later) + count_after(
            actions.take(actions.len() - count_after(actions, later)),
            earlier,
        ),
    decreases actions.len(),
{
    lemma_count_bounds(actions, later);
    if actions.len() > 0 && actions.last().time > later {
        let init = actions.drop_last();
        lemma_count_splits(init, earlier, later);
        lemma_count_bounds(init, later);
        assert(actions.take(actions.len() - count_after(actions, later)) =~= init.take(
            init.len() - count_after(init, later),
        ));
    } else {
        assert(actions.take(actions.len() as int) =~= actions);
    }
}

proof fn lemma_steps_after_split(actions: Seq<CorporateAction>, bar: Bar)
    ensures
        steps_after(actions, AdjustmentMode::SplitOnly, bar) == split_steps(actions).take(
            count_after(actions, bar.time as int),
        ),
        steps_after(actions, AdjustmentMode::SplitOnly, bar).len() == count_after(
            actions,
            bar.time as int,
        ),
    decreases actions.len(),
{
    lemma_count_bounds(actions, bar.time as int);
    if actions.len() > 0 && actions.last().time > bar.time {
        let init = actions.drop_last();
        lemma_steps_after_split(init, bar);
        lemma_count_bounds(init, bar.time as int);
        let c = count_after(init, bar.time as int);
        let all = split_steps(actions).take(c + 1);
        assert(seq![step_of(actions.last(), AdjustmentMode::SplitOnly, bar.close)] + split_steps(
            init,
        ).take(c) =~= all);
    } else {
        assert(split_steps(actions).take(0) =~= Seq::empty());
    }
}

/// In split-only mode the steps of a bar are those of every action whose ex-date is strictly after
/// it, and of no other: bars on or after the last ex-date have none.
pub proof fn later_splits_apply(bars: Seq<Bar>, actions: Seq<CorporateAction>, i: int)
    requires
        bars_ascend(bars),
        0 <= i < bars.len(),
    ensures
        steps_from(bars, actions, AdjustmentMode::SplitOnly, i) == split_steps(actions).take(
            count_after(actions, bars[i].time as int),
        ),
        steps_from(bars, actions, AdjustmentMode::SplitOnly, i).len() == count_after(
            actions,
            bars[i].time as int,
        ),
    decreases bars.len() - i,
{
    let mode = AdjustmentMode::SplitOnly;
    let t = bars[i].time as int;
    lemma_count_bounds(actions, t);
    if i + 1 < bars.len() {
        later_splits_apply(bars, actions, i + 1);
        let next = bars[i + 1].time as int;
        assert(bars[i].time <= bars[i + 1].time);
        lemma_count_splits(actions, t, next);
        let c = count_after(actions, next);
        lemma_count_bounds(actions, next);
        let head = actions.take(actions.len() - c);
        lemma_steps_after_split(head, bars[i]);
        lemma_count_bounds(head, t);
        let d = count_after(head, t);
        assert(split_steps(actions).take(c) + split_steps(head).take(d) =~= split_steps(
            actions,
        ).take(c + d));
    } else {
        assert(steps_from(bars, actions, mode, i + 1) =~= Seq::empty());
        assert(actions.take(actions.len() as int) =~= actions);
        lemma_steps_after_split(actions, bars[i]);
        let s = steps_after(actions, mode, bars[i]);
        assert(Seq::<Step>::empty() + s =~= s);
    }
}

/// Where an adjuster's cursor stands after a run of bars.
pub open spec fn cursor_after(times: Seq<u32>, bars: Seq<Bar>) -> int
    decreases bars.len(),
{
    if bars.len() == 0 {
        0
    } else {
        past(times, cursor_after(times, bars.drop_last()), bars.last().time as int)
    }
}

proof fn lemma_past(actions: Seq<CorporateAction>, cursor: int, time: int)
    requires
        ascending(actions),
        0 <= cursor <= actions.len() - count_after(actions, time),
    ensures
        past(action_times(actions), cursor, time) == actions.len() - count_after(actions, time),
    decreases actions.len() - cursor,
{
    let n = actions.len() - count_after(actions, time);
    let times = action_times(actions);
    lemma_count_bounds(actions, time);
    if cursor < n {
        assert(actions[cursor].time <= actions[n - 1].time);
        assert(times[cursor] == actions[cursor].time);
        lemma_past(actions, cursor + 1, time);
    } else if cursor < actions.len() {
        assert(actions[cursor].time > time);
        assert(times[cursor] == actions[cursor].time);
    }
}

proof fn lemma_cursor(actions: Seq<CorporateAction>, bars: Seq<Bar>)
    requires
        ascending(actions),
        bars_ascend(bars),
        bars.len() > 0,
    ensures
        cursor_after(action_times(actions), bars) == actions.len() - count_after(
            actions,
            bars.last().time as int,
        ),
    decreases bars.len(),
{
    let init = bars.drop_last();
    let times = action_times(actions);
    let t = bars.last().time as int;
    lemma_count_bounds(actions, t);
    if init.len() > 0 {
        assert(bars_ascend(init)) by {
            assert forall|i: int, j: int| 0 <= i <= j < init.len() implies (#[trigger] init[i]).time
                <= (#[trigger] init[j]).time by {
                assert(bars[i].time <= bars[j].time);
            }
        }
        lemma_cursor(actions, init);
        let u = init.last().time as int;
        assert(bars[bars.len() - 2].time <= bars[bars.len() - 1].time);
        lemma_count_splits(actions, u, t);
        lemma_count_bounds(actions.take(actions.len() - count_after(actions, t)), u);
        lemma_past(actions, cursor_after(times, init), t);
    } else {
        assert(cursor_after(times, init) == 0);
        lemma_past(actions, 0, t);
    }
}

/// The streaming adjuster agrees with the buffered one bar for bar: the steps it applies to each bar
/// of an ascending series are the steps the buffered adjustment applies.
pub proof fn streaming_matches_the_buffered_adjustment(
    actions: Seq<CorporateAction>,
    bars: Seq<Bar>,
    i: int,
)
    requires
        ascending(actions),
        bars_ascend(bars),
        0 <= i < bars.len(),
    ensures
        ({
            let count = actions.len() - cursor_after(action_times(actions), bars.take(i + 1));
            &&& count == steps_from(bars, actions, AdjustmentMode::SplitOnly, i).len()
            &&& split_steps(actions).take(count) == steps_from(
                bars,
                actions,
                AdjustmentMode::SplitOnly,
                i,
            )
        }),
{
    let seen = bars.take(i + 1);
    assert forall|j: int, k: int| 0 <= j <= k < seen.len() implies (#[trigger] seen[j]).time <= (
    #[trigger] seen[k]).time by {
        assert(bars[j].time <= bars[k].time);
    }
    lemma_cursor(actions, seen);
    later_splits_apply(bars, actions, i);
}

/// Raw mode changes nothing: no step applies to any bar.
pub proof fn raw_changes_nothing(bars: Seq<Bar>, actions: Seq<CorporateAction>, i: int)
    ensures
        steps_from(bars, actions, AdjustmentMode::Raw, i) == Seq::<Step>::empty(),
        price_product(Seq::<Step>::empty()) == (1int, 1int),
        volume_product(Seq::<Step>::empty()) == (1int, 1int),
{
}

/// Steps that do nothing leave a bar untouched, however many of them apply to it.
pub proof fn neutral_steps_change_nothing(steps: Seq<Step>)
    requires
        forall|k: int| 0 <= k < steps.len() ==> (#[trigger] steps[k]) == Step::Neutral,
    ensures
        price_product(steps) == (1int, 1int),
        volume_product(steps) == (1int, 1int),
    decreases steps.len(),
{
    if steps.len() > 0 {
        let init = steps.drop_last();
        assert forall|k: int| 0 <= k < init.len() implies (#[trigger] init[k]) == Step::Neutral by {
            assert(steps[k] == Step::Neutral);
        }
        assert(steps[steps.len() - 1] == Step::Neutral);
        neutral_steps_change_nothing(init);
    }
}

/// Splits compose: the factor of two lists of steps, one after the other, is the product of their
/// factors.
pub proof fn factors_compose(a: Seq<Step>, b: Seq<Step>)
    ensures
        price_product(a + b).0 == price_product(a).0 * price_product(b).0,
        price_product(a + b).1 == price_product(a).1 * price_product(b).1,
        volume_product(a + b).0 == volume_product(a).0 * volume_product(b).0,
        volume_product(a + b).1 == volume_product(a).1 * volume_product(b).1,
    decreases b.len(),
{
    if b.len() == 0 {
        assert(a + b =~= a);
        let (p, x) = (price_product(a), volume_product(a));
        assert(p.0 * 1 == p.0 && p.1 * 1 == p.1 && x.0 * 1 == x.0 && x.1 * 1 == x.1);
        assert(price_product(b) == (1int, 1int) && volume_product(b) == (1int, 1int));
    } else {
        factors_compose(a, b.drop_last());
        assert((a + b).drop_last() =~= a + b.drop_last());
        let (n, d) = b.last().price_factor();
        let (v, w) = b.last().volume_factor();
        let (p, q) = (price_product(a), price_product(b.drop_last()));
        let (x, y) = (volume_product(a), volume_product(b.drop_last()));
        vstd::arithmetic::mul::lemma_mul_is_associative(p.0, q.0, n);
        vstd::arithmetic::mul::lemma_mul_is_associative(p.1, q.1, d);
        vstd::arithmetic::mul::lemma_mul_is_associative(x.0, y.0, v);
        vstd::arithmetic::mul::lemma_mul_is_associative(x.1, y.1, w);
    }
}

/// Dividends leave volume alone, and split-only mode leaves dividends alone.
pub proof fn dividends_only_in_total_return(action: CorporateAction, close: u32)
    requires
        action.kind is CashDividend,
    ensures
        step_of(action, AdjustmentMode::SplitOnly, close) == Step::Neutral,
        step_of(action, AdjustmentMode::SplitOnly, close).price_factor() == (1int, 1int),
        step_of(action, AdjustmentMode::TotalReturn, close).volume_factor() == (1int, 1int),
{
}

// ---- detecting splits --------------------------------------------------------------------

/// A quotient rounded to the nearest whole number, halves up.
pub open spec fn nearest(m: int, v: int) -> int {
    (2 * m + v) / (2 * v)
}

/// The split that an overnight gap looks like: the price fell or rose by more than half, to within a
/// twentieth of a whole-number factor.
pub open spec fn split_between(prev: Bar, cur: Bar) -> Option<Ratio> {
    let (a, b) = (prev.close as int, cur.open as int);
    if a == 0 || b == 0 {
        None
    } else if 2 * a > 3 * b {
        let f = nearest(a, b);
        if f >= 2 && 20 * crate::output::absolute(a - f * b) < f * b {
            Some(Ratio { num: f as u64, den: 1 })
        } else {
            None
        }
    } else if 3 * a < 2 * b {
        let f = nearest(b, a);
        if f >= 2 && 20 * crate::output::absolute(b - f * a) < f * a {
            Some(Ratio { num: 1, den: f as u64 })
        } else {
            None
        }
    } else {
        None
    }
}

/// The splits that a series' overnight gaps look like.
pub open spec fn apparent_splits(bars: Seq<Bar>) -> Seq<CorporateAction>
    decreases bars.len(),
{
    if bars.len() < 2 {
        Seq::empty()
    } else {
        let before = apparent_splits(bars.drop_last());
        match split_between(bars[bars.len() - 2], bars.last()) {
            Some(ratio) => before.push(
                CorporateAction { time: bars.last().time, kind: ActionKind::Split { ratio } },
            ),
            None => before,
        }
    }
}

/// The whole-number factor that `a` is of `b`, to within a twentieth.
fn whole_factor(a: u32, b: u32) -> (r: Option<u64>)
    requires
        0 < b,
    ensures
        ({
            let f = nearest(a as int, b as int);
            r == if f >= 2 && 20 * crate::output::absolute(a - f * b) < f * b {
                Some(f as u64)
            } else {
                None
            }
        }),
{
    let f: u64 = (2 * (a as u64) + b as u64) / (2 * (b as u64));
    proof {
        let (n, d) = (2 * a + b, 2 * b);
        vstd::arithmetic::div_mod::lemma_fundamental_div_mod(n as int, d as int);
        assert(0 <= f * b <= a + b) by (nonlinear_arith)
            requires
                f == (2 * a + b) / (2 * b),
                b > 0,
                a >= 0,
        ;
        assert(f <= n) by (nonlinear_arith)
            requires
                f == n / d,
                d > 0,
                n >= 0,
        ;
    }
    let product: u64 = f * b as u64;
    let apart: u64 = if a as u64 > product {
        a as u64 - product
    } else {
        product - a as u64
    };
    if f >= 2 && 20 * apart < product {
        Some(f)
    } else {
        None
    }
}

/// Infers splits from overnight price gaps near a clean integer ratio.
///
/// A **bootstrap and audit aid, not the live path**: it cannot see dividends, and a genuine
/// overnight crash of the right size is indistinguishable from a split. Use it to draft an
/// `[actions]` table, then check the result against the issuer's record.
pub fn detect_splits(bars: &[Bar]) -> (r: Vec<CorporateAction>)
    ensures
        r@ == apparent_splits(bars@),
{
    let mut out: Vec<CorporateAction> = Vec::new();
    if bars.len() < 2 {
        return out;
    }
    let mut i: usize = 1;
    assert(bars@.take(1).len() < 2);
    while i < bars.len()
        invariant
            1 <= i <= bars.len(),
            out@ == apparent_splits(bars@.take(i as int)),
        decreases bars.len() - i,
    {
        let a: u32 = bars[i - 1].close;
        let b: u32 = bars[i].open;
        let ratio = if a == 0 || b == 0 {
            None
        } else if 2 * (a as u64) > 3 * (b as u64) {
            // Forward split: price fell by a whole-number factor.
            match whole_factor(a, b) {
                Some(f) => Some(Ratio { num: f, den: 1 }),
                None => None,
            }
        } else if 3 * (a as u64) < 2 * (b as u64) {
            // Reverse split: price rose by a whole-number factor.
            match whole_factor(b, a) {
                Some(f) => Some(Ratio { num: 1, den: f }),
                None => None,
            }
        } else {
            None
        };
        proof {
            let seen = bars@.take(i + 1);
            assert(seen.drop_last() =~= bars@.take(i as int));
            assert(seen.last() == bars@[i as int] && seen[i - 1] == bars@[i - 1]);
            assert(ratio == split_between(bars@[i - 1], bars@[i as int]));
        }
        if let Some(ratio) = ratio {
            out.push(CorporateAction { time: bars[i].time, kind: ActionKind::Split { ratio } });
        }
        i += 1;
    }
    assert(bars@.take(i as int) =~= bars@);
    out
}

} // verus!
