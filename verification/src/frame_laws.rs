//! Where the fields of stored frames lie, how symbols are grouped, and what a chart draws.
use vstd::prelude::*;

use crate::calc::{
    BuiltIn, Dema, Ema, Returns, Rsi, Sma, Volatility, VolumeDema, VolumeEma, VolumeSma,
};
use crate::model::{Bar, Tick, Vwap};
use crate::plot::{ChartEncoding, Panel};

verus! {

// ---- stored frames -----------------------------------------------------------------------

/// The number that four bytes hold, the first weighing least.
pub open spec fn word_at(bytes: Seq<u8>, at: int) -> int {
    bytes[at] + 256 * bytes[at + 1] + 65_536 * bytes[at + 2] + 16_777_216 * bytes[at + 3]
}

/// The number that eight bytes hold, the first weighing least.
pub open spec fn long_at(bytes: Seq<u8>, at: int) -> int {
    word_at(bytes, at) + 4_294_967_296 * word_at(bytes, at + 4)
}

/// A number below zero is stored as its complement.
pub open spec fn signed(stored: int, range: int) -> int {
    if 2 * stored >= range {
        stored - range
    } else {
        stored
    }
}

proof fn lemma_word(bytes: Seq<u8>, at: int)
    requires
        0 <= at <= at + 4 <= bytes.len(),
    ensures
        crate::frames::le_value(bytes.subrange(at, at + 4)) == word_at(bytes, at),
{
    let s = bytes.subrange(at, at + 4);
    reveal_with_fuel(crate::frames::le_value, 5);
    let (a, b, c) = (s.drop_first(), s.drop_first().drop_first(), s.drop_first().drop_first().drop_first());
    assert(s[0] == bytes[at] && a[0] == bytes[at + 1] && b[0] == bytes[at + 2] && c[0] == bytes[at
        + 3]);
    assert(c.drop_first() =~= Seq::<u8>::empty());
}

proof fn lemma_long(bytes: Seq<u8>, at: int)
    requires
        0 <= at <= at + 8 <= bytes.len(),
    ensures
        crate::frames::le_value(bytes.subrange(at, at + 8)) == long_at(bytes, at),
{
    let s = bytes.subrange(at, at + 8);
    let t = s.drop_first().drop_first().drop_first().drop_first();
    assert(t =~= bytes.subrange(at + 4, at + 8));
    lemma_word(bytes, at + 4);
    reveal_with_fuel(crate::frames::le_value, 5);
    let (a, b, c) = (s.drop_first(), s.drop_first().drop_first(), s.drop_first().drop_first().drop_first());
    assert(s[0] == bytes[at] && a[0] == bytes[at + 1] && b[0] == bytes[at + 2] && c[0] == bytes[at
        + 3]);
}

/// Whether twelve bytes are a trade's: its time, its price and its size, four bytes each.
pub open spec fn holds_tick(bytes: Seq<u8>, tick: Tick) -> bool {
    &&& bytes.len() == 12
    &&& word_at(bytes, 0) == tick.time
    &&& word_at(bytes, 4) == tick.price
    &&& signed(word_at(bytes, 8), 0x1_0000_0000) == tick.size
}

/// A stored trade holds its time, its price and its size, in that order, whether written or read.
pub proof fn trades_are_stored_field_by_field(tick: Tick, bytes: Seq<u8>)
    ensures
        holds_tick(crate::frames::tick_frame(tick), tick),
        crate::frames::is_tick_frame(bytes, tick) <==> holds_tick(bytes, tick),
{
    let frame = crate::frames::tick_frame(tick);
    let size = crate::frames::folded(tick.size as int, 0x1_0000_0000);
    lemma_range();
    crate::frames::numbers_read_back(tick.time as nat, 4);
    crate::frames::numbers_read_back(tick.price as nat, 4);
    crate::frames::numbers_read_back(size, 4);
    assert(frame.subrange(0, 4) =~= crate::frames::le_bytes(tick.time as nat, 4));
    assert(frame.subrange(4, 8) =~= crate::frames::le_bytes(tick.price as nat, 4));
    assert(frame.subrange(8, 12) =~= crate::frames::le_bytes(size, 4));
    lemma_word(frame, 0);
    lemma_word(frame, 4);
    lemma_word(frame, 8);
    if bytes.len() == 12 {
        lemma_word(bytes, 0);
        lemma_word(bytes, 4);
        lemma_word(bytes, 8);
    }
}

proof fn lemma_range()
    ensures
        crate::frames::byte_range(4) == 0x1_0000_0000,
        crate::frames::byte_range(8) == 0x1_0000_0000_0000_0000,
{
    reveal_with_fuel(crate::frames::byte_range, 9);
}

/// Whether forty bytes are a bar's, but for its average price: time, open, high, low and close, four
/// bytes each, then the volume in eight, the average price in four, and the trades in eight.
pub open spec fn holds_bar(bytes: Seq<u8>, bar: Bar) -> bool {
    &&& bytes.len() == 40
    &&& word_at(bytes, 0) == bar.time
    &&& word_at(bytes, 4) == bar.open
    &&& word_at(bytes, 8) == bar.high
    &&& word_at(bytes, 12) == bar.low
    &&& word_at(bytes, 16) == bar.close
    &&& signed(long_at(bytes, 20), 0x1_0000_0000_0000_0000) == bar.volume
    &&& long_at(bytes, 32) == bar.trades
}

/// A stored bar holds its fields in order. Its average price is stored in whole units, and zero for
/// none; it is read back as that price.
pub proof fn bars_are_stored_field_by_field(bar: Bar, bytes: Seq<u8>)
    ensures
        holds_bar(crate::frames::bar_frame(bar), bar),
        word_at(crate::frames::bar_frame(bar), 28) == crate::frames::stored_vwap(
            bar.vwap,
            bar.volume as int,
        ),
        crate::frames::is_bar_frame(bytes, bar) <==> holds_bar(bytes, bar) && bar.vwap == (
        if word_at(bytes, 28) == 0 {
            Vwap::Undefined
        } else {
            Vwap::Price(word_at(bytes, 28) as u32)
        }),
{
    let frame = crate::frames::bar_frame(bar);
    let volume = crate::frames::folded(bar.volume as int, 0x1_0000_0000_0000_0000);
    let average = crate::frames::stored_vwap(bar.vwap, bar.volume as int);
    lemma_range();
    averages_are_stored_to_the_unit(bar.vwap, bar.volume);
    crate::frames::numbers_read_back(bar.time as nat, 4);
    crate::frames::numbers_read_back(bar.open as nat, 4);
    crate::frames::numbers_read_back(bar.high as nat, 4);
    crate::frames::numbers_read_back(bar.low as nat, 4);
    crate::frames::numbers_read_back(bar.close as nat, 4);
    crate::frames::numbers_read_back(volume, 8);
    crate::frames::numbers_read_back(average, 4);
    crate::frames::numbers_read_back(bar.trades as nat, 8);
    assert(frame.subrange(0, 4) =~= crate::frames::le_bytes(bar.time as nat, 4));
    assert(frame.subrange(4, 8) =~= crate::frames::le_bytes(bar.open as nat, 4));
    assert(frame.subrange(8, 12) =~= crate::frames::le_bytes(bar.high as nat, 4));
    assert(frame.subrange(12, 16) =~= crate::frames::le_bytes(bar.low as nat, 4));
    assert(frame.subrange(16, 20) =~= crate::frames::le_bytes(bar.close as nat, 4));
    assert(frame.subrange(20, 28) =~= crate::frames::le_bytes(volume, 8));
    assert(frame.subrange(28, 32) =~= crate::frames::le_bytes(average, 4));
    assert(frame.subrange(32, 40) =~= crate::frames::le_bytes(bar.trades as nat, 8));
    lemma_fields(frame);
    if bytes.len() == 40 {
        lemma_fields(bytes);
    }
}

proof fn lemma_fields(bytes: Seq<u8>)
    requires
        bytes.len() == 40,
    ensures
        crate::frames::le_value(bytes.subrange(0, 4)) == word_at(bytes, 0),
        crate::frames::le_value(bytes.subrange(4, 8)) == word_at(bytes, 4),
        crate::frames::le_value(bytes.subrange(8, 12)) == word_at(bytes, 8),
        crate::frames::le_value(bytes.subrange(12, 16)) == word_at(bytes, 12),
        crate::frames::le_value(bytes.subrange(16, 20)) == word_at(bytes, 16),
        crate::frames::le_value(bytes.subrange(20, 28)) == long_at(bytes, 20),
        crate::frames::le_value(bytes.subrange(28, 32)) == word_at(bytes, 28),
        crate::frames::le_value(bytes.subrange(32, 40)) == long_at(bytes, 32),
{
    lemma_word(bytes, 0);
    lemma_word(bytes, 4);
    lemma_word(bytes, 8);
    lemma_word(bytes, 12);
    lemma_word(bytes, 16);
    lemma_long(bytes, 20);
    lemma_word(bytes, 28);
    lemma_long(bytes, 32);
}

/// An average is stored to the nearest price unit: the mass over the volume. One that cannot be, or is
/// none, is stored as zero.
pub proof fn averages_are_stored_to_the_unit(vwap: Vwap, volume: i64)
    ensures
        ({
            let stored = crate::frames::stored_vwap(vwap, volume as int);
            &&& 0 <= stored <= u32::MAX
            &&& match vwap {
                Vwap::Undefined => stored == 0,
                Vwap::Price(price) => stored == price,
                Vwap::Mass(mass) => if volume <= 0 || mass < 0 {
                    stored == 0
                } else {
                    (stored == 0 && 2 * mass > volume) ==> mass > 0xffff_fffe * volume
                },
            }
            &&& vwap matches Vwap::Mass(mass) ==> (stored > 0 ==> -volume < 2 * (stored * volume
                - mass) <= volume)
        }),
{
    if let Vwap::Mass(mass) = vwap {
        if volume > 0 && mass >= 0 {
            let (m, v) = (mass as int, volume as int);
            let (n, d) = (2 * m + v, 2 * v);
            vstd::arithmetic::div_mod::lemma_fundamental_div_mod(n, d);
            vstd::arithmetic::div_mod::lemma_mod_bound(n, d);
            let q = n / d;
            let r = n % d;
            assert(d * q == 2 * (q * v)) by (nonlinear_arith)
                requires
                    d == 2 * v,
            ;
            assert(q >= 0) by (nonlinear_arith)
                requires
                    q == n / d,
                    n >= 0,
                    d > 0,
            ;
            if q > u32::MAX {
                assert(q * v >= 0x1_0000_0000 * v) by (nonlinear_arith)
                    requires
                        q >= 0x1_0000_0000,
                        v > 0,
                ;
            } else if q == 0 {
                assert(q * v == 0) by (nonlinear_arith)
                    requires
                        q == 0,
                ;
            }
        }
    }
}

// ---- groups ------------------------------------------------------------------------------

/// Whether two texts agree up to a place at which the first ends or has the lesser character.
pub open spec fn precedes_at(a: Seq<char>, b: Seq<char>, k: int) -> bool {
    &&& 0 <= k <= a.len()
    &&& k < b.len()
    &&& forall|i: int| 0 <= i < k ==> #[trigger] a[i] == b[i]
    &&& k == a.len() || a[k] < b[k]
}

/// Texts are ordered as words in a dictionary, by the first character in which they differ.
pub proof fn texts_are_ordered_as_words(a: Seq<char>, b: Seq<char>)
    ensures
        crate::grouping::comes_before(a, b) <==> exists|k: int| #[trigger] precedes_at(a, b, k),
    decreases a.len(),
{
    if b.len() > 0 && a.len() > 0 {
        let (x, y) = (a.drop_first(), b.drop_first());
        texts_are_ordered_as_words(x, y);
        if a[0] != b[0] {
            if a[0] < b[0] {
                assert(precedes_at(a, b, 0));
            }
            if exists|k: int| #[trigger] precedes_at(a, b, k) {
                let k = choose|k: int| #[trigger] precedes_at(a, b, k);
                if k > 0 {
                    assert(a[0] == b[0]);
                }
            }
        } else {
            if exists|k: int| #[trigger] precedes_at(x, y, k) {
                let k = choose|k: int| #[trigger] precedes_at(x, y, k);
                assert forall|i: int| 0 <= i < k + 1 implies #[trigger] a[i] == b[i] by {
                    if i > 0 {
                        assert(x[i - 1] == y[i - 1]);
                    }
                }
                assert(precedes_at(a, b, k + 1));
            }
            if exists|k: int| #[trigger] precedes_at(a, b, k) {
                let k = choose|k: int| #[trigger] precedes_at(a, b, k);
                assert forall|i: int| 0 <= i < k - 1 implies #[trigger] x[i] == y[i] by {
                    assert(a[i + 1] == b[i + 1]);
                }
                assert(k > 0);
                assert(precedes_at(x, y, k - 1));
            }
        }
    } else if b.len() > 0 {
        assert(precedes_at(a, b, 0));
    }
}

/// The members of a group are the places of its symbol, all of them, in order.
pub proof fn groups_hold_their_places(symbols: Seq<Seq<char>>, symbol: Seq<char>)
    requires
        symbols.len() <= usize::MAX,
    ensures
        ({
            let places = crate::grouping::positions_of(symbols, symbol);
            &&& forall|i: int|
                0 <= i < places.len() ==> (#[trigger] places[i]) < symbols.len()
                    && symbols[places[i] as int] == symbol
            &&& forall|i: int, j: int|
                0 <= i < j < places.len() ==> (#[trigger] places[i]) < (#[trigger] places[j])
            &&& forall|k: int|
                0 <= k < symbols.len() && #[trigger] symbols[k] == symbol ==> places.contains(
                    k as usize,
                )
        }),
    decreases symbols.len(),
{
    if symbols.len() > 0 {
        let init = symbols.drop_last();
        groups_hold_their_places(init, symbol);
        let before = crate::grouping::positions_of(init, symbol);
        let places = crate::grouping::positions_of(symbols, symbol);
        let n = symbols.len() - 1;
        assert forall|i: int| 0 <= i < places.len() implies (#[trigger] places[i]) < symbols.len()
            && symbols[places[i] as int] == symbol by {
            if i < before.len() {
                assert(places[i] == before[i]);
                assert(init[before[i] as int] == symbols[before[i] as int]);
            }
        }
        assert forall|i: int, j: int| 0 <= i < j < places.len() implies (#[trigger] places[i]) < (
        #[trigger] places[j]) by {
            assert(places[i] == before[i]);
            if j < before.len() {
                assert(places[j] == before[j]);
            }
        }
        assert forall|k: int| 0 <= k < symbols.len() && #[trigger] symbols[k] == symbol implies
            places.contains(k as usize) by {
            if k < n {
                assert(init[k] == symbol);
                let i = choose|i: int| 0 <= i < before.len() && before[i] == k as usize;
                assert(places[i] == before[i]);
            } else {
                assert(places[before.len() as int] == n as usize);
            }
        }
    }
}

// ---- charts ------------------------------------------------------------------------------

/// Averages of prices are drawn over the candles, averages of volumes over the volume, and every other
/// indicator in a panel of its own.
pub proof fn indicators_are_drawn_with_what_they_measure(period: usize, method: crate::calc::ReturnMethod)
    ensures
        crate::plot::panel(BuiltIn::Sma(Sma { period })) == Panel::Price,
        crate::plot::panel(BuiltIn::Ema(Ema { period })) == Panel::Price,
        crate::plot::panel(BuiltIn::Dema(Dema { period })) == Panel::Price,
        crate::plot::panel(BuiltIn::VolumeSma(VolumeSma { period })) == Panel::Volume,
        crate::plot::panel(BuiltIn::VolumeEma(VolumeEma { period })) == Panel::Volume,
        crate::plot::panel(BuiltIn::VolumeDema(VolumeDema { period })) == Panel::Volume,
        crate::plot::panel(BuiltIn::Rsi(Rsi { period })) == Panel::Own,
        crate::plot::panel(BuiltIn::Volatility(Volatility { period })) == Panel::Own,
        crate::plot::panel(BuiltIn::Returns(Returns { method })) == Panel::Own,
{
}

/// Each place of a chart draws the indicators that belong there, in the order they are asked for.
pub proof fn places_draw_their_own(indicators: Seq<BuiltIn>, place: Panel)
    ensures
        crate::plot::drawn(indicators, place) == indicators.filter(
            |i: BuiltIn| crate::plot::panel(i) == place,
        ),
    decreases indicators.len(),
{
    reveal(Seq::filter);
    if indicators.len() > 0 {
        places_draw_their_own(indicators.drop_last(), place);
    } else {
        assert(indicators.filter(|i: BuiltIn| crate::plot::panel(i) == place) =~= Seq::empty());
    }
}

/// A chart without indicators draws the simple average over twenty bars; one with some draws those.
pub proof fn charts_have_a_default(indicators: Seq<BuiltIn>)
    ensures
        indicators.len() > 0 ==> crate::plot::indicators_in_force(indicators) == indicators,
        crate::plot::indicators_in_force(Seq::empty()).len() == 1,
        crate::plot::indicators_in_force(Seq::empty())[0] == BuiltIn::Sma(Sma { period: 20 }),
{
}

/// Specs are read in order, each as the indicator it asks for; the first that is none is refused by
/// its place.
pub proof fn specs_are_read_in_order(specs: Seq<Seq<char>>, i: int)
    requires
        specs.len() <= usize::MAX,
        0 <= i < specs.len(),
    ensures
        match crate::plot::indicators_named(specs) {
            Ok(indicators) => indicators.len() == specs.len() && crate::calc::spec_meaning(specs[i])
                == Some(Ok::<BuiltIn, crate::calc::SpecError>(indicators[i])),
            Err(bad) => {
                &&& bad.index < specs.len()
                &&& i < bad.index ==> crate::calc::spec_meaning(specs[i]) is Some
                    && crate::calc::spec_meaning(specs[i])->0 is Ok
                &&& i == bad.index ==> crate::calc::spec_meaning(specs[i]) == (match bad.problem {
                    None => None,
                    Some(e) => Some(Err::<BuiltIn, crate::calc::SpecError>(e)),
                })
            },
        },
    decreases specs.len(),
{
    let init = specs.drop_last();
    if i < init.len() {
        specs_are_read_in_order(init, i);
        assert(init[i] == specs[i]);
    } else if init.len() > 0 {
        specs_are_read_in_order(init, init.len() - 1);
    }
}

/// The legend names the indicators over the candles, then those in panels, then those over the volume;
/// a bare volume panel is named as such.
pub proof fn legends_name_what_is_drawn(
    overlays: Seq<BuiltIn>,
    panels: Seq<BuiltIn>,
    volumes: Seq<BuiltIn>,
    volume: bool,
    k: int,
)
    requires
        0 <= k,
    ensures
        ({
            let names = crate::plot::labels(overlays, panels, volumes, volume);
            let (a, b) = (overlays.len(), overlays.len() + panels.len());
            let bare = volume && volumes.len() == 0;
            &&& names.len() == b + volumes.len() + if bare {
                1int
            } else {
                0
            }
            &&& k < a ==> names[k] == overlays[k].column()
            &&& a <= k < b ==> names[k] == panels[k - a].column()
            &&& b <= k < b + volumes.len() ==> names[k] == volumes[k - b].column()
            &&& bare ==> names[names.len() - 1] == "vol"@
        }),
{
}

/// Files that end in `.six` or `.sixel`, in any case, are escape sequences; all others are images.
pub proof fn endings_choose_the_encoding(extension: Seq<char>)
    ensures
        crate::plot::encoding_for(None) == ChartEncoding::Png,
        crate::plot::encoding_for(Some(extension)) == ChartEncoding::Sixel <==> (
        crate::tokens::lower_text(extension) == "six"@ || crate::tokens::lower_text(extension)
            == "sixel"@),
{
}

} // verus!
