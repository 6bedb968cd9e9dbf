//! How a chart is laid out: which indicator is drawn where, and what the chart is called.
use vstd::prelude::*;

use crate::calc::{parse_spec, BuiltIn, Sma, SpecError};
use crate::text::join;

verus! {

pub const DEFAULT_WIDTH: u32 = 1_920;

pub const DEFAULT_HEIGHT: u32 = 1_080;

/// Where an indicator is drawn.
#[derive(Debug, Clone, Copy, PartialEq, Eq, Structural)]
pub enum Panel {
    /// Over the candles.
    Price,
    /// Over the volume.
    Volume,
    /// In a panel of its own.
    Own,
}

/// Moving averages go over what they average; everything else gets its own panel.
pub open spec fn panel(indicator: BuiltIn) -> Panel {
    match indicator {
        BuiltIn::Sma(_) | BuiltIn::Ema(_) | BuiltIn::Dema(_) => Panel::Price,
        BuiltIn::VolumeSma(_) | BuiltIn::VolumeEma(_) | BuiltIn::VolumeDema(_) => Panel::Volume,
        BuiltIn::Rsi(_) | BuiltIn::Volatility(_) | BuiltIn::Returns(_) => Panel::Own,
    }
}

pub fn panel_of(indicator: BuiltIn) -> (r: Panel)
    ensures
        r == panel(indicator),
{
    match indicator {
        BuiltIn::Sma(_) | BuiltIn::Ema(_) | BuiltIn::Dema(_) => Panel::Price,
        BuiltIn::VolumeSma(_) | BuiltIn::VolumeEma(_) | BuiltIn::VolumeDema(_) => Panel::Volume,
        BuiltIn::Rsi(_) | BuiltIn::Volatility(_) | BuiltIn::Returns(_) => Panel::Own,
    }
}

/// Why a spec cannot be drawn: the first that is refused.
#[derive(Debug, Clone, Copy, PartialEq, Eq, Structural)]
pub struct BadSpec {
    pub index: usize,
    /// `None` when the token is not spec-shaped.
    pub problem: Option<SpecError>,
}

/// The indicators that specs stand for, or the first spec that is refused.
pub open spec fn indicators_named(specs: Seq<Seq<char>>) -> Result<Seq<BuiltIn>, BadSpec>
    decreases specs.len(),
{
    if specs.len() == 0 {
        Ok(Seq::empty())
    } else {
        match indicators_named(specs.drop_last()) {
            Err(e) => Err(e),
            Ok(before) => match crate::calc::spec_meaning(specs.last()) {
                None => Err(BadSpec { index: (specs.len() - 1) as usize, problem: None }),
                Some(Err(e)) => Err(
                    BadSpec { index: (specs.len() - 1) as usize, problem: Some(e) },
                ),
                Some(Ok(indicator)) => Ok(before.push(indicator)),
            },
        }
    }
}

proof fn lemma_refused_stays(specs: Seq<Seq<char>>, k: int)
    requires
        0 <= k <= specs.len(),
        indicators_named(specs.take(k)) is Err,
    ensures
        indicators_named(specs) == indicators_named(specs.take(k)),
    decreases specs.len(),
{
    if k == specs.len() {
        assert(specs.take(k) =~= specs);
    } else {
        assert(specs.drop_last().take(k) =~= specs.take(k));
        lemma_refused_stays(specs.drop_last(), k);
    }
}

/// Reads specs as indicators.
pub fn parse_specs(specs: &[String]) -> (r: Result<Vec<BuiltIn>, BadSpec>)
    ensures
        match indicators_named(crate::text::texts(specs@)) {
            Ok(indicators) => r matches Ok(v) && v@ == indicators,
            Err(e) => r == Err::<Vec<BuiltIn>, BadSpec>(e),
        },
{
    let mut out: Vec<BuiltIn> = Vec::new();
    let ghost all = crate::text::texts(specs@);
    let mut i: usize = 0;
    while i < specs.len()
        invariant
            i <= specs.len(),
            all == crate::text::texts(specs@),
            indicators_named(all.take(i as int)) == Ok::<Seq<BuiltIn>, BadSpec>(out@),
        decreases specs.len() - i,
    {
        proof {
            assert(all.take(i + 1).drop_last() =~= all.take(i as int));
            assert(all.take(i + 1).last() == specs@[i as int]@);
            if indicators_named(all.take(i + 1)) is Err {
                lemma_refused_stays(all, i + 1);
            }
        }
        match parse_spec(specs[i].as_str()) {
            None => return Err(BadSpec { index: i, problem: None }),
            Some(Err(e)) => return Err(BadSpec { index: i, problem: Some(e) }),
            Some(Ok(indicator)) => out.push(indicator),
        }
        i += 1;
    }
    assert(all.take(i as int) =~= all);
    Ok(out)
}

/// The indicators drawn in one place, in order.
pub open spec fn drawn(indicators: Seq<BuiltIn>, place: Panel) -> Seq<BuiltIn>
    decreases indicators.len(),
{
    if indicators.len() == 0 {
        Seq::empty()
    } else if panel(indicators.last()) == place {
        drawn(indicators.drop_last(), place).push(indicators.last())
    } else {
        drawn(indicators.drop_last(), place)
    }
}

/// A chart's layout.
#[derive(Debug)]
pub struct Layout {
    /// Over the candles.
    pub overlays: Vec<BuiltIn>,
    /// Each in a panel of its own.
    pub panels: Vec<BuiltIn>,
    /// Over the volume.
    pub volume_overlays: Vec<BuiltIn>,
    /// Whether there is a volume panel.
    pub volume: bool,
}

/// The indicators in force: where none is given, a simple moving average over twenty bars.
pub open spec fn indicators_in_force(indicators: Seq<BuiltIn>) -> Seq<BuiltIn> {
    if indicators.len() == 0 {
        seq![BuiltIn::Sma(Sma { period: 20 })]
    } else {
        indicators
    }
}

/// Lays a chart out. Without a spec there is a moving average over twenty bars; an average of the
/// volume brings the volume panel with it.
pub fn layout_series(specs: &[String], volume: bool) -> (r: Result<Layout, BadSpec>)
    ensures
        match indicators_named(crate::text::texts(specs@)) {
            Err(e) => r == Err::<Layout, BadSpec>(e),
            Ok(named) => r matches Ok(layout) && {
                let indicators = indicators_in_force(named);
                &&& layout.overlays@ == drawn(indicators, Panel::Price)
                &&& layout.panels@ == drawn(indicators, Panel::Own)
                &&& layout.volume_overlays@ == drawn(indicators, Panel::Volume)
                &&& layout.volume == (volume || drawn(indicators, Panel::Volume).len() > 0)
            },
        },
{
    let mut indicators = match parse_specs(specs) {
        Ok(indicators) => indicators,
        Err(e) => return Err(e),
    };
    if indicators.len() == 0 {
        indicators.push(BuiltIn::Sma(Sma { period: 20 }));
    }
    proof {
        let named = indicators_named(crate::text::texts(specs@))->Ok_0;
        assert(indicators@ =~= indicators_in_force(named));
    }
    let mut overlays: Vec<BuiltIn> = Vec::new();
    let mut panels: Vec<BuiltIn> = Vec::new();
    let mut volume_overlays: Vec<BuiltIn> = Vec::new();
    let mut i: usize = 0;
    while i < indicators.len()
        invariant
            i <= indicators.len(),
            overlays@ == drawn(indicators@.take(i as int), Panel::Price),
            panels@ == drawn(indicators@.take(i as int), Panel::Own),
            volume_overlays@ == drawn(indicators@.take(i as int), Panel::Volume),
        decreases indicators.len() - i,
    {
        let indicator = indicators[i];
        assert(indicators@.take(i + 1).drop_last() =~= indicators@.take(i as int));
        match panel_of(indicator) {
            Panel::Price => overlays.push(indicator),
            Panel::Own => panels.push(indicator),
            Panel::Volume => volume_overlays.push(indicator),
        }
        i += 1;
    }
    assert(indicators@.take(i as int) =~= indicators@);
    let volume = volume || volume_overlays.len() > 0;
    Ok(Layout { overlays, panels, volume_overlays, volume })
}

/// Every indicator is drawn in one place: the three places hold them all.
pub proof fn every_indicator_is_drawn(indicators: Seq<BuiltIn>)
    ensures
        drawn(indicators, Panel::Price).to_multiset().add(
            drawn(indicators, Panel::Own).to_multiset(),
        ).add(drawn(indicators, Panel::Volume).to_multiset()) == indicators.to_multiset(),
    decreases indicators.len(),
{
    broadcast use vstd::seq_lib::group_to_multiset_ensures;

    if indicators.len() > 0 {
        let rest = indicators.drop_last();
        every_indicator_is_drawn(rest);
        assert(indicators =~= rest.push(indicators.last()));
        assert(drawn(indicators, Panel::Price).to_multiset().add(
            drawn(indicators, Panel::Own).to_multiset(),
        ).add(drawn(indicators, Panel::Volume).to_multiset()) =~= indicators.to_multiset());
    } else {
        assert(drawn(indicators, Panel::Price).to_multiset().add(
            drawn(indicators, Panel::Own).to_multiset(),
        ).add(drawn(indicators, Panel::Volume).to_multiset()) =~= indicators.to_multiset());
    }
}

pub open spec fn columns(indicators: Seq<BuiltIn>) -> Seq<Seq<char>> {
    indicators.map_values(|i: BuiltIn| i.column())
}

/// The labels of a chart: its indicators, and the volume where no average of it stands for it.
pub open spec fn labels(
    overlays: Seq<BuiltIn>,
    panels: Seq<BuiltIn>,
    volume_overlays: Seq<BuiltIn>,
    volume: bool,
) -> Seq<Seq<char>> {
    let named = columns(overlays) + columns(panels) + columns(volume_overlays);
    if volume && volume_overlays.len() == 0 {
        named.push("vol"@)
    } else {
        named
    }
}

fn push_names(out: &mut Vec<String>, indicators: &Vec<BuiltIn>)
    ensures
        crate::text::texts(final(out)@) == crate::text::texts(old(out)@) + columns(indicators@),
{
    let ghost before = crate::text::texts(out@);
    let mut i: usize = 0;
    assert(before + columns(indicators@.take(0)) =~= before);
    while i < indicators.len()
        invariant
            i <= indicators.len(),
            crate::text::texts(out@) == before + columns(indicators@.take(i as int)),
        decreases indicators.len() - i,
    {
        let ghost so_far = crate::text::texts(out@);
        out.push(indicators[i].name());
        proof {
            assert(crate::text::texts(out@) =~= so_far.push(indicators@[i as int].column()));
            assert(columns(indicators@.take(i + 1)) =~= columns(indicators@.take(i as int)).push(
                indicators@[i as int].column(),
            ));
        }
        i += 1;
    }
    assert(indicators@.take(i as int) =~= indicators@);
}

impl Layout {
    /// What the chart is called: the symbol, the interval and the labels.
    pub fn title(&self, symbol: &str, interval: &str) -> (r: String)
        ensures
            r@ == symbol@ + "  "@ + interval@ + "   "@ + crate::text::joined(
                labels(self.overlays@, self.panels@, self.volume_overlays@, self.volume),
                " "@,
            ),
    {
        let mut parts: Vec<String> = Vec::new();
        push_names(&mut parts, &self.overlays);
        push_names(&mut parts, &self.panels);
        push_names(&mut parts, &self.volume_overlays);
        let ghost named = crate::text::texts(parts@);
        if self.volume && self.volume_overlays.len() == 0 {
            parts.push("vol".to_owned());
            assert(crate::text::texts(parts@) =~= named.push("vol"@));
        }
        assert(crate::text::texts(parts@) =~= labels(
            self.overlays@,
            self.panels@,
            self.volume_overlays@,
            self.volume,
        ));
        let mut out = symbol.to_owned();
        out.append("  ");
        out.append(interval);
        out.append("   ");
        out.append(join(&parts, " ").as_str());
        out
    }
}

/// How a chart file is encoded.
#[derive(Debug, Clone, Copy, PartialEq, Eq, Structural)]
pub enum ChartEncoding {
    /// The raw Sixel escape sequence.
    Sixel,
    /// An indexed PNG.
    Png,
}

/// The encoding that a file name asks for: Sixel for the extensions `six` and `sixel` in any case,
/// PNG for everything else.
pub open spec fn encoding_for(extension: Option<Seq<char>>) -> ChartEncoding {
    match extension {
        Some(e) => if crate::tokens::lower_text(e) == "six"@ || crate::tokens::lower_text(e)
            == "sixel"@ {
            ChartEncoding::Sixel
        } else {
            ChartEncoding::Png
        },
        None => ChartEncoding::Png,
    }
}

/// The encoding of a chart file, by its extension.
pub fn chart_encoding(extension: Option<&str>) -> (r: ChartEncoding)
    ensures
        r == encoding_for(
            match extension {
                Some(e) => Some(e@),
                None => None,
            },
        ),
{
    match extension {
        Some(e) => {
            let small = crate::tokens::lowered(e);
            if crate::text::same(small.as_str(), "six") || crate::text::same(
                small.as_str(),
                "sixel",
            ) {
                ChartEncoding::Sixel
            } else {
                ChartEncoding::Png
            }
        },
        None => ChartEncoding::Png,
    }
}

} // verus!
