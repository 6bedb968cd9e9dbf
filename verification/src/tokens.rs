//! The positional tokens of the analysis commands.
//!
//! Tokens come in any order. Each one is read on its own: a flag, a time range, an interval, an
//! indicator spec, an output format, and what is none of these is a path or a symbol.
use vstd::prelude::*;

use crate::bounds::parse_range_token;
use crate::calc::{parse_spec, BuiltIn, SpecError};
use crate::interval::{Interval, IntervalError, IntervalUnit};
use crate::ls::LsFormat;
use crate::output::{AnalysisFormat, FrameFormat};
use crate::text::{chars_of, same};

verus! {

/// Which tokens a command takes.
#[derive(Debug, Clone, Copy, PartialEq, Eq, Structural)]
pub enum Grammar {
    /// Paths, a format, `rth` and a time range.
    Stat,
    /// The same, with an interval and `fill`.
    Bars,
    /// The same, with indicator specs.
    Calc,
}

/// Why a list of tokens is refused.
#[derive(Debug, Clone, Copy, PartialEq, Eq, Structural)]
pub enum GrammarError {
    ManyRanges,
    ManyIntervals,
    ManyFormats,
    Interval(IntervalError),
    Spec(SpecError),
}

/// What one token is.
pub enum Word {
    Rth,
    Fill,
    Range(Option<Seq<char>>, Option<Seq<char>>),
    Interval(Result<(nat, IntervalUnit), IntervalError>),
    Spec(Result<BuiltIn, SpecError>),
    Format(AnalysisFormat),
    Path,
}

/// What one token is under a command's grammar.
pub open spec fn word(grammar: Grammar, token: Seq<char>) -> Word {
    if token == "rth"@ {
        Word::Rth
    } else if grammar != Grammar::Stat && token == "fill"@ {
        Word::Fill
    } else if let Some((start, end)) = crate::bounds::range_named(token) {
        Word::Range(start, end)
    } else if grammar != Grammar::Stat && crate::interval::token_meaning(token) is Some {
        Word::Interval(crate::interval::token_meaning(token)->0)
    } else if grammar == Grammar::Calc && crate::calc::spec_meaning(token) is Some {
        Word::Spec(crate::calc::spec_meaning(token)->0)
    } else if let Some(format) = AnalysisFormat::named(token) {
        Word::Format(format)
    } else {
        Word::Path
    }
}

/// What a list of tokens holds.
#[verifier::ext_equal]
pub struct Reading {
    pub paths: Seq<Seq<char>>,
    pub interval: Option<(nat, IntervalUnit)>,
    pub specs: Seq<Seq<char>>,
    pub format: Option<AnalysisFormat>,
    pub use_rth: bool,
    pub fill: bool,
    pub range: Option<(Option<Seq<char>>, Option<Seq<char>>)>,
}

impl Reading {
    pub open spec fn nothing() -> Reading {
        Reading {
            paths: Seq::empty(),
            interval: None,
            specs: Seq::empty(),
            format: None,
            use_rth: false,
            fill: false,
            range: None,
        }
    }

    /// The reading with one more token.
    pub open spec fn with(self, word: Word, token: Seq<char>) -> Result<Reading, GrammarError> {
        match word {
            Word::Rth => Ok(Reading { use_rth: true, ..self }),
            Word::Fill => Ok(Reading { fill: true, ..self }),
            Word::Range(start, end) => if self.range is Some {
                Err(GrammarError::ManyRanges)
            } else {
                Ok(Reading { range: Some((start, end)), ..self })
            },
            Word::Interval(Err(e)) => Err(GrammarError::Interval(e)),
            Word::Interval(Ok(interval)) => if self.interval is Some {
                Err(GrammarError::ManyIntervals)
            } else {
                Ok(Reading { interval: Some(interval), ..self })
            },
            Word::Spec(Err(e)) => Err(GrammarError::Spec(e)),
            Word::Spec(Ok(_)) => Ok(Reading { specs: self.specs.push(token), ..self }),
            Word::Format(format) => if self.format is Some {
                Err(GrammarError::ManyFormats)
            } else {
                Ok(Reading { format: Some(format), ..self })
            },
            Word::Path => Ok(Reading { paths: self.paths.push(token), ..self }),
        }
    }

    /// The format, where none is given a table.
    pub open spec fn format_or_table(self) -> AnalysisFormat {
        match self.format {
            Some(format) => format,
            None => AnalysisFormat::Frame(FrameFormat::Table),
        }
    }

    pub open spec fn start(self) -> Option<Seq<char>> {
        match self.range {
            Some((start, _)) => start,
            None => None,
        }
    }

    pub open spec fn end(self) -> Option<Seq<char>> {
        match self.range {
            Some((_, end)) => end,
            None => None,
        }
    }
}

/// What a list of tokens holds, or what is wrong at the first token that does not fit.
pub open spec fn read(grammar: Grammar, tokens: Seq<Seq<char>>) -> Result<Reading, GrammarError>
    decreases tokens.len(),
{
    if tokens.len() == 0 {
        Ok(Reading::nothing())
    } else {
        match read(grammar, tokens.drop_last()) {
            Err(e) => Err(e),
            Ok(before) => before.with(word(grammar, tokens.last()), tokens.last()),
        }
    }
}

proof fn lemma_refused_stays(grammar: Grammar, tokens: Seq<Seq<char>>, k: int)
    requires
        0 <= k <= tokens.len(),
        read(grammar, tokens.take(k)) is Err,
    ensures
        read(grammar, tokens) == read(grammar, tokens.take(k)),
    decreases tokens.len(),
{
    if k == tokens.len() {
        assert(tokens.take(k) =~= tokens);
    } else {
        assert(tokens.drop_last().take(k) =~= tokens.take(k));
        lemma_refused_stays(grammar, tokens.drop_last(), k);
    }
}

pub open spec fn interval_model(interval: Option<Interval>) -> Option<(nat, IntervalUnit)> {
    match interval {
        Some(interval) => Some((interval.units(), interval.kind())),
        None => None,
    }
}

/// The tokens of any of the commands.
struct Held {
    paths: Vec<String>,
    interval: Option<Interval>,
    specs: Vec<String>,
    format: Option<AnalysisFormat>,
    use_rth: bool,
    fill: bool,
    range: Option<(Option<String>, Option<String>)>,
}

impl Held {
    spec fn reading(&self) -> Reading {
        Reading {
            paths: crate::text::texts(self.paths@),
            interval: interval_model(self.interval),
            specs: crate::text::texts(self.specs@),
            format: self.format,
            use_rth: self.use_rth,
            fill: self.fill,
            range: match self.range {
                Some((start, end)) => Some(
                    (crate::bounds::side_text(start), crate::bounds::side_text(end)),
                ),
                None => None,
            },
        }
    }

    spec fn sound(&self) -> bool {
        self.interval matches Some(interval) ==> interval.valid()
    }

    /// Takes in one more token.
    fn take_in(&mut self, grammar: Grammar, token: &String) -> (r: Result<(), GrammarError>)
        requires
            old(self).sound(),
        ensures
            final(self).sound(),
            match old(self).reading().with(word(grammar, token@), token@) {
                Ok(reading) => r is Ok && final(self).reading() == reading,
                Err(e) => r == Err::<(), GrammarError>(e),
            },
    {
        let ghost before = self.reading();
        let text = token.as_str();
        if same(text, "rth") {
            self.use_rth = true;
            return Ok(());
        }
        if grammar != Grammar::Stat && same(text, "fill") {
            self.fill = true;
            return Ok(());
        }
        if let Some(range) = parse_range_token(text) {
            if self.range.is_some() {
                return Err(GrammarError::ManyRanges);
            }
            self.range = Some(range);
            return Ok(());
        }
        if grammar != Grammar::Stat {
            match Interval::parse(text) {
                Some(Ok(interval)) => {
                    if self.interval.is_some() {
                        return Err(GrammarError::ManyIntervals);
                    }
                    self.interval = Some(interval);
                    return Ok(());
                },
                Some(Err(e)) => return Err(GrammarError::Interval(e)),
                None => {},
            }
        }
        if grammar == Grammar::Calc {
            match parse_spec(text) {
                Some(Ok(_)) => {
                    self.specs.push(token.clone());
                    assert(self.reading().specs =~= before.specs.push(token@));
                    return Ok(());
                },
                Some(Err(e)) => return Err(GrammarError::Spec(e)),
                None => {},
            }
        }
        if let Some(format) = AnalysisFormat::parse(text) {
            if self.format.is_some() {
                return Err(GrammarError::ManyFormats);
            }
            self.format = Some(format);
            return Ok(());
        }
        self.paths.push(token.clone());
        assert(self.reading().paths =~= before.paths.push(token@));
        Ok(())
    }
}

fn classify(grammar: Grammar, tokens: &[String]) -> (r: Result<Held, GrammarError>)
    ensures
        match read(grammar, crate::text::texts(tokens@)) {
            Ok(reading) => r matches Ok(held) && held.sound() && held.reading() == reading,
            Err(e) => r == Err::<Held, GrammarError>(e),
        },
{
    let mut held = Held {
        paths: Vec::new(),
        interval: None,
        specs: Vec::new(),
        format: None,
        use_rth: false,
        fill: false,
        range: None,
    };
    let ghost all = crate::text::texts(tokens@);
    assert(held.reading() =~= Reading::nothing());
    let mut i: usize = 0;
    while i < tokens.len()
        invariant
            i <= tokens.len(),
            all == crate::text::texts(tokens@),
            held.sound(),
            read(grammar, all.take(i as int)) == Ok::<Reading, GrammarError>(held.reading()),
        decreases tokens.len() - i,
    {
        proof {
            assert(all.take(i + 1).drop_last() =~= all.take(i as int));
            assert(all.take(i + 1).last() == tokens@[i as int]@);
        }
        match held.take_in(grammar, &tokens[i]) {
            Ok(_) => {},
            Err(e) => {
                proof {
                    lemma_refused_stays(grammar, all, i + 1);
                }
                return Err(e);
            },
        }
        i += 1;
    }
    assert(all.take(i as int) =~= all);
    Ok(held)
}

fn sides(range: Option<(Option<String>, Option<String>)>) -> (r: (Option<String>, Option<String>))
    ensures
        match range {
            Some(sides) => r == sides,
            None => r.0 is None && r.1 is None,
        },
{
    match range {
        Some(sides) => sides,
        None => (None, None),
    }
}

fn format_or_table(format: Option<AnalysisFormat>) -> (r: AnalysisFormat)
    ensures
        match format {
            Some(format) => r == format,
            None => r == AnalysisFormat::Frame(FrameFormat::Table),
        },
{
    match format {
        Some(format) => format,
        None => AnalysisFormat::default(),
    }
}

/// The tokens of `stat`.
#[derive(Debug)]
pub struct StatTokens {
    pub paths: Vec<String>,
    pub format: AnalysisFormat,
    pub use_rth: bool,
    pub start: Option<String>,
    pub end: Option<String>,
}

/// Reads the tokens of `stat`.
pub fn classify_paths_format(tokens: &[String]) -> (r: Result<StatTokens, GrammarError>)
    ensures
        match read(Grammar::Stat, crate::text::texts(tokens@)) {
            Err(e) => r == Err::<StatTokens, GrammarError>(e),
            Ok(reading) => r matches Ok(t) && {
                &&& crate::text::texts(t.paths@) == reading.paths
                &&& t.format == reading.format_or_table()
                &&& t.use_rth == reading.use_rth
                &&& crate::bounds::side_text(t.start) == reading.start()
                &&& crate::bounds::side_text(t.end) == reading.end()
            },
        },
{
    match classify(Grammar::Stat, tokens) {
        Err(e) => Err(e),
        Ok(held) => {
            let (start, end) = sides(held.range);
            Ok(
                StatTokens {
                    paths: held.paths,
                    format: format_or_table(held.format),
                    use_rth: held.use_rth,
                    start,
                    end,
                },
            )
        },
    }
}

/// The tokens of `bars`.
#[derive(Debug)]
pub struct BarsTokens {
    pub paths: Vec<String>,
    pub interval: Option<Interval>,
    pub format: AnalysisFormat,
    pub use_rth: bool,
    pub fill: bool,
    pub start: Option<String>,
    pub end: Option<String>,
}

/// Reads the tokens of `bars`.
pub fn classify_with_interval(tokens: &[String]) -> (r: Result<BarsTokens, GrammarError>)
    ensures
        match read(Grammar::Bars, crate::text::texts(tokens@)) {
            Err(e) => r == Err::<BarsTokens, GrammarError>(e),
            Ok(reading) => r matches Ok(t) && {
                &&& crate::text::texts(t.paths@) == reading.paths
                &&& interval_model(t.interval) == reading.interval
                &&& t.interval matches Some(interval) ==> interval.valid()
                &&& t.format == reading.format_or_table()
                &&& t.use_rth == reading.use_rth
                &&& t.fill == reading.fill
                &&& crate::bounds::side_text(t.start) == reading.start()
                &&& crate::bounds::side_text(t.end) == reading.end()
            },
        },
{
    match classify(Grammar::Bars, tokens) {
        Err(e) => Err(e),
        Ok(held) => {
            let (start, end) = sides(held.range);
            Ok(
                BarsTokens {
                    paths: held.paths,
                    interval: held.interval,
                    format: format_or_table(held.format),
                    use_rth: held.use_rth,
                    fill: held.fill,
                    start,
                    end,
                },
            )
        },
    }
}

/// The tokens of `calc`, and of `plot` once its own are taken out.
#[derive(Debug)]
pub struct CalcTokens {
    pub paths: Vec<String>,
    pub interval: Option<Interval>,
    pub specs: Vec<String>,
    pub format: AnalysisFormat,
    pub use_rth: bool,
    pub fill: bool,
    pub start: Option<String>,
    pub end: Option<String>,
}

/// Reads the tokens of `calc`. Every spec it hands out is valid.
pub fn classify_calc(tokens: &[String]) -> (r: Result<CalcTokens, GrammarError>)
    ensures
        match read(Grammar::Calc, crate::text::texts(tokens@)) {
            Err(e) => r == Err::<CalcTokens, GrammarError>(e),
            Ok(reading) => r matches Ok(t) && {
                &&& crate::text::texts(t.paths@) == reading.paths
                &&& interval_model(t.interval) == reading.interval
                &&& t.interval matches Some(interval) ==> interval.valid()
                &&& crate::text::texts(t.specs@) == reading.specs
                &&& t.format == reading.format_or_table()
                &&& t.use_rth == reading.use_rth
                &&& t.fill == reading.fill
                &&& crate::bounds::side_text(t.start) == reading.start()
                &&& crate::bounds::side_text(t.end) == reading.end()
            },
        },
{
    match classify(Grammar::Calc, tokens) {
        Err(e) => Err(e),
        Ok(held) => {
            let (start, end) = sides(held.range);
            Ok(
                CalcTokens {
                    paths: held.paths,
                    interval: held.interval,
                    specs: held.specs,
                    format: format_or_table(held.format),
                    use_rth: held.use_rth,
                    fill: held.fill,
                    start,
                    end,
                },
            )
        },
    }
}

/// The specs of a reading are valid, and stand in it in the order of the tokens.
pub proof fn specs_are_valid(grammar: Grammar, tokens: Seq<Seq<char>>)
    requires
        read(grammar, tokens) is Ok,
    ensures
        ({
            let specs = read(grammar, tokens)->Ok_0.specs;
            forall|i: int|
                0 <= i < specs.len() ==> crate::calc::spec_meaning(#[trigger] specs[i]) matches Some(
                    Ok(_),
                )
        }),
    decreases tokens.len(),
{
    if tokens.len() > 0 {
        specs_are_valid(grammar, tokens.drop_last());
    }
}

/// The tokens that are paths.
pub open spec fn path_tokens(grammar: Grammar, tokens: Seq<Seq<char>>) -> Seq<Seq<char>>
    decreases tokens.len(),
{
    if tokens.len() == 0 {
        Seq::empty()
    } else if word(grammar, tokens.last()) is Path {
        path_tokens(grammar, tokens.drop_last()).push(tokens.last())
    } else {
        path_tokens(grammar, tokens.drop_last())
    }
}

/// The paths keep their order, and nothing else is among them; a flag is on where its token is
/// given.
pub proof fn readings_hold_what_is_given(grammar: Grammar, tokens: Seq<Seq<char>>)
    requires
        read(grammar, tokens) is Ok,
    ensures
        read(grammar, tokens)->Ok_0.paths == path_tokens(grammar, tokens),
        read(grammar, tokens)->Ok_0.use_rth == tokens.contains("rth"@),
        read(grammar, tokens)->Ok_0.fill == (grammar != Grammar::Stat && tokens.contains(
            "fill"@,
        )),
    decreases tokens.len(),
{
    reveal_strlit("rth");
    reveal_strlit("fill");
    if tokens.len() > 0 {
        let t = tokens.last();
        let rest = tokens.drop_last();
        readings_hold_what_is_given(grammar, rest);
        assert(tokens =~= rest.push(t));
        assert("rth"@.len() != "fill"@.len());
        lemma_contains_push(rest, t, "rth"@);
        lemma_contains_push(rest, t, "fill"@);
    }
}

proof fn lemma_contains_push(s: Seq<Seq<char>>, t: Seq<char>, x: Seq<char>)
    ensures
        s.push(t).contains(x) == (s.contains(x) || t == x),
{
    if s.contains(x) {
        let i = choose|i: int| 0 <= i < s.len() && s[i] == x;
        assert(s.push(t)[i] == x);
    }
    if t == x {
        assert(s.push(t)[s.len() as int] == x);
    }
    if s.push(t).contains(x) {
        let i = choose|i: int| 0 <= i < s.push(t).len() && s.push(t)[i] == x;
        if i < s.len() {
            assert(s[i] == x);
        }
    }
}

/// Whether the order of two tokens matters: both are paths, or both are specs.
pub open spec fn ordered(a: Word, b: Word) -> bool {
    a is Path && b is Path || a is Spec && b is Spec
}

proof fn lemma_swap(reading: Reading, a: Word, b: Word, x: Seq<char>, y: Seq<char>)
    requires
        !ordered(a, b),
        reading.with(a, x) is Ok,
        reading.with(a, x)->Ok_0.with(b, y) is Ok,
    ensures
        reading.with(b, y) is Ok,
        reading.with(b, y)->Ok_0.with(a, x) == reading.with(a, x)->Ok_0.with(b, y),
{
}

/// Tokens come in any order: two neighbours may change places, unless both are paths or both are
/// specs.
pub proof fn neighbours_may_swap(
    grammar: Grammar,
    before: Seq<Seq<char>>,
    a: Seq<char>,
    b: Seq<char>,
    after: Seq<Seq<char>>,
)
    requires
        !ordered(word(grammar, a), word(grammar, b)),
        read(grammar, before.push(a).push(b) + after) is Ok,
    ensures
        read(grammar, before.push(b).push(a) + after) == read(
            grammar,
            before.push(a).push(b) + after,
        ),
    decreases after.len(),
{
    let one = before.push(a).push(b) + after;
    let other = before.push(b).push(a) + after;
    if after.len() == 0 {
        assert(one =~= before.push(a).push(b));
        assert(other =~= before.push(b).push(a));
        assert(one.drop_last() =~= before.push(a));
        assert(other.drop_last() =~= before.push(b));
        assert(before.push(a).drop_last() =~= before);
        assert(before.push(b).drop_last() =~= before);
        assert(one.last() == b);
        assert(other.last() == a);
        assert(before.push(a).last() == a);
        assert(before.push(b).last() == b);
        reveal_with_fuel(read, 3);
        lemma_swap(
            read(grammar, before)->Ok_0,
            word(grammar, a),
            word(grammar, b),
            a,
            b,
        );
    } else {
        assert(one.drop_last() =~= before.push(a).push(b) + after.drop_last());
        assert(other.drop_last() =~= before.push(b).push(a) + after.drop_last());
        assert(one.last() == after.last());
        assert(other.last() == after.last());
        neighbours_may_swap(grammar, before, a, b, after.drop_last());
    }
}

// ---- `ls` ---------------------------------------------------------------------------

/// The paths and the format of `ls`; `None` for more than one format.
pub open spec fn ls_reading(tokens: Seq<Seq<char>>) -> Option<
    (Seq<Seq<char>>, Option<LsFormat>),
>
    decreases tokens.len(),
{
    if tokens.len() == 0 {
        Some((Seq::empty(), None))
    } else {
        match (ls_reading(tokens.drop_last()), LsFormat::named(tokens.last())) {
            (None, _) => None,
            (Some((paths, None)), Some(format)) => Some((paths, Some(format))),
            (Some((_, Some(_))), Some(_)) => None,
            (Some((paths, format)), None) => Some((paths.push(tokens.last()), format)),
        }
    }
}

proof fn lemma_ls_refused_stays(tokens: Seq<Seq<char>>, k: int)
    requires
        0 <= k <= tokens.len(),
        ls_reading(tokens.take(k)) is None,
    ensures
        ls_reading(tokens) is None,
    decreases tokens.len(),
{
    if k == tokens.len() {
        assert(tokens.take(k) =~= tokens);
    } else {
        assert(tokens.drop_last().take(k) =~= tokens.take(k));
        lemma_ls_refused_stays(tokens.drop_last(), k);
    }
}

/// Reads the tokens of `ls`: the paths, and the one format, a table by default.
pub fn classify_ls(tokens: &[String]) -> (r: Result<(Vec<String>, LsFormat), GrammarError>)
    ensures
        match ls_reading(crate::text::texts(tokens@)) {
            None => r == Err::<(Vec<String>, LsFormat), GrammarError>(GrammarError::ManyFormats),
            Some((paths, format)) => r matches Ok(t) && crate::text::texts(t.0@) == paths && t.1
                == match format {
                Some(format) => format,
                None => LsFormat::Table,
            },
        },
{
    let mut paths: Vec<String> = Vec::new();
    let mut format: Option<LsFormat> = None;
    let ghost all = crate::text::texts(tokens@);
    assert(crate::text::texts(paths@) =~= Seq::empty());
    let mut i: usize = 0;
    while i < tokens.len()
        invariant
            i <= tokens.len(),
            all == crate::text::texts(tokens@),
            ls_reading(all.take(i as int)) == Some((crate::text::texts(paths@), format)),
        decreases tokens.len() - i,
    {
        let ghost before = crate::text::texts(paths@);
        proof {
            assert(all.take(i + 1).drop_last() =~= all.take(i as int));
            assert(all.take(i + 1).last() == tokens@[i as int]@);
        }
        match LsFormat::parse(tokens[i].as_str()) {
            Some(parsed) => {
                if format.is_some() {
                    proof {
                        lemma_ls_refused_stays(all, i + 1);
                    }
                    return Err(GrammarError::ManyFormats);
                }
                format = Some(parsed);
            },
            None => {
                paths.push(tokens[i].clone());
                assert(crate::text::texts(paths@) =~= before.push(tokens@[i as int]@));
            },
        }
        i += 1;
    }
    assert(all.take(i as int) =~= all);
    let format = match format {
        Some(format) => format,
        None => LsFormat::default(),
    };
    Ok((paths, format))
}

// ---- `plot` -------------------------------------------------------------------------

/// The tokens without `volume`.
pub open spec fn without_volume(tokens: Seq<Seq<char>>) -> Seq<Seq<char>>
    decreases tokens.len(),
{
    if tokens.len() == 0 {
        tokens
    } else if tokens.last() == "volume"@ {
        without_volume(tokens.drop_last())
    } else {
        without_volume(tokens.drop_last()).push(tokens.last())
    }
}

/// Takes the `volume` tokens out, and tells whether there was one: it turns the volume panel on.
pub fn take_volume(tokens: &[String]) -> (r: (Vec<String>, bool))
    ensures
        crate::text::texts(r.0@) == without_volume(crate::text::texts(tokens@)),
        r.1 == crate::text::texts(tokens@).contains("volume"@),
{
    let mut kept: Vec<String> = Vec::new();
    let mut volume = false;
    let ghost all = crate::text::texts(tokens@);
    assert(crate::text::texts(kept@) =~= Seq::empty());
    let mut i: usize = 0;
    while i < tokens.len()
        invariant
            i <= tokens.len(),
            all == crate::text::texts(tokens@),
            crate::text::texts(kept@) == without_volume(all.take(i as int)),
            volume == all.take(i as int).contains("volume"@),
        decreases tokens.len() - i,
    {
        let ghost before = crate::text::texts(kept@);
        proof {
            assert(all.take(i + 1).drop_last() =~= all.take(i as int));
            assert(all.take(i + 1).last() == tokens@[i as int]@);
            assert(all.take(i + 1) =~= all.take(i as int).push(tokens@[i as int]@));
            lemma_contains_push(all.take(i as int), tokens@[i as int]@, "volume"@);
        }
        if same(tokens[i].as_str(), "volume") {
            volume = true;
        } else {
            kept.push(tokens[i].clone());
            assert(crate::text::texts(kept@) =~= before.push(tokens@[i as int]@));
        }
        i += 1;
    }
    assert(all.take(i as int) =~= all);
    (kept, volume)
}

// ---- the config file ----------------------------------------------------------------

/// The lower-case form of an ASCII letter; any other character as it is.
pub open spec fn lower_char(c: char) -> char {
    if 'A' <= c <= 'Z' {
        (c as u32 + 32) as char
    } else {
        c
    }
}

pub open spec fn lower_text(s: Seq<char>) -> Seq<char> {
    s.map_values(|c: char| lower_char(c))
}

fn lower(c: char) -> (r: char)
    ensures
        r == lower_char(c),
{
    if 'A' <= c && c <= 'Z' {
        (c as u8 + 32) as char
    } else {
        c
    }
}

/// Whether a token names a config file: it ends in `.toml`, in any case.
pub open spec fn names_config(token: Seq<char>) -> bool {
    crate::text::before_suffix(lower_text(token), ".toml"@) is Some
}

/// The text with its ASCII letters in lower case.
pub fn lowered(s: &str) -> (r: String)
    ensures
        r@ == lower_text(s@),
{
    let chars = chars_of(s);
    let mut out = String::new();
    let mut i: usize = 0;
    while i < chars.len()
        invariant
            i <= chars.len(),
            chars@ == s@,
            out@ == lower_text(s@.take(i as int)),
        decreases chars.len() - i,
    {
        out.push(lower(chars[i]));
        assert(out@ =~= lower_text(s@.take(i + 1)));
        i += 1;
    }
    assert(s@.take(i as int) =~= s@);
    out
}

fn is_config(token: &String) -> (r: bool)
    ensures
        r == names_config(token@),
{
    let small = chars_of(lowered(token.as_str()).as_str());
    crate::text::cut_suffix(small.as_slice(), ".toml").is_some()
}

/// A config file stands behind another token.
#[derive(Debug, Clone, Copy, PartialEq, Eq, Structural)]
pub struct MisplacedConfig;

impl MisplacedConfig {
    pub fn message(self) -> (r: String)
        ensures
            r@ == "config file must be the first positional argument"@,
    {
        "config file must be the first positional argument".to_owned()
    }
}

/// Takes the config file off the tokens: it is the first of them, or there is none.
pub fn split_config_target(items: Vec<String>) -> (r: Result<
    (Option<String>, Vec<String>),
    MisplacedConfig,
>)
    ensures
        ({
            let all = crate::text::texts(items@);
            if all.len() > 0 && names_config(all[0]) {
                r matches Ok((Some(config), rest)) && config@ == all[0] && crate::text::texts(
                    rest@,
                ) == all.skip(1)
            } else if exists|i: int| 1 <= i < all.len() && names_config(#[trigger] all[i]) {
                r == Err::<(Option<String>, Vec<String>), MisplacedConfig>(MisplacedConfig)
            } else {
                r matches Ok((None, rest)) && crate::text::texts(rest@) == all
            }
        }),
{
    let ghost all = crate::text::texts(items@);
    if items.len() == 0 {
        return Ok((None, items));
    }
    if is_config(&items[0]) {
        let mut rest: Vec<String> = Vec::new();
        let mut i: usize = 1;
        while i < items.len()
            invariant
                1 <= i <= items.len(),
                all == crate::text::texts(items@),
                crate::text::texts(rest@) == all.subrange(1, i as int),
            decreases items.len() - i,
        {
            let ghost before = crate::text::texts(rest@);
            rest.push(items[i].clone());
            assert(crate::text::texts(rest@) =~= before.push(items@[i as int]@));
            assert(all.subrange(1, i + 1) =~= all.subrange(1, i as int).push(items@[i as int]@));
            i += 1;
        }
        assert(all.subrange(1, i as int) =~= all.skip(1));
        return Ok((Some(items[0].clone()), rest));
    }
    let mut i: usize = 1;
    while i < items.len()
        invariant
            1 <= i <= items.len(),
            all == crate::text::texts(items@),
            !names_config(all[0]),
            forall|j: int| 1 <= j < i ==> !names_config(#[trigger] all[j]),
        decreases items.len() - i,
    {
        if is_config(&items[i]) {
            assert(names_config(all[i as int]));
            return Err(MisplacedConfig);
        }
        i += 1;
    }
    Ok((None, items))
}

} // verus!
