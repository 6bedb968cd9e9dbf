//! Rows as text, through `fwob`'s frame formatter: what `bars` and `calc` show.
use vstd::prelude::*;

use crate::frames::{bar_frame, encode_bar};
use crate::model::{Bar, InputKind};
use crate::output::{bar_rows, row_frame, BarSeries, FrameFormat, TooManySymbols, MAX_SYMBOLS};
use crate::summary::SummaryColumn;
use crate::text::texts;

verus! {

// ---- columns ---------------------------------------------------------------------------

/// A column of a frame: its name, how many bytes it takes, and its type and meaning by the numbers
/// that files store them under.
#[derive(Debug)]
pub struct Part {
    pub name: String,
    pub kind: u8,
    pub length: u16,
    pub meaning: u8,
}

/// A column and the byte it starts at.
#[derive(Debug)]
pub struct Column {
    pub name: String,
    pub kind: u8,
    pub length: u16,
    pub offset: u32,
    pub meaning: u8,
}

pub const SIGNED: u8 = 0;

pub const UNSIGNED: u8 = 1;

pub const STRING_INDEX: u8 = 4;

pub const PLAIN: u8 = 0;

pub const UNIX_SECONDS: u8 = 1;

/// A whole number with no decimals; one more for each decimal, up to eight.
pub const FIXED_POINT: u8 = 6;

pub const MAX_DECIMALS: u8 = 8;

/// Name, type, length and meaning.
pub open spec fn part_model(part: Part) -> (Seq<char>, u8, u16, u8) {
    (part.name@, part.kind, part.length, part.meaning)
}

pub open spec fn part_models(parts: Seq<Part>) -> Seq<(Seq<char>, u8, u16, u8)> {
    parts.map_values(|part: Part| part_model(part))
}

/// Name, type, length, offset and meaning.
pub open spec fn column_model(column: Column) -> (Seq<char>, u8, u16, u32, u8) {
    (column.name@, column.kind, column.length, column.offset, column.meaning)
}

pub open spec fn column_models(columns: Seq<Column>) -> Seq<(Seq<char>, u8, u16, u32, u8)> {
    columns.map_values(|column: Column| column_model(column))
}

/// How many bytes columns take.
pub open spec fn length_of(parts: Seq<(Seq<char>, u8, u16, u8)>) -> nat
    decreases parts.len(),
{
    if parts.len() == 0 {
        0
    } else {
        length_of(parts.drop_last()) + parts.last().2 as nat
    }
}

/// Columns one behind the other.
pub open spec fn laid_out(parts: Seq<(Seq<char>, u8, u16, u8)>) -> Seq<
    (Seq<char>, u8, u16, u32, u8),
> {
    Seq::new(
        parts.len(),
        |i: int|
            (parts[i].0, parts[i].1, parts[i].2, length_of(parts.take(i)) as u32, parts[i].3),
    )
}

/// Lays columns out one behind the other; `None` where a frame would be too long to measure.
fn lay_out(parts: Vec<Part>) -> (r: Option<Vec<Column>>)
    ensures
        r is Some <==> length_of(part_models(parts@)) <= u32::MAX,
        r matches Some(columns) ==> column_models(columns@) == laid_out(part_models(parts@)),
{
    let ghost models = part_models(parts@);
    let mut columns: Vec<Column> = Vec::new();
    let mut offset: u32 = 0;
    let mut i: usize = 0;
    while i < parts.len()
        invariant
            i <= parts@.len(),
            models == part_models(parts@),
            offset == length_of(models.take(i as int)),
            column_models(columns@) == laid_out(models).take(i as int),
        decreases parts@.len() - i,
    {
        let part = &parts[i];
        proof {
            assert(models.take(i + 1).drop_last() =~= models.take(i as int));
            assert(models.take(i + 1).last() == part_model(*part));
            lemma_length_grows(models, i + 1);
        }
        let next = match offset.checked_add(part.length as u32) {
            Some(next) => next,
            None => return None,
        };
        let ghost before = columns@;
        columns.push(
            Column {
                name: part.name.clone(),
                kind: part.kind,
                length: part.length,
                offset,
                meaning: part.meaning,
            },
        );
        proof {
            let column = columns@.last();
            assert(column_models(columns@) =~= column_models(before).push(column_model(column)));
            assert(laid_out(models)[i as int] == column_model(column));
            assert(laid_out(models).take(i + 1) =~= laid_out(models).take(i as int).push(
                laid_out(models)[i as int],
            ));
        }
        offset = next;
        i += 1;
    }
    proof {
        assert(models.take(i as int) =~= models);
        assert(laid_out(models).take(i as int) =~= laid_out(models));
    }
    Some(columns)
}

proof fn lemma_length_grows(parts: Seq<(Seq<char>, u8, u16, u8)>, k: int)
    requires
        0 <= k <= parts.len(),
    ensures
        length_of(parts.take(k)) <= length_of(parts),
    decreases parts.len(),
{
    if k < parts.len() {
        lemma_length_grows(parts.drop_last(), k);
        assert(parts.drop_last().take(k) =~= parts.take(k));
    } else {
        assert(parts.take(k) =~= parts);
    }
}

fn part(name: &str, kind: u8, length: u16, meaning: u8) -> (r: Part)
    ensures
        part_model(r) == (name@, kind, length, meaning),
{
    Part { name: name.to_owned(), kind, length, meaning }
}

/// The column of a symbol's index, where several symbols share a table.
pub open spec fn symbol_model() -> (Seq<char>, u8, u16, u8) {
    ("Symbol"@, STRING_INDEX, 1, PLAIN)
}

/// The columns of a tick.
pub open spec fn tick_models() -> Seq<(Seq<char>, u8, u16, u8)> {
    seq![
        ("time"@, UNSIGNED, 4, UNIX_SECONDS),
        ("price"@, UNSIGNED, 4, 10),
        ("size"@, SIGNED, 4, FIXED_POINT),
    ]
}

/// The columns of a tick: its price has four decimals.
pub fn tick_parts() -> (r: Vec<Part>)
    ensures
        part_models(r@) == tick_models(),
{
    let mut parts: Vec<Part> = Vec::new();
    parts.push(part("time", UNSIGNED, 4, UNIX_SECONDS));
    parts.push(part("price", UNSIGNED, 4, FIXED_POINT + 4));
    parts.push(part("size", SIGNED, 4, FIXED_POINT));
    assert(part_models(parts@) =~= tick_models());
    parts
}

/// The columns of a bar.
pub open spec fn bar_models() -> Seq<(Seq<char>, u8, u16, u8)> {
    seq![
        ("time"@, UNSIGNED, 4, UNIX_SECONDS),
        ("open"@, UNSIGNED, 4, 10),
        ("high"@, UNSIGNED, 4, 10),
        ("low"@, UNSIGNED, 4, 10),
        ("close"@, UNSIGNED, 4, 10),
        ("volume"@, SIGNED, 8, FIXED_POINT),
        ("vwap"@, UNSIGNED, 4, 10),
        ("trades"@, UNSIGNED, 8, FIXED_POINT),
    ]
}

/// The columns of a bar: prices have four decimals.
pub fn bar_parts() -> (r: Vec<Part>)
    ensures
        part_models(r@) == bar_models(),
{
    let mut parts: Vec<Part> = Vec::new();
    parts.push(part("time", UNSIGNED, 4, UNIX_SECONDS));
    parts.push(part("open", UNSIGNED, 4, FIXED_POINT + 4));
    parts.push(part("high", UNSIGNED, 4, FIXED_POINT + 4));
    parts.push(part("low", UNSIGNED, 4, FIXED_POINT + 4));
    parts.push(part("close", UNSIGNED, 4, FIXED_POINT + 4));
    parts.push(part("volume", SIGNED, 8, FIXED_POINT));
    parts.push(part("vwap", UNSIGNED, 4, FIXED_POINT + 4));
    parts.push(part("trades", UNSIGNED, 8, FIXED_POINT));
    assert(part_models(parts@) =~= bar_models());
    parts
}

/// The columns of indicator values: the bar's time and close, then one per indicator.
pub open spec fn calc_models(columns: Seq<SummaryColumn>) -> Seq<(Seq<char>, u8, u16, u8)> {
    seq![("time"@, UNSIGNED, 4u16, UNIX_SECONDS), ("close"@, UNSIGNED, 4u16, 10u8)]
        + columns.map_values(
        |c: SummaryColumn| (c.name@, SIGNED, 4u16, (FIXED_POINT + c.decimals) as u8),
    )
}

/// The columns of indicator values; `None` where an indicator has more than eight decimals.
pub fn calc_parts(columns: &[SummaryColumn]) -> (r: Option<Vec<Part>>)
    ensures
        r is Some <==> forall|i: int|
            0 <= i < columns@.len() ==> (#[trigger] columns@[i]).decimals <= MAX_DECIMALS,
        r matches Some(parts) ==> part_models(parts@) == calc_models(columns@),
{
    let mut parts: Vec<Part> = Vec::new();
    parts.push(part("time", UNSIGNED, 4, UNIX_SECONDS));
    parts.push(part("close", UNSIGNED, 4, FIXED_POINT + 4));
    assert(part_models(parts@) =~= calc_models(columns@.take(0)));
    let mut i: usize = 0;
    while i < columns.len()
        invariant
            i <= columns@.len(),
            part_models(parts@) == calc_models(columns@.take(i as int)),
            forall|j: int| 0 <= j < i ==> (#[trigger] columns@[j]).decimals <= MAX_DECIMALS,
        decreases columns@.len() - i,
    {
        let decimals: u8 = columns[i].decimals;
        if decimals > MAX_DECIMALS {
            assert(columns@[i as int].decimals > MAX_DECIMALS);
            return None;
        }
        let ghost before = parts@;
        parts.push(part(columns[i].name.as_str(), SIGNED, 4, FIXED_POINT + decimals));
        proof {
            let last = part_model(parts@.last());
            assert(part_models(parts@) =~= part_models(before).push(last));
            assert(columns@.take(i + 1) =~= columns@.take(i as int).push(columns@[i as int]));
            assert(calc_models(columns@.take(i + 1)) =~= calc_models(columns@.take(i as int)).push(
                last,
            ));
        }
        i += 1;
    }
    assert(columns@.take(i as int) =~= columns@);
    Some(parts)
}

/// Whether columns are laid out alike, whatever they mean.
pub open spec fn same_layout(
    a: Seq<(Seq<char>, u8, u16, u8)>,
    b: Seq<(Seq<char>, u8, u16, u8)>,
) -> bool {
    &&& a.len() == b.len()
    &&& forall|i: int| 0 <= i < a.len() ==> same_column(#[trigger] a[i], b[i])
}

pub open spec fn same_column(a: (Seq<char>, u8, u16, u8), b: (Seq<char>, u8, u16, u8)) -> bool {
    a.0 == b.0 && a.1 == b.1 && a.2 == b.2
}

fn alike(a: &Vec<Part>, b: &Vec<Part>) -> (r: bool)
    ensures
        r == same_layout(part_models(a@), part_models(b@)),
{
    let ghost x = part_models(a@);
    let ghost y = part_models(b@);
    if a.len() != b.len() {
        return false;
    }
    let mut i: usize = 0;
    while i < a.len()
        invariant
            i <= a@.len(),
            a@.len() == b@.len(),
            x == part_models(a@),
            y == part_models(b@),
            forall|j: int| 0 <= j < i ==> same_column(#[trigger] x[j], y[j]),
        decreases a@.len() - i,
    {
        let same = crate::text::same(a[i].name.as_str(), b[i].name.as_str()) && a[i].kind
            == b[i].kind && a[i].length == b[i].length;
        assert(same == same_column(x[i as int], y[i as int]));
        if !same {
            return false;
        }
        i += 1;
    }
    true
}

/// The kind of a file, by its frame type, the number of its key column and its columns. A column's
/// meaning does not count: a file of the first version stores none.
pub fn detect_kind(frame_type: &str, key: usize, columns: &Vec<Part>) -> (r: Option<InputKind>)
    ensures
        r == if key == 0 && frame_type@ == "Tick"@ && same_layout(
            part_models(columns@),
            tick_models(),
        ) {
            Some(InputKind::Tick)
        } else if key == 0 && frame_type@ == "Bar"@ && same_layout(
            part_models(columns@),
            bar_models(),
        ) {
            Some(InputKind::Bar)
        } else {
            None
        },
{
    if key != 0 {
        None
    } else if crate::text::same(frame_type, "Tick") && alike(columns, &tick_parts()) {
        Some(InputKind::Tick)
    } else if crate::text::same(frame_type, "Bar") && alike(columns, &bar_parts()) {
        Some(InputKind::Bar)
    } else {
        None
    }
}

// ---- the formatter ---------------------------------------------------------------------

/// What `fwob`'s frame formatter writes above the rows of a table: its frame type, its columns, the
/// number of its key column, its strings and its format's token decide. `None` where they make no
/// table.
pub uninterp spec fn header_text(
    frame_type: Seq<char>,
    columns: Seq<(Seq<char>, u8, u16, u32, u8)>,
    key: int,
    strings: Seq<Seq<char>>,
    format: Seq<char>,
) -> Option<Seq<u8>>;

/// What `fwob`'s frame formatter writes for a frame, below the header. `None` where the frame does
/// not fit the table, or there is no table.
pub uninterp spec fn frame_text(
    frame_type: Seq<char>,
    columns: Seq<(Seq<char>, u8, u16, u32, u8)>,
    key: int,
    strings: Seq<Seq<char>>,
    format: Seq<char>,
    frame: Seq<u8>,
) -> Option<Seq<u8>>;

pub open spec fn opt_bytes(value: Option<Vec<u8>>) -> Option<Seq<u8>> {
    match value {
        Some(value) => Some(value@),
        None => None,
    }
}

/// The most characters that a cell of an aligned table can be padded to.
pub const MAX_WIDTH: usize = 65_535;

/// Whether a table can be aligned: its cells are padded to the longest name of a column and the
/// longest string. Formats other than `table` do not pad.
pub open spec fn can_align(
    columns: Seq<(Seq<char>, u8, u16, u32, u8)>,
    strings: Seq<Seq<char>>,
    format: Seq<char>,
) -> bool {
    format == "table"@ ==> {
        &&& forall|i: int| 0 <= i < columns.len() ==> (#[trigger] columns[i]).0.len() <= MAX_WIDTH
        &&& forall|i: int| 0 <= i < strings.len() ==> (#[trigger] strings[i]).len() <= MAX_WIDTH
    }
}

/// `fwob::formatting::FrameFormatter::write_header` into memory, on a schema made of the columns.
/// What the header looks like is left to the formatter. It panics where an aligned table would have
/// to be padded too far; such tables are left out.
#[verifier::external_body]
fn format_header(
    frame_type: &str,
    columns: &Vec<Column>,
    key: usize,
    strings: &Vec<String>,
    format: &str,
) -> (r: Option<Vec<u8>>)
    requires
        can_align(column_models(columns@), texts(strings@), format@),
    ensures
        opt_bytes(r) == header_text(
            frame_type@,
            column_models(columns@),
            key as int,
            texts(strings@),
            format@,
        ),
{
    let mut fields = Vec::new();
    for c in columns {
        let kind = fwob_core::FieldType::from_v1_id(c.kind).ok()?;
        let meaning = fwob_core::FieldSemantic::from_id(c.meaning).ok()?;
        let field = fwob_core::Field::new(c.name.as_str(), kind, c.length, c.offset);
        fields.push(field.with_semantic(meaning));
    }
    let schema = fwob_core::Schema::new(frame_type, fields, key).ok()?;
    let format = fwob::formatting::FrameFormat::parse(format)?;
    let mut out = Vec::new();
    fwob::formatting::FrameFormatter::new(&schema, strings, format).write_header(&mut out).ok()?;
    Some(out)
}

/// `fwob::formatting::FrameFormatter::write_frame` into memory, on a schema made of the columns. The
/// formatter writes a header before its first frame, which is left behind here. What the row looks
/// like is left to the formatter. It panics where an aligned table would have to be padded too far;
/// such tables are left out.
#[verifier::external_body]
fn format_frame(
    frame_type: &str,
    columns: &Vec<Column>,
    key: usize,
    strings: &Vec<String>,
    format: &str,
    frame: &Vec<u8>,
) -> (r: Option<Vec<u8>>)
    requires
        can_align(column_models(columns@), texts(strings@), format@),
    ensures
        opt_bytes(r) == frame_text(
            frame_type@,
            column_models(columns@),
            key as int,
            texts(strings@),
            format@,
            frame@,
        ),
{
    let mut fields = Vec::new();
    for c in columns {
        let kind = fwob_core::FieldType::from_v1_id(c.kind).ok()?;
        let meaning = fwob_core::FieldSemantic::from_id(c.meaning).ok()?;
        let field = fwob_core::Field::new(c.name.as_str(), kind, c.length, c.offset);
        fields.push(field.with_semantic(meaning));
    }
    let schema = fwob_core::Schema::new(frame_type, fields, key).ok()?;
    let format = fwob::formatting::FrameFormat::parse(format)?;
    let mut formatter = fwob::formatting::FrameFormatter::new(&schema, strings, format);
    formatter.write_header(&mut Vec::new()).ok()?;
    let mut out = Vec::new();
    formatter.write_frame(&mut out, frame).ok()?;
    Some(out)
}

/// Whether no name of a column and no string is too long to align.
fn narrow(columns: &Vec<Column>, strings: &Vec<String>) -> (r: bool)
    ensures
        r == can_align(column_models(columns@), texts(strings@), "table"@),
{
    let ghost models = column_models(columns@);
    let ghost names = texts(strings@);
    let mut i: usize = 0;
    while i < columns.len()
        invariant
            i <= columns@.len(),
            models == column_models(columns@),
            forall|j: int| 0 <= j < i ==> (#[trigger] models[j]).0.len() <= MAX_WIDTH,
        decreases columns@.len() - i,
    {
        let length: usize = columns[i].name.as_str().unicode_len();
        assert(models[i as int].0 == columns@[i as int].name@);
        if length > MAX_WIDTH {
            return false;
        }
        i += 1;
    }
    let mut k: usize = 0;
    while k < strings.len()
        invariant
            k <= strings@.len(),
            names == texts(strings@),
            forall|j: int| 0 <= j < k ==> (#[trigger] names[j]).len() <= MAX_WIDTH,
        decreases strings@.len() - k,
    {
        let length: usize = strings[k].as_str().unicode_len();
        assert(names[k as int] == strings@[k as int]@);
        if length > MAX_WIDTH {
            return false;
        }
        k += 1;
    }
    true
}

// ---- streams of rows -------------------------------------------------------------------

/// A table whose rows are rendered one by one.
#[derive(Debug)]
pub struct FrameStream {
    frame_type: String,
    columns: Vec<Column>,
    strings: Vec<String>,
    format: FrameFormat,
}

/// What decides how rows are rendered.
pub struct TableModel {
    pub frame_type: Seq<char>,
    pub parts: Seq<(Seq<char>, u8, u16, u8)>,
    pub strings: Seq<Seq<char>>,
    pub format: FrameFormat,
}

impl TableModel {
    /// Whether rows carry a symbol.
    pub open spec fn has_symbols(self) -> bool {
        self.strings.len() > 0
    }

    /// The columns, behind that of the symbol where there is one.
    pub open spec fn all_parts(self) -> Seq<(Seq<char>, u8, u16, u8)> {
        if self.has_symbols() {
            seq![symbol_model()] + self.parts
        } else {
            self.parts
        }
    }

    /// The time, by which rows ascend, comes first but for the symbol.
    pub open spec fn key(self) -> int {
        if self.has_symbols() {
            1
        } else {
            0
        }
    }

    /// Whether the table can be aligned, where it is to be.
    pub open spec fn aligns(self) -> bool {
        can_align(laid_out(self.all_parts()), self.strings, self.format.token())
    }

    /// What stands above the rows: nothing where the columns take too many bytes, or a name or a
    /// string is too long to align.
    pub open spec fn header(self) -> Option<Seq<u8>> {
        if length_of(self.all_parts()) > u32::MAX || !self.aligns() {
            None
        } else {
            header_text(
                self.frame_type,
                laid_out(self.all_parts()),
                self.key(),
                self.strings,
                self.format.token(),
            )
        }
    }

    /// A row: its symbol's number, where rows carry one, and the bytes of its other columns.
    pub open spec fn row(self, symbol_index: usize, payload: Seq<u8>) -> Option<Seq<u8>> {
        frame_text(
            self.frame_type,
            laid_out(self.all_parts()),
            self.key(),
            self.strings,
            self.format.token(),
            if self.has_symbols() {
                seq![symbol_index as u8] + payload
            } else {
                payload
            },
        )
    }

    /// Rows of bars, one below the other.
    pub open spec fn bar_lines(self, rows: Seq<(usize, Bar)>) -> Option<Seq<u8>>
        decreases rows.len(),
    {
        if rows.len() == 0 {
            Some(Seq::empty())
        } else {
            match (
                self.bar_lines(rows.drop_last()),
                self.row(rows.last().0, bar_frame(rows.last().1)),
            ) {
                (Some(above), Some(row)) => Some(above + row),
                _ => None,
            }
        }
    }
}

/// Why rows cannot be rendered.
#[derive(Debug, Clone, Copy, PartialEq, Eq, Structural)]
pub enum RenderError {
    /// There are too many symbols for one table.
    Symbols(TooManySymbols),
    /// The formatter refuses the columns, or a row; or a name or a symbol is too long to align.
    Refused,
}

impl FrameStream {
    pub closed spec fn table(&self) -> TableModel {
        TableModel {
            frame_type: self.frame_type@,
            parts: if self.strings@.len() > 0 {
                stream_parts(self.columns@).drop_first()
            } else {
                stream_parts(self.columns@)
            },
            strings: texts(self.strings@),
            format: self.format,
        }
    }

    #[verifier::type_invariant]
    pub closed spec fn settled(&self) -> bool {
        &&& column_models(self.columns@) == laid_out(self.table().all_parts())
        &&& length_of(self.table().all_parts()) <= u32::MAX
        &&& self.table().aligns()
    }

    /// Opens a table and hands over its header. With strings, its rows carry the number of a symbol
    /// in front.
    pub fn new(frame_type: &str, parts: Vec<Part>, strings: Vec<String>, format: FrameFormat) -> (r:
        Result<(FrameStream, Vec<u8>), RenderError>)
        ensures
            ({
                let table = TableModel {
                    frame_type: frame_type@,
                    parts: part_models(parts@),
                    strings: texts(strings@),
                    format,
                };
                match table.header() {
                    Some(header) => r matches Ok((stream, text)) && text@ == header
                        && stream.table() == table,
                    None => r matches Err(e) && e == RenderError::Refused,
                }
            }),
    {
        let ghost table = TableModel {
            frame_type: frame_type@,
            parts: part_models(parts@),
            strings: texts(strings@),
            format,
        };
        let include_symbol = strings.len() > 0;
        let mut all: Vec<Part> = Vec::new();
        if include_symbol {
            all.push(part("Symbol", STRING_INDEX, 1, PLAIN));
        }
        let mut rest = parts;
        all.append(&mut rest);
        assert(part_models(all@) =~= table.all_parts());
        let columns = match lay_out(all) {
            Some(columns) => columns,
            None => return Err(RenderError::Refused),
        };
        let aligned = crate::text::same(format.as_str(), "table");
        if aligned && !narrow(&columns, &strings) {
            return Err(RenderError::Refused);
        }
        let key: usize = if include_symbol {
            1
        } else {
            0
        };
        let header = match format_header(frame_type, &columns, key, &strings, format.as_str()) {
            Some(header) => header,
            None => return Err(RenderError::Refused),
        };
        proof {
            lemma_stream_parts(columns@, table.all_parts());
            if include_symbol {
                assert(table.all_parts().drop_first() =~= table.parts);
            }
        }
        let stream = FrameStream { frame_type: frame_type.to_owned(), columns, strings, format };
        Ok((stream, header))
    }

    /// Renders one row: its symbol's number, which counts only where rows carry one, and the bytes
    /// of its other columns.
    pub fn emit(&self, symbol_index: usize, payload: &Vec<u8>) -> (r: Result<Vec<u8>, RenderError>)
        requires
            self.table().has_symbols() ==> symbol_index < MAX_SYMBOLS,
        ensures
            match self.table().row(symbol_index, payload@) {
                Some(row) => r matches Ok(text) && text@ == row,
                None => r matches Err(e) && e == RenderError::Refused,
            },
    {
        proof {
            use_type_invariant(self);
        }
        let include_symbol = self.strings.len() > 0;
        let frame = row_frame(include_symbol, symbol_index, payload);
        let key: usize = if include_symbol {
            1
        } else {
            0
        };
        match format_frame(
            self.frame_type.as_str(),
            &self.columns,
            key,
            &self.strings,
            self.format.as_str(),
            &frame,
        ) {
            Some(text) => Ok(text),
            None => Err(RenderError::Refused),
        }
    }
}

/// Columns without their offsets.
spec fn stream_parts(columns: Seq<Column>) -> Seq<(Seq<char>, u8, u16, u8)> {
    columns.map_values(|c: Column| (c.name@, c.kind, c.length, c.meaning))
}

proof fn lemma_stream_parts(columns: Seq<Column>, parts: Seq<(Seq<char>, u8, u16, u8)>)
    requires
        column_models(columns) == laid_out(parts),
    ensures
        stream_parts(columns) == parts,
{
    assert(columns.len() == column_models(columns).len());
    assert forall|i: int| 0 <= i < columns.len() implies stream_parts(columns)[i] == parts[i] by {
        assert(column_models(columns)[i] == laid_out(parts)[i]);
    }
    assert(stream_parts(columns) =~= parts);
}

/// The table that shows the bars of several series.
pub open spec fn bar_table(series: Seq<BarSeries>, format: FrameFormat) -> TableModel {
    TableModel {
        frame_type: "Bar"@,
        parts: bar_models(),
        strings: if series.len() > 1 {
            crate::output::series_symbols(series)
        } else {
            Seq::empty()
        },
        format,
    }
}

/// Renders bars as one table. Several series share it through a symbol column.
pub fn render_bars(series: &Vec<BarSeries>, format: FrameFormat) -> (r: Result<
    Vec<u8>,
    RenderError,
>)
    ensures
        ({
            let table = bar_table(series@, format);
            if series@.len() > MAX_SYMBOLS {
                r == Err::<Vec<u8>, RenderError>(
                    RenderError::Symbols(TooManySymbols { count: series@.len() as usize }),
                )
            } else {
                match (
                    table.header(),
                    table.bar_lines(crate::output::series_rows(series@)),
                ) {
                    (Some(header), Some(lines)) => r matches Ok(text) && text@ == header + lines,
                    _ => r == Err::<Vec<u8>, RenderError>(RenderError::Refused),
                }
            }
        }),
{
    let ghost table = bar_table(series@, format);
    let laid = match bar_rows(series) {
        Ok(laid) => laid,
        Err(e) => return Err(RenderError::Symbols(e)),
    };
    let (stream, header) = match FrameStream::new("Bar", bar_parts(), laid.strings, format) {
        Ok(opened) => opened,
        Err(e) => return Err(e),
    };
    let rows = laid.rows;
    let mut out = header;
    let ghost above = out@;
    let mut i: usize = 0;
    assert(above + Seq::<u8>::empty() =~= above);
    proof {
        lemma_row_numbers(series@);
    }
    while i < rows.len()
        invariant
            i <= rows@.len(),
            stream.table() == table,
            table == bar_table(series@, format),
            table.header() == Some(above),
            rows@ == crate::output::series_rows(series@),
            forall|j: int| 0 <= j < rows@.len() ==> (#[trigger] rows@[j]).0 < series@.len(),
            series@.len() <= MAX_SYMBOLS,
            table.bar_lines(rows@.take(i as int)) is Some,
            out@ == above + table.bar_lines(rows@.take(i as int))->0,
        decreases rows@.len() - i,
    {
        let (index, bar) = rows[i];
        let mut payload: Vec<u8> = Vec::new();
        encode_bar(&bar, &mut payload);
        proof {
            assert(payload@ =~= bar_frame(bar));
            assert(rows@.take(i + 1).drop_last() =~= rows@.take(i as int));
            assert(rows@.take(i + 1).last() == rows@[i as int]);
        }
        match stream.emit(index, &payload) {
            Ok(row) => {
                let ghost so_far = table.bar_lines(rows@.take(i as int))->0;
                let mut row = row;
                assert(above + (so_far + row@) =~= out@ + row@);
                out.append(&mut row);
            },
            Err(_) => {
                proof {
                    lemma_no_row(table, rows@, i + 1);
                }
                return Err(RenderError::Refused);
            },
        }
        i += 1;
    }
    assert(rows@.take(i as int) =~= rows@);
    Ok(out)
}

proof fn lemma_row_numbers(series: Seq<BarSeries>)
    requires
        series.len() <= usize::MAX,
    ensures
        forall|j: int|
            0 <= j < crate::output::series_rows(series).len() ==> (
            #[trigger] crate::output::series_rows(series)[j]).0 < series.len(),
    decreases series.len(),
{
    if series.len() > 0 {
        lemma_row_numbers(series.drop_last());
        let index = series.len() - 1;
        let own = series.last().bars@.map_values(|bar: Bar| (index as usize, bar));
        let earlier = crate::output::series_rows(series.drop_last());
        assert forall|j: int| 0 <= j < (earlier + own).len() implies (
        #[trigger] (earlier + own)[j]).0 < series.len() by {
            if j < earlier.len() {
                assert((earlier + own)[j] == earlier[j]);
            } else {
                assert((earlier + own)[j] == own[j - earlier.len()]);
            }
        }
    }
}

proof fn lemma_no_row(table: TableModel, rows: Seq<(usize, Bar)>, k: int)
    requires
        0 <= k <= rows.len(),
        table.bar_lines(rows.take(k)) is None,
    ensures
        table.bar_lines(rows) is None,
    decreases rows.len(),
{
    if k < rows.len() {
        assert(rows.drop_last().take(k) =~= rows.take(k));
        lemma_no_row(table, rows.drop_last(), k);
    } else {
        assert(rows.take(k) =~= rows);
    }
}

} // verus!
