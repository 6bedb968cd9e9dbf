//! What writer options, column layouts, symbols and answers of the tools come to.
use vstd::prelude::*;

use crate::fwob_options::{
    Codec, CodecArg, CodecSelection, Encoding, EncodingArg, EncodingSelection,
    OptionToken, PagePacking, PageSizeError, TargetFormat, TokenError, TokenState,
};
use crate::interval::IntervalUnit;
use crate::mcp::root::DirEntry;
use crate::mcp::server::ToolError;
use crate::model::Bar;
use crate::output::{BarSeries, FrameFormat};
use crate::render::TableModel;
use crate::summary::SummaryColumn;

verus! {

// ---- writer options ----------------------------------------------------------------------

/// Whether a token asks for pages of so many bytes: between one KiB and sixteen MiB.
pub open spec fn asks_for_pages(token: Seq<char>, bytes: nat) -> bool {
    crate::fwob_options::page_size_meaning(token) == (if 1_024 <= bytes <= 16_777_216 {
        Some(Ok::<nat, PageSizeError>(bytes))
    } else {
        Some(Err(PageSizeError::OutOfRange))
    })
}

proof fn lemma_suffix(n: nat, suffix: Seq<char>, other: Seq<char>)
    requires
        suffix.len() > 0,
    ensures
        crate::fwob_options::number_before(crate::text::decimal(n) + suffix, suffix) == Some(n),
        other.len() > 0 && other.len() <= suffix.len() && suffix.skip(suffix.len() - other.len())
            != other ==> crate::fwob_options::number_before(crate::text::decimal(n) + suffix, other)
            is None,
        other.len() == suffix.len() + 1 && !crate::text::is_digit(other[0])
            ==> crate::fwob_options::number_before(crate::text::decimal(n) + suffix, other) is None,
        other.len() <= suffix.len() && other.len() > 0 && suffix.len() > other.len()
            && !crate::text::is_digit(suffix[0]) ==> crate::fwob_options::number_before(
            crate::text::decimal(n) + suffix,
            other,
        ) is None,
{
    let digits = crate::text::decimal(n);
    let value = digits + suffix;
    crate::text::lemma_decimal_digits(n);
    crate::text::decimal_round_trip(n);
    let at = value.len() - suffix.len();
    assert(value.skip(at) =~= suffix);
    assert(value.take(at) =~= digits);
    if other.len() > 0 && other.len() <= suffix.len() {
        let k = value.len() - other.len();
        assert(value.skip(k) =~= suffix.skip(suffix.len() - other.len()));
        if suffix.len() > other.len() && !crate::text::is_digit(suffix[0]) {
            assert(value.take(k)[digits.len() as int] == suffix[0]);
        }
    }
    if other.len() == suffix.len() + 1 {
        let k = value.len() - other.len();
        assert(value.skip(k)[0] == digits[digits.len() - 1]);
        assert(crate::text::is_digit(digits[digits.len() - 1]));
    }
}

/// Page sizes are in bytes, in thousands or in millions of them, or in KiB and MiB.
pub proof fn page_sizes_are_in_their_units(n: nat)
    requires
        n <= 0xffff_ffff,
    ensures
        asks_for_pages(crate::text::decimal(n) + "B"@, n),
        asks_for_pages(crate::text::decimal(n) + "KB"@, 1_000 * n),
        asks_for_pages(crate::text::decimal(n) + "MB"@, 1_000_000 * n),
        asks_for_pages(crate::text::decimal(n) + "KiB"@, 1_024 * n),
        asks_for_pages(crate::text::decimal(n) + "MiB"@, 1_048_576 * n),
{
    reveal_strlit("B");
    reveal_strlit("KB");
    reveal_strlit("MB");
    reveal_strlit("KiB");
    reveal_strlit("MiB");
    let (b, kb, mb, kib, mib) = ("B"@, "KB"@, "MB"@, "KiB"@, "MiB"@);
    assert(b.len() == 1 && kb.len() == 2 && mb.len() == 2 && kib.len() == 3 && mib.len() == 3);
    assert(kib[0] == 'K' && mib[0] == 'M' && kb[0] == 'K' && mb[0] == 'M' && b[0] == 'B');
    let d = crate::text::decimal(n);
    // B
    lemma_suffix(n, b, kb);
    lemma_suffix(n, b, mb);
    lemma_long(n, b, kib);
    lemma_long(n, b, mib);
    // KB and MB
    lemma_suffix(n, kb, kib);
    lemma_suffix(n, kb, mib);
    lemma_suffix(n, mb, kib);
    lemma_suffix(n, mb, mib);
    assert(mb.skip(0) =~= mb && kb.skip(0) =~= kb);
    lemma_suffix(n, mb, kb);
    // KiB and MiB
    assert(mib.skip(0) =~= mib && kib.skip(0) =~= kib);
    lemma_suffix(n, kib, kib);
    lemma_suffix(n, mib, kib);
    lemma_suffix(n, mib, mib);
}

proof fn lemma_long(n: nat, suffix: Seq<char>, other: Seq<char>)
    requires
        suffix.len() == 1,
        other.len() == 3,
        !crate::text::is_digit(other[1]),
    ensures
        crate::fwob_options::number_before(crate::text::decimal(n) + suffix, other) is None,
{
    let digits = crate::text::decimal(n);
    let value = digits + suffix;
    crate::text::lemma_decimal_digits(n);
    if value.len() >= 3 {
        let k = value.len() - 3;
        assert(value.skip(k)[1] == digits[digits.len() - 1]);
        assert(crate::text::is_digit(digits[digits.len() - 1]));
    }
}

/// The names of codecs and encodings, and what each starts as: the smallest is chosen from a start.
pub proof fn codecs_and_encodings_by_name(value: Seq<char>)
    ensures
        crate::fwob_options::codec_named(value) == Some(CodecArg::Uncompressed) <==> value == "none"@,
        crate::fwob_options::codec_named(value) == Some(CodecArg::Zstd) <==> value == "zstd"@,
        crate::fwob_options::codec_named(value) == Some(CodecArg::Lz4) <==> value == "lz4"@,
        crate::fwob_options::encoding_named(value) == Some(EncodingArg::RowRaw) <==> value
            == "row-raw"@,
        crate::fwob_options::encoding_named(value) == Some(EncodingArg::ColumnarBasic) <==> value
            == "columnar-basic"@,
        crate::fwob_options::encoding_named(value) == Some(EncodingArg::ColumnarDelta) <==> value
            == "columnar-delta"@,
        CodecArg::Uncompressed.choice() == CodecSelection::Fixed(Codec::Uncompressed),
        CodecArg::Zstd.choice() == CodecSelection::Fixed(Codec::Zstd),
        CodecArg::Lz4.choice() == CodecSelection::Fixed(Codec::Lz4),
        CodecArg::Smallest.choice() == CodecSelection::Smallest,
        CodecArg::Smallest.start() == Codec::Zstd,
        EncodingArg::RowRaw.choice() == EncodingSelection::Fixed(Encoding::RowRaw),
        EncodingArg::ColumnarBasic.choice() == EncodingSelection::Fixed(Encoding::ColumnarBasic),
        EncodingArg::ColumnarDelta.choice() == EncodingSelection::Fixed(Encoding::ColumnarDelta),
        EncodingArg::Smallest.choice() == EncodingSelection::Smallest,
        EncodingArg::Smallest.start() == Encoding::ColumnarDelta,
{
    reveal_strlit("none");
    reveal_strlit("zstd");
    reveal_strlit("lz4");
    reveal_strlit("row-raw");
    reveal_strlit("columnar-basic");
    reveal_strlit("columnar-delta");
    assert("none"@[0] == 'n' && "zstd"@[0] == 'z' && "lz4"@[0] == 'l');
    assert("row-raw"@[0] == 'r' && "columnar-basic"@[9] == 'b' && "columnar-delta"@[9] == 'd');
}

/// Options start out as the second format with half a MiB a page, compressed by zstd at level six.
pub proof fn options_have_defaults()
    ensures
        ({
            let o = crate::fwob_options::default_options();
            &&& o.format == TargetFormat::V2
            &&& !o.explicit_format
            &&& !o.explicit_v2_options
            &&& o.page_size == 512 * 1_024
            &&& o.codec == CodecArg::Zstd
            &&& o.encoding == EncodingArg::ColumnarBasic
            &&& o.zstd_level == 6
            &&& !o.compress_partial_page
            &&& o.page_packing == PagePacking::EstimateShrink
        }),
{
}

/// Each option token sets what it names, and nothing else but that something was chosen; what may be
/// given once is refused a second time; and `smallest` is for the encoding, then for the codec.
pub proof fn option_tokens_set_what_they_name(state: TokenState, value: Seq<char>)
    ensures
        match state.with(value) {
            Err(e) => match crate::fwob_options::token_of(value) {
                OptionToken::Provider(_) => state.provider is Some && e
                    == TokenError::ProviderRepeated,
                OptionToken::PageSize(_) => state.page_size_seen && e
                    == TokenError::PageSizeRepeated,
                OptionToken::BadPageSize(x) => e == if state.page_size_seen {
                    TokenError::PageSizeRepeated
                } else {
                    TokenError::PageSize(x)
                },
                OptionToken::Smallest => state.codec_seen && state.encoding_seen && e
                    == TokenError::SmallestUnusable,
                OptionToken::Codec(_) => state.codec_seen && e == TokenError::CodecRepeated,
                OptionToken::Encoding(_) => state.encoding_seen && e
                    == TokenError::EncodingRepeated,
                _ => false,
            },
            Ok(next) => {
                let t = crate::fwob_options::token_of(value);
                let (a, b) = (state.options, next.options);
                &&& b.zstd_level == a.zstd_level
                &&& b.format == (if t is Format {
                    t->Format_0
                } else {
                    a.format
                })
                &&& b.explicit_format == (a.explicit_format || t is Format)
                &&& next.provider == (if t is Provider {
                    Some(t->Provider_0)
                } else {
                    state.provider
                })
                &&& b.page_size == (if t is PageSize {
                    t->PageSize_0
                } else {
                    a.page_size
                })
                &&& b.compress_partial_page == (a.compress_partial_page || t is CompressPartialPage)
                &&& b.page_packing == (if t is Packing {
                    t->Packing_0
                } else {
                    a.page_packing
                })
                &&& b.encoding == (if t is Encoding {
                    t->Encoding_0
                } else if t is Smallest && !state.encoding_seen {
                    EncodingArg::Smallest
                } else {
                    a.encoding
                })
                &&& b.codec == (if t is Codec {
                    t->Codec_0
                } else if t is Smallest && state.encoding_seen {
                    CodecArg::Smallest
                } else {
                    a.codec
                })
                &&& next.symbols == (if t is Symbol {
                    state.symbols.push(value)
                } else {
                    state.symbols
                })
                &&& b.explicit_v2_options == (a.explicit_v2_options || !(t is Format || t is Provider
                    || t is Symbol))
            },
        },
{
}

/// The words of the options: the formats, the packings, and the ways to make files smaller. A word
/// that is none of them is a symbol.
pub proof fn option_words_mean_what_they_say(value: Seq<char>)
    ensures
        value == "v1"@ ==> crate::fwob_options::token_of(value) == OptionToken::Format(
            TargetFormat::V1,
        ),
        value == "v2"@ ==> crate::fwob_options::token_of(value) == OptionToken::Format(
            TargetFormat::V2,
        ),
        crate::fwob_options::token_of(value) is Format ==> value == "v1"@ || value == "v2"@,
        crate::fwob_options::token_of(value) is Smallest ==> value == "smallest"@,
        crate::fwob_options::token_of(value) is CompressPartialPage ==> value
            == "compress-partial-page"@,
        crate::fwob_options::token_of(value) == OptionToken::Packing(PagePacking::TightFit) ==> value
            == "tight-fit"@,
        crate::fwob_options::token_of(value) == OptionToken::Packing(PagePacking::EstimateShrink)
            ==> value == "estimate-shrink"@,
        crate::fwob_options::token_of(value) is Symbol ==> value != "smallest"@ && value
            != "compress-partial-page"@ && value != "tight-fit"@ && value != "estimate-shrink"@,
{
    reveal_strlit("v1");
    reveal_strlit("v2");
    assert("v1"@[1] == '1' && "v2"@[1] == '2');
}

// ---- columns -----------------------------------------------------------------------------

/// Columns lie one behind the other: the first at the start of a frame, each next one where the one
/// before it ends; their names, types, lengths and meanings stay.
pub proof fn columns_lie_one_behind_the_other(parts: Seq<(Seq<char>, u8, u16, u8)>, i: int)
    requires
        0 <= i < parts.len(),
        parts.len() <= 0x1_0000,
    ensures
        ({
            let columns = crate::render::laid_out(parts);
            let (name, kind, length, offset, meaning) = columns[i];
            &&& columns.len() == parts.len()
            &&& parts[i] == (name, kind, length, meaning)
            &&& i == 0 ==> offset == 0
            &&& i > 0 ==> offset == columns[i - 1].3 + parts[i - 1].2
        }),
{
    lemma_length(parts.take(i));
    if i > 0 {
        lemma_length(parts.take(i - 1));
        assert(parts.take(i).drop_last() =~= parts.take(i - 1));
    }
}

proof fn lemma_length(parts: Seq<(Seq<char>, u8, u16, u8)>)
    ensures
        crate::render::length_of(parts) <= 0xffff * parts.len(),
    decreases parts.len(),
{
    if parts.len() > 0 {
        lemma_length(parts.drop_last());
    }
}

/// Whether a column has a name and lies at a place in its frame, so many bytes long.
pub open spec fn lies_at(
    columns: Seq<(Seq<char>, u8, u16, u32, u8)>,
    k: int,
    name: Seq<char>,
    offset: int,
    length: int,
) -> bool {
    columns[k].0 == name && columns[k].3 == offset && columns[k].2 == length
}

/// The columns of a table of bars are named after the fields that its frames hold there.
pub proof fn bar_columns_are_where_the_fields_are()
    ensures
        ({
            let c = crate::render::laid_out(crate::render::bar_models());
            &&& c.len() == 8
            &&& lies_at(c, 0, "time"@, 0, 4)
            &&& lies_at(c, 1, "open"@, 4, 4)
            &&& lies_at(c, 2, "high"@, 8, 4)
            &&& lies_at(c, 3, "low"@, 12, 4)
            &&& lies_at(c, 4, "close"@, 16, 4)
            &&& lies_at(c, 5, "volume"@, 20, 8)
            &&& lies_at(c, 6, "vwap"@, 28, 4)
            &&& lies_at(c, 7, "trades"@, 32, 8)
        }),
{
    let m = crate::render::bar_models();
    columns_lie_one_behind_the_other(m, 0);
    columns_lie_one_behind_the_other(m, 1);
    columns_lie_one_behind_the_other(m, 2);
    columns_lie_one_behind_the_other(m, 3);
    columns_lie_one_behind_the_other(m, 4);
    columns_lie_one_behind_the_other(m, 5);
    columns_lie_one_behind_the_other(m, 6);
    columns_lie_one_behind_the_other(m, 7);
}

/// The columns of a table of trades are named after the fields that its frames hold there.
pub proof fn trade_columns_are_where_the_fields_are()
    ensures
        ({
            let c = crate::render::laid_out(crate::render::tick_models());
            &&& c.len() == 3
            &&& lies_at(c, 0, "time"@, 0, 4)
            &&& lies_at(c, 1, "price"@, 4, 4)
            &&& lies_at(c, 2, "size"@, 8, 4)
        }),
{
    let m = crate::render::tick_models();
    columns_lie_one_behind_the_other(m, 0);
    columns_lie_one_behind_the_other(m, 1);
    columns_lie_one_behind_the_other(m, 2);
}

/// Prices have four decimals, times are seconds, and counts are whole; sizes and volumes have a sign.
pub proof fn columns_mean_what_they_hold()
    ensures
        ({
            let t = crate::render::tick_models();
            let b = crate::render::bar_models();
            let four = (crate::render::FIXED_POINT + 4) as u8;
            &&& t[0].3 == crate::render::UNIX_SECONDS && b[0].3 == crate::render::UNIX_SECONDS
            &&& t[1].3 == four && b[1].3 == four && b[2].3 == four && b[3].3 == four && b[4].3
                == four && b[6].3 == four
            &&& t[2].3 == crate::render::FIXED_POINT && b[5].3 == crate::render::FIXED_POINT
                && b[7].3 == crate::render::FIXED_POINT
            &&& t[2].1 == crate::render::SIGNED && b[5].1 == crate::render::SIGNED
            &&& t[0].1 == crate::render::UNSIGNED && t[1].1 == crate::render::UNSIGNED
        }),
{
}

/// A table of indicators has the time and the close of each bar, and then one column for each
/// indicator, by its name and with its decimals.
pub proof fn indicator_tables_have_their_columns(columns: Seq<SummaryColumn>, i: int)
    requires
        0 <= i < columns.len(),
        columns[i].decimals <= 8,
    ensures
        ({
            let m = crate::render::calc_models(columns);
            &&& m.len() == columns.len() + 2
            &&& m[0].0 == "time"@
            &&& m[1].0 == "close"@
            &&& m[i + 2].0 == columns[i].name@
            &&& m[i + 2].2 == 4
            &&& m[i + 2].3 == crate::render::FIXED_POINT + columns[i].decimals
        }),
{
}

/// A table of several series begins with the symbol of each row, and a table of one has no such
/// column; the key is the time either way.
pub proof fn symbols_come_first(table: TableModel)
    ensures
        table.strings.len() == 0 ==> table.all_parts() == table.parts && table.key() == 0,
        table.strings.len() > 0 ==> {
            &&& table.all_parts().len() == table.parts.len() + 1
            &&& table.all_parts()[0].0 == "Symbol"@
            &&& table.all_parts()[0].2 == 1
            &&& table.all_parts().drop_first() == table.parts
            &&& table.key() == 1
        },
{
    assert(table.strings.len() > 0 ==> table.all_parts().drop_first() =~= table.parts);
}

/// A table of bars has the symbols of its series, where there are several, in their order.
pub proof fn bar_tables_name_their_series(series: Seq<BarSeries>, format: FrameFormat, i: int)
    requires
        0 <= i < series.len(),
    ensures
        ({
            let table = crate::render::bar_table(series, format);
            &&& table.parts == crate::render::bar_models()
            &&& table.format == format
            &&& series.len() == 1 ==> table.strings.len() == 0
            &&& series.len() > 1 ==> table.strings.len() == series.len() && table.strings[i]
                == series[i].symbol@
        }),
{
}

/// The rows of a table of several series are the bars of each, one series after another, each with
/// the place of its series.
pub proof fn series_follow_each_other(series: Seq<BarSeries>, one: BarSeries, k: int)
    requires
        0 <= k < one.bars@.len(),
        series.len() < usize::MAX,
    ensures
        ({
            let before = crate::output::series_rows(series);
            let rows = crate::output::series_rows(series.push(one));
            &&& rows.len() == before.len() + one.bars@.len()
            &&& rows.take(before.len() as int) == before
            &&& rows[before.len() + k] == (series.len() as usize, one.bars@[k])
        }),
        crate::output::series_rows(Seq::empty()).len() == 0,
{
    assert(series.push(one).drop_last() =~= series);
    let before = crate::output::series_rows(series);
    let rows = crate::output::series_rows(series.push(one));
    assert(rows.take(before.len() as int) =~= before);
}

/// A column is the same in two layouts where its name, type and length are, whatever it means.
pub proof fn layouts_agree_by_name_type_and_length(
    a: Seq<(Seq<char>, u8, u16, u8)>,
    b: Seq<(Seq<char>, u8, u16, u8)>,
    i: int,
)
    requires
        crate::render::same_layout(a, b),
        0 <= i < a.len(),
    ensures
        a.len() == b.len(),
        a[i].0 == b[i].0,
        a[i].1 == b[i].1,
        a[i].2 == b[i].2,
{
    assert(crate::render::same_column(a[i], b[i]));
}

// ---- symbols and names -------------------------------------------------------------------

/// A symbol stands without white space around it and in capitals, and so does not change again.
pub proof fn symbols_are_trimmed_capitals(symbol: Seq<char>)
    ensures
        ({
            let name = crate::symbol::normalized(symbol);
            &&& name.len() > 0 ==> !crate::text::is_space(name[0]) && !crate::text::is_space(
                name[name.len() - 1],
            )
            &&& forall|i: int| 0 <= i < name.len() ==> !(97 <= (#[trigger] name[i]) as int <= 122)
            &&& exists|k: int|
                0 <= k && k + name.len() <= symbol.len() && #[trigger] is_upper_of(
                    name,
                    symbol.subrange(k, k + name.len()),
                )
        }),
{
    let end = crate::text::end_trimmed(symbol);
    crate::table_laws::trimming_takes_only_white_space(symbol);
    let k = lemma_start(end);
    let kept = crate::symbol::start_trimmed(end);
    let name = crate::symbol::normalized(symbol);
    assert(symbol.subrange(k, k + name.len()) =~= kept);
    if name.len() > 0 {
        assert(kept[kept.len() - 1] == end[end.len() - 1]);
        lemma_upper_space(kept[0]);
        lemma_upper_space(kept[kept.len() - 1]);
    }
    assert(is_upper_of(name, symbol.subrange(k, k + name.len())));
}

/// Whether a text is another with the letters a to z in capitals.
pub open spec fn is_upper_of(a: Seq<char>, b: Seq<char>) -> bool {
    &&& a.len() == b.len()
    &&& forall|i: int|
        0 <= i < a.len() ==> #[trigger] a[i] as int == if 97 <= b[i] as int <= 122 {
            b[i] as int - 32
        } else {
            b[i] as int
        }
}

proof fn lemma_upper_space(c: char)
    ensures
        crate::text::is_space(crate::symbol::upper_char(c)) == crate::text::is_space(c),
{
}

proof fn lemma_start(text: Seq<char>) -> (k: int)
    ensures
        ({
            let kept = crate::symbol::start_trimmed(text);
            &&& 0 <= k <= text.len()
            &&& kept == text.skip(k)
            &&& kept.len() > 0 ==> !crate::text::is_space(kept[0])
        }),
    decreases text.len(),
{
    if text.len() > 0 && crate::text::is_space(text[0]) {
        let k = lemma_start(text.drop_first());
        assert(text.drop_first().skip(k) =~= text.skip(k + 1));
        k + 1
    } else {
        assert(text.skip(0) =~= text);
        0
    }
}

/// A file counts as one of the archive's by its ending, in any case.
pub proof fn archive_files_end_in_fwob(stem: Seq<char>)
    requires
        stem.len() > 0,
    ensures
        crate::mcp::root::names_fwob(stem + ".fwob"@),
        crate::mcp::root::names_fwob(stem + ".FWOB"@),
{
    reveal_strlit(".fwob");
    reveal_strlit(".FWOB");
    reveal_strlit("fwob");
    let a = stem + ".fwob"@;
    let b = stem + ".FWOB"@;
    lemma_dot(a, stem.len() as int);
    lemma_dot(b, stem.len() as int);
    assert(crate::tokens::lower_text(a.skip(stem.len() as int + 1)) =~= "fwob"@);
    assert(crate::tokens::lower_text(b.skip(stem.len() as int + 1)) =~= "fwob"@);
}

proof fn lemma_dot(name: Seq<char>, at: int)
    requires
        0 <= at < name.len(),
        name[at] == '.',
        forall|i: int| at < i < name.len() ==> name[i] != '.',
    ensures
        crate::mcp::root::last_dot(name) == Some(at),
    decreases name.len(),
{
    if at < name.len() - 1 {
        assert(name[name.len() - 1] != '.');
        lemma_dot(name.drop_last(), at);
    }
}

/// A directory's files are those of its entries that are files with that ending.
pub proof fn directories_list_their_files(entries: Seq<DirEntry>, entry: DirEntry)
    ensures
        crate::mcp::root::fwob_names(Seq::empty()).len() == 0,
        crate::mcp::root::fwob_names(entries.push(entry)) == (if entry.is_file
            && crate::mcp::root::names_fwob(entry.name@) {
            crate::mcp::root::fwob_names(entries).push(entry.name@)
        } else {
            crate::mcp::root::fwob_names(entries)
        }),
{
    assert(entries.push(entry).drop_last() =~= entries);
}

// ---- answers -----------------------------------------------------------------------------

/// A tool without an interval makes daily bars.
pub proof fn tools_default_to_a_day(token: Seq<char>)
    ensures
        crate::mcp::server::tool_interval(None) == Ok::<(nat, IntervalUnit), ToolError>(
            (1, IntervalUnit::Day),
        ),
        match crate::interval::token_meaning(token) {
            None => crate::mcp::server::tool_interval(Some(token)) == Err::<
                (nat, IntervalUnit),
                ToolError,
            >(ToolError::UnknownInterval),
            Some(Err(e)) => crate::mcp::server::tool_interval(Some(token)) == Err::<
                (nat, IntervalUnit),
                ToolError,
            >(ToolError::Interval(e)),
            Some(Ok(interval)) => crate::mcp::server::tool_interval(Some(token)) == Ok::<
                (nat, IntervalUnit),
                ToolError,
            >(interval),
        },
{
}

/// A cut-off answer keeps its last rows, and all of them where they fit.
pub proof fn answers_keep_their_last_rows<T>(rows: Seq<T>, limit: int, i: int)
    requires
        0 <= limit,
        0 <= i,
    ensures
        ({
            let kept = crate::mcp::server::latest(rows, limit);
            &&& kept.len() == if rows.len() <= limit {
                rows.len() as int
            } else {
                limit
            }
            &&& i < kept.len() ==> kept[kept.len() - 1 - i] == rows[rows.len() - 1 - i]
        }),
{
}

/// The hint with a cut-off answer says how many rows it shows, of how many.
pub proof fn hints_say_how_many_of_how_many(returned: nat, total: nat)
    ensures
        ({
            let text = crate::mcp::server::hint_text(returned as int, total as int);
            let head = "showing the most recent "@ + crate::text::decimal(returned) + " of "@
                + crate::text::decimal(total) + " bars"@;
            text.take(head.len() as int) == head
        }),
{
    reveal_strlit(" bars");
    reveal_strlit(" bars; narrow start/end or widen interval for a complete answer");
    let text = crate::mcp::server::hint_text(returned as int, total as int);
    let head = "showing the most recent "@ + crate::text::decimal(returned) + " of "@
        + crate::text::decimal(total) + " bars"@;
    assert(text.take(head.len() as int) =~= head);
}

/// The caption of a chart says whose bars it shows, how many, and from the first to the last.
pub proof fn captions_go_from_first_to_last(
    symbol: Seq<char>,
    bars: Seq<Bar>,
    interval: Seq<char>,
    zone: Seq<char>,
)
    requires
        bars.len() > 0,
    ensures
        crate::mcp::server::caption_text(symbol, bars, interval, zone) == symbol + ": "@
            + crate::text::decimal(bars.len()) + " "@ + interval + " bars from "@
            + crate::table_laws::stamp_shown(Some(bars[0].time), zone) + " to "@
            + crate::table_laws::stamp_shown(Some(bars[bars.len() - 1].time), zone),
{
}

/// A session of the server is that of the call, then of the server, then of the settings: its zone and
/// its hours each on their own.
pub proof fn tool_sessions_come_from_the_call_first(
    server: crate::mcp::server::McpServer,
    use_rth: bool,
    session: Option<Seq<char>>,
    tz: Option<Seq<char>>,
)
    ensures
        ({
            let base = if use_rth {
                server.settings().rth
            } else {
                server.settings().extended
            };
            let zone = if tz is Some {
                tz->0
            } else if server.tz_default() is Some {
                server.tz_default()->0
            } else {
                base.tz@
            };
            let hours = if session is Some {
                session->0
            } else if server.session_default() is Some {
                server.session_default()->0
            } else if !crate::settings::blank(base.hours@) {
                base.hours@
            } else if use_rth {
                "09:30-16:00"@
            } else {
                "04:00-20:00"@
            };
            crate::command_laws::in_zone_with_hours(
                server.session_of(use_rth, session, tz),
                zone,
                hours,
            )
        }),
{
}

/// A call reads regular hours where it says so, and a window from its start to its end, in the
/// session's zone.
pub proof fn tool_scopes_are_what_is_asked(
    server: crate::mcp::server::McpServer,
    sel: crate::mcp::server::Selection,
    scope: crate::commands::ScopeModel,
)
    requires
        server.scope_of(sel) == Ok::<crate::commands::ScopeModel, ToolError>(scope),
    ensures
        scope.use_rth <==> sel.use_rth == Some(true),
        server.session_of(
            scope.use_rth,
            crate::commands::opt_text(sel.session),
            crate::commands::opt_text(sel.tz),
        ) == Ok::<crate::session::SessionModel, crate::session::SessionError>(scope.session),
        scope.start is Some <==> sel.start is Some,
        scope.end is Some <==> sel.end is Some,
        sel.start is Some ==> crate::bounds::bound_named(sel.start->0@, false, scope.session.zone)
            == Ok::<u32, crate::bounds::BoundError>(scope.start->0),
        sel.end is Some ==> crate::bounds::bound_named(sel.end->0@, true, scope.session.zone)
            == Ok::<u32, crate::bounds::BoundError>(scope.end->0),
{
}

/// The times in answers are stamps in the zone of the session, and absent where there are none.
pub proof fn stamps_of_answers_are_stamps(time: Option<u32>, zone: Seq<char>)
    ensures
        time is None ==> crate::mcp::dto::iso_opt_text(time, zone) is None,
        time is Some ==> crate::mcp::dto::iso_opt_text(time, zone) == Some(
            crate::table_laws::stamp_shown(time, zone),
        ),
{
}

// ---- rows, tokens and names --------------------------------------------------------------

/// Option tokens are taken one after another, from the defaults on; the first that is refused ends it.
pub proof fn option_tokens_are_taken_in_order(values: Seq<Seq<char>>, value: Seq<char>)
    ensures
        ({
            let none = crate::fwob_options::tokens_meaning(Seq::empty());
            &&& none is Ok
            &&& none->Ok_0.options == crate::fwob_options::default_options()
            &&& none->Ok_0.symbols.len() == 0
            &&& none->Ok_0.provider is None
            &&& !none->Ok_0.codec_seen && !none->Ok_0.encoding_seen && !none->Ok_0.page_size_seen
        }),
        match crate::fwob_options::tokens_meaning(values) {
            Err(e) => crate::fwob_options::tokens_meaning(values.push(value)) == Err::<
                TokenState,
                TokenError,
            >(e),
            Ok(state) => crate::fwob_options::tokens_meaning(values.push(value)) == state.with(
                value,
            ),
        },
{
    assert(values.push(value).drop_last() =~= values);
}

/// A choice once made is remembered: a codec, an encoding and a page size are each given once.
pub proof fn choices_are_remembered(state: TokenState, value: Seq<char>)
    requires
        state.with(value) is Ok,
    ensures
        ({
            let next = state.with(value)->Ok_0;
            let t = crate::fwob_options::token_of(value);
            &&& next.page_size_seen == (state.page_size_seen || t is PageSize)
            &&& next.codec_seen == (state.codec_seen || t is Codec || (t is Smallest
                && state.encoding_seen))
            &&& next.encoding_seen == (state.encoding_seen || t is Encoding || t is Smallest)
        }),
{
}

/// A row of a table is rendered from the frame that the columns describe: the place of its symbol
/// where there is a symbol column, and then its own bytes.
pub proof fn rows_are_rendered_from_their_frames(table: TableModel, index: usize, payload: Seq<u8>)
    ensures
        table.row(index, payload) == crate::render::frame_text(
            table.frame_type,
            crate::render::laid_out(table.all_parts()),
            table.key(),
            table.strings,
            table.format.token(),
            if table.strings.len() > 0 {
                seq![index as u8] + payload
            } else {
                payload
            },
        ),
{
}

/// The lines of a table of bars are those of its rows, in order, each from the frame of its bar.
pub proof fn bar_lines_follow_each_other(table: TableModel, rows: Seq<(usize, Bar)>, row: (usize, Bar))
    ensures
        table.bar_lines(Seq::empty()) == Some(Seq::<u8>::empty()),
        ({
            let before = table.bar_lines(rows);
            let line = table.row(row.0, crate::frames::bar_frame(row.1));
            let all = table.bar_lines(rows.push(row));
            &&& before is Some && line is Some ==> all == Some(before->0 + line->0)
            &&& before is None || line is None ==> all is None
        }),
{
    assert(rows.push(row).drop_last() =~= rows);
}

/// The fields of a tool's report are those of the file, one for one.
pub proof fn reported_fields_are_the_files(
    shown: Seq<crate::mcp::dto::FieldInfo>,
    fields: Seq<crate::report::SchemaField>,
    i: int,
)
    requires
        crate::mcp::dto::fields_shown(shown, fields),
        0 <= i < fields.len(),
    ensures
        shown.len() == fields.len(),
        shown[i].name@ == fields[i].name@,
        shown[i].length == fields[i].length,
        shown[i].offset == fields[i].offset,
        shown[i].field_type@ == crate::inspect::type_text(fields[i].field_type),
        shown[i].semantic@ == crate::inspect::semantic_text(fields[i].semantic),
{
    assert(shown[i].name@ == fields[i].name@);
}

/// The columns that a summary treats as returns and as volatilities are those of returns and of
/// volatilities.
pub proof fn summaries_know_their_columns(period: usize)
    ensures
        crate::summary::carries_returns("ret_log"@),
        crate::summary::carries_returns("ret_simple"@),
        crate::summary::is_volatility_name(
            crate::calc::BuiltIn::Volatility(crate::calc::Volatility { period }).column(),
        ),
        !crate::summary::is_volatility_name(
            crate::calc::BuiltIn::Rsi(crate::calc::Rsi { period }).column(),
        ),
        !crate::summary::is_volatility_name(
            crate::calc::BuiltIn::VolumeSma(crate::calc::VolumeSma { period }).column(),
        ),
        !crate::summary::carries_returns(
            crate::calc::BuiltIn::Volatility(crate::calc::Volatility { period }).column(),
        ),
{
    reveal_strlit("ret_log");
    reveal_strlit("ret_simple");
    reveal_strlit("vol_");
    reveal_strlit("rsi_");
    reveal_strlit("vsma_");
    let v = crate::calc::BuiltIn::Volatility(crate::calc::Volatility { period }).column();
    let r = crate::calc::BuiltIn::Rsi(crate::calc::Rsi { period }).column();
    let m = crate::calc::BuiltIn::VolumeSma(crate::calc::VolumeSma { period }).column();
    assert(v.take(4) =~= "vol_"@);
    assert(v[0] == 'v' && "ret_log"@[0] == 'r' && "ret_simple"@[0] == 'r');
    assert(r.take(4)[0] == 'r' && "vol_"@[0] == 'v');
    assert(m.take(4)[1] == 's' && "vol_"@[1] == 'o');
}

} // verus!
