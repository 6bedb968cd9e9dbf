//! Writer options for FWOB files, given as bare tokens among the symbols of a command line.
use vstd::prelude::*;

use crate::provider::ProviderKind;
use crate::text::{chars_of, cut_suffix, from_decimal, only_digits, same};

verus! {

pub const MIN_PAGE_SIZE: u64 = 1_024;

pub const MAX_PAGE_SIZE: u64 = 16_777_216;

#[derive(Debug, Clone, Copy, PartialEq, Eq, Structural)]
pub enum TargetFormat {
    V1,
    V2,
}

/// How frames are packed into pages.
#[derive(Debug, Clone, Copy, PartialEq, Eq, Structural)]
pub enum PagePacking {
    EstimateShrink,
    TightFit,
}

#[derive(Debug, Clone, Copy, PartialEq, Eq, Structural)]
pub enum CodecArg {
    Uncompressed,
    Zstd,
    Lz4,
    Smallest,
}

#[derive(Debug, Clone, Copy, PartialEq, Eq, Structural)]
pub enum EncodingArg {
    RowRaw,
    ColumnarBasic,
    ColumnarDelta,
    Smallest,
}

/// A page codec of the file format.
#[derive(Debug, Clone, Copy, PartialEq, Eq, Structural)]
pub enum Codec {
    Uncompressed,
    Zstd,
    Lz4,
}

/// A page encoding of the file format.
#[derive(Debug, Clone, Copy, PartialEq, Eq, Structural)]
pub enum Encoding {
    RowRaw,
    ColumnarBasic,
    ColumnarDelta,
}

/// A codec for every page, or whichever makes each page smallest.
#[derive(Debug, Clone, Copy, PartialEq, Eq, Structural)]
pub enum CodecSelection {
    Fixed(Codec),
    Smallest,
}

/// An encoding for every page, or whichever makes each page smallest.
#[derive(Debug, Clone, Copy, PartialEq, Eq, Structural)]
pub enum EncodingSelection {
    Fixed(Encoding),
    Smallest,
}

impl CodecArg {
    pub open spec fn start(self) -> Codec {
        match self {
            CodecArg::Uncompressed => Codec::Uncompressed,
            CodecArg::Zstd => Codec::Zstd,
            CodecArg::Lz4 => Codec::Lz4,
            CodecArg::Smallest => Codec::Zstd,
        }
    }

    pub open spec fn choice(self) -> CodecSelection {
        match self {
            CodecArg::Smallest => CodecSelection::Smallest,
            _ => CodecSelection::Fixed(self.start()),
        }
    }

    /// The codec to begin with.
    pub fn codec(self) -> (r: Codec)
        ensures
            r == self.start(),
    {
        match self {
            CodecArg::Uncompressed => Codec::Uncompressed,
            CodecArg::Zstd | CodecArg::Smallest => Codec::Zstd,
            CodecArg::Lz4 => Codec::Lz4,
        }
    }

    /// The codec choice over all pages.
    pub fn selection(self) -> (r: CodecSelection)
        ensures
            r == self.choice(),
    {
        match self {
            CodecArg::Uncompressed => CodecSelection::Fixed(Codec::Uncompressed),
            CodecArg::Zstd => CodecSelection::Fixed(Codec::Zstd),
            CodecArg::Lz4 => CodecSelection::Fixed(Codec::Lz4),
            CodecArg::Smallest => CodecSelection::Smallest,
        }
    }
}

impl EncodingArg {
    pub open spec fn start(self) -> Encoding {
        match self {
            EncodingArg::RowRaw => Encoding::RowRaw,
            EncodingArg::ColumnarBasic => Encoding::ColumnarBasic,
            EncodingArg::ColumnarDelta => Encoding::ColumnarDelta,
            EncodingArg::Smallest => Encoding::ColumnarDelta,
        }
    }

    pub open spec fn choice(self) -> EncodingSelection {
        match self {
            EncodingArg::Smallest => EncodingSelection::Smallest,
            _ => EncodingSelection::Fixed(self.start()),
        }
    }

    /// The encoding to begin with.
    pub fn encoding(self) -> (r: Encoding)
        ensures
            r == self.start(),
    {
        match self {
            EncodingArg::RowRaw => Encoding::RowRaw,
            EncodingArg::ColumnarBasic => Encoding::ColumnarBasic,
            EncodingArg::ColumnarDelta | EncodingArg::Smallest => Encoding::ColumnarDelta,
        }
    }

    /// The encoding choice over all pages.
    pub fn selection(self) -> (r: EncodingSelection)
        ensures
            r == self.choice(),
    {
        match self {
            EncodingArg::RowRaw => EncodingSelection::Fixed(Encoding::RowRaw),
            EncodingArg::ColumnarBasic => EncodingSelection::Fixed(Encoding::ColumnarBasic),
            EncodingArg::ColumnarDelta => EncodingSelection::Fixed(Encoding::ColumnarDelta),
            EncodingArg::Smallest => EncodingSelection::Smallest,
        }
    }
}

#[derive(Debug, Clone, Copy, PartialEq, Eq, Structural)]
pub struct FwobOptions {
    pub format: TargetFormat,
    /// True when the caller explicitly requested a format (a `v1`/`v2` token). When false the
    /// `format` is just the default and an existing file's on-disk format is allowed to win; when
    /// true, appending to a file of a different format is an error rather than a silent downgrade.
    pub explicit_format: bool,
    /// True when any v2 writer tuning option was explicitly supplied. Existing v2 files inherit
    /// their stored codec and encoding when this is false.
    pub explicit_v2_options: bool,
    pub page_size: u32,
    pub codec: CodecArg,
    pub encoding: EncodingArg,
    pub zstd_level: i32,
    pub compress_partial_page: bool,
    pub page_packing: PagePacking,
}

/// The defaults of a writer: `fwob_v2::DEFAULT_PAGE_SIZE`, `fwob_v2::DEFAULT_ZSTD_LEVEL` and
/// `fwob_v2::DEFAULT_PAGE_PACKING`, which are 512 KiB, level 6 and estimating.
#[verifier::external_body]
fn writer_defaults() -> (r: (u32, i32, PagePacking))
    ensures
        r == (524_288u32, 6i32, PagePacking::EstimateShrink),
{
    let packing = match fwob_v2::DEFAULT_PAGE_PACKING {
        fwob_v2::PagePacking::EstimateShrink => PagePacking::EstimateShrink,
        fwob_v2::PagePacking::TightFit => PagePacking::TightFit,
    };
    (fwob_v2::DEFAULT_PAGE_SIZE, fwob_v2::DEFAULT_ZSTD_LEVEL, packing)
}

/// The options of a command line without option tokens.
pub open spec fn default_options() -> FwobOptions {
    FwobOptions {
        format: TargetFormat::V2,
        explicit_format: false,
        explicit_v2_options: false,
        page_size: 524_288,
        codec: CodecArg::Zstd,
        encoding: EncodingArg::ColumnarBasic,
        zstd_level: 6,
        compress_partial_page: false,
        page_packing: PagePacking::EstimateShrink,
    }
}

impl Default for FwobOptions {
    fn default() -> (r: Self)
        ensures
            r == default_options(),
    {
        let (page_size, zstd_level, page_packing) = writer_defaults();
        FwobOptions {
            format: TargetFormat::V2,
            explicit_format: false,
            explicit_v2_options: false,
            page_size,
            codec: CodecArg::Zstd,
            encoding: EncodingArg::ColumnarBasic,
            zstd_level,
            compress_partial_page: false,
            page_packing,
        }
    }
}

/// The compression level is not between 1 and 22.
#[derive(Debug, Clone, Copy, PartialEq, Eq, Structural)]
pub struct BadZstdLevel;

pub fn validate_zstd_level(level: i32) -> (r: Result<(), BadZstdLevel>)
    ensures
        r is Ok <==> 1 <= level <= 22,
{
    if level < 1 || level > 22 {
        return Err(BadZstdLevel);
    }
    Ok(())
}

/// Everything a version 2 writer is opened with.
#[derive(Debug)]
pub struct V2WriterOptions {
    pub title: String,
    pub page_size: u32,
    pub codec: Codec,
    pub codec_selection: CodecSelection,
    pub zstd_level: i32,
    pub encoding: Encoding,
    pub encoding_selection: EncodingSelection,
    pub compress_partial_page: bool,
    pub page_packing: PagePacking,
}

impl FwobOptions {
    /// The options a version 2 writer is opened with; refused when the compression level is out of
    /// range.
    pub fn v2_writer_options(self, title: &str) -> (r: Result<V2WriterOptions, BadZstdLevel>)
        ensures
            r is Ok <==> 1 <= self.zstd_level <= 22,
            r matches Ok(o) ==> {
                &&& o.title@ == title@
                &&& o.page_size == self.page_size
                &&& o.codec == self.codec.start()
                &&& o.codec_selection == self.codec.choice()
                &&& o.zstd_level == self.zstd_level
                &&& o.encoding == self.encoding.start()
                &&& o.encoding_selection == self.encoding.choice()
                &&& o.compress_partial_page == self.compress_partial_page
                &&& o.page_packing == self.page_packing
            },
    {
        match validate_zstd_level(self.zstd_level) {
            Err(e) => return Err(e),
            Ok(_) => {},
        }
        Ok(
            V2WriterOptions {
                title: title.to_owned(),
                page_size: self.page_size,
                codec: self.codec.codec(),
                codec_selection: self.codec.selection(),
                zstd_level: self.zstd_level,
                encoding: self.encoding.encoding(),
                encoding_selection: self.encoding.selection(),
                compress_partial_page: self.compress_partial_page,
                page_packing: self.page_packing,
            },
        )
    }
}

/// Why a page-size token is refused.
#[derive(Debug, Clone, Copy, PartialEq, Eq, Structural)]
pub enum PageSizeError {
    /// The number does not fit in 64 bits.
    BadNumber,
    /// The number of bytes does not fit in 64 bits.
    TooLarge,
    /// The size is not between 1 KiB and 16 MiB.
    OutOfRange,
}

/// The number before a suffix, where the text is digits and that suffix.
pub open spec fn number_before(value: Seq<char>, suffix: Seq<char>) -> Option<nat> {
    match crate::text::before_suffix(value, suffix) {
        Some(digits) => if digits.len() > 0 && crate::text::all_digits(digits) {
            Some(crate::text::decimal_value(digits))
        } else {
            None
        },
        None => None,
    }
}

/// A number of units as a page size.
pub open spec fn scaled(number: nat, multiplier: nat) -> Result<nat, PageSizeError> {
    if number > u64::MAX {
        Err(PageSizeError::BadNumber)
    } else if number * multiplier > u64::MAX {
        Err(PageSizeError::TooLarge)
    } else if !(MIN_PAGE_SIZE <= number * multiplier <= MAX_PAGE_SIZE) {
        Err(PageSizeError::OutOfRange)
    } else {
        Ok(number * multiplier)
    }
}

/// What a page-size token means: `None` when it is not shaped like one.
pub open spec fn page_size_meaning(value: Seq<char>) -> Option<Result<nat, PageSizeError>> {
    if let Some(n) = number_before(value, "KiB"@) {
        Some(scaled(n, 1_024))
    } else if let Some(n) = number_before(value, "MiB"@) {
        Some(scaled(n, 1_048_576))
    } else if let Some(n) = number_before(value, "KB"@) {
        Some(scaled(n, 1_000))
    } else if let Some(n) = number_before(value, "MB"@) {
        Some(scaled(n, 1_000_000))
    } else if let Some(n) = number_before(value, "B"@) {
        Some(scaled(n, 1))
    } else {
        None
    }
}

/// Reads digits and a suffix as a page size. `None` when the text is not that.
fn sized(value: &Vec<char>, suffix: &str, multiplier: u64) -> (r: Option<Result<u32, PageSizeError>>)
    requires
        multiplier > 0,
    ensures
        match number_before(value@, suffix@) {
            None => r is None,
            Some(n) => match scaled(n, multiplier as nat) {
                Ok(size) => r matches Some(Ok(s)) && s == size,
                Err(e) => r == Some(Err::<u32, PageSizeError>(e)),
            },
        },
{
    let n: usize = match cut_suffix(value.as_slice(), suffix) {
        Some(n) => n,
        None => return None,
    };
    let digits = vstd::slice::slice_subrange(value.as_slice(), 0, n);
    assert(digits@ =~= value@.take(n as int));
    if n == 0 || !only_digits(digits) {
        return None;
    }
    match from_decimal(digits) {
        None => Some(Err(PageSizeError::BadNumber)),
        Some(number) => match number.checked_mul(multiplier) {
            None => Some(Err(PageSizeError::TooLarge)),
            Some(size) => if size < MIN_PAGE_SIZE || size > MAX_PAGE_SIZE {
                Some(Err(PageSizeError::OutOfRange))
            } else {
                Some(Ok(size as u32))
            },
        },
    }
}

/// Parses a page-size token such as `64KiB` or `1MB`. `None` when the value is not shaped like one,
/// so that it can be taken for a symbol.
pub fn parse_page_size_token(value: &str) -> (r: Option<Result<u32, PageSizeError>>)
    ensures
        match page_size_meaning(value@) {
            None => r is None,
            Some(Ok(size)) => r matches Some(Ok(s)) && s == size,
            Some(Err(e)) => r == Some(Err::<u32, PageSizeError>(e)),
        },
{
    let chars = chars_of(value);
    if let Some(size) = sized(&chars, "KiB", 1_024) {
        return Some(size);
    }
    if let Some(size) = sized(&chars, "MiB", 1_048_576) {
        return Some(size);
    }
    if let Some(size) = sized(&chars, "KB", 1_000) {
        return Some(size);
    }
    if let Some(size) = sized(&chars, "MB", 1_000_000) {
        return Some(size);
    }
    sized(&chars, "B", 1)
}

pub open spec fn codec_named(value: Seq<char>) -> Option<CodecArg> {
    if value == "none"@ {
        Some(CodecArg::Uncompressed)
    } else if value == "zstd"@ {
        Some(CodecArg::Zstd)
    } else if value == "lz4"@ {
        Some(CodecArg::Lz4)
    } else {
        None
    }
}

pub fn parse_codec_token(value: &str) -> (r: Option<CodecArg>)
    ensures
        r == codec_named(value@),
{
    if same(value, "none") {
        Some(CodecArg::Uncompressed)
    } else if same(value, "zstd") {
        Some(CodecArg::Zstd)
    } else if same(value, "lz4") {
        Some(CodecArg::Lz4)
    } else {
        None
    }
}

pub open spec fn encoding_named(value: Seq<char>) -> Option<EncodingArg> {
    if value == "row-raw"@ {
        Some(EncodingArg::RowRaw)
    } else if value == "columnar-basic"@ {
        Some(EncodingArg::ColumnarBasic)
    } else if value == "columnar-delta"@ {
        Some(EncodingArg::ColumnarDelta)
    } else {
        None
    }
}

pub fn parse_encoding_token(value: &str) -> (r: Option<EncodingArg>)
    ensures
        r == encoding_named(value@),
{
    if same(value, "row-raw") {
        Some(EncodingArg::RowRaw)
    } else if same(value, "columnar-basic") {
        Some(EncodingArg::ColumnarBasic)
    } else if same(value, "columnar-delta") {
        Some(EncodingArg::ColumnarDelta)
    } else {
        None
    }
}

/// What a bare token among the symbols asks for.
#[derive(Debug, Clone, Copy, PartialEq, Eq, Structural)]
pub enum OptionToken {
    Format(TargetFormat),
    Provider(ProviderKind),
    PageSize(u32),
    BadPageSize(PageSizeError),
    Smallest,
    Codec(CodecArg),
    Encoding(EncodingArg),
    CompressPartialPage,
    Packing(PagePacking),
    /// None of the above: a stock symbol.
    Symbol,
}

/// What a bare token asks for. Tokens are case-sensitive.
pub open spec fn token_of(value: Seq<char>) -> OptionToken {
    if value == "v1"@ {
        OptionToken::Format(TargetFormat::V1)
    } else if value == "v2"@ {
        OptionToken::Format(TargetFormat::V2)
    } else if let Some(provider) = ProviderKind::named(value) {
        OptionToken::Provider(provider)
    } else if let Some(size) = page_size_meaning(value) {
        match size {
            Ok(size) => OptionToken::PageSize(size as u32),
            Err(e) => OptionToken::BadPageSize(e),
        }
    } else if value == "smallest"@ {
        OptionToken::Smallest
    } else if let Some(codec) = codec_named(value) {
        OptionToken::Codec(codec)
    } else if let Some(encoding) = encoding_named(value) {
        OptionToken::Encoding(encoding)
    } else if value == "compress-partial-page"@ {
        OptionToken::CompressPartialPage
    } else if value == "tight-fit"@ {
        OptionToken::Packing(PagePacking::TightFit)
    } else if value == "estimate-shrink"@ {
        OptionToken::Packing(PagePacking::EstimateShrink)
    } else {
        OptionToken::Symbol
    }
}

fn read_token(value: &str) -> (r: OptionToken)
    ensures
        r == token_of(value@),
{
    if same(value, "v1") {
        return OptionToken::Format(TargetFormat::V1);
    }
    if same(value, "v2") {
        return OptionToken::Format(TargetFormat::V2);
    }
    if let Some(provider) = ProviderKind::from_token(value) {
        return OptionToken::Provider(provider);
    }
    if let Some(size) = parse_page_size_token(value) {
        return match size {
            Ok(size) => OptionToken::PageSize(size),
            Err(e) => OptionToken::BadPageSize(e),
        };
    }
    if same(value, "smallest") {
        return OptionToken::Smallest;
    }
    if let Some(codec) = parse_codec_token(value) {
        return OptionToken::Codec(codec);
    }
    if let Some(encoding) = parse_encoding_token(value) {
        return OptionToken::Encoding(encoding);
    }
    if same(value, "compress-partial-page") {
        OptionToken::CompressPartialPage
    } else if same(value, "tight-fit") {
        OptionToken::Packing(PagePacking::TightFit)
    } else if same(value, "estimate-shrink") {
        OptionToken::Packing(PagePacking::EstimateShrink)
    } else {
        OptionToken::Symbol
    }
}

/// Why a list of tokens is refused.
#[derive(Debug, Clone, Copy, PartialEq, Eq, Structural)]
pub enum TokenError {
    ProviderRepeated,
    PageSizeRepeated,
    PageSize(PageSizeError),
    SmallestUnusable,
    CodecRepeated,
    EncodingRepeated,
}

/// The symbols and options of a token list.
#[derive(Debug)]
pub struct ParsedTokens {
    pub symbols: Vec<String>,
    pub options: FwobOptions,
    pub provider: Option<ProviderKind>,
}

/// What a token list has said so far.
#[verifier::ext_equal]
pub struct TokenState {
    pub symbols: Seq<Seq<char>>,
    pub options: FwobOptions,
    pub provider: Option<ProviderKind>,
    pub codec_seen: bool,
    pub encoding_seen: bool,
    pub page_size_seen: bool,
}

pub open spec fn no_tokens() -> TokenState {
    TokenState {
        symbols: Seq::empty(),
        options: default_options(),
        provider: None,
        codec_seen: false,
        encoding_seen: false,
        page_size_seen: false,
    }
}

/// Options with a version 2 setting made explicitly.
pub open spec fn tuned(options: FwobOptions) -> FwobOptions {
    FwobOptions { explicit_v2_options: true, ..options }
}

impl TokenState {
    /// What the list has said after one more token. A provider, page size, codec or encoding is
    /// refused a second time; `smallest` goes to the encoding, or else to the codec, whichever has
    /// not been set.
    pub open spec fn with(self, value: Seq<char>) -> Result<TokenState, TokenError> {
        let options = self.options;
        match token_of(value) {
            OptionToken::Format(format) => Ok(
                TokenState {
                    options: FwobOptions { format, explicit_format: true, ..options },
                    ..self
                },
            ),
            OptionToken::Provider(provider) => if self.provider is Some {
                Err(TokenError::ProviderRepeated)
            } else {
                Ok(TokenState { provider: Some(provider), ..self })
            },
            OptionToken::PageSize(page_size) => if self.page_size_seen {
                Err(TokenError::PageSizeRepeated)
            } else {
                Ok(
                    TokenState {
                        options: tuned(FwobOptions { page_size, ..options }),
                        page_size_seen: true,
                        ..self
                    },
                )
            },
            OptionToken::BadPageSize(e) => if self.page_size_seen {
                Err(TokenError::PageSizeRepeated)
            } else {
                Err(TokenError::PageSize(e))
            },
            OptionToken::Smallest => if !self.encoding_seen {
                Ok(
                    TokenState {
                        options: tuned(FwobOptions { encoding: EncodingArg::Smallest, ..options }),
                        encoding_seen: true,
                        ..self
                    },
                )
            } else if !self.codec_seen {
                Ok(
                    TokenState {
                        options: tuned(FwobOptions { codec: CodecArg::Smallest, ..options }),
                        codec_seen: true,
                        ..self
                    },
                )
            } else {
                Err(TokenError::SmallestUnusable)
            },
            OptionToken::Codec(codec) => if self.codec_seen {
                Err(TokenError::CodecRepeated)
            } else {
                Ok(
                    TokenState {
                        options: tuned(FwobOptions { codec, ..options }),
                        codec_seen: true,
                        ..self
                    },
                )
            },
            OptionToken::Encoding(encoding) => if self.encoding_seen {
                Err(TokenError::EncodingRepeated)
            } else {
                Ok(
                    TokenState {
                        options: tuned(FwobOptions { encoding, ..options }),
                        encoding_seen: true,
                        ..self
                    },
                )
            },
            OptionToken::CompressPartialPage => Ok(
                TokenState {
                    options: tuned(FwobOptions { compress_partial_page: true, ..options }),
                    ..self
                },
            ),
            OptionToken::Packing(page_packing) => Ok(
                TokenState { options: tuned(FwobOptions { page_packing, ..options }), ..self },
            ),
            OptionToken::Symbol => Ok(TokenState { symbols: self.symbols.push(value), ..self }),
        }
    }
}

/// What a token list says, or the first thing wrong with it.
pub open spec fn tokens_meaning(values: Seq<Seq<char>>) -> Result<TokenState, TokenError>
    decreases values.len(),
{
    if values.len() == 0 {
        Ok(no_tokens())
    } else {
        match tokens_meaning(values.drop_last()) {
            Ok(state) => state.with(values.last()),
            Err(e) => Err(e),
        }
    }
}

/// A token list that has gone wrong stays wrong.
proof fn lemma_refusal_stays(values: Seq<Seq<char>>, k: int)
    requires
        0 <= k <= values.len(),
        tokens_meaning(values.take(k)) is Err,
    ensures
        tokens_meaning(values) == tokens_meaning(values.take(k)),
    decreases values.len(),
{
    if k == values.len() {
        assert(values.take(k) =~= values);
    } else {
        assert(values.drop_last().take(k) =~= values.take(k));
        lemma_refusal_stays(values.drop_last(), k);
    }
}

/// What a token list has said so far.
struct Told {
    symbols: Vec<String>,
    options: FwobOptions,
    provider: Option<ProviderKind>,
    codec_seen: bool,
    encoding_seen: bool,
    page_size_seen: bool,
}

impl Told {
    spec fn state(&self) -> TokenState {
        TokenState {
            symbols: crate::text::texts(self.symbols@),
            options: self.options,
            provider: self.provider,
            codec_seen: self.codec_seen,
            encoding_seen: self.encoding_seen,
            page_size_seen: self.page_size_seen,
        }
    }

    /// Takes in one more token.
    fn take_in(&mut self, value: &String) -> (r: Result<(), TokenError>)
        ensures
            match old(self).state().with(value@) {
                Ok(state) => r is Ok && final(self).state() == state,
                Err(e) => r == Err::<(), TokenError>(e),
            },
    {
        let ghost before = self.symbols@;
        match read_token(value.as_str()) {
            OptionToken::Format(format) => {
                self.options.format = format;
                self.options.explicit_format = true;
            },
            OptionToken::Provider(named) => {
                if self.provider.is_some() {
                    return Err(TokenError::ProviderRepeated);
                }
                self.provider = Some(named);
            },
            OptionToken::PageSize(page_size) => {
                if self.page_size_seen {
                    return Err(TokenError::PageSizeRepeated);
                }
                self.options.page_size = page_size;
                self.options.explicit_v2_options = true;
                self.page_size_seen = true;
            },
            OptionToken::BadPageSize(e) => {
                if self.page_size_seen {
                    return Err(TokenError::PageSizeRepeated);
                }
                return Err(TokenError::PageSize(e));
            },
            OptionToken::Smallest => {
                if !self.encoding_seen {
                    self.options.encoding = EncodingArg::Smallest;
                    self.encoding_seen = true;
                } else if !self.codec_seen {
                    self.options.codec = CodecArg::Smallest;
                    self.codec_seen = true;
                } else {
                    return Err(TokenError::SmallestUnusable);
                }
                self.options.explicit_v2_options = true;
            },
            OptionToken::Codec(codec) => {
                if self.codec_seen {
                    return Err(TokenError::CodecRepeated);
                }
                self.options.codec = codec;
                self.options.explicit_v2_options = true;
                self.codec_seen = true;
            },
            OptionToken::Encoding(encoding) => {
                if self.encoding_seen {
                    return Err(TokenError::EncodingRepeated);
                }
                self.options.encoding = encoding;
                self.options.explicit_v2_options = true;
                self.encoding_seen = true;
            },
            OptionToken::CompressPartialPage => {
                self.options.compress_partial_page = true;
                self.options.explicit_v2_options = true;
            },
            OptionToken::Packing(page_packing) => {
                self.options.page_packing = page_packing;
                self.options.explicit_v2_options = true;
            },
            OptionToken::Symbol => {
                self.symbols.push(value.clone());
                assert(crate::text::texts(self.symbols@) =~= crate::text::texts(before).push(
                    value@,
                ));
            },
        }
        Ok(())
    }
}

/// Separates the symbols of a command line from its option tokens.
pub fn parse_tokens(values: &[String]) -> (r: Result<ParsedTokens, TokenError>)
    ensures
        match tokens_meaning(crate::text::texts(values@)) {
            Ok(state) => r matches Ok(p) && crate::text::texts(p.symbols@) == state.symbols
                && p.options == state.options && p.provider == state.provider,
            Err(e) => r matches Err(found) && found == e,
        },
{
    let mut told = Told {
        symbols: Vec::new(),
        options: FwobOptions::default(),
        provider: None,
        codec_seen: false,
        encoding_seen: false,
        page_size_seen: false,
    };
    let ghost all = crate::text::texts(values@);
    assert(told.state() =~= no_tokens());
    let mut i: usize = 0;
    while i < values.len()
        invariant
            i <= values.len(),
            all == crate::text::texts(values@),
            tokens_meaning(all.take(i as int)) == Ok::<TokenState, TokenError>(told.state()),
        decreases values.len() - i,
    {
        proof {
            assert(all.take(i + 1).drop_last() =~= all.take(i as int));
            assert(all.take(i + 1).last() == values@[i as int]@);
        }
        match told.take_in(&values[i]) {
            Ok(_) => {},
            Err(e) => {
                proof {
                    lemma_refusal_stays(all, i + 1);
                }
                return Err(e);
            },
        }
        i += 1;
    }
    assert(all.take(i as int) =~= all);
    Ok(ParsedTokens { symbols: told.symbols, options: told.options, provider: told.provider })
}

/// The values of a list that are symbols, in order.
pub open spec fn symbols_in(values: Seq<Seq<char>>) -> Seq<Seq<char>>
    decreases values.len(),
{
    if values.len() == 0 {
        Seq::empty()
    } else if token_of(values.last()) is Symbol {
        symbols_in(values.drop_last()).push(values.last())
    } else {
        symbols_in(values.drop_last())
    }
}

/// A token that sets a version 2 writer option.
pub open spec fn is_tuning(value: Seq<char>) -> bool {
    match token_of(value) {
        OptionToken::Format(_) | OptionToken::Provider(_) | OptionToken::Symbol => false,
        _ => true,
    }
}

/// Of an accepted list: the symbols come out in order and nothing else among them; the format is
/// explicit exactly when a format token was given; and version 2 options are explicit exactly when
/// a tuning token was given, so an untuned list has the default tuning.
pub proof fn accepted_tokens(values: Seq<Seq<char>>)
    requires
        tokens_meaning(values) is Ok,
    ensures
        ({
            let state = tokens_meaning(values)->Ok_0;
            &&& state.symbols == symbols_in(values)
            &&& state.options.explicit_format <==> exists|i: int|
                0 <= i < values.len() && token_of(#[trigger] values[i]) is Format
            &&& state.options.explicit_v2_options <==> exists|i: int|
                0 <= i < values.len() && is_tuning(#[trigger] values[i])
            &&& !state.options.explicit_v2_options ==> state.options.page_size
                == default_options().page_size && state.options.codec == default_options().codec
                && state.options.encoding == default_options().encoding
            &&& !state.options.explicit_format ==> state.options.format == TargetFormat::V2
            &&& state.options.zstd_level == 6
        }),
    decreases values.len(),
{
    if values.len() > 0 {
        let init = values.drop_last();
        let n = values.len() - 1;
        accepted_tokens(init);
        let state = tokens_meaning(values)->Ok_0;
        let before = tokens_meaning(init)->Ok_0;
        if before.options.explicit_format {
            let i = choose|i: int| 0 <= i < init.len() && token_of(#[trigger] init[i]) is Format;
            assert(values[i] == init[i]);
        } else if state.options.explicit_format {
            assert(token_of(values[n]) is Format);
        }
        if before.options.explicit_v2_options {
            let i = choose|i: int| 0 <= i < init.len() && is_tuning(#[trigger] init[i]);
            assert(values[i] == init[i]);
        } else if state.options.explicit_v2_options {
            assert(is_tuning(values[n]));
        }
        assert forall|i: int| 0 <= i < values.len() && token_of(#[trigger] values[i]) is Format
            implies state.options.explicit_format by {
            if i < n {
                assert(init[i] == values[i]);
            }
        }
        assert forall|i: int| 0 <= i < values.len() && is_tuning(#[trigger] values[i]) implies
            state.options.explicit_v2_options by {
            if i < n {
                assert(init[i] == values[i]);
            }
        }
    }
}

} // verus!
