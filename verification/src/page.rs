//! The records that the encoder hands to the writer: the options of a write,
//! the type of a column, the statistics of a column chunk, and the pages.

use vstd::prelude::*;

verus! {

/// The version of the page format.
#[derive(Clone, Copy, Debug, PartialEq, Eq, Structural)]
pub enum Version {
    V1,
    V2,
}

/// How the values of a page are encoded.
#[derive(Clone, Copy, Debug, PartialEq, Eq, Structural)]
pub enum Encoding {
    Plain,
    PlainDictionary,
    Rle,
    BitPacked,
    DeltaBinaryPacked,
    DeltaLengthByteArray,
    DeltaByteArray,
    RleDictionary,
    ByteStreamSplit,
}

/// The codec that the writer compresses pages with. The encoder only hands it on.
#[derive(Clone, Copy, Debug, PartialEq, Eq, Structural)]
pub enum CompressionOptions {
    Uncompressed,
    Snappy,
    Gzip,
    Lzo,
    Brotli,
    Lz4,
    Zstd,
    Lz4Raw,
}

/// Which statistics are computed.
#[derive(Clone, Copy, Debug, PartialEq, Eq, Structural)]
pub struct StatisticsOptions {
    pub min_value: bool,
    pub max_value: bool,
    pub distinct_count: bool,
    pub null_count: bool,
}

impl StatisticsOptions {
    /// No statistics.
    pub open spec fn spec_is_empty(&self) -> bool {
        !(self.min_value || self.max_value || self.distinct_count || self.null_count)
    }

    /// No statistics.
    pub fn empty() -> (options: StatisticsOptions)
        ensures
            options.spec_is_empty(),
    {
        StatisticsOptions {
            min_value: false,
            max_value: false,
            distinct_count: false,
            null_count: false,
        }
    }

    /// All statistics.
    pub fn full() -> (options: StatisticsOptions)
        ensures
            options.min_value && options.max_value && options.distinct_count && options.null_count,
    {
        StatisticsOptions { min_value: true, max_value: true, distinct_count: true, null_count: true }
    }

    /// Whether no statistics are computed.
    pub fn is_empty(&self) -> (r: bool)
        ensures
            r == self.spec_is_empty(),
    {
        !(self.min_value || self.max_value || self.distinct_count || self.null_count)
    }
}

/// The size in bytes that a data page aims at where the options name none.
pub const DEFAULT_PAGE_SIZE: usize = 1024 * 1024;

/// The options of a write.
#[derive(Clone, Copy, Debug, PartialEq, Eq, Structural)]
pub struct WriteOptions {
    pub statistics: StatisticsOptions,
    pub compression: CompressionOptions,
    pub version: Version,
    /// The size in bytes that a data page aims at.
    pub data_page_size: Option<usize>,
}

impl WriteOptions {
    /// Whether any statistics are computed.
    pub fn has_statistics(&self) -> (r: bool)
        ensures
            r == !self.statistics.spec_is_empty(),
    {
        !self.statistics.is_empty()
    }

    /// The size in bytes that a data page aims at.
    pub open spec fn spec_page_size(&self) -> nat {
        match self.data_page_size {
            Some(size) => size as nat,
            None => DEFAULT_PAGE_SIZE as nat,
        }
    }

    /// The size in bytes that a data page aims at.
    pub fn page_size(&self) -> (size: usize)
        ensures
            size == self.spec_page_size(),
    {
        match self.data_page_size {
            Some(size) => size,
            None => DEFAULT_PAGE_SIZE,
        }
    }
}

/// The physical type of a column in the file.
#[derive(Clone, Copy, Debug, PartialEq, Eq, Structural)]
pub enum PhysicalType {
    Boolean,
    Int32,
    Int64,
    Int96,
    Float,
    Double,
    ByteArray,
    FixedLenByteArray(usize),
}

/// Whether a column may hold nulls, or several values a row.
#[derive(Clone, Copy, Debug, PartialEq, Eq, Structural)]
pub enum Repetition {
    Required,
    Optional,
    Repeated,
}

/// The type of a column in the file.
#[derive(Debug)]
pub struct PrimitiveType {
    pub name: String,
    pub repetition: Repetition,
    pub physical_type: PhysicalType,
}

impl PrimitiveType {
    /// An optional column of the given name and physical type.
    pub fn from_physical(name: String, physical_type: PhysicalType) -> (r: PrimitiveType)
        ensures
            r.name == name,
            r.repetition == Repetition::Optional,
            r.physical_type == physical_type,
    {
        PrimitiveType { name, repetition: Repetition::Optional, physical_type }
    }

    /// A copy of the type.
    pub fn duplicate(&self) -> (r: PrimitiveType)
        ensures
            r == *self,
    {
        PrimitiveType {
            name: self.name.clone(),
            repetition: self.repetition,
            physical_type: self.physical_type,
        }
    }

    /// Whether the column may hold nulls.
    pub open spec fn spec_is_nullable(&self) -> bool {
        self.repetition != Repetition::Required
    }
}

/// Whether a column of this type may hold nulls: it is written with
/// definition levels exactly then.
pub fn is_nullable(type_: &PrimitiveType) -> (r: bool)
    ensures
        r == type_.spec_is_nullable(),
{
    match type_.repetition {
        Repetition::Optional => true,
        Repetition::Repeated => true,
        Repetition::Required => false,
    }
}

/// The statistics of a column chunk, each value in the bytes that the file holds.
#[derive(Debug)]
pub struct Statistics {
    pub null_count: Option<u64>,
    pub distinct_count: Option<u64>,
    pub max_value: Option<Vec<u8>>,
    pub min_value: Option<Vec<u8>>,
}

/// Statistics as contracts speak of them.
pub struct StatisticsView {
    pub null_count: Option<u64>,
    pub distinct_count: Option<u64>,
    pub max_value: Option<Seq<u8>>,
    pub min_value: Option<Seq<u8>>,
}

/// The bytes of a bound, if there is one.
pub open spec fn bytes_of(value: Option<Vec<u8>>) -> Option<Seq<u8>> {
    match value {
        Some(bytes) => Some(bytes@),
        None => None,
    }
}

impl View for Statistics {
    type V = StatisticsView;

    open spec fn view(&self) -> StatisticsView {
        StatisticsView {
            null_count: self.null_count,
            distinct_count: self.distinct_count,
            max_value: bytes_of(self.max_value),
            min_value: bytes_of(self.min_value),
        }
    }
}

/// Statistics that may be missing, as contracts speak of them.
pub open spec fn statistics_view(statistics: Option<Statistics>) -> Option<StatisticsView> {
    match statistics {
        Some(stats) => Some(stats@),
        None => None,
    }
}

/// A copy of the bytes, if there are any.
fn copy_bound(value: &Option<Vec<u8>>) -> (copy: Option<Vec<u8>>)
    ensures
        bytes_of(copy) == bytes_of(*value),
{
    match value {
        None => None,
        Some(bytes) => Some(crate::vectors::copy_all(bytes)),
    }
}

impl Statistics {
    /// A copy of the statistics.
    pub fn duplicate(&self) -> (copy: Statistics)
        ensures
            copy@ == self@,
    {
        Statistics {
            null_count: self.null_count,
            distinct_count: self.distinct_count,
            max_value: copy_bound(&self.max_value),
            min_value: copy_bound(&self.min_value),
        }
    }
}

/// The page that holds the distinct values of a column chunk, and its
/// statistics.
#[derive(Debug)]
pub struct DictPage {
    pub buffer: Vec<u8>,
    pub num_values: usize,
    pub is_sorted: bool,
    pub statistics: Option<Statistics>,
}

/// A page that holds the levels and keys of a run of rows.
#[derive(Debug)]
pub struct DataPage {
    /// Repetition levels, definition levels, then the keys.
    pub buffer: Vec<u8>,
    pub num_values: usize,
    pub num_rows: usize,
    pub null_count: usize,
    pub repetition_levels_byte_length: usize,
    pub definition_levels_byte_length: usize,
    pub statistics: Option<Statistics>,
    pub primitive_type: PrimitiveType,
    pub version: Version,
    pub compression: CompressionOptions,
    pub encoding: Encoding,
}

/// A page of a column chunk.
#[derive(Debug)]
pub enum Page {
    Data(DataPage),
    Dict(DictPage),
}

/// Wraps the bytes of a data page and what is known of them into the page.
pub fn build_plain_page(
    buffer: Vec<u8>,
    num_values: usize,
    num_rows: usize,
    null_count: usize,
    repetition_levels_byte_length: usize,
    definition_levels_byte_length: usize,
    statistics: Option<Statistics>,
    type_: PrimitiveType,
    options: WriteOptions,
    encoding: Encoding,
) -> (page: DataPage)
    ensures
        page == (DataPage {
            buffer,
            num_values,
            num_rows,
            null_count,
            repetition_levels_byte_length,
            definition_levels_byte_length,
            statistics,
            primitive_type: type_,
            version: options.version,
            compression: options.compression,
            encoding,
        }),
{
    DataPage {
        buffer,
        num_values,
        num_rows,
        null_count,
        repetition_levels_byte_length,
        definition_levels_byte_length,
        statistics,
        primitive_type: type_,
        version: options.version,
        compression: options.compression,
        encoding,
    }
}

/// Why an array could not be written as dictionary pages.
#[derive(Clone, Copy, Debug, PartialEq, Eq, Structural)]
pub enum EncodeError {
    /// Values of this type have no dictionary page.
    UnsupportedType(crate::types::DataType),
    /// A dictionary array is written with a dictionary encoding only.
    UnsupportedEncoding(Encoding),
}

} // verus!
