//! The arrays that the encoder reads: a typed array of values with a null
//! mask, and a dictionary array of keys into a typed array of distinct values.
//!
//! Whole numbers of every width are held as `i128`, within the range of their
//! type; a floating-point number is held as its bit pattern, which is all that
//! its place in a page needs. Text and binary values are held as bytes, at
//! most `MAX_VALUE_LEN` of them a value.

use vstd::prelude::*;

verus! {

/// The logical type of a column.
#[derive(Clone, Copy, Debug, PartialEq, Eq, Structural)]
pub enum DataType {
    Boolean,
    Int8,
    Int16,
    Int32,
    Int64,
    UInt8,
    UInt16,
    UInt32,
    UInt64,
    /// Held as the 32 bits of the number.
    Float32,
    /// Held as the 64 bits of the number.
    Float64,
    Date32,
    Time32,
    Date64,
    Time64,
    Timestamp,
    Duration,
    Utf8,
    LargeUtf8,
    Utf8View,
    Binary,
    LargeBinary,
    BinaryView,
    /// Binary values that all have this many bytes.
    FixedSizeBinary(usize),
}

impl DataType {
    /// The least and the greatest number that a value of this type can hold;
    /// `None` for the types whose values are bytes.
    pub open spec fn integer_range(self) -> Option<(int, int)> {
        match self {
            DataType::Boolean => Some((0, 1)),
            DataType::Int8 => Some((-0x80, 0x7f)),
            DataType::Int16 => Some((-0x8000, 0x7fff)),
            DataType::Int32 | DataType::Date32 | DataType::Time32 => Some(
                (-0x8000_0000, 0x7fff_ffff),
            ),
            DataType::Int64
            | DataType::Date64
            | DataType::Time64
            | DataType::Timestamp
            | DataType::Duration => Some((-0x8000_0000_0000_0000, 0x7fff_ffff_ffff_ffff)),
            DataType::UInt8 => Some((0, 0xff)),
            DataType::UInt16 => Some((0, 0xffff)),
            DataType::UInt32 | DataType::Float32 => Some((0, 0xffff_ffff)),
            DataType::UInt64 | DataType::Float64 => Some((0, 0xffff_ffff_ffff_ffff)),
            _ => None,
        }
    }

    /// The values of this type are numbers.
    pub open spec fn holds_integers(self) -> bool {
        self.integer_range() is Some
    }

    /// The least number that a value of this type can hold.
    pub open spec fn least(self) -> int {
        match self.integer_range() {
            Some((lo, _)) => lo,
            None => 0,
        }
    }

    /// The greatest number that a value of this type can hold.
    pub open spec fn greatest(self) -> int {
        match self.integer_range() {
            Some((_, hi)) => hi,
            None => 0,
        }
    }

    /// The values of this type are numbers.
    pub fn is_integer_like(self) -> (r: bool)
        ensures
            r == self.holds_integers(),
    {
        match self {
            DataType::Utf8
            | DataType::LargeUtf8
            | DataType::Utf8View
            | DataType::Binary
            | DataType::LargeBinary
            | DataType::BinaryView
            | DataType::FixedSizeBinary(_) => false,
            _ => true,
        }
    }

    /// The least number that a value of this type can hold.
    pub fn lower_bound(self) -> (lo: i128)
        requires
            self.holds_integers(),
        ensures
            lo == self.least(),
    {
        match self {
            DataType::Int8 => -0x80,
            DataType::Int16 => -0x8000,
            DataType::Int32 | DataType::Date32 | DataType::Time32 => -0x8000_0000,
            DataType::Int64
            | DataType::Date64
            | DataType::Time64
            | DataType::Timestamp
            | DataType::Duration => -0x8000_0000_0000_0000,
            _ => 0,
        }
    }

    /// The greatest number that a value of this type can hold.
    pub fn upper_bound(self) -> (hi: i128)
        requires
            self.holds_integers(),
        ensures
            hi == self.greatest(),
    {
        match self {
            DataType::Boolean => 1,
            DataType::Int8 => 0x7f,
            DataType::Int16 => 0x7fff,
            DataType::Int32 | DataType::Date32 | DataType::Time32 => 0x7fff_ffff,
            DataType::Int64
            | DataType::Date64
            | DataType::Time64
            | DataType::Timestamp
            | DataType::Duration => 0x7fff_ffff_ffff_ffff,
            DataType::UInt8 => 0xff,
            DataType::UInt16 => 0xffff,
            DataType::UInt32 | DataType::Float32 => 0xffff_ffff,
            _ => 0xffff_ffff_ffff_ffff,
        }
    }
}

/// One value of a column, as contracts speak of it.
pub enum Value {
    Integer(int),
    Bytes(Seq<u8>),
}

/// The greatest number of bytes that a binary value may have.
pub const MAX_VALUE_LEN: usize = 0xffff_ffff;

/// The bytes of each value.
pub open spec fn bytes_view(values: Seq<Vec<u8>>) -> Seq<Seq<u8>> {
    Seq::new(values.len(), |i: int| values[i]@)
}

/// The values of an array, null places included.
#[derive(Debug)]
pub enum ArrayValues {
    Integers(Vec<i128>),
    Bytes(Vec<Vec<u8>>),
}

impl ArrayValues {
    /// The number of places.
    pub open spec fn spec_len(&self) -> nat {
        match self {
            ArrayValues::Integers(v) => v@.len(),
            ArrayValues::Bytes(v) => v@.len(),
        }
    }

    /// The numbers, where the values are numbers.
    pub open spec fn integers(&self) -> Seq<i128> {
        match self {
            ArrayValues::Integers(v) => v@,
            ArrayValues::Bytes(_) => Seq::empty(),
        }
    }

    /// The bytes of each value, where the values are bytes.
    pub open spec fn bytes(&self) -> Seq<Seq<u8>> {
        match self {
            ArrayValues::Integers(_) => Seq::empty(),
            ArrayValues::Bytes(v) => bytes_view(v@),
        }
    }

    /// The value at place `i`.
    pub open spec fn value(&self, i: int) -> Value {
        match self {
            ArrayValues::Integers(v) => Value::Integer(v@[i] as int),
            ArrayValues::Bytes(v) => Value::Bytes(v@[i]@),
        }
    }

    /// The number of places.
    pub fn len(&self) -> (n: usize)
        ensures
            n == self.spec_len(),
    {
        match self {
            ArrayValues::Integers(v) => v.len(),
            ArrayValues::Bytes(v) => v.len(),
        }
    }

    /// Whether every value may stand in a column of type `dtype`.
    pub open spec fn matches_type(&self, dtype: DataType) -> bool {
        match self {
            ArrayValues::Integers(v) => dtype.holds_integers() && forall|i: int|
                0 <= i < v@.len() ==> dtype.least() <= #[trigger] v@[i] <= dtype.greatest(),
            ArrayValues::Bytes(v) => {
                &&& !dtype.holds_integers()
                &&& forall|i: int| 0 <= i < v@.len() ==> (#[trigger] v@[i])@.len() <= MAX_VALUE_LEN
                &&& dtype matches DataType::FixedSizeBinary(size) ==> forall|i: int|
                    0 <= i < v@.len() ==> (#[trigger] v@[i])@.len() == size
            },
        }
    }
}

/// Whether place `i` is valid under the mask `validity`; with no mask every
/// place is.
pub open spec fn mask_allows(validity: Option<Seq<bool>>, i: int) -> bool {
    match validity {
        Some(mask) => mask[i],
        None => true,
    }
}

/// The mask as contracts speak of it.
pub open spec fn mask_view(validity: Option<Vec<bool>>) -> Option<Seq<bool>> {
    match validity {
        Some(mask) => Some(mask@),
        None => None,
    }
}

/// The number of places below `n` that `validity` marks as null.
pub open spec fn count_nulls(validity: Option<Seq<bool>>, n: nat) -> nat
    decreases n,
{
    if n == 0 {
        0
    } else {
        count_nulls(validity, (n - 1) as nat) + if mask_allows(validity, n - 1) {
            0nat
        } else {
            1nat
        }
    }
}

/// The number of places below `n` that `validity` marks as null.
pub fn null_count_of(validity: &Option<Vec<bool>>, n: usize) -> (count: usize)
    requires
        validity matches Some(mask) ==> mask@.len() >= n,
    ensures
        count == count_nulls(mask_view(*validity), n as nat),
{
    match validity {
        None => {
            proof {
                lemma_count_nulls_none(n as nat);
            }
            0
        },
        Some(mask) => {
            let mut count: usize = 0;
            let mut i: usize = 0;
            while i < n
                invariant
                    i <= n <= mask@.len(),
                    count == count_nulls(Some(mask@), i as nat),
                    count <= i,
                decreases n - i,
            {
                if !mask[i] {
                    count = count + 1;
                }
                i = i + 1;
            }
            count
        },
    }
}

/// Without a mask nothing is null.
pub proof fn lemma_count_nulls_none(n: nat)
    ensures
        count_nulls(None, n) == 0,
    decreases n,
{
    if n != 0 {
        lemma_count_nulls_none((n - 1) as nat);
    }
}

/// Whether every number in `v` lies between `lo` and `hi`.
fn all_within(v: &Vec<i128>, lo: i128, hi: i128) -> (r: bool)
    ensures
        r == forall|i: int| 0 <= i < v@.len() ==> lo <= #[trigger] v@[i] <= hi,
{
    let mut i: usize = 0;
    while i < v.len()
        invariant
            i <= v@.len(),
            forall|j: int| 0 <= j < i ==> lo <= #[trigger] v@[j] <= hi,
        decreases v@.len() - i,
    {
        if v[i] < lo || v[i] > hi {
            return false;
        }
        i = i + 1;
    }
    true
}

/// Whether every value in `v` has at most `MAX_VALUE_LEN` bytes.
fn all_short(v: &Vec<Vec<u8>>) -> (r: bool)
    ensures
        r == forall|i: int| 0 <= i < v@.len() ==> (#[trigger] v@[i])@.len() <= MAX_VALUE_LEN,
{
    let mut i: usize = 0;
    while i < v.len()
        invariant
            i <= v@.len(),
            forall|j: int| 0 <= j < i ==> (#[trigger] v@[j])@.len() <= MAX_VALUE_LEN,
        decreases v@.len() - i,
    {
        if v[i].len() > MAX_VALUE_LEN {
            return false;
        }
        i = i + 1;
    }
    true
}

/// Whether every value in `v` has `size` bytes.
fn all_of_len(v: &Vec<Vec<u8>>, size: usize) -> (r: bool)
    ensures
        r == forall|i: int| 0 <= i < v@.len() ==> (#[trigger] v@[i])@.len() == size,
{
    let mut i: usize = 0;
    while i < v.len()
        invariant
            i <= v@.len(),
            forall|j: int| 0 <= j < i ==> (#[trigger] v@[j])@.len() == size,
        decreases v@.len() - i,
    {
        if v[i].len() != size {
            return false;
        }
        i = i + 1;
    }
    true
}

/// Whether every key that the mask allows is below `count`.
fn keys_below(keys: &Vec<u32>, validity: &Option<Vec<bool>>, count: usize) -> (r: bool)
    requires
        validity matches Some(mask) ==> mask@.len() == keys@.len(),
    ensures
        r == forall|i: int|
            0 <= i < keys@.len() && mask_allows(mask_view(*validity), i) ==> (#[trigger] keys@[i])
                < count,
{
    let mut i: usize = 0;
    while i < keys.len()
        invariant
            i <= keys@.len(),
            validity matches Some(mask) ==> mask@.len() == keys@.len(),
            forall|j: int|
                0 <= j < i && mask_allows(mask_view(*validity), j) ==> (#[trigger] keys@[j])
                    < count,
        decreases keys@.len() - i,
    {
        let valid = match validity {
            Some(mask) => mask[i],
            None => true,
        };
        if valid && keys[i] as usize >= count {
            return false;
        }
        i = i + 1;
    }
    true
}

/// Whether place `i` is valid under the mask.
pub fn is_valid_at(validity: &Option<Vec<bool>>, i: usize) -> (valid: bool)
    requires
        validity matches Some(mask) ==> i < mask@.len(),
    ensures
        valid == mask_allows(mask_view(*validity), i as int),
{
    match validity {
        Some(mask) => mask[i],
        None => true,
    }
}

/// A copy of the mask.
pub fn copy_mask(validity: &Option<Vec<bool>>) -> (copy: Option<Vec<bool>>)
    ensures
        mask_view(copy) == mask_view(*validity),
{
    match validity {
        None => None,
        Some(mask) => Some(crate::vectors::copy_all(mask)),
    }
}

/// An array of one type: a value at each place, and a mask that says which
/// places are null. With no mask no place is null.
#[derive(Debug)]
pub struct TypedArray {
    pub dtype: DataType,
    pub values: ArrayValues,
    pub validity: Option<Vec<bool>>,
}

impl TypedArray {
    /// The array is well formed: the values are of its type and the mask, if
    /// there is one, has a place for each.
    pub open spec fn wf(&self) -> bool {
        &&& self.values.matches_type(self.dtype)
        &&& self.validity matches Some(mask) ==> mask@.len() == self.values.spec_len()
    }

    /// The number of places.
    pub open spec fn spec_len(&self) -> nat {
        self.values.spec_len()
    }

    /// Whether place `i` holds a value.
    pub open spec fn is_valid(&self, i: int) -> bool {
        mask_allows(mask_view(self.validity), i)
    }

    /// What the array holds at place `i`: a value, or nothing where it is null.
    pub open spec fn logical(&self, i: int) -> Option<Value> {
        if self.is_valid(i) {
            Some(self.values.value(i))
        } else {
            None
        }
    }

    /// The number of null places.
    pub open spec fn spec_null_count(&self) -> nat {
        count_nulls(mask_view(self.validity), self.spec_len())
    }

    /// The number of places.
    pub fn len(&self) -> (n: usize)
        ensures
            n == self.spec_len(),
    {
        self.values.len()
    }

    /// Whether the array has no places.
    pub fn is_empty(&self) -> (r: bool)
        ensures
            r == (self.spec_len() == 0),
    {
        self.values.len() == 0
    }

    /// The number of null places.
    pub fn null_count(&self) -> (count: usize)
        requires
            self.wf(),
        ensures
            count == self.spec_null_count(),
    {
        null_count_of(&self.validity, self.values.len())
    }

    /// An array of `dtype` from its parts, or `None` where they do not make a
    /// well-formed array.
    pub fn try_new(dtype: DataType, values: ArrayValues, validity: Option<Vec<bool>>) -> (r: Option<
        TypedArray,
    >)
        ensures
            match r {
                Some(array) => array.wf() && array.dtype == dtype && array.values == values
                    && array.validity == validity,
                None => !(TypedArray { dtype, values, validity }).wf(),
            },
    {
        let n = values.len();
        if let Some(mask) = &validity {
            if mask.len() != n {
                return None;
            }
        }
        match &values {
            ArrayValues::Integers(v) => {
                if !dtype.is_integer_like() || !all_within(v, dtype.lower_bound(), dtype.upper_bound()) {
                    return None;
                }
            },
            ArrayValues::Bytes(v) => {
                if dtype.is_integer_like() || !all_short(v) {
                    return None;
                }
                if let DataType::FixedSizeBinary(size) = dtype {
                    if !all_of_len(v, size) {
                        return None;
                    }
                }
            },
        }
        Some(TypedArray { dtype, values, validity })
    }
}

/// A dictionary array: a key at each place that says which of the distinct
/// `values` stands there, and a mask over the keys. A place is null where its
/// key is null, or where the value that its key names is.
#[derive(Debug)]
pub struct DictionaryArray {
    pub keys: Vec<u32>,
    pub validity: Option<Vec<bool>>,
    pub values: TypedArray,
}

impl DictionaryArray {
    /// The array is well formed: its values are, the mask has a place for
    /// each key, and every key that is not null names one of the values.
    pub open spec fn wf(&self) -> bool {
        &&& self.values.wf()
        &&& forall|i: int|
            0 <= i < self.keys@.len() && self.key_is_valid(i) ==> (#[trigger] self.keys@[i])
                < self.values.spec_len()
        &&& self.validity matches Some(mask) ==> mask@.len() == self.keys@.len()
    }

    /// The number of places.
    pub open spec fn spec_len(&self) -> nat {
        self.keys@.len()
    }

    /// Whether the key at place `i` is not null.
    pub open spec fn key_is_valid(&self, i: int) -> bool {
        mask_allows(mask_view(self.validity), i)
    }

    /// Whether place `i` holds a value: its key is not null, and neither is
    /// the value that the key names.
    pub open spec fn row_is_valid(&self, i: int) -> bool {
        self.key_is_valid(i) && self.values.is_valid(self.keys@[i] as int)
    }

    /// What the array holds at place `i`: a value, or nothing where it is null.
    pub open spec fn logical(&self, i: int) -> Option<Value> {
        if self.row_is_valid(i) {
            Some(self.values.values.value(self.keys@[i] as int))
        } else {
            None
        }
    }

    /// The number of places whose key is null.
    pub open spec fn spec_null_count(&self) -> nat {
        count_nulls(mask_view(self.validity), self.spec_len())
    }

    /// The number of places.
    pub fn len(&self) -> (n: usize)
        ensures
            n == self.spec_len(),
    {
        self.keys.len()
    }

    /// Whether the array has no places.
    pub fn is_empty(&self) -> (r: bool)
        ensures
            r == (self.spec_len() == 0),
    {
        self.keys.len() == 0
    }

    /// The number of places whose key is null.
    pub fn null_count(&self) -> (count: usize)
        requires
            self.wf(),
        ensures
            count == self.spec_null_count(),
    {
        null_count_of(&self.validity, self.keys.len())
    }

    /// A dictionary array without places, for values of type `dtype`.
    pub fn new_empty(dtype: DataType) -> (array: DictionaryArray)
        ensures
            array.wf(),
            array.spec_len() == 0,
            array.values.spec_len() == 0,
            array.values.dtype == dtype,
            array.validity is None,
            array.values.validity is None,
    {
        let values = if dtype.is_integer_like() {
            ArrayValues::Integers(Vec::new())
        } else {
            ArrayValues::Bytes(Vec::new())
        };
        DictionaryArray {
            keys: Vec::new(),
            validity: None,
            values: TypedArray { dtype, values, validity: None },
        }
    }

    /// A dictionary array from its parts, or `None` where they do not make a
    /// well-formed one.
    pub fn try_new(keys: Vec<u32>, validity: Option<Vec<bool>>, values: TypedArray) -> (r: Option<
        DictionaryArray,
    >)
        requires
            values.wf(),
        ensures
            match r {
                Some(array) => array.wf() && array.keys == keys && array.validity == validity
                    && array.values == values,
                None => !(DictionaryArray { keys, validity, values }).wf(),
            },
    {
        let n = keys.len();
        let count = values.len();
        if let Some(mask) = &validity {
            if mask.len() != n {
                return None;
            }
        }
        if !keys_below(&keys, &validity, count) {
            proof {
                let whole = DictionaryArray { keys, validity, values };
                if whole.wf() {
                    assert forall|i: int|
                        0 <= i < keys@.len() && mask_allows(
                            mask_view(validity),
                            i,
                        ) implies (#[trigger] keys@[i]) < count by {
                        assert(whole.keys@[i] < whole.values.spec_len());
                    }
                }
            }
            return None;
        }
        Some(DictionaryArray { keys, validity, values })
    }
}

} // verus!
