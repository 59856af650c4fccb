//! What the encoder reads of the nesting of a column: the levels of lists and
//! structs above a leaf, and the span of leaf values that they cover.
//!
//! The levels of a nested column are encoded elsewhere; the encoder takes them
//! as bytes.

use vstd::prelude::*;

verus! {

/// One level of the nesting of a column, from the root down to the leaf.
#[derive(Debug)]
pub enum Nested {
    /// The leaf: `length` values.
    Primitive { is_optional: bool, length: usize },
    /// A list with 32-bit offsets into the level below.
    List { is_optional: bool, offsets: Vec<i64> },
    /// A list with 64-bit offsets into the level below.
    LargeList { is_optional: bool, offsets: Vec<i64> },
    /// `length` lists of `width` items each.
    FixedSizeList { is_optional: bool, width: usize, length: usize },
    /// A struct of `length` rows.
    Struct { is_optional: bool, length: usize },
}

impl Nested {
    /// The level is well formed: offsets start a list, never fall, and fit a
    /// `usize`; the items of fixed-size lists can be counted.
    pub open spec fn wf(&self) -> bool {
        match self {
            Nested::List { offsets, .. } | Nested::LargeList { offsets, .. } => {
                &&& offsets@.len() >= 1
                &&& 0 <= offsets@[0] <= offsets@[offsets@.len() - 1] <= usize::MAX
            },
            Nested::FixedSizeList { width, length, .. } => *length * *width <= usize::MAX,
            _ => true,
        }
    }

    /// The number of rows of the level.
    pub open spec fn spec_len(&self) -> nat {
        match self {
            Nested::Primitive { length, .. } => *length as nat,
            Nested::List { offsets, .. } | Nested::LargeList { offsets, .. } => (offsets@.len()
                - 1) as nat,
            Nested::FixedSizeList { length, .. } => *length as nat,
            Nested::Struct { length, .. } => *length as nat,
        }
    }

    /// The number of rows of the level.
    pub fn len(&self) -> (n: usize)
        requires
            self.wf(),
        ensures
            n == self.spec_len(),
    {
        match self {
            Nested::Primitive { length, .. } => *length,
            Nested::List { offsets, .. } | Nested::LargeList { offsets, .. } => offsets.len() - 1,
            Nested::FixedSizeList { length, .. } => *length,
            Nested::Struct { length, .. } => *length,
        }
    }
}

/// Every level is well formed.
pub open spec fn all_wf(nested: Seq<Nested>) -> bool {
    forall|i: int| 0 <= i < nested.len() ==> (#[trigger] nested[i]).wf()
}

impl Nested {
    /// Whether the level is well formed.
    pub fn is_wf(&self) -> (ok: bool)
        ensures
            ok == self.wf(),
    {
        match self {
            Nested::List { offsets, .. } | Nested::LargeList { offsets, .. } => {
                if offsets.len() == 0 {
                    return false;
                }
                let first = offsets[0];
                let last = offsets[offsets.len() - 1];
                0 <= first && first <= last && last as u128 <= usize::MAX as u128
            },
            Nested::FixedSizeList { width, length, .. } => {
                assert(*length * *width <= 0xffff_ffff_ffff_ffff * 0xffff_ffff_ffff_ffff)
                    by (nonlinear_arith)
                    requires
                        *length <= 0xffff_ffff_ffff_ffff,
                        *width <= 0xffff_ffff_ffff_ffff,
                ;
                *length as u128 * *width as u128 <= usize::MAX as u128
            },
            _ => true,
        }
    }
}

/// Whether every level is well formed.
pub fn all_levels_wf(nested: &Vec<Nested>) -> (ok: bool)
    ensures
        ok == all_wf(nested@),
{
    let mut i: usize = 0;
    while i < nested.len()
        invariant
            i <= nested@.len(),
            forall|j: int| 0 <= j < i ==> (#[trigger] nested@[j]).wf(),
        decreases nested@.len() - i,
    {
        if !nested[i].is_wf() {
            return false;
        }
        i = i + 1;
    }
    true
}

/// The span of leaf values that the first `n` levels cover, where the levels
/// below them cover `below`: the deepest list decides; above a leaf without
/// lists it is the length of the leaf.
pub open spec fn leaf_span_of(nested: Seq<Nested>, n: nat, below: (int, int)) -> (int, int)
    decreases n,
{
    if n == 0 {
        below
    } else {
        match nested[n - 1] {
            Nested::List { offsets, .. } | Nested::LargeList { offsets, .. } => (
                offsets@[0] as int,
                offsets@[offsets@.len() - 1] - offsets@[0],
            ),
            Nested::FixedSizeList { width, length, .. } => (0, length as int * width as int),
            Nested::Primitive { length, .. } => leaf_span_of(
                nested,
                (n - 1) as nat,
                (0, length as int),
            ),
            Nested::Struct { .. } => leaf_span_of(nested, (n - 1) as nat, below),
        }
    }
}

/// The span of leaf values that the levels cover: where it starts, and how
/// many values it has.
pub open spec fn leaf_span(nested: Seq<Nested>) -> (int, int) {
    leaf_span_of(nested, nested.len(), (0, 0))
}

/// The span of leaf values that the levels cover: where it starts, and how
/// many values it has.
pub fn slice_nested_leaf(nested: &Vec<Nested>) -> (span: (usize, usize))
    requires
        all_wf(nested@),
    ensures
        (span.0 as int, span.1 as int) == leaf_span(nested@),
{
    let mut out: (usize, usize) = (0, 0);
    let mut n: usize = nested.len();
    while n > 0
        invariant
            n <= nested@.len(),
            all_wf(nested@),
            leaf_span(nested@) == leaf_span_of(nested@, n as nat, (out.0 as int, out.1 as int)),
        decreases n,
    {
        match &nested[n - 1] {
            Nested::List { offsets, .. } | Nested::LargeList { offsets, .. } => {
                let start = offsets[0];
                let end = offsets[offsets.len() - 1];
                return (start as usize, (end - start) as usize);
            },
            Nested::FixedSizeList { width, length, .. } => {
                return (0, *length * *width);
            },
            Nested::Primitive { length, .. } => {
                out = (0, *length);
            },
            Nested::Struct { .. } => {},
        }
        n = n - 1;
    }
    out
}

/// The level as contracts compare it: its kind and what it holds.
pub open spec fn same_level(a: Nested, b: Nested) -> bool {
    match (a, b) {
        (
            Nested::Primitive { is_optional: o1, length: l1 },
            Nested::Primitive { is_optional: o2, length: l2 },
        ) => o1 == o2 && l1 == l2,
        (
            Nested::List { is_optional: o1, offsets: f1 },
            Nested::List { is_optional: o2, offsets: f2 },
        ) => o1 == o2 && f1@ == f2@,
        (
            Nested::LargeList { is_optional: o1, offsets: f1 },
            Nested::LargeList { is_optional: o2, offsets: f2 },
        ) => o1 == o2 && f1@ == f2@,
        (
            Nested::FixedSizeList { is_optional: o1, width: w1, length: l1 },
            Nested::FixedSizeList { is_optional: o2, width: w2, length: l2 },
        ) => o1 == o2 && w1 == w2 && l1 == l2,
        (
            Nested::Struct { is_optional: o1, length: l1 },
            Nested::Struct { is_optional: o2, length: l2 },
        ) => o1 == o2 && l1 == l2,
        _ => false,
    }
}

/// The levels with the leaf cut to the span of leaf values that they cover:
/// every level as it was, but the length of a leaf that stands last. These
/// are the levels that a page of the column is written for.
pub fn with_leaf_length(nested: &Vec<Nested>) -> (cut: Vec<Nested>)
    requires
        all_wf(nested@),
    ensures
        cut@.len() == nested@.len(),
        forall|i: int|
            0 <= i < nested@.len() ==> if i == nested@.len() - 1 && nested@[i] is Primitive {
                #[trigger] cut@[i] matches Nested::Primitive { is_optional, length }
                    && is_optional == nested@[i]->Primitive_is_optional && length == leaf_span(
                    nested@,
                ).1
            } else {
                same_level(#[trigger] cut@[i], nested@[i])
            },
{
    let (_, len) = slice_nested_leaf(nested);
    let mut cut: Vec<Nested> = Vec::new();
    let mut i: usize = 0;
    while i < nested.len()
        invariant
            i <= nested@.len(),
            cut@.len() == i,
            len == leaf_span(nested@).1,
            forall|j: int|
                0 <= j < i ==> if j == nested@.len() - 1 && nested@[j] is Primitive {
                    #[trigger] cut@[j] matches Nested::Primitive { is_optional, length }
                        && is_optional == nested@[j]->Primitive_is_optional && length == len
                } else {
                    same_level(#[trigger] cut@[j], nested@[j])
                },
        decreases nested@.len() - i,
    {
        let level = match &nested[i] {
            Nested::Primitive { is_optional, length } => Nested::Primitive {
                is_optional: *is_optional,
                length: if i == nested.len() - 1 {
                    len
                } else {
                    *length
                },
            },
            Nested::List { is_optional, offsets } => Nested::List {
                is_optional: *is_optional,
                offsets: crate::vectors::copy_all(offsets),
            },
            Nested::LargeList { is_optional, offsets } => Nested::LargeList {
                is_optional: *is_optional,
                offsets: crate::vectors::copy_all(offsets),
            },
            Nested::FixedSizeList { is_optional, width, length } => Nested::FixedSizeList {
                is_optional: *is_optional,
                width: *width,
                length: *length,
            },
            Nested::Struct { is_optional, length } => Nested::Struct {
                is_optional: *is_optional,
                length: *length,
            },
        };
        cut.push(level);
        i = i + 1;
    }
    cut
}

/// The levels of a nested column as a page holds them: the repetition levels,
/// then the definition levels.
#[derive(Debug)]
pub struct EncodedLevels {
    pub repetition: Vec<u8>,
    pub definition: Vec<u8>,
}

} // verus!
