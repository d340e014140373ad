//! The plain values that an index is persisted in terms of.
//!
//! Vector components and float metadata are held as their IEEE-754 bit
//! patterns: the on-disk formats store the bits and nothing here computes
//! with the numbers.

use vstd::prelude::*;
use vstd::slice::slice_to_vec;

verus! {

/// The metric an index compares vectors by.
#[derive(Debug, Clone, Copy, PartialEq, Eq, Structural)]
pub enum DistanceMetric {
    /// Cosine distance.
    Cosine,
    /// Dot-product similarity.
    DotProduct,
    /// Euclidean (L2) distance.
    Euclidean,
    /// Manhattan (L1) distance.
    Manhattan,
    /// Hamming distance.
    Hamming,
    /// A metric that has no on-disk tag in this build.
    Other,
}

/// The identifier of a stored vector.
#[derive(Debug, Clone, PartialEq, Eq)]
pub enum VectorId {
    /// A numeric identifier.
    U64(u64),
    /// An opaque byte-string identifier.
    Bytes(Vec<u8>),
}

/// What a [`VectorId`] identifies, mathematically.
#[verifier::ext_equal]
pub enum VectorIdView {
    /// A numeric identifier.
    U64(u64),
    /// An opaque byte-string identifier.
    Bytes(Seq<u8>),
}

impl View for VectorId {
    type V = VectorIdView;

    open spec fn view(&self) -> VectorIdView {
        match *self {
            VectorId::U64(n) => VectorIdView::U64(n),
            VectorId::Bytes(bytes) => VectorIdView::Bytes(bytes@),
        }
    }
}

impl VectorId {
    /// Another identifier with the same contents.
    pub fn duplicate(&self) -> (out: VectorId)
        ensures
            out@ == self@,
    {
        match self {
            VectorId::U64(n) => VectorId::U64(*n),
            VectorId::Bytes(bytes) => VectorId::Bytes(slice_to_vec(bytes.as_slice())),
        }
    }
}

/// A metadata value.
#[derive(Debug, Clone, PartialEq, Eq)]
pub enum Value {
    /// A UTF-8 string.
    String(String),
    /// A signed integer.
    Int(i64),
    /// A double-precision float, as its IEEE-754 bits.
    Float(u64),
    /// A boolean.
    Bool(bool),
    /// The absent value.
    Null,
}

/// What a [`Value`] holds, mathematically.
#[verifier::ext_equal]
pub enum ValueView {
    /// A UTF-8 string.
    String(Seq<char>),
    /// A signed integer.
    Int(i64),
    /// A double-precision float, as its IEEE-754 bits.
    Float(u64),
    /// A boolean.
    Bool(bool),
    /// The absent value.
    Null,
}

impl View for Value {
    type V = ValueView;

    open spec fn view(&self) -> ValueView {
        match *self {
            Value::String(text) => ValueView::String(text@),
            Value::Int(n) => ValueView::Int(n),
            Value::Float(bits) => ValueView::Float(bits),
            Value::Bool(b) => ValueView::Bool(b),
            Value::Null => ValueView::Null,
        }
    }
}

/// One metadata entry: a key and its value.
#[derive(Debug, Clone, PartialEq, Eq)]
pub struct Entry {
    /// The key.
    pub key: String,
    /// The value.
    pub value: Value,
}

/// What an [`Entry`] holds, mathematically.
#[verifier::ext_equal]
pub struct EntryView {
    /// The key.
    pub key: Seq<char>,
    /// The value.
    pub value: ValueView,
}

impl View for Entry {
    type V = EntryView;

    open spec fn view(&self) -> EntryView {
        EntryView { key: self.key@, value: self.value@ }
    }
}

/// Metadata attached to a vector, as its entries in iteration order.
#[derive(Debug, Clone, PartialEq, Eq)]
pub struct Metadata {
    /// The entries.
    pub entries: Vec<Entry>,
}

/// The entries that `entries` holds, mathematically.
pub open spec fn entry_views(entries: Seq<Entry>) -> Seq<EntryView> {
    entries.map_values(|entry: Entry| entry@)
}

impl View for Metadata {
    type V = Seq<EntryView>;

    open spec fn view(&self) -> Seq<EntryView> {
        entry_views(self.entries@)
    }
}

/// The metadata that `meta` holds, mathematically.
pub open spec fn meta_view(meta: Option<Metadata>) -> Option<Seq<EntryView>> {
    match meta {
        Some(metadata) => Some(metadata@),
        None => None,
    }
}

impl vstd::std_specs::convert::FromSpecImpl<u64> for VectorId {
    open spec fn obeys_from_spec() -> bool {
        true
    }

    open spec fn from_spec(value: u64) -> VectorId {
        VectorId::U64(value)
    }
}

impl From<u64> for VectorId {
    fn from(value: u64) -> (id: VectorId) {
        VectorId::U64(value)
    }
}

} // verus!
