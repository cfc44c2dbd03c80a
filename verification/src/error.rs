//! Errors of the store and of its mutate primitives, and the receipt a
//! persisted mutation returns.
use vstd::prelude::*;
use crate::text::{cat2, decimal, usize_to_decimal};

verus! {

/// A store that could not be read or written.
#[derive(Debug)]
pub enum AtomicStoreError {
    /// Reading or writing the sidecar file failed; the text is the I/O error.
    Io(String),
    /// The sidecar file is not a store; the text is the parse error.
    Json(String),
    /// The store was written by a newer generation than this build reads.
    SchemaVersionMismatch { store: u32, expected: u32 },
}

/// A refused mutation.
#[derive(Debug)]
pub enum AtomicMutateError {
    /// The input breaks a rule of the primitive.
    Validation(String),
    /// The thing the primitive acts on is not in the store.
    NotFound(String),
    /// The mutation would change an entry of the append-only ledger.
    FrozenLedger(String),
    /// The store could not be saved.
    Store(AtomicStoreError),
}

/// The message a validation, not-found or frozen-ledger refusal carries.
pub open spec fn mutate_msg(e: AtomicMutateError) -> Seq<char> {
    match e {
        AtomicMutateError::Validation(m) => m@,
        AtomicMutateError::NotFound(m) => m@,
        AtomicMutateError::FrozenLedger(m) => m@,
        AtomicMutateError::Store(_) => Seq::empty(),
    }
}

/// A refusal by kind and message.
pub enum Refusal {
    Validation(Seq<char>),
    NotFound(Seq<char>),
    FrozenLedger(Seq<char>),
    Store,
}

/// The kind and message of a refused mutation.
pub open spec fn refusal(e: AtomicMutateError) -> Refusal {
    match e {
        AtomicMutateError::Validation(m) => Refusal::Validation(m@),
        AtomicMutateError::NotFound(m) => Refusal::NotFound(m@),
        AtomicMutateError::FrozenLedger(m) => Refusal::FrozenLedger(m@),
        AtomicMutateError::Store(_) => Refusal::Store,
    }
}

/// What `AtomicStoreError`'s `Display` writes.
pub open spec fn store_error_display(e: AtomicStoreError) -> Seq<char> {
    match e {
        AtomicStoreError::Io(m) => "io: "@ + m@,
        AtomicStoreError::Json(m) => "json parse: "@ + m@,
        AtomicStoreError::SchemaVersionMismatch { store, expected } => "schema version mismatch: store="@
            + decimal(store as nat) + " expected ≤ "@ + decimal(expected as nat),
    }
}

/// What `AtomicMutateError`'s `Display` writes.
pub open spec fn mutate_error_display(e: AtomicMutateError) -> Seq<char> {
    match e {
        AtomicMutateError::Validation(m) => "validation: "@ + m@,
        AtomicMutateError::NotFound(m) => "not found: "@ + m@,
        AtomicMutateError::FrozenLedger(m) => "frozen ledger: "@ + m@,
        AtomicMutateError::Store(s) => "store: "@ + store_error_display(s),
    }
}

impl AtomicStoreError {
    /// The error's message.
    pub fn to_text(&self) -> (r: String)
        ensures
            r@ == store_error_display(*self),
    {
        match self {
            AtomicStoreError::Io(m) => cat2("io: ", m.as_str()),
            AtomicStoreError::Json(m) => cat2("json parse: ", m.as_str()),
            AtomicStoreError::SchemaVersionMismatch { store, expected } => {
                let a = usize_to_decimal(*store as usize);
                let b = usize_to_decimal(*expected as usize);
                let mut r = cat2("schema version mismatch: store=", a.as_str());
                r.append(" expected ≤ ");
                r.append(b.as_str());
                r
            },
        }
    }
}

impl AtomicMutateError {
    /// The error's message.
    pub fn to_text(&self) -> (r: String)
        ensures
            r@ == mutate_error_display(*self),
    {
        match self {
            AtomicMutateError::Validation(m) => cat2("validation: ", m.as_str()),
            AtomicMutateError::NotFound(m) => cat2("not found: ", m.as_str()),
            AtomicMutateError::FrozenLedger(m) => cat2("frozen ledger: ", m.as_str()),
            AtomicMutateError::Store(s) => {
                let t = s.to_text();
                cat2("store: ", t.as_str())
            },
        }
    }
}

/// What a persisted mutation reports.
#[derive(Debug, Clone, PartialEq, Eq)]
pub struct AtomicMutateReceipt {
    pub primitive: String,
    pub target_kind: &'static str,
    pub target_id: String,
    pub sidecar_path: String,
    pub written_bytes: usize,
}

impl AtomicMutateReceipt {
    /// A receipt with the given fields.
    pub fn new(
        primitive: &str,
        target_kind: &'static str,
        target_id: &str,
        sidecar_path: &str,
        written_bytes: usize,
    ) -> (r: AtomicMutateReceipt)
        ensures
            r.primitive@ == primitive@,
            r.target_kind@ == target_kind@,
            r.target_id@ == target_id@,
            r.sidecar_path@ == sidecar_path@,
            r.written_bytes == written_bytes,
    {
        AtomicMutateReceipt {
            primitive: primitive.to_owned(),
            target_kind,
            target_id: target_id.to_owned(),
            sidecar_path: sidecar_path.to_owned(),
            written_bytes,
        }
    }
}

} // verus!
