//! The error kinds that control-context operations report.

use vstd::prelude::*;

verus! {

/// Every failure a control-context call (`add_bank`, ingestion, `select`)
/// can report. Rendering and note events never fail once a player exists.
#[derive(Clone, Copy, Debug, PartialEq, Eq, Structural)]
pub enum ErrorKind {
    /// The bank id is already registered.
    DuplicateId,
    /// The bank bytes were rejected by the bank decoder.
    DecodeError,
    /// A selection named a bank id that is not in the registry.
    BankNotFound,
    /// A selection named a preset id that is not in the resolved bank.
    PresetNotFound,
    /// The engine rejected a resolved bank/program number pair.
    ProgramSelectError,
    /// Ingestion was handed a container it does not recognise.
    UnsupportedFormat,
    /// The container structure itself was corrupt or unreadable.
    ArchiveReadError,
    /// Ingestion completed but registered zero banks.
    NoUsableEntries,
}

impl ErrorKind {
    /// A short human-readable description, for hosts that display errors.
    pub fn message(&self) -> (r: &'static str)
        ensures
            r@.len() > 0,
    {
        proof {
            reveal_strlit("duplicate bank id");
            reveal_strlit("failed to decode bank data");
            reveal_strlit("bank id not found");
            reveal_strlit("preset id not found");
            reveal_strlit("engine rejected the program selection");
            reveal_strlit("unsupported container format");
            reveal_strlit("unreadable archive");
            reveal_strlit("archive held no usable bank entries");
        }
        match self {
            ErrorKind::DuplicateId => "duplicate bank id",
            ErrorKind::DecodeError => "failed to decode bank data",
            ErrorKind::BankNotFound => "bank id not found",
            ErrorKind::PresetNotFound => "preset id not found",
            ErrorKind::ProgramSelectError => "engine rejected the program selection",
            ErrorKind::UnsupportedFormat => "unsupported container format",
            ErrorKind::ArchiveReadError => "unreadable archive",
            ErrorKind::NoUsableEntries => "archive held no usable bank entries",
        }
    }
}

} // verus!
