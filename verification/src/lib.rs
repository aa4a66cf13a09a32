//! A verified soundfont player core: a bank/preset registry with stable
//! derived identifiers, a preset selection state machine driving a synthesis
//! engine, a multi-format bank ingestion pipeline, and a read-only state
//! snapshot for a user interface.

pub mod default_font;
pub mod engine;
pub mod errors;
pub mod ids;
pub mod ingest;
pub mod player;
pub mod sf2;
