//! Lowering of a music notation syntax tree into absolute-time note lists.

pub mod error;
pub mod grid;
pub mod laws;
pub mod model;
pub mod notes;
pub mod order;
pub mod sequenced;
pub mod sequencing;
pub mod syntax;

pub use error::{ErrorType, SequencingError, SourceLoc};
pub use notes::Midi;
pub use sequenced::{DebugBarInfo, Note, Piece, Voice};
pub use sequencing::sequence_pieces;
pub use syntax::{BarNode, BarTypeNode, NoteNode, ParseTree, PieceNode, PlayNode, StaveNode, VoiceNode};
