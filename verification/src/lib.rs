//! Text-position machinery for an editor-integration backend: it turns a
//! line/column cursor coordinate into an exact offset inside a mutable,
//! incrementally edited text buffer, extracts the identifier token at a
//! position, and walks backward through source text to find which function
//! call encloses the cursor and which argument slot the cursor sits in.

pub mod edits;
pub mod lex;
pub mod manual;
pub mod position;
pub mod protocol;
pub mod signature;
pub mod word;

pub use edits::{apply_edits, Edit};
pub use manual::GmManualFunctionParameter;
pub use position::{
    char_to_byte_offset, resolve_byte_offset, resolve_offset, Position, Range, TextError,
};
pub use protocol::{InitializationOptions, StdCompletionKind};
pub use signature::{
    func_name_and_param, get_pos_in_document, signature_context, SignatureContext,
    SignatureIterator,
};
pub use word::{full_word, get_word_in_document, get_word_in_document_full, prefix_word};
