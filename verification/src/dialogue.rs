//! The dialogue data model under one roof: commands and chunks, script
//! files and their cache, the cursor, and the annotated text it shows.

pub use crate::annotated::{
    AnnotatedString, AnnotatedStringIterator, OwnedAnnotatedStringIterator, SpanAnnotation,
};
pub use crate::cache::DialogueCache;
pub use crate::chunk::{Chunk, Dialogue, TextChunk};
pub use crate::command::{Annotation, Command, FormatFault};
pub use crate::cursor::DialogueCursor;
pub use crate::script::DialogueFile;
