//! Chunks, the units a dialogue is revealed in, and dialogues themselves.

use vstd::prelude::*;
use vstd::string::*;
use crate::command::{Command, CommandView};
use crate::text::same_name;

verus! {

/// A run of text and, where its line named a known talker, that talker's index.
#[derive(Debug)]
pub struct TextChunk {
    text: String,
    talker_id: Option<u32>,
}

/// The mathematical value of a [`TextChunk`].
pub ghost struct TextView {
    pub content: Seq<char>,
    pub speaker: Option<u32>,
}

impl View for TextChunk {
    type V = TextView;

    closed spec fn view(&self) -> TextView {
        TextView { content: self.text@, speaker: self.talker_id }
    }
}

impl Clone for TextChunk {
    fn clone(&self) -> (r: Self)
        ensures
            r@ == self@,
    {
        TextChunk { text: self.text.clone(), talker_id: self.talker_id }
    }
}

impl TextChunk {
    /// A run of text spoken by the talker with the given index, if any.
    pub fn new(text: String, talker_id: Option<u32>) -> (r: Self)
        ensures
            r@ == (TextView { content: text@, speaker: talker_id }),
    {
        TextChunk { text, talker_id }
    }

    /// The text of the chunk.
    pub fn text(&self) -> (r: &str)
        ensures
            r@ == self@.content,
    {
        self.text.as_str()
    }

    /// Index of the talker who speaks the chunk, into the talkers of its file.
    pub fn talker_id(&self) -> (r: Option<u32>)
        ensures
            r == self@.speaker,
    {
        self.talker_id
    }
}

/// The atomic unit of a dialogue.
#[derive(Debug)]
pub enum Chunk {
    Text(TextChunk),
    Newline,
    Command(Command),
}

/// The mathematical value of a [`Chunk`].
pub ghost enum ChunkView {
    Text(TextView),
    Newline,
    Command(CommandView),
}

impl ChunkView {
    /// Ticks that revealing the chunk takes: one for each character of a
    /// text, counted up to `u32::MAX`; one for a newline; a command's own.
    pub open spec fn tick_len(self) -> nat {
        match self {
            ChunkView::Text(t) => if t.content.len() <= u32::MAX {
                t.content.len()
            } else {
                u32::MAX as nat
            },
            ChunkView::Newline => 1,
            ChunkView::Command(c) => c.tick_len(),
        }
    }

    /// Whether the chunk is the command that clears the page.
    pub open spec fn is_clear(self) -> bool {
        self == ChunkView::Command(CommandView::Clear)
    }
}

impl View for Chunk {
    type V = ChunkView;

    open spec fn view(&self) -> ChunkView {
        match *self {
            Chunk::Text(t) => ChunkView::Text(t@),
            Chunk::Newline => ChunkView::Newline,
            Chunk::Command(c) => ChunkView::Command(c@),
        }
    }
}

impl Clone for Chunk {
    fn clone(&self) -> (r: Self)
        ensures
            r@ == self@,
    {
        match self {
            Chunk::Text(t) => Chunk::Text(t.clone()),
            Chunk::Newline => Chunk::Newline,
            Chunk::Command(c) => Chunk::Command(c.clone()),
        }
    }
}

impl Chunk {
    /// Ticks that revealing the chunk takes.
    pub fn tick_len(&self) -> (r: u32)
        ensures
            r == self@.tick_len(),
    {
        match self {
            Chunk::Text(s) => {
                let n = s.text().unicode_len();
                if n > u32::MAX as usize {
                    u32::MAX
                } else {
                    n as u32
                }
            },
            Chunk::Newline => 1,
            Chunk::Command(c) => c.tick_len(),
        }
    }
}

/// The views of a sequence of chunks.
pub open spec fn chunk_views(chunks: Seq<Chunk>) -> Seq<ChunkView> {
    Seq::new(chunks.len(), |i: int| chunks[i]@)
}

/// A copy of `chunks`.
pub fn clone_chunks(chunks: &Vec<Chunk>) -> (r: Vec<Chunk>)
    ensures
        chunk_views(r@) == chunk_views(chunks@),
{
    let mut r: Vec<Chunk> = Vec::new();
    let mut i: usize = 0;
    while i < chunks.len()
        invariant
            i <= chunks.len(),
            chunk_views(r@) == chunk_views(chunks@).take(i as int),
        decreases chunks.len() - i,
    {
        let c = chunks[i].clone();
        assert(c@ == chunks@[i as int]@);
        let ghost before = chunk_views(r@);
        r.push(c);
        assert(chunk_views(r@) == before.push(c@));
        i += 1;
    }
    assert(chunk_views(chunks@).take(i as int) == chunk_views(chunks@));
    r
}

/// A named sequence of chunks from one section of one script file.
#[derive(Debug)]
pub struct Dialogue {
    pub name: String,
    pub filename: String,
    pub chunks: Vec<Chunk>,
}

/// The mathematical value of a [`Dialogue`].
pub ghost struct DialogueView {
    pub name: Seq<char>,
    pub filename: Seq<char>,
    pub chunks: Seq<ChunkView>,
}

impl DialogueView {
    /// Whether two dialogues are the same for queueing: their names and
    /// their files agree up to ASCII case. What they hold plays no part.
    pub open spec fn same_identity(self, other: DialogueView) -> bool {
        same_name(self.name, other.name) && same_name(self.filename, other.filename)
    }
}

impl View for Dialogue {
    type V = DialogueView;

    open spec fn view(&self) -> DialogueView {
        DialogueView {
            name: self.name@,
            filename: self.filename@,
            chunks: chunk_views(self.chunks@),
        }
    }
}

impl Clone for Dialogue {
    fn clone(&self) -> (r: Self)
        ensures
            r@ == self@,
    {
        Dialogue {
            name: self.name.clone(),
            filename: self.filename.clone(),
            chunks: clone_chunks(&self.chunks),
        }
    }
}

impl Default for Dialogue {
    fn default() -> (r: Self)
        ensures
            r@ == (DialogueView {
                name: Seq::empty(),
                filename: Seq::empty(),
                chunks: Seq::empty(),
            }),
    {
        let r = Dialogue { name: String::new(), filename: String::new(), chunks: Vec::new() };
        assert(chunk_views(r.chunks@) == Seq::<ChunkView>::empty());
        r
    }
}

/// The name and the file name of the dialogue that reports a failed lookup.
pub open spec fn error_name() -> Seq<char> {
    seq!['e', 'r', 'r', 'o', 'r']
}

impl Dialogue {
    /// The dialogue that stands in for one that could not be found: a single
    /// run of text that holds the message, under the name `error`.
    pub fn from_error(err: &str) -> (r: Self)
        ensures
            r@ == (DialogueView {
                name: error_name(),
                filename: error_name(),
                chunks: seq![ChunkView::Text(TextView { content: err@, speaker: None })],
            }),
    {
        proof {
            reveal_strlit("error");
            assert("error"@ == error_name());
        }
        let mut chunks: Vec<Chunk> = Vec::new();
        chunks.push(Chunk::Text(TextChunk::new(err.to_owned(), None)));
        let r = Dialogue { name: "error".to_owned(), filename: "error".to_owned(), chunks };
        assert(chunk_views(r.chunks@) == seq![
            ChunkView::Text(TextView { content: err@, speaker: None }),
        ]);
        r
    }

    /// Whether `other` has the same name and file up to ASCII case.
    pub fn name_eq(&self, other: &Self) -> (r: bool)
        ensures
            r == self@.same_identity(other@),
    {
        crate::text::eq_ascii(self.name.as_str(), other.name.as_str()) && crate::text::eq_ascii(
            self.filename.as_str(),
            other.filename.as_str(),
        )
    }
}

} // verus!
