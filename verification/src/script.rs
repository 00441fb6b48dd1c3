//! The script format: sections of dialogue and blocks of talker settings.

use vstd::prelude::*;
use vstd::string::*;
use crate::chunk::{chunk_views, Chunk, ChunkView, Dialogue, DialogueView, TextChunk, TextView};
use crate::command::{parse_command, Command, FormatFault};
use crate::talker::{find_talker, lookup_talker, talker_views, Talker, TalkerView};
use crate::text::{
    chars_of, copy_range, eq_ascii, find_char, first_index, lemma_prefix_len_bounds, lines,
    other_than, rows, same_name, split_at_first, split_lines, split_once, split_words, string_of,
    trim, trimmed, words,
};

verus! {

/// Whether the scanner passes over `line`: it is empty or a comment.
pub open spec fn is_skipped(line: Seq<char>) -> bool {
    line.len() == 0 || line[0] == '#'
}

/// Whether `line` opens a block.
pub open spec fn is_header(line: Seq<char>) -> bool {
    line.len() > 0 && line[0] == '['
}

/// Whether `s` stands in parentheses.
pub open spec fn in_parens(s: Seq<char>) -> bool {
    s.len() > 0 && s[0] == '(' && s.last() == ')'
}

/// What stands between the first and the last character of `s`.
pub open spec fn inner(s: Seq<char>) -> Seq<char> {
    s.subrange(1, s.len() - 1)
}

/// Whether `line` is a command on a line of its own: it stands in
/// parentheses and holds no slash.
pub open spec fn is_standalone(line: Seq<char>) -> bool {
    in_parens(line) && !line.contains('/')
}

/// The command in parentheses `s`, which must be one.
pub open spec fn required_command(s: Seq<char>) -> Result<ChunkView, FormatFault> {
    match parse_command(inner(s)) {
        Ok(Some(c)) => Ok(ChunkView::Command(c)),
        Ok(None) => Err(FormatFault::UnknownCommand),
        Err(e) => Err(e),
    }
}

/// The text `cur` with the word `word` behind it, a space between the two
/// unless `cur` is empty.
pub open spec fn join_word(cur: Seq<char>, word: Seq<char>) -> Seq<char> {
    if cur.len() > 0 {
        cur.push(' ') + word
    } else {
        word
    }
}

/// The chunks of the rest of a line, `words`, behind the chunks `done` and
/// the text `cur` gathered so far. A word in parentheses is a command: the
/// text so far becomes a chunk, the command follows it, and the text
/// starts anew. Any other word joins the text. At the end of the line the
/// text becomes a chunk, empty or not, and a newline follows.
pub open spec fn word_chunks(
    words: Seq<Seq<char>>,
    speaker: Option<u32>,
    done: Seq<ChunkView>,
    cur: Seq<char>,
) -> Result<Seq<ChunkView>, FormatFault>
    decreases words.len(),
{
    if words.len() == 0 {
        Ok(done.push(ChunkView::Text(TextView { content: cur, speaker })).push(ChunkView::Newline))
    } else if in_parens(words[0]) {
        match required_command(words[0]) {
            Ok(c) => word_chunks(
                words.drop_first(),
                speaker,
                done.push(ChunkView::Text(TextView { content: cur, speaker })).push(c),
                Seq::empty(),
            ),
            Err(e) => Err(e),
        }
    } else {
        word_chunks(words.drop_first(), speaker, done, join_word(cur, words[0]))
    }
}

/// The talker that `line` names before its first bar, if it names a known one.
pub open spec fn line_speaker(talkers: Seq<TalkerView>, line: Seq<char>) -> Option<u32> {
    match split_once(line, '|') {
        Some((who, rest)) => find_talker(talkers, trim(who)),
        None => None,
    }
}

/// What `line` says: what follows its first bar, or all of it without one.
pub open spec fn line_content(line: Seq<char>) -> Seq<char> {
    match split_once(line, '|') {
        Some((who, rest)) => trim(rest),
        None => line,
    }
}

/// The chunks of one line of a section: the one command of a standalone
/// command line, and else those of the line's words.
pub open spec fn line_chunks(talkers: Seq<TalkerView>, line: Seq<char>) -> Result<
    Seq<ChunkView>,
    FormatFault,
> {
    if is_standalone(line) {
        match required_command(line) {
            Ok(c) => Ok(seq![c]),
            Err(e) => Err(e),
        }
    } else {
        word_chunks(
            words(line_content(line)),
            line_speaker(talkers, line),
            Seq::empty(),
            Seq::empty(),
        )
    }
}

/// The chunks of the lines `body` of a section behind the chunks `done`,
/// up to the first fault.
pub open spec fn section_chunks(
    talkers: Seq<TalkerView>,
    body: Seq<Seq<char>>,
    done: Seq<ChunkView>,
) -> Result<Seq<ChunkView>, FormatFault>
    decreases body.len(),
{
    if body.len() == 0 {
        Ok(done)
    } else if is_skipped(body[0]) {
        section_chunks(talkers, body.drop_first(), done)
    } else {
        match line_chunks(talkers, body[0]) {
            Ok(c) => section_chunks(talkers, body.drop_first(), done + c),
            Err(e) => Err(e),
        }
    }
}

/// The talker `t` after the lines `body` of its block, up to the first fault.
pub open spec fn talker_block(t: TalkerView, body: Seq<Seq<char>>) -> Result<
    TalkerView,
    FormatFault,
>
    decreases body.len(),
{
    if body.len() == 0 {
        Ok(t)
    } else if is_skipped(body[0]) {
        talker_block(t, body.drop_first())
    } else {
        match t.with_line(body[0]) {
            Ok(next) => talker_block(next, body.drop_first()),
            Err(e) => Err(e),
        }
    }
}

/// Where the block that begins at line `from` ends: at the next header, or
/// at the end of the lines.
pub open spec fn block_end(lines: Seq<Seq<char>>, from: int) -> int
    decreases lines.len() - from,
{
    if 0 <= from < lines.len() && !is_header(lines[from]) {
        block_end(lines, from + 1)
    } else {
        from
    }
}

/// A block ends at or after its start and within the lines.
pub proof fn lemma_block_end_bounds(lines: Seq<Seq<char>>, from: int)
    requires
        0 <= from <= lines.len(),
    ensures
        from <= block_end(lines, from) <= lines.len(),
    decreases lines.len() - from,
{
    if from < lines.len() && !is_header(lines[from]) {
        lemma_block_end_bounds(lines, from + 1);
    }
}

/// The name in the header `line`, which must end with a closing bracket.
pub open spec fn header_name(line: Seq<char>) -> Option<Seq<char>> {
    if line.len() >= 2 && line.last() == ']' {
        Some(inner(line))
    } else {
        None
    }
}

/// The keyword `talker`.
pub open spec fn kw_talker() -> Seq<char> {
    seq!['t', 'a', 'l', 'k', 'e', 'r']
}

/// The name of the talker that a header opens the block of: what follows
/// the first space, where the word before it is `talker` in any case.
pub open spec fn talker_header(name: Seq<char>) -> Option<Seq<char>> {
    match split_once(name, ' ') {
        Some((keyword, rest)) => if same_name(keyword, kw_talker()) {
            Some(rest)
        } else {
            None
        },
        None => None,
    }
}

/// The mathematical value of a [`DialogueFile`].
pub ghost struct FileView {
    pub talkers: Seq<TalkerView>,
    pub sections: Seq<DialogueView>,
}

/// The file that the lines from `i` on add to `file`. Lines to skip are
/// passed over. A header opens a block that runs to the next header: a
/// talker's settings, or a section, whose lines can name the talkers
/// declared before it. Content before the first header, a header without
/// its closing bracket and a fault within a block end the scan.
pub open spec fn parse_blocks(
    filename: Seq<char>,
    lines: Seq<Seq<char>>,
    i: int,
    file: FileView,
) -> Result<FileView, FormatFault>
    decreases lines.len() - i,
{
    if i < 0 || i >= lines.len() {
        Ok(file)
    } else if is_skipped(lines[i]) {
        parse_blocks(filename, lines, i + 1, file)
    } else if !is_header(lines[i]) {
        Err(FormatFault::StrayContent)
    } else {
        match header_name(lines[i]) {
            None => Err(FormatFault::UnterminatedSection),
            Some(name) => {
                let end = block_end(lines, i + 1);
                let body = lines.subrange(i + 1, end);
                proof {
                    lemma_block_end_bounds(lines, i + 1);
                }
                match talker_header(name) {
                    Some(who) => match talker_block(TalkerView::named(who), body) {
                        Ok(t) => parse_blocks(
                            filename,
                            lines,
                            end,
                            FileView { talkers: file.talkers.push(t), ..file },
                        ),
                        Err(e) => Err(e),
                    },
                    None => match section_chunks(file.talkers, body, Seq::empty()) {
                        Ok(chunks) => parse_blocks(
                            filename,
                            lines,
                            end,
                            FileView {
                                sections: file.sections.push(
                                    DialogueView { name, filename, chunks },
                                ),
                                ..file
                            },
                        ),
                        Err(e) => Err(e),
                    },
                }
            },
        }
    }
}

/// The file that the script `contents` spells, under the name `filename`.
pub open spec fn parse_script(filename: Seq<char>, contents: Seq<char>) -> Result<
    FileView,
    FormatFault,
> {
    parse_blocks(
        filename,
        lines(contents),
        0,
        FileView { talkers: Seq::empty(), sections: Seq::empty() },
    )
}

/// Position of the first of `sections` from `from` on whose name is `name`
/// up to ASCII case.
pub open spec fn section_index(sections: Seq<DialogueView>, name: Seq<char>, from: int) -> Option<
    int,
>
    decreases sections.len() - from,
{
    if from < 0 || from >= sections.len() {
        None
    } else if same_name(name, sections[from].name) {
        Some(from)
    } else {
        section_index(sections, name, from + 1)
    }
}

/// The talkers and the sections of one script file, in the order of the file.
#[derive(Debug)]
pub struct DialogueFile {
    pub talkers: Vec<Talker>,
    pub sections: Vec<Dialogue>,
}

/// The views of a sequence of dialogues.
pub open spec fn dialogue_views(sections: Seq<Dialogue>) -> Seq<DialogueView> {
    Seq::new(sections.len(), |i: int| sections[i]@)
}

impl View for DialogueFile {
    type V = FileView;

    open spec fn view(&self) -> FileView {
        FileView {
            talkers: talker_views(self.talkers@),
            sections: dialogue_views(self.sections@),
        }
    }
}

impl Default for DialogueFile {
    fn default() -> (r: Self)
        ensures
            r@ == (FileView { talkers: Seq::empty(), sections: Seq::empty() }),
    {
        let r = DialogueFile { talkers: Vec::new(), sections: Vec::new() };
        assert(r@.talkers == Seq::<TalkerView>::empty());
        assert(r@.sections == Seq::<DialogueView>::empty());
        r
    }
}

impl Clone for DialogueFile {
    fn clone(&self) -> (r: Self)
        ensures
            r@ == self@,
    {
        let mut talkers: Vec<Talker> = Vec::new();
        let mut i: usize = 0;
        while i < self.talkers.len()
            invariant
                i <= self.talkers.len(),
                talker_views(talkers@) == talker_views(self.talkers@).take(i as int),
            decreases self.talkers.len() - i,
        {
            let t = self.talkers[i].clone();
            let ghost before = talker_views(talkers@);
            talkers.push(t);
            assert(talker_views(talkers@) == before.push(t@));
            i += 1;
        }
        assert(talker_views(self.talkers@).take(i as int) == talker_views(self.talkers@));
        let mut sections: Vec<Dialogue> = Vec::new();
        let mut k: usize = 0;
        while k < self.sections.len()
            invariant
                k <= self.sections.len(),
                dialogue_views(sections@) == dialogue_views(self.sections@).take(k as int),
            decreases self.sections.len() - k,
        {
            let d = self.sections[k].clone();
            let ghost before = dialogue_views(sections@);
            sections.push(d);
            assert(dialogue_views(sections@) == before.push(d@));
            k += 1;
        }
        assert(dialogue_views(self.sections@).take(k as int) == dialogue_views(self.sections@));
        DialogueFile { talkers, sections }
    }
}

/// Whether the scanner passes over `line`.
fn line_is_skipped(line: &Vec<char>) -> (r: bool)
    ensures
        r == is_skipped(line@),
{
    line.len() == 0 || line[0] == '#'
}

/// Whether `line` opens a block.
fn line_is_header(line: &Vec<char>) -> (r: bool)
    ensures
        r == is_header(line@),
{
    line.len() > 0 && line[0] == '['
}

/// Whether `s` stands in parentheses.
fn stands_in_parens(s: &Vec<char>) -> (r: bool)
    ensures
        r == in_parens(s@),
{
    s.len() > 0 && s[0] == '(' && s[s.len() - 1] == ')'
}

/// Whether `s` holds the character `c`.
fn holds(s: &Vec<char>, c: char) -> (r: bool)
    ensures
        r == s@.contains(c),
{
    let k = find_char(s, 0, c);
    proof {
        assert(s@.skip(0) == s@);
        lemma_prefix_len_bounds(s@, other_than(c));
        if k < s.len() {
            assert(s@[k as int] == c);
        } else {
            assert forall|j: int| 0 <= j < s.len() implies s@[j] != c by {
                assert(other_than(c)(s@[j]));
            }
        }
    }
    k < s.len()
}

/// The command in parentheses `s`.
fn command_chunk(s: &Vec<char>) -> (r: Result<Chunk, FormatFault>)
    requires
        in_parens(s@),
    ensures
        match r {
            Ok(c) => required_command(s@) == Ok::<ChunkView, FormatFault>(c@),
            Err(e) => required_command(s@) == Err::<ChunkView, FormatFault>(e),
        },
{
    let middle = if s.len() >= 2 {
        copy_range(s, 1, s.len() - 1)
    } else {
        Vec::new()
    };
    assert(middle@ == inner(s@));
    match Command::parse_chars(&middle) {
        Ok(Some(c)) => Ok(Chunk::Command(c)),
        Ok(None) => Err(FormatFault::UnknownCommand),
        Err(e) => Err(e),
    }
}

/// The chunks of the words of one line.
fn parse_words(tokens: &Vec<Vec<char>>, talker_id: Option<u32>) -> (r: Result<
    Vec<Chunk>,
    FormatFault,
>)
    ensures
        match r {
            Ok(chunks) => word_chunks(rows(tokens@), talker_id, Seq::empty(), Seq::empty()) == Ok::<
                Seq<ChunkView>,
                FormatFault,
            >(chunk_views(chunks@)),
            Err(e) => word_chunks(rows(tokens@), talker_id, Seq::empty(), Seq::empty()) == Err::<
                Seq<ChunkView>,
                FormatFault,
            >(e),
        },
{
    let mut chunks: Vec<Chunk> = Vec::new();
    let mut cur: Vec<char> = Vec::new();
    let mut k: usize = 0;
    let ghost all = rows(tokens@);
    proof {
        assert(all.skip(0) == all);
        assert(chunk_views(chunks@) == Seq::<ChunkView>::empty());
    }
    while k < tokens.len()
        invariant
            k <= tokens.len(),
            all == rows(tokens@),
            word_chunks(all, talker_id, Seq::empty(), Seq::empty()) == word_chunks(
                all.skip(k as int),
                talker_id,
                chunk_views(chunks@),
                cur@,
            ),
        decreases tokens.len() - k,
    {
        let token = &tokens[k];
        proof {
            assert(all.skip(k as int)[0] == token@);
            assert(all.skip(k as int).drop_first() == all.skip(k + 1));
        }
        if stands_in_parens(token) {
            match command_chunk(token) {
                Ok(c) => {
                    let text = Chunk::Text(TextChunk::new(string_of(&cur), talker_id));
                    let ghost before = chunk_views(chunks@);
                    chunks.push(text);
                    chunks.push(c);
                    assert(chunk_views(chunks@) == before.push(text@).push(c@));
                    cur = Vec::new();
                },
                Err(e) => {
                    return Err(e);
                },
            }
        } else {
            let ghost before = cur@;
            if cur.len() > 0 {
                cur.push(' ');
            }
            let mut j: usize = 0;
            while j < token.len()
                invariant
                    j <= token.len(),
                    cur@ == (if before.len() > 0 {
                        before.push(' ')
                    } else {
                        before
                    }) + token@.take(j as int),
                decreases token.len() - j,
            {
                cur.push(token[j]);
                j += 1;
            }
            assert(token@.take(j as int) == token@);
            assert(cur@ == join_word(before, token@));
        }
        k += 1;
    }
    let text = Chunk::Text(TextChunk::new(string_of(&cur), talker_id));
    let ghost before = chunk_views(chunks@);
    chunks.push(text);
    chunks.push(Chunk::Newline);
    assert(chunk_views(chunks@) == before.push(text@).push(ChunkView::Newline));
    Ok(chunks)
}

/// The chunks of one line of a section.
fn parse_line(talkers: &Vec<Talker>, line: &Vec<char>) -> (r: Result<Vec<Chunk>, FormatFault>)
    ensures
        match r {
            Ok(chunks) => line_chunks(talker_views(talkers@), line@) == Ok::<
                Seq<ChunkView>,
                FormatFault,
            >(chunk_views(chunks@)),
            Err(e) => line_chunks(talker_views(talkers@), line@) == Err::<
                Seq<ChunkView>,
                FormatFault,
            >(e),
        },
{
    if stands_in_parens(line) && !holds(line, '/') {
        match command_chunk(line) {
            Ok(c) => {
                let mut chunks: Vec<Chunk> = Vec::new();
                chunks.push(c);
                assert(chunk_views(chunks@) == seq![c@]);
                Ok(chunks)
            },
            Err(e) => Err(e),
        }
    } else {
        match split_at_first(line, '|') {
            Some((who, rest)) => {
                let name = string_of(&trimmed(&who));
                let talker_id = lookup_talker(talkers, name.as_str());
                let content = trimmed(&rest);
                let tokens = split_words(&content);
                parse_words(&tokens, talker_id)
            },
            None => {
                let tokens = split_words(line);
                parse_words(&tokens, None)
            },
        }
    }
}

impl DialogueFile {
    /// Reads the block of the talker `name` from line `i` on, and leaves
    /// `i` at the line behind the block.
    pub fn parse_talker(name: &str, lines: &Vec<Vec<char>>, i: &mut usize) -> (r: Result<
        Talker,
        FormatFault,
    >)
        requires
            *old(i) <= lines.len(),
        ensures
            *old(i) <= *final(i) <= lines.len(),
            ({
                let end = block_end(rows(lines@), *old(i) as int);
                let block = talker_block(
                    TalkerView::named(name@),
                    rows(lines@).subrange(*old(i) as int, end),
                );
                match r {
                    Ok(t) => *final(i) == end && block == Ok::<TalkerView, FormatFault>(t@),
                    Err(e) => block == Err::<TalkerView, FormatFault>(e),
                }
            }),
    {
        let mut talker = Talker::new(name.to_owned());
        let ghost all = rows(lines@);
        let ghost start = *i as int;
        let ghost end = block_end(all, start);
        proof {
            lemma_block_end_bounds(all, start);
        }
        while *i < lines.len() && !line_is_header(&lines[*i])
            invariant
                start == *old(i),
                end == block_end(all, start),
                start <= *i <= end <= lines.len(),
                all == rows(lines@),
                block_end(all, *i as int) == end,
                talker_block(TalkerView::named(name@), all.subrange(start, end)) == talker_block(
                    talker@,
                    all.subrange(*i as int, end),
                ),
            decreases lines.len() - *i,
        {
            let line = &lines[*i];
            proof {
                assert(all[*i as int] == line@);
                lemma_block_end_bounds(all, *i + 1);
                let body = all.subrange(*i as int, end);
                assert(body[0] == line@);
                assert(body.drop_first() == all.subrange(*i + 1, end));
            }
            if !line_is_skipped(line) {
                match talker.set_from_line(line) {
                    Ok(()) => {},
                    Err(e) => {
                        return Err(e);
                    },
                }
            }
            *i += 1;
        }
        proof {
            if *i < lines.len() {
                assert(all[*i as int] == lines@[*i as int]@);
            }
            assert(all.subrange(*i as int, end).len() == 0);
        }
        Ok(talker)
    }

    /// Reads the section `name` of the file `filename` from line `i` on,
    /// and leaves `i` at the line behind the section.
    pub fn parse_section(
        talkers: &Vec<Talker>,
        filename: &str,
        name: &str,
        lines: &Vec<Vec<char>>,
        i: &mut usize,
    ) -> (r: Result<Dialogue, FormatFault>)
        requires
            *old(i) <= lines.len(),
        ensures
            *old(i) <= *final(i) <= lines.len(),
            ({
                let end = block_end(rows(lines@), *old(i) as int);
                let chunks = section_chunks(
                    talker_views(talkers@),
                    rows(lines@).subrange(*old(i) as int, end),
                    Seq::empty(),
                );
                match r {
                    Ok(d) => *final(i) == end && chunks == Ok::<Seq<ChunkView>, FormatFault>(
                        d@.chunks,
                    ) && d@.name == name@ && d@.filename == filename@,
                    Err(e) => chunks == Err::<Seq<ChunkView>, FormatFault>(e),
                }
            }),
    {
        let mut chunks: Vec<Chunk> = Vec::new();
        let ghost all = rows(lines@);
        let ghost start = *i as int;
        let ghost end = block_end(all, start);
        let ghost known = talker_views(talkers@);
        proof {
            lemma_block_end_bounds(all, start);
            assert(chunk_views(chunks@) == Seq::<ChunkView>::empty());
        }
        while *i < lines.len() && !line_is_header(&lines[*i])
            invariant
                start == *old(i),
                end == block_end(all, start),
                start <= *i <= end <= lines.len(),
                all == rows(lines@),
                known == talker_views(talkers@),
                block_end(all, *i as int) == end,
                section_chunks(known, all.subrange(start, end), Seq::empty()) == section_chunks(
                    known,
                    all.subrange(*i as int, end),
                    chunk_views(chunks@),
                ),
            decreases lines.len() - *i,
        {
            let line = &lines[*i];
            proof {
                assert(all[*i as int] == line@);
                lemma_block_end_bounds(all, *i + 1);
                let body = all.subrange(*i as int, end);
                assert(body[0] == line@);
                assert(body.drop_first() == all.subrange(*i + 1, end));
            }
            if !line_is_skipped(line) {
                match parse_line(talkers, line) {
                    Ok(mut more) => {
                        let ghost before = chunk_views(chunks@);
                        let ghost added = chunk_views(more@);
                        chunks.append(&mut more);
                        assert(chunk_views(chunks@) == before + added);
                    },
                    Err(e) => {
                        return Err(e);
                    },
                }
            }
            *i += 1;
        }
        proof {
            if *i < lines.len() {
                assert(all[*i as int] == lines@[*i as int]@);
            }
            assert(all.subrange(*i as int, end).len() == 0);
        }
        Ok(Dialogue { name: name.to_owned(), filename: filename.to_owned(), chunks })
    }

    /// The file that the script `contents` spells, under the name
    /// `filename`: its talkers and its sections in their order, or the
    /// first fault of the script.
    pub fn parse_contents(filename: &str, contents: &str) -> (r: Result<DialogueFile, FormatFault>)
        ensures
            match r {
                Ok(f) => parse_script(filename@, contents@) == Ok::<FileView, FormatFault>(f@),
                Err(e) => parse_script(filename@, contents@) == Err::<FileView, FormatFault>(e),
            },
    {
        let chars = chars_of(contents);
        let lines = split_lines(&chars);
        let mut talkers: Vec<Talker> = Vec::new();
        let mut sections: Vec<Dialogue> = Vec::new();
        let ghost all = rows(lines@);
        let mut i: usize = 0;
        proof {
            assert(talker_views(talkers@) == Seq::<TalkerView>::empty());
            assert(dialogue_views(sections@) == Seq::<DialogueView>::empty());
            reveal_strlit("talker");
            assert("talker"@ == kw_talker());
        }
        while i < lines.len()
            invariant
                i <= lines.len(),
                all == rows(lines@),
                all == crate::text::lines(contents@),
                "talker"@ == kw_talker(),
                parse_script(filename@, contents@) == parse_blocks(
                    filename@,
                    all,
                    i as int,
                    FileView {
                        talkers: talker_views(talkers@),
                        sections: dialogue_views(sections@),
                    },
                ),
            decreases lines.len() - i,
        {
            let line = &lines[i];
            assert(all[i as int] == line@);
            if line_is_skipped(line) {
                i += 1;
            } else if !line_is_header(line) {
                return Err(FormatFault::StrayContent);
            } else {
                let n = line.len();
                if n < 2 || line[n - 1] != ']' {
                    return Err(FormatFault::UnterminatedSection);
                }
                let header = copy_range(line, 1, n - 1);
                assert(header_name(line@) == Some(header@));
                i += 1;
                let who = match split_at_first(&header, ' ') {
                    Some((keyword, rest)) => {
                        if eq_ascii(string_of(&keyword).as_str(), "talker") {
                            Some(rest)
                        } else {
                            None
                        }
                    },
                    None => None,
                };
                assert(match who {
                    Some(w) => talker_header(header@) == Some(w@),
                    None => talker_header(header@) is None,
                });
                proof {
                    lemma_block_end_bounds(all, i as int);
                }
                match who {
                    Some(w) => {
                        let name = string_of(&w);
                        match DialogueFile::parse_talker(name.as_str(), &lines, &mut i) {
                            Ok(t) => {
                                let ghost before = talker_views(talkers@);
                                talkers.push(t);
                                assert(talker_views(talkers@) == before.push(t@));
                            },
                            Err(e) => {
                                return Err(e);
                            },
                        }
                    },
                    None => {
                        let name = string_of(&header);
                        match DialogueFile::parse_section(
                            &talkers,
                            filename,
                            name.as_str(),
                            &lines,
                            &mut i,
                        ) {
                            Ok(d) => {
                                let ghost before = dialogue_views(sections@);
                                sections.push(d);
                                assert(dialogue_views(sections@) == before.push(d@));
                            },
                            Err(e) => {
                                return Err(e);
                            },
                        }
                    },
                }
            }
        }
        Ok(DialogueFile { talkers, sections })
    }

    /// The first section whose name is `section_name` up to ASCII case.
    pub fn get(&self, section_name: &str) -> (r: Option<&Dialogue>)
        ensures
            match r {
                Some(d) => section_index(self@.sections, section_name@, 0) matches Some(k) && d@
                    == self@.sections[k] && 0 <= k < self.sections.len() && *d
                    == self.sections@[k],
                None => section_index(self@.sections, section_name@, 0) is None,
            },
    {
        let mut i: usize = 0;
        while i < self.sections.len()
            invariant
                i <= self.sections.len(),
                section_index(self@.sections, section_name@, 0) == section_index(
                    self@.sections,
                    section_name@,
                    i as int,
                ),
            decreases self.sections.len() - i,
        {
            assert(self@.sections[i as int] == self.sections@[i as int]@);
            if eq_ascii(section_name, self.sections[i].name.as_str()) {
                return Some(&self.sections[i]);
            }
            i += 1;
        }
        None
    }
}

} // verus!
