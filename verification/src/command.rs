//! Inline directives of a dialogue script.

use vstd::prelude::*;
use vstd::string::*;
use crate::number::{parse_number, parse_scaled, scaled};
use crate::text::{chars_of, copy_range, eq_ascii, push_char, same_name, split_words, string_of, words};

verus! {

/// What can be wrong with the text of a script.
#[derive(Copy, Clone, Debug, PartialEq, Eq, Structural)]
pub enum FormatFault {
    /// A parenthesised line or word that names no command.
    UnknownCommand,
    /// A wait whose duration is no number.
    BadDuration,
    /// A speaker command without a name.
    MissingArgument,
    /// A section header without its closing bracket.
    UnterminatedSection,
    /// A line of content before the first section header.
    StrayContent,
    /// A talker's rate that is no number.
    BadRate,
}

/// A style that a stretch of text can carry.
#[derive(Copy, Clone, Debug, PartialEq, Eq, Structural)]
pub enum Annotation {
    Jiggly,
    Wide,
}

/// A directive written in parentheses, inside a line or on a line of its own.
#[derive(Debug)]
pub enum Command {
    AnnotationStart(Annotation),
    AnnotationEnd(Annotation),
    Speaker(String),
    Wait(u32),
    Clear,
}

/// The mathematical value of a [`Command`].
pub ghost enum CommandView {
    AnnotationStart(Annotation),
    AnnotationEnd(Annotation),
    Speaker(Seq<char>),
    Wait(u32),
    Clear,
}

impl CommandView {
    /// Ticks that the command takes: its delay for a wait, none for the rest.
    pub open spec fn tick_len(self) -> nat {
        match self {
            CommandView::Wait(delay) => delay as nat,
            _ => 0,
        }
    }
}

impl View for Command {
    type V = CommandView;

    open spec fn view(&self) -> CommandView {
        match *self {
            Command::AnnotationStart(a) => CommandView::AnnotationStart(a),
            Command::AnnotationEnd(a) => CommandView::AnnotationEnd(a),
            Command::Speaker(name) => CommandView::Speaker(name@),
            Command::Wait(delay) => CommandView::Wait(delay),
            Command::Clear => CommandView::Clear,
        }
    }
}

impl Clone for Command {
    fn clone(&self) -> (r: Self)
        ensures
            r@ == self@,
    {
        match self {
            Command::AnnotationStart(a) => Command::AnnotationStart(*a),
            Command::AnnotationEnd(a) => Command::AnnotationEnd(*a),
            Command::Speaker(name) => Command::Speaker(name.clone()),
            Command::Wait(delay) => Command::Wait(*delay),
            Command::Clear => Command::Clear,
        }
    }
}

impl Command {
    /// Ticks that the command takes: its delay for a wait, none for the rest.
    pub fn tick_len(&self) -> (r: u32)
        ensures
            r == self@.tick_len(),
    {
        match *self {
            Command::Wait(delay) => delay,
            _ => 0,
        }
    }
}

/// Ticks of a wait that names no duration.
pub const DEFAULT_WAIT: u32 = 60;

/// The keyword `clear`.
pub open spec fn kw_clear() -> Seq<char> {
    seq!['c', 'l', 'e', 'a', 'r']
}

/// The keyword `wait`.
pub open spec fn kw_wait() -> Seq<char> {
    seq!['w', 'a', 'i', 't']
}

/// The keyword `speaker`.
pub open spec fn kw_speaker() -> Seq<char> {
    seq!['s', 'p', 'e', 'a', 'k', 'e', 'r']
}

/// The keyword `jiggle`.
pub open spec fn kw_jiggle() -> Seq<char> {
    seq!['j', 'i', 'g', 'g', 'l', 'e']
}

/// The keyword `wide`.
pub open spec fn kw_wide() -> Seq<char> {
    seq!['w', 'i', 'd', 'e']
}

/// Whether `input` names the command `name`: it is the keyword or the
/// keyword's first letter, in any case.
pub open spec fn names_command(input: Seq<char>, name: Seq<char>) -> bool {
    same_name(input, name) || same_name(input, name.take(1))
}

/// Whether `input` names the end of `name`: a slash and then the keyword or
/// its first letter, in any case.
pub open spec fn names_end_command(input: Seq<char>, name: Seq<char>) -> bool {
    same_name(input, seq!['/'] + name) || same_name(input, seq!['/'] + name.take(1))
}

/// Whether `s` ends with `suffix`.
pub open spec fn ends_with(s: Seq<char>, suffix: Seq<char>) -> bool {
    s.len() >= suffix.len() && s.skip(s.len() - suffix.len()) == suffix
}

/// The number that `s` spells, times `mult` and ten to the power `shift`,
/// as a whole count; `None` where `s` spells no number.
pub open spec fn number_scaled(s: Seq<char>, mult: nat, shift: int) -> Option<u32> {
    match parse_number(s) {
        Some(n) => Some(scaled(n, mult, shift)),
        None => None,
    }
}

/// The ticks that the duration `arg` stands for, at 60 ticks to the second:
/// a number before `ms` counts milliseconds, one before `s` seconds, and a
/// bare one ticks. `None` where the number is none.
pub open spec fn wait_ticks(arg: Seq<char>) -> Option<u32> {
    if ends_with(arg, seq!['m', 's']) {
        number_scaled(arg.take(arg.len() - 2), 6, -2)
    } else if ends_with(arg, seq!['s']) {
        number_scaled(arg.take(arg.len() - 1), 6, 1)
    } else {
        number_scaled(arg, 1, 0)
    }
}

/// The command that the text between a pair of parentheses spells. Its
/// first word picks the command, in this order: clear, wait, speaker,
/// jiggle, end of jiggle, wide, end of wide; so the letter `w` alone is a
/// wait. Words behind what a command needs are not looked at. A text
/// without words, or with another first word, spells no command.
pub open spec fn parse_command(s: Seq<char>) -> Result<Option<CommandView>, FormatFault> {
    let w = words(s);
    if w.len() == 0 {
        Ok(None)
    } else if names_command(w[0], kw_clear()) {
        Ok(Some(CommandView::Clear))
    } else if names_command(w[0], kw_wait()) {
        if w.len() == 1 {
            Ok(Some(CommandView::Wait(DEFAULT_WAIT)))
        } else {
            match wait_ticks(w[1]) {
                Some(t) => Ok(Some(CommandView::Wait(t))),
                None => Err(FormatFault::BadDuration),
            }
        }
    } else if names_command(w[0], kw_speaker()) {
        if w.len() == 1 {
            Err(FormatFault::MissingArgument)
        } else {
            Ok(Some(CommandView::Speaker(w[1])))
        }
    } else if names_command(w[0], kw_jiggle()) {
        Ok(Some(CommandView::AnnotationStart(Annotation::Jiggly)))
    } else if names_end_command(w[0], kw_jiggle()) {
        Ok(Some(CommandView::AnnotationEnd(Annotation::Jiggly)))
    } else if names_command(w[0], kw_wide()) {
        Ok(Some(CommandView::AnnotationStart(Annotation::Wide)))
    } else if names_end_command(w[0], kw_wide()) {
        Ok(Some(CommandView::AnnotationEnd(Annotation::Wide)))
    } else {
        Ok(None)
    }
}

/// The view of what parsing a command gave.
pub open spec fn command_result(r: Result<Option<Command>, FormatFault>) -> Result<
    Option<CommandView>,
    FormatFault,
> {
    match r {
        Ok(Some(c)) => Ok(Some(c@)),
        Ok(None) => Ok(None),
        Err(e) => Err(e),
    }
}

/// Whether `input` names the command `name`.
fn is_command(input: &str, name: &str) -> (r: bool)
    requires
        name@.len() >= 1,
    ensures
        r == names_command(input@, name@),
{
    eq_ascii(input, name) || eq_ascii(input, name.substring_char(0, 1))
}

/// Whether `input` names the end of the command `name`.
fn is_end_command(input: &str, name: &str) -> (r: bool)
    requires
        name@.len() >= 1,
    ensures
        r == names_end_command(input@, name@),
{
    let mut long = String::new();
    push_char(&mut long, '/');
    long.append(name);
    let mut short = String::new();
    push_char(&mut short, '/');
    short.append(name.substring_char(0, 1));
    proof {
        assert(long@ == seq!['/'] + name@);
        assert(short@ == seq!['/'] + name@.take(1));
    }
    eq_ascii(input, long.as_str()) || eq_ascii(input, short.as_str())
}

/// The ticks that the duration `arg` stands for.
pub fn wait_duration(arg: &Vec<char>) -> (r: Option<u32>)
    ensures
        r == wait_ticks(arg@),
{
    let n = arg.len();
    if n >= 2 && arg[n - 2] == 'm' && arg[n - 1] == 's' {
        assert(arg@.skip(n - 2) == seq!['m', 's']);
        let number = copy_range(arg, 0, n - 2);
        parse_scaled(&number, 6, -2)
    } else if n >= 1 && arg[n - 1] == 's' {
        proof {
            assert(arg@.skip(n - 1) == seq!['s']);
            if n >= 2 {
                assert(arg@.skip(n - 2)[0] == arg@[n - 2]);
                assert(arg@.skip(n - 2)[1] == arg@[n - 1]);
                assert(seq!['m', 's'][0] == 'm');
            }
        }
        let number = copy_range(arg, 0, n - 1);
        parse_scaled(&number, 6, 1)
    } else {
        proof {
            if n >= 1 {
                assert(arg@.skip(n - 1)[0] == arg@[n - 1]);
                assert(seq!['s'][0] == 's');
            }
            if n >= 2 {
                assert(arg@.skip(n - 2)[1] == arg@[n - 1]);
                assert(seq!['m', 's'][1] == 's');
            }
        }
        parse_scaled(arg, 1, 0)
    }
}

impl Command {
    /// The command that the characters between a pair of parentheses spell.
    pub fn parse_chars(s: &Vec<char>) -> (r: Result<Option<Command>, FormatFault>)
        ensures
            command_result(r) == parse_command(s@),
    {
        let w = split_words(s);
        if w.len() == 0 {
            return Ok(None);
        }
        assert(words(s@)[0] == w@[0]@);
        let first = string_of(&w[0]);
        let command = first.as_str();
        proof {
            reveal_strlit("clear");
            reveal_strlit("wait");
            reveal_strlit("speaker");
            reveal_strlit("jiggle");
            reveal_strlit("wide");
            assert("clear"@ == kw_clear());
            assert("wait"@ == kw_wait());
            assert("speaker"@ == kw_speaker());
            assert("jiggle"@ == kw_jiggle());
            assert("wide"@ == kw_wide());
        }
        if is_command(command, "clear") {
            Ok(Some(Command::Clear))
        } else if is_command(command, "wait") {
            if w.len() == 1 {
                Ok(Some(Command::Wait(DEFAULT_WAIT)))
            } else {
                assert(words(s@)[1] == w@[1]@);
                match wait_duration(&w[1]) {
                    Some(t) => Ok(Some(Command::Wait(t))),
                    None => Err(FormatFault::BadDuration),
                }
            }
        } else if is_command(command, "speaker") {
            if w.len() == 1 {
                Err(FormatFault::MissingArgument)
            } else {
                assert(words(s@)[1] == w@[1]@);
                Ok(Some(Command::Speaker(string_of(&w[1]))))
            }
        } else if is_command(command, "jiggle") {
            Ok(Some(Command::AnnotationStart(Annotation::Jiggly)))
        } else if is_end_command(command, "jiggle") {
            Ok(Some(Command::AnnotationEnd(Annotation::Jiggly)))
        } else if is_command(command, "wide") {
            Ok(Some(Command::AnnotationStart(Annotation::Wide)))
        } else if is_end_command(command, "wide") {
            Ok(Some(Command::AnnotationEnd(Annotation::Wide)))
        } else {
            Ok(None)
        }
    }

    /// The command that the text between a pair of parentheses spells:
    /// `Ok(None)` where it spells none, and a fault where a wait's duration
    /// is no number or a speaker has no name.
    pub fn parse(s: &str) -> (r: Result<Option<Command>, FormatFault>)
        ensures
            command_result(r) == parse_command(s@),
    {
        let chars = chars_of(s);
        Command::parse_chars(&chars)
    }
}

} // verus!
