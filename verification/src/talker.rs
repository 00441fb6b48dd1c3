//! Speaker profiles of a script file.

use vstd::prelude::*;
use vstd::string::*;
use crate::command::{number_scaled, FormatFault};
use crate::number::parse_scaled;
use crate::text::{
    eq_ascii, same_name, split_at_first, split_once, string_of, trim, trimmed,
};

verus! {

/// Parts of a tick per character that a reveal rate is counted in.
pub const RATE_UNITS: u32 = 1000;

/// A named speaker: the sprite and the sound that go with its lines, and
/// where it has one, its own reveal rate in thousandths of a tick per
/// character.
#[derive(Debug)]
pub struct Talker {
    pub name: String,
    pub sprite: String,
    pub sound: String,
    pub rate: Option<u32>,
}

/// The mathematical value of a [`Talker`].
pub ghost struct TalkerView {
    pub name: Seq<char>,
    pub sprite: Seq<char>,
    pub sound: Seq<char>,
    pub rate: Option<u32>,
}

impl View for Talker {
    type V = TalkerView;

    open spec fn view(&self) -> TalkerView {
        TalkerView {
            name: self.name@,
            sprite: self.sprite@,
            sound: self.sound@,
            rate: self.rate,
        }
    }
}

impl Clone for Talker {
    fn clone(&self) -> (r: Self)
        ensures
            r@ == self@,
    {
        Talker {
            name: self.name.clone(),
            sprite: self.sprite.clone(),
            sound: self.sound.clone(),
            rate: self.rate,
        }
    }
}

impl Default for Talker {
    fn default() -> (r: Self)
        ensures
            r@ == TalkerView::named(Seq::empty()),
    {
        Talker { name: String::new(), sprite: String::new(), sound: String::new(), rate: None }
    }
}

/// The views of a sequence of talkers.
pub open spec fn talker_views(talkers: Seq<Talker>) -> Seq<TalkerView> {
    Seq::new(talkers.len(), |i: int| talkers[i]@)
}

/// The field name `sprite`.
pub open spec fn kw_sprite() -> Seq<char> {
    seq!['s', 'p', 'r', 'i', 't', 'e']
}

/// The field name `sound`.
pub open spec fn kw_sound() -> Seq<char> {
    seq!['s', 'o', 'u', 'n', 'd']
}

/// The field name `rate`.
pub open spec fn kw_rate() -> Seq<char> {
    seq!['r', 'a', 't', 'e']
}

impl TalkerView {
    /// The talker `name` with nothing set.
    pub open spec fn named(name: Seq<char>) -> TalkerView {
        TalkerView { name, sprite: Seq::empty(), sound: Seq::empty(), rate: None }
    }

    /// The talker after one line of its block. A line `field = value` sets
    /// the sprite, the sound or the rate, whichever the field names in any
    /// case, to the value without the whitespace around it; a rate that is
    /// no number is a fault. Any other line changes nothing.
    pub open spec fn with_line(self, line: Seq<char>) -> Result<TalkerView, FormatFault> {
        match split_once(line, '=') {
            None => Ok(self),
            Some((field, value)) => {
                if same_name(trim(field), kw_sprite()) {
                    Ok(TalkerView { sprite: trim(value), ..self })
                } else if same_name(trim(field), kw_sound()) {
                    Ok(TalkerView { sound: trim(value), ..self })
                } else if same_name(trim(field), kw_rate()) {
                    match number_scaled(trim(value), 1, 3) {
                        Some(r) => Ok(TalkerView { rate: Some(r), ..self }),
                        None => Err(FormatFault::BadRate),
                    }
                } else {
                    Ok(self)
                }
            },
        }
    }
}

/// Position of the first of `talkers` from `from` on whose name is `name`
/// up to ASCII case.
pub open spec fn talker_index(talkers: Seq<TalkerView>, name: Seq<char>, from: int) -> Option<int>
    decreases talkers.len() - from,
{
    if from < 0 || from >= talkers.len() {
        None
    } else if same_name(talkers[from].name, name) {
        Some(from)
    } else {
        talker_index(talkers, name, from + 1)
    }
}

/// The id under which a line that names `name` refers to its talker: the
/// position of the first talker of that name, where there is one and the
/// position fits.
pub open spec fn find_talker(talkers: Seq<TalkerView>, name: Seq<char>) -> Option<u32> {
    match talker_index(talkers, name, 0) {
        Some(i) => if i <= u32::MAX {
            Some(i as u32)
        } else {
            None
        },
        None => None,
    }
}

impl Talker {
    /// The talker `name` with nothing set.
    pub fn new(name: String) -> (r: Self)
        ensures
            r@ == TalkerView::named(name@),
    {
        Talker { name, sprite: String::new(), sound: String::new(), rate: None }
    }

    /// Takes one line of the talker's block.
    pub fn set_from_line(&mut self, line: &Vec<char>) -> (r: Result<(), FormatFault>)
        ensures
            match r {
                Ok(()) => old(self)@.with_line(line@) == Ok::<TalkerView, FormatFault>(
                    final(self)@,
                ),
                Err(e) => old(self)@.with_line(line@) == Err::<TalkerView, FormatFault>(e)
                    && final(self)@ == old(self)@,
            },
    {
        if let Some((field, value)) = split_at_first(line, '=') {
            let field = string_of(&trimmed(&field));
            let value = trimmed(&value);
            proof {
                reveal_strlit("sprite");
                reveal_strlit("sound");
                reveal_strlit("rate");
                assert("sprite"@ == kw_sprite());
                assert("sound"@ == kw_sound());
                assert("rate"@ == kw_rate());
            }
            if eq_ascii(field.as_str(), "sprite") {
                self.sprite = string_of(&value);
            } else if eq_ascii(field.as_str(), "sound") {
                self.sound = string_of(&value);
            } else if eq_ascii(field.as_str(), "rate") {
                match parse_scaled(&value, 1, 3) {
                    Some(r) => {
                        self.rate = Some(r);
                    },
                    None => {
                        return Err(FormatFault::BadRate);
                    },
                }
            }
        }
        Ok(())
    }
}

/// The id of the talker that a line names with `name`.
pub fn lookup_talker(talkers: &Vec<Talker>, name: &str) -> (r: Option<u32>)
    ensures
        r == find_talker(talker_views(talkers@), name@),
{
    let mut i: usize = 0;
    while i < talkers.len()
        invariant
            i <= talkers.len(),
            talker_index(talker_views(talkers@), name@, 0) == talker_index(
                talker_views(talkers@),
                name@,
                i as int,
            ),
        decreases talkers.len() - i,
    {
        assert(talker_views(talkers@)[i as int] == talkers@[i as int]@);
        if eq_ascii(talkers[i].name.as_str(), name) {
            return if i <= u32::MAX as usize {
                Some(i as u32)
            } else {
                None
            };
        }
        i += 1;
    }
    None
}

} // verus!
