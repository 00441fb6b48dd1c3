//! The arguments of a queue request, as the host writes them in one string.

use vstd::prelude::*;
use vstd::string::*;
use crate::text::{chars_of, eq_ascii, find_char, same_name, split_once, string_of_range};

verus! {

/// A request to queue the section `section` of the file `filename`; with
/// `oneshot`, only if the same request has not been made before.
pub struct QueueParams<'a> {
    pub filename: &'a str,
    pub section: &'a str,
    pub oneshot: bool,
}

/// The mathematical value of a [`QueueParams`].
pub ghost struct QueueView {
    pub filename: Seq<char>,
    pub section: Seq<char>,
    pub oneshot: bool,
}

impl<'a> View for QueueParams<'a> {
    type V = QueueView;

    open spec fn view(&self) -> QueueView {
        QueueView { filename: self.filename@, section: self.section@, oneshot: self.oneshot }
    }
}

/// The field `oneshot`.
pub open spec fn kw_oneshot() -> Seq<char> {
    seq!['o', 'n', 'e', 's', 'h', 'o', 't']
}

/// Whether one of the fields of `flags`, which bars separate, is `oneshot`
/// in any case.
pub open spec fn names_oneshot(flags: Seq<char>) -> bool
    decreases flags.len(),
{
    match split_once(flags, '|') {
        Some((first, more)) => same_name(first, kw_oneshot()) || names_oneshot(more),
        None => same_name(flags, kw_oneshot()),
    }
}

/// The request that `input` spells: the file name, a bar, the section, and
/// behind a further bar any number of fields, of which `oneshot` is the only
/// one with a meaning. Without a bar there is no section and no request.
pub open spec fn parse_queue(input: Seq<char>) -> Option<QueueView> {
    match split_once(input, '|') {
        None => None,
        Some((filename, rest)) => match split_once(rest, '|') {
            None => Some(QueueView { filename, section: rest, oneshot: false }),
            Some((section, flags)) => Some(
                QueueView { filename, section, oneshot: names_oneshot(flags) },
            ),
        },
    }
}

impl<'a> QueueParams<'a> {
    /// The request that `input` spells, if it spells one.
    pub fn parse(input: &'a str) -> (r: Option<Self>)
        ensures
            match r {
                Some(q) => parse_queue(input@) == Some(q@),
                None => parse_queue(input@) is None,
            },
    {
        let v = chars_of(input);
        let n = v.len();
        let first = find_char(&v, 0, '|');
        assert(v@.skip(0) == v@);
        if first >= n {
            return None;
        }
        let filename = input.substring_char(0, first);
        let ghost rest = v@.skip(first + 1);
        let second = find_char(&v, first + 1, '|');
        let section = input.substring_char(first + 1, second);
        proof {
            assert(filename@ == v@.take(first as int));
            if second < n {
                assert(section@ == rest.take(second - first - 1));
                assert(rest.skip(second - first) == v@.skip(second + 1));
            } else {
                assert(section@ == rest);
            }
        }
        if second >= n {
            return Some(QueueParams { filename, section, oneshot: false });
        }
        let ghost flags = v@.skip(second + 1);
        let mut oneshot = false;
        let mut pos: usize = second + 1;
        let mut more = true;
        proof {
            reveal_strlit("oneshot");
            assert("oneshot"@ == kw_oneshot());
        }
        while more
            invariant
                pos <= n,
                n == v.len(),
                "oneshot"@ == kw_oneshot(),
                names_oneshot(flags) == (oneshot || (more && names_oneshot(v@.skip(pos as int)))),
            decreases n - pos + if more {
                1nat
            } else {
                0nat
            },
        {
            let bar = find_char(&v, pos, '|');
            let field = string_of_range(&v, pos, bar);
            let ghost here = v@.skip(pos as int);
            proof {
                if bar < n {
                    assert(field@ == here.take(bar - pos));
                    assert(here.skip(bar - pos + 1) == v@.skip(bar + 1));
                } else {
                    assert(field@ == here);
                }
            }
            if eq_ascii(field.as_str(), "oneshot") {
                oneshot = true;
            }
            if bar < n {
                pos = bar + 1;
            } else {
                more = false;
            }
        }
        Some(QueueParams { filename, section, oneshot })
    }
}

} // verus!
