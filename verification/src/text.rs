//! Character-level building blocks of the script format: case folding,
//! whitespace classes, and splitting into lines, words and fields.

use vstd::prelude::*;
use vstd::string::*;

verus! {

/// The lower-case form of an ASCII capital; every other character is itself.
pub open spec fn ascii_lower(c: char) -> char {
    if 'A' <= c && c <= 'Z' {
        ((c as u8 + 32) as u8) as char
    } else {
        c
    }
}

/// A text with every ASCII capital replaced by its lower-case form.
pub open spec fn ascii_fold(s: Seq<char>) -> Seq<char> {
    Seq::new(s.len(), |i: int| ascii_lower(s[i]))
}

/// Equality of two texts up to the case of ASCII letters. This is the one
/// notion of name identity used for commands, talkers, sections and files.
pub open spec fn same_name(a: Seq<char>, b: Seq<char>) -> bool {
    ascii_fold(a) == ascii_fold(b)
}

/// The whitespace that separates words: space, tab, line feed, form feed and
/// carriage return.
pub open spec fn is_ascii_space(c: char) -> bool {
    c == ' ' || c == '\t' || c == '\n' || c == '\x0C' || c == '\r'
}

/// The characters with the Unicode `White_Space` property, which trimming removes.
pub open spec fn is_space(c: char) -> bool {
    ||| ('\t' <= c && c <= '\r')
    ||| c == ' '
    ||| c == '\u{85}'
    ||| c == '\u{A0}'
    ||| c == '\u{1680}'
    ||| ('\u{2000}' <= c && c <= '\u{200A}')
    ||| c == '\u{2028}'
    ||| c == '\u{2029}'
    ||| c == '\u{202F}'
    ||| c == '\u{205F}'
    ||| c == '\u{3000}'
}

/// The views of a vector of character rows.
pub open spec fn rows(v: Seq<Vec<char>>) -> Seq<Seq<char>> {
    Seq::new(v.len(), |i: int| v[i]@)
}

/// Length of the longest prefix of `s` whose characters all satisfy `p`.
pub open spec fn prefix_len(s: Seq<char>, p: spec_fn(char) -> bool) -> nat
    decreases s.len(),
{
    if s.len() > 0 && p(s[0]) {
        1 + prefix_len(s.drop_first(), p)
    } else {
        0
    }
}

/// Length of the longest suffix of `s` whose characters all satisfy `p`.
pub open spec fn suffix_len(s: Seq<char>, p: spec_fn(char) -> bool) -> nat
    decreases s.len(),
{
    if s.len() > 0 && p(s.last()) {
        1 + suffix_len(s.drop_last(), p)
    } else {
        0
    }
}

/// A prefix of `n` matching characters that ends at a mismatch, or at the end
/// of the text, is the longest one.
pub proof fn lemma_prefix_len(s: Seq<char>, p: spec_fn(char) -> bool, n: int)
    requires
        0 <= n <= s.len(),
        forall|j: int| 0 <= j < n ==> p(#[trigger] s[j]),
        n == s.len() || !p(s[n]),
    ensures
        prefix_len(s, p) == n,
    decreases s.len(),
{
    if n > 0 {
        let t = s.drop_first();
        assert forall|j: int| 0 <= j < n - 1 implies p(#[trigger] t[j]) by {
            assert(t[j] == s[j + 1]);
        }
        lemma_prefix_len(t, p, n - 1);
    }
}

/// The longest matching prefix lies within the text, consists of matching
/// characters, and is followed by a mismatch if by anything.
pub proof fn lemma_prefix_len_bounds(s: Seq<char>, p: spec_fn(char) -> bool)
    ensures
        prefix_len(s, p) <= s.len(),
        forall|j: int| 0 <= j < prefix_len(s, p) ==> p(#[trigger] s[j]),
        prefix_len(s, p) < s.len() ==> !p(s[prefix_len(s, p) as int]),
    decreases s.len(),
{
    if s.len() > 0 && p(s[0]) {
        let t = s.drop_first();
        lemma_prefix_len_bounds(t, p);
        assert forall|j: int| 0 <= j < prefix_len(s, p) implies p(#[trigger] s[j]) by {
            if j > 0 {
                assert(s[j] == t[j - 1]);
            }
        }
        if prefix_len(s, p) < s.len() {
            assert(s[prefix_len(s, p) as int] == t[prefix_len(t, p) as int]);
        }
    }
}

/// A suffix of `n` matching characters that begins after a mismatch, or at the
/// start of the text, is the longest one.
pub proof fn lemma_suffix_len(s: Seq<char>, p: spec_fn(char) -> bool, n: int)
    requires
        0 <= n <= s.len(),
        forall|j: int| s.len() - n <= j < s.len() ==> p(#[trigger] s[j]),
        n == s.len() || !p(s[s.len() - n - 1]),
    ensures
        suffix_len(s, p) == n,
    decreases s.len(),
{
    if n > 0 {
        let t = s.drop_last();
        assert forall|j: int| t.len() - (n - 1) <= j < t.len() implies p(#[trigger] t[j]) by {
            assert(t[j] == s[j]);
        }
        lemma_suffix_len(t, p, n - 1);
    }
}

/// The class of every character but `c`.
pub open spec fn other_than(c: char) -> spec_fn(char) -> bool {
    |x: char| x != c
}

/// The class of the word separators.
pub open spec fn ascii_spaces() -> spec_fn(char) -> bool {
    |x: char| is_ascii_space(x)
}

/// The class of the characters that words are made of.
pub open spec fn word_chars() -> spec_fn(char) -> bool {
    |x: char| !is_ascii_space(x)
}

/// The class of the characters that trimming removes.
pub open spec fn spaces() -> spec_fn(char) -> bool {
    |x: char| is_space(x)
}

/// Position of the first `c` in `s`, or the length of `s` where there is none.
pub open spec fn first_index(s: Seq<char>, c: char) -> nat {
    prefix_len(s, other_than(c))
}

/// The text before the first `c` and the text after it, where `s` holds a `c`.
pub open spec fn split_once(s: Seq<char>, c: char) -> Option<(Seq<char>, Seq<char>)> {
    let k = first_index(s, c) as int;
    if k < s.len() {
        Some((s.take(k), s.skip(k + 1)))
    } else {
        None
    }
}

/// `s` without the whitespace at its start and at its end.
pub open spec fn trim(s: Seq<char>) -> Seq<char> {
    let t = s.skip(prefix_len(s, spaces()) as int);
    t.take(t.len() - suffix_len(t, spaces()))
}

/// The maximal runs of characters other than word separators, in order.
pub open spec fn words(s: Seq<char>) -> Seq<Seq<char>>
    decreases s.len(),
{
    let t = s.skip(prefix_len(s, ascii_spaces()) as int);
    let n = prefix_len(t, word_chars()) as int;
    if n > 0 {
        proof {
            lemma_prefix_len_bounds(s, ascii_spaces());
            lemma_prefix_len_bounds(t, word_chars());
        }
        seq![t.take(n)] + words(t.skip(n))
    } else {
        Seq::empty()
    }
}

/// A line as it was before its line ending: a carriage return directly before
/// the line feed belongs to the ending.
pub open spec fn strip_cr(l: Seq<char>) -> Seq<char> {
    if l.len() > 0 && l.last() == '\r' {
        l.drop_last()
    } else {
        l
    }
}

/// The lines of a text. A line ends at a line feed, or at a carriage return
/// and a line feed; the last line needs no ending, and a text that ends with
/// a line ending has no empty line after it.
pub open spec fn lines(s: Seq<char>) -> Seq<Seq<char>>
    decreases s.len(),
{
    let k = first_index(s, '\n') as int;
    if s.len() == 0 {
        Seq::empty()
    } else if k < s.len() {
        seq![strip_cr(s.take(k))] + lines(s.skip(k + 1))
    } else {
        seq![s]
    }
}

/// `unicase::eq_ascii` on two string slices: whether they are equal once the
/// ASCII capitals of both are replaced by their lower-case forms. Characters
/// outside ASCII must match exactly.
#[verifier::external_body]
pub(crate) fn eq_ascii(a: &str, b: &str) -> (r: bool)
    ensures
        r == same_name(a@, b@),
{
    unicase::eq_ascii(a, b)
}

/// `String::push`: appends one character.
#[verifier::external_body]
pub(crate) fn push_char(s: &mut String, c: char)
    ensures
        final(s)@ == old(s)@.push(c),
{
    s.push(c);
}

/// The characters of a string, in order.
pub fn chars_of(s: &str) -> (v: Vec<char>)
    ensures
        v@ == s@,
{
    let mut v: Vec<char> = Vec::new();
    for c in it: s.chars()
        invariant
            v@ == s@.take(it.index() as int),
            it.seq() == s@,
    {
        v.push(c);
    }
    v
}

/// The string made of the characters `v[from..to]`.
pub fn string_of_range(v: &Vec<char>, from: usize, to: usize) -> (s: String)
    requires
        from <= to <= v.len(),
    ensures
        s@ == v@.subrange(from as int, to as int),
{
    let mut s = String::new();
    let mut i: usize = from;
    while i < to
        invariant
            from <= i <= to <= v.len(),
            s@ == v@.subrange(from as int, i as int),
        decreases to - i,
    {
        push_char(&mut s, v[i]);
        i += 1;
    }
    s
}

/// The string made of the characters of `v`.
pub fn string_of(v: &Vec<char>) -> (s: String)
    ensures
        s@ == v@,
{
    let s = string_of_range(v, 0, v.len());
    assert(v@.subrange(0, v.len() as int) == v@);
    s
}

/// A copy of the characters `v[from..to]`.
pub fn copy_range(v: &Vec<char>, from: usize, to: usize) -> (r: Vec<char>)
    requires
        from <= to <= v.len(),
    ensures
        r@ == v@.subrange(from as int, to as int),
{
    let mut r: Vec<char> = Vec::new();
    let mut i: usize = from;
    while i < to
        invariant
            from <= i <= to <= v.len(),
            r@ == v@.subrange(from as int, i as int),
        decreases to - i,
    {
        r.push(v[i]);
        i += 1;
    }
    r
}

/// Whether `c` separates words.
pub fn char_is_ascii_space(c: char) -> (r: bool)
    ensures
        r == is_ascii_space(c),
{
    c == ' ' || c == '\t' || c == '\n' || c == '\x0C' || c == '\r'
}

/// Whether trimming removes `c`.
pub fn char_is_space(c: char) -> (r: bool)
    ensures
        r == is_space(c),
{
    ('\t' <= c && c <= '\r') || c == ' ' || c == '\u{85}' || c == '\u{A0}' || c == '\u{1680}' || (
    '\u{2000}' <= c && c <= '\u{200A}') || c == '\u{2028}' || c == '\u{2029}' || c == '\u{202F}'
        || c == '\u{205F}' || c == '\u{3000}'
}

/// Position of the first `c` at or after `from`, or the length of `v` where
/// there is none.
pub fn find_char(v: &Vec<char>, from: usize, c: char) -> (k: usize)
    requires
        from <= v.len(),
    ensures
        from <= k <= v.len(),
        k == from + first_index(v@.skip(from as int), c),
{
    let mut k: usize = from;
    while k < v.len() && v[k] != c
        invariant
            from <= k <= v.len(),
            forall|j: int| from <= j < k ==> v@[j] != c,
        decreases v.len() - k,
    {
        k += 1;
    }
    proof {
        let t = v@.skip(from as int);
        assert forall|j: int| 0 <= j < k - from implies other_than(c)(#[trigger] t[j]) by {
            assert(t[j] == v@[from + j]);
        }
        lemma_prefix_len(t, other_than(c), k - from);
    }
    k
}

/// End of the run of word separators that begins at `from`.
pub fn skip_ascii_spaces(v: &Vec<char>, from: usize) -> (k: usize)
    requires
        from <= v.len(),
    ensures
        from <= k <= v.len(),
        k == from + prefix_len(v@.skip(from as int), ascii_spaces()),
{
    let mut k: usize = from;
    while k < v.len() && char_is_ascii_space(v[k])
        invariant
            from <= k <= v.len(),
            forall|j: int| from <= j < k ==> is_ascii_space(v@[j]),
        decreases v.len() - k,
    {
        k += 1;
    }
    proof {
        let t = v@.skip(from as int);
        assert forall|j: int| 0 <= j < k - from implies ascii_spaces()(#[trigger] t[j]) by {
            assert(t[j] == v@[from + j]);
        }
        lemma_prefix_len(t, ascii_spaces(), k - from);
    }
    k
}

/// End of the run of word characters that begins at `from`.
pub fn skip_word(v: &Vec<char>, from: usize) -> (k: usize)
    requires
        from <= v.len(),
    ensures
        from <= k <= v.len(),
        k == from + prefix_len(v@.skip(from as int), word_chars()),
{
    let mut k: usize = from;
    while k < v.len() && !char_is_ascii_space(v[k])
        invariant
            from <= k <= v.len(),
            forall|j: int| from <= j < k ==> !is_ascii_space(v@[j]),
        decreases v.len() - k,
    {
        k += 1;
    }
    proof {
        let t = v@.skip(from as int);
        assert forall|j: int| 0 <= j < k - from implies word_chars()(#[trigger] t[j]) by {
            assert(t[j] == v@[from + j]);
        }
        lemma_prefix_len(t, word_chars(), k - from);
    }
    k
}

/// The words of `v`: its maximal runs of characters other than word separators.
pub fn split_words(v: &Vec<char>) -> (r: Vec<Vec<char>>)
    ensures
        rows(r@) == words(v@),
{
    let mut r: Vec<Vec<char>> = Vec::new();
    let mut pos: usize = 0;
    proof {
        assert(v@.skip(0) == v@);
        assert(rows(r@) + words(v@) == words(v@));
    }
    loop
        invariant
            pos <= v.len(),
            words(v@) == rows(r@) + words(v@.skip(pos as int)),
        ensures
            rows(r@) == words(v@),
        decreases v.len() - pos,
    {
        let a = skip_ascii_spaces(v, pos);
        let b = skip_word(v, a);
        proof {
            let s = v@.skip(pos as int);
            let t = s.skip(a - pos);
            assert(t == v@.skip(a as int));
            if b > a {
                assert(t.take(b - a) == v@.subrange(a as int, b as int));
                assert(t.skip(b - a) == v@.skip(b as int));
            }
        }
        if b == a {
            assert(words(v@.skip(pos as int)) == Seq::<Seq<char>>::empty());
            break ;
        }
        let w = copy_range(v, a, b);
        proof {
            let ghost before = rows(r@);
            assert(rows(r@.push(w)) == before + seq![w@]);
        }
        r.push(w);
        pos = b;
    }
    r
}

/// The lines of `v`, each without its line ending.
pub fn split_lines(v: &Vec<char>) -> (r: Vec<Vec<char>>)
    ensures
        rows(r@) == lines(v@),
{
    let mut r: Vec<Vec<char>> = Vec::new();
    let mut pos: usize = 0;
    proof {
        assert(v@.skip(0) == v@);
        assert(rows(r@) + lines(v@) == lines(v@));
    }
    while pos < v.len()
        invariant
            pos <= v.len(),
            lines(v@) == rows(r@) + lines(v@.skip(pos as int)),
        decreases v.len() - pos,
    {
        let k = find_char(v, pos, '\n');
        let ghost s = v@.skip(pos as int);
        if k < v.len() {
            let end = if k > pos && v[k - 1] == '\r' {
                k - 1
            } else {
                k
            };
            let line = copy_range(v, pos, end);
            proof {
                assert(s.take(k - pos) == v@.subrange(pos as int, k as int));
                assert(s.skip(k - pos + 1) == v@.skip(k + 1));
                assert(line@ == strip_cr(s.take(k - pos)));
                assert(rows(r@.push(line)) == rows(r@) + seq![line@]);
            }
            r.push(line);
            pos = k + 1;
        } else {
            let line = copy_range(v, pos, k);
            proof {
                assert(line@ == s);
                assert(rows(r@.push(line)) == rows(r@) + seq![line@]);
                assert(v@.skip(k as int).len() == 0);
            }
            r.push(line);
            pos = k;
        }
    }
    assert(v@.skip(pos as int).len() == 0);
    r
}

/// `v` without the whitespace at its start and at its end.
pub fn trimmed(v: &Vec<char>) -> (r: Vec<char>)
    ensures
        r@ == trim(v@),
{
    let mut a: usize = 0;
    while a < v.len() && char_is_space(v[a])
        invariant
            a <= v.len(),
            forall|j: int| 0 <= j < a ==> is_space(v@[j]),
        decreases v.len() - a,
    {
        a += 1;
    }
    let mut b: usize = v.len();
    while b > a && char_is_space(v[b - 1])
        invariant
            a <= b <= v.len(),
            forall|j: int| b <= j < v.len() ==> is_space(v@[j]),
        decreases b,
    {
        b -= 1;
    }
    proof {
        assert forall|j: int| 0 <= j < a implies spaces()(#[trigger] v@[j]) by {}
        lemma_prefix_len(v@, spaces(), a as int);
        let t = v@.skip(a as int);
        assert forall|j: int| t.len() - (v.len() - b) <= j < t.len() implies spaces()(
            #[trigger] t[j],
        ) by {
            assert(t[j] == v@[a + j]);
        }
        if b > a {
            assert(t[b - a - 1] == v@[b - 1]);
        }
        lemma_suffix_len(t, spaces(), v.len() - b);
        assert(t.take(b - a) == v@.subrange(a as int, b as int));
    }
    copy_range(v, a, b)
}

/// The parts of `v` before and after its first `c`, where it holds one.
pub fn split_at_first(v: &Vec<char>, c: char) -> (r: Option<(Vec<char>, Vec<char>)>)
    ensures
        match r {
            Some((a, b)) => split_once(v@, c) == Some((a@, b@)),
            None => split_once(v@, c) is None,
        },
{
    let k = find_char(v, 0, c);
    assert(v@.skip(0) == v@);
    if k < v.len() {
        let a = copy_range(v, 0, k);
        let b = copy_range(v, k + 1, v.len());
        Some((a, b))
    } else {
        None
    }
}

} // verus!
