//! The state that a host holds for one engine: where the files lie, which
//! are loaded, which dialogues have played their one time, and the engine.

use vstd::prelude::*;
use vstd::string::*;
use crate::cache::{CacheView, DialogueCache};
use crate::chunk::{error_name, ChunkView, Dialogue, DialogueView, TextView};
use crate::command::FormatFault;
use crate::dialogue_engine::{DialogueEngine, EngineView};
use crate::interop::queue_params::{QueueParams, QueueView};
use crate::script::section_index;
use crate::text::{eq_ascii, same_name};

verus! {

/// A file and one of its sections, as the key of a dialogue that plays only
/// once. Two keys are equal if both names agree up to ASCII case.
#[derive(Debug)]
pub struct FilenameSectionPair {
    filename: String,
    section: String,
}

/// The mathematical value of a [`FilenameSectionPair`].
pub ghost struct PairView {
    pub filename: Seq<char>,
    pub section: Seq<char>,
}

impl PairView {
    /// Whether both names agree with those of `other` up to ASCII case.
    pub open spec fn same_key(self, other: PairView) -> bool {
        same_name(self.filename, other.filename) && same_name(self.section, other.section)
    }
}

impl View for FilenameSectionPair {
    type V = PairView;

    closed spec fn view(&self) -> PairView {
        PairView { filename: self.filename@, section: self.section@ }
    }
}

impl FilenameSectionPair {
    /// The key of the section `section` of the file `filename`.
    pub fn new(filename: &str, section: &str) -> (r: Self)
        ensures
            r@ == (PairView { filename: filename@, section: section@ }),
    {
        FilenameSectionPair { filename: filename.to_owned(), section: section.to_owned() }
    }

    /// Whether this key and `other` are equal.
    pub fn same_key(&self, other: &Self) -> (r: bool)
        ensures
            r == self@.same_key(other@),
    {
        eq_ascii(self.filename.as_str(), other.filename.as_str()) && eq_ascii(
            self.section.as_str(),
            other.section.as_str(),
        )
    }
}

impl PartialEq for FilenameSectionPair {
    fn eq(&self, other: &Self) -> (r: bool) {
        self.same_key(other)
    }
}

impl vstd::std_specs::cmp::PartialEqSpecImpl for FilenameSectionPair {
    open spec fn obeys_eq_spec() -> bool {
        true
    }

    open spec fn eq_spec(&self, other: &Self) -> bool {
        self@.same_key(other@)
    }
}

impl Eq for FilenameSectionPair {

}

/// Whether one of `keys` equals `key`.
pub open spec fn holds_key(keys: Seq<PairView>, key: PairView) -> bool {
    exists|i: int| 0 <= i < keys.len() && (#[trigger] keys[i]).same_key(key)
}

/// No two of `keys` are equal.
pub open spec fn distinct_keys(keys: Seq<PairView>) -> bool {
    forall|i: int, j: int|
        0 <= i < j < keys.len() ==> !(#[trigger] keys[i]).same_key(#[trigger] keys[j])
}

/// The views of a sequence of keys.
spec fn key_views(pairs: Seq<FilenameSectionPair>) -> Seq<PairView> {
    Seq::new(pairs.len(), |i: int| pairs[i]@)
}

/// The keys of the dialogues that have played their one time.
#[derive(Debug)]
pub struct OneShotSet {
    pairs: Vec<FilenameSectionPair>,
}

impl View for OneShotSet {
    type V = Seq<PairView>;

    closed spec fn view(&self) -> Seq<PairView> {
        key_views(self.pairs@)
    }
}

impl Default for OneShotSet {
    fn default() -> (r: Self)
        ensures
            r@ == Seq::<PairView>::empty(),
    {
        let pairs: Vec<FilenameSectionPair> = Vec::new();
        assert(key_views(pairs@) == Seq::<PairView>::empty());
        OneShotSet { pairs }
    }
}

impl OneShotSet {
    #[verifier::type_invariant]
    spec fn inv(self) -> bool {
        distinct_keys(self@)
    }

    /// Whether the set holds a key equal to `key`.
    pub fn contains(&self, key: &FilenameSectionPair) -> (r: bool)
        ensures
            r == holds_key(self@, key@),
            distinct_keys(self@),
    {
        proof {
            use_type_invariant(self);
        }
        let mut i: usize = 0;
        while i < self.pairs.len()
            invariant
                i <= self.pairs.len(),
                distinct_keys(self@),
                forall|k: int| 0 <= k < i ==> !(#[trigger] self@[k]).same_key(key@),
            decreases self.pairs.len() - i,
        {
            assert(self@[i as int] == self.pairs@[i as int]@);
            if self.pairs[i].same_key(key) {
                return true;
            }
            i += 1;
        }
        false
    }

    /// Puts `key` into the set and says whether it was new. A key that the
    /// set holds already changes nothing.
    pub fn insert(&mut self, key: FilenameSectionPair) -> (r: bool)
        ensures
            r == !holds_key(old(self)@, key@),
            final(self)@ == with_key(old(self)@, key@),
            distinct_keys(final(self)@),
    {
        proof {
            use_type_invariant(&*self);
        }
        if self.contains(&key) {
            return false;
        }
        let ghost before = self@;
        let mut taken = OneShotSet::default();
        core::mem::swap(self, &mut taken);
        let OneShotSet { mut pairs } = taken;
        pairs.push(key);
        proof {
            let after = before.push(key@);
            assert(key_views(pairs@) == after);
            assert forall|i: int, j: int| 0 <= i < j < after.len() implies !(
            #[trigger] after[i]).same_key(#[trigger] after[j]) by {
                if j < before.len() {
                    assert(!before[i].same_key(before[j]));
                } else {
                    assert(!before[i].same_key(key@));
                }
            }
        }
        *self = OneShotSet { pairs };
        true
    }
}

/// The keys `keys` with `key` among them: put behind them unless one of them
/// equals it.
pub open spec fn with_key(keys: Seq<PairView>, key: PairView) -> Seq<PairView> {
    if holds_key(keys, key) {
        keys
    } else {
        keys.push(key)
    }
}

/// The ending of the name of a script file.
pub open spec fn file_ending() -> Seq<char> {
    seq!['.', 'a', 'd', 'l', 'i', 'b']
}

/// What the dialogue says that stands in for a file that is not loaded.
pub open spec fn missing_file_message(filename: Seq<char>) -> Seq<char> {
    "Could not find dialogue file "@ + filename
}

/// What the dialogue says that stands in for a section that its file lacks.
pub open spec fn missing_section_message(section: Seq<char>) -> Seq<char> {
    "Could not find dialogue section "@ + section
}

/// The dialogue that reports a failed lookup with `message`.
pub open spec fn error_dialogue(message: Seq<char>) -> DialogueView {
    DialogueView {
        name: error_name(),
        filename: error_name(),
        chunks: seq![ChunkView::Text(TextView { content: message, speaker: None })],
    }
}

/// Everything a host holds for one engine.
#[derive(Debug)]
pub struct GlobalState {
    pub path: String,
    pub engine: DialogueEngine,
    pub cache: DialogueCache,
    pub one_shot_cache: OneShotSet,
}

/// The mathematical value of a [`GlobalState`].
pub ghost struct GlobalView {
    pub path: Seq<char>,
    pub engine: EngineView,
    pub cache: CacheView,
    pub one_shot: Seq<PairView>,
}

impl GlobalView {
    /// The name under which the file `filename` is loaded: the base path,
    /// the name, and the ending of script files.
    pub open spec fn full_filename(self, filename: Seq<char>) -> Seq<char> {
        self.path + filename + file_ending()
    }

    /// The key under which the request `q` plays only once.
    pub open spec fn key(q: QueueView) -> PairView {
        PairView { filename: q.filename, section: q.section }
    }

    /// Whether the request `q` is dropped: it is to play once and has played.
    pub open spec fn suppressed(self, q: QueueView) -> bool {
        q.oneshot && holds_key(self.one_shot, GlobalView::key(q))
    }

    /// The dialogue that the request `q` stands for: the first section of
    /// that name in the loaded file, or a dialogue that names what is
    /// missing, the section or the file.
    pub open spec fn target(self, q: QueueView) -> DialogueView {
        match self.cache.lookup(self.full_filename(q.filename)) {
            Some(file) => match section_index(file.sections, q.section, 0) {
                Some(k) => file.sections[k],
                None => error_dialogue(missing_section_message(q.section)),
            },
            None => error_dialogue(missing_file_message(q.filename)),
        }
    }

    /// The state after the request `q`. A suppressed request changes
    /// nothing. Any other is recorded if it is to play once, and its
    /// dialogue is queued on the engine.
    pub open spec fn queue(self, q: QueueView) -> GlobalView {
        if self.suppressed(q) {
            self
        } else {
            GlobalView {
                one_shot: if q.oneshot {
                    self.one_shot.push(GlobalView::key(q))
                } else {
                    self.one_shot
                },
                engine: self.engine.queue(self.target(q)),
                ..self
            }
        }
    }
}

impl View for GlobalState {
    type V = GlobalView;

    open spec fn view(&self) -> GlobalView {
        GlobalView {
            path: self.path@,
            engine: self.engine@,
            cache: self.cache@,
            one_shot: self.one_shot_cache@,
        }
    }
}

impl Default for GlobalState {
    fn default() -> (r: Self)
        ensures
            r@.path == Seq::<char>::empty(),
            r@.engine == EngineView::idle(EngineView::default_options()),
            r@.cache == (CacheView { entries: Seq::empty() }),
            r@.one_shot == Seq::<PairView>::empty(),
    {
        GlobalState {
            path: String::new(),
            engine: DialogueEngine::default(),
            cache: DialogueCache::default(),
            one_shot_cache: OneShotSet::default(),
        }
    }
}

impl GlobalState {
    /// The name under which the file `filename` is loaded.
    pub fn full_filename(&self, filename: &str) -> (r: String)
        ensures
            r@ == self@.full_filename(filename@),
    {
        proof {
            reveal_strlit(".adlib");
            assert(".adlib"@ == file_ending());
        }
        let mut r = self.path.clone();
        r.append(filename);
        r.append(".adlib");
        r
    }

    /// Whether the file `filename` is loaded.
    pub fn is_loaded(&self, filename: &str) -> (r: bool)
        ensures
            r == (self@.cache.lookup(self@.full_filename(filename@)) is Some),
    {
        let full = self.full_filename(filename);
        self.cache.get(full.as_str()).is_some()
    }

    /// Loads the script `contents` as the file `filename`, unless that
    /// file is loaded; a script with a fault is not loaded.
    pub fn preload(&mut self, filename: &str, contents: &str) -> (r: Result<(), FormatFault>)
        ensures
            final(self)@.path == old(self)@.path,
            final(self)@.engine == old(self)@.engine,
            final(self)@.one_shot == old(self)@.one_shot,
            ({
                let name = old(self)@.full_filename(filename@);
                if old(self)@.cache.lookup(name) is Some {
                    r is Ok && final(self)@.cache == old(self)@.cache
                } else {
                    match crate::script::parse_script(name, contents@) {
                        Ok(file) => r is Ok && final(self)@.cache == old(self)@.cache.with_file(
                            name,
                            file,
                        ),
                        Err(e) => r == Err::<(), FormatFault>(e) && final(self)@.cache == old(
                            self,
                        )@.cache,
                    }
                }
            }),
    {
        let full = self.full_filename(filename);
        self.cache.preload(full.as_str(), contents)
    }

    /// Handles a queue request against the files that are loaded.
    pub fn queue<'a>(&mut self, queue_args: QueueParams<'a>)
        ensures
            final(self)@ == old(self)@.queue(queue_args@),
    {
        if queue_args.oneshot {
            let key = FilenameSectionPair::new(queue_args.filename, queue_args.section);
            if !self.one_shot_cache.insert(key) {
                return ;
            }
        }
        let full = self.full_filename(queue_args.filename);
        match self.cache.get(full.as_str()) {
            Some(file) => match file.get(queue_args.section) {
                Some(dialogue) => {
                    self.engine.queue(dialogue);
                },
                None => {
                    let mut message = "Could not find dialogue section ".to_owned();
                    message.append(queue_args.section);
                    self.engine.queue(&Dialogue::from_error(message.as_str()));
                },
            },
            None => {
                let mut message = "Could not find dialogue file ".to_owned();
                message.append(queue_args.filename);
                self.engine.queue(&Dialogue::from_error(message.as_str()));
            },
        }
    }
}

} // verus!
