//! The script files that have been loaded, by name.

use vstd::prelude::*;
use vstd::string::*;
use crate::command::FormatFault;
use crate::script::{parse_script, DialogueFile, FileView};
use crate::text::{eq_ascii, same_name};

verus! {

/// One loaded file under the name it was loaded by.
#[derive(Debug)]
struct CacheEntry {
    name: String,
    file: DialogueFile,
}

/// Loaded files, each under its name; names are matched up to ASCII case.
#[derive(Debug)]
pub struct DialogueCache {
    entries: Vec<CacheEntry>,
}

/// The mathematical value of a [`DialogueCache`]: names and files in the
/// order in which they were loaded.
pub ghost struct CacheView {
    pub entries: Seq<(Seq<char>, FileView)>,
}

/// Position of the first of `entries` from `from` on whose name is `name`
/// up to ASCII case.
pub open spec fn entry_index(entries: Seq<(Seq<char>, FileView)>, name: Seq<char>, from: int)
    -> Option<int>
    decreases entries.len() - from,
{
    if from < 0 || from >= entries.len() {
        None
    } else if same_name(entries[from].0, name) {
        Some(from)
    } else {
        entry_index(entries, name, from + 1)
    }
}

impl CacheView {
    /// The file loaded under `name`, if one is.
    pub open spec fn lookup(self, name: Seq<char>) -> Option<FileView> {
        match entry_index(self.entries, name, 0) {
            Some(i) => Some(self.entries[i].1),
            None => None,
        }
    }

    /// No name occurs twice, in whatever case.
    pub open spec fn distinct(self) -> bool {
        forall|i: int, j: int|
            0 <= i < j < self.entries.len() ==> !same_name(
                (#[trigger] self.entries[i]).0,
                (#[trigger] self.entries[j]).0,
            )
    }

    /// The cache with `file` under `name`, unless a file is loaded under
    /// that name already, which then stays.
    pub open spec fn with_file(self, name: Seq<char>, file: FileView) -> CacheView {
        if self.lookup(name) is Some {
            self
        } else {
            CacheView { entries: self.entries.push((name, file)) }
        }
    }
}

/// No entry from `from` on has the name `name` exactly when the search
/// from there finds none.
pub proof fn lemma_entry_index(entries: Seq<(Seq<char>, FileView)>, name: Seq<char>, from: int)
    requires
        0 <= from <= entries.len(),
    ensures
        match entry_index(entries, name, from) {
            Some(i) => from <= i < entries.len() && same_name(entries[i].0, name),
            None => forall|i: int|
                from <= i < entries.len() ==> !same_name((#[trigger] entries[i]).0, name),
        },
    decreases entries.len() - from,
{
    if from < entries.len() && !same_name(entries[from].0, name) {
        lemma_entry_index(entries, name, from + 1);
    }
}

/// The names and the views of the files of `entries`.
spec fn entry_views(entries: Seq<CacheEntry>) -> Seq<(Seq<char>, FileView)> {
    Seq::new(entries.len(), |i: int| (entries[i].name@, entries[i].file@))
}

impl View for DialogueCache {
    type V = CacheView;

    closed spec fn view(&self) -> CacheView {
        CacheView { entries: entry_views(self.entries@) }
    }
}

impl Default for DialogueCache {
    fn default() -> (r: Self)
        ensures
            r@ == (CacheView { entries: Seq::empty() }),
    {
        let r = DialogueCache { entries: Vec::new() };
        assert(r@.entries == Seq::<(Seq<char>, FileView)>::empty());
        r
    }
}

impl Clone for DialogueCache {
    fn clone(&self) -> (r: Self)
        ensures
            r@ == self@,
    {
        proof {
            use_type_invariant(self);
        }
        let mut entries: Vec<CacheEntry> = Vec::new();
        let mut i: usize = 0;
        while i < self.entries.len()
            invariant
                i <= self.entries.len(),
                entries.len() == i,
                forall|k: int|
                    0 <= k < i ==> (#[trigger] entries@[k]).name@ == self.entries@[k].name@
                        && entries@[k].file@ == self.entries@[k].file@,
            decreases self.entries.len() - i,
        {
            let e = CacheEntry {
                name: self.entries[i].name.clone(),
                file: self.entries[i].file.clone(),
            };
            entries.push(e);
            i += 1;
        }
        assert(entry_views(entries@) == self@.entries);
        DialogueCache { entries }
    }
}

impl DialogueCache {
    #[verifier::type_invariant]
    spec fn inv(self) -> bool {
        self@.distinct()
    }

    /// A cache without files.
    pub fn new() -> (r: Self)
        ensures
            r@ == (CacheView { entries: Seq::empty() }),
    {
        DialogueCache::default()
    }

    /// Position of the file loaded under `filename`.
    fn position(&self, filename: &str) -> (r: Option<usize>)
        ensures
            match r {
                Some(i) => entry_index(self@.entries, filename@, 0) == Some(i as int) && i
                    < self.entries.len(),
                None => entry_index(self@.entries, filename@, 0) is None,
            },
    {
        let mut i: usize = 0;
        while i < self.entries.len()
            invariant
                i <= self.entries.len(),
                entry_index(self@.entries, filename@, 0) == entry_index(
                    self@.entries,
                    filename@,
                    i as int,
                ),
            decreases self.entries.len() - i,
        {
            if eq_ascii(self.entries[i].name.as_str(), filename) {
                return Some(i);
            }
            i += 1;
        }
        None
    }

    /// The file loaded under `filename`, if one is.
    pub fn get(&self, filename: &str) -> (r: Option<&DialogueFile>)
        ensures
            match r {
                Some(f) => self@.lookup(filename@) == Some(f@),
                None => self@.lookup(filename@) is None,
            },
            self@.distinct(),
    {
        proof {
            use_type_invariant(self);
        }
        match self.position(filename) {
            Some(i) => {
                Some(&self.entries[i].file)
            },
            None => None,
        }
    }

    /// Loads the script `contents` under `filename`, unless a file is
    /// loaded under that name in whatever case: then nothing is parsed and
    /// nothing changes.
    /// A script with a fault is not loaded, in no part.
    pub fn preload(&mut self, filename: &str, contents: &str) -> (r: Result<(), FormatFault>)
        ensures
            final(self)@.distinct(),
            old(self)@.lookup(filename@) is Some ==> r is Ok && final(self)@ == old(self)@,
            old(self)@.lookup(filename@) is None ==> match parse_script(filename@, contents@) {
                Ok(file) => r is Ok && final(self)@ == old(self)@.with_file(filename@, file),
                Err(e) => r == Err::<(), FormatFault>(e) && final(self)@ == old(self)@,
            },
    {
        proof {
            use_type_invariant(&*self);
        }
        if self.position(filename).is_some() {
            return Ok(());
        }
        match DialogueFile::parse_contents(filename, contents) {
            Ok(file) => {
                let ghost before = self@.entries;
                proof {
                    lemma_entry_index(before, filename@, 0);
                }
                let entry = CacheEntry { name: filename.to_owned(), file };
                let ghost added = (entry.name@, entry.file@);
                let mut taken = DialogueCache::default();
                core::mem::swap(self, &mut taken);
                let DialogueCache { mut entries } = taken;
                entries.push(entry);
                proof {
                    assert(entry_views(entries@) == before.push(added));
                    assert forall|i: int, j: int| 0 <= i < j < before.len() + 1 implies !same_name(
                        (#[trigger] before.push(added)[i]).0,
                        (#[trigger] before.push(added)[j]).0,
                    ) by {
                        if j < before.len() {
                            assert(!same_name(before[i].0, before[j].0));
                        } else {
                            assert(!same_name(before[i].0, filename@));
                        }
                    }
                }
                let next = DialogueCache { entries };
                *self = next;
                Ok(())
            },
            Err(e) => Err(e),
        }
    }
}

} // verus!
