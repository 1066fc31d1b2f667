//! The expected chains of each end point, kept in memory once loaded.
//!
//! The cache does not touch the disk. Its user asks whether an end point is
//! known, reads the file of an end point that is not, and hands the text (or
//! its absence) over; from then on the end point is served from memory.

use crate::call_chain::{
    cchain_filename, cchain_filename_text, parse_cchain_text, read_cchain_file, EndPointCChain,
};
use crate::chain_key::KeyView;
use crate::remap::keys_view;
use crate::report::{chapter_index, with_message, Chapter, Report};
use crate::text::{chars_of, push_str_chars, same_chars, string_of};
use vstd::prelude::*;

verus! {

/// What the cache holds for one end point: its expected chains, or `None`
/// where its file was absent or could not be read as chains.
pub struct CacheEntry {
    pub key: String,
    pub chains: Option<EndPointCChain>,
}

/// The expected chains of an entry, as plain values.
pub open spec fn chains_view(chains: Option<EndPointCChain>) -> Option<Seq<KeyView>> {
    match chains {
        Some(c) => Some(keys_view(c@)),
        None => None,
    }
}

/// What is stored for an end point whose file held `content`, or had no file.
pub open spec fn loaded_chains(content: Option<Seq<char>>) -> Option<Seq<KeyView>> {
    match content {
        Some(text) => match parse_cchain_text(text) {
            Ok(keys) => Some(keys),
            Err(_) => None,
        },
        None => None,
    }
}

/// The note on an end point that has no file of expected chains.
pub open spec fn missing_file_text(key: Seq<char>) -> Seq<char> {
    "Could not find '"@ + cchain_filename_text(key) + "' so no call-chain available"@
}

/// The note on an end point whose file could not be read as chains.
pub open spec fn failed_load_text(key: Seq<char>) -> Seq<char> {
    "Loading of entry '"@ + key + "' failed"@
}

/// The report after an end point was stored: as it was where the file held
/// chains, else with a note in the ingest chapter.
pub open spec fn with_load_note(
    chapters: Seq<Seq<Seq<char>>>,
    key: Seq<char>,
    content: Option<Seq<char>>,
) -> Seq<Seq<Seq<char>>> {
    match content {
        None => with_message(chapters, chapter_index(Chapter::Ingest), missing_file_text(key)),
        Some(text) => if parse_cchain_text(text) is Ok {
            chapters
        } else {
            with_message(chapters, chapter_index(Chapter::Ingest), failed_load_text(key))
        },
    }
}

/// The first entry for `key` among `entries`, if there is one.
pub open spec fn entry_of(entries: Seq<CacheEntry>, key: Seq<char>) -> Option<Option<Seq<KeyView>>>
    decreases entries.len(),
{
    if entries.len() == 0 {
        None
    } else if entries[0].key@ == key {
        Some(chains_view(entries[0].chains))
    } else {
        entry_of(entries.drop_first(), key)
    }
}

/// No end point has two entries.
pub open spec fn distinct_keys(entries: Seq<CacheEntry>) -> bool {
    forall|i: int, j: int|
        0 <= i < j < entries.len() ==> (#[trigger] entries[i]).key@ != (#[trigger] entries[j]).key@
}

/// A cache of expected chains, by end point.
pub struct CChainEndPointCache {
    path: String,
    entries: Vec<CacheEntry>,
}

proof fn lemma_entry_of_absent(entries: Seq<CacheEntry>, key: Seq<char>)
    requires
        forall|j: int| 0 <= j < entries.len() ==> (#[trigger] entries[j]).key@ != key,
    ensures
        entry_of(entries, key) is None,
    decreases entries.len(),
{
    if entries.len() > 0 {
        let rest = entries.drop_first();
        assert forall|j: int| 0 <= j < rest.len() implies (#[trigger] rest[j]).key@ != key by {
            assert(rest[j] == entries[j + 1]);
        }
        lemma_entry_of_absent(rest, key);
    }
}

proof fn lemma_entry_of_none(entries: Seq<CacheEntry>, key: Seq<char>)
    requires
        entry_of(entries, key) is None,
    ensures
        forall|j: int| 0 <= j < entries.len() ==> (#[trigger] entries[j]).key@ != key,
    decreases entries.len(),
{
    if entries.len() > 0 {
        let rest = entries.drop_first();
        lemma_entry_of_none(rest, key);
        assert forall|j: int| 0 <= j < entries.len() implies (#[trigger] entries[j]).key@ != key by {
            if j > 0 {
                assert(entries[j] == rest[j - 1]);
            }
        }
    }
}

proof fn lemma_entry_of_at(entries: Seq<CacheEntry>, key: Seq<char>, i: int)
    requires
        0 <= i < entries.len(),
        entries[i].key@ == key,
        forall|j: int| 0 <= j < i ==> (#[trigger] entries[j]).key@ != key,
    ensures
        entry_of(entries, key) == Some(chains_view(entries[i].chains)),
    decreases i,
{
    if i > 0 {
        let rest = entries.drop_first();
        assert forall|j: int| 0 <= j < i - 1 implies (#[trigger] rest[j]).key@ != key by {
            assert(rest[j] == entries[j + 1]);
        }
        lemma_entry_of_at(rest, key, i - 1);
    }
}

proof fn lemma_entry_of_push(entries: Seq<CacheEntry>, e: CacheEntry, key: Seq<char>)
    ensures
        entry_of(entries.push(e), key) == if entry_of(entries, key) is Some {
            entry_of(entries, key)
        } else if e.key@ == key {
            Some(chains_view(e.chains))
        } else {
            None
        },
    decreases entries.len(),
{
    if entries.len() == 0 {
        assert(entries.push(e).drop_first() =~= entries);
    } else {
        assert(entries.push(e).drop_first() =~= entries.drop_first().push(e));
        lemma_entry_of_push(entries.drop_first(), e, key);
    }
}

impl CChainEndPointCache {
    /// No end point is held twice.
    pub closed spec fn well_formed(&self) -> bool {
        distinct_keys(self.entries@)
    }

    /// The folder in which the chain files lie.
    pub closed spec fn folder(&self) -> Seq<char> {
        self.path@
    }

    /// What the cache holds for an end point: `None` while the end point has
    /// not been loaded, else what loading it gave.
    pub closed spec fn entry(&self, key: Seq<char>) -> Option<Option<Seq<KeyView>>> {
        entry_of(self.entries@, key)
    }

    /// The number of end points that have been loaded.
    pub closed spec fn loads(&self) -> nat {
        self.entries@.len()
    }

    /// An empty cache over the chain files in `path`.
    pub fn new(path: String) -> (r: Self)
        ensures
            r.well_formed(),
            r.folder() == path@,
            r.loads() == 0,
            forall|key: Seq<char>| r.entry(key) is None,
    {
        CChainEndPointCache { path, entries: Vec::new() }
    }

    /// The folder in which the chain files lie.
    pub fn path(&self) -> (r: &str)
        ensures
            r@ == self.folder(),
    {
        self.path.as_str()
    }

    fn position(&self, key: &str) -> (r: Option<usize>)
        ensures
            match r {
                Some(i) => i < self.entries.len() && self.entry(key@) == Some(
                    chains_view(self.entries@[i as int].chains),
                ),
                None => self.entry(key@) is None,
            },
    {
        let wanted = chars_of(key);
        let mut i: usize = 0;
        while i < self.entries.len()
            invariant
                i <= self.entries.len(),
                wanted@ == key@,
                forall|j: int| 0 <= j < i ==> (#[trigger] self.entries@[j]).key@ != key@,
            decreases self.entries.len() - i,
        {
            let here = chars_of(self.entries[i].key.as_str());
            if same_chars(&here, &wanted) {
                proof {
                    lemma_entry_of_at(self.entries@, key@, i as int);
                }
                return Some(i);
            }
            i += 1;
        }
        proof {
            lemma_entry_of_absent(self.entries@, key@);
        }
        None
    }

    /// Whether the end point has been loaded, so that its file need not be
    /// read.
    pub fn is_loaded(&self, key: &str) -> (r: bool)
        ensures
            r == self.entry(key@).is_some(),
    {
        self.position(key).is_some()
    }

    /// The expected chains of an end point, from memory: `None` where the end
    /// point has not been loaded or has no chains.
    pub fn get_cchain_key(&self, key: &str) -> (r: Option<&EndPointCChain>)
        ensures
            match r {
                Some(chains) => self.entry(key@) == Some(Some(keys_view(chains@))),
                None => self.entry(key@) is None || self.entry(key@) == Some(
                    None::<Seq<KeyView>>,
                ),
            },
    {
        match self.position(key) {
            Some(i) => self.entries[i].chains.as_ref(),
            None => None,
        }
    }

    /// Takes in what reading the file of an end point gave: the file's text,
    /// or `None` where there is no file. An end point that is already loaded
    /// keeps what it has. A file that is missing, or that does not hold
    /// chains, is noted in the report. Tells whether the end point was
    /// stored now.
    pub fn store_loaded(&mut self, report: &mut Report, key: &str, content: Option<&str>) -> (stored:
        bool)
        requires
            old(self).well_formed(),
        ensures
            final(self).well_formed(),
            final(self).folder() == old(self).folder(),
            stored == old(self).entry(key@).is_none(),
            forall|other: Seq<char>| other != key@ ==> final(self).entry(other) == old(self).entry(other),
            final(self).entry(key@) == if stored {
                Some(
                    loaded_chains(
                        match content {
                            Some(text) => Some(text@),
                            None => None,
                        },
                    ),
                )
            } else {
                old(self).entry(key@)
            },
            final(self).loads() == old(self).loads() + if stored {
                1nat
            } else {
                0nat
            },
            final(report)@ == if stored {
                with_load_note(
                    old(report)@,
                    key@,
                    match content {
                        Some(text) => Some(text@),
                        None => None,
                    },
                )
            } else {
                old(report)@
            },
    {
        if self.position(key).is_some() {
            return false;
        }
        let chains: Option<EndPointCChain> = match content {
            Some(text) => match read_cchain_file(text) {
                Ok(keys) => Some(keys),
                Err(_) => {
                    let mut note = chars_of("Loading of entry '");
                    push_str_chars(&mut note, key);
                    push_str_chars(&mut note, "' failed");
                    report.report(Chapter::Ingest, string_of(&note));
                    None
                },
            },
            None => {
                let mut note = chars_of("Could not find '");
                push_str_chars(&mut note, cchain_filename(key).as_str());
                push_str_chars(&mut note, "' so no call-chain available");
                report.report(Chapter::Ingest, string_of(&note));
                None
            },
        };
        let entry = CacheEntry { key: key.to_owned(), chains };
        proof {
            assert forall|other: Seq<char>| true implies entry_of(self.entries@.push(entry), other)
                == if entry_of(self.entries@, other) is Some {
                entry_of(self.entries@, other)
            } else if entry.key@ == other {
                Some(chains_view(entry.chains))
            } else {
                None
            } by {
                lemma_entry_of_push(self.entries@, entry, other);
            }
            lemma_entry_of_none(self.entries@, key@);
        }
        self.entries.push(entry);
        true
    }
}

} // verus!
