//! The persistent document store seen by the server, and an in-memory store.

use vstd::prelude::*;

use crate::document::Document;

verus! {

/// A store of named, versioned documents.
///
/// Each store gives a model of its contents (`stored`) and says whether it is
/// `reliable`: whether reads, and updates of stored documents whose version
/// counter has room, always succeed.
pub trait DocumentStore {
    /// The document stored under `name`, if any.
    spec fn stored(&self, name: String) -> Option<Document>;

    /// Whether loads, and updates of a stored document whose version is below
    /// `u64::MAX`, always succeed.
    spec fn reliable(&self) -> bool;

    /// The document stored under `name`; an error where the store could not be read.
    fn load(&self, name: &String) -> (r: Result<Option<Document>, String>)
        ensures
            r matches Ok(found) ==> found == self.stored(*name),
            self.reliable() ==> r is Ok,
    ;

    /// Replaces the content stored under `name` and counts one more version;
    /// an error, and no change, where it could not.
    fn update(&mut self, name: &String, new_content: String) -> (r: Result<Document, String>)
        ensures
            final(self).reliable() == old(self).reliable(),
            old(self).reliable() && (old(self).stored(*name) matches Some(prev) && prev.version
                < u64::MAX) ==> r is Ok,
            match r {
                Ok(d) => {
                    &&& old(self).stored(*name) matches Some(prev) && d.version == prev.version + 1
                    &&& d.content == new_content
                    &&& final(self).stored(*name) == Some(d)
                    &&& forall|n: String|
                        n@ != name@ ==> #[trigger] final(self).stored(n) == old(self).stored(n)
                },
                Err(_) => forall|n: String| #[trigger]
                    final(self).stored(n) == old(self).stored(n),
            },
    ;
}

/// Counts over the documents of a store.
#[derive(Debug)]
pub struct DocumentStats {
    pub total_documents: u64,
    pub latest_update: Option<String>,
}

/// The name of the document a fresh store holds.
pub open spec fn default_name() -> Seq<char> {
    "main"@
}

/// The content of the document a fresh store holds.
pub open spec fn default_content() -> Seq<char> {
    "Welcome to collaborative editing with persistence!"@
}

/// The first entry stored under `name`.
pub open spec fn lookup(entries: Seq<(String, Document)>, name: Seq<char>) -> Option<Document>
    decreases entries.len(),
{
    if entries.len() == 0 {
        None
    } else if entries[0].0@ == name {
        Some(entries[0].1)
    } else {
        lookup(entries.drop_first(), name)
    }
}

/// A store that keeps its documents in memory, in order of creation.
pub struct MemoryStore {
    pub entries: Vec<(String, Document)>,
}

proof fn lemma_lookup_skip(entries: Seq<(String, Document)>, name: Seq<char>, i: int)
    requires
        0 <= i < entries.len(),
        forall|k: int| 0 <= k < i ==> (#[trigger] entries[k]).0@ != name,
    ensures
        lookup(entries, name) == lookup(entries.skip(i), name),
    decreases i,
{
    if i > 0 {
        assert(entries.drop_first().skip(i - 1) =~= entries.skip(i));
        lemma_lookup_skip(entries.drop_first(), name, i - 1);
    } else {
        assert(entries.skip(0) =~= entries);
    }
}

proof fn lemma_lookup_absent(entries: Seq<(String, Document)>, name: Seq<char>)
    requires
        forall|k: int| 0 <= k < entries.len() ==> (#[trigger] entries[k]).0@ != name,
    ensures
        lookup(entries, name) is None,
    decreases entries.len(),
{
    if entries.len() > 0 {
        lemma_lookup_absent(entries.drop_first(), name);
    }
}

proof fn lemma_lookup_update(
    entries: Seq<(String, Document)>,
    i: int,
    e: (String, Document),
    n: Seq<char>,
)
    requires
        0 <= i < entries.len(),
        entries[i].0@ == e.0@,
        forall|k: int| 0 <= k < i ==> (#[trigger] entries[k]).0@ != e.0@,
    ensures
        lookup(entries.update(i, e), n) == if n == e.0@ {
            Some(e.1)
        } else {
            lookup(entries, n)
        },
    decreases i,
{
    if i > 0 {
        assert(entries.update(i, e)[0] == entries[0]);
        assert(entries.update(i, e).drop_first() =~= entries.drop_first().update(i - 1, e));
        lemma_lookup_update(entries.drop_first(), i - 1, e, n);
    } else {
        assert(entries.update(i, e)[0] == e);
        assert(entries.update(i, e).drop_first() =~= entries.drop_first());
    }
}

impl MemoryStore {
    /// The document stored under `name`, if any.
    pub open spec fn contents(&self, name: Seq<char>) -> Option<Document> {
        lookup(self.entries@, name)
    }

    /// A store holding only the default document, at version 0.
    pub fn new_in_memory() -> (r: Self)
        ensures
            r.contents(default_name()) matches Some(d) && d.content@ == default_content()
                && d.version == 0,
            forall|n: Seq<char>| n != default_name() ==> #[trigger] r.contents(n) is None,
    {
        let mut entries: Vec<(String, Document)> = Vec::new();
        entries.push(
            (
                "main".to_owned(),
                Document::new("Welcome to collaborative editing with persistence!".to_owned()),
            ),
        );
        let r = MemoryStore { entries };
        assert(r.entries@[0].0@ == default_name());
        assert forall|n: Seq<char>| n != default_name() implies #[trigger] r.contents(n) is None by {
            assert(r.entries@.drop_first() =~= Seq::<(String, Document)>::empty());
            assert(lookup(r.entries@.drop_first(), n) is None);
        }
        r
    }

    /// The index of the first entry stored under `name`.
    fn find(&self, name: &str) -> (r: Option<usize>)
        ensures
            match r {
                Some(i) => {
                    &&& i < self.entries@.len()
                    &&& self.entries@[i as int].0@ == name@
                    &&& forall|k: int|
                        0 <= k < i ==> (#[trigger] self.entries@[k]).0@ != name@
                },
                None => lookup(self.entries@, name@) is None,
            },
    {
        let key = name.to_owned();
        let mut i: usize = 0;
        while i < self.entries.len()
            invariant
                i <= self.entries@.len(),
                key@ == name@,
                forall|k: int| 0 <= k < i ==> (#[trigger] self.entries@[k]).0@ != name@,
            decreases self.entries@.len() - i,
        {
            if self.entries[i].0 == key {
                return Some(i);
            }
            i += 1;
        }
        proof {
            lemma_lookup_absent(self.entries@, name@);
        }
        None
    }

    /// The number of stored documents; this store keeps no update times.
    pub fn get_stats(&self) -> (r: DocumentStats)
        ensures
            r.total_documents == self.entries@.len(),
            r.latest_update is None,
    {
        DocumentStats { total_documents: self.entries.len() as u64, latest_update: None }
    }

    /// The document stored under `name`; this store is always readable.
    pub fn load_document(&self, name: &str) -> (r: Result<Option<Document>, String>)
        ensures
            r matches Ok(found) && found == self.contents(name@),
    {
        match self.find(name) {
            Some(i) => {
                proof {
                    lemma_lookup_skip(self.entries@, name@, i as int);
                }
                Ok(Some(self.entries[i].1.clone()))
            },
            None => Ok(None),
        }
    }

    /// Replaces the content stored under `name` and counts one more version.
    /// Fails, changing nothing, where nothing is stored under `name` or its
    /// version counter is spent.
    pub fn update_document(&mut self, name: &str, new_content: String) -> (r: Result<Document, String>)
        ensures
            r is Err <==> (old(self).contents(name@) matches Some(prev) ==> prev.version
                == u64::MAX),
            match r {
                Ok(d) => {
                    &&& old(self).contents(name@) matches Some(prev) && d.version == prev.version
                        + 1
                    &&& d.content == new_content
                    &&& final(self).contents(name@) == Some(d)
                    &&& forall|n: Seq<char>|
                        n != name@ ==> #[trigger] final(self).contents(n) == old(self).contents(n)
                },
                Err(_) => final(self).entries == old(self).entries,
            },
    {
        match self.find(name) {
            Some(i) => {
                proof {
                    lemma_lookup_skip(self.entries@, name@, i as int);
                }
                let version = self.entries[i].1.version;
                if version == u64::MAX {
                    let mut msg = "Version counter of '".to_owned();
                    msg.append(name);
                    msg.append("' is exhausted");
                    return Err(msg);
                }
                let d = Document::new_with_version(new_content, version + 1);
                let ghost old_entries = self.entries@;
                let (key, _) = self.entries.remove(i);
                self.entries.insert(i, (key, d.clone()));
                proof {
                    let e = self.entries@[i as int];
                    assert(self.entries@ =~= old_entries.update(i as int, e));
                    assert forall|n: Seq<char>| n != name@ implies #[trigger] lookup(
                        self.entries@,
                        n,
                    ) == lookup(old_entries, n) by {
                        lemma_lookup_update(old_entries, i as int, e, n);
                    }
                    lemma_lookup_update(old_entries, i as int, e, name@);
                }
                Ok(d)
            },
            None => {
                let mut msg = "Document '".to_owned();
                msg.append(name);
                msg.append("' not found");
                Err(msg)
            },
        }
    }
}

impl DocumentStore for MemoryStore {
    open spec fn stored(&self, name: String) -> Option<Document> {
        self.contents(name@)
    }

    open spec fn reliable(&self) -> bool {
        true
    }

    fn load(&self, name: &String) -> (r: Result<Option<Document>, String>) {
        self.load_document(name.as_str())
    }

    fn update(&mut self, name: &String, new_content: String) -> (r: Result<Document, String>) {
        self.update_document(name.as_str(), new_content)
    }
}

} // verus!
