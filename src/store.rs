use vstd::prelude::*;

use crate::document::{edited, range_in_bounds, position_in_bounds, TextDocument};
use crate::structures::{Position, TextDocumentContentChangeEvent};
use crate::text::{join_crlf, lemma_join_split, split_crlf};

verus! {

/// Why an operation on the open documents could not be carried out.
#[derive(Clone, Copy, Debug, PartialEq, Eq, Structural)]
pub enum DocumentError {
    /// No document is open under the given URI.
    UnknownDocument,
    /// A position or range lies outside the document's current text.
    PositionOutOfRange,
}

/// The lines that result from applying each change of `changes` in order to
/// `lines`, each against the result of those before it; `None` where a
/// change's range does not lie inside the text it is applied to.
pub open spec fn applied(lines: Seq<Seq<char>>, changes: Seq<TextDocumentContentChangeEvent>) -> Option<
    Seq<Seq<char>>,
>
    decreases changes.len(),
{
    if changes.len() == 0 {
        Some(lines)
    } else {
        match applied(lines, changes.drop_last()) {
            None => None,
            Some(before) => {
                let c = changes.last();
                if range_in_bounds(before, c.range) {
                    Some(edited(before, c.range, c.text@))
                } else {
                    None
                }
            },
        }
    }
}

/// Once a change does not fit, applying any longer run of changes fails too.
proof fn lemma_applied_fails_on(lines: Seq<Seq<char>>, changes: Seq<TextDocumentContentChangeEvent>, m: int)
    requires
        0 < m <= changes.len(),
        applied(lines, changes.take(m)) is None,
    ensures
        applied(lines, changes) is None,
    decreases changes.len() - m,
{
    if m == changes.len() {
        assert(changes.take(m) =~= changes);
    } else {
        assert(changes.take(m + 1).drop_last() =~= changes.take(m));
        lemma_applied_fails_on(lines, changes, m + 1);
    }
}

/// Opening `text` under `uri` makes the document under `uri` read back as
/// `text` split on the line-break convention, whatever was open before; its
/// lines joined with line breaks are `text` exactly.
pub proof fn lemma_open_reads_back(docs: Map<Seq<char>, Seq<Seq<char>>>, uri: Seq<char>, text: Seq<char>)
    ensures
        docs.insert(uri, split_crlf(text)).contains_key(uri),
        docs.insert(uri, split_crlf(text))[uri] == split_crlf(text),
        join_crlf(docs.insert(uri, split_crlf(text))[uri]) == text,
{
    lemma_join_split(text);
}

/// The open documents, each under a URI of its own.
pub struct DocumentStore {
    entries: Vec<(String, TextDocument)>,
    contents: Ghost<Map<Seq<char>, Seq<Seq<char>>>>,
}

impl View for DocumentStore {
    type V = Map<Seq<char>, Seq<Seq<char>>>;

    closed spec fn view(&self) -> Map<Seq<char>, Seq<Seq<char>>> {
        self.contents@
    }
}

impl DocumentStore {
    /// No two entries share a URI, the entries are exactly the view's keys and
    /// values, and every document holds at least one line.
    pub closed spec fn wf(&self) -> bool {
        let e = self.entries@;
        &&& forall|i: int, j: int| 0 <= i < j < e.len() ==> e[i].0@ != e[j].0@
        &&& forall|i: int|
            0 <= i < e.len() ==> {
                &&& #[trigger] self.contents@.contains_key(e[i].0@)
                &&& self.contents@[e[i].0@] == e[i].1@
                &&& e[i].1.wf()
            }
        &&& forall|k: Seq<char>|
            #[trigger] self.contents@.contains_key(k) ==> exists|i: int|
                0 <= i < e.len() && e[i].0@ == k
    }

    /// A store with no open document.
    pub fn new() -> (r: DocumentStore)
        ensures
            r.wf(),
            r@ == Map::<Seq<char>, Seq<Seq<char>>>::empty(),
    {
        DocumentStore { entries: Vec::new(), contents: Ghost(Map::empty()) }
    }

    /// The index of the entry under `uri`, if there is one.
    fn find(&self, uri: &String) -> (r: Option<usize>)
        requires
            self.wf(),
        ensures
            match r {
                Some(i) => i < self.entries@.len() && self.entries@[i as int].0@ == uri@,
                None => !self@.contains_key(uri@),
            },
    {
        let mut i: usize = 0;
        while i < self.entries.len()
            invariant
                self.wf(),
                i <= self.entries@.len(),
                forall|j: int| 0 <= j < i ==> self.entries@[j].0@ != uri@,
            decreases self.entries@.len() - i,
        {
            if self.entries[i].0 == *uri {
                return Some(i);
            }
            i = i + 1;
        }
        None
    }

    /// The document under `uri`, if one is open.
    pub fn get(&self, uri: &String) -> (r: Option<&TextDocument>)
        requires
            self.wf(),
        ensures
            match r {
                Some(d) => self@.contains_key(uri@) && d@ == self@[uri@] && d.wf(),
                None => !self@.contains_key(uri@),
            },
    {
        match self.find(uri) {
            Some(i) => {
                assert(self.contents@.contains_key(self.entries@[i as int].0@));
                Some(&self.entries[i].1)
            },
            None => None,
        }
    }

    /// Opens `text` under `uri`, replacing whatever was open there.
    pub fn open(&mut self, uri: String, text: &str)
        requires
            old(self).wf(),
        ensures
            final(self).wf(),
            final(self)@ == old(self)@.insert(uri@, split_crlf(text@)),
    {
        let doc = TextDocument::from_text(text);
        let ghost key = uri@;
        let ghost new_contents = self.contents@.insert(key, doc@);
        match self.find(&uri) {
            Some(i) => {
                let ghost old_entries = self.entries@;
                self.entries.set(i, (uri, doc));
                self.contents = Ghost(new_contents);
                proof {
                    assert forall|k: Seq<char>| #[trigger] self.contents@.contains_key(k) implies exists|j: int|
                        0 <= j < self.entries@.len() && self.entries@[j].0@ == k by {
                        if k != key {
                            assert(old(self).contents@.contains_key(k));
                            let j = choose|j: int| 0 <= j < old_entries.len() && old_entries[j].0@ == k;
                            assert(self.entries@[j].0@ == k);
                        } else {
                            assert(self.entries@[i as int].0@ == k);
                        }
                    }
                }
            },
            None => {
                let ghost old_entries = self.entries@;
                self.entries.push((uri, doc));
                self.contents = Ghost(new_contents);
                proof {
                    let n = old_entries.len() as int;
                    assert forall|k: Seq<char>| #[trigger] self.contents@.contains_key(k) implies exists|j: int|
                        0 <= j < self.entries@.len() && self.entries@[j].0@ == k by {
                        if k != key {
                            assert(old(self).contents@.contains_key(k));
                            let j = choose|j: int| 0 <= j < old_entries.len() && old_entries[j].0@ == k;
                            assert(self.entries@[j].0@ == k);
                        } else {
                            assert(self.entries@[n].0@ == k);
                        }
                    }
                    assert forall|a: int, b: int| 0 <= a < b < self.entries@.len() implies
                        self.entries@[a].0@ != self.entries@[b].0@ by {
                        if b == n {
                            assert(old(self).contents@.contains_key(old_entries[a].0@));
                        }
                    }
                }
            },
        }
    }

    /// Applies each of `changes` in order to the document under `uri`, each
    /// against the text that the ones before it left. Nothing changes where
    /// the document is not open or a change's range does not fit.
    pub fn apply_changes(&mut self, uri: &String, changes: &Vec<TextDocumentContentChangeEvent>) -> (r:
        Result<(), DocumentError>)
        requires
            old(self).wf(),
        ensures
            final(self).wf(),
            !old(self)@.contains_key(uri@) ==> r == Err::<(), DocumentError>(DocumentError::UnknownDocument)
                && final(self)@ == old(self)@,
            old(self)@.contains_key(uri@) ==> match applied(old(self)@[uri@], changes@) {
                Some(lines) => r is Ok && final(self)@ == old(self)@.insert(uri@, lines),
                None => r == Err::<(), DocumentError>(DocumentError::PositionOutOfRange)
                    && final(self)@ == old(self)@,
            },
    {
        match self.find(uri) {
            None => Err(DocumentError::UnknownDocument),
            Some(i) => {
                let ghost key = uri@;
                let ghost start = self.contents@[key];
                assert(self.contents@.contains_key(self.entries@[i as int].0@));
                let mut work = self.entries[i].1.copy();
                let mut k: usize = 0;
                assert(changes@.take(0) =~= Seq::<TextDocumentContentChangeEvent>::empty());
                while k < changes.len()
                    invariant
                        k <= changes@.len(),
                        applied(start, changes@.take(k as int)) == Some(work@),
                        work.wf(),
                        self.wf(),
                        self@ == old(self)@,
                        self.entries@ == old(self).entries@,
                        key == uri@,
                        i < self.entries@.len(),
                        self.entries@[i as int].0@ == key,
                        self@.contains_key(key),
                        start == self@[key],
                    decreases changes@.len() - k,
                {
                    let c = &changes[k];
                    assert(changes@.take(k + 1).drop_last() =~= changes@.take(k as int));
                    assert(changes@.take(k + 1).last() == changes@[k as int]);
                    if !work.range_fits(&c.range) {
                        proof {
                            lemma_applied_fails_on(start, changes@, k + 1);
                        }
                        return Err(DocumentError::PositionOutOfRange);
                    }
                    work.edit(&c.range, c.text.as_str());
                    k = k + 1;
                }
                assert(changes@.take(k as int) =~= changes@);
                let ghost old_entries = self.entries@;
                let ghost new_view = work@;
                self.entries.set(i, (uri.clone(), work));
                self.contents = Ghost(self.contents@.insert(key, new_view));
                proof {
                    assert forall|k: Seq<char>| #[trigger] self.contents@.contains_key(k) implies exists|j: int|
                        0 <= j < self.entries@.len() && self.entries@[j].0@ == k by {
                        if k != key {
                            assert(old(self).contents@.contains_key(k));
                            let j = choose|j: int| 0 <= j < old_entries.len() && old_entries[j].0@ == k;
                            assert(self.entries@[j].0@ == k);
                        } else {
                            assert(self.entries@[i as int].0@ == k);
                        }
                    }
                }
                Ok(())
            },
        }
    }

    /// The text of the line addressed by `position` in the document under
    /// `uri`, from `position` to the line's end.
    pub fn value_at(&self, uri: &String, position: &Position) -> (r: Result<String, DocumentError>)
        requires
            self.wf(),
        ensures
            !self@.contains_key(uri@) ==> r == Err::<String, DocumentError>(DocumentError::UnknownDocument),
            self@.contains_key(uri@) && !position_in_bounds(self@[uri@], *position) ==> r == Err::<
                String,
                DocumentError,
            >(DocumentError::PositionOutOfRange),
            self@.contains_key(uri@) && position_in_bounds(self@[uri@], *position) ==> (r matches Ok(s)
                && s@ == self@[uri@][position.line as int].skip(position.character as int)),
    {
        match self.get(uri) {
            None => Err(DocumentError::UnknownDocument),
            Some(doc) => {
                if doc.position_fits(position) {
                    Ok(doc.value_at(position))
                } else {
                    Err(DocumentError::PositionOutOfRange)
                }
            },
        }
    }

    /// Closes the document under `uri`.
    pub fn close(&mut self, uri: &String) -> (r: Result<(), DocumentError>)
        requires
            old(self).wf(),
        ensures
            final(self).wf(),
            old(self)@.contains_key(uri@) ==> r is Ok && final(self)@ == old(self)@.remove(uri@),
            !old(self)@.contains_key(uri@) ==> r == Err::<(), DocumentError>(DocumentError::UnknownDocument)
                && final(self)@ == old(self)@,
    {
        match self.find(uri) {
            Some(i) => {
                let ghost old_entries = self.entries@;
                let ghost key = uri@;
                self.entries.remove(i);
                self.contents = Ghost(self.contents@.remove(key));
                proof {
                    assert forall|j: int| 0 <= j < self.entries@.len() implies
                        #[trigger] self.entries@[j] == old_entries[if j < i { j } else { j + 1 }] by {}
                    assert forall|a: int, b: int| 0 <= a < b < self.entries@.len() implies
                        self.entries@[a].0@ != self.entries@[b].0@ by {
                        let a0 = if a < i { a } else { a + 1 };
                        let b0 = if b < i { b } else { b + 1 };
                        assert(self.entries@[a] == old_entries[a0]);
                        assert(self.entries@[b] == old_entries[b0]);
                    }
                    assert forall|j: int| 0 <= j < self.entries@.len() implies {
                        &&& #[trigger] self.contents@.contains_key(self.entries@[j].0@)
                        &&& self.contents@[self.entries@[j].0@] == self.entries@[j].1@
                        &&& self.entries@[j].1.wf()
                    } by {
                        let j0 = if j < i { j } else { j + 1 };
                        assert(self.entries@[j] == old_entries[j0]);
                        assert(old_entries[j0].0@ != key);
                        assert(old(self).contents@.contains_key(old_entries[j0].0@));
                    }
                    assert forall|k: Seq<char>| #[trigger] self.contents@.contains_key(k) implies exists|j: int|
                        0 <= j < self.entries@.len() && self.entries@[j].0@ == k by {
                        assert(old(self).contents@.contains_key(k));
                        let j = choose|j: int| 0 <= j < old_entries.len() && old_entries[j].0@ == k;
                        if j < i {
                            assert(self.entries@[j].0@ == k);
                        } else {
                            assert(self.entries@[j - 1].0@ == k);
                        }
                    }
                }
                Ok(())
            },
            None => Err(DocumentError::UnknownDocument),
        }
    }
}

} // verus!
