//! The stash: the ordered collection of currently loaded memos.
//!
//! Order is insertion order and is significant. Removing an entry shifts
//! the indices after it and never touches the backing file: file deletion
//! is a separate, explicit operation coordinated by the caller.

use vstd::prelude::*;

use crate::error::Error;
use crate::memo::{loaded, Memo, MemoModel};

verus! {

/// The ordered collection of loaded memos.
pub struct Stash {
    stash: Vec<Memo>,
}

impl View for Stash {
    type V = Seq<MemoModel>;

    closed spec fn view(&self) -> Seq<MemoModel> {
        self.stash@.map_values(|m: Memo| m@)
    }
}

impl Stash {
    /// An empty stash.
    pub fn new() -> (s: Stash)
        ensures
            s@ == Seq::<MemoModel>::empty(),
    {
        let s = Stash { stash: Vec::new() };
        proof {
            assert(s@ =~= Seq::<MemoModel>::empty());
        }
        s
    }

    /// Appends a memo at the end.
    pub fn push(&mut self, memo: Memo)
        ensures
            final(self)@ == old(self)@.push(memo@),
    {
        self.stash.push(memo);
        proof {
            assert(self@ =~= old(self)@.push(memo@));
        }
    }

    /// Removes the memo at `idx`, shifting later entries down, or fails
    /// with an out-of-range error when no such position exists.
    pub fn remove(&mut self, idx: usize) -> (r: Result<(), Error>)
        ensures
            idx < old(self)@.len() ==> r is Ok && final(self)@ == old(self)@.remove(idx as int),
            idx >= old(self)@.len() ==> r is Err && r->Err_0@ == "Index out of bounds"@
                && final(self)@ == old(self)@,
    {
        if idx >= self.stash.len() {
            return Err(Error::new("Index out of bounds"));
        }
        self.stash.remove(idx);
        proof {
            assert(self@ =~= old(self)@.remove(idx as int));
        }
        Ok(())
    }

    /// How many memos are loaded.
    pub fn len(&self) -> (n: usize)
        ensures
            n == self@.len(),
    {
        self.stash.len()
    }

    /// The memo at `idx`.
    pub fn get(&self, idx: usize) -> (m: &Memo)
        requires
            idx < self@.len(),
        ensures
            m@ == self@[idx as int],
    {
        &self.stash[idx]
    }

    /// The backing file to hand to an external editor: the path of the
    /// memo at `idx`, or an out-of-range error when no such position
    /// exists.
    pub fn edit_target(&self, idx: usize) -> (r: Result<&String, Error>)
        ensures
            idx < self@.len() ==> r is Ok && r->Ok_0@ == self@[idx as int].path,
            idx >= self@.len() ==> r is Err && r->Err_0@ == "Index out of bounds"@,
    {
        if idx >= self.stash.len() {
            return Err(Error::new("Index out of bounds"));
        }
        Ok(self.stash[idx].path())
    }
}

/// One locally listed memo file: its path and the content read from it.
pub struct LocalMemoFile {
    pub path: String,
    pub content: String,
}

/// Loads every listed local memo file into the stash, in listing order,
/// each validated against the content read from it.
#[verifier::loop_isolation(false)]
pub fn fill_stash_with_local(stash: &mut Stash, entries: &Vec<LocalMemoFile>)
    ensures
        final(stash)@ == old(stash)@ + entries@.map_values(
            |e: LocalMemoFile| loaded(e.path@, e.content@),
        ),
{
    let ghost mapped = entries@.map_values(|e: LocalMemoFile| loaded(e.path@, e.content@));
    let mut i: usize = 0;
    while i < entries.len()
        invariant
            i <= entries@.len(),
            stash@ == old(stash)@ + mapped.take(i as int),
        decreases entries@.len() - i,
    {
        let memo = Memo::with_content(entries[i].path.clone(), entries[i].content.as_str());
        stash.push(memo);
        proof {
            assert(old(stash)@ + mapped.take(i as int) + seq![mapped[i as int]] =~= old(stash)@
                + mapped.take(i + 1));
        }
        i += 1;
    }
    proof {
        assert(mapped.take(entries@.len() as int) =~= mapped);
    }
}

} // verus!
