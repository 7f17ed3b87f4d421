//! The work queue: the words not yet handed out, shared by every worker of a
//! run behind one lock, each taken by exactly one worker.
use vstd::multiset::Multiset;
use vstd::prelude::*;

verus! {

broadcast use vstd::seq_lib::group_to_multiset_ensures;

/// The words still pending, with a ghost record of the words the queue was
/// loaded with and of the words handed out so far, in order.
pub struct WorkQueue {
    items: Vec<String>,
    loaded: Ghost<Seq<String>>,
    delivered: Ghost<Seq<String>>,
}

impl WorkQueue {
    /// The words not handed out yet.
    pub closed spec fn pending(&self) -> Seq<String> {
        self.items@
    }

    /// The words the queue was loaded with.
    pub closed spec fn loaded(&self) -> Seq<String> {
        self.loaded@
    }

    /// The words handed out so far, in the order they were taken.
    pub closed spec fn delivered(&self) -> Seq<String> {
        self.delivered@
    }

    /// No word is lost or duplicated: the pending and the delivered words
    /// together are, as a multiset, the words loaded.
    pub closed spec fn wf(&self) -> bool {
        self.items@.to_multiset().add(self.delivered@.to_multiset())
            == self.loaded@.to_multiset()
    }

    /// A queue holding `words`, none of them handed out.
    pub fn new(words: Vec<String>) -> (r: WorkQueue)
        ensures
            r.wf(),
            r.pending() == words@,
            r.loaded() == words@,
            r.delivered() == Seq::<String>::empty(),
    {
        let ghost loaded = words@;
        let q = WorkQueue { items: words, loaded: Ghost(loaded), delivered: Ghost(Seq::empty()) };
        assert(q.items@.to_multiset().add(q.delivered@.to_multiset()) =~= q.loaded@.to_multiset());
        q
    }

    /// Number of words not handed out yet.
    pub fn len(&self) -> (r: usize)
        ensures
            r == self.pending().len(),
    {
        self.items.len()
    }

    /// Whether every word has been handed out.
    pub fn is_empty(&self) -> (r: bool)
        ensures
            r == (self.pending().len() == 0),
    {
        self.items.len() == 0
    }

    /// Hands out one pending word and marks it taken, or `None` once nothing is
    /// pending. The last word of the pending sequence goes first.
    pub fn try_take(&mut self) -> (r: Option<String>)
        requires
            old(self).wf(),
        ensures
            final(self).wf(),
            final(self).loaded() == old(self).loaded(),
            old(self).pending().len() == 0 ==> {
                &&& r is None
                &&& final(self).pending() == old(self).pending()
                &&& final(self).delivered() == old(self).delivered()
            },
            old(self).pending().len() > 0 ==> {
                &&& r == Some(old(self).pending().last())
                &&& final(self).pending() == old(self).pending().drop_last()
                &&& final(self).delivered() == old(self).delivered().push(old(self).pending().last())
            },
    {
        let ghost before = self.items@;
        match self.items.pop() {
            None => None,
            Some(w) => {
                proof {
                    assert(before == self.items@.push(w));
                    self.delivered@ = self.delivered@.push(w);
                    assert(self.items@.to_multiset().add(self.delivered@.to_multiset())
                        =~= before.to_multiset().add(old(self).delivered@.to_multiset()));
                }
                Some(w)
            },
        }
    }
}

/// No word is lost or duplicated: at every moment the words pending and the
/// words handed out together are the words loaded, counted with multiplicity.
pub proof fn lemma_conserved(q: WorkQueue)
    requires
        q.wf(),
    ensures
        q.pending().to_multiset().add(q.delivered().to_multiset()) == q.loaded().to_multiset(),
{
}

/// Exactly-once delivery: once the queue is drained, the words handed out, with
/// multiplicity, are exactly the words loaded, whatever the number of workers
/// and however their takes interleaved.
pub proof fn lemma_drained_exactly_once(q: WorkQueue)
    requires
        q.wf(),
        q.pending().len() == 0,
    ensures
        q.delivered().to_multiset() == q.loaded().to_multiset(),
{
    assert(q.pending().to_multiset() =~= Multiset::<String>::empty());
    assert(q.pending().to_multiset().add(q.delivered().to_multiset()) =~= q.delivered().to_multiset());
}

} // verus!
