//! Ordered static registration.
//!
//! Declaration sites scattered across a program each contribute one payload
//! under a registry id. Registration links every new entry to the one before
//! it, building a singly linked, order-preserving chain per id; a collector
//! later walks a chain once, forces each deferred payload exactly once, and
//! memoizes the resulting ordered collection for all later callers.

use vstd::prelude::*;

verus! {

/// One registration record of a chain.
///
/// The record at position 0 is the sentinel: it anchors the chain, carries no
/// payload and is never surfaced by the collector.
pub struct Node<T> {
    /// Position of this node within its chain; the sentinel sits at 0.
    pub index: usize,
    /// The deferred payload: present from registration until the collector
    /// forces it, absent on the sentinel.
    pub payload: Option<T>,
    /// How many times the payload thunk of this node has been forced.
    pub calls: u64,
    /// Whether this node is the current tail of its chain.
    pub is_terminal: bool,
    /// Position of the following node; a terminal node points at itself.
    pub next: usize,
}

/// One registry id's chain of registrations, together with the collector's
/// memoized ordered collection.
pub struct Chain<T> {
    /// The nodes, addressed by index; `nodes[0]` is the sentinel.
    pub nodes: Vec<Node<T>>,
    /// The materialized ordered collection, filled by the first walk.
    pub cache: Option<Vec<T>>,
}

impl<T> Chain<T> {
    /// Structural well-formedness: indices are gap-free from the sentinel on,
    /// exactly the highest node is terminal, every node links forward to its
    /// successor, and the deferred payloads are all present (before
    /// materialization) or all spent with one recorded call each (after).
    pub open spec fn wf(self) -> bool {
        &&& 1 <= self.nodes@.len()
        &&& forall|i: int|
            0 <= i < self.nodes@.len() ==> (#[trigger] self.nodes@[i]).index == i
        &&& forall|i: int|
            0 <= i < self.nodes@.len() ==> ((#[trigger] self.nodes@[i]).is_terminal <==> i
                == self.nodes@.len() - 1)
        &&& forall|i: int|
            0 <= i < self.nodes@.len() ==> (#[trigger] self.nodes@[i]).next == (
            if i == self.nodes@.len() - 1 {
                i
            } else {
                i + 1
            })
        &&& self.nodes@[0].payload is None
        &&& self.nodes@[0].calls == 0
        &&& match self.cache {
            None => forall|i: int|
                1 <= i < self.nodes@.len() ==> (#[trigger] self.nodes@[i]).payload is Some
                    && self.nodes@[i].calls == 0,
            Some(c) => {
                &&& c@.len() == self.nodes@.len() - 1
                &&& forall|i: int|
                    1 <= i < self.nodes@.len() ==> (#[trigger] self.nodes@[i]).payload is None
                        && self.nodes@[i].calls == 1
            },
        }
    }

    /// The ordered collection this chain stands for: the registered payloads
    /// in declaration order, read from the memoized collection once the chain
    /// is materialized.
    pub open spec fn payloads(self) -> Seq<T> {
        match self.cache {
            Some(c) => c@,
            None => Seq::new(
                (self.nodes@.len() - 1) as nat,
                |i: int| self.nodes@[i + 1].payload->0,
            ),
        }
    }

    /// How many times each registered payload thunk has been forced, in
    /// declaration order.
    pub open spec fn call_counts(self) -> Seq<u64> {
        Seq::new((self.nodes@.len() - 1) as nat, |i: int| self.nodes@[i + 1].calls)
    }

    /// Whether the collector has already materialized this chain.
    pub open spec fn materialized(self) -> bool {
        self.cache is Some
    }

    /// A chain with no registrations: just the terminal sentinel.
    pub fn empty() -> (r: Chain<T>)
        ensures
            r.wf(),
            !r.materialized(),
            r.payloads() == Seq::<T>::empty(),
            r.call_counts() == Seq::<u64>::empty(),
    {
        let mut nodes: Vec<Node<T>> = Vec::new();
        nodes.push(Node { index: 0, payload: None, calls: 0, is_terminal: true, next: 0 });
        let r = Chain { nodes, cache: None };
        proof {
            assert(r.payloads() =~= Seq::<T>::empty());
            assert(r.call_counts() =~= Seq::<u64>::empty());
        }
        r
    }

    /// Append one registration: the new node takes the next free index and is
    /// provisionally flagged terminal, and the previous tail is demoted — its
    /// terminal flag cleared and its forward link rewritten to the new node.
    pub fn push_node(&mut self, payload: T)
        requires
            old(self).wf(),
            !old(self).materialized(),
            old(self).nodes@.len() < usize::MAX,
        ensures
            final(self).wf(),
            !final(self).materialized(),
            final(self).payloads() == old(self).payloads().push(payload),
            final(self).call_counts() == old(self).call_counts().push(0u64),
    {
        let n: usize = self.nodes.len();
        let mut tail = Node { index: 0, payload: None, calls: 0, is_terminal: true, next: 0 };
        self.nodes.set_and_swap(n - 1, &mut tail);
        tail.is_terminal = false;
        tail.next = n;
        self.nodes.set_and_swap(n - 1, &mut tail);
        self.nodes.push(Node { index: n, payload: Some(payload), calls: 0, is_terminal: true, next: n });
        proof {
            assert(final(self).payloads() =~= old(self).payloads().push(payload));
            assert(final(self).call_counts() =~= old(self).call_counts().push(0u64));
        }
    }

    /// The collector's one-time walk: starting at the sentinel, repeatedly
    /// follow the forward link until the terminal node has been visited,
    /// forcing each visited node's payload thunk exactly once and appending
    /// the produced payload in traversal order; memoize the result. A chain
    /// that is already materialized is left untouched.
    pub fn materialize(&mut self)
        requires
            old(self).wf(),
        ensures
            final(self).wf(),
            final(self).materialized(),
            final(self).payloads() == old(self).payloads(),
            old(self).materialized() ==> *final(self) == *old(self),
            !old(self).materialized() ==> final(self).call_counts() == Seq::new(
                old(self).call_counts().len(),
                |i: int| 1u64,
            ),
    {
        if self.cache.is_some() {
            return ;
        }
        let ghost orig = *self;
        let len: usize = self.nodes.len();
        let mut result: Vec<T> = Vec::new();
        let mut cur: usize = 0;
        while !self.nodes[cur].is_terminal
            invariant
                self.nodes@.len() == len,
                orig.nodes@.len() == len,
                1 <= len,
                0 <= cur < len,
                orig.wf(),
                !orig.materialized(),
                self.cache is None,
                self.nodes@[0] == orig.nodes@[0],
                forall|j: int|
                    0 <= j < len ==> {
                        &&& (#[trigger] self.nodes@[j]).index == orig.nodes@[j].index
                        &&& self.nodes@[j].is_terminal == orig.nodes@[j].is_terminal
                        &&& self.nodes@[j].next == orig.nodes@[j].next
                    },
                forall|j: int|
                    1 <= j <= cur ==> (#[trigger] self.nodes@[j]).payload is None
                        && self.nodes@[j].calls == 1,
                forall|j: int|
                    cur < j < len ==> #[trigger] self.nodes@[j] == orig.nodes@[j],
                result@.len() == cur,
                forall|i: int| 0 <= i < cur ==> result@[i] == orig.payloads()[i],
            decreases len - cur,
        {
            proof {
                assert(self.nodes@[cur as int].is_terminal == orig.nodes@[cur as int].is_terminal);
                assert(cur < len - 1);
                assert(self.nodes@[cur as int].next == cur + 1);
            }
            let target = self.nodes[cur].next;
            let term = self.nodes[target].is_terminal;
            let nxt = self.nodes[target].next;
            let mut forced = Node {
                index: target,
                payload: None,
                calls: 1,
                is_terminal: term,
                next: nxt,
            };
            self.nodes.set_and_swap(target, &mut forced);
            cur = target;
            match forced.payload {
                Some(p) => result.push(p),
                None => {
                    proof {
                        assert(false);
                    }
                },
            }
        }
        proof {
            assert(cur == len - 1);
            assert(result@ =~= orig.payloads());
        }
        self.cache = Some(result);
        proof {
            assert(final(self).payloads() =~= old(self).payloads());
            assert(final(self).call_counts() =~= Seq::new(
                old(self).call_counts().len(),
                |i: int| 1u64,
            ));
        }
    }
}

/// One named chain held by a [`Registry`].
pub struct RegistryEntry<T> {
    /// The registry id that names this chain.
    pub id: String,
    /// The chain of registrations made under that id.
    pub chain: Chain<T>,
}

/// A set of independent, order-preserving registration chains, partitioned by
/// string registry ids. Registrations under one id never appear under, nor
/// reorder, another id's chain.
///
/// Every chain of one registry shares the payload type `T`: a declaration
/// whose payload disagrees with it does not compile, so a payload-type
/// conflict can never reach a running program.
pub struct Registry<T> {
    /// One entry per registry id that has been touched so far.
    pub entries: Vec<RegistryEntry<T>>,
}

impl<T> Registry<T> {
    /// The chain registered under `id`, if that id has been touched.
    pub open spec fn chain_in(entries: Seq<RegistryEntry<T>>, id: Seq<char>) -> Option<Chain<T>>
        decreases entries.len(),
    {
        if entries.len() == 0 {
            None
        } else if entries[0].id@ == id {
            Some(entries[0].chain)
        } else {
            Self::chain_in(entries.drop_first(), id)
        }
    }

    /// The chain held for `id`, if any.
    pub open spec fn chain_of(self, id: Seq<char>) -> Option<Chain<T>> {
        Self::chain_in(self.entries@, id)
    }

    /// The payloads registered under `id`, in declaration order; an id with
    /// no registrations stands for the empty sequence.
    pub open spec fn payloads_of(self, id: Seq<char>) -> Seq<T> {
        match self.chain_of(id) {
            Some(c) => c.payloads(),
            None => Seq::empty(),
        }
    }

    /// How many times each payload thunk registered under `id` has been
    /// forced, in declaration order.
    pub open spec fn call_counts_of(self, id: Seq<char>) -> Seq<u64> {
        match self.chain_of(id) {
            Some(c) => c.call_counts(),
            None => Seq::empty(),
        }
    }

    /// Whether the collector has already materialized the chain of `id`.
    pub open spec fn materialized_of(self, id: Seq<char>) -> bool {
        match self.chain_of(id) {
            Some(c) => c.materialized(),
            None => false,
        }
    }

    /// Every held chain is well-formed and no two entries share an id.
    pub open spec fn wf(self) -> bool {
        &&& forall|i: int|
            0 <= i < self.entries@.len() ==> (#[trigger] self.entries@[i]).chain.wf()
        &&& forall|i: int, j: int|
            0 <= i < j < self.entries@.len() ==> self.entries@[i].id@ != self.entries@[j].id@
    }

    /// A registry with no registrations under any id.
    pub fn new() -> (r: Registry<T>)
        ensures
            r.wf(),
            forall|id: Seq<char>| #[trigger] r.payloads_of(id) == Seq::<T>::empty(),
            forall|id: Seq<char>| !(#[trigger] r.materialized_of(id)),
    {
        let r = Registry { entries: Vec::new() };
        proof {
            assert(forall|id: Seq<char>| #[trigger] r.chain_of(id) is None);
        }
        r
    }

    /// `chain_in` skips any prefix of entries whose ids all differ from `id`.
    proof fn lemma_chain_in_skip(entries: Seq<RegistryEntry<T>>, id: Seq<char>, k: int)
        requires
            0 <= k <= entries.len(),
            forall|j: int| 0 <= j < k ==> (#[trigger] entries[j]).id@ != id,
        ensures
            Self::chain_in(entries, id) == Self::chain_in(entries.skip(k), id),
        decreases k,
    {
        if k > 0 {
            assert(entries.drop_first().skip(k - 1) =~= entries.skip(k));
            Self::lemma_chain_in_skip(entries.drop_first(), id, k - 1);
        } else {
            assert(entries.skip(0) =~= entries);
        }
    }

    /// Replacing the entry at `i` by one with the same id changes `chain_in`
    /// for that id alone.
    proof fn lemma_chain_in_update(
        entries: Seq<RegistryEntry<T>>,
        i: int,
        e: RegistryEntry<T>,
        id: Seq<char>,
    )
        requires
            0 <= i < entries.len(),
            e.id@ == entries[i].id@,
            forall|a: int, b: int| 0 <= a < b < entries.len() ==> entries[a].id@ != entries[b].id@,
        ensures
            entries[i].id@ == id ==> Self::chain_in(entries.update(i, e), id) == Some(e.chain),
            entries[i].id@ != id ==> Self::chain_in(entries.update(i, e), id) == Self::chain_in(
                entries,
                id,
            ),
        decreases i,
    {
        let updated = entries.update(i, e);
        if i == 0 {
            if entries[0].id@ != id {
                assert(updated.drop_first() =~= entries.drop_first());
            }
        } else {
            assert(updated.drop_first() =~= entries.drop_first().update(i - 1, e));
            Self::lemma_chain_in_update(entries.drop_first(), i - 1, e, id);
        }
    }

    /// Appending an entry with a fresh id changes `chain_in` for that id alone.
    proof fn lemma_chain_in_push(entries: Seq<RegistryEntry<T>>, e: RegistryEntry<T>, id: Seq<char>)
        requires
            forall|j: int| 0 <= j < entries.len() ==> (#[trigger] entries[j]).id@ != e.id@,
        ensures
            e.id@ == id ==> Self::chain_in(entries.push(e), id) == Some(e.chain),
            e.id@ != id ==> Self::chain_in(entries.push(e), id) == Self::chain_in(entries, id),
        decreases entries.len(),
    {
        let appended = entries.push(e);
        assert(appended.len() == entries.len() + 1);
        if entries.len() == 0 {
            assert(appended[0] == e);
            if e.id@ != id {
                assert(Self::chain_in(entries, id) is None);
                assert(appended.drop_first() =~= Seq::<RegistryEntry<T>>::empty());
                assert(Self::chain_in(appended.drop_first(), id) is None);
                assert(Self::chain_in(appended, id) is None);
            }
        } else {
            assert(appended[0] == entries[0]);
            assert(appended.drop_first() =~= entries.drop_first().push(e));
            assert(forall|j: int|
                0 <= j < entries.drop_first().len() ==> (#[trigger] entries.drop_first()[j]).id@
                    == entries[j + 1].id@);
            Self::lemma_chain_in_push(entries.drop_first(), e, id);
            if entries[0].id@ == id {
                assert(Self::chain_in(appended, id) == Some(entries[0].chain));
                assert(Self::chain_in(entries, id) == Some(entries[0].chain));
            } else {
                assert(Self::chain_in(appended, id) == Self::chain_in(
                    entries.drop_first().push(e),
                    id,
                ));
                assert(Self::chain_in(entries, id) == Self::chain_in(entries.drop_first(), id));
            }
        }
    }

    /// Linear search for the entry holding `id`.
    fn find(&self, id: &String) -> (r: Option<usize>)
        requires
            self.wf(),
        ensures
            match r {
                Some(i) => {
                    &&& i < self.entries@.len()
                    &&& self.entries@[i as int].id@ == id@
                    &&& self.chain_of(id@) == Some(self.entries@[i as int].chain)
                },
                None => {
                    &&& self.chain_of(id@) is None
                    &&& forall|j: int|
                        0 <= j < self.entries@.len() ==> (#[trigger] self.entries@[j]).id@ != id@
                },
            },
    {
        let n = self.entries.len();
        let mut i: usize = 0;
        while i < n
            invariant
                self.wf(),
                n == self.entries@.len(),
                0 <= i <= n,
                forall|j: int| 0 <= j < i ==> (#[trigger] self.entries@[j]).id@ != id@,
            decreases n - i,
        {
            if self.entries[i].id.eq(id) {
                proof {
                    Self::lemma_chain_in_skip(self.entries@, id@, i as int);
                    assert(self.entries@.skip(i as int)[0] == self.entries@[i as int]);
                }
                return Some(i);
            }
            i += 1;
        }
        proof {
            Self::lemma_chain_in_skip(self.entries@, id@, n as int);
            assert(self.entries@.skip(n as int) =~= Seq::empty());
        }
        None
    }

    /// Register one payload under `id`: the new node takes the next strictly
    /// increasing index of that id's chain and the previous tail is demoted,
    /// so that a later walk surfaces the payloads in registration order.
    /// Chains of other ids are left exactly as they were, and registration
    /// under an id the collector has already materialized is ruled out: a
    /// chain is immutable from its first materialization on.
    pub fn register(&mut self, id: &str, payload: T)
        requires
            old(self).wf(),
            !old(self).materialized_of(id@),
            old(self).payloads_of(id@).len() + 2 < usize::MAX,
        ensures
            final(self).wf(),
            final(self).payloads_of(id@) == old(self).payloads_of(id@).push(payload),
            final(self).call_counts_of(id@) == old(self).call_counts_of(id@).push(0u64),
            !final(self).materialized_of(id@),
            forall|other: Seq<char>|
                other != id@ ==> #[trigger] final(self).payloads_of(other) == old(self).payloads_of(
                    other,
                ),
            forall|other: Seq<char>|
                other != id@ ==> #[trigger] final(self).materialized_of(other) == old(
                    self,
                ).materialized_of(other),
            forall|other: Seq<char>|
                other != id@ ==> #[trigger] final(self).call_counts_of(other) == old(
                    self,
                ).call_counts_of(other),
    {
        let key = String::from_str(id);
        match self.find(&key) {
            Some(i) => {
                let ghost old_entries = self.entries@;
                let mut taken = RegistryEntry { id: String::new(), chain: Chain::empty() };
                self.entries.set_and_swap(i, &mut taken);
                taken.chain.push_node(payload);
                self.entries.set_and_swap(i, &mut taken);
                proof {
                    let e = self.entries@[i as int];
                    assert(self.entries@ =~= old_entries.update(i as int, e));
                    assert(e.id@ == old_entries[i as int].id@);
                    assert forall|j: int|
                        0 <= j < self.entries@.len() implies (
                    #[trigger] self.entries@[j]).chain.wf() by {
                        if j != i as int {
                            assert(self.entries@[j] == old_entries[j]);
                        }
                    }
                    assert forall|a: int, b: int|
                        0 <= a < b < self.entries@.len() implies self.entries@[a].id@
                        != self.entries@[b].id@ by {
                        if a != i as int {
                            assert(self.entries@[a] == old_entries[a]);
                        }
                        if b != i as int {
                            assert(self.entries@[b] == old_entries[b]);
                        }
                    }
                    assert forall|other: Seq<char>| true implies #[trigger] Self::chain_in(
                        self.entries@,
                        other,
                    ) == (if other == id@ {
                        Some(e.chain)
                    } else {
                        Self::chain_in(old_entries, other)
                    }) by {
                        Self::lemma_chain_in_update(old_entries, i as int, e, other);
                    }
                }
            },
            None => {
                let mut chain = Chain::empty();
                chain.push_node(payload);
                let ghost old_entries = self.entries@;
                let entry = RegistryEntry { id: key, chain };
                let ghost e = entry;
                self.entries.push(entry);
                proof {
                    assert(old(self).payloads_of(id@) =~= Seq::<T>::empty());
                    assert(old(self).call_counts_of(id@) =~= Seq::<u64>::empty());
                    assert(self.entries@ =~= old_entries.push(e));
                    assert forall|j: int|
                        0 <= j < self.entries@.len() implies (
                    #[trigger] self.entries@[j]).chain.wf() by {
                        if j != old_entries.len() {
                            assert(self.entries@[j] == old_entries[j]);
                        }
                    }
                    assert forall|a: int, b: int|
                        0 <= a < b < self.entries@.len() implies self.entries@[a].id@
                        != self.entries@[b].id@ by {
                        if b != old_entries.len() {
                            assert(self.entries@[a] == old_entries[a]);
                            assert(self.entries@[b] == old_entries[b]);
                        } else {
                            assert(self.entries@[a] == old_entries[a]);
                            assert(self.entries@[b] == e);
                        }
                    }
                    assert forall|other: Seq<char>| true implies #[trigger] Self::chain_in(
                        self.entries@,
                        other,
                    ) == (if other == id@ {
                        Some(e.chain)
                    } else {
                        Self::chain_in(old_entries, other)
                    }) by {
                        Self::lemma_chain_in_push(old_entries, e, other);
                    }
                    assert(final(self).payloads_of(id@) =~= old(self).payloads_of(id@).push(
                        payload,
                    ));
                    assert(final(self).call_counts_of(id@) =~= old(self).call_counts_of(id@).push(
                        0u64,
                    ));
                }
            },
        }
    }

    /// Collect the ordered collection of `id`: on the first call for an id
    /// this walks the chain from its sentinel, forces every payload thunk
    /// exactly once, in ascending index order, and memoizes the result; every
    /// call returns the memoized collection, which lists the payloads
    /// registered under `id` in declaration order. An id without
    /// registrations yields the empty collection, never an error, and other
    /// ids' chains are never observed nor disturbed.
    ///
    /// The exclusive borrow serializes callers, so of several callers racing
    /// to a first collection exactly one performs the walk and the thunk
    /// forcing; everyone reads the one memoized collection.
    pub fn collect(&mut self, id: &str) -> (r: &Vec<T>)
        requires
            old(self).wf(),
        ensures
            final(self).wf(),
            r@ == old(self).payloads_of(id@),
            final(self).materialized_of(id@),
            forall|other: Seq<char>| #[trigger]
                final(self).payloads_of(other) == old(self).payloads_of(other),
            forall|other: Seq<char>|
                other != id@ ==> #[trigger] final(self).materialized_of(other) == old(
                    self,
                ).materialized_of(other),
            forall|other: Seq<char>|
                other != id@ ==> #[trigger] final(self).call_counts_of(other) == old(
                    self,
                ).call_counts_of(other),
            final(self).call_counts_of(id@) == Seq::new(
                old(self).payloads_of(id@).len(),
                |i: int| 1u64,
            ),
            old(self).materialized_of(id@) ==> final(self).call_counts_of(id@) == old(
                self,
            ).call_counts_of(id@),
    {
        let key = String::from_str(id);
        let idx: usize = match self.find(&key) {
            Some(i) => i,
            None => {
                let n = self.entries.len();
                let ghost old_entries = self.entries@;
                let entry = RegistryEntry { id: key, chain: Chain::empty() };
                let ghost e = entry;
                self.entries.push(entry);
                proof {
                    assert(self.entries@ =~= old_entries.push(e));
                    assert forall|j: int|
                        0 <= j < self.entries@.len() implies (
                    #[trigger] self.entries@[j]).chain.wf() by {
                        if j != old_entries.len() {
                            assert(self.entries@[j] == old_entries[j]);
                        }
                    }
                    assert forall|a: int, b: int|
                        0 <= a < b < self.entries@.len() implies self.entries@[a].id@
                        != self.entries@[b].id@ by {
                        if b != old_entries.len() {
                            assert(self.entries@[a] == old_entries[a]);
                            assert(self.entries@[b] == old_entries[b]);
                        } else {
                            assert(self.entries@[a] == old_entries[a]);
                            assert(self.entries@[b] == e);
                        }
                    }
                    assert forall|other: Seq<char>| true implies #[trigger] Self::chain_in(
                        self.entries@,
                        other,
                    ) == (if other == id@ {
                        Some(e.chain)
                    } else {
                        Self::chain_in(old_entries, other)
                    }) by {
                        Self::lemma_chain_in_push(old_entries, e, other);
                    }
                    assert(self.entries@[n as int] == e);
                }
                n
            },
        };
        let ghost mid_entries = self.entries@;
        let ghost pre = *self;
        let mut taken = RegistryEntry { id: String::new(), chain: Chain::empty() };
        self.entries.set_and_swap(idx, &mut taken);
        taken.chain.materialize();
        self.entries.set_and_swap(idx, &mut taken);
        proof {
            let e = self.entries@[idx as int];
            assert(self.entries@ =~= mid_entries.update(idx as int, e));
            assert(e.id@ == mid_entries[idx as int].id@);
            assert forall|j: int|
                0 <= j < self.entries@.len() implies (#[trigger] self.entries@[j]).chain.wf() by {
                if j != idx as int {
                    assert(self.entries@[j] == mid_entries[j]);
                }
            }
            assert forall|a: int, b: int|
                0 <= a < b < self.entries@.len() implies self.entries@[a].id@
                != self.entries@[b].id@ by {
                if a != idx as int {
                    assert(self.entries@[a].id@ == mid_entries[a].id@);
                }
                if b != idx as int {
                    assert(self.entries@[b].id@ == mid_entries[b].id@);
                }
            }
            assert forall|other: Seq<char>| true implies #[trigger] Self::chain_in(
                self.entries@,
                other,
            ) == (if other == id@ {
                Some(e.chain)
            } else {
                Self::chain_in(mid_entries, other)
            }) by {
                Self::lemma_chain_in_update(mid_entries, idx as int, e, other);
            }
            assert(old(self).payloads_of(id@) =~= final(self).payloads_of(id@));
            assert(final(self).call_counts_of(id@) =~= Seq::new(
                old(self).payloads_of(id@).len(),
                |i: int| 1u64,
            ));
        }
        match &self.entries[idx].chain.cache {
            Some(v) => v,
            None => unreached(),
        }
    }

    /// The chain a well-formed registry holds for any id is well-formed.
    proof fn lemma_chain_in_wf(entries: Seq<RegistryEntry<T>>, id: Seq<char>)
        requires
            forall|i: int| 0 <= i < entries.len() ==> (#[trigger] entries[i]).chain.wf(),
        ensures
            match Self::chain_in(entries, id) {
                Some(c) => c.wf(),
                None => true,
            },
        decreases entries.len(),
    {
        if entries.len() > 0 && entries[0].id@ != id {
            assert(forall|i: int|
                0 <= i < entries.drop_first().len() ==> (#[trigger] entries.drop_first()[i])
                    == entries[i + 1]);
            Self::lemma_chain_in_wf(entries.drop_first(), id);
        }
    }

    /// Law: once the collector has materialized a registry id, every payload
    /// thunk registered under that id has been forced exactly once — one
    /// recorded call per registration, however many times the collection is
    /// read afterwards.
    pub proof fn lemma_thunks_forced_once(self, id: Seq<char>)
        requires
            self.wf(),
            self.materialized_of(id),
        ensures
            self.call_counts_of(id).len() == self.payloads_of(id).len(),
            forall|i: int|
                0 <= i < self.call_counts_of(id).len() ==> self.call_counts_of(id)[i] == 1,
    {
        Self::lemma_chain_in_wf(self.entries@, id);
    }

    /// Law: an id under which nothing is registered collects to the empty
    /// ordered collection, and its thunk ledger is empty as well.
    pub proof fn lemma_unknown_id_collects_empty(self, id: Seq<char>)
        requires
            self.chain_of(id) is None,
        ensures
            self.payloads_of(id) == Seq::<T>::empty(),
            self.call_counts_of(id) == Seq::<u64>::empty(),
    {
    }

    /// List how many times each payload thunk registered under `id` has been
    /// forced so far, in declaration order.
    pub fn thunk_calls(&self, id: &str) -> (r: Vec<u64>)
        requires
            self.wf(),
        ensures
            r@ == self.call_counts_of(id@),
    {
        let key = String::from_str(id);
        let mut r: Vec<u64> = Vec::new();
        match self.find(&key) {
            Some(e) => {
                let n = self.entries[e].chain.nodes.len();
                let mut i: usize = 1;
                while i < n
                    invariant
                        e < self.entries@.len(),
                        n == self.entries@[e as int].chain.nodes@.len(),
                        1 <= i <= n,
                        r@.len() == i - 1,
                        forall|j: int|
                            0 <= j < i - 1 ==> r@[j] == self.entries@[e as int].chain.nodes@[j
                                + 1].calls,
                    decreases n - i,
                {
                    r.push(self.entries[e].chain.nodes[i].calls);
                    i += 1;
                }
                proof {
                    assert(r@ =~= self.entries@[e as int].chain.call_counts());
                }
            },
            None => {
                proof {
                    assert(r@ =~= self.call_counts_of(id@));
                }
            },
        }
        r
    }
}

} // verus!
