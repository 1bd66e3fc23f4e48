//! The mapping from instrument key to handler.
//!
//! Handlers are registered before a connection is opened and are never
//! removed during a session; the registry's keys build the subscription
//! request, and the dispatch path looks tickers up by their instrument
//! key.

use vstd::prelude::*;

use crate::models::Ticker;

verus! {

/// A callback capable of consuming one ticker record.
///
/// Implementors are supplied by the caller; they are invoked synchronously
/// on the dispatch path, and no contract is imposed on them.
pub trait TickerHandler {
    /// Consume one ticker record.
    fn on_ticker(&self, ticker: Ticker);
}

/// One binding of an instrument key to a handler.
pub struct HandlerEntry<H> {
    /// The instrument key (e.g. "BTC-USD").
    pub key: String,
    /// The handler invoked for tickers carrying that key.
    pub handler: H,
}

/// The keys of a sequence of entries, in order, as character sequences.
pub open spec fn entry_keys<H>(s: Seq<HandlerEntry<H>>) -> Seq<Seq<char>> {
    s.map_values(|e: HandlerEntry<H>| e.key@)
}

/// The position of the first entry whose key is `k`, if any.
pub open spec fn spec_lookup<H>(s: Seq<HandlerEntry<H>>, k: Seq<char>) -> Option<int>
    decreases s.len(),
{
    if s.len() == 0 {
        None
    } else if s[0].key@ == k {
        Some(0int)
    } else {
        match spec_lookup(s.drop_first(), k) {
            Some(i) => Some(i + 1),
            None => None,
        }
    }
}

/// What `spec_lookup` finds: the first entry with the key, or a proof that
/// no entry has it.
pub proof fn lemma_lookup_properties<H>(s: Seq<HandlerEntry<H>>, k: Seq<char>)
    ensures
        match spec_lookup(s, k) {
            Some(i) => 0 <= i < s.len() && s[i].key@ == k && (forall|j: int|
                0 <= j < i ==> s[j].key@ != k),
            None => forall|j: int| 0 <= j < s.len() ==> s[j].key@ != k,
        },
    decreases s.len(),
{
    if s.len() > 0 && s[0].key@ != k {
        lemma_lookup_properties(s.drop_first(), k);
        assert(forall|j: int| 1 <= j < s.len() ==> s[j] == s.drop_first()[j - 1]);
    }
}

/// If entry `i` holds the key and no earlier entry does, the lookup finds
/// exactly `i`.
pub proof fn lemma_lookup_at<H>(s: Seq<HandlerEntry<H>>, k: Seq<char>, i: int)
    requires
        0 <= i < s.len(),
        s[i].key@ == k,
        forall|j: int| 0 <= j < i ==> s[j].key@ != k,
    ensures
        spec_lookup(s, k) == Some(i),
    decreases i,
{
    if i > 0 {
        assert(forall|j: int| 1 <= j < s.len() ==> s[j] == s.drop_first()[j - 1]);
        lemma_lookup_at(s.drop_first(), k, i - 1);
    }
}

/// Law: with unique keys, an entry holding a key is the one the lookup
/// finds — a ticker can only ever reach the one handler bound to its key.
pub proof fn lemma_lookup_unique<H>(s: Seq<HandlerEntry<H>>, k: Seq<char>, i: int)
    requires
        forall|p: int, q: int| 0 <= p < q < s.len() ==> s[p].key@ != s[q].key@,
        0 <= i < s.len(),
        s[i].key@ == k,
    ensures
        spec_lookup(s, k) == Some(i),
{
    assert forall|j: int| 0 <= j < i implies s[j].key@ != k by {
        assert(s[j].key@ != s[i].key@);
    }
    lemma_lookup_at(s, k, i);
}

/// The lookup succeeds exactly on the keys that occur among the entries.
pub proof fn lemma_lookup_contains<H>(s: Seq<HandlerEntry<H>>, k: Seq<char>)
    ensures
        spec_lookup(s, k) is Some <==> entry_keys(s).contains(k),
{
    lemma_lookup_properties(s, k);
    if spec_lookup(s, k) is Some {
        let i = spec_lookup(s, k)->Some_0;
        assert(entry_keys(s)[i] == k);
    }
    if entry_keys(s).contains(k) {
        let i = choose|i: int| 0 <= i < entry_keys(s).len() && entry_keys(s)[i] == k;
        assert(s[i].key@ == k);
    }
}

/// Owns the bindings from instrument key to handler.  Keys are unique:
/// registering an already-bound key overwrites its handler.
pub struct HandlerRegistry<H> {
    entries: Vec<HandlerEntry<H>>,
}

impl<H> View for HandlerRegistry<H> {
    type V = Seq<HandlerEntry<H>>;

    closed spec fn view(&self) -> Seq<HandlerEntry<H>> {
        self.entries@
    }
}

impl<H> HandlerRegistry<H> {
    /// The registered keys, in registration order.
    pub open spec fn spec_keys(&self) -> Seq<Seq<char>> {
        entry_keys(self@)
    }

    /// Whether some handler is bound to key `k`.
    pub open spec fn contains_key(&self, k: Seq<char>) -> bool {
        self.spec_keys().contains(k)
    }

    /// Each key is bound at most once.
    pub open spec fn wf(&self) -> bool {
        forall|i: int, j: int|
            0 <= i < j < self@.len() ==> self@[i].key@ != self@[j].key@
    }
}

impl<H: TickerHandler> HandlerRegistry<H> {
    /// An empty registry.
    pub fn new() -> (r: Self)
        ensures
            r.wf(),
            r@ == Seq::<HandlerEntry<H>>::empty(),
    {
        HandlerRegistry { entries: Vec::new() }
    }

    /// The number of registered keys.
    pub fn len(&self) -> (n: usize)
        ensures
            n == self@.len(),
    {
        self.entries.len()
    }

    /// Whether no handler is registered at all.
    pub fn is_empty(&self) -> (b: bool)
        ensures
            b == (self@.len() == 0),
    {
        self.entries.len() == 0
    }

    /// The position of the handler bound to `key`, if one is.
    pub fn lookup_index(&self, key: &String) -> (r: Option<usize>)
        ensures
            match r {
                Some(i) => i < self@.len() && self@[i as int].key@ == key@
                    && spec_lookup(self@, key@) == Some(i as int),
                None => spec_lookup(self@, key@) is None,
            },
    {
        let n = self.entries.len();
        let mut i: usize = 0;
        while i < n
            invariant
                n == self@.len(),
                i <= n,
                forall|j: int| 0 <= j < i ==> self@[j].key@ != key@,
            decreases n - i,
        {
            if self.entries[i].key == *key {
                proof {
                    lemma_lookup_at(self@, key@, i as int);
                }
                return Some(i);
            }
            i += 1;
        }
        proof {
            lemma_lookup_properties(self@, key@);
        }
        None
    }

    /// Bind `handler` to `key`, overwriting any prior binding for that
    /// key.  Registration never fails.
    pub fn register(&mut self, key: String, handler: H)
        requires
            old(self).wf(),
        ensures
            final(self).wf(),
            match spec_lookup(old(self)@, key@) {
                Some(i) => final(self)@ == old(self)@.update(
                    i,
                    HandlerEntry { key: key, handler: handler },
                ) && final(self).spec_keys() =~= old(self).spec_keys(),
                None => final(self)@ == old(self)@.push(
                    HandlerEntry { key: key, handler: handler },
                ) && final(self).spec_keys() =~= old(self).spec_keys().push(key@),
            },
            final(self).contains_key(key@),
    {
        proof {
            lemma_lookup_properties(self@, key@);
        }
        let found = self.lookup_index(&key);
        match found {
            Some(i) => {
                let ghost old_entries = self@;
                vstd::pervasive::VecAdditionalExecFns::set(
                    &mut self.entries,
                    i,
                    HandlerEntry { key: key, handler: handler },
                );
                proof {
                    assert forall|p: int, q: int|
                        0 <= p < q < self@.len() implies self@[p].key@ != self@[q].key@ by {
                        assert(old_entries[p].key@ != old_entries[q].key@);
                    }
                    assert(self.spec_keys() =~= entry_keys(old_entries));
                    assert(self.spec_keys()[i as int] == key@);
                }
            },
            None => {
                let ghost old_entries = self@;
                self.entries.push(HandlerEntry { key: key, handler: handler });
                proof {
                    assert forall|p: int, q: int|
                        0 <= p < q < self@.len() implies self@[p].key@ != self@[q].key@ by {
                        if q < old_entries.len() {
                            assert(old_entries[p].key@ != old_entries[q].key@);
                        } else {
                            assert(old_entries[p].key@ != key@);
                        }
                    }
                    assert(self.spec_keys() =~= entry_keys(old_entries).push(key@));
                    assert(self.spec_keys()[self@.len() - 1] == key@);
                }
            },
        }
    }

    /// A copy of the registered keys, in registration order: the product
    /// identifiers named in the subscription request.
    pub fn product_ids(&self) -> (r: Vec<String>)
        ensures
            r@.len() == self@.len(),
            forall|i: int| 0 <= i < r@.len() ==> r@[i] == self@[i].key,
    {
        let n = self.entries.len();
        let mut r: Vec<String> = Vec::new();
        let mut i: usize = 0;
        while i < n
            invariant
                n == self@.len(),
                i <= n,
                r@.len() == i,
                forall|j: int| 0 <= j < i ==> r@[j] == self@[j].key,
            decreases n - i,
        {
            r.push(self.entries[i].key.clone());
            i += 1;
        }
        r
    }

    /// Invoke the handler at position `i` with `ticker`.
    pub fn invoke(&self, i: usize, ticker: Ticker)
        requires
            i < self@.len(),
    {
        self.entries[i].handler.on_ticker(ticker);
    }
}

} // verus!
