//! A cache whose entries hold for a limited time.
//!
//! Times are nanoseconds on a clock that never goes back.

use vstd::prelude::*;

use crate::ip::IpAddr;
use crate::model::BanType;

verus! {

/// What a cache entry can be found by.
pub trait CacheKey: Sized {
    /// Whether two keys are the same.
    fn same(&self, other: &Self) -> (r: bool)
        ensures
            r == (*self == *other),
    ;
}

impl CacheKey for () {
    fn same(&self, other: &Self) -> (r: bool) {
        true
    }
}

impl CacheKey for IpAddr {
    fn same(&self, other: &Self) -> (r: bool) {
        *self == *other
    }
}

impl CacheKey for (IpAddr, BanType) {
    fn same(&self, other: &Self) -> (r: bool) {
        self.0 == other.0 && self.1 == other.1
    }
}

/// How long ago something was, by a clock that never goes back.
pub open spec fn age(at: u64, now: u64) -> int {
    if now >= at {
        now - at
    } else {
        0
    }
}

fn age_of(at: u64, now: u64) -> (r: u64)
    ensures
        r == age(at, now),
{
    if now >= at {
        now - at
    } else {
        0
    }
}

/// A value with its key and when it was fetched.
pub struct CacheEntry<K, V> {
    pub key: K,
    pub fetched: u64,
    pub value: V,
}

/// A cache whose entries hold for a limited time.
pub struct KeyedTtlCache<K, V> {
    ttl: u64,
    entries: Vec<CacheEntry<K, V>>,
}

/// No key has two entries.
spec fn one_each<K, V>(s: Seq<CacheEntry<K, V>>) -> bool {
    forall|i: int, j: int|
        0 <= i < j < s.len() ==> (#[trigger] s[i]).key != (#[trigger] s[j]).key
}

/// An entry with the key stands at the position.
spec fn stands_at<K, V>(s: Seq<CacheEntry<K, V>>, key: K, i: int) -> bool {
    0 <= i < s.len() && s[i].key == key
}

/// The times and values by key.
spec fn entry_map<K, V>(s: Seq<CacheEntry<K, V>>) -> Map<K, (u64, V)> {
    Map::new(
        |key: K| exists|i: int| stands_at(s, key, i),
        |key: K|
            {
                let i = choose|i: int| stands_at(s, key, i);
                (s[i].fetched, s[i].value)
            },
    )
}

proof fn lemma_entry<K, V>(s: Seq<CacheEntry<K, V>>, i: int)
    requires
        one_each(s),
        0 <= i < s.len(),
    ensures
        entry_map(s).dom().contains(s[i].key),
        entry_map(s)[s[i].key] == (s[i].fetched, s[i].value),
{
    assert(stands_at(s, s[i].key, i));
    let j = choose|j: int| stands_at(s, s[i].key, j);
    assert(stands_at(s, s[i].key, j));
    if i < j {
        assert(s[i].key != s[j].key);
    } else if j < i {
        assert(s[j].key != s[i].key);
    }
}

proof fn lemma_push<K, V>(s: Seq<CacheEntry<K, V>>, e: CacheEntry<K, V>)
    requires
        one_each(s),
        !entry_map(s).dom().contains(e.key),
    ensures
        one_each(s.push(e)),
        entry_map(s.push(e)) == entry_map(s).insert(e.key, (e.fetched, e.value)),
{
    let t = s.push(e);
    assert forall|i: int, j: int| 0 <= i < j < t.len() implies (#[trigger] t[i]).key != (
    #[trigger] t[j]).key by {
        if j == s.len() {
            if s[i].key == e.key {
                assert(stands_at(s, e.key, i));
            }
        } else {
            assert(s[i].key != s[j].key);
        }
    }
    let m = entry_map(s).insert(e.key, (e.fetched, e.value));
    assert forall|key: K| entry_map(t).dom().contains(key) <==> m.dom().contains(key) by {
        if entry_map(t).dom().contains(key) {
            let i = choose|i: int| stands_at(t, key, i);
            if i < s.len() {
                assert(stands_at(s, key, i));
            }
        }
        if entry_map(s).dom().contains(key) {
            let i = choose|i: int| stands_at(s, key, i);
            assert(stands_at(t, key, i));
        }
        if key == e.key {
            assert(stands_at(t, key, s.len() as int));
        }
    }
    assert forall|key: K| m.dom().contains(key) implies entry_map(t)[key] == m[key] by {
        if key == e.key {
            lemma_entry(t, s.len() as int);
        } else {
            let i = choose|i: int| stands_at(s, key, i);
            lemma_entry(s, i);
            lemma_entry(t, i);
        }
    }
    assert(entry_map(t) =~= m);
}

proof fn lemma_pop<K, V>(s: Seq<CacheEntry<K, V>>)
    requires
        one_each(s),
        s.len() > 0,
    ensures
        one_each(s.drop_last()),
        entry_map(s.drop_last()) == entry_map(s).remove(s.last().key),
{
    let t = s.drop_last();
    let last = s.len() - 1;
    assert forall|i: int, j: int| 0 <= i < j < t.len() implies (#[trigger] t[i]).key != (
    #[trigger] t[j]).key by {
        assert(s[i].key != s[j].key);
    }
    let m = entry_map(s).remove(s.last().key);
    assert forall|key: K| entry_map(t).dom().contains(key) <==> m.dom().contains(key) by {
        if entry_map(t).dom().contains(key) {
            let i = choose|i: int| stands_at(t, key, i);
            assert(stands_at(s, key, i));
            assert(s[i].key != s[last].key);
        }
        if m.dom().contains(key) {
            let i = choose|i: int| stands_at(s, key, i);
            assert(i != last);
            assert(stands_at(t, key, i));
        }
    }
    assert forall|key: K| m.dom().contains(key) implies entry_map(t)[key] == m[key] by {
        let i = choose|i: int| stands_at(s, key, i);
        assert(i != last);
        lemma_entry(s, i);
        lemma_entry(t, i);
    }
    assert(entry_map(t) =~= m);
}

proof fn lemma_update<K, V>(s: Seq<CacheEntry<K, V>>, at: int, e: CacheEntry<K, V>)
    requires
        one_each(s),
        0 <= at < s.len(),
        s[at].key == e.key,
    ensures
        one_each(s.update(at, e)),
        entry_map(s.update(at, e)) == entry_map(s).insert(e.key, (e.fetched, e.value)),
{
    let t = s.update(at, e);
    assert forall|i: int, j: int| 0 <= i < j < t.len() implies (#[trigger] t[i]).key != (
    #[trigger] t[j]).key by {
        assert(s[i].key != s[j].key);
    }
    let m = entry_map(s).insert(e.key, (e.fetched, e.value));
    assert forall|key: K| entry_map(t).dom().contains(key) <==> m.dom().contains(key) by {
        if entry_map(t).dom().contains(key) {
            let i = choose|i: int| stands_at(t, key, i);
            assert(stands_at(s, key, i));
        }
        if entry_map(s).dom().contains(key) {
            let i = choose|i: int| stands_at(s, key, i);
            assert(stands_at(t, key, i));
        }
        if key == e.key {
            assert(stands_at(t, key, at));
        }
    }
    assert forall|key: K| m.dom().contains(key) implies entry_map(t)[key] == m[key] by {
        if key == e.key {
            lemma_entry(t, at);
        } else {
            let i = choose|i: int| stands_at(s, key, i);
            lemma_entry(s, i);
            lemma_entry(t, i);
        }
    }
    assert(entry_map(t) =~= m);
}

/// The entries that still hold.
pub open spec fn still_fresh<K, V>(m: Map<K, (u64, V)>, ttl: u64, now: u64) -> Map<K, (u64, V)> {
    Map::new(|key: K| m.dom().contains(key) && age(m[key].0, now) < ttl, |key: K| m[key])
}

/// What a lookup gives.
pub open spec fn lookup<K, V>(m: Map<K, (u64, V)>, ttl: u64, key: K, now: u64) -> Option<V> {
    if m.dom().contains(key) && age(m[key].0, now) < ttl {
        Some(m[key].1)
    } else {
        None
    }
}

/// The entries after a fetch: its value is noted, and a failure notes nothing.
pub open spec fn after_fetch<K, V, E>(
    m: Map<K, (u64, V)>,
    ttl: u64,
    key: K,
    reply: Result<V, E>,
    fetched: u64,
    now: u64,
) -> Map<K, (u64, V)> {
    match reply {
        Ok(value) => still_fresh(m.insert(key, (fetched, value)), ttl, now),
        Err(_) => m,
    }
}

impl<K, V> View for KeyedTtlCache<K, V> {
    type V = Map<K, (u64, V)>;

    closed spec fn view(&self) -> Map<K, (u64, V)> {
        entry_map(self.entries@)
    }
}

impl<K: CacheKey, V> KeyedTtlCache<K, V> {
    pub closed spec fn wf(&self) -> bool {
        one_each(self.entries@)
    }

    /// How long entries hold.
    pub closed spec fn ttl(&self) -> u64 {
        self.ttl
    }

    /// An empty cache.
    pub fn new(ttl: u64) -> (r: Self)
        ensures
            r.wf(),
            r.ttl() == ttl,
            r@ == Map::<K, (u64, V)>::empty(),
    {
        let r = KeyedTtlCache { ttl, entries: Vec::new() };
        assert(r@ =~= Map::<K, (u64, V)>::empty());
        r
    }

    fn find(&self, key: &K) -> (r: Option<usize>)
        requires
            self.wf(),
        ensures
            (match r {
                Some(i) => i < self.entries@.len() && self.entries@[i as int].key == *key
                    && self@.dom().contains(*key) && self@[*key] == (
                    self.entries@[i as int].fetched,
                    self.entries@[i as int].value,
                ),
                None => !self@.dom().contains(*key),
            }),
    {
        let n: usize = self.entries.len();
        for i in 0..n
            invariant
                n == self.entries@.len(),
                self.wf(),
                forall|j: int| 0 <= j < i ==> (#[trigger] self.entries@[j]).key != *key,
        {
            if self.entries[i].key.same(key) {
                proof {
                    lemma_entry(self.entries@, i as int);
                }
                return Some(i);
            }
        }
        proof {
            if self@.dom().contains(*key) {
                let j = choose|j: int| stands_at(self.entries@, *key, j);
                assert(self.entries@[j].key != *key);
            }
        }
        None
    }

    /// The value of a key, where it still holds.
    pub fn get(&self, key: &K, now: u64) -> (r: Option<&V>)
        requires
            self.wf(),
        ensures
            (match r {
                Some(v) => Some(*v),
                None => None,
            }) == lookup(self@, self.ttl(), *key, now),
    {
        match self.find(key) {
            Some(i) => if age_of(self.entries[i].fetched, now) < self.ttl {
                Some(&self.entries[i].value)
            } else {
                None
            },
            None => None,
        }
    }

    /// Notes the value of a key, fetched or learned at a point in time.
    pub fn set(&mut self, key: K, value: V, now: u64)
        requires
            old(self).wf(),
        ensures
            final(self).wf(),
            final(self).ttl() == old(self).ttl(),
            final(self)@ == old(self)@.insert(key, (now, value)),
    {
        let ghost before = self.entries@;
        let at = self.find(&key);
        let e = CacheEntry { key, fetched: now, value };
        match at {
            Some(i) => {
                proof {
                    lemma_update(before, i as int, e);
                }
                self.entries.set(i, e);
            },
            None => {
                proof {
                    lemma_push(before, e);
                }
                self.entries.push(e);
            },
        }
    }

    /// Drops every entry that no longer holds.
    fn sweep(&mut self, now: u64)
        requires
            old(self).wf(),
        ensures
            final(self).wf(),
            final(self).ttl() == old(self).ttl(),
            final(self)@ == still_fresh(old(self)@, old(self).ttl(), now),
    {
        let mut rest: Vec<CacheEntry<K, V>> = Vec::new();
        std::mem::swap(&mut rest, &mut self.entries);
        let ghost all = entry_map(rest@);
        let ttl: u64 = self.ttl;
        proof {
            assert(entry_map(self.entries@) =~= Map::<K, (u64, V)>::empty());
        }
        loop
            invariant
                self.ttl == ttl,
                ttl == old(self).ttl(),
                all == old(self)@,
                one_each(rest@),
                one_each(self.entries@),
                forall|key: K|
                    #![trigger entry_map(rest@).dom().contains(key)]
                    entry_map(rest@).dom().contains(key) ==> all.dom().contains(key)
                        && entry_map(rest@)[key] == all[key] && !entry_map(
                        self.entries@,
                    ).dom().contains(key),
                forall|key: K|
                    #![trigger entry_map(self.entries@).dom().contains(key)]
                    entry_map(self.entries@).dom().contains(key) ==> all.dom().contains(key)
                        && entry_map(self.entries@)[key] == all[key] && age(all[key].0, now) < ttl,
                forall|key: K|
                    #![trigger all.dom().contains(key)]
                    all.dom().contains(key) && age(all[key].0, now) < ttl ==> entry_map(
                        rest@,
                    ).dom().contains(key) || entry_map(self.entries@).dom().contains(key),
            decreases rest@.len(),
        {
            let ghost before = rest@;
            let ghost kept = self.entries@;
            match rest.pop() {
                Some(e) => {
                    proof {
                        assert(rest@ =~= before.drop_last());
                        assert(e == before.last());
                        lemma_pop(before);
                        lemma_entry(before, before.len() - 1);
                        assert(entry_map(before).dom().contains(e.key));
                    }
                    if age_of(e.fetched, now) < ttl {
                        proof {
                            lemma_push(kept, e);
                        }
                        self.entries.push(e);
                    }
                },
                None => {
                    proof {
                        assert forall|key: K| !entry_map(before).dom().contains(key) by {
                            if entry_map(before).dom().contains(key) {
                                let i = choose|i: int| stands_at(before, key, i);
                            }
                        }
                        assert(entry_map(self.entries@) =~= still_fresh(all, ttl, now));
                    }
                    return;
                },
            }
        }
    }

    /// Notes a freshly fetched value, and drops every entry that no longer
    /// holds, so that keys that stop showing up do not linger.
    pub fn refresh(&mut self, key: K, value: V, fetched: u64, now: u64)
        requires
            old(self).wf(),
        ensures
            final(self).wf(),
            final(self).ttl() == old(self).ttl(),
            final(self)@ == still_fresh(
                old(self)@.insert(key, (fetched, value)),
                old(self).ttl(),
                now,
            ),
    {
        self.set(key, value, fetched);
        self.sweep(now);
    }

    /// Takes in what came of fetching the value of a key: a value is noted,
    /// and a failure is handed back with nothing noted, so that the next
    /// inquiry fetches again.
    pub fn settle<E>(&mut self, key: K, reply: Result<V, E>, fetched: u64, now: u64) -> (r: Option<
        E,
    >)
        requires
            old(self).wf(),
        ensures
            final(self).wf(),
            final(self).ttl() == old(self).ttl(),
            final(self)@ == after_fetch(old(self)@, old(self).ttl(), key, reply, fetched, now),
            r == (match reply {
                Ok(_) => None,
                Err(e) => Some(e),
            }),
    {
        match reply {
            Ok(value) => {
                self.refresh(key, value, fetched, now);
                None
            },
            Err(e) => Some(e),
        }
    }

    /// Forgets everything: the next lookup of any key finds nothing.
    pub fn invalidate(&mut self)
        ensures
            final(self).wf(),
            final(self).ttl() == old(self).ttl(),
            final(self)@ == Map::<K, (u64, V)>::empty(),
    {
        self.entries = Vec::new();
        assert(self@ =~= Map::<K, (u64, V)>::empty());
    }
}

/// A value that was noted is found as long as it holds, and not after; other
/// keys are found as before.
pub proof fn lemma_set_then_lookup<K, V>(
    m: Map<K, (u64, V)>,
    ttl: u64,
    key: K,
    value: V,
    at: u64,
    other: K,
    now: u64,
)
    ensures
        lookup(m.insert(key, (at, value)), ttl, key, now) == (if age(at, now) < ttl {
            Some(value)
        } else {
            None
        }),
        other != key ==> lookup(m.insert(key, (at, value)), ttl, other, now) == lookup(
            m,
            ttl,
            other,
            now,
        ),
{
}

/// A freshly fetched value is found as long as it holds, and not after, and
/// the sweep that goes with it takes nothing away from other keys.
pub proof fn lemma_refresh_then_lookup<K, V>(
    m: Map<K, (u64, V)>,
    ttl: u64,
    key: K,
    value: V,
    at: u64,
    swept: u64,
    other: K,
    now: u64,
)
    requires
        swept <= now,
    ensures
        lookup(still_fresh(m.insert(key, (at, value)), ttl, swept), ttl, key, now) == (if age(
            at,
            now,
        ) < ttl {
            Some(value)
        } else {
            None
        }),
        other != key ==> lookup(
            still_fresh(m.insert(key, (at, value)), ttl, swept),
            ttl,
            other,
            now,
        ) == lookup(m, ttl, other, now),
{
    lemma_set_then_lookup(m, ttl, key, value, at, other, now);
    lemma_sweep_is_invisible(m.insert(key, (at, value)), ttl, swept, key, now);
    lemma_sweep_is_invisible(m.insert(key, (at, value)), ttl, swept, other, now);
}

/// A cache that was invalidated finds no key until one is noted again.
pub proof fn lemma_nothing_left<K, V>(ttl: u64, key: K, now: u64)
    ensures
        lookup(Map::<K, (u64, V)>::empty(), ttl, key, now) is None,
{
}

/// Dropping entries that no longer hold changes no lookup, then or later.
pub proof fn lemma_sweep_is_invisible<K, V>(
    m: Map<K, (u64, V)>,
    ttl: u64,
    swept: u64,
    key: K,
    now: u64,
)
    requires
        swept <= now,
    ensures
        lookup(still_fresh(m, ttl, swept), ttl, key, now) == lookup(m, ttl, key, now),
{
}

// ---------------------------------------------------------------- inquiries

/// An inquiry after a value that is looked up, or else fetched. The cache is
/// looked at twice: shared with others, and then, as another inquiry may have
/// fetched the value meanwhile, alone.
pub enum Inquiry<V, E> {
    /// Look at the cache while it is shared.
    Peeking,
    /// Look at the cache while no one else can use it.
    Checking,
    /// Fetch the value, and settle it with the cache.
    Fetching,
    /// The value, or why it could not be fetched.
    Answered(Result<V, E>),
}

/// What came of a step of an inquiry.
pub enum Finding<V, E> {
    /// What a look at the cache found.
    Look(Option<V>),
    /// What came of a fetch.
    Reply(Result<V, E>),
}

/// What a finding leads to. A finding of another step changes nothing.
pub open spec fn inquiry_step<V, E>(at: Inquiry<V, E>, finding: Finding<V, E>) -> Inquiry<V, E> {
    match (at, finding) {
        (Inquiry::Peeking, Finding::Look(found)) => match found {
            Some(v) => Inquiry::Answered(Ok(v)),
            None => Inquiry::Checking,
        },
        (Inquiry::Checking, Finding::Look(found)) => match found {
            Some(v) => Inquiry::Answered(Ok(v)),
            None => Inquiry::Fetching,
        },
        (Inquiry::Fetching, Finding::Reply(reply)) => Inquiry::Answered(reply),
        _ => at,
    }
}

impl<V, E> Inquiry<V, E> {
    /// An inquiry that has not begun.
    pub fn new() -> (r: Self)
        ensures
            r is Peeking,
    {
        Inquiry::Peeking
    }

    /// The inquiry after a finding.
    pub fn advance(self, finding: Finding<V, E>) -> (r: Self)
        ensures
            r == inquiry_step(self, finding),
    {
        match self {
            Inquiry::Peeking => match finding {
                Finding::Look(found) => match found {
                    Some(v) => Inquiry::Answered(Ok(v)),
                    None => Inquiry::Checking,
                },
                Finding::Reply(_) => Inquiry::Peeking,
            },
            Inquiry::Checking => match finding {
                Finding::Look(found) => match found {
                    Some(v) => Inquiry::Answered(Ok(v)),
                    None => Inquiry::Fetching,
                },
                Finding::Reply(_) => Inquiry::Checking,
            },
            Inquiry::Fetching => match finding {
                Finding::Look(_) => Inquiry::Fetching,
                Finding::Reply(reply) => Inquiry::Answered(reply),
            },
            Inquiry::Answered(answer) => Inquiry::Answered(answer),
        }
    }
}

/// The inquiry after a row of findings.
pub open spec fn inquiry_run<V, E>(findings: Seq<Finding<V, E>>) -> Inquiry<V, E>
    decreases findings.len(),
{
    if findings.len() == 0 {
        Inquiry::Peeking
    } else {
        inquiry_step(inquiry_run(findings.drop_last()), findings.last())
    }
}

/// How often an inquiry has taken in what came of a fetch.
pub open spec fn fetches<V, E>(findings: Seq<Finding<V, E>>) -> nat
    decreases findings.len(),
{
    if findings.len() == 0 {
        0
    } else {
        fetches(findings.drop_last()) + (if inquiry_run(findings.drop_last()) is Fetching
            && findings.last() is Reply {
            1nat
        } else {
            0nat
        })
    }
}

/// A look at the cache found nothing at some step, and a later one did not
/// either.
pub open spec fn missed_twice<V, E>(findings: Seq<Finding<V, E>>) -> bool {
    exists|i: int, j: int|
        0 <= i < j < findings.len() && #[trigger] findings[i] == Finding::<V, E>::Look(None)
            && #[trigger] findings[j] == Finding::<V, E>::Look(None)
}

/// An inquiry fetches at most once, and only after both looks at the cache
/// found nothing; once it is answered, it stays as it is.
pub proof fn lemma_fetched_at_most_once<V, E>(findings: Seq<Finding<V, E>>)
    ensures
        fetches(findings) <= 1,
        fetches(findings) == 1 ==> inquiry_run(findings) is Answered,
        fetches(findings) == 1 || inquiry_run(findings) is Fetching ==> missed_twice(findings),
        inquiry_run(findings) is Checking ==> findings.contains(Finding::<V, E>::Look(None)),
        inquiry_run(findings) is Answered ==> forall|next: Finding<V, E>|
            #[trigger] inquiry_step(inquiry_run(findings), next) == inquiry_run(findings),
    decreases findings.len(),
{
    if findings.len() > 0 {
        let front = findings.drop_last();
        let last = findings.len() - 1;
        lemma_fetched_at_most_once(front);
        if missed_twice(front) {
            let (i, j) = choose|i: int, j: int|
                0 <= i < j < front.len() && #[trigger] front[i] == Finding::<V, E>::Look(None)
                    && #[trigger] front[j] == Finding::<V, E>::Look(None);
            assert(findings[i] == front[i] && findings[j] == front[j]);
            assert(missed_twice(findings));
        }
        if inquiry_run(front) is Checking {
            let i = front.index_of(Finding::<V, E>::Look(None));
            assert(findings[i] == front[i]);
            if inquiry_run(findings) is Fetching {
                assert(findings[last] == Finding::<V, E>::Look(None));
                assert(missed_twice(findings));
            }
        }
        if inquiry_run(front) is Peeking && inquiry_run(findings) is Checking {
            assert(findings[last] == Finding::<V, E>::Look(None));
        }
    }
}

/// A use of a cache, by which it changes from one state to the next.
pub enum Use<K, V, E> {
    /// An inquiry that looked at a point in time, with what a fetch would have
    /// brought, and when it would have been noted and swept.
    Ask { key: K, at: u64, reply: Result<V, E>, fetched: u64, swept: u64 },
    /// A value that was learned otherwise.
    Learn { key: K, value: V, at: u64 },
    Invalidate,
}

/// The entries after a use.
pub open spec fn after_use<K, V, E>(m: Map<K, (u64, V)>, ttl: u64, u: Use<K, V, E>) -> Map<
    K,
    (u64, V),
> {
    match u {
        Use::Ask { key, at, reply, fetched, swept } => if lookup(m, ttl, key, at) is Some {
            m
        } else {
            after_fetch(m, ttl, key, reply, fetched, swept)
        },
        Use::Learn { key, value, at } => m.insert(key, (at, value)),
        Use::Invalidate => Map::empty(),
    }
}

/// The entries of a new cache after a row of uses.
pub open spec fn after_uses<K, V, E>(ttl: u64, uses: Seq<Use<K, V, E>>) -> Map<K, (u64, V)>
    decreases uses.len(),
{
    if uses.len() == 0 {
        Map::empty()
    } else {
        after_use(after_uses(ttl, uses.drop_last()), ttl, uses.last())
    }
}

/// The value that was stored, if it still holds.
pub open spec fn holding<V>(stored: Option<(u64, V)>, ttl: u64, now: u64) -> Option<V> {
    match stored {
        Some((at, value)) => if age(at, now) < ttl {
            Some(value)
        } else {
            None
        },
        None => None,
    }
}

/// What was last stored for a key, and when: by the last value learned or
/// fetched for it, unless the cache was invalidated since. An inquiry fetches
/// where what was stored before it no longer held.
pub open spec fn last_stored<K, V, E>(ttl: u64, uses: Seq<Use<K, V, E>>, key: K) -> Option<(u64, V)>
    decreases uses.len(),
{
    if uses.len() == 0 {
        None
    } else {
        let before = last_stored(ttl, uses.drop_last(), key);
        match uses.last() {
            Use::Ask { key: asked, at, reply, fetched, .. } => if asked == key && holding(
                before,
                ttl,
                at,
            ) is None && reply is Ok {
                Some((fetched, reply->Ok_0))
            } else {
                before
            },
            Use::Learn { key: learned, value, at } => if learned == key {
                Some((at, value))
            } else {
                before
            },
            Use::Invalidate => None,
        }
    }
}

/// The times of a use lie between two points, and do not go back.
pub open spec fn within<K, V, E>(u: Use<K, V, E>, from: u64, to: u64) -> bool {
    match u {
        Use::Ask { at, fetched, swept, .. } => from <= at <= fetched <= swept <= to,
        Use::Learn { at, .. } => from <= at <= to,
        Use::Invalidate => true,
    }
}

/// The uses come one after the other, by the points in time between them.
pub open spec fn in_order<K, V, E>(uses: Seq<Use<K, V, E>>, ticks: Seq<u64>) -> bool {
    &&& ticks.len() == uses.len() + 1
    &&& forall|i: int| 0 <= i < uses.len() ==> (#[trigger] ticks[i]) <= ticks[i + 1]
    &&& forall|i: int|
        0 <= i < uses.len() ==> within(#[trigger] uses[i], ticks[i], ticks[i + 1])
}

/// A look at a cache finds what was last stored for the key, as long as it
/// holds, whatever happened to other keys and however often the cache was
/// swept.
pub proof fn lemma_look_finds_last_stored<K, V, E>(
    ttl: u64,
    uses: Seq<Use<K, V, E>>,
    ticks: Seq<u64>,
    key: K,
    now: u64,
)
    requires
        in_order(uses, ticks),
        ticks.last() <= now,
    ensures
        lookup(after_uses(ttl, uses), ttl, key, now) == holding(
            last_stored(ttl, uses, key),
            ttl,
            now,
        ),
    decreases uses.len(),
{
    if uses.len() > 0 {
        let front = uses.drop_last();
        let early = ticks.drop_last();
        let m = after_uses(ttl, front);
        let last = uses.len() - 1;
        assert(ticks[last] <= ticks[last + 1]);
        assert(within(uses[last], ticks[last], ticks[last + 1]));
        assert(in_order(front, early)) by {
            assert forall|i: int| 0 <= i < front.len() implies (#[trigger] early[i]) <= early[i
                + 1] by {
                assert(ticks[i] <= ticks[i + 1]);
            }
            assert forall|i: int| 0 <= i < front.len() implies within(
                #[trigger] front[i],
                early[i],
                early[i + 1],
            ) by {
                assert(within(uses[i], ticks[i], ticks[i + 1]));
            }
        }
        assert(early.last() == ticks[last]);
        lemma_look_finds_last_stored(ttl, front, early, key, now);
        match uses.last() {
            Use::Ask { key: asked, at, reply, fetched, swept } => {
                lemma_look_finds_last_stored(ttl, front, early, asked, at);
                if reply is Ok {
                    lemma_refresh_then_lookup(
                        m,
                        ttl,
                        asked,
                        reply->Ok_0,
                        fetched,
                        swept,
                        key,
                        now,
                    );
                }
            },
            _ => {},
        }
    }
}

/// An inquiry gives what was last stored for the key while it holds, and
/// fetches nothing; otherwise it fetches once and gives what came of that. A
/// value that was fetched is what is stored from then on; a failure stores
/// nothing.
pub proof fn lemma_inquiry<K, V, E>(
    ttl: u64,
    uses: Seq<Use<K, V, E>>,
    ticks: Seq<u64>,
    key: K,
    at: u64,
    reply: Result<V, E>,
    fetched: u64,
    swept: u64,
)
    requires
        in_order(uses, ticks),
        ticks.last() <= at,
    ensures
        ({
            let look = Finding::<V, E>::Look(lookup(after_uses(ttl, uses), ttl, key, at));
            let findings = seq![look, look, Finding::Reply(reply)];
            let ask = Use::Ask { key, at, reply, fetched, swept };
            match holding(last_stored(ttl, uses, key), ttl, at) {
                Some(v) => {
                    &&& inquiry_run(findings) == Inquiry::<V, E>::Answered(Ok(v))
                    &&& fetches(findings) == 0
                    &&& after_uses(ttl, uses.push(ask)) == after_uses(ttl, uses)
                },
                None => {
                    &&& inquiry_run(findings) == Inquiry::<V, E>::Answered(reply)
                    &&& fetches(findings) == 1
                    &&& reply matches Ok(v) ==> last_stored(ttl, uses.push(ask), key) == Some(
                        (fetched, v),
                    )
                    &&& reply is Err ==> after_uses(ttl, uses.push(ask)) == after_uses(ttl, uses)
                        && last_stored(ttl, uses.push(ask), key) == last_stored(ttl, uses, key)
                },
            }
        }),
{
    lemma_look_finds_last_stored(ttl, uses, ticks, key, at);
    let look = Finding::<V, E>::Look(lookup(after_uses(ttl, uses), ttl, key, at));
    let findings = seq![look, look, Finding::Reply(reply)];
    let ask = Use::Ask { key, at, reply, fetched, swept };
    assert(uses.push(ask).drop_last() =~= uses);
    let two = findings.drop_last();
    let one = two.drop_last();
    assert(one.drop_last() =~= Seq::<Finding<V, E>>::empty());
    assert(inquiry_run(one.drop_last()) is Peeking);
    assert(inquiry_run(one) == inquiry_step(Inquiry::Peeking, look));
    assert(inquiry_run(two) == inquiry_step(inquiry_run(one), look));
    assert(inquiry_run(findings) == inquiry_step(inquiry_run(two), Finding::Reply(reply)));
    assert(fetches(one.drop_last()) == 0);
    assert(fetches(one) == 0);
    assert(fetches(two) == 0);
}

/// An entry holds from when it was noted until its time has passed, and one
/// without time never does.
pub proof fn lemma_how_long_an_entry_holds<K, V>(
    m: Map<K, (u64, V)>,
    ttl: u64,
    key: K,
    value: V,
    at: u64,
    now: u64,
)
    ensures
        now < at + ttl && ttl > 0 ==> lookup(m.insert(key, (at, value)), ttl, key, now) == Some(
            value,
        ),
        now >= at + ttl ==> lookup(m.insert(key, (at, value)), ttl, key, now) is None,
        ttl == 0 ==> lookup(m.insert(key, (at, value)), ttl, key, now) is None,
        !m.dom().contains(key) ==> lookup(m, ttl, key, now) is None,
{
}

/// A failed fetch leaves every entry as it was; one that succeeds notes its
/// value under its key.
pub proof fn lemma_what_a_fetch_notes<K, V, E>(
    m: Map<K, (u64, V)>,
    ttl: u64,
    key: K,
    value: V,
    e: E,
    fetched: u64,
    swept: u64,
    now: u64,
)
    requires
        swept <= now,
    ensures
        after_fetch(m, ttl, key, Err::<V, E>(e), fetched, swept) == m,
        now < fetched + ttl && ttl > 0 ==> lookup(
            after_fetch(m, ttl, key, Ok::<V, E>(value), fetched, swept),
            ttl,
            key,
            now,
        ) == Some(value),
{
    lemma_refresh_then_lookup(m, ttl, key, value, fetched, swept, key, now);
}

/// Where each step of an inquiry leads: a look that finds the value answers at
/// once, whether the cache is shared or not; one that does not leads to the
/// next look and then to the fetch, whose outcome is the answer.
pub proof fn lemma_steps_of_an_inquiry<V, E>(v: V, reply: Result<V, E>)
    ensures
        inquiry_step(Inquiry::<V, E>::Peeking, Finding::Look(Some(v))) == Inquiry::<
            V,
            E,
        >::Answered(Ok(v)),
        inquiry_step(Inquiry::<V, E>::Peeking, Finding::Look(None)) is Checking,
        inquiry_step(Inquiry::<V, E>::Checking, Finding::Look(Some(v))) == Inquiry::<
            V,
            E,
        >::Answered(Ok(v)),
        inquiry_step(Inquiry::<V, E>::Checking, Finding::Look(None)) is Fetching,
        inquiry_step(Inquiry::<V, E>::Fetching, Finding::Reply(reply)) == Inquiry::<
            V,
            E,
        >::Answered(reply),
{
}

/// A sweep leaves what was stored less than the time to live ago, as it was,
/// and nothing else: just the keys that a look at that time finds.
pub proof fn lemma_what_a_sweep_leaves<K, V>(m: Map<K, (u64, V)>, ttl: u64, now: u64, key: K)
    ensures
        still_fresh(m, ttl, now).dom().contains(key) <==> lookup(m, ttl, key, now) is Some,
        m.dom().contains(key) && m[key].0 <= now ==> (still_fresh(m, ttl, now).dom().contains(key)
            <==> now - m[key].0 < ttl),
        m.dom().contains(key) && m[key].0 > now ==> (still_fresh(m, ttl, now).dom().contains(key)
            <==> 0 < ttl),
        still_fresh(m, ttl, now).dom().contains(key) ==> still_fresh(m, ttl, now)[key] == m[key],
        !m.dom().contains(key) ==> !still_fresh(m, ttl, now).dom().contains(key),
{
}

} // verus!
