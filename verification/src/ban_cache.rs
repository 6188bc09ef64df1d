//! The ban lists, kept for a while between two looks at the database.
//!
//! A lookup gives nothing where the list is not known or too old; the caller
//! then fetches it and settles what came of that with the cache.

use vstd::prelude::*;
use vstd::string::*;

use crate::bytes::same_bytes;
use crate::ip::IpAddr;
use crate::model::BanType;
use crate::screening::{Check, Topic};
use crate::text;
use crate::text::{contains_text, same_text};
use crate::ttl_cache;
use crate::ttl_cache::KeyedTtlCache;

verus! {

/// Whether a text is on a list.
pub fn in_list(list: &Vec<String>, needle: &str) -> (r: bool)
    ensures
        r == list.deep_view().contains(needle@),
{
    let n: usize = list.len();
    let ghost views = list.deep_view();
    for i in 0..n
        invariant
            n == list@.len(),
            views == list.deep_view(),
            views.len() == n,
            forall|j: int| 0 <= j < i ==> views[j] != needle@,
    {
        assert(views[i as int] == list@[i as int]@);
        if same_text(list[i].as_str(), needle) {
            return true;
        }
    }
    false
}

/// Whether a hash is on a list.
pub fn hash_in_list(list: &Vec<Vec<u8>>, hash: &[u8]) -> (r: bool)
    ensures
        r == list.deep_view().contains(hash@),
{
    let n: usize = list.len();
    let ghost views = list.deep_view();
    for i in 0..n
        invariant
            n == list@.len(),
            views == list.deep_view(),
            views.len() == n,
            forall|j: int| 0 <= j < i ==> views[j] != hash@,
    {
        assert(views[i as int] == list@[i as int].deep_view());
        assert(list@[i as int].deep_view() =~= list@[i as int]@);
        if same_bytes(list[i].as_slice(), hash) {
            return true;
        }
    }
    false
}

/// One of the patterns occurs in the text.
pub open spec fn some_pattern_in(patterns: Seq<Seq<char>>, s: Seq<char>) -> bool {
    exists|i: int| 0 <= i < patterns.len() && text::contains_run(s, #[trigger] patterns[i])
}

/// Whether one of the patterns occurs in a text.
pub fn matches_any(patterns: &Vec<String>, s: &str) -> (r: bool)
    ensures
        r == some_pattern_in(patterns.deep_view(), s@),
{
    let n: usize = patterns.len();
    let ghost views = patterns.deep_view();
    for i in 0..n
        invariant
            n == patterns@.len(),
            views == patterns.deep_view(),
            views.len() == n,
            forall|j: int| 0 <= j < i ==> !text::contains_run(s@, #[trigger] views[j]),
    {
        assert(views[i as int] == patterns@[i as int]@);
        if contains_text(s, patterns[i].as_str()) {
            return true;
        }
    }
    false
}

/// The lower case of every text of a list.
pub open spec fn all_lower(list: Seq<Seq<char>>) -> Seq<Seq<char>> {
    list.map_values(|s: Seq<char>| text::unicode_lowercase(s))
}

fn lower_list(list: &Vec<String>) -> (r: Vec<String>)
    ensures
        r.deep_view() == all_lower(list.deep_view()),
{
    let n: usize = list.len();
    let ghost views = list.deep_view();
    let mut out: Vec<String> = Vec::new();
    assert(out.deep_view() =~= all_lower(views).take(0));
    for i in 0..n
        invariant
            n == list@.len(),
            views == list.deep_view(),
            views.len() == n,
            out.deep_view() == all_lower(views).take(i as int),
    {
        let ghost before = out.deep_view();
        assert(views[i as int] == list@[i as int]@);
        let low = list[i].as_str().to_lowercase();
        let ghost view = low@;
        out.push(low);
        assert(out.deep_view() =~= before.push(view));
        assert(all_lower(views).take(i + 1) =~= before.push(view));
    }
    assert(all_lower(views).take(n as int) =~= all_lower(views));
    out
}

/// The ban lists.
pub struct BanCache {
    pub ip_bans: KeyedTtlCache<(IpAddr, BanType), bool>,
    pub extensions: KeyedTtlCache<(), Vec<String>>,
    pub mimes: KeyedTtlCache<(), Vec<String>>,
    pub hashes: KeyedTtlCache<(), Vec<Vec<u8>>>,
    /// In lower case.
    pub user_agent_patterns: KeyedTtlCache<(), Vec<String>>,
}

/// What a cached list says of a text.
pub open spec fn listed(
    cache: KeyedTtlCache<(), Vec<String>>,
    needle: Seq<char>,
    now: u64,
) -> Option<bool> {
    match ttl_cache::lookup(cache@, cache.ttl(), (), now) {
        Some(list) => Some(list.deep_view().contains(needle)),
        None => None,
    }
}

impl BanCache {
    pub open spec fn wf(&self) -> bool {
        &&& self.ip_bans.wf()
        &&& self.extensions.wf()
        &&& self.mimes.wf()
        &&& self.hashes.wf()
        &&& self.user_agent_patterns.wf()
    }

    /// With nothing known.
    pub fn new(ttl: u64) -> (r: BanCache)
        ensures
            r.wf(),
            r.ip_bans@ == Map::<(IpAddr, BanType), (u64, bool)>::empty(),
            r.extensions@ == Map::<(), (u64, Vec<String>)>::empty(),
            r.mimes@ == Map::<(), (u64, Vec<String>)>::empty(),
            r.hashes@ == Map::<(), (u64, Vec<Vec<u8>>)>::empty(),
            r.user_agent_patterns@ == Map::<(), (u64, Vec<String>)>::empty(),
            r.ip_bans.ttl() == ttl,
            r.extensions.ttl() == ttl,
            r.mimes.ttl() == ttl,
            r.hashes.ttl() == ttl,
            r.user_agent_patterns.ttl() == ttl,
    {
        BanCache {
            ip_bans: KeyedTtlCache::new(ttl),
            extensions: KeyedTtlCache::new(ttl),
            mimes: KeyedTtlCache::new(ttl),
            hashes: KeyedTtlCache::new(ttl),
            user_agent_patterns: KeyedTtlCache::new(ttl),
        }
    }

    /// Whether an address is banned at least that far.
    pub fn is_ip_banned(&self, ip: IpAddr, ban_type: BanType, now: u64) -> (r: Option<bool>)
        requires
            self.wf(),
        ensures
            r == ttl_cache::lookup(self.ip_bans@, self.ip_bans.ttl(), (ip, ban_type), now),
    {
        match self.ip_bans.get(&(ip, ban_type), now) {
            Some(banned) => Some(*banned),
            None => None,
        }
    }

    /// Whether a file extension is banned, in letters of any case.
    pub fn is_extension_banned(&self, ext: &str, now: u64) -> (r: Option<bool>)
        requires
            self.wf(),
        ensures
            r == listed(self.extensions, text::unicode_lowercase(ext@), now),
    {
        let low = ext.to_lowercase();
        match self.extensions.get(&(), now) {
            Some(list) => Some(in_list(list, low.as_str())),
            None => None,
        }
    }

    /// Whether a media type is banned, in letters of any case.
    pub fn is_mime_banned(&self, mime: &str, now: u64) -> (r: Option<bool>)
        requires
            self.wf(),
        ensures
            r == listed(self.mimes, text::unicode_lowercase(mime@), now),
    {
        let low = mime.to_lowercase();
        match self.mimes.get(&(), now) {
            Some(list) => Some(in_list(list, low.as_str())),
            None => None,
        }
    }

    /// Whether a file's hash is banned.
    pub fn is_hash_banned(&self, hash: &[u8], now: u64) -> (r: Option<bool>)
        requires
            self.wf(),
        ensures
            r == (match ttl_cache::lookup(self.hashes@, self.hashes.ttl(), (), now) {
                Some(list) => Some(list.deep_view().contains(hash@)),
                None => None,
            }),
    {
        match self.hashes.get(&(), now) {
            Some(list) => Some(hash_in_list(list, hash)),
            None => None,
        }
    }

    /// Whether a user agent is banned: whether one of the patterns occurs in
    /// it, in letters of any case.
    pub fn is_user_agent_banned(&self, user_agent: &str, now: u64) -> (r: Option<bool>)
        requires
            self.wf(),
        ensures
            r == (match ttl_cache::lookup(
                self.user_agent_patterns@,
                self.user_agent_patterns.ttl(),
                (),
                now,
            ) {
                Some(patterns) => Some(
                    some_pattern_in(patterns.deep_view(), text::unicode_lowercase(user_agent@)),
                ),
                None => None,
            }),
    {
        let low = user_agent.to_lowercase();
        match self.user_agent_patterns.get(&(), now) {
            Some(patterns) => Some(matches_any(patterns, low.as_str())),
            None => None,
        }
    }

    /// Notes whether an address is banned at least that far.
    pub fn refresh_ip(
        &mut self,
        ip: IpAddr,
        ban_type: BanType,
        banned: bool,
        fetched: u64,
        now: u64,
    )
        requires
            old(self).wf(),
        ensures
            final(self).wf(),
            final(self).ip_bans.ttl() == old(self).ip_bans.ttl(),
            final(self).ip_bans@ == ttl_cache::still_fresh(
                old(self).ip_bans@.insert((ip, ban_type), (fetched, banned)),
                old(self).ip_bans.ttl(),
                now,
            ),
            final(self).extensions == old(self).extensions,
            final(self).mimes == old(self).mimes,
            final(self).hashes == old(self).hashes,
            final(self).user_agent_patterns == old(self).user_agent_patterns,
    {
        self.ip_bans.refresh((ip, ban_type), banned, fetched, now);
    }

    /// Notes the banned file extensions.
    pub fn refresh_extensions(&mut self, list: Vec<String>, fetched: u64, now: u64)
        requires
            old(self).wf(),
        ensures
            final(self).wf(),
            final(self).extensions.ttl() == old(self).extensions.ttl(),
            final(self).extensions@ == ttl_cache::still_fresh(
                old(self).extensions@.insert((), (fetched, list)),
                old(self).extensions.ttl(),
                now,
            ),
            final(self).ip_bans == old(self).ip_bans,
            final(self).mimes == old(self).mimes,
            final(self).hashes == old(self).hashes,
            final(self).user_agent_patterns == old(self).user_agent_patterns,
    {
        self.extensions.refresh((), list, fetched, now);
    }

    /// Notes the banned media types.
    pub fn refresh_mimes(&mut self, list: Vec<String>, fetched: u64, now: u64)
        requires
            old(self).wf(),
        ensures
            final(self).wf(),
            final(self).mimes.ttl() == old(self).mimes.ttl(),
            final(self).mimes@ == ttl_cache::still_fresh(
                old(self).mimes@.insert((), (fetched, list)),
                old(self).mimes.ttl(),
                now,
            ),
            final(self).ip_bans == old(self).ip_bans,
            final(self).extensions == old(self).extensions,
            final(self).hashes == old(self).hashes,
            final(self).user_agent_patterns == old(self).user_agent_patterns,
    {
        self.mimes.refresh((), list, fetched, now);
    }

    /// Notes the banned hashes.
    pub fn refresh_hashes(&mut self, list: Vec<Vec<u8>>, fetched: u64, now: u64)
        requires
            old(self).wf(),
        ensures
            final(self).wf(),
            final(self).hashes.ttl() == old(self).hashes.ttl(),
            final(self).hashes@ == ttl_cache::still_fresh(
                old(self).hashes@.insert((), (fetched, list)),
                old(self).hashes.ttl(),
                now,
            ),
            final(self).ip_bans == old(self).ip_bans,
            final(self).extensions == old(self).extensions,
            final(self).mimes == old(self).mimes,
            final(self).user_agent_patterns == old(self).user_agent_patterns,
    {
        self.hashes.refresh((), list, fetched, now);
    }

    /// Notes the patterns of banned user agents, in lower case.
    pub fn refresh_user_agents(&mut self, patterns: &Vec<String>, fetched: u64, now: u64)
        requires
            old(self).wf(),
        ensures
            final(self).wf(),
            final(self).user_agent_patterns.ttl() == old(self).user_agent_patterns.ttl(),
            exists|low: Vec<String>|
                {
                    &&& low.deep_view() == all_lower(patterns.deep_view())
                    &&& final(self).user_agent_patterns@ == #[trigger] ttl_cache::still_fresh(
                        old(self).user_agent_patterns@.insert((), (fetched, low)),
                        old(self).user_agent_patterns.ttl(),
                        now,
                    )
                },
            final(self).ip_bans == old(self).ip_bans,
            final(self).extensions == old(self).extensions,
            final(self).mimes == old(self).mimes,
            final(self).hashes == old(self).hashes,
    {
        let low = lower_list(patterns);
        self.user_agent_patterns.refresh((), low, fetched, now);
    }

    /// Forgets which addresses are banned.
    pub fn invalidate_ip_ranges(&mut self)
        requires
            old(self).wf(),
        ensures
            final(self).wf(),
            final(self).ip_bans@ == Map::<(IpAddr, BanType), (u64, bool)>::empty(),
            final(self).ip_bans.ttl() == old(self).ip_bans.ttl(),
            final(self).extensions == old(self).extensions,
            final(self).mimes == old(self).mimes,
            final(self).hashes == old(self).hashes,
            final(self).user_agent_patterns == old(self).user_agent_patterns,
    {
        self.ip_bans.invalidate();
    }

    /// Forgets which file extensions are banned.
    pub fn invalidate_extensions(&mut self)
        requires
            old(self).wf(),
        ensures
            final(self).wf(),
            final(self).extensions@ == Map::<(), (u64, Vec<String>)>::empty(),
            final(self).extensions.ttl() == old(self).extensions.ttl(),
            final(self).ip_bans == old(self).ip_bans,
            final(self).mimes == old(self).mimes,
            final(self).hashes == old(self).hashes,
            final(self).user_agent_patterns == old(self).user_agent_patterns,
    {
        self.extensions.invalidate();
    }

    /// Forgets which media types are banned.
    pub fn invalidate_mimes(&mut self)
        requires
            old(self).wf(),
        ensures
            final(self).wf(),
            final(self).mimes@ == Map::<(), (u64, Vec<String>)>::empty(),
            final(self).mimes.ttl() == old(self).mimes.ttl(),
            final(self).ip_bans == old(self).ip_bans,
            final(self).extensions == old(self).extensions,
            final(self).hashes == old(self).hashes,
            final(self).user_agent_patterns == old(self).user_agent_patterns,
    {
        self.mimes.invalidate();
    }

    /// Forgets which hashes are banned.
    pub fn invalidate_hashes(&mut self)
        requires
            old(self).wf(),
        ensures
            final(self).wf(),
            final(self).hashes@ == Map::<(), (u64, Vec<Vec<u8>>)>::empty(),
            final(self).hashes.ttl() == old(self).hashes.ttl(),
            final(self).ip_bans == old(self).ip_bans,
            final(self).extensions == old(self).extensions,
            final(self).mimes == old(self).mimes,
            final(self).user_agent_patterns == old(self).user_agent_patterns,
    {
        self.hashes.invalidate();
    }

    /// Forgets which user agents are banned.
    pub fn invalidate_user_agents(&mut self)
        requires
            old(self).wf(),
        ensures
            final(self).wf(),
            final(self).user_agent_patterns@ == Map::<(), (u64, Vec<String>)>::empty(),
            final(self).user_agent_patterns.ttl() == old(self).user_agent_patterns.ttl(),
            final(self).ip_bans == old(self).ip_bans,
            final(self).extensions == old(self).extensions,
            final(self).mimes == old(self).mimes,
            final(self).hashes == old(self).hashes,
    {
        self.user_agent_patterns.invalidate();
    }
}

// ---------------------------------------------------------------- questions

/// What the database says in answer to a question.
#[derive(Debug)]
pub enum Fetched {
    /// Whether the address is banned.
    Flag(bool),
    /// The banned extensions or media types, or the user agent patterns.
    Texts(Vec<String>),
    /// The banned hashes.
    Hashes(Vec<Vec<u8>>),
}

/// What the cache knows in answer to a question about an upload, if anything.
/// Quotas are not kept.
pub open spec fn known(c: BanCache, topic: Topic, now: u64) -> Option<bool> {
    match topic {
        Topic::Ip(ip) => ttl_cache::lookup(
            c.ip_bans@,
            c.ip_bans.ttl(),
            (ip, BanType::ReadOnly),
            now,
        ),
        Topic::Extension(e) => listed(c.extensions, text::unicode_lowercase(e), now),
        Topic::Mime(m) => listed(c.mimes, text::unicode_lowercase(m), now),
        Topic::Hash(h) => match ttl_cache::lookup(c.hashes@, c.hashes.ttl(), (), now) {
            Some(list) => Some(list.deep_view().contains(h)),
            None => None,
        },
        Topic::UserAgent(ua) => match ttl_cache::lookup(
            c.user_agent_patterns@,
            c.user_agent_patterns.ttl(),
            (),
            now,
        ) {
            Some(patterns) => Some(
                some_pattern_in(patterns.deep_view(), text::unicode_lowercase(ua)),
            ),
            None => None,
        },
        _ => None,
    }
}

/// What the database's word means for a question; none where it answers
/// another one.
pub open spec fn meaning(topic: Topic, fetched: Fetched) -> Option<bool> {
    match (topic, fetched) {
        (Topic::Ip(_), Fetched::Flag(banned)) => Some(banned),
        (Topic::Extension(e), Fetched::Texts(list)) => Some(
            list.deep_view().contains(text::unicode_lowercase(e)),
        ),
        (Topic::Mime(m), Fetched::Texts(list)) => Some(
            list.deep_view().contains(text::unicode_lowercase(m)),
        ),
        (Topic::Hash(h), Fetched::Hashes(list)) => Some(list.deep_view().contains(h)),
        (Topic::UserAgent(ua), Fetched::Texts(list)) => Some(
            some_pattern_in(all_lower(list.deep_view()), text::unicode_lowercase(ua)),
        ),
        _ => None,
    }
}

/// The cache afterwards is the one before with the database's word on a
/// question noted; the word on another question is not noted.
pub open spec fn noted(
    before: BanCache,
    after: BanCache,
    topic: Topic,
    fetched: Fetched,
    at: u64,
    now: u64,
) -> bool {
    let asked_ip = topic is Ip && fetched is Flag;
    let asked_extensions = topic is Extension && fetched is Texts;
    let asked_mimes = topic is Mime && fetched is Texts;
    let asked_hashes = topic is Hash && fetched is Hashes;
    let asked_agents = topic is UserAgent && fetched is Texts;
    &&& after.ip_bans.ttl() == before.ip_bans.ttl()
    &&& after.extensions.ttl() == before.extensions.ttl()
    &&& after.mimes.ttl() == before.mimes.ttl()
    &&& after.hashes.ttl() == before.hashes.ttl()
    &&& after.user_agent_patterns.ttl() == before.user_agent_patterns.ttl()
    &&& after.ip_bans@ == (if asked_ip {
        ttl_cache::still_fresh(
            before.ip_bans@.insert((topic->Ip_0, BanType::ReadOnly), (at, fetched->Flag_0)),
            before.ip_bans.ttl(),
            now,
        )
    } else {
        before.ip_bans@
    })
    &&& after.extensions@ == (if asked_extensions {
        ttl_cache::still_fresh(
            before.extensions@.insert((), (at, fetched->Texts_0)),
            before.extensions.ttl(),
            now,
        )
    } else {
        before.extensions@
    })
    &&& after.mimes@ == (if asked_mimes {
        ttl_cache::still_fresh(
            before.mimes@.insert((), (at, fetched->Texts_0)),
            before.mimes.ttl(),
            now,
        )
    } else {
        before.mimes@
    })
    &&& after.hashes@ == (if asked_hashes {
        ttl_cache::still_fresh(
            before.hashes@.insert((), (at, fetched->Hashes_0)),
            before.hashes.ttl(),
            now,
        )
    } else {
        before.hashes@
    })
    &&& if asked_agents {
        exists|low: Vec<String>|
            {
                &&& low.deep_view() == all_lower(fetched->Texts_0.deep_view())
                &&& after.user_agent_patterns@ == #[trigger] ttl_cache::still_fresh(
                    before.user_agent_patterns@.insert((), (at, low)),
                    before.user_agent_patterns.ttl(),
                    now,
                )
            }
    } else {
        after.user_agent_patterns@ == before.user_agent_patterns@
    }
}

impl BanCache {
    /// What the cache knows in answer to a question about an upload; where it
    /// knows nothing, the database is to be asked.
    pub fn recall(&self, check: &Check, now: u64) -> (r: Option<bool>)
        requires
            self.wf(),
        ensures
            r == known(*self, check@, now),
    {
        match check {
            Check::Ip(ip) => self.is_ip_banned(*ip, BanType::ReadOnly, now),
            Check::Extension(e) => self.is_extension_banned(e.as_str(), now),
            Check::Mime(m) => self.is_mime_banned(m.as_str(), now),
            Check::Hash(h) => self.is_hash_banned(h.as_slice(), now),
            Check::UserAgent(ua) => self.is_user_agent_banned(ua.as_str(), now),
            _ => None,
        }
    }

    /// Notes what the database said in answer to a question, and gives the
    /// answer.
    pub fn learn(&mut self, check: &Check, fetched: Fetched, at: u64, now: u64) -> (r: Option<bool>)
        requires
            old(self).wf(),
        ensures
            final(self).wf(),
            noted(*old(self), *final(self), check@, fetched, at, now),
            r == meaning(check@, fetched),
    {
        match check {
            Check::Ip(ip) => match fetched {
                Fetched::Flag(banned) => {
                    self.refresh_ip(*ip, BanType::ReadOnly, banned, at, now);
                    Some(banned)
                },
                _ => None,
            },
            Check::Extension(e) => match fetched {
                Fetched::Texts(list) => {
                    let low = e.as_str().to_lowercase();
                    let banned = in_list(&list, low.as_str());
                    self.refresh_extensions(list, at, now);
                    Some(banned)
                },
                _ => None,
            },
            Check::Mime(m) => match fetched {
                Fetched::Texts(list) => {
                    let low = m.as_str().to_lowercase();
                    let banned = in_list(&list, low.as_str());
                    self.refresh_mimes(list, at, now);
                    Some(banned)
                },
                _ => None,
            },
            Check::Hash(h) => match fetched {
                Fetched::Hashes(list) => {
                    let banned = hash_in_list(&list, h.as_slice());
                    self.refresh_hashes(list, at, now);
                    Some(banned)
                },
                _ => None,
            },
            Check::UserAgent(ua) => match fetched {
                Fetched::Texts(list) => {
                    let low = ua.as_str().to_lowercase();
                    let patterns = lower_list(&list);
                    let banned = matches_any(&patterns, low.as_str());
                    self.refresh_user_agents(&list, at, now);
                    Some(banned)
                },
                _ => None,
            },
            _ => None,
        }
    }
}

/// What came of asking the database, as the answer to a question: its word, or
/// why there is none. A word on another question counts as stray.
pub open spec fn answer_of<E>(topic: Topic, reply: Result<Fetched, E>, stray: E) -> Result<bool, E> {
    match reply {
        Ok(fetched) => match meaning(topic, fetched) {
            Some(banned) => Ok(banned),
            None => Err(stray),
        },
        Err(e) => Err(e),
    }
}

impl BanCache {
    /// Takes in what came of asking the database: its word is noted, and where
    /// asking failed nothing is, so that the next inquiry asks again.
    pub fn settle<E>(
        &mut self,
        check: &Check,
        reply: Result<Fetched, E>,
        stray: E,
        at: u64,
        now: u64,
    ) -> (r: Result<bool, E>)
        requires
            old(self).wf(),
        ensures
            final(self).wf(),
            r == answer_of(check@, reply, stray),
            match reply {
                Ok(fetched) => noted(*old(self), *final(self), check@, fetched, at, now),
                Err(_) => *final(self) == *old(self),
            },
    {
        match reply {
            Ok(fetched) => match self.learn(check, fetched, at, now) {
                Some(banned) => Ok(banned),
                None => Err(stray),
            },
            Err(e) => Err(e),
        }
    }
}

/// What was learned is what is recalled, as long as it holds.
pub proof fn lemma_learned_is_recalled(
    before: BanCache,
    after: BanCache,
    topic: Topic,
    fetched: Fetched,
    at: u64,
    now: u64,
    later: u64,
)
    requires
        noted(before, after, topic, fetched, at, now),
        meaning(topic, fetched) is Some,
        now <= later,
        topic is Ip ==> ttl_cache::age(at, later) < before.ip_bans.ttl(),
        topic is Extension ==> ttl_cache::age(at, later) < before.extensions.ttl(),
        topic is Mime ==> ttl_cache::age(at, later) < before.mimes.ttl(),
        topic is Hash ==> ttl_cache::age(at, later) < before.hashes.ttl(),
        topic is UserAgent ==> ttl_cache::age(at, later) < before.user_agent_patterns.ttl(),
    ensures
        known(after, topic, later) == meaning(topic, fetched),
{
}

// ---------------------------------------------------------------- laws

/// What the database's word means: a flag tells of an address; a list of texts
/// bans an extension or a media type where it holds its lower case; a list of
/// hashes bans those that it holds; a user agent is banned where the lower
/// case of one of the patterns occurs in its lower case. A word of another
/// kind means nothing.
pub proof fn lemma_meaning_of_a_word(
    ip: IpAddr,
    s: Seq<char>,
    h: Seq<u8>,
    banned: bool,
    texts: Vec<String>,
    hashes: Vec<Vec<u8>>,
)
    ensures
        meaning(Topic::Ip(ip), Fetched::Flag(banned)) == Some(banned),
        meaning(Topic::Extension(s), Fetched::Texts(texts)) == Some(
            texts.deep_view().contains(text::unicode_lowercase(s)),
        ),
        meaning(Topic::Mime(s), Fetched::Texts(texts)) == Some(
            texts.deep_view().contains(text::unicode_lowercase(s)),
        ),
        meaning(Topic::Hash(h), Fetched::Hashes(hashes)) == Some(hashes.deep_view().contains(h)),
        meaning(Topic::UserAgent(s), Fetched::Texts(texts)) == Some(
            exists|i: int|
                0 <= i < texts.deep_view().len() && text::contains_run(
                    text::unicode_lowercase(s),
                    text::unicode_lowercase(#[trigger] texts.deep_view()[i]),
                ),
        ),
        meaning(Topic::Ip(ip), Fetched::Texts(texts)) is None,
        meaning(Topic::Ip(ip), Fetched::Hashes(hashes)) is None,
        meaning(Topic::Hash(h), Fetched::Texts(texts)) is None,
        meaning(Topic::Hash(h), Fetched::Flag(banned)) is None,
        meaning(Topic::Extension(s), Fetched::Flag(banned)) is None,
        meaning(Topic::Mime(s), Fetched::Flag(banned)) is None,
        meaning(Topic::UserAgent(s), Fetched::Flag(banned)) is None,
{
    let low = all_lower(texts.deep_view());
    let ua = text::unicode_lowercase(s);
    if some_pattern_in(low, ua) {
        let i = choose|i: int| 0 <= i < low.len() && text::contains_run(ua, #[trigger] low[i]);
        assert(low[i] == text::unicode_lowercase(texts.deep_view()[i]));
    }
    if exists|i: int|
        0 <= i < texts.deep_view().len() && text::contains_run(
            ua,
            text::unicode_lowercase(#[trigger] texts.deep_view()[i]),
        ) {
        let i = choose|i: int|
            0 <= i < texts.deep_view().len() && text::contains_run(
                ua,
                text::unicode_lowercase(#[trigger] texts.deep_view()[i]),
            );
        assert(low[i] == text::unicode_lowercase(texts.deep_view()[i]));
    }
}

/// The case of an extension, a media type or a user agent does not matter.
pub proof fn lemma_case_does_not_matter(c: BanCache, a: Seq<char>, b: Seq<char>, now: u64)
    requires
        text::unicode_lowercase(a) == text::unicode_lowercase(b),
    ensures
        known(c, Topic::Extension(a), now) == known(c, Topic::Extension(b), now),
        known(c, Topic::Mime(a), now) == known(c, Topic::Mime(b), now),
        known(c, Topic::UserAgent(a), now) == known(c, Topic::UserAgent(b), now),
{
}

/// A list that is known and still holds answers for everything, on it or not;
/// one that is not known answers for nothing. Addresses are known one by one,
/// and quotas never.
pub proof fn lemma_what_a_list_answers(c: BanCache, s: Seq<char>, h: Seq<u8>, ip: IpAddr, n: int, now: u64)
    ensures
        ttl_cache::lookup(c.extensions@, c.extensions.ttl(), (), now) matches Some(list) ==> known(
            c,
            Topic::Extension(s),
            now,
        ) == Some(list.deep_view().contains(text::unicode_lowercase(s))),
        ttl_cache::lookup(c.mimes@, c.mimes.ttl(), (), now) matches Some(list) ==> known(
            c,
            Topic::Mime(s),
            now,
        ) == Some(list.deep_view().contains(text::unicode_lowercase(s))),
        ttl_cache::lookup(c.hashes@, c.hashes.ttl(), (), now) matches Some(list) ==> known(
            c,
            Topic::Hash(h),
            now,
        ) == Some(list.deep_view().contains(h)),
        ttl_cache::lookup(c.extensions@, c.extensions.ttl(), (), now) is None ==> known(
            c,
            Topic::Extension(s),
            now,
        ) is None,
        ttl_cache::lookup(c.mimes@, c.mimes.ttl(), (), now) is None ==> known(c, Topic::Mime(s), now)
            is None,
        ttl_cache::lookup(c.hashes@, c.hashes.ttl(), (), now) is None ==> known(
            c,
            Topic::Hash(h),
            now,
        ) is None,
        ttl_cache::lookup(c.user_agent_patterns@, c.user_agent_patterns.ttl(), (), now) is None
            ==> known(c, Topic::UserAgent(s), now) is None,
        known(c, Topic::Ip(ip), now) == ttl_cache::lookup(
            c.ip_bans@,
            c.ip_bans.ttl(),
            (ip, BanType::ReadOnly),
            now,
        ),
        known(c, Topic::UploadCount(ip, n), now) is None,
        known(c, Topic::ByteCount(ip, n), now) is None,
{
}

/// The topics are answered from lists of their own, or are two addresses.
pub open spec fn apart(a: Topic, b: Topic) -> bool {
    match (a, b) {
        (Topic::Ip(x), Topic::Ip(y)) => x != y,
        (Topic::Extension(_), Topic::Extension(_)) => false,
        (Topic::Mime(_), Topic::Mime(_)) => false,
        (Topic::Hash(_), Topic::Hash(_)) => false,
        (Topic::UserAgent(_), Topic::UserAgent(_)) => false,
        _ => true,
    }
}

/// Learning of one thing changes nothing that is known of another.
pub proof fn lemma_learning_touches_nothing_else(
    before: BanCache,
    after: BanCache,
    topic: Topic,
    fetched: Fetched,
    at: u64,
    now: u64,
    other: Topic,
    later: u64,
)
    requires
        noted(before, after, topic, fetched, at, now),
        apart(topic, other),
        now <= later,
    ensures
        known(after, other, later) == known(before, other, later),
{
    if topic is Ip && fetched is Flag && other is Ip {
        ttl_cache::lemma_refresh_then_lookup(
            before.ip_bans@,
            before.ip_bans.ttl(),
            (topic->Ip_0, BanType::ReadOnly),
            fetched->Flag_0,
            at,
            now,
            (other->Ip_0, BanType::ReadOnly),
            later,
        );
    }
}

/// A failure is handed on as it is, and so is what the database says; a word
/// on another question counts as stray.
pub proof fn lemma_answers_are_handed_on<E>(topic: Topic, fetched: Fetched, e: E, stray: E)
    ensures
        answer_of(topic, Err(e), stray) == Err::<bool, E>(e),
        meaning(topic, fetched) matches Some(banned) ==> answer_of(topic, Ok(fetched), stray) == Ok::<
            bool,
            E,
        >(banned),
        meaning(topic, fetched) is None ==> answer_of(topic, Ok(fetched), stray) == Err::<bool, E>(
            stray,
        ),
{
}

} // verus!
