//! Blacklists: the address ranges in a fetched text, and when to fetch again.

use vstd::prelude::*;
use vstd::string::*;

use crate::ip::IpAddr;
use crate::ip_text;
use crate::ip_text::parse_v4;
use crate::model::{BanType, Blacklist};
use crate::text;
use crate::text::{decimal_int_text, parse_u64};
use crate::timestamp;
use crate::timestamp::{seconds_between, Timestamp};

verus! {

/// A range of addresses, both ends in it.
#[derive(Debug, Clone, Copy, PartialEq, Eq, Structural)]
pub struct IpRangeEntry {
    pub start: IpAddr,
    pub end: IpAddr,
}

// ---------------------------------------------------------------- blocks

/// The number of addresses in a block with a prefix of so many bits.
pub open spec fn block_size(prefix: nat) -> nat
    decreases 32 - prefix,
{
    if prefix >= 32 {
        1
    } else {
        2 * block_size(prefix + 1)
    }
}

/// The first address of the block that an address lies in.
pub open spec fn block_start(addr: nat, prefix: nat) -> nat {
    (addr - addr % block_size(prefix)) as nat
}

/// The last address of the block that an address lies in.
pub open spec fn block_end(addr: nat, prefix: nat) -> nat {
    (block_start(addr, prefix) + block_size(prefix) - 1) as nat
}

fn size_of_block(prefix: u8) -> (r: u64)
    requires
        prefix <= 32,
    ensures
        r == block_size(prefix as nat),
        1 <= r <= 0x1_0000_0000,
{
    let mut size: u64 = 1;
    let mut p: u8 = 32;
    while p > prefix
        invariant
            prefix <= p <= 32,
            size == block_size(p as nat),
            1 <= size <= 0x1_0000_0000,
        decreases p,
    {
        proof {
            let below = (p - 1) as nat;
            lemma_size_times_room(below);
            lemma_block_room(below);
            assert(block_size(below) <= 0x1_0000_0000) by (nonlinear_arith)
                requires
                    block_size(below) * block_room(below) == 0x1_0000_0000,
                    block_room(below) >= 1,
            ;
        }
        p -= 1;
        size = size * 2;
    }
    size
}

/// The number of blocks with a prefix of so many bits.
spec fn block_room(prefix: nat) -> nat
    decreases prefix,
{
    if prefix == 0 {
        1
    } else {
        2 * block_room((prefix - 1) as nat)
    }
}

proof fn lemma_block_room(prefix: nat)
    ensures
        block_room(prefix) >= 1,
    decreases prefix,
{
    if prefix > 0 {
        lemma_block_room((prefix - 1) as nat);
    }
}

proof fn lemma_all_rooms()
    ensures
        block_room(32) == 0x1_0000_0000,
{
    reveal_with_fuel(block_room, 33);
}

proof fn lemma_size_times_room(prefix: nat)
    requires
        prefix <= 32,
    ensures
        block_size(prefix) * block_room(prefix) == 0x1_0000_0000,
        block_size(prefix) >= 1,
    decreases 32 - prefix,
{
    if prefix == 32 {
        lemma_all_rooms();
    } else {
        lemma_size_times_room(prefix + 1);
        assert(block_room(prefix + 1) == 2 * block_room(prefix));
        let s = block_size(prefix + 1);
        let r = block_room(prefix);
        assert((2 * s) * r == s * (2 * r)) by (nonlinear_arith);
    }
}

proof fn lemma_block(addr: nat, prefix: nat)
    requires
        prefix <= 32,
        addr < 0x1_0000_0000,
    ensures
        block_start(addr, prefix) <= addr <= block_end(addr, prefix),
        block_end(addr, prefix) < 0x1_0000_0000,
        block_start(addr, prefix) == (addr / block_size(prefix)) * block_size(prefix),
{
    lemma_size_times_room(prefix);
    let s = block_size(prefix);
    let room = block_room(prefix);
    let q = addr / s;
    assert(addr == q * s + addr % s && 0 <= addr % s < s) by (nonlinear_arith)
        requires
            q == addr / s,
            s >= 1,
    ;
    assert(q < room) by (nonlinear_arith)
        requires
            q * s <= addr,
            addr < s * room,
    ;
    assert((q + 1) * s <= room * s) by (nonlinear_arith)
        requires
            q < room,
    ;
    assert((q + 1) * s == q * s + s) by (nonlinear_arith);
    assert(room * s == s * room) by (nonlinear_arith);
}

/// The first and the last address of the block with a prefix of so many bits
/// that an address lies in. An address inside its block stands for the whole
/// block.
pub fn cidr_range(addr: u32, prefix: u8) -> (r: (u32, u32))
    requires
        prefix <= 32,
    ensures
        r.0 == block_start(addr as nat, prefix as nat),
        r.1 == block_end(addr as nat, prefix as nat),
        r.0 <= addr <= r.1,
{
    let size: u64 = size_of_block(prefix);
    proof {
        lemma_block(addr as nat, prefix as nat);
        assert(addr as u64 % size <= addr) by (nonlinear_arith)
            requires
                size >= 1,
        ;
    }
    let within: u64 = addr as u64 % size;
    let start: u64 = addr as u64 - within;
    let end: u64 = start + (size - 1);
    (start as u32, end as u32)
}

/// An address lies in the block of another exactly where both have the same
/// prefix.
pub proof fn lemma_block_members(addr: nat, prefix: nat, other: nat)
    requires
        prefix <= 32,
        addr < 0x1_0000_0000,
    ensures
        block_start(addr, prefix) <= other <= block_end(addr, prefix) <==> other / block_size(
            prefix,
        ) == addr / block_size(prefix),
{
    lemma_size_times_room(prefix);
    lemma_block(addr, prefix);
    let s = block_size(prefix);
    let q = addr / s;
    let p = other / s;
    assert(other == p * s + other % s && 0 <= other % s < s) by (nonlinear_arith)
        requires
            p == other / s,
            s >= 1,
    ;
    if q * s <= other && other < q * s + s {
        assert(p == q) by (nonlinear_arith)
            requires
                q * s <= other,
                other < q * s + s,
                p * s <= other,
                other < p * s + s,
                s >= 1,
        ;
    }
}

// ---------------------------------------------------------------- parsing

/// What is taken for an address, with the length of its prefix: works on
/// plain text, JSON and RSS alike.
pub const ADDRESS_PATTERN: &'static str =
    "(\\d{1,3}\\.\\d{1,3}\\.\\d{1,3}\\.\\d{1,3})(?:/(\\d{1,2}))?";

/// The groups of every match of a pattern in a text, in order; none where the
/// pattern is no pattern.
pub uninterp spec fn pattern_hits(pattern: Seq<char>, body: Seq<char>) -> Option<
    Seq<Seq<Option<Seq<char>>>>,
>;

/// The view of the groups of matches.
pub open spec fn hits_view(hits: Option<Vec<Vec<Option<String>>>>) -> Option<
    Seq<Seq<Option<Seq<char>>>>,
> {
    match hits {
        Some(h) => Some(h.deep_view()),
        None => None,
    }
}

/// A text of two parts, each on lines of its own.
pub open spec fn two_parts(a: Seq<char>, b: Seq<char>) -> Seq<char> {
    a.push('\n') + b
}

/// The matches of one text followed by those of another.
pub open spec fn joined_hits(
    a: Option<Seq<Seq<Option<Seq<char>>>>>,
    b: Option<Seq<Seq<Option<Seq<char>>>>>,
) -> Option<Seq<Seq<Option<Seq<char>>>>> {
    match (a, b) {
        (Some(x), Some(y)) => Some(x + y),
        _ => None,
    }
}

/// `regex::Regex::new` and `captures_iter`: claims that the groups depend on
/// the pattern and the text alone, and that whether the pattern is one does
/// not depend on the text. Of the address pattern, which is made of digits,
/// dots and slashes and looks at nothing around a match, it claims that no
/// match reaches over a line feed: the matches of two parts on lines of their
/// own are those of the first and then those of the second.
#[verifier::external_body]
fn find_hits(pattern: &str, body: &str) -> (r: Option<Vec<Vec<Option<String>>>>)
    ensures
        hits_view(r) == pattern_hits(pattern@, body@),
        forall|other: Seq<char>|
            (#[trigger] pattern_hits(pattern@, other)) is Some == r is Some,
        forall|a: Seq<char>, b: Seq<char>|
            pattern@ == ADDRESS_PATTERN@ && body@ == #[trigger] two_parts(a, b) ==> hits_view(r)
                == joined_hits(pattern_hits(pattern@, a), pattern_hits(pattern@, b)),
{
    let re = regex::Regex::new(pattern).ok()?;
    let hits = re.captures_iter(body).map(|caps| {
        caps.iter().map(|m| m.map(|t| t.as_str().to_string())).collect()
    });
    Some(hits.collect())
}

/// The range that the groups of a match give: the block of the address with
/// that prefix, or the address alone. None where the address is no address or
/// the prefix is too long.
pub open spec fn hit_range(hit: Seq<Option<Seq<char>>>) -> Option<(nat, nat)> {
    if hit.len() >= 3 && hit[1] is Some {
        match ip_text::v4_value(hit[1]->Some_0) {
            Some(addr) => match hit[2] {
                Some(p) => match text::u64_value(p) {
                    Some(prefix) => if prefix <= 32 {
                        Some((block_start(addr, prefix as nat), block_end(addr, prefix as nat)))
                    } else {
                        None
                    },
                    None => None,
                },
                None => Some((addr, addr)),
            },
            None => None,
        }
    } else {
        None
    }
}

/// The ranges that a row of matches gives.
pub open spec fn hit_ranges(hits: Seq<Seq<Option<Seq<char>>>>) -> Seq<(nat, nat)>
    decreases hits.len(),
{
    if hits.len() == 0 {
        Seq::empty()
    } else {
        let before = hit_ranges(hits.drop_last());
        match hit_range(hits.last()) {
            Some(range) => before.push(range),
            None => before,
        }
    }
}

/// The ranges of joined matches are the joined ranges.
pub proof fn lemma_joined_ranges(
    a: Seq<Seq<Option<Seq<char>>>>,
    b: Seq<Seq<Option<Seq<char>>>>,
)
    ensures
        hit_ranges(a + b) == hit_ranges(a) + hit_ranges(b),
    decreases b.len(),
{
    if b.len() == 0 {
        assert(a + b =~= a);
        assert(hit_ranges(a) + hit_ranges(b) =~= hit_ranges(a));
    } else {
        lemma_joined_ranges(a, b.drop_last());
        assert((a + b).drop_last() =~= a + b.drop_last());
        assert((a + b).last() == b.last());
        assert(hit_ranges(a + b) =~= hit_ranges(a) + hit_ranges(b));
    }
}

/// The ranges in a text, in order.
pub open spec fn body_ranges(body: Seq<char>) -> Seq<(nat, nat)> {
    match pattern_hits(ADDRESS_PATTERN@, body) {
        Some(hits) => hit_ranges(hits),
        None => Seq::empty(),
    }
}

/// No range ends before it starts.
pub open spec fn all_ordered(ranges: Seq<(nat, nat)>) -> bool {
    forall|i: int| 0 <= i < ranges.len() ==> (#[trigger] ranges[i]).0 <= ranges[i].1
}

/// The numbers of a list of v4 ranges.
pub open spec fn range_views(entries: Seq<IpRangeEntry>) -> Seq<(nat, nat)> {
    entries.map_values(
        |e: IpRangeEntry|
            match (e.start, e.end) {
                (IpAddr::V4(a), IpAddr::V4(b)) => (a as nat, b as nat),
                _ => (0, 0),
            },
    )
}

/// Every range is one of v4 addresses.
pub open spec fn all_v4(entries: Seq<IpRangeEntry>) -> bool {
    forall|i: int|
        0 <= i < entries.len() ==> (#[trigger] entries[i]).start is V4 && entries[i].end is V4
}

fn read_hit(hit: &Vec<Option<String>>) -> (r: Option<(u32, u32)>)
    ensures
        (match r {
            Some((a, b)) => Some((a as nat, b as nat)),
            None => None,
        }) == hit_range(hit.deep_view()),
        r matches Some((a, b)) ==> a <= b,
{
    let ghost view = hit.deep_view();
    assert(view.len() == hit@.len());
    if hit.len() < 3 {
        return None;
    }
    assert(view[1] == hit@[1].deep_view());
    assert(view[2] == hit@[2].deep_view());
    match &hit[1] {
        Some(a) => match parse_v4(a.as_str()) {
            Some(addr) => match &hit[2] {
                Some(p) => match parse_u64(p.as_str()) {
                    Some(prefix) => if prefix <= 32 {
                        Some(cidr_range(addr, prefix as u8))
                    } else {
                        None
                    },
                    None => None,
                },
                None => Some((addr, addr)),
            },
            None => None,
        },
        None => None,
    }
}

/// The ranges that a row of matches gives, in order.
pub fn entries_from_hits(hits: &Vec<Vec<Option<String>>>) -> (r: Vec<IpRangeEntry>)
    ensures
        range_views(r@) == hit_ranges(hits.deep_view()),
        all_v4(r@),
        all_ordered(range_views(r@)),
{
    let n: usize = hits.len();
    let ghost views = hits.deep_view();
    let mut out: Vec<IpRangeEntry> = Vec::new();
    assert(views.take(0) =~= Seq::<Seq<Option<Seq<char>>>>::empty());
    assert(range_views(out@) =~= Seq::<(nat, nat)>::empty());
    for i in 0..n
        invariant
            n == hits@.len(),
            views == hits.deep_view(),
            views.len() == n,
            range_views(out@) == hit_ranges(views.take(i as int)),
            all_v4(out@),
            all_ordered(range_views(out@)),
    {
        let ghost before = out@;
        assert(views[i as int] == hits@[i as int].deep_view());
        assert(views.take(i + 1).drop_last() =~= views.take(i as int));
        if let Some((start, end)) = read_hit(&hits[i]) {
            out.push(IpRangeEntry { start: IpAddr::V4(start), end: IpAddr::V4(end) });
            assert(range_views(out@) =~= range_views(before).push((start as nat, end as nat)));
        }
    }
    assert(views.take(n as int) =~= views);
    out
}

/// The ranges in a fetched text, in order; repeats are kept. No range ends
/// before it starts, and no line affects another: the ranges of two parts on
/// lines of their own are those of the first and then those of the second.
pub fn parse_body(body: &str) -> (r: Vec<IpRangeEntry>)
    ensures
        range_views(r@) == body_ranges(body@),
        all_v4(r@),
        all_ordered(range_views(r@)),
        forall|a: Seq<char>, b: Seq<char>| #[trigger]
            two_parts(a, b) == body@ ==> range_views(r@) == body_ranges(a) + body_ranges(b),
{
    let found = find_hits(ADDRESS_PATTERN, body);
    proof {
        assert forall|a: Seq<char>, b: Seq<char>| #[trigger] two_parts(a, b) == body@ implies
            body_ranges(body@) == body_ranges(a) + body_ranges(b) by {
            let (x, y) = (pattern_hits(ADDRESS_PATTERN@, a), pattern_hits(ADDRESS_PATTERN@, b));
            assert(pattern_hits(ADDRESS_PATTERN@, body@) == joined_hits(x, y));
            if x is Some && y is Some {
                lemma_joined_ranges(x->Some_0, y->Some_0);
            } else {
                assert(body_ranges(body@) =~= body_ranges(a) + body_ranges(b));
            }
        }
    }
    match found {
        Some(hits) => entries_from_hits(&hits),
        None => {
            let none: Vec<IpRangeEntry> = Vec::new();
            assert(range_views(none@) =~= Seq::<(nat, nat)>::empty());
            none
        },
    }
}

// ---------------------------------------------------------------- syncing

/// A ban that a blacklist asks for.
#[derive(Debug, Clone, Copy, PartialEq, Eq, Structural)]
pub struct ListedBan {
    pub start: IpAddr,
    pub end: IpAddr,
    pub blacklist_id: i32,
    pub type_: BanType,
}

/// The bans that a blacklist asks for: one for each range, of its type.
pub fn listed_bans(entries: &Vec<IpRangeEntry>, blacklist_id: i32, type_: BanType) -> (r: Vec<
    ListedBan,
>)
    ensures
        r@ == entries@.map_values(
            |e: IpRangeEntry| ListedBan { start: e.start, end: e.end, blacklist_id, type_ },
        ),
{
    let n: usize = entries.len();
    let mut out: Vec<ListedBan> = Vec::new();
    for i in 0..n
        invariant
            n == entries@.len(),
            out@ == entries@.take(i as int).map_values(
                |e: IpRangeEntry| ListedBan { start: e.start, end: e.end, blacklist_id, type_ },
            ),
    {
        let e: IpRangeEntry = entries[i];
        let ghost before = out@;
        out.push(ListedBan { start: e.start, end: e.end, blacklist_id, type_ });
        assert(out@ =~= entries@.take(i + 1).map_values(
            |e: IpRangeEntry| ListedBan { start: e.start, end: e.end, blacklist_id, type_ },
        ));
    }
    assert(entries@.take(n as int) =~= entries@);
    out
}

/// The blacklist is to be fetched: it never was, or its interval has passed.
pub open spec fn due(last_update: Option<Timestamp>, interval: u64, now: Timestamp) -> bool {
    match last_update {
        Some(last) => timestamp::whole_seconds(now.nanos - last.nanos) >= interval,
        None => true,
    }
}

/// Whether a blacklist is to be fetched.
pub fn is_due(last_update: Option<Timestamp>, interval: u64, now: Timestamp) -> (r: bool)
    requires
        now.valid(),
        last_update matches Some(last) ==> last.valid(),
    ensures
        r == due(last_update, interval, now),
{
    match last_update {
        Some(last) => {
            let elapsed: i64 = seconds_between(last, now);
            elapsed >= 0 && elapsed as u64 >= interval
        },
        None => true,
    }
}

/// The numbers of the blacklists to fetch among the first `n`.
pub open spec fn due_rows(lists: Seq<Blacklist>, now: Timestamp, n: nat) -> Seq<usize>
    decreases n,
{
    if n == 0 {
        Seq::empty()
    } else {
        let before = due_rows(lists, now, (n - 1) as nat);
        if due(lists[n - 1].last_update, lists[n - 1].update_interval_seconds, now) {
            before.push((n - 1) as usize)
        } else {
            before
        }
    }
}

/// The numbers of the blacklists that are to be fetched at a point in time.
pub fn due_at(lists: &Vec<Blacklist>, now: Timestamp) -> (r: Vec<usize>)
    requires
        now.valid(),
        forall|i: int|
            0 <= i < lists@.len() ==> ((#[trigger] lists@[i]).last_update matches Some(last)
                ==> last.valid()),
    ensures
        r@ == due_rows(lists@, now, lists@.len()),
{
    let n: usize = lists.len();
    let mut out: Vec<usize> = Vec::new();
    for i in 0..n
        invariant
            n == lists@.len(),
            now.valid(),
            forall|i: int|
                0 <= i < lists@.len() ==> ((#[trigger] lists@[i]).last_update matches Some(last)
                    ==> last.valid()),
            out@ == due_rows(lists@, now, i as nat),
    {
        if is_due(lists[i].last_update, lists[i].update_interval_seconds, now) {
            out.push(i);
        }
    }
    out
}

/// The numbers of the blacklists that are to be fetched now.
pub fn due_now(lists: &Vec<Blacklist>) -> (r: Vec<usize>)
    requires
        forall|i: int|
            0 <= i < lists@.len() ==> ((#[trigger] lists@[i]).last_update matches Some(last)
                ==> last.valid()),
    ensures
        exists|now: Timestamp|
            now.valid() && r@ == #[trigger] due_rows(lists@, now, lists@.len()),
{
    let now = Timestamp::now();
    due_at(lists, now)
}

/// What is said of a blacklist that does not exist.
pub fn not_found_message(blacklist_id: i32) -> (r: String)
    ensures
        r@ == "blacklist entry "@ + text::decimal_int(blacklist_id as int) + " not found"@,
{
    let mut out = "blacklist entry ".to_owned();
    let id = decimal_int_text(blacklist_id as i64);
    out.append(id.as_str());
    out.append(" not found");
    out
}

/// How many results are successes.
pub open spec fn success_count(results: Seq<bool>) -> nat
    decreases results.len(),
{
    if results.len() == 0 {
        0
    } else {
        success_count(results.drop_last()) + (if results.last() {
            1nat
        } else {
            0nat
        })
    }
}

/// How many results are successes and how many failures.
pub fn tally(results: &Vec<bool>) -> (r: (usize, usize))
    ensures
        r.0 == success_count(results@),
        r.0 + r.1 == results@.len(),
{
    let n: usize = results.len();
    let mut synced: usize = 0;
    for i in 0..n
        invariant
            n == results@.len(),
            synced <= i,
            synced == success_count(results@.take(i as int)),
    {
        assert(results@.take(i + 1).drop_last() =~= results@.take(i as int));
        if results[i] {
            synced += 1;
        }
    }
    assert(results@.take(n as int) =~= results@);
    (synced, n - synced)
}

// ---------------------------------------------------------------- laws

/// A block with a prefix of 32 bits is one address, and each bit less doubles
/// it.
pub proof fn lemma_block_sizes(prefix: nat)
    ensures
        block_size(32) == 1,
        prefix < 32 ==> block_size(prefix) == 2 * block_size(prefix + 1),
        block_size(24) == 256,
        block_size(16) == 65536,
        block_size(8) == 0x100_0000,
        block_size(0) == 0x1_0000_0000,
{
    reveal_with_fuel(block_size, 34);
}

/// The block of an address holds the address, is as large as its prefix says,
/// and begins at a multiple of its size; every address in it has the same
/// block.
pub proof fn lemma_block_of_an_address(addr: nat, prefix: nat, other: nat)
    requires
        prefix <= 32,
        addr < 0x1_0000_0000,
        other < 0x1_0000_0000,
    ensures
        block_start(addr, prefix) <= addr <= block_end(addr, prefix),
        block_end(addr, prefix) - block_start(addr, prefix) + 1 == block_size(prefix),
        block_start(addr, prefix) == (addr / block_size(prefix)) * block_size(prefix),
        block_start(addr, prefix) <= other <= block_end(addr, prefix) ==> block_start(other, prefix)
            == block_start(addr, prefix) && block_end(other, prefix) == block_end(addr, prefix),
{
    lemma_size_times_room(prefix);
    lemma_block(addr, prefix);
    lemma_block(other, prefix);
    lemma_block_members(addr, prefix, other);
}

/// An address in dotted notation stands for itself, and with the length of a
/// prefix of up to 32 bits for its block; with a longer one it is left out, and
/// so is what is no address.
pub proof fn lemma_range_of_a_match(hit: Seq<Option<Seq<char>>>, addr: u32, prefix: u64)
    ensures
        hit.len() >= 3 && hit[1] == Some(ip_text::v4_text(addr as nat)) && hit[2] is None
            ==> hit_range(hit) == Some((addr as nat, addr as nat)),
        hit.len() >= 3 && hit[1] == Some(ip_text::v4_text(addr as nat)) && hit[2] == Some(
            text::decimal(prefix as nat),
        ) && prefix <= 32 ==> hit_range(hit) == Some(
            (
                block_start(addr as nat, prefix as nat),
                (block_start(addr as nat, prefix as nat) + block_size(prefix as nat) - 1) as nat,
            ),
        ),
        hit.len() >= 3 && hit[2] == Some(text::decimal(prefix as nat)) && prefix > 32 ==> hit_range(
            hit,
        ) is None,
        hit.len() >= 3 && hit[1] is Some && ip_text::v4_value(hit[1]->Some_0) is None ==> hit_range(
            hit,
        ) is None,
        hit.len() < 3 || hit[1] is None ==> hit_range(hit) is None,
{
    crate::ip_text_laws::lemma_v4_parts(addr as nat);
    assert(text::zeros(0) + text::decimal(prefix as nat) =~= text::decimal(prefix as nat));
    text::lemma_number_texts(text::decimal(prefix as nat), prefix);
}

/// Each match gives at most one range, in order: a match more adds its range
/// at the end, and takes nothing from the others.
pub proof fn lemma_each_match_counts(
    hits: Seq<Seq<Option<Seq<char>>>>,
    hit: Seq<Option<Seq<char>>>,
)
    ensures
        hit_ranges(Seq::empty()).len() == 0,
        hit_range(hit) matches Some(range) ==> hit_ranges(hits.push(hit)) == hit_ranges(hits).push(
            range,
        ),
        hit_range(hit) is None ==> hit_ranges(hits.push(hit)) == hit_ranges(hits),
{
    assert(hits.push(hit).drop_last() =~= hits);
}

/// A blacklist is fetched the first time, and then whenever as many seconds
/// have passed as its interval has.
pub proof fn lemma_when_a_list_is_due(last: Timestamp, interval: u64, now: Timestamp)
    ensures
        due(None, interval, now),
        interval > 0 ==> (due(Some(last), interval, now) <==> now.nanos - last.nanos >= interval
            * 1_000_000_000),
        interval == 0 && now.nanos >= last.nanos ==> due(Some(last), interval, now),
{
}

/// A blacklist that is due stays due until it is fetched; one with a shorter
/// interval is due no later.
pub proof fn lemma_due_is_monotone(
    last: Option<Timestamp>,
    short: u64,
    long: u64,
    now: Timestamp,
    later: Timestamp,
)
    requires
        short <= long,
        now.nanos <= later.nanos,
        due(last, long, now),
    ensures
        due(last, short, later),
{
}

/// The blacklists that are fetched are exactly those that are due, in order
/// and each once.
pub proof fn lemma_due_lists(lists: Seq<Blacklist>, now: Timestamp, n: nat)
    requires
        n <= lists.len() <= usize::MAX,
    ensures
        forall|i: usize| #[trigger]
            due_rows(lists, now, n).contains(i) <==> i < n && due(
                lists[i as int].last_update,
                lists[i as int].update_interval_seconds,
                now,
            ),
        forall|a: int, b: int|
            0 <= a < b < due_rows(lists, now, n).len() ==> #[trigger] due_rows(lists, now, n)[a]
                < #[trigger] due_rows(lists, now, n)[b],
    decreases n,
{
    if n > 0 {
        let m = (n - 1) as nat;
        lemma_due_lists(lists, now, m);
        let before = due_rows(lists, now, m);
        let all = due_rows(lists, now, n);
        assert forall|i: usize| #[trigger] all.contains(i) <==> i < n && due(
            lists[i as int].last_update,
            lists[i as int].update_interval_seconds,
            now,
        ) by {
            if before.contains(i) {
                let k = choose|k: int| 0 <= k < before.len() && before[k] == i;
                assert(all[k] == i);
            }
            if all.contains(i) {
                let k = choose|k: int| 0 <= k < all.len() && all[k] == i;
                if k < before.len() {
                    assert(before[k] == i);
                    assert(before.contains(i));
                }
            }
            if i == m && due(lists[m as int].last_update, lists[m as int].update_interval_seconds, now) {
                assert(all[before.len() as int] == i);
            }
        }
        assert forall|a: int, b: int| 0 <= a < b < all.len() implies #[trigger] all[a]
            < #[trigger] all[b] by {
            assert(before.contains(before[a]));
            if b < before.len() {
                assert(before[a] < before[b]);
            }
        }
    }
}

/// One more result adds one to the successes where it is one.
pub proof fn lemma_each_result_counts(results: Seq<bool>, one: bool)
    ensures
        success_count(Seq::empty()) == 0,
        success_count(results.push(one)) == success_count(results) + (if one {
            1nat
        } else {
            0nat
        }),
{
    assert(results.push(one).drop_last() =~= results);
}

/// The ranges in a text are those of the matches of this pattern in it.
pub proof fn lemma_ranges_of_a_text(body: Seq<char>)
    ensures
        pattern_hits(
            "(\\d{1,3}\\.\\d{1,3}\\.\\d{1,3}\\.\\d{1,3})(?:/(\\d{1,2}))?"@,
            body,
        ) matches Some(hits) ==> body_ranges(body) == hit_ranges(hits),
{
}

/// A range of v4 addresses is told by the numbers of its ends.
pub proof fn lemma_ends_of_a_range(entries: Seq<IpRangeEntry>, i: int)
    requires
        0 <= i < entries.len(),
        all_v4(entries),
    ensures
        range_views(entries).len() == entries.len(),
        entries[i].start == IpAddr::V4(range_views(entries)[i].0 as u32),
        entries[i].end == IpAddr::V4(range_views(entries)[i].1 as u32),
        range_views(entries)[i].0 < 0x1_0000_0000,
        range_views(entries)[i].1 < 0x1_0000_0000,
{
    assert(entries[i].start is V4 && entries[i].end is V4);
}

} // verus!
