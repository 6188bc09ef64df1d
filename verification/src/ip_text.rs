//! The textual notation of IP addresses.

use vstd::prelude::*;
use vstd::string::*;

use crate::ip;
use crate::ip::IpAddr;
use crate::text;
use crate::text::{chars_of, decimal_text, split_text, text_of};
use crate::util;

verus! {

/// The number that a part of a dotted quad denotes: one to three decimal
/// digits without a leading zero, at most 255.
pub open spec fn octet_value(p: Seq<char>) -> Option<nat> {
    if 1 <= p.len() <= 3 && text::all_digits(p) && (p[0] != '0' || p.len() == 1)
        && text::digits_value(p) <= 255 {
        Some(text::digits_value(p))
    } else {
        None
    }
}

/// The number that a v4 address in dotted notation denotes.
pub open spec fn v4_value(s: Seq<char>) -> Option<nat> {
    let parts = text::pieces(s, '.', 5);
    if parts.len() == 4 {
        match (
            octet_value(parts[0]),
            octet_value(parts[1]),
            octet_value(parts[2]),
            octet_value(parts[3]),
        ) {
            (Some(a), Some(b), Some(c), Some(d)) => Some(
                ((a * 256 + b) * 256 + c) * 256 + d,
            ),
            _ => None,
        }
    } else {
        None
    }
}

fn parse_octet(p: &str) -> (r: Option<u32>)
    ensures
        r is Some == octet_value(p@) is Some,
        r matches Some(v) ==> v == octet_value(p@)->Some_0 && v <= 255,
{
    let chars = chars_of(p);
    let n: usize = chars.len();
    if n == 0 || n > 3 {
        return None;
    }
    if chars[0] == '0' && n > 1 {
        return None;
    }
    let mut v: u32 = 0;
    assert(chars@.take(0) =~= Seq::<char>::empty());
    for i in 0..n
        invariant
            chars@ == p@,
            n == chars@.len(),
            1 <= n <= 3,
            forall|k: int| 0 <= k < i ==> text::is_digit(#[trigger] chars@[k]),
            v == text::digits_value(chars@.take(i as int)),
            i == 0 ==> v == 0,
            i == 1 ==> v <= 9,
            i == 2 ==> v <= 99,
            i == 3 ==> v <= 999,
    {
        let c: char = chars[i];
        if c < '0' || c > '9' {
            assert(!text::is_digit(p@[i as int]));
            return None;
        }
        assert(chars@.take(i + 1).drop_last() =~= chars@.take(i as int));
        v = v * 10 + (c as u32 - 48);
    }
    assert(chars@.take(n as int) =~= chars@);
    if v <= 255 {
        Some(v)
    } else {
        None
    }
}

/// Reads a v4 address in dotted notation.
pub fn parse_v4(s: &str) -> (r: Option<u32>)
    ensures
        r is Some == v4_value(s@) is Some,
        r matches Some(v) ==> v == v4_value(s@)->Some_0,
{
    let parts = split_text(s, '.', 5);
    assert(parts.deep_view().len() == parts@.len());
    if parts.len() != 4 {
        return None;
    }
    let ghost view = parts.deep_view();
    assert(view[0] == parts@[0]@ && view[1] == parts@[1]@ && view[2] == parts@[2]@ && view[3]
        == parts@[3]@);
    let a = parse_octet(parts[0].as_str());
    let b = parse_octet(parts[1].as_str());
    let c = parse_octet(parts[2].as_str());
    let d = parse_octet(parts[3].as_str());
    match (a, b, c, d) {
        (Some(a), Some(b), Some(c), Some(d)) => Some(((a * 256 + b) * 256 + c) * 256 + d),
        _ => None,
    }
}

/// Every character is a hexadecimal digit.
pub open spec fn all_hex(p: Seq<char>) -> bool {
    forall|i: int| 0 <= i < p.len() ==> #[trigger] util::hex_value(p[i]) is Some
}

/// The number that a run of hexadecimal digits denotes.
pub open spec fn hex_number(p: Seq<char>) -> nat
    decreases p.len(),
{
    if p.len() == 0 {
        0
    } else {
        (hex_number(p.drop_last()) * 16 + util::hex_value(p.last())->Some_0) as nat
    }
}

/// The number that one group of a v6 address denotes: one to four hexadecimal
/// digits.
pub open spec fn group_value(p: Seq<char>) -> Option<nat> {
    if 1 <= p.len() <= 4 && all_hex(p) {
        Some(hex_number(p))
    } else {
        None
    }
}

/// The groups that some parts of a v6 address denote. Where `tail` holds, the
/// last part may be a v4 address in dotted notation, which makes two groups.
pub open spec fn groups(parts: Seq<Seq<char>>, tail: bool) -> Option<Seq<nat>>
    decreases parts.len(),
{
    if parts.len() == 0 {
        Some(Seq::empty())
    } else {
        let rest = groups(parts.skip(1), tail);
        match (group_value(parts[0]), rest) {
            (Some(g), Some(gs)) => Some(seq![g] + gs),
            (None, _) => if tail && parts.len() == 1 {
                match v4_value(parts[0]) {
                    Some(v) => Some(seq![v / 65536, v % 65536]),
                    None => None,
                }
            } else {
                None
            },
            _ => None,
        }
    }
}

/// The groups of a run of parts between colons; an empty text has none.
pub open spec fn section(s: Seq<char>, tail: bool) -> Option<Seq<nat>> {
    if s.len() == 0 {
        Some(Seq::empty())
    } else {
        groups(text::pieces(s, ':', 9), tail)
    }
}

/// Two colons stand in `s` at position `k`.
pub open spec fn colons_at(s: Seq<char>, k: int) -> bool {
    0 <= k && k + 1 < s.len() && s[k] == ':' && s[k + 1] == ':'
}

/// The first place where two colons stand, or the length of `s` without one.
pub open spec fn first_colons(s: Seq<char>) -> int
    decreases s.len(),
{
    if s.len() == 0 {
        0
    } else if colons_at(s, 0) {
        0
    } else {
        1 + first_colons(s.skip(1))
    }
}

/// The number that a list of 16-bit groups denotes.
pub open spec fn groups_number(gs: Seq<nat>) -> nat
    decreases gs.len(),
{
    if gs.len() == 0 {
        0
    } else {
        groups_number(gs.drop_last()) * 65536 + gs.last()
    }
}

/// So many zero groups.
pub open spec fn zero_groups(n: nat) -> Seq<nat> {
    Seq::new(n, |i: int| 0nat)
}

/// The number that a v6 address denotes: eight groups, or fewer than eight
/// around one `::`, which stands for at least one zero group.
pub open spec fn v6_value(s: Seq<char>) -> Option<nat> {
    let k = first_colons(s);
    if k < s.len() {
        match (section(s.take(k), false), section(s.skip(k + 2), true)) {
            (Some(head), Some(tail)) => if head.len() + tail.len() <= 7 {
                Some(groups_number(head + zero_groups((8 - head.len() - tail.len()) as nat) + tail))
            } else {
                None
            },
            _ => None,
        }
    } else {
        match section(s, true) {
            Some(all) => if all.len() == 8 {
                Some(groups_number(all))
            } else {
                None
            },
            None => None,
        }
    }
}

/// The address that a text denotes.
pub open spec fn ip_value(s: Seq<char>) -> Option<IpAddr> {
    match v4_value(s) {
        Some(v) => Some(IpAddr::V4(v as u32)),
        None => match v6_value(s) {
            Some(v) => Some(IpAddr::V6(v as u128)),
            None => None,
        },
    }
}

fn parse_group(p: &str) -> (r: Option<u32>)
    ensures
        r is Some == group_value(p@) is Some,
        r matches Some(v) ==> v == group_value(p@)->Some_0 && v < 65536,
{
    let chars = chars_of(p);
    let n: usize = chars.len();
    if n == 0 || n > 4 {
        return None;
    }
    let mut v: u32 = 0;
    assert(chars@.take(0) =~= Seq::<char>::empty());
    for i in 0..n
        invariant
            chars@ == p@,
            n == chars@.len(),
            1 <= n <= 4,
            forall|k: int| 0 <= k < i ==> #[trigger] util::hex_value(chars@[k]) is Some,
            v == hex_number(chars@.take(i as int)),
            i == 0 ==> v == 0,
            i == 1 ==> v < 16,
            i == 2 ==> v < 256,
            i == 3 ==> v < 4096,
            i == 4 ==> v < 65536,
    {
        assert(chars@.take(i + 1).drop_last() =~= chars@.take(i as int));
        match util::value_of(chars[i]) {
            Some(d) => {
                v = v * 16 + d as u32;
            },
            None => {
                assert(util::hex_value(p@[i as int]) is None);
                return None;
            },
        }
    }
    assert(chars@.take(n as int) =~= chars@);
    Some(v)
}

/// The numbers of a list of groups.
pub open spec fn as_nats(v: Seq<u32>) -> Seq<nat> {
    v.map_values(|x: u32| x as nat)
}

/// The parts from some place on are groups where a run that begins there is.
pub(crate) proof fn lemma_groups_prefix(parts: Seq<Seq<char>>, tail: bool, done: Seq<nat>, i: int)
    requires
        0 <= i <= parts.len(),
        done.len() == i,
        forall|k: int| 0 <= k < i ==> #[trigger] group_value(parts[k]) == Some(done[k]),
    ensures
        groups(parts, tail) == (match groups(parts.skip(i), tail) {
            Some(gs) => Some(done + gs),
            None => None::<Seq<nat>>,
        }),
    decreases i,
{
    if i == 0 {
        assert(parts.skip(0) =~= parts);
        if let Some(gs) = groups(parts, tail) {
            assert(done + gs =~= gs);
        }
    } else {
        assert(group_value(parts[0]) == Some(done[0]));
        assert forall|k: int| 0 <= k < i - 1 implies #[trigger] group_value(parts.skip(1)[k])
            == Some(done.skip(1)[k]) by {
            assert(parts.skip(1)[k] == parts[k + 1]);
            assert(group_value(parts[k + 1]) == Some(done[k + 1]));
        }
        lemma_groups_prefix(parts.skip(1), tail, done.skip(1), i - 1);
        assert(parts.skip(1).skip(i - 1) =~= parts.skip(i));
        if let Some(gs) = groups(parts.skip(i), tail) {
            assert(seq![done[0]] + (done.skip(1) + gs) =~= done + gs);
        }
    }
}

fn parse_section(s: &str, tail: bool) -> (r: Option<Vec<u32>>)
    ensures
        r is Some == section(s@, tail) is Some,
        r matches Some(v) ==> as_nats(v@) == section(s@, tail)->Some_0 && forall|k: int|
            0 <= k < v@.len() ==> #[trigger] v@[k] < 65536,
{
    let mut out: Vec<u32> = Vec::new();
    if s.is_empty() {
        assert(as_nats(out@) =~= Seq::<nat>::empty());
        return Some(out);
    }
    let parts = split_text(s, ':', 9);
    let ghost view = parts.deep_view();
    let n: usize = parts.len();
    assert(view.len() == n);
    for i in 0..n
        invariant
            n == parts@.len(),
            view == parts.deep_view(),
            view.len() == n,
            s@.len() > 0,
            view == text::pieces(s@, ':', 9),
            out@.len() == i,
            forall|k: int| 0 <= k < i ==> #[trigger] group_value(view[k]) == Some(as_nats(out@)[k]),
            forall|k: int| 0 <= k < i ==> #[trigger] out@[k] < 65536,
    {
        assert(view[i as int] == parts@[i as int]@);
        let ghost done = as_nats(out@);
        match parse_group(parts[i].as_str()) {
            Some(g) => {
                out.push(g);
                assert forall|k: int| 0 <= k < i + 1 implies #[trigger] group_value(view[k])
                    == Some(as_nats(out@)[k]) by {
                    if k < i {
                        assert(as_nats(out@)[k] == done[k]);
                    }
                }
            },
            None => {
                proof {
                    lemma_groups_prefix(view, tail, done, i as int);
                    assert(view.skip(i as int)[0] == view[i as int]);
                }
                if !tail || i + 1 < n {
                    return None;
                }
                match parse_v4(parts[i].as_str()) {
                    Some(v) => {
                        out.push(v / 65536);
                        out.push(v % 65536);
                        proof {
                            assert(groups(view.skip(i as int), tail) == Some(
                                seq![(v / 65536) as nat, (v % 65536) as nat],
                            ));
                            assert(as_nats(out@) =~= done + seq![
                                (v / 65536) as nat,
                                (v % 65536) as nat,
                            ]);
                        }
                        return Some(out);
                    },
                    None => {
                        return None;
                    },
                }
            },
        }
    }
    proof {
        lemma_groups_prefix(view, tail, as_nats(out@), n as int);
        assert(groups(view.skip(n as int), tail) == Some(Seq::<nat>::empty()));
        assert(as_nats(out@) + Seq::<nat>::empty() =~= as_nats(out@));
    }
    Some(out)
}

pub(crate) proof fn lemma_first_colons(s: Seq<char>, k: int)
    requires
        0 <= k <= s.len(),
        forall|j: int| 0 <= j < k ==> !colons_at(s, j),
        k < s.len() ==> colons_at(s, k),
    ensures
        first_colons(s) == k,
    decreases s.len(),
{
    if k > 0 {
        assert(!colons_at(s, 0));
        assert forall|j: int| 0 <= j < k - 1 implies !colons_at(s.skip(1), j) by {
            assert(!colons_at(s, j + 1));
        }
        lemma_first_colons(s.skip(1), k - 1);
    }
}

fn find_colons(s: &Vec<char>) -> (r: usize)
    ensures
        r == first_colons(s@),
        r <= s@.len(),
        r < s@.len() ==> colons_at(s@, r as int),
{
    let n: usize = s.len();
    let mut i: usize = 0;
    while i < n
        invariant
            n == s@.len(),
            i <= n,
            forall|j: int| 0 <= j < i ==> !colons_at(s@, j),
        decreases n - i,
    {
        if s[i] == ':' && i + 1 < n && s[i + 1] == ':' {
            proof {
                lemma_first_colons(s@, i as int);
            }
            return i;
        }
        i += 1;
    }
    proof {
        lemma_first_colons(s@, n as int);
    }
    n
}

fn number_of(gs: &Vec<u32>) -> (r: u128)
    requires
        gs@.len() == 8,
        forall|k: int| 0 <= k < gs@.len() ==> #[trigger] gs@[k] < 65536,
    ensures
        r == groups_number(as_nats(gs@)),
{
    let ghost all = as_nats(gs@);
    let a: u128 = gs[0] as u128 * 65536 + gs[1] as u128;
    let b: u128 = gs[2] as u128 * 65536 + gs[3] as u128;
    let c: u128 = gs[4] as u128 * 65536 + gs[5] as u128;
    let d: u128 = gs[6] as u128 * 65536 + gs[7] as u128;
    proof {
        reveal_with_fuel(groups_number, 9);
        assert(all.drop_last().len() == 7);
    }
    ((a * 0x1_0000_0000 + b) * 0x1_0000_0000 + c) * 0x1_0000_0000 + d
}

/// Reads a v6 address.
pub fn parse_v6(s: &str) -> (r: Option<u128>)
    ensures
        r is Some == v6_value(s@) is Some,
        r matches Some(v) ==> v == v6_value(s@)->Some_0,
{
    let chars = chars_of(s);
    let n: usize = chars.len();
    let k: usize = find_colons(&chars);
    if k < n {
        let front = text_of(vstd::slice::slice_subrange(chars.as_slice(), 0, k));
        let back = text_of(vstd::slice::slice_subrange(chars.as_slice(), k + 2, n));
        assert(front@ =~= s@.take(k as int));
        assert(back@ =~= s@.skip(k + 2));
        let mut all = match parse_section(front.as_str(), false) {
            Some(h) => h,
            None => {
                return None;
            },
        };
        let tail = match parse_section(back.as_str(), true) {
            Some(t) => t,
            None => {
                return None;
            },
        };
        let ghost head = as_nats(all@);
        assert(head.len() == all@.len() && as_nats(tail@).len() == tail@.len());
        if all.len() > 7 || tail.len() > 7 - all.len() {
            return None;
        }
        let gap: usize = 8 - all.len() - tail.len();
        for i in 0..gap
            invariant
                as_nats(all@) == head + zero_groups(i as nat),
                forall|j: int| 0 <= j < all@.len() ==> #[trigger] all@[j] < 65536,
        {
            let ghost before = all@;
            all.push(0);
            assert(as_nats(all@) =~= as_nats(before).push(0));
            assert(as_nats(all@) =~= head + zero_groups((i + 1) as nat));
        }
        let m: usize = tail.len();
        let ghost padded = as_nats(all@);
        assert(padded.len() == all@.len());
        for i in 0..m
            invariant
                m == tail@.len(),
                as_nats(all@) == padded + as_nats(tail@).take(i as int),
                forall|j: int| 0 <= j < all@.len() ==> #[trigger] all@[j] < 65536,
                forall|j: int| 0 <= j < tail@.len() ==> #[trigger] tail@[j] < 65536,
        {
            let ghost before = all@;
            all.push(tail[i]);
            assert(as_nats(all@) =~= as_nats(before).push(tail@[i as int] as nat));
            assert(as_nats(all@) =~= padded + as_nats(tail@).take(i + 1));
        }
        assert(as_nats(tail@).take(m as int) =~= as_nats(tail@));
        assert(as_nats(all@).len() == all@.len());
        Some(number_of(&all))
    } else {
        match parse_section(s, true) {
            Some(all) => {
                assert(as_nats(all@).len() == all@.len());
                if all.len() == 8 {
                    Some(number_of(&all))
                } else {
                    None
                }
            },
            None => None,
        }
    }
}

/// Reads an address of either family.
pub fn parse_ip(s: &str) -> (r: Option<IpAddr>)
    ensures
        r == ip_value(s@),
{
    match parse_v4(s) {
        Some(v) => Some(IpAddr::V4(v)),
        None => match parse_v6(s) {
            Some(v) => Some(IpAddr::V6(v)),
            None => None,
        },
    }
}

// ---------------------------------------------------------------- writing

/// A v4 address in dotted notation.
pub open spec fn v4_text(v: nat) -> Seq<char> {
    text::decimal(v / 0x100_0000) + seq!['.'] + text::decimal(v / 0x1_0000 % 256) + seq!['.']
        + text::decimal(v / 0x100 % 256) + seq!['.'] + text::decimal(v % 256)
}

/// A number in hexadecimal, without leading zeros.
pub open spec fn short_hex(v: nat) -> Seq<char>
    decreases v,
{
    if v < 16 {
        seq![util::hex_digit(v as int)]
    } else {
        short_hex(v / 16).push(util::hex_digit((v % 16) as int))
    }
}

/// The last `n` of the 16-bit groups of a number.
pub open spec fn low_groups(v: nat, n: nat) -> Seq<nat>
    decreases n,
{
    if n == 0 {
        Seq::empty()
    } else {
        low_groups(v / 65536, (n - 1) as nat).push(v % 65536)
    }
}

/// Groups in hexadecimal, with colons between them.
pub open spec fn colon_text(gs: Seq<nat>) -> Seq<char>
    decreases gs.len(),
{
    if gs.len() == 0 {
        Seq::empty()
    } else if gs.len() == 1 {
        short_hex(gs[0])
    } else {
        colon_text(gs.drop_last()) + seq![':'] + short_hex(gs.last())
    }
}

/// How many zero groups stand in a row from a position on.
pub open spec fn zero_run(gs: Seq<nat>, i: int) -> nat
    decreases gs.len() - i,
{
    if 0 <= i < gs.len() && gs[i] == 0 {
        1 + zero_run(gs, i + 1)
    } else {
        0
    }
}

/// Where the longest row of zero groups begins, among those that begin at the
/// first `n` positions: the first of the longest.
pub open spec fn longest_zeros(gs: Seq<nat>, n: nat) -> int
    decreases n,
{
    if n <= 1 {
        0
    } else {
        let before = longest_zeros(gs, (n - 1) as nat);
        if zero_run(gs, n - 1) > zero_run(gs, before) {
            n - 1
        } else {
            before
        }
    }
}

/// A v6 address: eight groups, the first of the longest rows of two or more
/// zero groups written as `::`. An address that stands for a v4 address ends
/// in dotted notation.
pub open spec fn v6_text(v: nat) -> Seq<char> {
    if ip::is_mapped(v) {
        "::ffff:"@ + v4_text(v % 0x1_0000_0000)
    } else {
        let gs = low_groups(v, 8);
        let start = longest_zeros(gs, 8);
        let len = zero_run(gs, start);
        if len > 1 {
            colon_text(gs.take(start)) + "::"@ + colon_text(gs.skip(start + len))
        } else {
            colon_text(gs)
        }
    }
}

/// The text of an address.
pub open spec fn ip_text(ip: IpAddr) -> Seq<char> {
    match ip {
        IpAddr::V4(v) => v4_text(v as nat),
        IpAddr::V6(v) => v6_text(v as nat),
    }
}

fn v4_string(v: u32) -> (r: String)
    ensures
        r@ == v4_text(v as nat),
{
    let mut out = decimal_text((v / 0x100_0000) as u64);
    out.push('.');
    let b = decimal_text((v / 0x1_0000 % 256) as u64);
    out.append(b.as_str());
    out.push('.');
    let c = decimal_text((v / 0x100 % 256) as u64);
    out.append(c.as_str());
    out.push('.');
    let d = decimal_text((v % 256) as u64);
    out.append(d.as_str());
    assert(out@ =~= v4_text(v as nat));
    out
}

fn short_hex_string(v: u32) -> (r: String)
    ensures
        r@ == short_hex(v as nat),
    decreases v,
{
    if v < 16 {
        let mut out = String::new();
        out.push(util::digit_of(v as u8));
        assert(out@ =~= short_hex(v as nat));
        out
    } else {
        let mut out = short_hex_string(v / 16);
        out.push(util::digit_of((v % 16) as u8));
        out
    }
}

fn group_list(v: u128, n: usize) -> (r: Vec<u32>)
    ensures
        as_nats(r@) == low_groups(v as nat, n as nat),
        forall|k: int| 0 <= k < r@.len() ==> #[trigger] r@[k] < 65536,
    decreases n,
{
    if n == 0 {
        let r: Vec<u32> = Vec::new();
        assert(as_nats(r@) =~= low_groups(v as nat, 0));
        return r;
    }
    let mut r = group_list(v / 65536, n - 1);
    let ghost before = r@;
    r.push((v % 65536) as u32);
    assert(as_nats(r@) =~= as_nats(before).push(v as nat % 65536));
    r
}

fn colon_string(gs: &Vec<u32>, from: usize, to: usize) -> (r: String)
    requires
        from <= to <= gs@.len(),
    ensures
        r@ == colon_text(as_nats(gs@).subrange(from as int, to as int)),
{
    let ghost all = as_nats(gs@);
    let mut out = String::new();
    assert(out@ =~= colon_text(all.subrange(from as int, from as int)));
    for i in from..to
        invariant
            from <= to <= gs@.len(),
            all == as_nats(gs@),
            out@ == colon_text(all.subrange(from as int, i as int)),
    {
        let ghost part = all.subrange(from as int, i as int);
        let ghost next = all.subrange(from as int, i + 1);
        let ghost before = out@;
        assert(next.drop_last() =~= part);
        assert(next.last() == all[i as int]);
        if i > from {
            out.push(':');
        }
        let g = short_hex_string(gs[i]);
        out.append(g.as_str());
        proof {
            if i > from {
                assert(out@ =~= before + seq![':'] + short_hex(all[i as int]));
            } else {
                assert(out@ =~= short_hex(all[i as int]));
            }
        }
    }
    out
}

fn zero_run_of(gs: &Vec<u32>, i: usize) -> (r: usize)
    requires
        i <= gs@.len(),
    ensures
        r == zero_run(as_nats(gs@), i as int),
        i + r <= gs@.len(),
    decreases gs@.len() - i,
{
    if i < gs.len() && gs[i] == 0 {
        let rest: usize = zero_run_of(gs, i + 1);
        1 + rest
    } else {
        0
    }
}

/// Writes a v6 address.
fn v6_string(v: u128) -> (r: String)
    ensures
        r@ == v6_text(v as nat),
{
    if v / 0x1_0000_0000 == 0xffff {
        let mut out = "::ffff:".to_owned();
        let tail = v4_string((v % 0x1_0000_0000) as u32);
        out.append(tail.as_str());
        return out;
    }
    let gs = group_list(v, 8);
    let ghost all = as_nats(gs@);
    proof {
        lemma_low_groups_len(v as nat, 8);
    }
    let n: usize = gs.len();
    let mut start: usize = 0;
    let mut len: usize = zero_run_of(&gs, 0);
    for i in 1..n
        invariant
            n == gs@.len(),
            n == 8,
            all == as_nats(gs@),
            start < n,
            start == longest_zeros(all, i as nat),
            len == zero_run(all, start as int),
            start + len <= n,
    {
        let here: usize = zero_run_of(&gs, i);
        if here > len {
            start = i;
            len = here;
        }
    }
    if len > 1 {
        let mut out = colon_string(&gs, 0, start);
        out.append("::");
        let tail = colon_string(&gs, start + len, n);
        out.append(tail.as_str());
        assert(all.subrange(0, start as int) =~= all.take(start as int));
        assert(all.subrange((start + len) as int, n as int) =~= all.skip((start + len) as int));
        out
    } else {
        assert(all.subrange(0, n as int) =~= all);
        colon_string(&gs, 0, n)
    }
}

pub(crate) proof fn lemma_low_groups_len(v: nat, n: nat)
    ensures
        low_groups(v, n).len() == n,
    decreases n,
{
    if n > 0 {
        lemma_low_groups_len(v / 65536, (n - 1) as nat);
    }
}

/// Writes an address.
pub fn ip_string(ip: IpAddr) -> (r: String)
    ensures
        r@ == ip_text(ip),
{
    match ip {
        IpAddr::V4(v) => v4_string(v),
        IpAddr::V6(v) => v6_string(v),
    }
}

} // verus!
