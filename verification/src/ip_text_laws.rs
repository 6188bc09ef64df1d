//! Proof that an address can be read back from its text.

use vstd::prelude::*;

use crate::ip;
use crate::ip::IpAddr;
use crate::ip_text;
use crate::text;
use crate::util;

verus! {

/// Texts with a separator between them.
pub open spec fn join(parts: Seq<Seq<char>>, sep: char) -> Seq<char>
    decreases parts.len(),
{
    if parts.len() == 0 {
        Seq::empty()
    } else if parts.len() == 1 {
        parts[0]
    } else {
        parts[0] + seq![sep] + join(parts.skip(1), sep)
    }
}

/// None of the texts holds the character.
spec fn free_of(parts: Seq<Seq<char>>, c: char) -> bool {
    forall|i: int, j: int|
        0 <= i < parts.len() && 0 <= j < parts[i].len() ==> #[trigger] parts[i][j] != c
}

proof fn lemma_join_push(parts: Seq<Seq<char>>, sep: char, last: Seq<char>)
    requires
        parts.len() > 0,
    ensures
        join(parts.push(last), sep) == join(parts, sep) + seq![sep] + last,
    decreases parts.len(),
{
    let all = parts.push(last);
    if parts.len() == 1 {
        assert(all.skip(1) =~= seq![last]);
        assert(join(all.skip(1), sep) == last);
    } else {
        assert(all.skip(1) =~= parts.skip(1).push(last));
        lemma_join_push(parts.skip(1), sep, last);
        assert(join(all, sep) =~= join(parts, sep) + seq![sep] + last);
    }
}

proof fn lemma_pieces_of_join(parts: Seq<Seq<char>>, sep: char, n: nat)
    requires
        0 < parts.len() <= n,
        free_of(parts, sep),
    ensures
        text::pieces(join(parts, sep), sep, n) == parts,
    decreases parts.len(),
{
    let s = join(parts, sep);
    let head = parts[0];
    assert forall|j: int| 0 <= j < head.len() implies s[j] != sep by {
        assert(parts[0][j] != sep);
    }
    text::lemma_first_at(s, sep, head.len() as int);
    if parts.len() == 1 {
        assert(text::pieces(s, sep, n) =~= parts);
    } else {
        let rest = parts.skip(1);
        assert forall|i: int, j: int|
            0 <= i < rest.len() && 0 <= j < rest[i].len() implies #[trigger] rest[i][j] != sep by {
            assert(parts[i + 1][j] != sep);
        }
        lemma_pieces_of_join(rest, sep, (n - 1) as nat);
        assert(s.take(head.len() as int) =~= head);
        assert(s.skip(head.len() as int + 1) =~= join(rest, sep));
        assert(text::pieces(s, sep, n) =~= parts);
    }
}

proof fn lemma_piece_contains(s: Seq<char>, sep: char, n: nat, at: int)
    requires
        0 <= at < s.len(),
        s[at] != sep,
    ensures
        exists|i: int, j: int|
            0 <= i < text::pieces(s, sep, n).len() && 0 <= j < text::pieces(s, sep, n)[i].len()
                && #[trigger] text::pieces(s, sep, n)[i][j] == s[at],
    decreases n,
{
    let k = text::first_at(s, sep);
    let all = text::pieces(s, sep, n);
    if n <= 1 || k >= s.len() {
        assert(all[0][at] == s[at]);
    } else {
        lemma_first_at_holds(s, sep);
        if at < k {
            assert(all[0][at] == s[at]);
        } else {
            let rest = s.skip(k + 1);
            assert(at > k);
            lemma_piece_contains(rest, sep, (n - 1) as nat, at - k - 1);
            let tail = text::pieces(rest, sep, (n - 1) as nat);
            let (i, j) = choose|i: int, j: int|
                0 <= i < tail.len() && 0 <= j < tail[i].len() && #[trigger] tail[i][j] == rest[at - k
                    - 1];
            assert(all[i + 1] == tail[i]);
            assert(all[i + 1][j] == s[at]);
        }
    }
}

pub(crate) proof fn lemma_first_at_holds(s: Seq<char>, sep: char)
    ensures
        0 <= text::first_at(s, sep) <= s.len(),
        text::first_at(s, sep) < s.len() ==> s[text::first_at(s, sep)] == sep,
    decreases s.len(),
{
    if s.len() > 0 && s[0] != sep {
        lemma_first_at_holds(s.skip(1), sep);
    }
}

// ---------------------------------------------------------------- numbers

proof fn lemma_decimal(n: nat)
    ensures
        text::decimal(n).len() >= 1,
        text::all_digits(text::decimal(n)),
        text::digits_value(text::decimal(n)) == n,
        n > 0 ==> text::decimal(n)[0] != '0',
        n < 10 ==> text::decimal(n).len() == 1,
        n < 100 ==> text::decimal(n).len() <= 2,
        n < 1000 ==> text::decimal(n).len() <= 3,
    decreases n,
{
    let s = text::decimal(n);
    if n < 10 {
        assert(s.drop_last() =~= Seq::<char>::empty());
        assert(text::digits_value(s.drop_last()) == 0);
    } else {
        lemma_decimal(n / 10);
        assert(s.drop_last() =~= text::decimal(n / 10));
        assert(s[0] == text::decimal(n / 10)[0]);
        assert forall|i: int| 0 <= i < s.len() implies text::is_digit(#[trigger] s[i]) by {
            if i < s.len() - 1 {
                assert(s[i] == text::decimal(n / 10)[i]);
            }
        }
    }
}

proof fn lemma_octet(n: nat)
    requires
        n <= 255,
    ensures
        ip_text::octet_value(text::decimal(n)) == Some(n),
        forall|j: int|
            0 <= j < text::decimal(n).len() ==> #[trigger] text::decimal(n)[j] != '.'
                && text::decimal(n)[j] != ':',
{
    lemma_decimal(n);
    assert forall|j: int| 0 <= j < text::decimal(n).len() implies #[trigger] text::decimal(n)[j]
        != '.' && text::decimal(n)[j] != ':' by {
        assert(text::is_digit(text::decimal(n)[j]));
    }
}

proof fn lemma_short_hex(v: nat)
    requires
        v < 65536,
    ensures
        ip_text::group_value(ip_text::short_hex(v)) == Some(v),
        ip_text::short_hex(v).len() >= 1,
        v < 16 ==> ip_text::short_hex(v).len() == 1,
        v < 256 ==> ip_text::short_hex(v).len() <= 2,
        v < 4096 ==> ip_text::short_hex(v).len() <= 3,
        ip_text::short_hex(v).len() <= 4,
        forall|j: int|
            0 <= j < ip_text::short_hex(v).len() ==> #[trigger] ip_text::short_hex(v)[j] != ':',
    decreases v,
{
    let s = ip_text::short_hex(v);
    if v < 16 {
        assert(s.drop_last() =~= Seq::<char>::empty());
        assert(ip_text::hex_number(s.drop_last()) == 0);
    } else {
        lemma_short_hex(v / 16);
        let t = ip_text::short_hex(v / 16);
        assert(s.drop_last() =~= t);
        assert forall|i: int| 0 <= i < s.len() implies #[trigger] util::hex_value(s[i]) is Some by {
            if i < s.len() - 1 {
                assert(util::hex_value(t[i]) is Some);
                assert(s[i] == t[i]);
            }
        }
    }
    assert(util::hex_value(s.last()) == Some((v % 16) as int));
    assert forall|j: int| 0 <= j < s.len() implies #[trigger] s[j] != ':' by {
        assert(util::hex_value(s[j]) is Some);
    }
}

// ---------------------------------------------------------------- v4

pub(crate) proof fn lemma_v4_parts(v: nat)
    requires
        v < 0x1_0000_0000,
    ensures
        ip_text::v4_value(ip_text::v4_text(v)) == Some(v),
        forall|j: int|
            0 <= j < ip_text::v4_text(v).len() ==> #[trigger] ip_text::v4_text(v)[j] != ':',
        exists|j: int| 0 <= j < ip_text::v4_text(v).len() && #[trigger] ip_text::v4_text(v)[j] == '.',
{
    let a = v / 0x100_0000;
    let b = v / 0x1_0000 % 256;
    let c = v / 0x100 % 256;
    let d = v % 256;
    lemma_octet(a);
    lemma_octet(b);
    lemma_octet(c);
    lemma_octet(d);
    let parts = seq![text::decimal(a), text::decimal(b), text::decimal(c), text::decimal(d)];
    let s = ip_text::v4_text(v);
    reveal_with_fuel(join, 5);
    assert(parts.skip(1) =~= seq![text::decimal(b), text::decimal(c), text::decimal(d)]);
    assert(parts.skip(1).skip(1) =~= seq![text::decimal(c), text::decimal(d)]);
    assert(parts.skip(1).skip(1).skip(1) =~= seq![text::decimal(d)]);
    assert(join(parts, '.') =~= s);
    assert forall|i: int, j: int| 0 <= i < parts.len() && 0 <= j < parts[i].len() implies
        #[trigger] parts[i][j] != '.' by {
        if i == 0 {
            assert(text::decimal(a)[j] != '.');
        } else if i == 1 {
            assert(text::decimal(b)[j] != '.');
        } else if i == 2 {
            assert(text::decimal(c)[j] != '.');
        } else {
            assert(text::decimal(d)[j] != '.');
        }
    }
    lemma_pieces_of_join(parts, '.', 5);
    assert(((a * 256 + b) * 256 + c) * 256 + d == v);
    assert(s[text::decimal(a).len() as int] == '.');
    assert forall|j: int| 0 <= j < s.len() implies #[trigger] s[j] != ':' by {
        let la = text::decimal(a).len();
        let lb = text::decimal(b).len();
        let lc = text::decimal(c).len();
        if j < la {
            assert(s[j] == text::decimal(a)[j]);
        } else if j == la {
        } else if j < la + 1 + lb {
            assert(s[j] == text::decimal(b)[j - la - 1]);
        } else if j == la + 1 + lb {
        } else if j < la + 2 + lb + lc {
            assert(s[j] == text::decimal(c)[j - la - lb - 2]);
        } else if j == la + 2 + lb + lc {
        } else {
            assert(s[j] == text::decimal(d)[j - la - lb - lc - 3]);
        }
    }
}

proof fn lemma_colon_is_no_v4(s: Seq<char>, at: int)
    requires
        0 <= at < s.len(),
        s[at] == ':',
    ensures
        ip_text::v4_value(s) is None,
{
    lemma_piece_contains(s, '.', 5, at);
    let parts = text::pieces(s, '.', 5);
    let (i, j) = choose|i: int, j: int|
        0 <= i < parts.len() && 0 <= j < parts[i].len() && #[trigger] parts[i][j] == ':';
    assert(!text::is_digit(parts[i][j]));
    assert(ip_text::octet_value(parts[i]) is None);
}

// ---------------------------------------------------------------- v6

/// Every group fits into 16 bits.
spec fn small(gs: Seq<nat>) -> bool {
    forall|i: int| 0 <= i < gs.len() ==> #[trigger] gs[i] < 65536
}

spec fn hex_parts(gs: Seq<nat>) -> Seq<Seq<char>> {
    gs.map_values(|g: nat| ip_text::short_hex(g))
}

proof fn lemma_colon_text_is_join(gs: Seq<nat>)
    requires
        gs.len() > 0,
    ensures
        ip_text::colon_text(gs) == join(hex_parts(gs), ':'),
    decreases gs.len(),
{
    if gs.len() > 1 {
        let front = gs.drop_last();
        lemma_colon_text_is_join(front);
        lemma_join_push(hex_parts(front), ':', ip_text::short_hex(gs.last()));
        assert(hex_parts(front).push(ip_text::short_hex(gs.last())) =~= hex_parts(gs));
    }
}

/// The text of groups begins and ends with a digit and holds no two colons in
/// a row.
proof fn lemma_single_colons(gs: Seq<nat>)
    requires
        small(gs),
    ensures
        gs.len() > 0 ==> ip_text::colon_text(gs).len() > 0,
        ip_text::colon_text(gs).len() > 0 ==> ip_text::colon_text(gs)[0] != ':'
            && ip_text::colon_text(gs).last() != ':',
        forall|j: int| !ip_text::colons_at(ip_text::colon_text(gs), j),
    decreases gs.len(),
{
    let s = ip_text::colon_text(gs);
    if gs.len() == 0 {
    } else if gs.len() == 1 {
        lemma_short_hex(gs[0]);
        assert forall|j: int| !ip_text::colons_at(s, j) by {
            if 0 <= j && j + 1 < s.len() {
                assert(s[j] != ':');
            }
        }
        assert(s[0] != ':');
        assert(s[s.len() - 1] != ':');
    } else {
        let front = gs.drop_last();
        let a = ip_text::colon_text(front);
        let b = ip_text::short_hex(gs.last());
        assert forall|i: int| 0 <= i < front.len() implies #[trigger] front[i] < 65536 by {
            assert(gs[i] < 65536);
        }
        assert(gs[gs.len() - 1] < 65536);
        lemma_single_colons(front);
        lemma_short_hex(gs.last());
        assert(s[0] == a[0]);
        assert(s.last() == b[b.len() - 1]);
        assert forall|j: int| !ip_text::colons_at(s, j) by {
            if 0 <= j && j + 1 < s.len() {
                if j + 1 < a.len() {
                    assert(!ip_text::colons_at(a, j));
                    assert(s[j] == a[j] && s[j + 1] == a[j + 1]);
                } else if j + 1 == a.len() {
                    assert(s[j] == a.last());
                } else if j == a.len() {
                    assert(s[j + 1] == b[0]);
                } else {
                    assert(s[j] == b[j - a.len() - 1]);
                }
            }
        }
    }
}

proof fn lemma_section(gs: Seq<nat>, tail: bool)
    requires
        small(gs),
        gs.len() <= 9,
    ensures
        ip_text::section(ip_text::colon_text(gs), tail) == Some(gs),
{
    let s = ip_text::colon_text(gs);
    lemma_single_colons(gs);
    if gs.len() == 0 {
        assert(ip_text::section(s, tail)->Some_0 =~= gs);
    } else {
        lemma_colon_text_is_join(gs);
        let parts = hex_parts(gs);
        assert forall|i: int, j: int| 0 <= i < parts.len() && 0 <= j < parts[i].len() implies
            #[trigger] parts[i][j] != ':' by {
            assert(gs[i] < 65536);
            lemma_short_hex(gs[i]);
        }
        lemma_pieces_of_join(parts, ':', 9);
        assert forall|k: int| 0 <= k < gs.len() implies #[trigger] ip_text::group_value(parts[k])
            == Some(gs[k]) by {
            assert(gs[k] < 65536);
            lemma_short_hex(gs[k]);
        }
        ip_text::lemma_groups_prefix(parts, tail, gs, gs.len() as int);
        assert(ip_text::groups(parts.skip(gs.len() as int), tail) == Some(Seq::<nat>::empty()));
        assert(gs + Seq::<nat>::empty() =~= gs);
    }
}

spec fn group_range(n: nat) -> nat
    decreases n,
{
    if n == 0 {
        1
    } else {
        65536 * group_range((n - 1) as nat)
    }
}

proof fn lemma_low_groups(v: nat, n: nat)
    requires
        v < group_range(n),
    ensures
        ip_text::low_groups(v, n).len() == n,
        small(ip_text::low_groups(v, n)),
        ip_text::groups_number(ip_text::low_groups(v, n)) == v,
    decreases n,
{
    if n > 0 {
        lemma_low_groups(v / 65536, (n - 1) as nat);
        let gs = ip_text::low_groups(v, n);
        let front = ip_text::low_groups(v / 65536, (n - 1) as nat);
        assert(gs.drop_last() =~= front);
        assert forall|i: int| 0 <= i < gs.len() implies #[trigger] gs[i] < 65536 by {
            if i < gs.len() - 1 {
                assert(gs[i] == front[i]);
            }
        }
    }
}

proof fn lemma_zero_run(gs: Seq<nat>, i: int)
    requires
        0 <= i <= gs.len(),
    ensures
        i + ip_text::zero_run(gs, i) <= gs.len(),
        forall|j: int| i <= j < i + ip_text::zero_run(gs, i) ==> gs[j] == 0,
    decreases gs.len() - i,
{
    if i < gs.len() && gs[i] == 0 {
        lemma_zero_run(gs, i + 1);
    }
}

proof fn lemma_longest(gs: Seq<nat>, n: nat)
    requires
        gs.len() > 0,
        n <= gs.len(),
    ensures
        0 <= ip_text::longest_zeros(gs, n) < gs.len(),
    decreases n,
{
    if n > 1 {
        lemma_longest(gs, (n - 1) as nat);
    }
}

proof fn lemma_plain_v6(v: nat)
    requires
        v <= u128::MAX,
        !ip::is_mapped(v),
    ensures
        ip_text::v6_value(ip_text::v6_text(v)) == Some(v),
        exists|j: int| 0 <= j < ip_text::v6_text(v).len() && #[trigger] ip_text::v6_text(v)[j] == ':',
{
    reveal_with_fuel(group_range, 9);
    assert(group_range(8) == u128::MAX + 1);
    lemma_low_groups(v, 8);
    let gs = ip_text::low_groups(v, 8);
    let start = ip_text::longest_zeros(gs, 8);
    let len = ip_text::zero_run(gs, start);
    let s = ip_text::v6_text(v);
    lemma_longest(gs, 8);
    lemma_zero_run(gs, start);
    if len > 1 {
        let head = gs.take(start);
        let tail = gs.skip((start + len) as int);
        let a = ip_text::colon_text(head);
        let b = ip_text::colon_text(tail);
        assert forall|i: int| 0 <= i < head.len() implies #[trigger] head[i] < 65536 by {
            assert(gs[i] < 65536);
        }
        assert forall|i: int| 0 <= i < tail.len() implies #[trigger] tail[i] < 65536 by {
            assert(gs[(start + len) as int + i] < 65536);
        }
        lemma_single_colons(head);
        reveal_strlit("::");
        let k = a.len() as int;
        assert(s[k] == ':' && s[k + 1] == ':');
        assert forall|j: int| 0 <= j < k implies !ip_text::colons_at(s, j) by {
            if j + 1 < k {
                assert(!ip_text::colons_at(a, j));
                assert(s[j] == a[j] && s[j + 1] == a[j + 1]);
            } else {
                assert(s[j] == a.last());
            }
        }
        ip_text::lemma_first_colons(s, k);
        assert(s.take(k) =~= a);
        assert(s.skip(k + 2) =~= b);
        lemma_section(head, false);
        lemma_section(tail, true);
        assert(head + ip_text::zero_groups((8 - head.len() - tail.len()) as nat) + tail =~= gs);
    } else {
        lemma_single_colons(gs);
        assert forall|j: int| 0 <= j < s.len() implies !ip_text::colons_at(s, j) by {}
        ip_text::lemma_first_colons(s, s.len() as int);
        lemma_section(gs, true);
        let front = gs.drop_last();
        let a = ip_text::colon_text(front);
        assert(s[a.len() as int] == ':');
    }
}

proof fn lemma_mapped_v6(v: nat)
    requires
        ip::is_mapped(v),
    ensures
        ip_text::v6_value(ip_text::v6_text(v)) == Some(v),
        exists|j: int| 0 <= j < ip_text::v6_text(v).len() && #[trigger] ip_text::v6_text(v)[j] == ':',
{
    reveal_strlit("::ffff:");
    let x = v % 0x1_0000_0000;
    let q = ip_text::v4_text(x);
    let s = ip_text::v6_text(v);
    lemma_v4_parts(x);
    assert(s[0] == ':' && s[1] == ':');
    ip_text::lemma_first_colons(s, 0);
    let head = s.take(0);
    let tail = s.skip(2);
    assert(ip_text::section(head, false) == Some(Seq::<nat>::empty()));
    let ffff = seq!['f', 'f', 'f', 'f'];
    let parts = seq![ffff, q];
    assert(parts.skip(1) =~= seq![q]);
    reveal_with_fuel(join, 3);
    assert(tail =~= join(parts, ':'));
    assert forall|i: int, j: int| 0 <= i < parts.len() && 0 <= j < parts[i].len() implies
        #[trigger] parts[i][j] != ':' by {
        if i == 1 {
            assert(q[j] != ':');
        }
    }
    lemma_pieces_of_join(parts, ':', 9);
    reveal_with_fuel(ip_text::hex_number, 5);
    assert(ffff.drop_last() =~= seq!['f', 'f', 'f']);
    assert(ffff.drop_last().drop_last() =~= seq!['f', 'f']);
    assert(ffff.drop_last().drop_last().drop_last() =~= seq!['f']);
    assert(ffff.drop_last().drop_last().drop_last().drop_last() =~= Seq::<char>::empty());
    assert(ip_text::all_hex(ffff));
    assert(ip_text::group_value(ffff) == Some(0xffffnat));
    let dot = choose|j: int| 0 <= j < q.len() && #[trigger] q[j] == '.';
    assert(util::hex_value(q[dot]) is None);
    assert(ip_text::group_value(q) is None);
    let low = seq![x / 65536, x % 65536];
    assert(ip_text::groups(parts.skip(1), true) == Some(low));
    let all = seq![0xffffnat] + low;
    assert(ip_text::groups(parts, true) == Some(all));
    let full = Seq::<nat>::empty() + ip_text::zero_groups(5) + all;
    assert(full =~= seq![0nat, 0, 0, 0, 0, 0xffff, x / 65536, x % 65536]);
    reveal_with_fuel(ip_text::groups_number, 9);
    assert(full.drop_last() =~= seq![0nat, 0, 0, 0, 0, 0xffff, x / 65536]);
    assert(full.drop_last().drop_last() =~= seq![0nat, 0, 0, 0, 0, 0xffff]);
    assert(full.drop_last().drop_last().drop_last() =~= seq![0nat, 0, 0, 0, 0]);
    assert(ip_text::groups_number(seq![0nat, 0, 0, 0, 0]) == 0) by {
        let z = seq![0nat, 0, 0, 0, 0];
        assert(z.drop_last() =~= seq![0nat, 0, 0, 0]);
        assert(z.drop_last().drop_last() =~= seq![0nat, 0, 0]);
        assert(z.drop_last().drop_last().drop_last() =~= seq![0nat, 0]);
        assert(z.drop_last().drop_last().drop_last().drop_last() =~= seq![0nat]);
        assert(z.drop_last().drop_last().drop_last().drop_last().drop_last() =~= Seq::<
            nat,
        >::empty());
    }
    assert(ip_text::groups_number(full) == v);
}

/// An address is read back from its text as it was.
pub proof fn lemma_address_round_trip(ip: IpAddr)
    ensures
        ip_text::ip_value(ip_text::ip_text(ip)) == Some(ip),
{
    match ip {
        IpAddr::V4(v) => {
            lemma_v4_parts(v as nat);
        },
        IpAddr::V6(v) => {
            if ip::is_mapped(v as nat) {
                lemma_mapped_v6(v as nat);
            } else {
                lemma_plain_v6(v as nat);
            }
            let s = ip_text::v6_text(v as nat);
            let at = choose|j: int| 0 <= j < s.len() && #[trigger] s[j] == ':';
            lemma_colon_is_no_v4(s, at);
        },
    }
}

// ---------------------------------------------------------------- notations

proof fn lemma_octet_text(p: Seq<char>)
    requires
        ip_text::octet_value(p) is Some,
    ensures
        ip_text::octet_value(p)->Some_0 <= 255,
        p == text::decimal(ip_text::octet_value(p)->Some_0),
{
    let v = text::digits_value(p);
    text::lemma_digits_are_decimal(p);
    let k = choose|k: nat| p == #[trigger] text::zeros(k) + text::decimal(v);
    text::lemma_decimal_notation(v);
    if k > 0 {
        assert(p[0] == '0');
        assert(p.len() >= 2);
    }
    assert(text::zeros(0) + text::decimal(v) =~= text::decimal(v));
}

/// A v4 address has exactly one notation that is read as it: its four bytes in
/// decimal without zeros in front, with dots between them.
pub proof fn lemma_v4_notation(s: Seq<char>, v: nat)
    ensures
        ip_text::v4_value(s) == Some(v) <==> v < 0x1_0000_0000 && s == ip_text::v4_text(v),
{
    if v < 0x1_0000_0000 {
        lemma_v4_parts(v);
    }
    if ip_text::v4_value(s) == Some(v) {
        let parts = text::pieces(s, '.', 5);
        crate::text_laws::lemma_split_then_joined(s, '.', 5);
        lemma_octet_text(parts[0]);
        lemma_octet_text(parts[1]);
        lemma_octet_text(parts[2]);
        lemma_octet_text(parts[3]);
        let a = ip_text::octet_value(parts[0])->Some_0;
        let b = ip_text::octet_value(parts[1])->Some_0;
        let c = ip_text::octet_value(parts[2])->Some_0;
        let d = ip_text::octet_value(parts[3])->Some_0;
        lemma_join_of_four(parts, '.');
        assert(v == ((a * 256 + b) * 256 + c) * 256 + d);
        lemma_v4_bytes(a as u8, b as u8, c as u8, d as u8);
    }
}

proof fn lemma_join_of_four(parts: Seq<Seq<char>>, sep: char)
    requires
        parts.len() == 4,
    ensures
        join(parts, sep) == parts[0] + seq![sep] + parts[1] + seq![sep] + parts[2] + seq![sep]
            + parts[3],
{
    let b = parts.skip(1);
    let c = b.skip(1);
    let d = c.skip(1);
    assert(b[0] == parts[1] && c[0] == parts[2] && d[0] == parts[3]);
    assert(join(d, sep) == parts[3]);
    assert(join(c, sep) == parts[2] + seq![sep] + parts[3]);
    assert(join(b, sep) == parts[1] + seq![sep] + join(c, sep));
    assert(join(parts, sep) == parts[0] + seq![sep] + join(b, sep));
    assert(join(parts, sep) =~= parts[0] + seq![sep] + parts[1] + seq![sep] + parts[2] + seq![sep]
        + parts[3]);
}

/// The notation of a v4 address is that of its four bytes.
pub proof fn lemma_v4_bytes(a: u8, b: u8, c: u8, d: u8)
    ensures
        ip_text::v4_text(
            ((a as nat * 256 + b as nat) * 256 + c as nat) * 256 + d as nat,
        ) == text::decimal(a as nat) + seq!['.'] + text::decimal(b as nat) + seq!['.']
            + text::decimal(c as nat) + seq!['.'] + text::decimal(d as nat),
{
    let v = ((a as nat * 256 + b as nat) * 256 + c as nat) * 256 + d as nat;
    assert(v / 0x100_0000 == a && v / 0x1_0000 % 256 == b && v / 0x100 % 256 == c && v % 256 == d);
}

/// The texts are groups of a v6 address with these values.
pub open spec fn group_texts(parts: Seq<Seq<char>>, gs: Seq<nat>) -> bool {
    &&& parts.len() == gs.len()
    &&& forall|i: int|
        0 <= i < parts.len() ==> #[trigger] ip_text::group_value(parts[i]) == Some(gs[i])
}

proof fn lemma_group_text(p: Seq<char>)
    requires
        ip_text::group_value(p) is Some,
    ensures
        p.len() > 0,
        forall|j: int| 0 <= j < p.len() ==> #[trigger] p[j] != ':',
{
    assert forall|j: int| 0 <= j < p.len() implies #[trigger] p[j] != ':' by {
        assert(util::hex_value(p[j]) is Some);
    }
}

proof fn lemma_joined_groups(parts: Seq<Seq<char>>, gs: Seq<nat>)
    requires
        group_texts(parts, gs),
        parts.len() > 0,
    ensures
        join(parts, ':').len() > 0,
        join(parts, ':')[0] != ':',
        join(parts, ':').last() != ':',
        forall|j: int| !ip_text::colons_at(join(parts, ':'), j),
    decreases parts.len(),
{
    let s = join(parts, ':');
    let p = parts[0];
    assert(ip_text::group_value(parts[0]) == Some(gs[0]));
    lemma_group_text(p);
    if parts.len() == 1 {
        assert(s[0] != ':');
        assert(s[s.len() - 1] != ':');
        assert forall|j: int| !ip_text::colons_at(s, j) by {
            if 0 <= j && j + 1 < s.len() {
                assert(s[j] != ':');
            }
        }
    } else {
        let rest = parts.skip(1);
        assert forall|i: int| 0 <= i < rest.len() implies #[trigger] ip_text::group_value(rest[i])
            == Some(gs.skip(1)[i]) by {
            assert(ip_text::group_value(parts[i + 1]) == Some(gs[i + 1]));
        }
        lemma_joined_groups(rest, gs.skip(1));
        let t = join(rest, ':');
        assert(s =~= p + seq![':'] + t);
        assert(s[0] == p[0]);
        assert(s.last() == t.last());
        assert forall|j: int| !ip_text::colons_at(s, j) by {
            if 0 <= j && j + 1 < s.len() {
                if j < p.len() {
                    assert(s[j] == p[j]);
                } else if j == p.len() {
                    assert(s[j + 1] == t[0]);
                } else {
                    let k = j - p.len() - 1;
                    assert(!ip_text::colons_at(t, k));
                    assert(s[j] == t[k] && s[j + 1] == t[k + 1]);
                }
            }
        }
    }
}

proof fn lemma_section_of_groups(parts: Seq<Seq<char>>, gs: Seq<nat>, tail: bool)
    requires
        group_texts(parts, gs),
        parts.len() <= 9,
    ensures
        ip_text::section(join(parts, ':'), tail) == Some(gs),
{
    let s = join(parts, ':');
    if parts.len() == 0 {
        assert(ip_text::section(s, tail)->Some_0 =~= gs);
    } else {
        lemma_joined_groups(parts, gs);
        assert forall|i: int, j: int| 0 <= i < parts.len() && 0 <= j < parts[i].len() implies
            #[trigger] parts[i][j] != ':' by {
            assert(ip_text::group_value(parts[i]) == Some(gs[i]));
            lemma_group_text(parts[i]);
        }
        lemma_pieces_of_join(parts, ':', 9);
        ip_text::lemma_groups_prefix(parts, tail, gs, gs.len() as int);
        assert(ip_text::groups(parts.skip(gs.len() as int), tail) == Some(Seq::<nat>::empty()));
        assert(gs + Seq::<nat>::empty() =~= gs);
    }
}

/// Eight groups with colons between them are read as the v6 address that they
/// spell.
pub proof fn lemma_v6_full_notation(parts: Seq<Seq<char>>, gs: Seq<nat>)
    requires
        group_texts(parts, gs),
        parts.len() == 8,
    ensures
        ip_text::ip_value(join(parts, ':')) == Some(
            IpAddr::V6(ip_text::groups_number(gs) as u128),
        ),
{
    let s = join(parts, ':');
    lemma_joined_groups(parts, gs);
    assert forall|j: int| 0 <= j < s.len() implies !ip_text::colons_at(s, j) by {}
    ip_text::lemma_first_colons(s, s.len() as int);
    lemma_section_of_groups(parts, gs, true);
    assert(s =~= parts[0] + seq![':'] + join(parts.skip(1), ':'));
    assert(s[parts[0].len() as int] == ':');
    lemma_colon_is_no_v4(s, parts[0].len() as int);
}

/// Two colons stand for as many zero groups as are missing, at least one; the
/// groups before and behind them may be none.
pub proof fn lemma_v6_short_notation(
    head: Seq<Seq<char>>,
    front: Seq<nat>,
    tail: Seq<Seq<char>>,
    back: Seq<nat>,
)
    requires
        group_texts(head, front),
        group_texts(tail, back),
        head.len() + tail.len() <= 7,
    ensures
        ip_text::ip_value(join(head, ':') + seq![':', ':'] + join(tail, ':')) == Some(
            IpAddr::V6(
                ip_text::groups_number(
                    front + ip_text::zero_groups((8 - front.len() - back.len()) as nat) + back,
                ) as u128,
            ),
        ),
{
    let a = join(head, ':');
    let b = join(tail, ':');
    let s = a + seq![':', ':'] + b;
    let k = a.len() as int;
    assert(s[k] == ':' && s[k + 1] == ':');
    if head.len() > 0 {
        lemma_joined_groups(head, front);
    }
    assert forall|j: int| 0 <= j < k implies !ip_text::colons_at(s, j) by {
        if j + 1 < k {
            assert(!ip_text::colons_at(a, j));
            assert(s[j] == a[j] && s[j + 1] == a[j + 1]);
        } else {
            assert(s[j] == a.last());
        }
    }
    ip_text::lemma_first_colons(s, k);
    assert(s.take(k) =~= a);
    assert(s.skip(k + 2) =~= b);
    lemma_section_of_groups(head, front, false);
    lemma_section_of_groups(tail, back, true);
    lemma_colon_is_no_v4(s, k);
}

/// A group is up to four hexadecimal digits of either case, each of which
/// counts sixteen times as much as the next; the groups count 65536 times as
/// much.
pub proof fn lemma_group_values(p: Seq<char>, c: char, gs: Seq<nat>, g: nat)
    ensures
        ip_text::group_value(p) is Some <==> 1 <= p.len() <= 4 && forall|i: int|
            0 <= i < p.len() ==> #[trigger] util::hex_value(p[i]) is Some,
        ip_text::group_value(p) is Some ==> ip_text::group_value(p) == Some(
            ip_text::hex_number(p),
        ),
        ip_text::hex_number(Seq::empty()) == 0,
        util::hex_value(c) matches Some(d) ==> ip_text::hex_number(p.push(c))
            == ip_text::hex_number(p) * 16 + d,
        ip_text::groups_number(Seq::empty()) == 0,
        ip_text::groups_number(gs.push(g)) == ip_text::groups_number(gs) * 65536 + g,
{
    assert(p.push(c).drop_last() =~= p);
    assert(gs.push(g).drop_last() =~= gs);
}

proof fn lemma_longest_holds(gs: Seq<nat>, n: nat, j: int)
    requires
        0 <= j < n,
    ensures
        ip_text::zero_run(gs, j) <= ip_text::zero_run(gs, ip_text::longest_zeros(gs, n)),
        j < ip_text::longest_zeros(gs, n) ==> ip_text::zero_run(gs, j) < ip_text::zero_run(
            gs,
            ip_text::longest_zeros(gs, n),
        ),
    decreases n,
{
    if n > 1 {
        let m = (n - 1) as nat;
        if j < m {
            lemma_longest_holds(gs, m, j);
        } else {
            lemma_longest_below(gs, m);
        }
    }
}

proof fn lemma_longest_below(gs: Seq<nat>, n: nat)
    requires
        n > 0,
    ensures
        0 <= ip_text::longest_zeros(gs, n) < n,
    decreases n,
{
    if n > 1 {
        lemma_longest_below(gs, (n - 1) as nat);
    }
}

/// In the text of a v6 address the longest row of zero groups is written as
/// two colons, the first of the longest; a single zero group is written out.
pub proof fn lemma_shortest_notation(v: u128, j: int)
    requires
        !ip::is_mapped(v as nat),
        0 <= j < 8,
    ensures
        ({
            let gs = ip_text::low_groups(v as nat, 8);
            let start = ip_text::longest_zeros(gs, 8);
            let len = ip_text::zero_run(gs, start);
            &&& ip_text::zero_run(gs, j) <= len
            &&& j < start ==> ip_text::zero_run(gs, j) < len
            &&& len > 1 ==> ip_text::ip_text(IpAddr::V6(v)) == ip_text::colon_text(gs.take(start))
                + seq![':', ':'] + ip_text::colon_text(gs.skip(start + len))
            &&& len <= 1 ==> ip_text::ip_text(IpAddr::V6(v)) == ip_text::colon_text(gs)
        }),
{
    let gs = ip_text::low_groups(v as nat, 8);
    lemma_longest_holds(gs, 8, j);
    reveal_strlit("::");
    assert("::"@ =~= seq![':', ':']);
}

/// A row of zero groups ends at the first other group.
pub proof fn lemma_rows_of_zeros(gs: Seq<nat>, i: int, n: nat)
    requires
        0 <= i,
        i + n <= gs.len(),
        forall|j: int| i <= j < i + n ==> #[trigger] gs[j] == 0,
        i + n < gs.len() ==> gs[i + n] != 0,
    ensures
        ip_text::zero_run(gs, i) == n,
    decreases n,
{
    if n > 0 {
        lemma_rows_of_zeros(gs, i + 1, (n - 1) as nat);
    }
}

/// The groups of an address are written in lower case without zeros in front.
pub proof fn lemma_group_notation(g: nat, i: int)
    requires
        g < 65536,
        0 <= i < ip_text::short_hex(g).len(),
    ensures
        util::is_lower_digit(ip_text::short_hex(g)[i]),
        g > 0 ==> ip_text::short_hex(g)[0] != '0',
        g == 0 ==> ip_text::short_hex(g) == seq!['0'],
        ip_text::group_value(ip_text::short_hex(g)) == Some(g),
    decreases g,
{
    lemma_short_hex(g);
    let s = ip_text::short_hex(g);
    if g >= 16 {
        let t = ip_text::short_hex(g / 16);
        lemma_short_hex(g / 16);
        lemma_group_notation(g / 16, 0);
        assert(s[0] == t[0]);
        if i < t.len() {
            lemma_group_notation(g / 16, i);
            assert(s[i] == t[i]);
        }
    } else {
        assert(g == 0 ==> s =~= seq!['0']);
    }
}

proof fn lemma_joined_texts(parts: Seq<Seq<char>>)
    requires
        parts.len() > 0,
        free_of(parts, ':'),
        forall|i: int| 0 <= i < parts.len() ==> (#[trigger] parts[i]).len() > 0,
    ensures
        join(parts, ':').len() > 0,
        join(parts, ':')[0] != ':',
        join(parts, ':').last() != ':',
        forall|j: int| !ip_text::colons_at(join(parts, ':'), j),
    decreases parts.len(),
{
    let s = join(parts, ':');
    let p = parts[0];
    assert(parts[0][0] != ':');
    assert forall|j: int| 0 <= j < p.len() implies #[trigger] p[j] != ':' by {
        assert(parts[0][j] != ':');
    }
    if parts.len() == 1 {
        assert(s[s.len() - 1] != ':');
        assert forall|j: int| !ip_text::colons_at(s, j) by {
            if 0 <= j && j + 1 < s.len() {
                assert(s[j] != ':');
            }
        }
    } else {
        let rest = parts.skip(1);
        assert forall|i: int, j: int|
            0 <= i < rest.len() && 0 <= j < rest[i].len() implies #[trigger] rest[i][j] != ':' by {
            assert(parts[i + 1][j] != ':');
        }
        assert forall|i: int| 0 <= i < rest.len() implies (#[trigger] rest[i]).len() > 0 by {
            assert(parts[i + 1].len() > 0);
        }
        lemma_joined_texts(rest);
        let t = join(rest, ':');
        assert(s =~= p + seq![':'] + t);
        assert(s[0] == p[0]);
        assert(s.last() == t.last());
        assert forall|j: int| !ip_text::colons_at(s, j) by {
            if 0 <= j && j + 1 < s.len() {
                if j < p.len() {
                    assert(s[j] == p[j]);
                } else if j == p.len() {
                    assert(s[j + 1] == t[0]);
                } else {
                    let k = j - p.len() - 1;
                    assert(!ip_text::colons_at(t, k));
                    assert(s[j] == t[k] && s[j + 1] == t[k + 1]);
                }
            }
        }
    }
}

proof fn lemma_section_with_v4(parts: Seq<Seq<char>>, gs: Seq<nat>, x: nat)
    requires
        group_texts(parts, gs),
        parts.len() <= 8,
        x < 0x1_0000_0000,
    ensures
        ip_text::section(join(parts.push(ip_text::v4_text(x)), ':'), true) == Some(
            gs + seq![x / 65536, x % 65536],
        ),
        join(parts.push(ip_text::v4_text(x)), ':').len() > 0,
        forall|j: int| !ip_text::colons_at(join(parts.push(ip_text::v4_text(x)), ':'), j),
{
    let q = ip_text::v4_text(x);
    let all = parts.push(q);
    let s = join(all, ':');
    lemma_v4_parts(x);
    let dot = choose|j: int| 0 <= j < q.len() && #[trigger] q[j] == '.';
    assert(util::hex_value(q[dot]) is None);
    assert(ip_text::group_value(q) is None);
    assert forall|i: int| 0 <= i < all.len() implies (#[trigger] all[i]).len() > 0 by {
        if i < parts.len() {
            assert(ip_text::group_value(parts[i]) == Some(gs[i]));
        }
    }
    assert forall|i: int, j: int| 0 <= i < all.len() && 0 <= j < all[i].len() implies
        #[trigger] all[i][j] != ':' by {
        if i < parts.len() {
            assert(ip_text::group_value(parts[i]) == Some(gs[i]));
            lemma_group_text(parts[i]);
        } else {
            assert(q[j] != ':');
        }
    }
    lemma_joined_texts(all);
    lemma_pieces_of_join(all, ':', 9);
    assert forall|k: int| 0 <= k < gs.len() implies #[trigger] ip_text::group_value(all[k])
        == Some(gs[k]) by {
        assert(ip_text::group_value(parts[k]) == Some(gs[k]));
    }
    ip_text::lemma_groups_prefix(all, true, gs, gs.len() as int);
    let rest = all.skip(gs.len() as int);
    assert(rest =~= seq![q]);
    assert(ip_text::groups(rest, true) == Some(seq![x / 65536, x % 65536]));
}

/// The last two groups of a v6 address may be written as a v4 address, in the
/// full notation and in the short one.
pub proof fn lemma_v6_mixed_notation(
    six: Seq<Seq<char>>,
    gs: Seq<nat>,
    head: Seq<Seq<char>>,
    front: Seq<nat>,
    tail: Seq<Seq<char>>,
    back: Seq<nat>,
    x: u32,
)
    requires
        group_texts(six, gs),
        six.len() == 6,
        group_texts(head, front),
        group_texts(tail, back),
        head.len() + tail.len() <= 5,
    ensures
        ip_text::ip_value(join(six.push(ip_text::v4_text(x as nat)), ':')) == Some(
            IpAddr::V6(
                ip_text::groups_number(gs + seq![x as nat / 65536, x as nat % 65536]) as u128,
            ),
        ),
        ip_text::ip_value(
            join(head, ':') + seq![':', ':'] + join(tail.push(ip_text::v4_text(x as nat)), ':'),
        ) == Some(
            IpAddr::V6(
                ip_text::groups_number(
                    front + ip_text::zero_groups((6 - front.len() - back.len()) as nat) + (back
                        + seq![x as nat / 65536, x as nat % 65536]),
                ) as u128,
            ),
        ),
{
    let full = join(six.push(ip_text::v4_text(x as nat)), ':');
    lemma_section_with_v4(six, gs, x as nat);
    ip_text::lemma_first_colons(full, full.len() as int);
    let all = six.push(ip_text::v4_text(x as nat));
    assert(full =~= all[0] + seq![':'] + join(all.skip(1), ':'));
    assert(full[all[0].len() as int] == ':');
    lemma_colon_is_no_v4(full, all[0].len() as int);
    let a = join(head, ':');
    let b = join(tail.push(ip_text::v4_text(x as nat)), ':');
    let s = a + seq![':', ':'] + b;
    let k = a.len() as int;
    assert(s[k] == ':' && s[k + 1] == ':');
    if head.len() > 0 {
        lemma_joined_groups(head, front);
    }
    assert forall|j: int| 0 <= j < k implies !ip_text::colons_at(s, j) by {
        if j + 1 < k {
            assert(!ip_text::colons_at(a, j));
            assert(s[j] == a[j] && s[j + 1] == a[j + 1]);
        } else {
            assert(s[j] == a.last());
        }
    }
    ip_text::lemma_first_colons(s, k);
    assert(s.take(k) =~= a);
    assert(s.skip(k + 2) =~= b);
    lemma_section_of_groups(head, front, false);
    lemma_section_with_v4(tail, back, x as nat);
    lemma_colon_is_no_v4(s, k);
}

/// The text is made of so many groups with colons between them; where `tail`
/// holds, the last two may be written as a v4 address.
pub open spec fn spells_groups(s: Seq<char>, tail: bool, n: nat) -> bool {
    let parts = text::pieces(s, ':', 9);
    ||| s.len() == 0 && n == 0
    ||| {
        &&& s.len() > 0
        &&& forall|i: int|
            0 <= i < parts.len() - 1 ==> #[trigger] ip_text::group_value(parts[i]) is Some
        &&& {
            ||| ip_text::group_value(parts.last()) is Some && n == parts.len()
            ||| tail && ip_text::v4_value(parts.last()) is Some && n == parts.len() + 1
        }
    }
}

proof fn lemma_groups_are_spelled(parts: Seq<Seq<char>>, tail: bool)
    requires
        parts.len() > 0,
        ip_text::groups(parts, tail) is Some,
    ensures
        forall|i: int|
            0 <= i < parts.len() - 1 ==> #[trigger] ip_text::group_value(parts[i]) is Some,
        ({
            let n = ip_text::groups(parts, tail)->Some_0.len();
            ||| ip_text::group_value(parts.last()) is Some && n == parts.len()
            ||| tail && ip_text::v4_value(parts.last()) is Some && n == parts.len() + 1
        }),
    decreases parts.len(),
{
    let rest = parts.skip(1);
    if parts.len() > 1 {
        lemma_groups_are_spelled(rest, tail);
        assert(rest.last() == parts.last());
        assert forall|i: int| 0 <= i < parts.len() - 1 implies #[trigger] ip_text::group_value(
            parts[i],
        ) is Some by {
            if i > 0 {
                assert(rest[i - 1] == parts[i]);
                assert(ip_text::group_value(rest[i - 1]) is Some);
            }
        }
    } else {
        reveal_with_fuel(ip_text::groups, 2);
        assert(rest.len() == 0);
        assert(parts[0] == parts.last());
    }
}

/// Nothing else is read as a v6 address: it is eight groups, or at most seven
/// around two colons.
pub proof fn lemma_v6_texts(s: Seq<char>)
    requires
        ip_text::v6_value(s) is Some,
    ensures
        spells_groups(s, true, 8) || exists|k: int, n: nat, m: nat| #[trigger]
            short_form(s, k, n, m),
{
    lemma_first_colons_holds(s);
    let k = ip_text::first_colons(s);
    if k < s.len() {
        let a = s.take(k);
        let b = s.skip(k + 2);
        if a.len() > 0 {
            lemma_pieces_exist(a);
            lemma_groups_are_spelled(text::pieces(a, ':', 9), false);
        }
        if b.len() > 0 {
            lemma_pieces_exist(b);
            lemma_groups_are_spelled(text::pieces(b, ':', 9), true);
        }
        let n = ip_text::section(a, false)->Some_0.len();
        let m = ip_text::section(b, true)->Some_0.len();
        assert(short_form(s, k, n, m));
    } else {
        lemma_pieces_exist(s);
        lemma_groups_are_spelled(text::pieces(s, ':', 9), true);
    }
}

/// Two colons stand at the place, with so many groups before and so many
/// behind them, which leaves at least one out.
pub open spec fn short_form(s: Seq<char>, k: int, n: nat, m: nat) -> bool {
    &&& ip_text::colons_at(s, k)
    &&& spells_groups(s.take(k), false, n)
    &&& spells_groups(s.skip(k + 2), true, m)
    &&& n + m <= 7
}

proof fn lemma_pieces_exist(s: Seq<char>)
    ensures
        text::pieces(s, ':', 9).len() > 0,
{
    crate::text_laws::lemma_split_then_joined(s, ':', 9);
}

proof fn lemma_first_colons_holds(s: Seq<char>)
    ensures
        0 <= ip_text::first_colons(s) <= s.len(),
        ip_text::first_colons(s) < s.len() ==> ip_text::colons_at(s, ip_text::first_colons(s)),
    decreases s.len(),
{
    if s.len() > 0 && !ip_text::colons_at(s, 0) {
        let rest = s.skip(1);
        lemma_first_colons_holds(rest);
        let k = ip_text::first_colons(rest);
        if k < rest.len() {
            assert(rest[k] == s[k + 1] && rest[k + 1] == s[k + 2]);
        }
    }
}

} // verus!
