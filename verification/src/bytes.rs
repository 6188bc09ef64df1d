//! Byte strings: equality, order, and numbers in big-endian notation.

use vstd::prelude::*;

verus! {

/// Whether two byte strings are equal.
pub(crate) fn same_bytes(a: &[u8], b: &[u8]) -> (r: bool)
    ensures
        r == (a@ == b@),
{
    if a.len() != b.len() {
        return false;
    }
    let n: usize = a.len();
    for i in 0..n
        invariant
            n == a@.len(),
            n == b@.len(),
            forall|j: int| 0 <= j < i ==> a@[j] == b@[j],
    {
        if a[i] != b[i] {
            return false;
        }
    }
    assert(a@ =~= b@);
    true
}

/// A copy of a run of bytes.
pub(crate) fn copy_range(a: &[u8], from: usize, to: usize) -> (r: Vec<u8>)
    requires
        from <= to <= a@.len(),
    ensures
        r@ == a@.subrange(from as int, to as int),
{
    let mut out: Vec<u8> = Vec::new();
    for i in from..to
        invariant
            from <= to <= a@.len(),
            out@ == a@.subrange(from as int, i as int),
    {
        out.push(a[i]);
        assert(out@ =~= a@.subrange(from as int, i + 1));
    }
    out
}

/// Puts the bytes of `b` after those of `a`.
pub(crate) fn extend(a: &mut Vec<u8>, b: &[u8])
    ensures
        final(a)@ == old(a)@ + b@,
{
    let n: usize = b.len();
    for i in 0..n
        invariant
            n == b@.len(),
            a@ == old(a)@ + b@.take(i as int),
    {
        a.push(b[i]);
        assert(a@ =~= old(a)@ + b@.take(i + 1));
    }
    assert(b@.take(n as int) =~= b@);
}

/// `a` comes before `b` in the order that compares byte by byte from the
/// front.
pub open spec fn lex_less(a: Seq<u8>, b: Seq<u8>) -> bool
    decreases a.len(),
{
    if b.len() == 0 {
        false
    } else if a.len() == 0 {
        true
    } else if a[0] != b[0] {
        a[0] < b[0]
    } else {
        lex_less(a.skip(1), b.skip(1))
    }
}

/// `a` comes before `b` or equals it.
pub open spec fn lex_le(a: Seq<u8>, b: Seq<u8>) -> bool {
    a == b || lex_less(a, b)
}

/// A common front does not take part in the order.
pub proof fn lemma_lex_common_front(p: Seq<u8>, a: Seq<u8>, b: Seq<u8>)
    ensures
        lex_less(p + a, p + b) == lex_less(a, b),
    decreases p.len(),
{
    if p.len() == 0 {
        assert(p + a =~= a);
        assert(p + b =~= b);
    } else {
        assert((p + a)[0] == (p + b)[0]);
        assert((p + a).skip(1) =~= p.skip(1) + a);
        assert((p + b).skip(1) =~= p.skip(1) + b);
        lemma_lex_common_front(p.skip(1), a, b);
    }
}

/// The order is decided at the first byte that differs.
pub proof fn lemma_lex_first_difference(a: Seq<u8>, b: Seq<u8>, k: int)
    requires
        0 <= k < a.len(),
        k < b.len(),
        a.take(k) == b.take(k),
        a[k] != b[k],
    ensures
        lex_less(a, b) == (a[k] < b[k]),
{
    lemma_lex_common_front(a.take(k), a.skip(k), b.skip(k));
    assert(a.take(k) + a.skip(k) =~= a);
    assert(b.take(k) + b.skip(k) =~= b);
    assert(a.skip(k)[0] == a[k]);
    assert(b.skip(k)[0] == b[k]);
}

/// Nothing comes before itself.
pub proof fn lemma_lex_irreflexive(a: Seq<u8>)
    ensures
        !lex_less(a, a),
    decreases a.len(),
{
    if a.len() > 0 {
        lemma_lex_irreflexive(a.skip(1));
    }
}

/// The number that big-endian bytes denote.
pub open spec fn be_value(s: Seq<u8>) -> nat
    decreases s.len(),
{
    if s.len() == 0 {
        0
    } else {
        be_value(s.drop_last()) * 256 + s.last() as nat
    }
}

/// The `n` low bytes of a number, the most significant first.
pub open spec fn be_bytes(v: nat, n: nat) -> Seq<u8>
    decreases n,
{
    if n == 0 {
        Seq::empty()
    } else {
        be_bytes(v / 256, (n - 1) as nat).push((v % 256) as u8)
    }
}

/// How many values `n` bytes can take.
pub open spec fn byte_range(n: nat) -> nat
    decreases n,
{
    if n == 0 {
        1
    } else {
        256 * byte_range((n - 1) as nat)
    }
}

/// Reading big-endian bytes gives back the number they were written from.
pub proof fn lemma_be_round_trip(v: nat, n: nat)
    requires
        v < byte_range(n),
    ensures
        be_bytes(v, n).len() == n,
        be_value(be_bytes(v, n)) == v,
    decreases n,
{
    if n > 0 {
        assert(v / 256 < byte_range((n - 1) as nat)) by (nonlinear_arith)
            requires
                v < 256 * byte_range((n - 1) as nat),
        ;
        lemma_be_round_trip(v / 256, (n - 1) as nat);
        assert(be_bytes(v, n).drop_last() =~= be_bytes(v / 256, (n - 1) as nat));
    }
}

/// Every `u64` fits in eight bytes.
pub proof fn lemma_u64_bytes(v: u64)
    ensures
        be_bytes(v as nat, 8).len() == 8,
        be_value(be_bytes(v as nat, 8)) == v,
{
    lemma_byte_ranges();
    lemma_be_round_trip(v as nat, 8);
}

/// The number of big-endian bytes is below the range of their count.
pub proof fn lemma_be_value_bound(s: Seq<u8>)
    ensures
        be_value(s) < byte_range(s.len()),
    decreases s.len(),
{
    if s.len() > 0 {
        lemma_be_value_bound(s.drop_last());
    }
}

/// Sixteen bytes take every `u128` value and no more.
pub proof fn lemma_byte_ranges()
    ensures
        byte_range(4) == 0x1_0000_0000,
        byte_range(8) == 0x1_0000_0000_0000_0000,
        byte_range(16) == u128::MAX + 1,
{
    reveal_with_fuel(byte_range, 17);
}

/// Fewer bytes take fewer values.
proof fn lemma_byte_range_grows(m: nat, n: nat)
    requires
        m <= n,
    ensures
        byte_range(m) <= byte_range(n),
    decreases n,
{
    if m < n {
        lemma_byte_range_grows(m, (n - 1) as nat);
    }
}

/// Big-endian bytes of equal length are ordered as their numbers are.
pub proof fn lemma_be_order(x: nat, y: nat, n: nat)
    requires
        x < byte_range(n),
        y < byte_range(n),
    ensures
        lex_less(be_bytes(x, n), be_bytes(y, n)) == (x < y),
        (be_bytes(x, n) == be_bytes(y, n)) == (x == y),
    decreases n,
{
    lemma_be_round_trip(x, n);
    lemma_be_round_trip(y, n);
    if n > 0 {
        let m = (n - 1) as nat;
        let a = be_bytes(x, n);
        let b = be_bytes(y, n);
        assert(x / 256 < byte_range(m)) by (nonlinear_arith)
            requires
                x < 256 * byte_range(m),
        ;
        assert(y / 256 < byte_range(m)) by (nonlinear_arith)
            requires
                y < 256 * byte_range(m),
        ;
        lemma_be_order(x / 256, y / 256, m);
        lemma_be_round_trip(x / 256, m);
        lemma_be_round_trip(y / 256, m);
        let p = be_bytes(x / 256, m);
        let q = be_bytes(y / 256, m);
        if p == q {
            assert(a.take(m as int) =~= p);
            assert(b.take(m as int) =~= q);
            if x % 256 != y % 256 {
                lemma_lex_first_difference(a, b, m as int);
            } else {
                assert(a == b);
                lemma_lex_irreflexive(a);
            }
        } else {
            lemma_lex_differ(p, q);
            let k = choose|k: int|
                0 <= k < p.len() && p.take(k) == q.take(k) && #[trigger] p[k] != q[k];
            assert(a.take(k) =~= p.take(k));
            assert(b.take(k) =~= q.take(k));
            lemma_lex_first_difference(p, q, k);
            lemma_lex_first_difference(a, b, k);
        }
    }
}

/// Different byte strings of equal length have a first place where they
/// differ.
proof fn lemma_lex_differ(p: Seq<u8>, q: Seq<u8>)
    requires
        p.len() == q.len(),
        p != q,
    ensures
        exists|k: int| 0 <= k < p.len() && p.take(k) == q.take(k) && #[trigger] p[k] != q[k],
    decreases p.len(),
{
    if p.len() == 0 {
        assert(p =~= q);
    } else if p.drop_last() == q.drop_last() {
        let k = p.len() - 1;
        assert(p =~= p.drop_last().push(p.last()));
        assert(q =~= q.drop_last().push(q.last()));
        assert(p.take(k) =~= p.drop_last());
        assert(q.take(k) =~= q.drop_last());
        assert(p[k] != q[k]);
    } else {
        let a = p.drop_last();
        let b = q.drop_last();
        lemma_lex_differ(a, b);
        let k = choose|k: int|
            0 <= k < a.len() && a.take(k) == b.take(k) && #[trigger] a[k] != b[k];
        assert(a.take(k) =~= p.take(k));
        assert(b.take(k) =~= q.take(k));
        assert(p[k] != q[k]);
    }
}

/// Writes the `n` low bytes of a number, the most significant first.
pub fn to_be(v: u128, n: usize) -> (r: Vec<u8>)
    ensures
        r@ == be_bytes(v as nat, n as nat),
    decreases n,
{
    if n == 0 {
        return Vec::new();
    }
    let mut out = to_be(v / 256, n - 1);
    out.push((v % 256) as u8);
    out
}

/// Reads up to sixteen big-endian bytes.
pub fn from_be(s: &[u8]) -> (r: u128)
    requires
        s@.len() <= 16,
    ensures
        r == be_value(s@),
{
    let n: usize = s.len();
    let mut v: u128 = 0;
    for i in 0..n
        invariant
            n == s@.len(),
            n <= 16,
            v == be_value(s@.take(i as int)),
    {
        proof {
            lemma_be_value_bound(s@.take(i + 1));
            lemma_byte_range_grows((i + 1) as nat, 16);
            lemma_byte_ranges();
            assert(s@.take(i + 1).drop_last() =~= s@.take(i as int));
        }
        v = v * 256 + s[i] as u128;
    }
    assert(s@.take(n as int) =~= s@);
    v
}

/// The bytes of a number are those of its higher part and then those of its
/// lower part.
pub proof fn lemma_be_split(v: nat, n: nat, m: nat)
    ensures
        be_bytes(v, n + m) == be_bytes(v / byte_range(m), n) + be_bytes(v, m),
    decreases m,
{
    if m == 0 {
        assert(be_bytes(v, 0) =~= Seq::<u8>::empty());
        assert(v / 1 == v);
        assert(be_bytes(v, n + m) =~= be_bytes(v, n) + be_bytes(v, 0));
    } else {
        let k = (m - 1) as nat;
        lemma_be_split(v / 256, n, k);
        lemma_byte_range_grows(0, k);
        vstd::arithmetic::div_mod::lemma_div_denominator(v as int, 256, byte_range(k) as int);
        assert((n + m - 1) as nat == n + k);
        assert(be_bytes(v, n + m) =~= be_bytes(v / byte_range(m), n) + be_bytes(v, m));
    }
}

} // verus!
