//! Splitting a text and joining the pieces undo each other.

use vstd::prelude::*;

use crate::ip_text_laws;
use crate::text;

verus! {

/// Every piece but the last, and the last too where there are fewer pieces
/// than asked for, is without separator.
pub open spec fn clean_pieces(parts: Seq<Seq<char>>, sep: char, n: nat) -> bool {
    forall|i: int, j: int|
        0 <= i < parts.len() && 0 <= j < parts[i].len() && (i < parts.len() - 1 || parts.len() < n)
            ==> #[trigger] parts[i][j] != sep
}

/// Pieces with separators between them are split into those pieces.
pub proof fn lemma_joined_then_split(parts: Seq<Seq<char>>, sep: char, n: nat)
    requires
        0 < parts.len() <= n,
        clean_pieces(parts, sep, n),
    ensures
        text::pieces(ip_text_laws::join(parts, sep), sep, n) == parts,
    decreases parts.len(),
{
    let s = ip_text_laws::join(parts, sep);
    let head = parts[0];
    if parts.len() == 1 {
        if n > 1 {
            assert forall|j: int| 0 <= j < head.len() implies s[j] != sep by {
                assert(parts[0][j] != sep);
            }
            text::lemma_first_at(s, sep, head.len() as int);
        }
        assert(text::pieces(s, sep, n) =~= parts);
    } else {
        assert forall|j: int| 0 <= j < head.len() implies s[j] != sep by {
            assert(parts[0][j] != sep);
        }
        text::lemma_first_at(s, sep, head.len() as int);
        let rest = parts.skip(1);
        let m = (n - 1) as nat;
        assert forall|i: int, j: int|
            0 <= i < rest.len() && 0 <= j < rest[i].len() && (i < rest.len() - 1 || rest.len()
                < m) implies #[trigger] rest[i][j] != sep by {
            assert(parts[i + 1][j] != sep);
        }
        lemma_joined_then_split(rest, sep, m);
        assert(s.take(head.len() as int) =~= head);
        assert(s.skip(head.len() as int + 1) =~= ip_text_laws::join(rest, sep));
        assert(text::pieces(s, sep, n) =~= parts);
    }
}

/// The pieces of a text, joined again, are the text; there is at least one and
/// there are at most as many as asked for, and only the last may hold
/// separators, where there is no room for more.
pub proof fn lemma_split_then_joined(s: Seq<char>, sep: char, n: nat)
    requires
        n > 0,
    ensures
        ip_text_laws::join(text::pieces(s, sep, n), sep) == s,
        0 < text::pieces(s, sep, n).len() <= n,
        clean_pieces(text::pieces(s, sep, n), sep, n),
    decreases n,
{
    let k = text::first_at(s, sep);
    let parts = text::pieces(s, sep, n);
    ip_text_laws::lemma_first_at_holds(s, sep);
    lemma_none_before(s, sep);
    if n <= 1 || k >= s.len() {
        assert(ip_text_laws::join(parts, sep) =~= s);
    } else {
        let rest = s.skip(k + 1);
        let tail = text::pieces(rest, sep, (n - 1) as nat);
        lemma_split_then_joined(rest, sep, (n - 1) as nat);
        assert(parts.skip(1) =~= tail);
        assert(ip_text_laws::join(parts, sep) =~= s);
        assert forall|i: int, j: int|
            0 <= i < parts.len() && 0 <= j < parts[i].len() && (i < parts.len() - 1 || parts.len()
                < n) implies #[trigger] parts[i][j] != sep by {
            if i > 0 {
                assert(parts[i] == tail[i - 1]);
                assert(tail[i - 1][j] != sep);
            }
        }
    }
}

proof fn lemma_none_before(s: Seq<char>, sep: char)
    ensures
        forall|j: int| 0 <= j < text::first_at(s, sep) && j < s.len() ==> s[j] != sep,
    decreases s.len(),
{
    if s.len() > 0 && s[0] != sep {
        lemma_none_before(s.skip(1), sep);
        assert forall|j: int| 0 <= j < text::first_at(s, sep) && j < s.len() implies s[j] != sep by {
            if j > 0 {
                assert(s.skip(1)[j - 1] == s[j]);
            }
        }
    }
}

/// The first piece of a text is what stands before its first separator,
/// whatever follows.
pub proof fn lemma_first_piece(head: Seq<char>, sep: char, rest: Seq<char>, n: nat)
    requires
        n > 1,
        !head.contains(sep),
    ensures
        text::pieces(head, sep, n)[0] == head,
        text::pieces(head + seq![sep] + rest, sep, n)[0] == head,
{
    let s = head + seq![sep] + rest;
    assert forall|j: int| 0 <= j < head.len() implies s[j] != sep && head[j] != sep by {
        assert(s[j] == head[j]);
        if head[j] == sep {
            assert(head.contains(sep));
        }
    }
    text::lemma_first_at(head, sep, head.len() as int);
    text::lemma_first_at(s, sep, head.len() as int);
    assert(s.take(head.len() as int) =~= head);
}

} // verus!
