//! File names: the last component of a path, its stem and its extension.

use vstd::prelude::*;
use vstd::string::*;

use crate::text;
use crate::text::{chars_of, text_of};

verus! {

/// The position behind the last `c` in `s`, or 0 where `s` holds none.
pub open spec fn after_last(s: Seq<char>, c: char) -> int
    decreases s.len(),
{
    if s.len() == 0 {
        0
    } else if s.last() == c {
        s.len() as int
    } else {
        after_last(s.drop_last(), c)
    }
}

/// The last component of a path that is neither empty nor `.`; empty where
/// there is none.
pub open spec fn last_component(s: Seq<char>) -> Seq<char>
    decreases s.len(),
{
    let cut = after_last(s, '/');
    let part = s.skip(cut);
    if part.len() > 0 && part != seq!['.'] {
        part
    } else if 0 < cut <= s.len() {
        last_component(s.take(cut - 1))
    } else {
        Seq::empty()
    }
}

/// The file name that a path ends in. A path that ends in `..`, and one
/// without a component, has none.
pub open spec fn file_name(s: Seq<char>) -> Option<Seq<char>> {
    let part = last_component(s);
    if part.len() == 0 || part == seq!['.', '.'] {
        None
    } else {
        Some(part)
    }
}

/// The position behind the dot that parts a file name into stem and
/// extension, or 0 where the name has no extension: a leading dot is part of
/// the stem.
pub open spec fn extension_start(name: Seq<char>) -> int {
    let cut = after_last(name, '.');
    if cut <= 1 {
        0
    } else {
        cut
    }
}

/// The extension of the file name that a path ends in.
pub open spec fn extension(s: Seq<char>) -> Option<Seq<char>> {
    match file_name(s) {
        Some(name) => if extension_start(name) > 0 {
            Some(name.skip(extension_start(name)))
        } else {
            None
        },
        None => None,
    }
}

/// The file name that a path ends in, without its extension.
pub open spec fn file_stem(s: Seq<char>) -> Option<Seq<char>> {
    match file_name(s) {
        Some(name) => if extension_start(name) > 0 {
            Some(name.take(extension_start(name) - 1))
        } else {
            Some(name)
        },
        None => None,
    }
}

proof fn lemma_after_last(s: Seq<char>, c: char, k: int)
    requires
        0 <= k <= s.len(),
        forall|j: int| k <= j < s.len() ==> s[j] != c,
        k > 0 ==> s[k - 1] == c,
    ensures
        after_last(s, c) == k,
    decreases s.len(),
{
    if k < s.len() {
        assert(s.last() != c);
        lemma_after_last(s.drop_last(), c, k);
    }
}

fn find_after_last(s: &Vec<char>, len: usize, c: char) -> (r: usize)
    requires
        len <= s@.len(),
    ensures
        r <= len,
        r == after_last(s@.take(len as int), c),
{
    let mut i: usize = len;
    while i > 0 && s[i - 1] != c
        invariant
            i <= len <= s@.len(),
            forall|j: int| i <= j < len ==> s@[j] != c,
        decreases i,
    {
        i -= 1;
    }
    proof {
        lemma_after_last(s@.take(len as int), c, i as int);
    }
    i
}

/// Finds the file name that a path ends in.
fn file_name_chars(s: &str) -> (r: Option<Vec<char>>)
    ensures
        (match r {
            Some(v) => Some(v@),
            None => None::<Seq<char>>,
        }) == file_name(s@),
{
    let chars = chars_of(s);
    let mut len: usize = chars.len();
    assert(chars@.take(len as int) =~= s@);
    loop
        invariant
            chars@ == s@,
            len <= chars@.len(),
            last_component(chars@.take(len as int)) == last_component(s@),
        decreases len,
    {
        let cut: usize = find_after_last(&chars, len, '/');
        let ghost path = chars@.take(len as int);
        let part = vstd::slice::slice_to_vec(
            vstd::slice::slice_subrange(chars.as_slice(), cut, len),
        );
        assert(part@ =~= path.skip(cut as int));
        let n: usize = part.len();
        if n > 0 && !(n == 1 && part[0] == '.') {
            proof {
                if part@ == seq!['.'] {
                    assert(part@[0] == '.');
                }
                if n == 2 && part@[0] == '.' && part@[1] == '.' {
                    assert(part@ =~= seq!['.', '.']);
                }
            }
            if n == 2 && part[0] == '.' && part[1] == '.' {
                return None;
            }
            return Some(part);
        }
        proof {
            if n == 1 {
                assert(part@ =~= seq!['.']);
            }
        }
        if cut == 0 {
            return None;
        }
        assert(path.take(cut - 1) =~= chars@.take(cut - 1));
        len = cut - 1;
    }
}

/// The extension of the file name that a path ends in.
pub fn extension_of(s: &str) -> (r: Option<String>)
    ensures
        text::opt_view(r) == extension(s@),
{
    match file_name_chars(s) {
        Some(name) => {
            let n: usize = name.len();
            let cut: usize = find_after_last(&name, n, '.');
            assert(name@.take(n as int) =~= name@);
            if cut <= 1 {
                return None;
            }
            let t = text_of(vstd::slice::slice_subrange(name.as_slice(), cut, n));
            assert(t@ =~= name@.skip(cut as int));
            Some(t)
        },
        None => None,
    }
}

/// The file name that a path ends in, without its extension.
pub fn file_stem_of(s: &str) -> (r: Option<String>)
    ensures
        text::opt_view(r) == file_stem(s@),
{
    match file_name_chars(s) {
        Some(name) => {
            let n: usize = name.len();
            let cut: usize = find_after_last(&name, n, '.');
            assert(name@.take(n as int) =~= name@);
            if cut <= 1 {
                return Some(text_of(name.as_slice()));
            }
            let t = text_of(vstd::slice::slice_subrange(name.as_slice(), 0, cut - 1));
            assert(t@ =~= name@.take(cut - 1));
            Some(t)
        },
        None => None,
    }
}

// ---------------------------------------------------------------- laws

/// The text is the name of a file rather than a place: not empty, without
/// slashes, and neither `.` nor `..`.
pub open spec fn is_name(s: Seq<char>) -> bool {
    &&& s.len() > 0
    &&& !s.contains('/')
    &&& s != seq!['.']
    &&& s != seq!['.', '.']
}

/// A path ends in the name behind its last slash, whatever the folders.
pub proof fn lemma_name_behind_folders(folder: Seq<char>, name: Seq<char>)
    requires
        is_name(name),
    ensures
        file_name(name) == Some(name),
        file_name(folder + seq!['/'] + name) == Some(name),
{
    let s = folder + seq!['/'] + name;
    let k = folder.len() as int + 1;
    assert forall|j: int| 0 <= j < name.len() implies name[j] != '/' by {
        if name[j] == '/' {
            assert(name.contains('/'));
        }
    }
    lemma_after_last(name, '/', 0);
    assert(name.skip(0) =~= name);
    assert forall|j: int| k <= j < s.len() implies s[j] != '/' by {
        assert(s[j] == name[j - k]);
    }
    assert(s[k - 1] == '/');
    lemma_after_last(s, '/', k);
    assert(s.skip(k) =~= name);
}

/// A slash at the end of a path, and a component `.` there, does not count; a
/// path that ends in `..` has no file name, nor has one without component.
pub proof fn lemma_path_ends(path: Seq<char>)
    ensures
        file_name(path + seq!['/']) == file_name(path),
        file_name(path + seq!['/', '.']) == file_name(path),
        file_name(path + seq!['/', '.', '.']) is None,
        file_name(seq!['.', '.']) is None,
        file_name(seq!['.']) is None,
        file_name(Seq::empty()) is None,
{
    let n = path.len() as int;
    let a = path + seq!['/'];
    assert(a[n] == '/');
    lemma_after_last(a, '/', n + 1);
    assert(a.skip(n + 1) =~= Seq::<char>::empty());
    assert(a.take(n) =~= path);
    let b = path + seq!['/', '.'];
    assert(b[n] == '/' && b[n + 1] == '.');
    lemma_after_last(b, '/', n + 1);
    assert(b.skip(n + 1) =~= seq!['.']);
    assert(b.take(n) =~= path);
    let c = path + seq!['/', '.', '.'];
    assert(c[n] == '/' && c[n + 1] == '.' && c[n + 2] == '.');
    lemma_after_last(c, '/', n + 1);
    assert(c.skip(n + 1) =~= seq!['.', '.']);
    assert(c.skip(n + 1) != seq!['.']) by {
        assert(c.skip(n + 1).len() == 2);
    }
    let d = seq!['.', '.'];
    lemma_after_last(d, '/', 0);
    assert(d.skip(0) =~= d);
    assert(d != seq!['.']) by {
        assert(d.len() == 2);
    }
    let e = seq!['.'];
    lemma_after_last(e, '/', 0);
    assert(e.skip(0) =~= e);
}

/// A file name is parted at its last dot: what follows is the extension, what
/// precedes the stem, in whatever folder the file is.
pub proof fn lemma_parted_at_last_dot(path: Seq<char>, stem: Seq<char>, ext: Seq<char>)
    requires
        file_name(path) == Some(stem + seq!['.'] + ext),
        stem.len() > 0,
        !ext.contains('.'),
    ensures
        extension(path) == Some(ext),
        file_stem(path) == Some(stem),
{
    let name = stem + seq!['.'] + ext;
    let k = stem.len() as int + 1;
    assert forall|j: int| k <= j < name.len() implies name[j] != '.' by {
        assert(name[j] == ext[j - k]);
        if ext[j - k] == '.' {
            assert(ext.contains('.'));
        }
    }
    assert(name[k - 1] == '.');
    lemma_after_last(name, '.', k);
    assert(name.skip(k) =~= ext);
    assert(name.take(k - 1) =~= stem);
}

/// A file name without a dot, or with one only at its front, is all stem.
pub proof fn lemma_name_without_extension(path: Seq<char>, name: Seq<char>)
    requires
        file_name(path) == Some(name),
        forall|i: int| 1 <= i < name.len() ==> #[trigger] name[i] != '.',
    ensures
        extension(path) is None,
        file_stem(path) == Some(name),
{
    if name.len() > 0 && name[0] == '.' {
        lemma_after_last(name, '.', 1);
    } else {
        lemma_after_last(name, '.', 0);
    }
}

/// A path without file name has neither extension nor stem.
pub proof fn lemma_no_name_no_parts(path: Seq<char>)
    requires
        file_name(path) is None,
    ensures
        extension(path) is None,
        file_stem(path) is None,
{
}

} // verus!
