//! Upload ids and where their files are kept.

use vstd::prelude::*;
use vstd::string::*;

use crate::bytes;
use crate::text;
use crate::text::chars_of;
use crate::util;

verus! {

/// The text of an id: its 32 hexadecimal digits in groups of 8, 4, 4, 4
/// and 12.
pub open spec fn id_text(id: u128) -> Seq<char> {
    let h = util::hex_text(bytes::be_bytes(id as nat, 16));
    h.subrange(0, 8) + seq!['-'] + h.subrange(8, 12) + seq!['-'] + h.subrange(12, 16) + seq!['-']
        + h.subrange(16, 20) + seq!['-'] + h.subrange(20, 32)
}

/// `uuid::Uuid`'s `Display`: claims that it writes the hyphenated lower case
/// form.
#[verifier::external_body]
fn write_id(id: u128) -> (r: String)
    ensures
        r@ == id_text(id),
{
    uuid::Uuid::from_u128(id).to_string()
}

/// Writes an id.
pub fn id_string(id: u128) -> (r: String)
    ensures
        r@ == id_text(id),
{
    write_id(id)
}

/// The id that a text denotes.
pub uninterp spec fn id_value(s: Seq<char>) -> Option<u128>;

/// `uuid::Uuid::parse_str`: claims that the outcome depends on the text
/// alone, and that the hyphenated form of an id gives back the id.
#[verifier::external_body]
fn read_id(s: &str) -> (r: Option<u128>)
    ensures
        r == id_value(s@),
        forall|id: u128| s@ == #[trigger] id_text(id) ==> r == Some(id),
{
    uuid::Uuid::parse_str(s).ok().map(|u| u.as_u128())
}

/// Reads an id. The text of an id gives back the id.
pub fn parse_id(s: &str) -> (r: Option<u128>)
    ensures
        r == id_value(s@),
        forall|id: u128| s@ == #[trigger] id_text(id) ==> r == Some(id),
{
    read_id(s)
}

/// The id is a random one: version 4 of the standard variant.
pub open spec fn is_random_id(id: u128) -> bool {
    (id >> 76) & 0xf == 4 && (id >> 62) & 0x3 == 2
}

/// `uuid::Uuid::new_v4`: claims only the version and variant bits that it
/// sets. It panics where the system gives no random bytes.
#[verifier::external_body]
pub(crate) fn draw_id() -> (r: u128)
    ensures
        is_random_id(r),
{
    uuid::Uuid::new_v4().as_u128()
}

/// A path followed by one more component.
pub open spec fn path_join(root: Seq<char>, part: Seq<char>) -> Seq<char> {
    if root.len() == 0 || root.last() == '/' {
        root + part
    } else {
        root + seq!['/'] + part
    }
}

/// Where the file of an upload is kept: in a folder named by the first 16
/// bits of its id.
pub open spec fn store_path(root: Seq<char>, id: u128) -> Seq<char> {
    path_join(store_folder(root, id), id_text(id))
}

/// The folder that holds the file of an upload.
pub open spec fn store_folder(root: Seq<char>, id: u128) -> Seq<char> {
    path_join(root, id_text(id).subrange(0, 4))
}

/// A path followed by one more component.
pub fn join_path(root: &str, part: &str) -> (r: String)
    ensures
        r@ == path_join(root@, part@),
{
    let chars = chars_of(root);
    let n: usize = chars.len();
    let mut out = root.to_owned();
    if n > 0 && chars[n - 1] != '/' {
        out.push('/');
        assert(out@ =~= root@ + seq!['/']);
    }
    out.append(part);
    out
}

/// The folder that holds the file of an upload.
pub fn id_folder(root: &str, id: u128) -> (r: String)
    ensures
        r@ == store_folder(root@, id),
{
    let name = id_string(id);
    let chars = chars_of(name.as_str());
    proof {
        lemma_id_text(id);
    }
    let folder = text::text_of(vstd::slice::slice_subrange(chars.as_slice(), 0, 4));
    join_path(root, folder.as_str())
}

/// Where the file of an upload is kept.
pub fn uuid_to_path(root: &str, id: u128) -> (r: String)
    ensures
        r@ == store_path(root@, id),
{
    let folder = id_folder(root, id);
    let name = id_string(id);
    join_path(folder.as_str(), name.as_str())
}

proof fn lemma_id_text(id: u128)
    ensures
        id_text(id).len() == 36,
        bytes::be_bytes(id as nat, 16).len() == 16,
        bytes::be_value(bytes::be_bytes(id as nat, 16)) == id,
        util::hex_text(bytes::be_bytes(id as nat, 16)).len() == 32,
{
    bytes::lemma_byte_ranges();
    bytes::lemma_be_round_trip(id as nat, 16);
}

/// Two ids never share a text.
pub proof fn lemma_id_text_injective(a: u128, b: u128)
    requires
        id_text(a) == id_text(b),
    ensures
        a == b,
{
    lemma_id_text(a);
    lemma_id_text(b);
    let x = bytes::be_bytes(a as nat, 16);
    let y = bytes::be_bytes(b as nat, 16);
    let h = util::hex_text(x);
    let g = util::hex_text(y);
    let s = id_text(a);
    let t = id_text(b);
    assert forall|i: int| 0 <= i < 32 implies h[i] == g[i] by {
        let k = if i < 8 {
            i
        } else if i < 12 {
            i + 1
        } else if i < 16 {
            i + 2
        } else if i < 20 {
            i + 3
        } else {
            i + 4
        };
        assert(s[k] == h[i]);
        assert(t[k] == g[i]);
    }
    assert(h =~= g);
    util::lemma_hex_round_trip(x);
    util::lemma_hex_round_trip(y);
}

/// The files of two uploads never share a path.
pub proof fn lemma_store_path_injective(root: Seq<char>, a: u128, b: u128)
    requires
        store_path(root, a) == store_path(root, b),
    ensures
        a == b,
{
    lemma_id_text(a);
    lemma_id_text(b);
    lemma_join_keeps_part(store_folder(root, a), id_text(a));
    lemma_join_keeps_part(store_folder(root, b), id_text(b));
    lemma_id_text_injective(a, b);
}

proof fn lemma_join_keeps_part(root: Seq<char>, part: Seq<char>)
    ensures
        path_join(root, part).len() >= part.len(),
        path_join(root, part).skip(path_join(root, part).len() - part.len()) == part,
{
    let p = path_join(root, part);
    assert(p.skip(p.len() - part.len()) =~= part);
}

/// The text of an id has hyphens at four places and lower case digits at all
/// others.
pub proof fn lemma_id_text_form(id: u128, i: int)
    requires
        0 <= i < 36,
    ensures
        id_text(id).len() == 36,
        i == 8 || i == 13 || i == 18 || i == 23 ==> id_text(id)[i] == '-',
        i != 8 && i != 13 && i != 18 && i != 23 ==> util::is_lower_digit(id_text(id)[i]),
{
    lemma_id_text(id);
    let b = bytes::be_bytes(id as nat, 16);
    let h = util::hex_text(b);
    util::lemma_hex_text_is_lower_case(b);
    let s = id_text(id);
    let k = if i < 8 {
        i
    } else if i < 13 {
        i - 1
    } else if i < 18 {
        i - 2
    } else if i < 23 {
        i - 3
    } else {
        i - 4
    };
    if i != 8 && i != 13 && i != 18 && i != 23 {
        assert(s[i] == h[k]);
        assert(util::is_lower_digit(h[k]));
    }
}

/// A path is followed by one more component with one slash between them, and
/// without one where the path is empty or ends in one already.
pub proof fn lemma_one_slash_between(root: Seq<char>, part: Seq<char>)
    ensures
        path_join(Seq::empty(), part) == part,
        path_join(root.push('/'), part) == root.push('/') + part,
        root.len() > 0 && root.last() != '/' ==> path_join(root, part) == root.push('/') + part,
        root.is_prefix_of(path_join(root, part)),
{
    assert(path_join(Seq::empty(), part) =~= part);
    assert(root.push('/').last() == '/');
    assert(path_join(root, part).subrange(0, root.len() as int) =~= root);
    if root.len() > 0 && root.last() != '/' {
        assert(path_join(root, part) =~= root.push('/') + part);
    }
}

/// The file of an upload stands in the folder of its first four digits, under
/// its whole id.
pub proof fn lemma_where_a_file_stands(root: Seq<char>, id: u128)
    requires
        root.len() > 0,
        root.last() != '/',
    ensures
        store_folder(root, id) == root.push('/') + id_text(id).take(4),
        store_path(root, id) == root.push('/') + id_text(id).take(4) + seq!['/'] + id_text(id),
{
    lemma_id_text(id);
    let short = id_text(id).take(4);
    assert(short =~= id_text(id).subrange(0, 4));
    lemma_one_slash_between(root, short);
    let folder = store_folder(root, id);
    lemma_id_text_form(id, 3);
    assert(folder.last() == id_text(id)[3]);
    assert(folder.last() != '/');
    assert(store_path(root, id) =~= root.push('/') + short + seq!['/'] + id_text(id));
}

} // verus!
