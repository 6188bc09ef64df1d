//! Stateless proof-of-work challenges.
//!
//! A token is `random || expiry || mac(random || expiry)` in hexadecimal. The
//! client finds a nonce such that the SHA-256 of `token.nonce` begins with
//! enough zero bits, and sends token and nonce back.

use vstd::prelude::*;
use vstd::string::*;
use vstd::utf8::*;

use crate::bytes;
use crate::bytes::{copy_range, extend, from_be, same_bytes, to_be};
use crate::util;
use crate::util::{hex_decode, hex_encode};

verus! {

pub const RANDOM_LEN: usize = 16;

pub const EXPIRY_LEN: usize = 8;

pub const MAC_LEN: usize = 32;

pub const TOKEN_LEN: usize = RANDOM_LEN + EXPIRY_LEN + MAC_LEN;

/// The BLAKE3 keyed hash of some bytes.
pub uninterp spec fn keyed_blake3(key: Seq<u8>, data: Seq<u8>) -> Seq<u8>;

/// `blake3::keyed_hash`: the 32 bytes of the keyed hash, which depend on the
/// key and the input alone.
#[verifier::external_body]
fn keyed_hash(key: &[u8; 32], data: &[u8]) -> (r: [u8; 32])
    ensures
        r@ == keyed_blake3(key@, data@),
{
    *blake3::keyed_hash(key, data).as_bytes()
}

/// The SHA-256 digest of some bytes.
pub uninterp spec fn sha256(data: Seq<u8>) -> Seq<u8>;

/// `sha2::Sha256::digest`: the 32 bytes of the digest, which depend on the
/// input alone.
#[verifier::external_body]
fn sha256_digest(data: &[u8]) -> (r: [u8; 32])
    ensures
        r@ == sha256(data@),
{
    <sha2::Sha256 as sha2::Digest>::digest(data).into()
}

/// `fill_bytes` on `rand::rng()`: claims nothing of the bytes, which are
/// random. It panics where the system cannot seed the generator.
#[verifier::external_body]
fn fill_random<const N: usize>(out: &mut [u8; N]) {
    rand::Rng::fill_bytes(&mut rand::rng(), out);
}

/// `SystemTime::now` as whole seconds since the Unix epoch; `None` while the
/// clock stands before it. Nothing is known of the time.
#[verifier::external_body]
fn clock_seconds() -> (r: Option<u64>) {
    std::time::SystemTime::now().duration_since(std::time::UNIX_EPOCH).ok().map(|d| d.as_secs())
}

/// The current time in whole seconds since the Unix epoch; `None` while the
/// clock stands before it.
pub fn now() -> (r: Option<u64>) {
    clock_seconds()
}

/// Lower-case hexadecimal text of some bytes.
pub fn to_hex(data: &[u8]) -> (r: String)
    ensures
        r@ == util::hex_text(data@),
{
    hex_encode(data)
}

/// The bytes that a hexadecimal text denotes, if it is one.
pub fn from_hex(s: &str) -> (r: Option<Vec<u8>>)
    ensures
        r is Some == util::is_hex(s@),
        r matches Some(v) ==> v@ == util::hex_bytes(s@),
{
    hex_decode(s)
}

/// The number of zero bits before the first one bit; all of them where there
/// is no one bit.
pub open spec fn zero_bits(data: Seq<u8>) -> nat
    decreases data.len(),
{
    if data.len() == 0 {
        0
    } else if data[0] == 0 {
        8 + zero_bits(data.skip(1))
    } else {
        vstd::std_specs::bits::u8_leading_zeros(data[0]) as nat
    }
}

/// There are never more leading zero bits than bits.
pub proof fn lemma_zero_bits_bound(data: Seq<u8>)
    ensures
        zero_bits(data) <= 8 * data.len(),
    decreases data.len(),
{
    broadcast use vstd::std_specs::bits::axiom_u8_leading_zeros;

    if data.len() > 0 && data[0] == 0 {
        lemma_zero_bits_bound(data.skip(1));
    }
}

/// Counts the zero bits before the first one bit.
pub fn leading_zero_bits(data: &[u8]) -> (r: u32)
    requires
        8 * data@.len() <= u32::MAX,
    ensures
        r == zero_bits(data@),
{
    broadcast use vstd::std_specs::bits::axiom_u8_leading_zeros;

    let n: usize = data.len();
    let mut count: u32 = 0;
    let mut i: usize = 0;
    assert(data@.skip(0) =~= data@);
    while i < n && data[i] == 0
        invariant
            n == data@.len(),
            8 * n <= u32::MAX,
            i <= n,
            count == 8 * i,
            zero_bits(data@) == count + zero_bits(data@.skip(i as int)),
        decreases n - i,
    {
        assert(data@.skip(i as int).skip(1) =~= data@.skip(i + 1));
        count += 8;
        i += 1;
    }
    if i < n {
        assert(data@.skip(i as int)[0] == data@[i as int]);
        count += data[i].leading_zeros();
    }
    count
}

/// What a token vouches for: its random part and its expiry.
pub open spec fn signed_part(rnd: Seq<u8>, expiry: u64) -> Seq<u8> {
    rnd + bytes::be_bytes(expiry as nat, 8)
}

/// The bytes of a token.
pub open spec fn token_bytes(key: Seq<u8>, rnd: Seq<u8>, expiry: u64) -> Seq<u8> {
    signed_part(rnd, expiry) + keyed_blake3(key, signed_part(rnd, expiry))
}

/// The text of a token.
pub open spec fn token_text(key: Seq<u8>, rnd: Seq<u8>, expiry: u64) -> Seq<char> {
    util::hex_text(token_bytes(key, rnd, expiry))
}

/// The token is hexadecimal, of the right length, and its last part is the
/// keyed hash of the rest.
pub open spec fn genuine(key: Seq<u8>, token: Seq<char>) -> bool {
    let data = util::hex_bytes(token);
    &&& util::is_hex(token)
    &&& data.len() == TOKEN_LEN
    &&& data.skip(24) == keyed_blake3(key, data.take(24))
}

/// The expiry that a token carries.
pub open spec fn token_expiry(token: Seq<char>) -> nat {
    bytes::be_value(util::hex_bytes(token).subrange(16, 24))
}

/// The text whose digest has to begin with zero bits.
pub open spec fn puzzle(token: Seq<char>, nonce: Seq<char>) -> Seq<char> {
    token.push('.') + nonce
}

/// From this difficulty on no nonce counts as a solution: it is the number of
/// bits of the digest.
pub const UNSOLVABLE: u32 = 256;

/// The nonce solves the token's puzzle.
pub open spec fn solves(token: Seq<char>, nonce: Seq<char>, difficulty: u32) -> bool {
    difficulty < UNSOLVABLE && zero_bits(sha256(encode_utf8(puzzle(token, nonce)))) >= difficulty
}

/// What is asked of a token and its nonce at a given time.
pub open spec fn accepts(
    key: Seq<u8>,
    token: Seq<char>,
    nonce: Seq<char>,
    difficulty: u32,
    time: u64,
) -> bool {
    &&& genuine(key, token)
    &&& time <= token_expiry(token)
    &&& solves(token, nonce, difficulty)
}

/// The same of what the clock read; an unreadable clock accepts nothing.
pub open spec fn accepts_on(
    key: Seq<u8>,
    token: Seq<char>,
    nonce: Seq<char>,
    difficulty: u32,
    reading: Option<u64>,
) -> bool {
    match reading {
        Some(time) => accepts(key, token, nonce, difficulty, time),
        None => false,
    }
}

/// A token that was issued is genuine and carries its expiry.
proof fn lemma_issued_token(key: Seq<u8>, rnd: Seq<u8>, expiry: u64)
    requires
        rnd.len() == RANDOM_LEN,
        keyed_blake3(key, signed_part(rnd, expiry)).len() == MAC_LEN,
    ensures
        genuine(key, token_text(key, rnd, expiry)),
        token_expiry(token_text(key, rnd, expiry)) == expiry,
{
    let data = token_bytes(key, rnd, expiry);
    util::lemma_hex_round_trip(data);
    bytes::lemma_u64_bytes(expiry);
    assert(data.take(24) =~= signed_part(rnd, expiry));
    assert(data.skip(24) =~= keyed_blake3(key, signed_part(rnd, expiry)));
    assert(data.subrange(16, 24) =~= bytes::be_bytes(expiry as nat, 8));
}

/// Issues and checks challenges. The key lives only in memory, so a restart
/// invalidates outstanding challenges.
pub struct PowSecret {
    key: [u8; 32],
}

impl PowSecret {
    /// The secret's key.
    pub closed spec fn key(&self) -> Seq<u8> {
        self.key@
    }

    /// A secret with a given key.
    pub fn from_key(key: [u8; 32]) -> (r: Self)
        ensures
            r.key() == key@,
    {
        PowSecret { key }
    }

    /// A secret with a random key.
    pub fn generate() -> (r: Self)
        ensures
            r.key().len() == 32,
    {
        let mut key: [u8; 32] = [0u8; 32];
        fill_random(&mut key);
        PowSecret::from_key(key)
    }

    /// The token for given random bytes that expires `ttl_seconds` after
    /// `time`; `None` where that time cannot be written down. Until it
    /// expires, any nonce solves the token at difficulty zero.
    pub fn issue_at(&self, rnd: &[u8], time: u64, ttl_seconds: u64) -> (r: Option<String>)
        requires
            rnd@.len() == RANDOM_LEN,
        ensures
            r is Some == (time + ttl_seconds <= u64::MAX),
            r matches Some(t) ==> {
                &&& t@ == token_text(self.key(), rnd@, (time + ttl_seconds) as u64)
                &&& forall|nonce: Seq<char>, later: u64|
                    later <= time + ttl_seconds ==> accepts(
                        self.key(),
                        t@,
                        nonce,
                        0,
                        later,
                    )
            },
    {
        let expiry: u64 = match time.checked_add(ttl_seconds) {
            Some(e) => e,
            None => {
                return None;
            },
        };
        let mut token = copy_range(rnd, 0, rnd.len());
        let stamp = to_be(expiry as u128, EXPIRY_LEN);
        extend(&mut token, stamp.as_slice());
        assert(token@ =~= signed_part(rnd@, expiry));
        let mac = keyed_hash(&self.key, token.as_slice());
        extend(&mut token, mac.as_slice());
        assert(token@ =~= token_bytes(self.key(), rnd@, expiry));
        proof {
            assert(mac@.len() == 32);
            lemma_issued_token(self.key(), rnd@, expiry);
        }
        Some(to_hex(token.as_slice()))
    }

    /// A fresh token that expires after `ttl_seconds`; `None` where the clock
    /// cannot be read or the expiry cannot be written down.
    pub fn issue(&self, ttl_seconds: u64) -> (r: Option<String>)
        ensures
            r matches Some(t) ==> exists|rnd: Seq<u8>, time: u64|
                {
                    &&& rnd.len() == RANDOM_LEN
                    &&& time + ttl_seconds <= u64::MAX
                    &&& t@ == #[trigger] token_text(self.key(), rnd, (time + ttl_seconds) as u64)
                    &&& forall|nonce: Seq<char>, later: u64|
                        later <= time + ttl_seconds ==> accepts(self.key(), t@, nonce, 0, later)
                },
    {
        let mut rnd: [u8; 16] = [0u8; 16];
        fill_random(&mut rnd);
        self.issue_on(rnd.as_slice(), now(), ttl_seconds)
    }

    /// The token for given random bytes and what the clock read; `None` where
    /// it could not be read or the expiry cannot be written down.
    pub fn issue_on(&self, rnd: &[u8], reading: Option<u64>, ttl_seconds: u64) -> (r: Option<
        String,
    >)
        requires
            rnd@.len() == RANDOM_LEN,
        ensures
            r is Some == (reading matches Some(time) && time + ttl_seconds <= u64::MAX),
            r matches Some(t) ==> {
                let expiry = (reading->Some_0 + ttl_seconds) as u64;
                &&& t@ == token_text(self.key(), rnd@, expiry)
                &&& forall|nonce: Seq<char>, later: u64|
                    later <= expiry ==> accepts(self.key(), t@, nonce, 0, later)
            },
    {
        match reading {
            Some(time) => self.issue_at(rnd, time, ttl_seconds),
            None => None,
        }
    }

    /// Checks at a given time that a token is genuine and unexpired and that
    /// the nonce solves it. No nonce solves a token at a difficulty of as many
    /// bits as the digest has.
    pub fn verify_at(&self, token: &str, nonce: &str, difficulty: u32, time: u64) -> (r: bool)
        ensures
            r == accepts(self.key(), token@, nonce@, difficulty, time),
            difficulty >= UNSOLVABLE ==> !r,
    {
        let data = match from_hex(token) {
            Some(d) => d,
            None => {
                return false;
            },
        };
        if data.len() != TOKEN_LEN {
            return false;
        }
        let signed = copy_range(data.as_slice(), 0, RANDOM_LEN + EXPIRY_LEN);
        let mac = copy_range(data.as_slice(), RANDOM_LEN + EXPIRY_LEN, TOKEN_LEN);
        let expected = keyed_hash(&self.key, signed.as_slice());
        assert(signed@ =~= data@.take(24));
        assert(mac@ =~= data@.skip(24));
        if !same_bytes(expected.as_slice(), mac.as_slice()) {
            return false;
        }
        let stamp = copy_range(data.as_slice(), RANDOM_LEN, RANDOM_LEN + EXPIRY_LEN);
        proof {
            bytes::lemma_be_value_bound(stamp@);
            bytes::lemma_byte_ranges();
        }
        let expiry: u64 = from_be(stamp.as_slice()) as u64;
        if time > expiry || difficulty >= UNSOLVABLE {
            return false;
        }
        let mut text = token.to_owned();
        text.push('.');
        text.append(nonce);
        assert(text@ =~= puzzle(token@, nonce@));
        let digest = sha256_digest(text.as_str().as_bytes());
        leading_zero_bits(digest.as_slice()) >= difficulty
    }

    /// Checks a token and its nonce now; a clock that cannot be read accepts
    /// nothing.
    pub fn verify(&self, token: &str, nonce: &str, difficulty: u32) -> (r: bool)
        ensures
            exists|reading: Option<u64>|
                r == #[trigger] accepts_on(self.key(), token@, nonce@, difficulty, reading),
            !genuine(self.key(), token@) ==> !r,
            !solves(token@, nonce@, difficulty) ==> !r,
            difficulty >= UNSOLVABLE ==> !r,
    {
        let reading = now();
        let accepted = match reading {
            Some(time) => self.verify_at(token, nonce, difficulty, time),
            None => false,
        };
        assert(accepted == accepts_on(self.key(), token@, nonce@, difficulty, reading));
        accepted
    }
}

/// A token is refused once its expiry has passed, whatever the nonce.
pub proof fn lemma_expired_token_refused(
    key: Seq<u8>,
    token: Seq<char>,
    nonce: Seq<char>,
    difficulty: u32,
    time: u64,
)
    requires
        time > token_expiry(token),
    ensures
        !accepts(key, token, nonce, difficulty, time),
{
}

/// The zero bits of some bytes are eight for each zero byte at their front and
/// those at the front of the first other byte; the bytes behind it do not
/// count.
pub proof fn lemma_counting_zero_bits(data: Seq<u8>, k: int)
    requires
        0 <= k <= data.len(),
        forall|i: int| 0 <= i < k ==> #[trigger] data[i] == 0,
    ensures
        k == data.len() ==> zero_bits(data) == 8 * k,
        k < data.len() && data[k] >= 128 ==> zero_bits(data) == 8 * k,
        k < data.len() && data[k] > 0 ==> 8 * k <= zero_bits(data) < 8 * k + 8,
        k < data.len() && data[k] > 0 ==> zero_bits(data) == 8 * k
            + vstd::std_specs::bits::u8_leading_zeros(data[k]),
    decreases k,
{
    broadcast use vstd::std_specs::bits::axiom_u8_leading_zeros;

    if k > 0 {
        assert(data[0] == 0);
        let rest = data.skip(1);
        assert forall|i: int| 0 <= i < k - 1 implies #[trigger] rest[i] == 0 by {
            assert(rest[i] == data[i + 1]);
        }
        lemma_counting_zero_bits(rest, k - 1);
        if k < data.len() {
            assert(rest[k - 1] == data[k]);
        }
    } else if data.len() > 0 && data[0] >= 128 {
        let b = data[0];
        let z = vstd::std_specs::bits::u8_leading_zeros(b);
        if z > 0 {
            let j: u8 = 7;
            assert((b >> j) & 1u8 == 0u8);
            assert(b >= 128 && j == 7 ==> (b >> j) & 1u8 == 1u8) by (bit_vector);
        }
    }
}

/// What a token and a nonce must be to be accepted: the token was signed with
/// the key and has not expired, and the digest of `token.nonce` begins with as
/// many zero bits as asked for, which is less than all of them.
pub proof fn lemma_what_is_accepted(
    key: Seq<u8>,
    token: Seq<char>,
    nonce: Seq<char>,
    difficulty: u32,
    time: u64,
)
    ensures
        accepts(key, token, nonce, difficulty, time) <==> {
            let data = util::hex_bytes(token);
            &&& util::is_hex(token)
            &&& data.len() == 56
            &&& data.subrange(24, 56) == keyed_blake3(key, data.subrange(0, 24))
            &&& time <= bytes::be_value(data.subrange(16, 24))
            &&& difficulty < 256
            &&& zero_bits(sha256(encode_utf8(token + seq!['.'] + nonce))) >= difficulty
        },
{
    let data = util::hex_bytes(token);
    assert(token.push('.') + nonce =~= token + seq!['.'] + nonce);
    if data.len() == 56 {
        assert(data.subrange(24, 56) =~= data.skip(24));
        assert(data.subrange(0, 24) =~= data.take(24));
    }
}

/// What solves a harder puzzle solves an easier one, and what is accepted at
/// some time was accepted before; a clock that cannot be read accepts nothing.
pub proof fn lemma_acceptance_is_monotone(
    key: Seq<u8>,
    token: Seq<char>,
    nonce: Seq<char>,
    easy: u32,
    hard: u32,
    early: u64,
    late: u64,
)
    requires
        easy <= hard,
        early <= late,
    ensures
        accepts(key, token, nonce, hard, late) ==> accepts(key, token, nonce, easy, early),
        accepts_on(key, token, nonce, hard, Some(late)) == accepts(key, token, nonce, hard, late),
        !accepts_on(key, token, nonce, easy, None),
        hard >= 256 ==> !accepts(key, token, nonce, hard, late),
{
}

/// A token that was issued is accepted until it expires, and only then, with a
/// nonce that solves it: it says its random bytes and its expiry, and is
/// signed with the key.
pub proof fn lemma_issued_token_is_accepted(
    key: Seq<u8>,
    rnd: Seq<u8>,
    expiry: u64,
    nonce: Seq<char>,
    difficulty: u32,
    time: u64,
)
    requires
        rnd.len() == 16,
        keyed_blake3(key, signed_part(rnd, expiry)).len() == 32,
    ensures
        ({
            let token = token_text(key, rnd, expiry);
            let data = util::hex_bytes(token);
            &&& token.len() == 112
            &&& data.subrange(0, 16) == rnd
            &&& bytes::be_value(data.subrange(16, 24)) == expiry
            &&& accepts(key, token, nonce, difficulty, time) <==> time <= expiry && solves(
                token,
                nonce,
                difficulty,
            )
        }),
{
    let data = token_bytes(key, rnd, expiry);
    lemma_issued_token(key, rnd, expiry);
    util::lemma_hex_round_trip(data);
    bytes::lemma_u64_bytes(expiry);
    assert(data.subrange(0, 16) =~= rnd);
    assert(data.subrange(16, 24) =~= bytes::be_bytes(expiry as nat, 8));
}

} // verus!
