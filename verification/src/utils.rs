//! Helpers of the probe: identifier encoding, cached values, random
//! coordinates, distances in coordinate space, and the endpoint directory.

use vstd::prelude::*;

use crate::fixed::{clamp, is_root, isqrt, lemma_root_unique, SCALE};
use crate::types::ProbeError;

verus! {

/// The texts that a sequence of strings holds.
pub open spec fn texts(v: Seq<String>) -> Seq<Seq<char>> {
    v.map_values(|s: String| s@)
}

/// `texts` keeps the length and takes the text of each string.
pub proof fn lemma_texts(v: Seq<String>)
    ensures
        texts(v).len() == v.len(),
        forall|i: int| 0 <= i < v.len() ==> #[trigger] texts(v)[i] == v[i]@,
{
}

/// The first position at which a list of strings holds a text.
pub fn find_text(v: &Vec<String>, needle: &String) -> (r: Option<usize>)
    ensures
        match r {
            Some(i) => {
                &&& i < v@.len()
                &&& v@[i as int]@ == needle@
                &&& texts(v@).contains(needle@)
                &&& forall|j: int| 0 <= j < i ==> v@[j]@ != needle@
            },
            None => !texts(v@).contains(needle@),
        },
{
    proof {
        lemma_texts(v@);
    }
    let mut i: usize = 0;
    while i < v.len()
        invariant
            i <= v.len(),
            forall|j: int| 0 <= j < i ==> v@[j]@ != needle@,
        decreases v.len() - i,
    {
        if v[i] == *needle {
            assert(texts(v@)[i as int] == needle@);
            return Some(i);
        }
        i += 1;
    }
    None
}

/// The lowercase hexadecimal digit of a value below sixteen.
pub open spec fn hex_digit(n: int) -> char {
    if n < 10 {
        (48 + n) as u8 as char
    } else {
        (87 + n) as u8 as char
    }
}

/// The lowercase hexadecimal text of a byte string: two digits per byte,
/// the high half first.
pub open spec fn hex_text(data: Seq<u8>) -> Seq<char> {
    Seq::new(
        2 * data.len(),
        |i: int|
            hex_digit(
                if i % 2 == 0 {
                    data[i / 2] as int / 16
                } else {
                    data[i / 2] as int % 16
                },
            ),
    )
}

/// The number that a byte string holds, least significant byte first.
pub open spec fn le_value(bytes: Seq<u8>) -> nat
    decreases bytes.len(),
{
    if bytes.len() == 0 {
        0
    } else {
        bytes[0] as nat + 256 * le_value(bytes.drop_first())
    }
}

/// Calls `hex::encode`: the crate writes each byte as two characters of
/// `0123456789abcdef`, the high four bits first. Trusted.
#[verifier::external_body]
fn hex_encode(data: &Vec<u8>) -> (r: String)
    ensures
        r@ == hex_text(data@),
{
    hex::encode(data)
}

/// Calls `Decode::decode` of parity-scale-codec for `u64` on a byte slice:
/// the crate reads eight bytes, least significant first, and fails where
/// fewer are there; bytes behind the eighth are left unread. Trusted.
#[verifier::external_body]
fn scale_decode_u64(bytes: &Vec<u8>) -> (r: Option<u64>)
    ensures
        match r {
            Some(v) => bytes@.len() >= 8 && v == le_value(bytes@.subrange(0, 8)),
            None => bytes@.len() < 8,
        },
{
    let decoded: Result<u64, parity_scale_codec::Error> = parity_scale_codec::Decode::decode(
        &mut &bytes[..],
    );
    match decoded {
        Ok(v) => Some(v),
        Err(_) => None,
    }
}

/// Calls `Decode::decode` of parity-scale-codec for `u8` on a byte slice:
/// the crate hands back the first byte and fails on an empty slice. Trusted.
#[verifier::external_body]
fn scale_decode_u8(bytes: &Vec<u8>) -> (r: Option<u8>)
    ensures
        match r {
            Some(v) => bytes@.len() >= 1 && v == bytes@[0],
            None => bytes@.len() == 0,
        },
{
    let decoded: Result<u8, parity_scale_codec::Error> = parity_scale_codec::Decode::decode(
        &mut &bytes[..],
    );
    match decoded {
        Ok(v) => Some(v),
        Err(_) => None,
    }
}

/// Calls `Encode::encode` of parity-scale-codec for `u64`: the crate writes
/// the eight bytes of the number, least significant first. Trusted.
#[verifier::external_body]
fn scale_encode_u64(v: u64) -> (r: Vec<u8>)
    ensures
        r@.len() == 8,
        le_value(r@) == v,
{
    parity_scale_codec::Encode::encode(&v)
}

/// Calls `Rng::gen_range` of rand on the thread's generator with the range
/// from zero up to, and without, `bound`: whatever is drawn lies in that
/// range. The crate panics on an empty range, so the bound is positive.
/// Trusted.
#[verifier::external_body]
fn random_below(bound: i64) -> (r: i64)
    requires
        bound > 0,
    ensures
        0 <= r < bound,
{
    rand::Rng::gen_range(&mut rand::thread_rng(), 0..bound)
}

/// Calls `IteratorRandom::choose_multiple` of rand on the positions of
/// `ids`: the crate fills a reservoir with the first `amount` positions and
/// then overwrites slots with later ones, so what comes back are `amount`
/// positions of `ids`, none of them twice, in no promised order. Trusted.
#[verifier::external_body]
pub(crate) fn choose_positions(ids: &Vec<String>, amount: usize) -> (r: Vec<usize>)
    requires
        amount <= ids@.len(),
    ensures
        r@.len() == amount,
        forall|i: int| 0 <= i < r@.len() ==> r@[i] < ids@.len(),
        r@.no_duplicates(),
{
    rand::seq::IteratorRandom::choose_multiple(0..ids.len(), &mut rand::thread_rng(), amount)
}

/// The identifier of a public key: its lowercase hexadecimal text.
pub fn encode_public_key(public_key: &Vec<u8>) -> (r: String)
    ensures
        r@ == hex_text(public_key@),
{
    hex_encode(public_key)
}

/// A cached count: nothing where the cache lacks the key, the number that
/// the stored bytes encode where it holds it, and `DecodeFailed` where the
/// stored bytes are fewer than eight.
pub fn cache_get(stored: &Option<Vec<u8>>) -> (r: Result<Option<u64>, ProbeError>)
    ensures
        match *stored {
            None => r == Ok::<Option<u64>, ProbeError>(None),
            Some(bytes) => if bytes@.len() >= 8 {
                r == Ok::<Option<u64>, ProbeError>(
                    Some(le_value(bytes@.subrange(0, 8)) as u64),
                )
            } else {
                r == Err::<Option<u64>, ProbeError>(ProbeError::DecodeFailed)
            },
        },
{
    match stored {
        None => Ok(None),
        Some(bytes) => match scale_decode_u64(bytes) {
            Some(v) => Ok(Some(v)),
            None => Err(ProbeError::DecodeFailed),
        },
    }
}

/// A cached small count: as `cache_get`, for a value of one byte.
pub fn cache_get_byte(stored: &Option<Vec<u8>>) -> (r: Result<Option<u8>, ProbeError>)
    ensures
        match *stored {
            None => r == Ok::<Option<u8>, ProbeError>(None),
            Some(bytes) => if bytes@.len() >= 1 {
                r == Ok::<Option<u8>, ProbeError>(Some(bytes@[0]))
            } else {
                r == Err::<Option<u8>, ProbeError>(ProbeError::DecodeFailed)
            },
        },
{
    match stored {
        None => Ok(None),
        Some(bytes) => match scale_decode_u8(bytes) {
            Some(v) => Ok(Some(v)),
            None => Err(ProbeError::DecodeFailed),
        },
    }
}

/// The bytes under which the cache stores a count.
pub fn cache_value(v: u64) -> (r: Vec<u8>)
    ensures
        r@.len() == 8,
        le_value(r@) == v,
{
    scale_encode_u64(v)
}

/// A fresh coordinate vector of the given length, each component drawn
/// from the unit interval: at least zero and below one.
pub fn gen_random_vec(len: usize) -> (v: Vec<i64>)
    ensures
        v@.len() == len,
        forall|i: int| 0 <= i < v@.len() ==> 0 <= #[trigger] v@[i] < SCALE,
{
    let mut v: Vec<i64> = Vec::new();
    let mut i: usize = 0;
    while i < len
        invariant
            i <= len,
            v@.len() == i,
            forall|j: int| 0 <= j < v@.len() ==> 0 <= #[trigger] v@[j] < SCALE,
        decreases len - i,
    {
        let x: i64 = random_below(SCALE);
        v.push(x);
        i += 1;
    }
    v
}

/// The shorter of two lengths.
pub open spec fn common_len(a: Seq<i64>, b: Seq<i64>) -> nat {
    if a.len() <= b.len() {
        a.len()
    } else {
        b.len()
    }
}

/// The sum of the squared differences of the first `n` components.
pub open spec fn sum_squares(a: Seq<i64>, b: Seq<i64>, n: nat) -> int
    decreases n,
{
    if n == 0 {
        0
    } else {
        sum_squares(a, b, (n - 1) as nat) + (a[n - 1] - b[n - 1]) * (a[n - 1] - b[n - 1])
    }
}

/// The largest integer whose square does not exceed `x`.
pub open spec fn root(x: int) -> int {
    choose|r: int| is_root(x, r)
}

/// A sum of squares as the accumulator holds it: capped at 128 bits.
pub open spec fn capped(x: int) -> int {
    if x > u128::MAX {
        u128::MAX as int
    } else {
        x
    }
}

/// The Euclidean distance of two coordinate vectors over the components
/// that both have, rounded down to a billionth.
pub open spec fn spec_distance(a: Seq<i64>, b: Seq<i64>) -> int {
    clamp(root(capped(sum_squares(a, b, common_len(a, b)))))
}

/// A sum of squares is not negative.
pub proof fn lemma_sum_squares_nonnegative(a: Seq<i64>, b: Seq<i64>, n: nat)
    ensures
        sum_squares(a, b, n) >= 0,
    decreases n,
{
    if n > 0 {
        lemma_sum_squares_nonnegative(a, b, (n - 1) as nat);
        let d = a[n - 1] - b[n - 1];
        assert(d * d >= 0) by (nonlinear_arith);
    }
}

/// The sum of squared differences does not depend on the order of the two
/// vectors.
pub proof fn lemma_sum_squares_symmetric(a: Seq<i64>, b: Seq<i64>, n: nat)
    ensures
        sum_squares(a, b, n) == sum_squares(b, a, n),
    decreases n,
{
    if n > 0 {
        lemma_sum_squares_symmetric(a, b, (n - 1) as nat);
        let d = a[n - 1] - b[n - 1];
        let e = b[n - 1] - a[n - 1];
        assert(d * d == e * e) by (nonlinear_arith)
            requires
                e == -d,
        ;
    }
}

/// A vector has no squared difference to itself.
pub proof fn lemma_sum_squares_self(a: Seq<i64>, n: nat)
    ensures
        sum_squares(a, a, n) == 0,
    decreases n,
{
    if n > 0 {
        lemma_sum_squares_self(a, (n - 1) as nat);
    }
}

/// The distance is symmetric, and zero from a vector to itself.
pub proof fn lemma_distance(a: Seq<i64>, b: Seq<i64>)
    ensures
        spec_distance(a, b) == spec_distance(b, a),
        spec_distance(a, a) == 0,
        spec_distance(a, b) >= 0,
{
    lemma_sum_squares_symmetric(a, b, common_len(a, b));
    lemma_sum_squares_self(a, common_len(a, a));
    assert(is_root(0, 0));
    lemma_root_unique(0, 0, root(0));
    lemma_sum_squares_nonnegative(a, b, common_len(a, b));
    let x = capped(sum_squares(a, b, common_len(a, b)));
    lemma_root_exists(x);
}

/// Every natural number has a root.
pub proof fn lemma_root_exists(x: int)
    requires
        x >= 0,
    ensures
        is_root(x, root(x)),
    decreases x,
{
    if x == 0 {
        assert(is_root(0, 0));
    } else {
        lemma_root_exists(x - 1);
        let r = root(x - 1);
        if (r + 1) * (r + 1) <= x {
            assert((r + 2) * (r + 2) > (r + 1) * (r + 1)) by (nonlinear_arith)
                requires
                    r >= 0,
            ;
            assert(is_root(x, r + 1));
        } else {
            assert(is_root(x, r));
        }
    }
}

/// The Euclidean distance between two coordinate vectors.
pub fn euclidean_distance(a: &[i64], b: &[i64]) -> (r: i64)
    ensures
        r == spec_distance(a@, b@),
        r >= 0,
{
    let n: usize = if a.len() <= b.len() {
        a.len()
    } else {
        b.len()
    };
    let mut acc: u128 = 0;
    let mut i: usize = 0;
    while i < n
        invariant
            i <= n,
            n == common_len(a@, b@),
            acc == capped(sum_squares(a@, b@, i as nat)),
        decreases n - i,
    {
        let d: i128 = a[i] as i128 - b[i] as i128;
        proof {
            lemma_sum_squares_nonnegative(a@, b@, i as nat);
            assert(0 <= d * d <= 0xffff_ffff_ffff_ffff * 0xffff_ffff_ffff_ffff) by (nonlinear_arith)
                requires
                    -0xffff_ffff_ffff_ffff <= d <= 0xffff_ffff_ffff_ffff,
            ;
        }
        let magnitude: u128 = if d < 0 {
            (-d) as u128
        } else {
            d as u128
        };
        proof {
            assert(magnitude * magnitude == d * d) by (nonlinear_arith)
                requires
                    magnitude == d || magnitude == -d,
            ;
        }
        let square: u128 = magnitude * magnitude;
        if square > u128::MAX - acc {
            acc = u128::MAX;
        } else {
            acc = acc + square;
        }
        i += 1;
    }
    let r: u64 = isqrt(acc);
    proof {
        let x = capped(sum_squares(a@, b@, common_len(a@, b@)));
        assert(is_root(x, r as int));
        lemma_root_unique(x, r as int, root(x));
    }
    if r > 0x7fff_ffff_ffff_ffff {
        i64::MAX
    } else {
        r as i64
    }
}

/// The identifiers that the directory knows: seven zeros and a digit from
/// zero to seven.
pub open spec fn known_id(id: Seq<char>) -> bool {
    &&& id.len() == 8
    &&& forall|i: int| 0 <= i < 7 ==> id[i] == '0'
    &&& 48 <= id[7] as u32 <= 55
}

/// The endpoints that the directory lists for an identifier: one, on the
/// local host, at the port 2000 plus the identifier's last digit.
pub open spec fn directory(id: Seq<char>) -> Option<Seq<Seq<char>>> {
    if known_id(id) {
        Some(seq!["127.0.0.1:200"@ + seq![id[7]]])
    } else {
        None
    }
}

/// Looks an identifier up in the directory: its endpoints, or
/// `DirectoryLookupFailed` for an identifier that the directory does not know.
pub fn get_address_by_id(peer_id: &str) -> (r: Result<Vec<String>, ProbeError>)
    ensures
        match r {
            Ok(v) => directory(peer_id@) == Some(texts(v@)),
            Err(e) => e == ProbeError::DirectoryLookupFailed && directory(peer_id@) is None,
        },
{
    if peer_id.unicode_len() != 8 {
        return Err(ProbeError::DirectoryLookupFailed);
    }
    let mut i: usize = 0;
    while i < 7
        invariant
            i <= 7,
            peer_id@.len() == 8,
            forall|j: int| 0 <= j < i ==> peer_id@[j] == '0',
        decreases 7 - i,
    {
        if peer_id.get_char(i) != '0' {
            return Err(ProbeError::DirectoryLookupFailed);
        }
        i += 1;
    }
    let last: u32 = peer_id.get_char(7) as u32;
    if last < 48 || last > 55 {
        return Err(ProbeError::DirectoryLookupFailed);
    }
    let mut endpoint: String = String::from_str("127.0.0.1:200");
    endpoint.append(peer_id.substring_char(7, 8));
    let mut endpoints: Vec<String> = Vec::new();
    endpoints.push(endpoint);
    proof {
        assert(peer_id@.subrange(7, 8) =~= seq![peer_id@[7]]);
        assert(texts(endpoints@) =~= seq!["127.0.0.1:200"@ + seq![peer_id@[7]]]);
    }
    Ok(endpoints)
}

} // verus!
