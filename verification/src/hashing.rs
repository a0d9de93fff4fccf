//! Incremental hashing that follows the manifest's declared algorithm: blake2b-256 or blake3.

use crate::text::same;
use blake2::digest::consts::U32;
use blake2::Blake2b;
use blake3::Hasher as Blake3State;
use digest::Digest;
use vstd::prelude::*;
use vstd::string::*;

verus! {

pub type Blake2b256 = Blake2b<U32>;

/// `blake3::Hasher`, the state of a BLAKE3 computation.
#[verifier::external_type_specification]
#[verifier::external_body]
pub struct ExBlake3State(Blake3State);

/// `blake2::Blake2b<U32>`, the state of a BLAKE2b computation with 32 bytes of output.
#[verifier::external_body]
pub struct Blake2bState {
    state: Blake2b256,
}

/// The bytes that a BLAKE3 state was fed.
pub uninterp spec fn blake3_input(h: Blake3State) -> Seq<u8>;

/// Whether a BLAKE3 state computes the regular hash function from its start: no key, no key
/// derivation, no offset into a longer input.
pub uninterp spec fn blake3_is_regular(h: Blake3State) -> bool;

/// The BLAKE3 hash of some bytes.
pub uninterp spec fn blake3_hash(data: Seq<u8>) -> Seq<u8>;

/// The bytes that a BLAKE2b state was fed.
pub uninterp spec fn blake2b_input(h: Blake2bState) -> Seq<u8>;

/// The BLAKE2b hash of some bytes, with 32 bytes of output.
pub uninterp spec fn blake2b_hash(data: Seq<u8>) -> Seq<u8>;

/// `blake3::Hasher::new`: a state for the regular hash function that was fed nothing.
#[verifier::external_body]
fn blake3_new() -> (r: Blake3State)
    ensures
        blake3_is_regular(r),
        blake3_input(r) == Seq::<u8>::empty(),
{
    Blake3State::new()
}

/// `blake3::Hasher::update`: feeds the state, whatever the pieces.
#[verifier::external_body]
fn blake3_update(h: &mut Blake3State, data: &[u8])
    requires
        blake3_is_regular(*old(h)),
    ensures
        blake3_is_regular(*final(h)),
        blake3_input(*final(h)) == blake3_input(*old(h)) + data@,
{
    h.update(data);
}

/// `blake3::Hasher::finalize`: the hash of what the state was fed.
#[verifier::external_body]
fn blake3_finalize(h: &Blake3State) -> (r: [u8; 32])
    requires
        blake3_is_regular(*h),
    ensures
        r@ == blake3_hash(blake3_input(*h)),
{
    *h.finalize().as_bytes()
}

/// `blake3::Hash::to_hex`: two lower-case digits for each byte.
#[verifier::external_body]
fn blake3_to_hex(digest: [u8; 32]) -> (r: String)
    ensures
        r@ == hex_text(digest@),
{
    blake3::Hash::from_bytes(digest).to_hex().to_string()
}

/// `digest::Digest::new` on `Blake2b<U32>`: a state that was fed nothing.
#[verifier::external_body]
fn blake2b_new() -> (r: Blake2bState)
    ensures
        blake2b_input(r) == Seq::<u8>::empty(),
{
    Blake2bState { state: Blake2b256::new() }
}

/// `digest::Digest::update` on `Blake2b<U32>`: feeds the state, whatever the pieces. The state
/// counts its input in 64 bits.
#[verifier::external_body]
fn blake2b_update(h: &mut Blake2bState, data: &[u8])
    requires
        blake2b_input(*old(h)).len() + data@.len() <= u64::MAX,
    ensures
        blake2b_input(*final(h)) == blake2b_input(*old(h)) + data@,
{
    Digest::update(&mut h.state, data);
}

/// `digest::Digest::finalize` on `Blake2b<U32>`: the hash of what the state was fed.
#[verifier::external_body]
fn blake2b_finalize(h: Blake2bState) -> (r: [u8; 32])
    ensures
        r@ == blake2b_hash(blake2b_input(h)),
{
    h.state.finalize().into()
}

/// `hex::encode`: two lower-case digits for each byte.
#[verifier::external_body]
fn hex_encode(digest: [u8; 32]) -> (r: String)
    ensures
        r@ == hex_text(digest@),
{
    hex::encode(digest)
}

/// A digit of a hexadecimal number, in lower case.
pub open spec fn hex_digit(d: int) -> char {
    if d < 10 {
        ('0' as int + d) as char
    } else {
        ('a' as int + (d - 10)) as char
    }
}

/// Bytes in hexadecimal: for each byte its high digit, then its low one.
pub open spec fn hex_text(bytes: Seq<u8>) -> Seq<char> {
    Seq::new(
        2 * bytes.len(),
        |i: int|
            hex_digit(
                if i % 2 == 0 {
                    bytes[i / 2] as int / 16
                } else {
                    bytes[i / 2] as int % 16
                },
            ),
    )
}

/// The hash algorithms.
#[derive(Debug, Clone, Copy, PartialEq, Eq, Structural)]
pub enum Algorithm {
    Blake3,
    Blake2b,
}

/// The algorithm that a manifest means by a name.
pub open spec fn algorithm_named(name: Seq<char>) -> Option<Algorithm> {
    if name == "blake3"@ {
        Some(Algorithm::Blake3)
    } else if name == "blake2b-256"@ {
        Some(Algorithm::Blake2b)
    } else {
        None
    }
}

/// The hash of some bytes, in hexadecimal.
pub open spec fn hash_text(algorithm: Algorithm, data: Seq<u8>) -> Seq<char> {
    match algorithm {
        Algorithm::Blake3 => hex_text(blake3_hash(data)),
        Algorithm::Blake2b => hex_text(blake2b_hash(data)),
    }
}

/// A manifest asks for an algorithm that is not known.
#[derive(Debug)]
pub struct UnsupportedAlgorithm {
    pub name: String,
}

impl UnsupportedAlgorithm {
    /// The error in words.
    pub fn message(&self) -> (r: String)
        ensures
            r@ == "unsupported hash_algo: "@ + self.name@,
    {
        "unsupported hash_algo: ".to_owned().concat(self.name.as_str())
    }
}

/// A hash computation.
pub enum Hasher {
    // Boxed: the BLAKE3 state is large; keeps the enum small.
    Blake3(Box<Blake3State>),
    Blake2b(Blake2bState),
}

impl Hasher {
    /// Which algorithm is computed.
    pub open spec fn algorithm(&self) -> Algorithm {
        match *self {
            Hasher::Blake3(_) => Algorithm::Blake3,
            Hasher::Blake2b(_) => Algorithm::Blake2b,
        }
    }

    /// What the hasher was fed.
    pub open spec fn input(&self) -> Seq<u8> {
        match *self {
            Hasher::Blake3(h) => blake3_input(*h),
            Hasher::Blake2b(h) => blake2b_input(h),
        }
    }

    /// Whether the hasher computes the plain hash of its input, as those from `new` do.
    pub open spec fn is_regular(&self) -> bool {
        match *self {
            Hasher::Blake3(h) => blake3_is_regular(*h),
            Hasher::Blake2b(_) => true,
        }
    }

    /// A hasher for the algorithm with this name.
    pub fn new(algo: &str) -> (r: Result<Self, UnsupportedAlgorithm>)
        ensures
            match r {
                Ok(h) => algorithm_named(algo@) == Some(h.algorithm()) && h.input() == Seq::<u8>::empty()
                    && h.is_regular(),
                Err(e) => algorithm_named(algo@) is None && e.name@ == algo@,
            },
    {
        if same(algo, "blake3") {
            Ok(Hasher::Blake3(Box::new(blake3_new())))
        } else if same(algo, "blake2b-256") {
            Ok(Hasher::Blake2b(blake2b_new()))
        } else {
            Err(UnsupportedAlgorithm { name: algo.to_owned() })
        }
    }

    /// Feeds the hasher.
    pub fn update(&mut self, data: &[u8])
        requires
            old(self).is_regular(),
            old(self).input().len() + data@.len() <= u64::MAX,
        ensures
            final(self).is_regular(),
            final(self).algorithm() == old(self).algorithm(),
            final(self).input() == old(self).input() + data@,
    {
        match self {
            Hasher::Blake3(h) => {
                blake3_update(&mut *h, data);
            },
            Hasher::Blake2b(h) => {
                blake2b_update(h, data);
            },
        }
    }

    /// The hash of what the hasher was fed, in hexadecimal.
    pub fn hex(self) -> (r: String)
        requires
            self.is_regular(),
        ensures
            r@ == hash_text(self.algorithm(), self.input()),
            r@.len() == 64,
    {
        match self {
            Hasher::Blake3(h) => blake3_to_hex(blake3_finalize(&*h)),
            Hasher::Blake2b(h) => hex_encode(blake2b_finalize(h)),
        }
    }
}

/// What a hasher was fed after some more pieces.
pub open spec fn fed(input: Seq<u8>, pieces: Seq<Seq<u8>>) -> Seq<u8>
    decreases pieces.len(),
{
    if pieces.len() == 0 {
        input
    } else {
        fed(input, pieces.drop_last()) + pieces.last()
    }
}

/// How data is cut into pieces does not matter for its hash: a file hashed as it arrives, or from
/// where an earlier attempt stopped, has the hash of the whole file.
pub proof fn law_pieces_do_not_matter(algorithm: Algorithm, pieces: Seq<Seq<u8>>, n: int)
    requires
        0 <= n <= pieces.len(),
    ensures
        hash_text(algorithm, fed(fed(Seq::empty(), pieces.take(n)), pieces.skip(n))) == hash_text(
            algorithm,
            pieces.flatten(),
        ),
{
    lemma_fed(Seq::empty(), pieces.take(n));
    lemma_fed(pieces.take(n).flatten(), pieces.skip(n));
    assert(Seq::<u8>::empty() + pieces.take(n).flatten() =~= pieces.take(n).flatten());
    vstd::seq_lib::lemma_flatten_concat(pieces.take(n), pieces.skip(n));
    assert(pieces.take(n) + pieces.skip(n) =~= pieces);
}

/// Feeding pieces is feeding them joined together.
pub proof fn lemma_fed(input: Seq<u8>, pieces: Seq<Seq<u8>>)
    ensures
        fed(input, pieces) == input + pieces.flatten(),
    decreases pieces.len(),
{
    if pieces.len() == 0 {
        assert(pieces.flatten() =~= Seq::empty());
        assert(input + pieces.flatten() =~= input);
    } else {
        lemma_fed(input, pieces.drop_last());
        pieces.lemma_flatten_and_flatten_alt_are_equivalent();
        pieces.drop_last().lemma_flatten_and_flatten_alt_are_equivalent();
        assert(pieces.flatten() =~= pieces.drop_last().flatten() + pieces.last());
        assert(input + pieces.flatten() =~= (input + pieces.drop_last().flatten()) + pieces.last());
    }
}

/// The algorithm is the manifest's: two names are known, each for one algorithm, and any other is an error that names it.
pub proof fn law_algorithm_is_the_manifests(algo: &str, hasher: Result<Hasher, UnsupportedAlgorithm>)
    requires
        call_ensures(Hasher::new, (algo,), hasher),
    ensures
        algo@ == "blake3"@ ==> (hasher matches Ok(h) && h.algorithm() is Blake3),
        algo@ == "blake2b-256"@ ==> (hasher matches Ok(h) && h.algorithm() is Blake2b),
        algo@ != "blake3"@ && algo@ != "blake2b-256"@ ==> (hasher matches Err(e) && e.name@ == algo@),
        hasher matches Ok(h) ==> h.input() == Seq::<u8>::empty(),
{
    reveal_strlit("blake3");
    reveal_strlit("blake2b-256");
    assert("blake3"@.len() != "blake2b-256"@.len());
}

/// The value of a hexadecimal digit.
pub open spec fn hex_value(c: char) -> int {
    if '0' <= c <= '9' {
        c as int - '0' as int
    } else {
        c as int - 'a' as int + 10
    }
}

/// Hexadecimal text has two lower-case digits for each byte, and stands for it: different bytes have different texts.
pub proof fn law_hex_stands_for_its_bytes(bytes: Seq<u8>, i: int)
    requires
        0 <= i < bytes.len(),
    ensures
        hex_text(bytes).len() == 2 * bytes.len(),
        16 * hex_value(hex_text(bytes)[2 * i]) + hex_value(hex_text(bytes)[2 * i + 1]) == bytes[i],
        '0' <= hex_text(bytes)[2 * i] <= '9' || 'a' <= hex_text(bytes)[2 * i] <= 'f',
        '0' <= hex_text(bytes)[2 * i + 1] <= '9' || 'a' <= hex_text(bytes)[2 * i + 1] <= 'f',
{
    let b = bytes[i] as int;
    assert((2 * i) / 2 == i && (2 * i) % 2 == 0);
    assert((2 * i + 1) / 2 == i && (2 * i + 1) % 2 == 1);
    assert(0 <= b / 16 < 16 && 0 <= b % 16 < 16);
}

/// The hash of a file is that of the algorithm that was asked for, over all of its bytes.
pub proof fn law_hash_is_of_the_input(hasher: Hasher, hex: String)
    requires
        hasher.is_regular(),
        call_ensures(Hasher::hex, (hasher,), hex),
    ensures
        hasher is Blake3 ==> hex@ == hex_text(blake3_hash(hasher.input())),
        hasher is Blake2b ==> hex@ == hex_text(blake2b_hash(hasher.input())),
        hex@.len() == 64,
{
}

/// A hasher takes in all of what it is fed, behind what it was fed before, and stays with its algorithm.
pub proof fn law_hasher_takes_in_everything(hasher: &mut Hasher, data: &[u8])
    requires
        call_ensures(Hasher::update, (hasher, data), ()),
    ensures
        final(hasher).input() == old(hasher).input() + data@,
        final(hasher).algorithm() == old(hasher).algorithm(),
{
}

} // verus!
