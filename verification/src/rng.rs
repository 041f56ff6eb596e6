//! Deterministic, hierarchical random streams.
//!
//! Every random component draws from its own stream, seeded by a node of a seed tree:
//! `root.child("map").child("wild").child_index(tile)`. A stream depends on its seed alone, so
//! results do not depend on how many streams exist or on which thread draws from them. Sampling
//! is implemented here, on top of the words of a ChaCha8 stream.

use rand_chacha::ChaCha8Rng;
use rand_core::{Rng, SeedableRng};
use vstd::prelude::*;

use crate::fraction;
use crate::ieee;

verus! {

/// What BLAKE3 derives from key material in a context.
pub uninterp spec fn blake3_derived(context: Seq<char>, material: Seq<u8>) -> Seq<u8>;

/// The keyed BLAKE3 hash of an input.
pub uninterp spec fn blake3_keyed(key: Seq<u8>, input: Seq<u8>) -> Seq<u8>;

/// Word `i` of the ChaCha8 stream with this seed and stream number 0.
pub uninterp spec fn chacha8_word(seed: Seq<u8>, i: nat) -> u32;

/// The seed that a generator was made from.
pub uninterp spec fn stream_seed(r: ChaCha8Rng) -> Seq<u8>;

/// How many words have been taken from a generator since it was made.
pub uninterp spec fn words_taken(r: ChaCha8Rng) -> nat;

/// The ChaCha8 generator of `rand_chacha`, an opaque value.
#[verifier::external_type_specification]
#[verifier::external_body]
pub struct ExChaCha8Rng(rand_chacha::ChaCha8Rng);

/// `blake3::derive_key`: the 32 bytes are a function of the context string and the key material.
#[verifier::external_body]
fn derive_key(context: &str, material: &[u8]) -> (r: [u8; 32])
    ensures
        r@ == blake3_derived(context@, material@),
{
    blake3::derive_key(context, material)
}

/// `blake3::keyed_hash`: the 32 bytes are a function of the key and the input.
#[verifier::external_body]
fn keyed_hash(key: &[u8; 32], input: &[u8]) -> (r: [u8; 32])
    ensures
        r@ == blake3_keyed(key@, input@),
{
    *blake3::keyed_hash(key, input).as_bytes()
}

/// `ChaCha8Rng::from_seed`: a generator at the start of the stream of `seed`.
#[verifier::external_body]
fn chacha8_from_seed(seed: [u8; 32]) -> (r: ChaCha8Rng)
    ensures
        stream_seed(r) == seed@,
        words_taken(r) == 0,
{
    ChaCha8Rng::from_seed(seed)
}

/// `ChaCha8Rng::next_u32`: takes the next word of the stream.
#[verifier::external_body]
fn chacha8_next_u32(r: &mut ChaCha8Rng) -> (x: u32)
    ensures
        stream_seed(*final(r)) == stream_seed(*old(r)),
        words_taken(*final(r)) == words_taken(*old(r)) + 1,
        x == chacha8_word(stream_seed(*old(r)), words_taken(*old(r))),
{
    r.next_u32()
}

/// `ChaCha8Rng::next_u64`: takes the next two words of the stream, the low half first.
#[verifier::external_body]
fn chacha8_next_u64(r: &mut ChaCha8Rng) -> (x: u64)
    ensures
        stream_seed(*final(r)) == stream_seed(*old(r)),
        words_taken(*final(r)) == words_taken(*old(r)) + 2,
        x == draw(stream_seed(*old(r)), words_taken(*old(r))),
{
    r.next_u64()
}

/// `ChaCha8Rng::clone`: a generator at the same place of the same stream.
#[verifier::external_body]
fn chacha8_clone(r: &ChaCha8Rng) -> (c: ChaCha8Rng)
    ensures
        stream_seed(c) == stream_seed(*r),
        words_taken(c) == words_taken(*r),
{
    r.clone()
}

/// The 64-bit draw at word `t` of a stream.
pub open spec fn draw(seed: Seq<u8>, t: nat) -> u64 {
    (chacha8_word(seed, t + 1) * 0x1_0000_0000 + chacha8_word(seed, t)) as u64
}

/// A node of the seed tree.
#[derive(Clone, Copy, Debug, PartialEq, Eq, Hash)]
pub struct Seed(pub [u8; 32]);

/// What the hash of a child with a label is taken of: `label:` and the label.
pub open spec fn label_input(label: Seq<char>) -> Seq<u8> {
    seq![108u8, 97, 98, 101, 108, 58] + vstd::utf8::encode_utf8(label)
}

/// What the hash of a child with an index is taken of: `index:` and the index, low byte first.
pub open spec fn index_input(index: u64) -> Seq<u8> {
    seq![105u8, 110, 100, 101, 120, 58] + vstd::bytes::spec_u64_to_le_bytes(index)
}

/// The bytes of the child with a label.
pub open spec fn child_of(seed: Seq<u8>, label: Seq<char>) -> Seq<u8> {
    blake3_keyed(seed, label_input(label))
}

/// The bytes of the child with an index.
pub open spec fn indexed(seed: Seq<u8>, index: u64) -> Seq<u8> {
    blake3_keyed(seed, index_input(index))
}

/// The first 8 bytes as an integer, low byte first.
pub open spec fn short_of(seed: Seq<u8>) -> u64 {
    vstd::bytes::spec_u64_from_le_bytes(seed.take(8))
}

impl Seed {
    /// Root seed from a user's integer seed.
    pub fn from_u64(seed: u64) -> (r: Seed)
        ensures
            r.0@ == blake3_derived(
                "autonomousim seed v1"@,
                vstd::bytes::spec_u64_to_le_bytes(seed),
            ),
    {
        Seed(derive_key("autonomousim seed v1", vstd::bytes::u64_to_le_bytes(seed).as_slice()))
    }

    /// The child with a label.
    pub fn child(&self, label: &str) -> (r: Seed)
        ensures
            r.0@ == child_of(self.0@, label@),
    {
        let mut input: Vec<u8> = vec![108u8, 97, 98, 101, 108, 58];
        input.extend_from_slice(label.as_bytes());
        assert(input@ =~= label_input(label@));
        Seed(keyed_hash(&self.0, input.as_slice()))
    }

    /// The child with an index, for tiles, worlds, episodes and agents.
    pub fn child_index(&self, index: u64) -> (r: Seed)
        ensures
            r.0@ == indexed(self.0@, index),
    {
        let mut input: Vec<u8> = vec![105u8, 110, 100, 101, 120, 58];
        let bytes = vstd::bytes::u64_to_le_bytes(index);
        input.extend_from_slice(bytes.as_slice());
        assert(input@ =~= index_input(index));
        Seed(keyed_hash(&self.0, input.as_slice()))
    }

    /// A random stream seeded from this node.
    pub fn rng(&self) -> (r: SimRng)
        ensures
            r.seed() == self.0@,
            r.taken() == 0,
    {
        SimRng(chacha8_from_seed(self.0))
    }

    /// The first 8 bytes as an integer, low byte first.
    pub fn short(&self) -> (r: u64)
        ensures
            r == short_of(self.0@),
    {
        let head = vstd::slice::slice_subrange(self.0.as_slice(), 0, 8);
        assert(head@ =~= self.0@.take(8));
        vstd::bytes::u64_from_le_bytes(head)
    }
}

/// The children of a node hash different inputs: no label is taken for another label or for an
/// index, and no index for another.
pub proof fn lemma_children_hash_different_inputs(
    a: Seq<char>,
    b: Seq<char>,
    i: u64,
    j: u64,
)
    ensures
        label_input(a) == label_input(b) ==> a == b,
        index_input(i) == index_input(j) ==> i == j,
        label_input(a) != index_input(i),
{
    vstd::bytes::lemma_auto_spec_u64_to_from_le_bytes();
    vstd::utf8::encode_utf8_decode_utf8(a);
    vstd::utf8::encode_utf8_decode_utf8(b);
    assert(vstd::utf8::encode_utf8(a) =~= label_input(a).skip(6));
    assert(vstd::utf8::encode_utf8(b) =~= label_input(b).skip(6));
    assert(vstd::bytes::spec_u64_to_le_bytes(i) =~= index_input(i).skip(6));
    assert(vstd::bytes::spec_u64_to_le_bytes(j) =~= index_input(j).skip(6));
    assert(label_input(a)[0] == 108 && index_input(i)[0] == 105);
}

/// The simulator's random stream.
#[derive(Debug)]
pub struct SimRng(ChaCha8Rng);

impl Clone for SimRng {
    /// A stream that goes on as this one does.
    fn clone(&self) -> (r: SimRng)
        ensures
            r.seed() == self.seed(),
            r.taken() == self.taken(),
    {
        SimRng(chacha8_clone(&self.0))
    }
}

/// The number of 64-bit words.
pub open spec fn words() -> int {
    0x1_0000_0000_0000_0000
}

/// Whether `word` picks a value below `n` without bias: the low half of `word · n` is not among
/// the first `2⁶⁴ mod n`.
pub open spec fn accepted(word: int, n: int) -> bool {
    (word * n) % words() >= words() % n
}

/// The value below `n` that an accepted word picks.
pub open spec fn picked(word: int, n: int) -> int {
    (word * n) / words()
}

/// Whether the draw `k` draws after word `t` of a stream is the first accepted one.
pub open spec fn first_accepted(seed: Seq<u8>, t: nat, n: int, k: nat) -> bool {
    &&& accepted(draw(seed, t + 2 * k) as int, n)
    &&& forall|j: nat| j < k ==> !accepted(#[trigger] draw(seed, t + 2 * j) as int, n)
}

/// The layer and the numerator that a word picks.
pub open spec fn layer_of(word: u64) -> (u8, u64) {
    ((word % 0x80) as u8, word / 0x800)
}

/// Every layer comes with every numerator, equally often: the words that pick a given pair differ
/// only in four bits that neither uses.
pub proof fn lemma_layers_are_independent(word: u64, layer: u8, numerator: u64)
    requires
        layer < 0x80,
        numerator < 0x20_0000_0000_0000,
    ensures
        layer_of(word) == (layer, numerator) <==> exists|k: int|
            0 <= k < 16 && word == numerator * 0x800 + #[trigger] (k * 0x80) + layer,
{
    if layer_of(word) == (layer, numerator) {
        let k = (word % 0x800) as int / 0x80;
        assert(word == numerator * 0x800 + (k * 0x80) + layer);
    }
}

/// What becomes of a draw for the normal distribution.
#[derive(Clone, Copy, Debug, PartialEq, Eq, Structural)]
pub enum Ziggurat {
    /// Inside the layer: take it.
    Inside,
    /// Outside the lowest layer: draw from the tail.
    Tail,
    /// Outside another layer: take it if it is under the curve.
    Wedge,
}

/// What becomes of a draw in `layer` whose magnitude and limit have these bits.
pub open spec fn outcome_of(layer: u8, magnitude: u64, limit: u64) -> Ziggurat {
    if ieee::lt64(magnitude, limit) {
        Ziggurat::Inside
    } else if layer == 0 {
        Ziggurat::Tail
    } else {
        Ziggurat::Wedge
    }
}

pub fn ziggurat(layer: u8, magnitude: u64, limit: u64) -> (r: Ziggurat)
    ensures
        r == outcome_of(layer, magnitude, limit),
{
    if ieee::is_lt64(magnitude, limit) {
        Ziggurat::Inside
    } else if layer == 0 {
        Ziggurat::Tail
    } else {
        Ziggurat::Wedge
    }
}

impl SimRng {
    /// The seed of the stream.
    pub closed spec fn seed(&self) -> Seq<u8> {
        stream_seed(self.0)
    }

    /// How many 32-bit words have been taken from the stream.
    pub closed spec fn taken(&self) -> nat {
        words_taken(self.0)
    }

    pub fn next_u64(&mut self) -> (x: u64)
        ensures
            final(self).seed() == old(self).seed(),
            final(self).taken() == old(self).taken() + 2,
            x == draw(old(self).seed(), old(self).taken()),
    {
        chacha8_next_u64(&mut self.0)
    }

    pub fn next_u32(&mut self) -> (x: u32)
        ensures
            final(self).seed() == old(self).seed(),
            final(self).taken() == old(self).taken() + 1,
            x == chacha8_word(old(self).seed(), old(self).taken()),
    {
        chacha8_next_u32(&mut self.0)
    }

    /// The numerator of a uniform number in `[0, 1)` with denominator 2⁵³.
    pub fn uniform_bits(&mut self) -> (x: u64)
        ensures
            final(self).seed() == old(self).seed(),
            final(self).taken() == old(self).taken() + 2,
            x == draw(old(self).seed(), old(self).taken()) / 0x800,
            x < 0x20_0000_0000_0000,
    {
        self.next_u64() / 0x800
    }

    /// The bits of a uniform number in `[0, 1)` with 53 bits of precision.
    pub fn uniform(&mut self) -> (b: u64)
        ensures
            final(self).seed() == old(self).seed(),
            final(self).taken() == old(self).taken() + 2,
            fraction::fraction(b, draw(old(self).seed(), old(self).taken()) as int / 0x800),
    {
        let x: u64 = self.uniform_bits();
        fraction::fraction_bits(x)
    }

    /// A trial that succeeds with probability `p`, given by its bits: whether the uniform number
    /// is below `p`.
    pub fn chance(&mut self, p: u64) -> (r: bool)
        ensures
            final(self).seed() == old(self).seed(),
            final(self).taken() == old(self).taken() + 2,
            exists|b: u64|
                #[trigger] fraction::fraction(
                    b,
                    draw(old(self).seed(), old(self).taken()) as int / 0x800,
                ) && r == ieee::lt64(b, p),
    {
        let b: u64 = self.uniform();
        ieee::is_lt64(b, p)
    }

    /// The layer of the normal distribution that a draw picks, and the numerator of a uniform
    /// number with denominator 2⁵³. The two share no bits of the draw.
    pub fn layer(&mut self) -> (r: (u8, u64))
        ensures
            final(self).seed() == old(self).seed(),
            final(self).taken() == old(self).taken() + 2,
            r == layer_of(draw(old(self).seed(), old(self).taken())),
    {
        let word: u64 = self.next_u64();
        ((word % 0x80) as u8, word / 0x800)
    }

    /// A uniform integer below `n`, by Lemire's method. Some draw of the stream must be accepted.
    pub fn below(&mut self, n: u64) -> (r: u64)
        requires
            n > 0,
            exists|k: nat| first_accepted(old(self).seed(), old(self).taken(), n as int, k),
        ensures
            r < n,
            final(self).seed() == old(self).seed(),
            exists|k: nat|
                {
                    &&& #[trigger] first_accepted(old(self).seed(), old(self).taken(), n as int, k)
                    &&& r == picked(draw(old(self).seed(), old(self).taken() + 2 * k) as int, n as int)
                    &&& final(self).taken() == old(self).taken() + 2 * k + 2
                },
    {
        let ghost (seed, t) = (self.seed(), self.taken());
        let ghost last = choose|k: nat| first_accepted(seed, t, n as int, k);
        let ghost mut k: nat = 0;
        let mut word: u64 = self.next_u64();
        proof {
            assert(t + 2 * 0 == t);
        }
        let threshold: u64 = threshold_of(n);
        while low_half(word, n) < threshold
            invariant
                n > 0,
                threshold == words() % (n as int),
                self.seed() == seed,
                self.taken() == t + 2 * k + 2,
                word == draw(seed, t + 2 * k),
                forall|j: nat| j < k ==> !accepted(#[trigger] draw(seed, t + 2 * j) as int, n as int),
                first_accepted(seed, t, n as int, last),
                k <= last,
            decreases last - k,
        {
            proof {
                assert(!accepted(draw(seed, t + 2 * k) as int, n as int));
                assert(k != last);
            }
            word = self.next_u64();
            proof {
                k = k + 1;
            }
        }
        proof {
            assert(first_accepted(seed, t, n as int, k));
        }
        high_half(word, n)
    }

    /// Like [`SimRng::below`], but gives up, leaving the stream as it is, if none of the next
    /// `tries` draws is accepted.
    pub fn try_below(&mut self, n: u64, tries: u32) -> (r: Option<u64>)
        requires
            n > 0,
        ensures
            final(self).seed() == old(self).seed(),
            r is None ==> final(self).taken() == old(self).taken() && forall|k: nat|
                k < tries ==> !accepted(
                    #[trigger] draw(old(self).seed(), old(self).taken() + 2 * k) as int,
                    n as int,
                ),
            r matches Some(x) ==> {
                &&& x < n
                &&& exists|k: nat|
                    {
                        &&& k < tries
                        &&& #[trigger] first_accepted(
                            old(self).seed(),
                            old(self).taken(),
                            n as int,
                            k,
                        )
                        &&& x == picked(
                            draw(old(self).seed(), old(self).taken() + 2 * k) as int,
                            n as int,
                        )
                        &&& final(self).taken() == old(self).taken() + 2 * k + 2
                    }
            },
    {
        let ghost (seed, t) = (self.seed(), self.taken());
        let mut ahead = chacha8_clone(&self.0);
        let threshold: u64 = threshold_of(n);
        let mut i: u32 = 0;
        while i < tries
            invariant
                n > 0,
                i <= tries,
                threshold == words() % (n as int),
                self.seed() == seed,
                self.taken() == t,
                *self == *old(self),
                stream_seed(ahead) == seed,
                words_taken(ahead) == t + 2 * i,
                forall|j: nat| j < i ==> !accepted(#[trigger] draw(seed, t + 2 * j) as int, n as int),
            decreases tries - i,
        {
            let word: u64 = chacha8_next_u64(&mut ahead);
            if low_half(word, n) >= threshold {
                proof {
                    assert(word == draw(seed, t + 2 * i as nat));
                    assert(first_accepted(seed, t, n as int, i as nat));
                }
                let x: u64 = self.below(n);
                proof {
                    let k = choose|k: nat|
                        {
                            &&& #[trigger] first_accepted(seed, t, n as int, k)
                            &&& x == picked(draw(seed, t + 2 * k) as int, n as int)
                            &&& self.taken() == t + 2 * k + 2
                        };
                    if k > i {
                        assert(!accepted(draw(seed, t + 2 * i as nat) as int, n as int));
                    }
                }
                return Some(x);
            }
            proof {
                assert(word == draw(seed, t + 2 * i as nat));
            }
            i += 1;
        }
        None
    }
}

/// The size of the rejected range: `2⁶⁴ mod n`.
fn threshold_of(n: u64) -> (t: u64)
    requires
        n > 0,
    ensures
        t == words() % (n as int),
        t < n,
{
    let w: u128 = 0x1_0000_0000_0000_0000;
    (w % n as u128) as u64
}

proof fn lemma_product_bound(word: u64, n: u64)
    ensures
        0 <= word * n < words() * words(),
        word * n <= u128::MAX,
{
    assert(0 <= word * n <= 0xffff_ffff_ffff_ffff * 0xffff_ffff_ffff_ffff) by (nonlinear_arith)
        requires
            0 <= word <= 0xffff_ffff_ffff_ffff,
            0 <= n <= 0xffff_ffff_ffff_ffff,
    ;
}

/// The low 64 bits of `word · n`.
fn low_half(word: u64, n: u64) -> (r: u64)
    ensures
        r == (word * n) % words(),
{
    proof {
        lemma_product_bound(word, n);
    }
    ((word as u128 * n as u128) % 0x1_0000_0000_0000_0000) as u64
}

/// The high 64 bits of `word · n`.
fn high_half(word: u64, n: u64) -> (r: u64)
    requires
        n > 0,
    ensures
        r == picked(word as int, n as int),
        r < n,
{
    proof {
        lemma_product_bound(word, n);
        lemma_picked_below(word as int, n as int);
    }
    ((word as u128 * n as u128) / 0x1_0000_0000_0000_0000) as u64
}

proof fn lemma_picked_below(word: int, n: int)
    requires
        0 <= word < words(),
        0 < n <= words(),
    ensures
        0 <= picked(word, n) < n,
{
    let p = word * n;
    assert(0 <= p < words() * n) by (nonlinear_arith)
        requires
            0 <= word < words(),
            0 < n,
            p == word * n,
    ;
    assert(0 <= p / words() < n) by {
        vstd::arithmetic::div_mod::lemma_fundamental_div_mod(p, words());
        let q = p / words();
        assert(q < n) by (nonlinear_arith)
            requires
                p == words() * q + p % words(),
                0 <= p % words(),
                p < words() * n,
                words() == 0x1_0000_0000_0000_0000,
        ;
        assert(q >= 0) by (nonlinear_arith)
            requires
                p == words() * q + p % words(),
                p % words() < words(),
                0 <= p,
                words() == 0x1_0000_0000_0000_0000,
        ;
    }
}

/// Picking below `n` is unbiased: every value is picked by equally many accepted words, namely by
/// `⌊2⁶⁴/n⌋` successive ones.
pub proof fn lemma_below_is_unbiased(n: int, r: int) -> (first: int)
    requires
        0 < n < words(),
        0 <= r < n,
    ensures
        0 <= first,
        first + words() / n <= words(),
        forall|word: int|
            0 <= word < words() ==> ((#[trigger] accepted(word, n) && picked(word, n) == r) <==> first
                <= word < first + words() / n),
{
    let big = words();
    let t = big % n;
    let q = big / n;
    vstd::arithmetic::div_mod::lemma_fundamental_div_mod(big, n);
    let lo = r * big + t;
    // The least multiple of `n` that is at least `lo`.
    let first = (lo + n - 1) / n;
    vstd::arithmetic::div_mod::lemma_fundamental_div_mod(lo + n - 1, n);
    assert(0 <= lo) by (nonlinear_arith)
        requires
            0 <= r,
            0 <= t,
            big > 0,
            lo == r * big + t,
    ;
    assert(first >= 0) by (nonlinear_arith)
        requires
            lo + n - 1 == n * first + (lo + n - 1) % n,
            (lo + n - 1) % n < n,
            lo >= 0,
            n > 0,
    ;
    assert(n * first >= lo && n * first < lo + n);
    assert(n * q == big - t);
    assert(n * (first + q) == n * first + n * q) by (nonlinear_arith);
    assert(r * big + big == (r + 1) * big) by (nonlinear_arith);
    assert forall|word: int| 0 <= word < big implies ((#[trigger] accepted(word, n) && picked(word, n)
        == r) <==> first <= word < first + q) by {
        let p = word * n;
        vstd::arithmetic::div_mod::lemma_fundamental_div_mod(p, big);
        let (d, m) = (p / big, p % big);
        assert(p == big * d + m);
        if accepted(word, n) && d == r {
            assert(big * d == r * big) by (nonlinear_arith)
                requires
                    d == r,
            ;
            assert(p >= lo && p < (r + 1) * big);
            assert(word >= first) by (nonlinear_arith)
                requires
                    word * n >= lo,
                    n * first < lo + n,
                    n > 0,
            ;
            assert(word < first + q) by (nonlinear_arith)
                requires
                    word * n < n * (first + q),
                    n > 0,
            ;
        }
        if first <= word < first + q {
            assert(p >= n * first) by (nonlinear_arith)
                requires
                    p == word * n,
                    first <= word,
                    n > 0,
            ;
            assert(p <= n * (first + q) - n) by (nonlinear_arith)
                requires
                    p == word * n,
                    word <= first + q - 1,
                    n > 0,
            ;
            assert(p >= lo && p < (r + 1) * big);
            assert(p == big * r + (p - r * big)) by (nonlinear_arith);
            vstd::arithmetic::div_mod::lemma_fundamental_div_mod_converse(p, big, r, p - r * big);
        }
    }
    assert(first + q <= big) by (nonlinear_arith)
        requires
            n * (first + q) < lo + n + big - t,
            lo == r * big + t,
            r + 1 <= n,
            n > 0,
            big > 0,
    {
        assert(n * (first + q) < n * big + n) by (nonlinear_arith)
            requires
                n * (first + q) < lo + n + big - t,
                lo == r * big + t,
                r + 1 <= n,
                big > 0,
        ;
    }
    first
}

/// A draw inside its layer is taken, whichever the layer; outside, the lowest layer draws from the tail
/// and no other does.
pub proof fn lemma_layers_take_their_draws(layer: u8, magnitude: u64, limit: u64)
    ensures
        outcome_of(layer, magnitude, limit) == Ziggurat::Inside <==> ieee::lt64(magnitude, limit),
        outcome_of(layer, magnitude, limit) == Ziggurat::Tail <==> !ieee::lt64(magnitude, limit) && layer == 0,
        outcome_of(layer, magnitude, limit) == Ziggurat::Wedge <==> !ieee::lt64(magnitude, limit) && layer > 0,
{
}

/// The hashed inputs of children are `label:` and `index:` in bytes, followed by the label and by the
/// eight bytes of the index.
pub proof fn lemma_children_are_tagged(label: Seq<char>, index: u64)
    ensures
        label_input(label) == vstd::utf8::encode_utf8("label:"@) + vstd::utf8::encode_utf8(label),
        index_input(index) == vstd::utf8::encode_utf8("index:"@) + vstd::bytes::spec_u64_to_le_bytes(index),
{
    reveal_strlit("label:");
    reveal_strlit("index:");
    let (a, b) = ("label:"@, "index:"@);
    assert(vstd::utf8::is_ascii_chars(a) && vstd::utf8::is_ascii_chars(b));
    vstd::utf8::is_ascii_chars_encode_utf8(a);
    vstd::utf8::is_ascii_chars_encode_utf8(b);
    assert(vstd::utf8::encode_utf8(a) =~= seq![108u8, 97, 98, 101, 108, 58]);
    assert(vstd::utf8::encode_utf8(b) =~= seq![105u8, 110, 100, 101, 120, 58]);
}

/// A draw of 64 bits holds two words of the stream, the first as its low half.
pub proof fn lemma_draws_hold_two_words(seed: Seq<u8>, t: nat)
    ensures
        draw(seed, t) % 0x1_0000_0000 == chacha8_word(seed, t),
        draw(seed, t) / 0x1_0000_0000 == chacha8_word(seed, t + 1),
{
}

/// The short form of a seed has its first eight bytes, the lowest first.
pub proof fn lemma_short_form_is_the_first_bytes(seed: Seq<u8>)
    requires
        seed.len() >= 8,
    ensures
        vstd::bytes::spec_u64_to_le_bytes(short_of(seed)) == seed.take(8),
{
    vstd::bytes::lemma_auto_spec_u64_to_from_le_bytes();
    assert(seed.take(8).len() == 8);
}

} // verus!
