//! State digests: the word fold behind the map's checksum, the sum
//! behind every digest that ignores order, and the byte hash behind the
//! pinned renders.
use vstd::prelude::*;
use crate::rng::splitmix_mix;

verus! {

use crate::rng::splitmix_mix_spec;
use vstd::seq_lib::to_multiset_len;


/// Start value of both digests.
pub const FNV_OFFSET: u64 = 0xCBF2_9CE4_8422_2325;

/// Multiplier of both digests.
pub const FNV_PRIME: u64 = 0x1000_0000_01B3;

/// The modulus of 64-bit wrapping arithmetic.
pub open spec fn two64() -> int {
    0x1_0000_0000_0000_0000
}

/// One fold step: multiply, then mix the word in.
pub open spec fn step_spec(h: u64, v: u64) -> u64 {
    ((h as int * FNV_PRIME as int % two64()) as u64) ^ v
}

/// The fold of a whole word stream, in order.
pub open spec fn fold_words(h: u64, words: Seq<u64>) -> u64
    decreases words.len(),
{
    if words.len() == 0 {
        h
    } else {
        step_spec(fold_words(h, words.drop_last()), words.last())
    }
}

/// One byte of the render hash: mix, then multiply.
pub open spec fn fnv1a_step(h: u64, b: u8) -> u64 {
    ((h ^ (b as u64)) as int * FNV_PRIME as int % two64()) as u64
}

/// The render hash of a byte string.
pub open spec fn fnv1a_spec(bytes: Seq<u8>) -> u64
    decreases bytes.len(),
{
    if bytes.len() == 0 {
        FNV_OFFSET
    } else {
        fnv1a_step(fnv1a_spec(bytes.drop_last()), bytes.last())
    }
}

/// Fold one word into a digest.
pub fn step(h: u64, v: u64) -> (r: u64)
    ensures
        r == step_spec(h, v),
{
    h.wrapping_mul(FNV_PRIME) ^ v
}

/// Fold a word stream into a digest.
pub fn fold(h: u64, words: &[u64]) -> (r: u64)
    ensures
        r == fold_words(h, words@),
{
    let mut acc: u64 = h;
    let mut i: usize = 0;
    while i < words.len()
        invariant
            i <= words@.len(),
            acc == fold_words(h, words@.take(i as int)),
        decreases words@.len() - i,
    {
        proof {
            lemma_fold_push(h, words@.take(i as int), words@[i as int]);
            assert(words@.take(i + 1) =~= words@.take(i as int).push(words@[i as int]));
        }
        acc = step(acc, words[i]);
        i = i + 1;
    }
    proof {
        assert(words@.take(i as int) =~= words@);
    }
    acc
}

/// The digest of a byte string that pins rendered documents.
pub fn fnv1a(bytes: &[u8]) -> (r: u64)
    ensures
        r == fnv1a_spec(bytes@),
{
    let mut h: u64 = FNV_OFFSET;
    let mut i: usize = 0;
    while i < bytes.len()
        invariant
            i <= bytes@.len(),
            h == fnv1a_spec(bytes@.take(i as int)),
        decreases bytes@.len() - i,
    {
        proof {
            let next = bytes@.take(i + 1);
            assert(next.drop_last() =~= bytes@.take(i as int));
            assert(next.last() == bytes@[i as int]);
        }
        h = (h ^ (bytes[i] as u64)).wrapping_mul(FNV_PRIME);
        i = i + 1;
    }
    proof {
        assert(bytes@.take(i as int) =~= bytes@);
    }
    h
}

/// Four bit patterns of one particle, branch, or node.
pub type Quad = (u32, u32, u32, u32);

/// What one of several things adds to their digest: its four numbers
/// folded and avalanched.
pub open spec fn quad_word(q: Quad) -> u64 {
    splitmix_mix_spec(
        step_spec(
            step_spec(
                step_spec(step_spec(FNV_OFFSET, q.0 as u64), q.1 as u64),
                q.2 as u64,
            ),
            q.3 as u64,
        ),
    )
}

/// What some things add up to.
pub open spec fn word_sum<A>(items: Seq<A>, word: spec_fn(A) -> u64) -> int
    decreases items.len(),
{
    if items.len() == 0 {
        0
    } else {
        word_sum(items.drop_last(), word) + word(items.last())
    }
}

/// The digest of some things in any order: their words added up, modulo
/// 2^64.
pub open spec fn gathered<A>(items: Seq<A>, word: spec_fn(A) -> u64) -> u64 {
    ((FNV_OFFSET + word_sum(items, word)) % two64()) as u64
}

/// The digest of some quads in any order.
pub open spec fn quads_digest(items: Seq<Quad>) -> u64 {
    gathered(items, |q: Quad| quad_word(q))
}

/// Four parallel arrays as quads.
pub open spec fn quads(a: Seq<u32>, b: Seq<u32>, c: Seq<u32>, d: Seq<u32>) -> Seq<Quad> {
    Seq::new(a.len(), |i: int| (a[i], b[i], c[i], d[i]))
}

/// Add one more word to a digest.
pub proof fn lemma_gather_push<A>(items: Seq<A>, x: A, word: spec_fn(A) -> u64)
    ensures
        gathered(items.push(x), word) == (gathered(items, word) + word(x)) % two64(),
{
    assert(items.push(x).drop_last() =~= items);
    vstd::arithmetic::div_mod::lemma_add_mod_noop(
        FNV_OFFSET + word_sum(items, word),
        word(x) as int,
        two64(),
    );
    vstd::arithmetic::div_mod::lemma_small_mod(word(x) as nat, two64() as nat);
}

/// The digest of parallel arrays, entry by entry, in any order.
pub fn digest_quads(a: &Vec<u32>, b: &Vec<u32>, c: &Vec<u32>, d: &Vec<u32>) -> (r: u64)
    requires
        b@.len() == a@.len(),
        c@.len() == a@.len(),
        d@.len() == a@.len(),
    ensures
        r == quads_digest(quads(a@, b@, c@, d@)),
{
    let mut acc: u64 = FNV_OFFSET;
    let mut i: usize = 0;
    let ghost all = quads(a@, b@, c@, d@);
    let ghost word = |q: Quad| quad_word(q);
    proof {
        assert(all.take(0) =~= Seq::<Quad>::empty());
        vstd::arithmetic::div_mod::lemma_small_mod(FNV_OFFSET as nat, two64() as nat);
    }
    while i < a.len()
        invariant
            i <= a@.len(),
            b@.len() == a@.len(),
            c@.len() == a@.len(),
            d@.len() == a@.len(),
            all == quads(a@, b@, c@, d@),
            word == (|q: Quad| quad_word(q)),
            acc == gathered(all.take(i as int), word),
        decreases a@.len() - i,
    {
        let h: u64 = step(step(step(step(FNV_OFFSET, a[i] as u64), b[i] as u64), c[i] as u64), d[i] as u64);
        acc = acc.wrapping_add(splitmix_mix(h));
        proof {
            assert(all.take(i + 1) =~= all.take(i as int).push(all[i as int]));
            lemma_gather_push(all.take(i as int), all[i as int], word);
        }
        i = i + 1;
    }
    proof {
        assert(all.take(i as int) =~= all);
    }
    acc
}

proof fn lemma_sum_without<A>(items: Seq<A>, word: spec_fn(A) -> u64, i: int)
    requires
        0 <= i < items.len(),
    ensures
        word_sum(items, word) == word_sum(items.remove(i), word) + word(items[i]),
    decreases items.len(),
{
    if i == items.len() - 1 {
        assert(items.remove(i) =~= items.drop_last());
    } else {
        lemma_sum_without(items.drop_last(), word, i);
        assert(items.remove(i).drop_last() =~= items.drop_last().remove(i));
        assert(items.remove(i).last() == items.last());
    }
}

/// The order in which things are visited does not move their digest.
pub proof fn lemma_gathering_ignores_order<A>(a: Seq<A>, b: Seq<A>, word: spec_fn(A) -> u64)
    requires
        a.to_multiset() == b.to_multiset(),
    ensures
        word_sum(a, word) == word_sum(b, word),
        gathered(a, word) == gathered(b, word),
    decreases a.len(),
{
    broadcast use vstd::seq_lib::group_to_multiset_ensures;

    to_multiset_len(a);
    to_multiset_len(b);
    if a.len() > 0 {
        let x = a.last();
        assert(a.contains(x));
        assert(b.to_multiset().count(x) > 0);
        assert(b.contains(x));
        let i = choose|i: int| 0 <= i < b.len() && b[i] == x;
        lemma_sum_without(b, word, i);
        assert(a.drop_last() =~= a.remove(a.len() - 1));
        assert(a.drop_last().to_multiset() =~= b.remove(i).to_multiset());
        lemma_gathering_ignores_order(a.drop_last(), b.remove(i), word);
    }
}

/// The two differ in exactly one number.
pub open spec fn one_apart(p: Quad, q: Quad) -> bool {
    ||| p.0 != q.0 && p.1 == q.1 && p.2 == q.2 && p.3 == q.3
    ||| p.0 == q.0 && p.1 != q.1 && p.2 == q.2 && p.3 == q.3
    ||| p.0 == q.0 && p.1 == q.1 && p.2 != q.2 && p.3 == q.3
    ||| p.0 == q.0 && p.1 == q.1 && p.2 == q.2 && p.3 != q.3
}

proof fn lemma_steps_apart(h1: u64, h2: u64, v1: u64, v2: u64)
    requires
        (h1 == h2) != (v1 == v2),
    ensures
        step_spec(h1, v1) != step_spec(h2, v2),
{
    if step_spec(h1, v1) == step_spec(h2, v2) {
        lemma_step_injective(h1, h2, v1, v2);
    }
}

proof fn lemma_quad_words_apart(p: Quad, q: Quad)
    requires
        one_apart(p, q),
    ensures
        quad_word(p) != quad_word(q),
{
    let (p1, q1) = (step_spec(FNV_OFFSET, p.0 as u64), step_spec(FNV_OFFSET, q.0 as u64));
    let (p2, q2) = (step_spec(p1, p.1 as u64), step_spec(q1, q.1 as u64));
    let (p3, q3) = (step_spec(p2, p.2 as u64), step_spec(q2, q.2 as u64));
    let (p4, q4) = (step_spec(p3, p.3 as u64), step_spec(q3, q.3 as u64));
    if p.0 != q.0 {
        lemma_steps_apart(FNV_OFFSET, FNV_OFFSET, p.0 as u64, q.0 as u64);
    }
    if p1 != q1 || p.1 != q.1 {
        lemma_steps_apart(p1, q1, p.1 as u64, q.1 as u64);
    }
    if p2 != q2 || p.2 != q.2 {
        lemma_steps_apart(p2, q2, p.2 as u64, q.2 as u64);
    }
    lemma_steps_apart(p3, q3, p.3 as u64, q.3 as u64);
    if splitmix_mix_spec(p4) == splitmix_mix_spec(q4) {
        crate::rng::lemma_mix_is_injective(p4, q4);
    }
}

/// Changing exactly one number of one thing always moves the digest.
pub proof fn lemma_one_number_moves_the_digest(items: Seq<Quad>, i: int, q: Quad)
    requires
        0 <= i < items.len(),
        one_apart(items[i], q),
    ensures
        quads_digest(items.update(i, q)) != quads_digest(items),
{
    let word = |q: Quad| quad_word(q);
    let next = items.update(i, q);
    lemma_quad_words_apart(items[i], q);
    lemma_sum_without(items, word, i);
    lemma_sum_without(next, word, i);
    assert(next.remove(i) =~= items.remove(i));
    let (a, b) = (FNV_OFFSET + word_sum(items, word), FNV_OFFSET + word_sum(next, word));
    if a % two64() == b % two64() {
        vstd::arithmetic::div_mod::lemma_fundamental_div_mod(a, two64());
        vstd::arithmetic::div_mod::lemma_fundamental_div_mod(b, two64());
        let (x, y) = (a / two64(), b / two64());
        assert(two64() * x - two64() * y == two64() * (x - y)) by (nonlinear_arith);
        assert(x == y);
    }
}

/// Folding one more word.
pub proof fn lemma_fold_push(h: u64, words: Seq<u64>, v: u64)
    ensures
        fold_words(h, words.push(v)) == step_spec(fold_words(h, words), v),
{
    assert(words.push(v).drop_last() =~= words);
}

/// Folding in two goes is folding once.
pub proof fn lemma_fold_append(h: u64, a: Seq<u64>, b: Seq<u64>)
    ensures
        fold_words(h, a + b) == fold_words(fold_words(h, a), b),
    decreases b.len(),
{
    if b.len() == 0 {
        assert(a + b =~= a);
    } else {
        lemma_fold_append(h, a, b.drop_last());
        assert((a + b).drop_last() =~= a + b.drop_last());
    }
}

/// Multiplication by the odd prime can be undone.
proof fn lemma_prime_injective(a: u64, b: u64)
    requires
        a as int * FNV_PRIME as int % two64() == b as int * FNV_PRIME as int % two64(),
    ensures
        a == b,
{
    let m = two64();
    let inv: int = 0xB46D_D957_AFF6_957B;
    assert(FNV_PRIME as int * inv % m == 1) by (nonlinear_arith)
        requires
            m == 0x1_0000_0000_0000_0000,
            inv == 0xB46D_D957_AFF6_957B,
            FNV_PRIME == 0x1000_0000_01B3,
    ;
    lemma_undo(a as int, inv);
    lemma_undo(b as int, inv);
}

/// `x * p * inv` is `x` again when `p * inv` is one.
proof fn lemma_undo(x: int, inv: int)
    requires
        0 <= x < two64(),
        FNV_PRIME as int * inv % two64() == 1,
    ensures
        (x * FNV_PRIME as int % two64()) * inv % two64() == x,
{
    let m = two64();
    let p = FNV_PRIME as int;
    vstd::arithmetic::div_mod::lemma_mul_mod_noop_left(x * p, inv, m);
    assert((x * p) * inv == x * (p * inv)) by (nonlinear_arith);
    vstd::arithmetic::div_mod::lemma_mul_mod_noop_right(x, p * inv, m);
    assert(x * 1 == x);
    vstd::arithmetic::div_mod::lemma_small_mod(x as nat, m as nat);
}

/// A fold step loses nothing of either argument.
pub proof fn lemma_step_injective(h1: u64, h2: u64, v1: u64, v2: u64)
    requires
        step_spec(h1, v1) == step_spec(h2, v2),
        h1 == h2 || v1 == v2,
    ensures
        h1 == h2 && v1 == v2,
{
    let m = two64();
    let a = (h1 as int * FNV_PRIME as int % m) as u64;
    let b = (h2 as int * FNV_PRIME as int % m) as u64;
    if h1 == h2 {
        assert(v1 == v2) by (bit_vector)
            requires
                a ^ v1 == b ^ v2,
                a == b,
        ;
    } else {
        assert(a == b) by (bit_vector)
            requires
                a ^ v1 == b ^ v2,
                v1 == v2,
        ;
        lemma_prime_injective(h1, h2);
    }
}

/// Digests of two streams under different prefixes stay apart.
proof fn lemma_fold_injective(h1: u64, h2: u64, words: Seq<u64>)
    requires
        h1 != h2,
    ensures
        fold_words(h1, words) != fold_words(h2, words),
    decreases words.len(),
{
    if words.len() > 0 {
        lemma_fold_injective(h1, h2, words.drop_last());
        let a = fold_words(h1, words.drop_last());
        let b = fold_words(h2, words.drop_last());
        if step_spec(a, words.last()) == step_spec(b, words.last()) {
            lemma_step_injective(a, b, words.last(), words.last());
        }
    }
}

/// Changing exactly one word of a stream always moves its digest.
pub proof fn lemma_one_word_moves_the_digest(h: u64, words: Seq<u64>, i: int, v: u64)
    requires
        0 <= i < words.len(),
        v != words[i],
    ensures
        fold_words(h, words.update(i, v)) != fold_words(h, words),
{
    let front = words.take(i);
    let back = words.skip(i + 1);
    assert(words =~= front.push(words[i]) + back);
    assert(words.update(i, v) =~= front.push(v) + back);
    lemma_fold_push(h, front, words[i]);
    lemma_fold_push(h, front, v);
    let a = fold_words(h, front.push(words[i]));
    let b = fold_words(h, front.push(v));
    if a == b {
        let f = fold_words(h, front);
        lemma_step_injective(f, f, words[i], v);
    }
    lemma_fold_append(h, front.push(words[i]), back);
    lemma_fold_append(h, front.push(v), back);
    lemma_fold_injective(a, b, back);
}

} // verus!
