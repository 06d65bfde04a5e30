//! Little-endian integers as sequences of bytes.
use vstd::prelude::*;

verus! {

/// The two bytes of `x`, low byte first.
#[verifier::opaque]
pub open spec fn half_le(x: int) -> Seq<u8> {
    seq![(x % 256) as u8, ((x / 256) % 256) as u8]
}

/// The four bytes of `x`, low byte first.
#[verifier::opaque]
pub open spec fn word_le(x: int) -> Seq<u8> {
    seq![
        (x % 256) as u8,
        ((x / 256) % 256) as u8,
        ((x / 65536) % 256) as u8,
        ((x / 16777216) % 256) as u8,
    ]
}

/// The unsigned 16-bit value whose low byte is `bytes[at]`.
pub open spec fn half_at(bytes: Seq<u8>, at: int) -> int {
    bytes[at] as int + 256 * (bytes[at + 1] as int)
}

/// The unsigned 32-bit value whose low byte is `bytes[at]`.
pub open spec fn word_at(bytes: Seq<u8>, at: int) -> int {
    bytes[at] as int + 256 * (bytes[at + 1] as int) + 65536 * (bytes[at + 2] as int) + 16777216
        * (bytes[at + 3] as int)
}

/// The signed 32-bit value whose low byte is `bytes[at]`, in two's complement.
pub open spec fn signed_word_at(bytes: Seq<u8>, at: int) -> int {
    if word_at(bytes, at) >= 0x8000_0000 {
        word_at(bytes, at) - 0x1_0000_0000
    } else {
        word_at(bytes, at)
    }
}

/// `n` zero bytes.
pub open spec fn zeros(n: int) -> Seq<u8> {
    Seq::new(if n >= 0 { n as nat } else { 0 }, |i: int| 0u8)
}

/// The parts one after the other.
pub open spec fn concat(parts: Seq<Seq<u8>>) -> Seq<u8>
    decreases parts.len(),
{
    if parts.len() == 0 {
        seq![]
    } else {
        concat(parts.drop_last()) + parts.last()
    }
}

/// The sum of the sizes.
pub open spec fn total(sizes: Seq<int>) -> int
    decreases sizes.len(),
{
    if sizes.len() == 0 {
        0
    } else {
        total(sizes.drop_last()) + sizes.last()
    }
}

/// The words that give, for each part, the total size of the parts before it.
pub open spec fn running_offsets(sizes: Seq<int>) -> Seq<Seq<u8>> {
    Seq::new(sizes.len(), |i: int| word_le(total(sizes.take(i))))
}

/// `concat` of the first `i + 1` parts is `concat` of the first `i` and part `i`.
pub proof fn lemma_concat_step(parts: Seq<Seq<u8>>, i: int)
    requires
        0 <= i < parts.len(),
    ensures
        concat(parts.take(i + 1)) == concat(parts.take(i)) + parts[i],
{
    assert(parts.take(i + 1).drop_last() =~= parts.take(i));
}

/// `total` of the first `i + 1` sizes is `total` of the first `i` and size `i`.
pub proof fn lemma_total_step(sizes: Seq<int>, i: int)
    requires
        0 <= i < sizes.len(),
    ensures
        total(sizes.take(i + 1)) == total(sizes.take(i)) + sizes[i],
{
    assert(sizes.take(i + 1).drop_last() =~= sizes.take(i));
}

/// Sizes that are not negative add up to no less than any of their prefixes.
pub proof fn lemma_total_monotone(sizes: Seq<int>, i: int)
    requires
        0 <= i <= sizes.len(),
        forall|k: int| 0 <= k < sizes.len() ==> sizes[k] >= 0,
    ensures
        0 <= total(sizes.take(i)) <= total(sizes),
    decreases sizes.len() - i,
{
    if i == sizes.len() {
        assert(sizes.take(i) =~= sizes);
        lemma_total_nonnegative(sizes);
    } else {
        lemma_total_step(sizes, i);
        lemma_total_monotone(sizes, i + 1);
        lemma_total_nonnegative(sizes.take(i));
    }
}

/// Sizes that are not negative add up to a total that is not negative.
pub proof fn lemma_total_nonnegative(sizes: Seq<int>)
    requires
        forall|k: int| 0 <= k < sizes.len() ==> sizes[k] >= 0,
    ensures
        0 <= total(sizes),
    decreases sizes.len(),
{
    if sizes.len() > 0 {
        lemma_total_nonnegative(sizes.drop_last());
    }
}

/// Sizes that are all `each` add up to `each` times their number.
pub proof fn lemma_total_uniform(sizes: Seq<int>, each: int)
    requires
        forall|k: int| 0 <= k < sizes.len() ==> sizes[k] == each,
    ensures
        total(sizes) == each * sizes.len(),
    decreases sizes.len(),
{
    if sizes.len() > 0 {
        lemma_total_uniform(sizes.drop_last(), each);
        assert(each * (sizes.len() - 1) + each == each * sizes.len()) by (nonlinear_arith);
    } else {
        assert(each * 0 == 0) by (nonlinear_arith);
    }
}

/// Parts that are all `each` bytes long make `each` times their number.
pub proof fn lemma_concat_uniform(parts: Seq<Seq<u8>>, each: int)
    requires
        forall|k: int| 0 <= k < parts.len() ==> parts[k].len() == each,
    ensures
        concat(parts).len() == each * parts.len(),
{
    let sizes = Seq::new(parts.len(), |k: int| each);
    lemma_concat_len(parts, sizes);
    lemma_total_uniform(sizes, each);
}

/// The length of `concat` is the `total` of the lengths of the parts.
pub proof fn lemma_concat_len(parts: Seq<Seq<u8>>, sizes: Seq<int>)
    requires
        parts.len() == sizes.len(),
        forall|k: int| 0 <= k < parts.len() ==> parts[k].len() == sizes[k],
    ensures
        concat(parts).len() == total(sizes),
    decreases parts.len(),
{
    if parts.len() > 0 {
        lemma_concat_len(parts.drop_last(), sizes.drop_last());
    }
}

/// `half_le` gives two bytes.
pub broadcast proof fn lemma_half_len(x: int)
    ensures
        #[trigger] half_le(x).len() == 2,
{
    reveal(half_le);
}

/// `word_le` gives four bytes.
pub broadcast proof fn lemma_word_len(x: int)
    ensures
        #[trigger] word_le(x).len() == 4,
{
    reveal(word_le);
}

/// Reading back two bytes written by `half_le` gives the value written.
pub proof fn lemma_half_round_trip(bytes: Seq<u8>, at: int, x: int)
    requires
        0 <= x < 0x1_0000,
        0 <= at,
        at + 2 <= bytes.len(),
        bytes.subrange(at, at + 2) == half_le(x),
    ensures
        half_at(bytes, at) == x,
{
    reveal(half_le);
    let w = bytes.subrange(at, at + 2);
    assert(w[0] == bytes[at]);
    assert(w[1] == bytes[at + 1]);
}

/// Reading back four bytes written by `word_le` gives the value written.
pub proof fn lemma_word_round_trip(bytes: Seq<u8>, at: int, x: int)
    requires
        0 <= x < 0x1_0000_0000,
        0 <= at,
        at + 4 <= bytes.len(),
        bytes.subrange(at, at + 4) == word_le(x),
    ensures
        word_at(bytes, at) == x,
{
    reveal(word_le);
    let w = bytes.subrange(at, at + 4);
    assert(w[0] == bytes[at]);
    assert(w[1] == bytes[at + 1]);
    assert(w[2] == bytes[at + 2]);
    assert(w[3] == bytes[at + 3]);
}

/// Whether `bytes` holds `part` at `at`.
pub open spec fn holds_at(bytes: Seq<u8>, at: int, part: Seq<u8>) -> bool {
    0 <= at && at + part.len() <= bytes.len() && bytes.subrange(at, at + part.len()) == part
}

/// Bytes hold two parts in a row exactly when they hold the first and, behind
/// it, the second.
pub proof fn lemma_holds_split(bytes: Seq<u8>, at: int, first: Seq<u8>, second: Seq<u8>)
    ensures
        holds_at(bytes, at, first + second) <==> holds_at(bytes, at, first) && holds_at(
            bytes,
            at + first.len(),
            second,
        ),
{
    let both = first + second;
    if holds_at(bytes, at, both) {
        let held = bytes.subrange(at, at + both.len());
        assert(bytes.subrange(at, at + first.len()) =~= held.subrange(0, first.len() as int));
        assert(both.subrange(0, first.len() as int) =~= first);
        assert(bytes.subrange(at + first.len(), at + first.len() + second.len())
            =~= held.subrange(first.len() as int, both.len() as int));
        assert(both.subrange(first.len() as int, both.len() as int) =~= second);
    }
    if holds_at(bytes, at, first) && holds_at(bytes, at + first.len(), second) {
        assert(bytes.subrange(at, at + both.len()) =~= bytes.subrange(at, at + first.len())
            + bytes.subrange(at + first.len(), at + first.len() + second.len()));
    }
}

/// Bytes that hold all the parts in a row hold each part at the total size
/// of the parts before it.
pub proof fn lemma_holds_part(bytes: Seq<u8>, at: int, parts: Seq<Seq<u8>>, i: int)
    requires
        holds_at(bytes, at, concat(parts)),
        0 <= i < parts.len(),
    ensures
        holds_at(bytes, at, concat(parts.take(i))),
        holds_at(bytes, at + concat(parts.take(i)).len(), parts[i]),
    decreases parts.len() - i,
{
    if i == parts.len() - 1 {
        assert(parts.take(i) =~= parts.drop_last());
        lemma_holds_split(bytes, at, concat(parts.drop_last()), parts.last());
    } else {
        lemma_holds_part(bytes, at, parts, i + 1);
        lemma_concat_step(parts, i);
        lemma_holds_split(bytes, at, concat(parts.take(i)), parts[i]);
    }
}

/// A 16-bit value that the bytes hold is the value read there.
pub proof fn lemma_holds_half(bytes: Seq<u8>, at: int, x: int)
    requires
        0 <= x < 0x1_0000,
        holds_at(bytes, at, half_le(x)),
    ensures
        half_at(bytes, at) == x,
        at + 2 <= bytes.len(),
{
    lemma_half_len(x);
    lemma_half_round_trip(bytes, at, x);
}

/// A 32-bit value that the bytes hold is the value read there.
pub proof fn lemma_holds_word(bytes: Seq<u8>, at: int, x: int)
    requires
        0 <= x < 0x1_0000_0000,
        holds_at(bytes, at, word_le(x)),
    ensures
        word_at(bytes, at) == x,
        at + 4 <= bytes.len(),
{
    lemma_word_len(x);
    lemma_word_round_trip(bytes, at, x);
}

} // verus!
