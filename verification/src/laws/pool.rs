//! A string pool is read back as it was written.
use crate::components::{Header, ResourceType, StringPoolView, StyleSpan};
use crate::encoding::{
    concat, half_le, holds_at, lemma_concat_len, lemma_concat_uniform, lemma_half_len,
    lemma_holds_half, lemma_holds_part, lemma_holds_split, lemma_holds_word,
    lemma_total_nonnegative, lemma_total_step, lemma_word_len, running_offsets, total, word_le,
    zeros,
};
use crate::grammar::{
    parse_header, parse_string_pool, parse_style, parse_styles, span_at, ParseError,
};
use crate::laws::strings::{lemma_strings_round_trip, string_readable};
use crate::laws::{
    lemma_header_wire_len, lemma_pool_wire_len, lemma_running_offsets_len, lemma_strings_wire_len,
    lemma_style_wire_len, lemma_styles_wire_len,
};
use crate::layout::{
    header_wire, span_wire, spans_wire, spec_padding, string_sizes, string_wires, style_size,
    style_sizes, style_wire, style_wires, WIRE_MAX,
};
use vstd::prelude::*;

verus! {

/// The tag of a chunk is read back as it was written.
pub proof fn lemma_header_round_trip(
    bytes: Seq<u8>,
    at: int,
    kind: ResourceType,
    header_size: int,
    size: int,
)
    requires
        0 <= header_size < 0x1_0000,
        0 <= size <= WIRE_MAX,
        holds_at(bytes, at, header_wire(kind, header_size, size)),
    ensures
        parse_header(bytes, at) == Ok::<Header, ParseError>(
            Header { resource_type: kind, header_size: header_size as u16, size: size as u64 },
        ),
        at + 8 <= bytes.len(),
{
    broadcast use {lemma_half_len, lemma_word_len};

    let code = half_le(kind.spec_code() as int);
    lemma_holds_split(bytes, at, code + half_le(header_size), word_le(size));
    lemma_holds_split(bytes, at, code, half_le(header_size));
    lemma_holds_half(bytes, at, kind.spec_code() as int);
    lemma_holds_half(bytes, at + 2, header_size);
    lemma_holds_word(bytes, at + 4, size);
}

/// Whether a style is read back as it was written: none of its spans is
/// named by the word that ends a style.
pub open spec fn style_readable(spans: Seq<StyleSpan>) -> bool {
    forall|i: int| 0 <= i < spans.len() ==> (#[trigger] spans[i]).name != 0xFFFF_FFFF
}

/// The spans of a style from the `k`-th on are read back as they were
/// written.
pub proof fn lemma_style_tail_round_trip(bytes: Seq<u8>, at: int, spans: Seq<StyleSpan>, k: int)
    requires
        0 <= k <= spans.len(),
        style_readable(spans),
        holds_at(bytes, at, style_wire(spans)),
    ensures
        parse_style(bytes, at + 12 * k) == Ok::<(Seq<StyleSpan>, int), ParseError>(
            (spans.skip(k), at + style_size(spans)),
        ),
    decreases spans.len() - k,
{
    broadcast use lemma_word_len;

    let parts = Seq::new(spans.len(), |i: int| span_wire(spans[i]));
    lemma_concat_uniform(parts, 12);
    lemma_holds_split(bytes, at, spans_wire(spans), word_le(0xFFFF_FFFF));
    if k == spans.len() {
        lemma_holds_word(bytes, at + 12 * k, 0xFFFF_FFFF);
        assert(spans.skip(k) =~= Seq::<StyleSpan>::empty());
    } else {
        lemma_style_tail_round_trip(bytes, at, spans, k + 1);
        lemma_holds_part(bytes, at, parts, k);
        lemma_concat_uniform(parts.take(k), 12);
        let here = at + 12 * k;
        let span = spans[k];
        lemma_holds_split(
            bytes,
            here,
            word_le(span.name as int) + word_le(span.start as int),
            word_le(span.end as int),
        );
        lemma_holds_split(bytes, here, word_le(span.name as int), word_le(span.start as int));
        lemma_holds_word(bytes, here, span.name as int);
        lemma_holds_word(bytes, here + 4, span.start as int);
        lemma_holds_word(bytes, here + 8, span.end as int);
        assert(span_at(bytes, here) == span);
        assert(spans.skip(k) =~= seq![span] + spans.skip(k + 1));
    }
}

/// A style is read back as it was written.
pub proof fn lemma_style_round_trip(bytes: Seq<u8>, at: int, spans: Seq<StyleSpan>)
    requires
        style_readable(spans),
        holds_at(bytes, at, style_wire(spans)),
    ensures
        parse_style(bytes, at) == Ok::<(Seq<StyleSpan>, int), ParseError>(
            (spans, at + style_size(spans)),
        ),
{
    lemma_style_tail_round_trip(bytes, at, spans, 0);
    assert(spans.skip(0) =~= spans);
}

/// The first `n` styles of a pool are read back as they were written.
pub proof fn lemma_styles_round_trip(bytes: Seq<u8>, at: int, styles: Seq<Seq<StyleSpan>>, n: int)
    requires
        0 <= n <= styles.len(),
        forall|i: int| 0 <= i < styles.len() ==> style_readable(#[trigger] styles[i]),
        holds_at(bytes, at, concat(style_wires(styles))),
    ensures
        parse_styles(bytes, at, n) == Ok::<(Seq<Seq<StyleSpan>>, int), ParseError>(
            (styles.take(n), at + total(style_sizes(styles).take(n))),
        ),
    decreases n,
{
    if n == 0 {
        assert(styles.take(0) =~= Seq::<Seq<StyleSpan>>::empty());
        assert(style_sizes(styles).take(0) =~= Seq::<int>::empty());
    } else {
        let wires = style_wires(styles);
        let sizes = style_sizes(styles);
        lemma_styles_round_trip(bytes, at, styles, n - 1);
        lemma_holds_part(bytes, at, wires, n - 1);
        assert forall|k: int| 0 <= k < n - 1 implies (#[trigger] wires.take(n - 1)[k]).len()
            == sizes.take(n - 1)[k] by {
            lemma_style_wire_len(styles[k]);
        }
        lemma_concat_len(wires.take(n - 1), sizes.take(n - 1));
        lemma_style_round_trip(bytes, at + total(sizes.take(n - 1)), styles[n - 1]);
        lemma_total_step(sizes, n - 1);
        assert(styles.take(n) =~= styles.take(n - 1).push(styles[n - 1]));
    }
}

impl StringPoolView {
    /// Whether the pool is read back as it was written: it fits the format,
    /// every string is readable, and so is every style.
    pub open spec fn readable(self) -> bool {
        &&& self.representable()
        &&& forall|i: int|
            0 <= i < self.strings.len() ==> string_readable(
                #[trigger] self.strings[i],
                self.use_utf8(),
            )
        &&& forall|i: int| 0 <= i < self.styles.len() ==> style_readable(#[trigger] self.styles[i])
    }
}

/// Where a pool that the bytes hold keeps each of its parts.
pub proof fn lemma_pool_parts(bytes: Seq<u8>, base: int, pool: StringPoolView)
    requires
        holds_at(bytes, base, pool.wire()),
    ensures
        holds_at(bytes, base, header_wire(ResourceType::StringPool, 0x1C, pool.size())),
        holds_at(bytes, base + 8, word_le(pool.strings.len() as int)),
        holds_at(bytes, base + 12, word_le(pool.styles.len() as int)),
        holds_at(bytes, base + 16, word_le(pool.flags as int)),
        holds_at(bytes, base + 20, word_le(pool.strings_start())),
        holds_at(bytes, base + 24, word_le(pool.styles_start())),
        holds_at(
            bytes,
            base + 28,
            concat(running_offsets(string_sizes(pool.strings, pool.use_utf8()))),
        ),
        holds_at(
            bytes,
            base + 28 + 4 * pool.strings.len(),
            concat(running_offsets(style_sizes(pool.styles))),
        ),
        holds_at(
            bytes,
            base + pool.strings_start(),
            concat(string_wires(pool.strings, pool.use_utf8())),
        ),
        holds_at(
            bytes,
            base + pool.strings_start() + pool.strings_length() + spec_padding(
                pool.strings_length(),
            ),
            concat(style_wires(pool.styles)),
        ),
        0 <= pool.strings_length(),
        0 <= base,
        base + pool.size() <= bytes.len(),
{
    broadcast use {lemma_half_len, lemma_word_len};

    let utf8 = pool.use_utf8();
    let sizes = string_sizes(pool.strings, utf8);
    let spans = style_sizes(pool.styles);
    lemma_total_nonnegative(sizes);
    lemma_total_nonnegative(spans);
    lemma_pool_wire_len(pool);
    lemma_header_wire_len(ResourceType::StringPool, 0x1C, pool.size());
    lemma_running_offsets_len(sizes);
    lemma_running_offsets_len(spans);
    lemma_strings_wire_len(pool.strings, utf8);
    lemma_styles_wire_len(pool.styles);
    let closing = if pool.styles.len() == 0 {
        Seq::<u8>::empty()
    } else {
        word_le(0xFFFF_FFFF) + word_le(0xFFFF_FFFF)
    };
    let head0 = header_wire(ResourceType::StringPool, 0x1C, pool.size());
    let head1 = head0 + word_le(pool.strings.len() as int);
    let head2 = head1 + word_le(pool.styles.len() as int);
    let head3 = head2 + word_le(pool.flags as int);
    let head4 = head3 + word_le(pool.strings_start());
    let head5 = head4 + word_le(pool.styles_start());
    let head6 = head5 + concat(running_offsets(sizes));
    let head7 = head6 + concat(running_offsets(spans));
    let head8 = head7 + concat(string_wires(pool.strings, utf8));
    let head9 = head8 + zeros(spec_padding(pool.strings_length()));
    let head10 = head9 + concat(style_wires(pool.styles));
    assert(pool.wire() == head10 + closing);
    lemma_holds_split(bytes, base, head10, closing);
    lemma_holds_split(bytes, base, head9, concat(style_wires(pool.styles)));
    lemma_holds_split(bytes, base, head8, zeros(spec_padding(pool.strings_length())));
    lemma_holds_split(bytes, base, head7, concat(string_wires(pool.strings, utf8)));
    lemma_holds_split(bytes, base, head6, concat(running_offsets(spans)));
    lemma_holds_split(bytes, base, head5, concat(running_offsets(sizes)));
    lemma_holds_split(bytes, base, head4, word_le(pool.styles_start()));
    lemma_holds_split(bytes, base, head3, word_le(pool.strings_start()));
    lemma_holds_split(bytes, base, head2, word_le(pool.flags as int));
    lemma_holds_split(bytes, base, head1, word_le(pool.styles.len() as int));
    lemma_holds_split(bytes, base, head0, word_le(pool.strings.len() as int));
}

/// Decoding a string pool that was encoded gives the pool back, in either
/// encoding of its strings, and ends where the chunk ends.
pub proof fn lemma_pool_round_trip(bytes: Seq<u8>, base: int, pool: StringPoolView)
    requires
        pool.readable(),
        holds_at(bytes, base, pool.wire()),
    ensures
        parse_string_pool(bytes, base) == Ok::<(StringPoolView, int), ParseError>(
            (pool, base + pool.size()),
        ),
        base + pool.size() <= bytes.len(),
{
    reveal(parse_string_pool);
    let utf8 = pool.use_utf8();
    lemma_total_nonnegative(style_sizes(pool.styles));
    lemma_pool_parts(bytes, base, pool);
    lemma_header_round_trip(bytes, base, ResourceType::StringPool, 0x1C, pool.size());
    lemma_holds_word(bytes, base + 8, pool.strings.len() as int);
    lemma_holds_word(bytes, base + 12, pool.styles.len() as int);
    lemma_holds_word(bytes, base + 16, pool.flags as int);
    lemma_holds_word(bytes, base + 20, pool.strings_start());
    lemma_holds_word(bytes, base + 24, pool.styles_start());
    lemma_strings_round_trip(
        bytes,
        base + pool.strings_start(),
        pool.strings,
        utf8,
        pool.strings.len() as int,
    );
    assert(pool.strings.take(pool.strings.len() as int) =~= pool.strings);
    if pool.styles.len() > 0 {
        lemma_styles_round_trip(
            bytes,
            base + pool.styles_start(),
            pool.styles,
            pool.styles.len() as int,
        );
    } else {
        assert(pool.styles =~= Seq::<Seq<StyleSpan>>::empty());
    }
    assert(pool.styles.take(pool.styles.len() as int) =~= pool.styles);
}

/// String-pool idempotence: decoding an encoded pool and encoding what was
/// decoded gives the very same bytes, in either encoding of the strings.
pub proof fn lemma_pool_decode_encode(pool: StringPoolView)
    requires
        pool.readable(),
    ensures
        parse_string_pool(pool.wire(), 0) is Ok,
        parse_string_pool(pool.wire(), 0)->Ok_0.0.wire() == pool.wire(),
        parse_string_pool(pool.wire(), 0)->Ok_0.1 == pool.wire().len(),
{
    let bytes = pool.wire();
    assert(bytes.subrange(0, bytes.len() as int) =~= bytes);
    lemma_pool_wire_len(pool);
    lemma_pool_round_trip(bytes, 0, pool);
}

} // verus!
