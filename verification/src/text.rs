//! Strings as UTF-8 bytes and as UTF-16 code units.
use vstd::prelude::*;
use vstd::utf8::{decode_utf8, valid_utf8};

verus! {

/// The UTF-16 code units of one character: the character itself below
/// U+10000, a surrogate pair from there on.
pub open spec fn utf16_of_char(c: char) -> Seq<u16> {
    let v = c as u32 as int;
    if v < 0x1_0000 {
        seq![v as u16]
    } else {
        seq![(0xD800 + (v - 0x1_0000) / 0x400) as u16, (0xDC00 + (v - 0x1_0000) % 0x400) as u16]
    }
}

/// The UTF-16 code units of a sequence of characters.
pub open spec fn encode_utf16(chars: Seq<char>) -> Seq<u16>
    decreases chars.len(),
{
    if chars.len() == 0 {
        seq![]
    } else {
        utf16_of_char(chars[0]) + encode_utf16(chars.drop_first())
    }
}

/// Whether `units` is the UTF-16 form of some sequence of characters.
pub open spec fn valid_utf16(units: Seq<u16>) -> bool {
    exists|chars: Seq<char>| encode_utf16(chars) == units
}

/// The characters that `units` stands for; meaningful where `valid_utf16` holds.
pub open spec fn decode_utf16(units: Seq<u16>) -> Seq<char> {
    choose|chars: Seq<char>| encode_utf16(chars) == units
}

/// A character is written as one unit that is no surrogate, or as a high
/// surrogate followed by a low one.
pub proof fn lemma_utf16_of_char(c: char)
    ensures
        (c as u32) < 0x1_0000 ==> utf16_of_char(c).len() == 1 && utf16_of_char(c)[0] == c as u32
            && !(0xD800 <= utf16_of_char(c)[0] <= 0xDFFF),
        (c as u32) >= 0x1_0000 ==> utf16_of_char(c).len() == 2 && 0xD800 <= utf16_of_char(c)[0]
            <= 0xDBFF && 0xDC00 <= utf16_of_char(c)[1] <= 0xDFFF && (c as u32) == 0x1_0000 + (
        utf16_of_char(c)[0] - 0xD800) * 0x400 + (utf16_of_char(c)[1] - 0xDC00),
{
    vstd::utf8::char_is_scalar(c);
}

/// Two sequences of characters with the same code units are the same.
pub proof fn lemma_encode_utf16_injective(a: Seq<char>, b: Seq<char>)
    requires
        encode_utf16(a) == encode_utf16(b),
    ensures
        a == b,
    decreases a.len(),
{
    if a.len() == 0 {
        if b.len() > 0 {
            lemma_utf16_of_char(b[0]);
            assert(encode_utf16(b).len() >= 1);
        }
        assert(a =~= b);
    } else {
        lemma_utf16_of_char(a[0]);
        if b.len() == 0 {
            assert(encode_utf16(a).len() >= 1);
        } else {
            lemma_utf16_of_char(b[0]);
            let ua = utf16_of_char(a[0]);
            let ub = utf16_of_char(b[0]);
            let ra = encode_utf16(a.drop_first());
            let rb = encode_utf16(b.drop_first());
            assert(encode_utf16(a) == ua + ra);
            assert(encode_utf16(b) == ub + rb);
            assert((ua + ra)[0] == ua[0]);
            assert((ub + rb)[0] == ub[0]);
            assert(ua.len() == ub.len());
            if ua.len() == 2 {
                assert((ua + ra)[1] == ua[1]);
                assert((ub + rb)[1] == ub[1]);
            }
            assert(a[0] as u32 == b[0] as u32);
            vstd::utf8::char_u32_cast(a[0], a[0] as u32);
            vstd::utf8::char_u32_cast(b[0], b[0] as u32);
            assert(a[0] == b[0]);
            assert(ra =~= (ua + ra).skip(ua.len() as int));
            assert(rb =~= (ub + rb).skip(ub.len() as int));
            lemma_encode_utf16_injective(a.drop_first(), b.drop_first());
            assert(a =~= seq![a[0]] + a.drop_first());
            assert(b =~= seq![b[0]] + b.drop_first());
        }
    }
}

/// Decoding the code units of a sequence of characters gives it back.
pub proof fn lemma_decode_utf16(chars: Seq<char>)
    ensures
        valid_utf16(encode_utf16(chars)),
        decode_utf16(encode_utf16(chars)) == chars,
{
    lemma_encode_utf16_injective(decode_utf16(encode_utf16(chars)), chars);
}

/// The code units of a sequence grown by one character are those of the
/// sequence followed by those of the character.
pub proof fn lemma_encode_utf16_push(chars: Seq<char>, c: char)
    ensures
        encode_utf16(chars.push(c)) == encode_utf16(chars) + utf16_of_char(c),
    decreases chars.len(),
{
    if chars.len() == 0 {
        let one = chars.push(c);
        assert(one.drop_first() =~= Seq::<char>::empty());
        assert(encode_utf16(one.drop_first()) =~= Seq::<u16>::empty());
        assert(encode_utf16(one) == utf16_of_char(one[0]) + encode_utf16(one.drop_first()));
        assert(encode_utf16(one) =~= utf16_of_char(c));
        assert(encode_utf16(chars) + utf16_of_char(c) =~= utf16_of_char(c));
    } else {
        assert(chars.push(c).drop_first() =~= chars.drop_first().push(c));
        lemma_encode_utf16_push(chars.drop_first(), c);
        assert(utf16_of_char(chars[0]) + (encode_utf16(chars.drop_first()) + utf16_of_char(c))
            =~= (utf16_of_char(chars[0]) + encode_utf16(chars.drop_first())) + utf16_of_char(c));
    }
}

/// The UTF-16 code units of `text`.
pub fn utf16_units(text: &str) -> (units: Vec<u16>)
    ensures
        units@ == encode_utf16(text@),
{
    let mut units: Vec<u16> = Vec::new();
    for c in iter: text.chars()
        invariant
            iter.seq() == text@,
            units@ == encode_utf16(iter.seq().take(iter.index() as int)),
    {
        proof {
            lemma_encode_utf16_push(iter.seq().take(iter.index() as int), c);
            assert(iter.seq().take(iter.index() + 1) =~= iter.seq().take(iter.index() as int).push(
                c,
            ));
            vstd::utf8::char_is_scalar(c);
        }
        let scalar = c as u32;
        if scalar < 0x1_0000 {
            units.push(scalar as u16);
        } else {
            units.push((0xD800 + (scalar - 0x1_0000) / 0x400) as u16);
            units.push((0xDC00 + (scalar - 0x1_0000) % 0x400) as u16);
        }
        assert(units@ =~= encode_utf16(iter.seq().take(iter.index() as int)) + utf16_of_char(c));
    }
    assert(text@.take(text@.len() as int) =~= text@);
    units
}

/// The string that `String::from_utf16` makes of `units`. The contract claims
/// that a string comes back exactly when `units` is well-formed UTF-16, and
/// that its code units are then `units`.
#[verifier::external_body]
pub(crate) fn string_from_utf16(units: &Vec<u16>) -> (text: Option<String>)
    ensures
        text is Some <==> valid_utf16(units@),
        text is Some ==> encode_utf16(text->0@) == units@,
{
    match String::from_utf16(units) {
        Ok(text) => Some(text),
        Err(_) => None,
    }
}

/// The string that `String::from_utf8` makes of `bytes`. The contract claims
/// that a string comes back exactly when `bytes` is well-formed UTF-8, and
/// that its characters are then those that the bytes encode.
#[verifier::external_body]
pub(crate) fn string_from_utf8(bytes: Vec<u8>) -> (text: Option<String>)
    ensures
        text is Some <==> valid_utf8(bytes@),
        text is Some ==> text->0@ == decode_utf8(bytes@),
{
    match String::from_utf8(bytes) {
        Ok(text) => Some(text),
        Err(_) => None,
    }
}

} // verus!
