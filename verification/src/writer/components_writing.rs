//! The serializer: every node appended to a byte buffer in its wire form.
use crate::components::{
    Arsc, Config, Header, Package, ResourceEntry, ResourceValue, ResourceValueView, Spec, Specs,
    StringPool, Style, StyleSpan, Type, Value, RES_STRING_POOL_SPAN_END,
};
use crate::encoding::{
    concat, half_le, lemma_concat_step, lemma_total_monotone, lemma_total_nonnegative,
    lemma_total_step, running_offsets, total, word_le, zeros,
};
use crate::layout::{
    config_wires, entry_offsets, entry_sizes, entry_wires, name_wire, package_wires, span_wire,
    spec_padding, string_representable, string_sizes, string_wires, style_sizes, style_wire,
    style_wires, type_wires, utf16_length_wire, utf8_length_wire, WIRE_MAX,
};
use crate::text::{encode_utf16, utf16_units};
use crate::writer::components_sizing::{
    lemma_entry_sizes_nonnegative, lemma_pool_size_bound, lemma_type_sizes_nonnegative, padding,
};
use crate::writer::write_util::{
    write_bytes, write_string_utf16, write_u16, write_u32, write_u8, write_units, write_zeros,
};
use vstd::prelude::*;

verus! {

broadcast use {
    vstd::std_specs::btree::group_btree_axioms,
    vstd::laws_cmp::group_laws_cmp,
    crate::encoding::lemma_half_len,
    crate::encoding::lemma_word_len,
};

impl Header {
    /// Appends the tag of a chunk: its kind, the length of its header and its
    /// total length.
    pub fn write(&self, output: &mut Vec<u8>) -> (written: usize)
        requires
            self.size <= WIRE_MAX,
        ensures
            final(output)@ == old(output)@ + self.wire(),
            written == 8,
    {
        write_u16(output, self.resource_type.code());
        write_u16(output, self.header_size);
        write_u32(output, self.size as u32);
        assert(output@ =~= old(output)@ + self.wire());
        8
    }
}

impl StyleSpan {
    /// Appends the three words of a span.
    pub fn write(&self, output: &mut Vec<u8>) -> (written: usize)
        ensures
            final(output)@ == old(output)@ + span_wire(*self),
            written == 12,
    {
        write_u32(output, self.name);
        write_u32(output, self.start);
        write_u32(output, self.end);
        assert(output@ =~= old(output)@ + span_wire(*self));
        12
    }
}

impl Style {
    /// Appends the spans and the word that ends them.
    pub fn write(&self, output: &mut Vec<u8>) -> (written: usize)
        ensures
            final(output)@ == old(output)@ + style_wire(self@),
            written == final(output)@.len() - old(output)@.len(),
    {
        let before = output.len();
        let ghost parts = Seq::new(self@.len(), |i: int| span_wire(self@[i]));
        let mut i: usize = 0;
        while i < self.spans.len()
            invariant
                i <= self.spans@.len(),
                parts == Seq::new(self@.len(), |i: int| span_wire(self@[i])),
                output@ == old(output)@ + concat(parts.take(i as int)),
            decreases self.spans@.len() - i,
        {
            self.spans[i].write(output);
            proof {
                lemma_concat_step(parts, i as int);
                assert(output@ =~= old(output)@ + concat(parts.take(i + 1)));
            }
            i += 1;
        }
        write_u32(output, RES_STRING_POOL_SPAN_END);
        proof {
            assert(parts.take(i as int) =~= parts);
            assert(output@ =~= old(output)@ + style_wire(self@));
        }
        output.len() - before
    }
}

impl StringPool {
    /// Appends a length before a UTF-8 string.
    pub fn write_utf8_length(output: &mut Vec<u8>, length: usize) -> (written: usize)
        requires
            length < 0x8000,
        ensures
            final(output)@ == old(output)@ + utf8_length_wire(length as int),
            written == utf8_length_wire(length as int).len(),
    {
        if length > 0x7F {
            write_u8(output, (0x80 + length / 256) as u8);
            write_u8(output, (length % 256) as u8);
            assert(output@ =~= old(output)@ + utf8_length_wire(length as int));
            2
        } else {
            write_u8(output, length as u8);
            assert(output@ =~= old(output)@ + utf8_length_wire(length as int));
            1
        }
    }

    /// Appends a length before a UTF-16 string.
    pub fn write_utf16_length(output: &mut Vec<u8>, length: usize) -> (written: usize)
        requires
            length < 0x8000_0000,
        ensures
            final(output)@ == old(output)@ + utf16_length_wire(length as int),
            written == utf16_length_wire(length as int).len(),
    {
        if length > 0x7FFF {
            write_u16(output, (0x8000 + length % 0x8000) as u16);
            write_u16(output, (length / 0x8000) as u16);
            assert(output@ =~= old(output)@ + utf16_length_wire(length as int));
            4
        } else {
            write_u16(output, length as u16);
            assert(output@ =~= old(output)@ + utf16_length_wire(length as int));
            2
        }
    }

    /// Appends the strings, each in the form that the pool's flags select.
    pub fn write_strings(&self, output: &mut Vec<u8>) -> (written: usize)
        requires
            forall|i: int|
                0 <= i < self@.strings.len() ==> string_representable(
                    #[trigger] self@.strings[i],
                    self@.use_utf8(),
                ),
        ensures
            final(output)@ == old(output)@ + concat(string_wires(self@.strings, self@.use_utf8())),
            written == final(output)@.len() - old(output)@.len(),
    {
        let before = output.len();
        let utf8 = self.use_utf8();
        let ghost parts = string_wires(self@.strings, utf8);
        let mut i: usize = 0;
        while i < self.strings.len()
            invariant
                i <= self.strings@.len(),
                utf8 == self@.use_utf8(),
                parts == string_wires(self@.strings, utf8),
                output@ == old(output)@ + concat(parts.take(i as int)),
                forall|i: int|
                    0 <= i < self@.strings.len() ==> string_representable(
                        #[trigger] self@.strings[i],
                        utf8,
                    ),
            decreases self.strings@.len() - i,
        {
            let ghost start = output@;
            let string = self.strings[i].as_str();
            assert(string_representable(self@.strings[i as int], utf8));
            if utf8 {
                let bytes = string.as_bytes();
                StringPool::write_utf8_length(output, string.unicode_len());
                StringPool::write_utf8_length(output, bytes.len());
                write_bytes(output, bytes);
                write_u8(output, 0);
            } else {
                let units = utf16_units(string);
                StringPool::write_utf16_length(output, units.len());
                write_units(output, &units);
                write_u16(output, 0);
            }
            proof {
                lemma_concat_step(parts, i as int);
                assert(output@ =~= start + parts[i as int]);
                assert(output@ =~= old(output)@ + concat(parts.take(i + 1)));
            }
            i += 1;
        }
        assert(parts.take(i as int) =~= parts);
        output.len() - before
    }

    /// Appends, for each string, its distance from the start of the string
    /// data, counting strings as UTF-8.
    pub fn write_utf8_offsets(&self, output: &mut Vec<u8>) -> (written: usize)
        requires
            self@.use_utf8(),
            self@.representable(),
        ensures
            final(output)@ == old(output)@ + concat(
                running_offsets(string_sizes(self@.strings, true)),
            ),
            written == final(output)@.len() - old(output)@.len(),
    {
        let before = output.len();
        let ghost sizes = string_sizes(self@.strings, true);
        let ghost parts = running_offsets(sizes);
        proof {
            lemma_pool_size_bound(self@);
            lemma_total_nonnegative(style_sizes(self@.styles));
        }
        let mut offset: usize = 0;
        let mut i: usize = 0;
        while i < self.strings.len()
            invariant
                i <= self.strings@.len(),
                self@.use_utf8(),
                self@.representable(),
                sizes == string_sizes(self@.strings, true),
                parts == running_offsets(sizes),
                total(sizes) <= WIRE_MAX,
                offset == total(sizes.take(i as int)),
                output@ == old(output)@ + concat(parts.take(i as int)),
            decreases self.strings@.len() - i,
        {
            proof {
                lemma_total_monotone(sizes, i as int);
                lemma_total_monotone(sizes, i + 1);
                lemma_total_step(sizes, i as int);
                lemma_concat_step(parts, i as int);
            }
            write_u32(output, offset as u32);
            assert(string_representable(self@.strings[i as int], true));
            let string_size = StringPool::utf8_string_size(self.strings[i].as_str()).unwrap();
            offset = offset + string_size;
            assert(output@ =~= old(output)@ + concat(parts.take(i + 1)));
            i += 1;
        }
        assert(parts.take(i as int) =~= parts);
        output.len() - before
    }

    /// Appends, for each string, its distance from the start of the string
    /// data, counting strings as UTF-16.
    pub fn write_utf16_offsets(&self, output: &mut Vec<u8>) -> (written: usize)
        requires
            !self@.use_utf8(),
            self@.representable(),
        ensures
            final(output)@ == old(output)@ + concat(
                running_offsets(string_sizes(self@.strings, false)),
            ),
            written == final(output)@.len() - old(output)@.len(),
    {
        let before = output.len();
        let ghost sizes = string_sizes(self@.strings, false);
        let ghost parts = running_offsets(sizes);
        proof {
            lemma_pool_size_bound(self@);
            lemma_total_nonnegative(style_sizes(self@.styles));
        }
        let mut offset: usize = 0;
        let mut i: usize = 0;
        while i < self.strings.len()
            invariant
                i <= self.strings@.len(),
                !self@.use_utf8(),
                self@.representable(),
                sizes == string_sizes(self@.strings, false),
                parts == running_offsets(sizes),
                total(sizes) <= WIRE_MAX,
                offset == total(sizes.take(i as int)),
                output@ == old(output)@ + concat(parts.take(i as int)),
            decreases self.strings@.len() - i,
        {
            proof {
                lemma_total_monotone(sizes, i as int);
                lemma_total_monotone(sizes, i + 1);
                lemma_total_step(sizes, i as int);
                lemma_concat_step(parts, i as int);
            }
            write_u32(output, offset as u32);
            assert(string_representable(self@.strings[i as int], false));
            let string_size = StringPool::utf16_string_size(self.strings[i].as_str()).unwrap();
            offset = offset + string_size;
            assert(output@ =~= old(output)@ + concat(parts.take(i + 1)));
            i += 1;
        }
        assert(parts.take(i as int) =~= parts);
        output.len() - before
    }

    /// Appends the offsets of the strings, in the form that the pool's flags
    /// select.
    pub fn write_string_offsets(&self, output: &mut Vec<u8>) -> (written: usize)
        requires
            self@.representable(),
        ensures
            final(output)@ == old(output)@ + concat(
                running_offsets(string_sizes(self@.strings, self@.use_utf8())),
            ),
            written == final(output)@.len() - old(output)@.len(),
    {
        if self.use_utf8() {
            self.write_utf8_offsets(output)
        } else {
            self.write_utf16_offsets(output)
        }
    }

    /// Appends, for each style, its distance from the start of the style data.
    pub fn write_style_offsets(&self, output: &mut Vec<u8>) -> (written: usize)
        requires
            self@.representable(),
        ensures
            final(output)@ == old(output)@ + concat(running_offsets(style_sizes(self@.styles))),
            written == final(output)@.len() - old(output)@.len(),
    {
        let before = output.len();
        let ghost sizes = style_sizes(self@.styles);
        let ghost parts = running_offsets(sizes);
        proof {
            lemma_pool_size_bound(self@);
            lemma_total_nonnegative(string_sizes(self@.strings, self@.use_utf8()));
            lemma_total_nonnegative(sizes);
        }
        let mut position: usize = 0;
        let mut i: usize = 0;
        while i < self.styles.len()
            invariant
                i <= self.styles@.len(),
                sizes == style_sizes(self@.styles),
                parts == running_offsets(sizes),
                total(sizes) <= WIRE_MAX,
                position == total(sizes.take(i as int)),
                output@ == old(output)@ + concat(parts.take(i as int)),
            decreases self.styles@.len() - i,
        {
            proof {
                lemma_total_monotone(sizes, i as int);
                lemma_total_monotone(sizes, i + 1);
                lemma_total_step(sizes, i as int);
                lemma_concat_step(parts, i as int);
            }
            write_u32(output, position as u32);
            position = position + (self.styles[i].spans.len() * 12 + 4);
            assert(output@ =~= old(output)@ + concat(parts.take(i + 1)));
            i += 1;
        }
        assert(parts.take(i as int) =~= parts);
        output.len() - before
    }

    /// Appends the styles, each with the word that ends it.
    pub fn write_styles(&self, output: &mut Vec<u8>) -> (written: usize)
        ensures
            final(output)@ == old(output)@ + concat(style_wires(self@.styles)),
            written == final(output)@.len() - old(output)@.len(),
    {
        let before = output.len();
        let ghost parts = style_wires(self@.styles);
        let mut i: usize = 0;
        while i < self.styles.len()
            invariant
                i <= self.styles@.len(),
                parts == style_wires(self@.styles),
                output@ == old(output)@ + concat(parts.take(i as int)),
            decreases self.styles@.len() - i,
        {
            self.styles[i].write(output);
            proof {
                lemma_concat_step(parts, i as int);
                assert(output@ =~= old(output)@ + concat(parts.take(i + 1)));
            }
            i += 1;
        }
        assert(parts.take(i as int) =~= parts);
        output.len() - before
    }

    /// Appends the pool: its tag, the counts and flags, where its string data
    /// and style data start, the two offset arrays, the strings padded to a
    /// multiple of four bytes, and the styles with their two closing words.
    pub fn write(&self, output: &mut Vec<u8>) -> (written: usize)
        requires
            self@.representable(),
        ensures
            final(output)@ == old(output)@ + self@.wire(),
            written == final(output)@.len() - old(output)@.len(),
    {
        let before = output.len();
        let ghost start = output@;
        let ghost view = self@;
        proof {
            lemma_total_nonnegative(string_sizes(view.strings, view.use_utf8()));
            lemma_total_nonnegative(style_sizes(view.styles));
        }
        let header = self.header();
        header.write(output);
        let ghost mut wire = header.wire();
        write_u32(output, self.strings.len() as u32);
        proof {
            wire = wire + word_le(view.strings.len() as int);
            assert(output@ =~= start + wire);
        }
        write_u32(output, self.styles.len() as u32);
        proof {
            wire = wire + word_le(view.styles.len() as int);
            assert(output@ =~= start + wire);
        }
        write_u32(output, self.flags);
        proof {
            wire = wire + word_le(view.flags as int);
            assert(output@ =~= start + wire);
        }
        let string_start = 28 + self.strings.len() * 4 + self.styles.len() * 4;
        write_u32(output, string_start as u32);
        proof {
            wire = wire + word_le(view.strings_start());
            assert(output@ =~= start + wire);
        }
        let string_length = self.strings_length();
        let string_padding = padding(string_length);
        let style_start = if self.styles.len() == 0 {
            0
        } else {
            string_start + string_length + string_padding
        };
        write_u32(output, style_start as u32);
        proof {
            wire = wire + word_le(view.styles_start());
            assert(output@ =~= start + wire);
        }
        self.write_string_offsets(output);
        proof {
            wire = wire + concat(running_offsets(string_sizes(view.strings, view.use_utf8())));
            assert(output@ =~= start + wire);
        }
        self.write_style_offsets(output);
        proof {
            wire = wire + concat(running_offsets(style_sizes(view.styles)));
            assert(output@ =~= start + wire);
        }
        self.write_strings(output);
        proof {
            wire = wire + concat(string_wires(view.strings, view.use_utf8()));
            assert(output@ =~= start + wire);
        }
        write_zeros(output, string_padding);
        proof {
            wire = wire + zeros(spec_padding(view.strings_length()));
            assert(output@ =~= start + wire);
        }
        self.write_styles(output);
        proof {
            wire = wire + concat(style_wires(view.styles));
            assert(output@ =~= start + wire);
        }
        if self.styles.len() != 0 {
            let ghost closed = output@;
            write_u32(output, 0xFFFF_FFFF);
            write_u32(output, 0xFFFF_FFFF);
            proof {
                assert(output@ =~= closed + (word_le(0xFFFF_FFFF) + word_le(0xFFFF_FFFF)));
                wire = wire + (word_le(0xFFFF_FFFF) + word_le(0xFFFF_FFFF));
                assert(output@ =~= start + wire);
            }
        } else {
            proof {
                wire = wire + Seq::<u8>::empty();
                assert(output@ =~= start + wire);
            }
        }
        assert(wire == view.wire());
        output.len() - before
    }
}

impl Value {
    /// Appends the eight bytes of a value.
    pub fn write(&self, output: &mut Vec<u8>) -> (written: usize)
        requires
            self.representable(),
        ensures
            final(output)@ == old(output)@ + self.wire(),
            written == 8,
    {
        write_u16(output, self.size);
        write_u8(output, self.zero);
        write_u8(output, self.data_type);
        write_u32(output, self.data_index as u32);
        assert(output@ =~= old(output)@ + self.wire());
        8
    }
}

impl ResourceValue {
    /// Appends a plain value, or a bag: its parent, the number of its pairs,
    /// and the pairs.
    pub fn write(&self, output: &mut Vec<u8>) -> (written: usize)
        requires
            self@.representable(),
        ensures
            final(output)@ == old(output)@ + self@.wire(),
            written == final(output)@.len() - old(output)@.len(),
    {
        let before = output.len();
        match self {
            ResourceValue::Plain(value) => {
                value.write(output);
            },
            ResourceValue::Bag { parent, values } => {
                let ghost view = ResourceValueView::Bag { parent: *parent, values: values@ };
                let ghost parts = Seq::new(
                    values@.len(),
                    |i: int| word_le(values@[i].0 as int) + values@[i].1.wire(),
                );
                write_u32(output, *parent);
                write_u32(output, values.len() as u32);
                let ghost fixed = output@;
                let mut i: usize = 0;
                while i < values.len()
                    invariant
                        i <= values@.len(),
                        view == (ResourceValueView::Bag { parent: *parent, values: values@ }),
                        view.representable(),
                        parts == Seq::new(
                            values@.len(),
                            |i: int| word_le(values@[i].0 as int) + values@[i].1.wire(),
                        ),
                        output@ == fixed + concat(parts.take(i as int)),
                    decreases values@.len() - i,
                {
                    assert(values@[i as int].1.representable());
                    write_u32(output, values[i].0);
                    values[i].1.write(output);
                    proof {
                        lemma_concat_step(parts, i as int);
                        assert(output@ =~= fixed + concat(parts.take(i + 1)));
                    }
                    i += 1;
                }
                proof {
                    assert(parts.take(i as int) =~= parts);
                    assert(output@ =~= old(output)@ + view.wire());
                }
            },
        }
        output.len() - before
    }
}

impl ResourceEntry {
    /// Appends the entry: the size of its own header (16 for a bag, 8 for a
    /// plain value), its flags, its name, and its value.
    pub fn write(&self, output: &mut Vec<u8>) -> (written: usize)
        requires
            self@.representable(),
        ensures
            final(output)@ == old(output)@ + self@.wire(),
            written == final(output)@.len() - old(output)@.len(),
    {
        let before = output.len();
        let size: u16 = if self.is_bag() {
            16
        } else {
            8
        };
        write_u16(output, size);
        write_u16(output, self.flags);
        write_u32(output, self.name_index as u32);
        self.value.write(output);
        assert(output@ =~= old(output)@ + self@.wire());
        output.len() - before
    }
}

impl Spec {
    /// Appends the flags of a spec.
    pub fn write(&self, output: &mut Vec<u8>) -> (written: usize)
        ensures
            final(output)@ == old(output)@ + word_le(self.flags as int),
            written == 4,
    {
        write_u32(output, self.flags)
    }
}

impl Specs {
    /// Appends the chunk: its tag, the type it belongs to, the two reserved
    /// fields, the number of specs, and the flags of each.
    pub fn write(&self, output: &mut Vec<u8>) -> (written: usize)
        requires
            self@.representable(),
        ensures
            final(output)@ == old(output)@ + self@.wire(),
            written == final(output)@.len() - old(output)@.len(),
    {
        let before = output.len();
        let ghost start = output@;
        let ghost view = self@;
        let header = self.header();
        header.write(output);
        write_u8(output, self.type_id as u8);
        write_u8(output, self.res0);
        write_u16(output, self.res1);
        write_u32(output, self.specs.len() as u32);
        let ghost fixed = output@;
        let ghost parts = Seq::new(view.specs.len(), |i: int| word_le(view.specs[i].flags as int));
        let mut i: usize = 0;
        while i < self.specs.len()
            invariant
                i <= self.specs@.len(),
                view == self@,
                parts == Seq::new(view.specs.len(), |i: int| word_le(view.specs[i].flags as int)),
                output@ == fixed + concat(parts.take(i as int)),
            decreases self.specs@.len() - i,
        {
            self.specs[i].write(output);
            proof {
                lemma_concat_step(parts, i as int);
                assert(output@ =~= fixed + concat(parts.take(i + 1)));
            }
            i += 1;
        }
        proof {
            assert(parts.take(i as int) =~= parts);
            assert(output@ =~= start + view.wire());
        }
        output.len() - before
    }
}

impl Config {
    /// Appends the offset table: for each spec index that has an entry, the
    /// total size of the entries before it; for each that has none,
    /// 0xFFFFFFFF.
    pub fn write_entries(&self, output: &mut Vec<u8>) -> (written: usize)
        requires
            self@.representable(),
        ensures
            final(output)@ == old(output)@ + concat(
                entry_offsets(self@.resources, self.entry_count as int),
            ),
            written == final(output)@.len() - old(output)@.len(),
    {
        let before = output.len();
        let ghost view = self@;
        let ghost sizes = entry_sizes(view.resources, self.entry_count as int);
        let ghost parts = entry_offsets(view.resources, self.entry_count as int);
        proof {
            lemma_entry_sizes_nonnegative(view.resources, self.entry_count as int);
        }
        let mut offset: usize = 0;
        let mut i: usize = 0;
        while i < self.entry_count
            invariant
                i <= self.entry_count,
                view == self@,
                view.representable(),
                sizes == entry_sizes(view.resources, self.entry_count as int),
                parts == entry_offsets(view.resources, self.entry_count as int),
                forall|k: int| 0 <= k < sizes.len() ==> sizes[k] >= 0,
                offset == total(sizes.take(i as int)),
                output@ == old(output)@ + concat(parts.take(i as int)),
            decreases self.entry_count - i,
        {
            proof {
                lemma_total_monotone(sizes, i as int);
                lemma_total_monotone(sizes, i + 1);
                lemma_total_step(sizes, i as int);
                lemma_concat_step(parts, i as int);
            }
            match self.resources.get(&i) {
                Some(entry) => {
                    assert(view.resources.contains_key(i));
                    assert(view.resources[i] == entry@);
                    write_u32(output, offset as u32);
                    offset = offset + entry.size().unwrap();
                },
                None => {
                    assert(!view.resources.contains_key(i));
                    write_u32(output, 0xFFFF_FFFF);
                },
            }
            assert(output@ =~= old(output)@ + concat(parts.take(i + 1)));
            i += 1;
        }
        assert(parts.take(i as int) =~= parts);
        output.len() - before
    }

    /// Appends the entries, in the order of their spec indices.
    pub fn write_resources(&self, output: &mut Vec<u8>) -> (written: usize)
        requires
            self@.representable(),
        ensures
            final(output)@ == old(output)@ + concat(
                entry_wires(self@.resources, self.entry_count as int),
            ),
            written == final(output)@.len() - old(output)@.len(),
    {
        let before = output.len();
        let ghost view = self@;
        let ghost parts = entry_wires(view.resources, self.entry_count as int);
        let mut i: usize = 0;
        while i < self.entry_count
            invariant
                i <= self.entry_count,
                view == self@,
                view.representable(),
                parts == entry_wires(view.resources, self.entry_count as int),
                output@ == old(output)@ + concat(parts.take(i as int)),
            decreases self.entry_count - i,
        {
            proof {
                lemma_concat_step(parts, i as int);
            }
            match self.resources.get(&i) {
                Some(entry) => {
                    assert(view.resources.contains_key(i));
                    assert(view.resources[i] == entry@);
                    entry.write(output);
                },
                None => {
                    assert(!view.resources.contains_key(i));
                },
            }
            assert(output@ =~= old(output)@ + concat(parts.take(i + 1)));
            i += 1;
        }
        assert(parts.take(i as int) =~= parts);
        output.len() - before
    }

    /// Appends the chunk: its tag, the type it belongs to, the two reserved
    /// fields, the number of slots, where the entries start, the qualifier
    /// blob padded to a multiple of four bytes, the offset table and the
    /// entries.
    pub fn write(&self, output: &mut Vec<u8>) -> (written: usize)
        requires
            self@.representable(),
        ensures
            final(output)@ == old(output)@ + self@.wire(),
            written == final(output)@.len() - old(output)@.len(),
    {
        let before = output.len();
        let ghost start = output@;
        let ghost view = self@;
        proof {
            lemma_entry_sizes_nonnegative(view.resources, self.entry_count as int);
            lemma_total_nonnegative(entry_sizes(view.resources, self.entry_count as int));
        }
        let header = self.header();
        header.write(output);
        let ghost mut wire = header.wire();
        let ghost fixed = output@;
        write_u8(output, self.type_id as u8);
        write_u8(output, self.res0);
        proof {
            assert(output@ =~= fixed + seq![view.type_id as u8, view.res0]);
            wire = wire + seq![view.type_id as u8, view.res0];
            assert(output@ =~= start + wire);
        }
        write_u16(output, self.res1);
        proof {
            wire = wire + half_le(view.res1 as int);
            assert(output@ =~= start + wire);
        }
        write_u32(output, self.entry_count as u32);
        proof {
            wire = wire + word_le(view.entry_count as int);
            assert(output@ =~= start + wire);
        }
        let id_padding = padding(self.id.len());
        let entry_start = 20 + self.id.len() + id_padding + self.entry_count * 4;
        write_u32(output, entry_start as u32);
        proof {
            wire = wire + word_le(view.entries_start());
            assert(output@ =~= start + wire);
        }
        write_bytes(output, self.id.as_slice());
        proof {
            wire = wire + view.id;
            assert(output@ =~= start + wire);
        }
        write_zeros(output, id_padding);
        proof {
            wire = wire + zeros(spec_padding(view.id.len() as int));
            assert(output@ =~= start + wire);
        }
        self.write_entries(output);
        proof {
            wire = wire + concat(entry_offsets(view.resources, view.entry_count as int));
            assert(output@ =~= start + wire);
        }
        self.write_resources(output);
        proof {
            wire = wire + concat(entry_wires(view.resources, view.entry_count as int));
            assert(output@ =~= start + wire);
        }
        assert(wire == view.wire());
        output.len() - before
    }
}

impl Type {
    /// Appends the spec chunk, if any, then the configurations in their order.
    pub fn write(&self, output: &mut Vec<u8>) -> (written: usize)
        requires
            self@.representable(),
        ensures
            final(output)@ == old(output)@ + self@.wire(),
            written == final(output)@.len() - old(output)@.len(),
    {
        let before = output.len();
        let ghost view = self@;
        let ghost parts = config_wires(view.configs);
        match &self.specs {
            Some(specs) => {
                specs.write(output);
            },
            None => {
                assert(output@ =~= old(output)@ + Seq::<u8>::empty());
            },
        }
        let ghost fixed = output@;
        let mut i: usize = 0;
        while i < self.configs.len()
            invariant
                i <= self.configs@.len(),
                view == self@,
                view.representable(),
                parts == config_wires(view.configs),
                output@ == fixed + concat(parts.take(i as int)),
            decreases self.configs@.len() - i,
        {
            assert(view.configs[i as int].representable());
            self.configs[i].write(output);
            proof {
                lemma_concat_step(parts, i as int);
                assert(output@ =~= fixed + concat(parts.take(i + 1)));
            }
            i += 1;
        }
        proof {
            assert(parts.take(i as int) =~= parts);
            assert(output@ =~= old(output)@ + view.wire());
        }
        output.len() - before
    }
}

impl Package {
    /// Appends the name in its fixed field: the code units of the name, then
    /// zero bytes up to 256 bytes.
    pub fn write_name(&self, output: &mut Vec<u8>) -> (written: usize)
        requires
            encode_utf16(self@.name).len() <= 128,
        ensures
            final(output)@ == old(output)@ + name_wire(self@.name),
            written == 256,
    {
        let string_written = write_string_utf16(output, self.name.as_str());
        write_zeros(output, 256 - string_written);
        assert(output@ =~= old(output)@ + name_wire(self@.name));
        256
    }

    /// Appends the fixed part of the chunk: its tag, the id, the name field,
    /// where the two pools start, and the two bookkeeping words as they are.
    pub fn write_preamble(&self, output: &mut Vec<u8>) -> (written: usize)
        requires
            self@.representable(),
        ensures
            final(output)@ == old(output)@ + self@.preamble_wire(),
            written == 288,
    {
        let ghost start = output@;
        let ghost view = self@;
        proof {
            lemma_pool_size_bound(view.type_names);
            lemma_pool_size_bound(view.key_names);
            lemma_type_sizes_nonnegative(view.types);
        }
        let header = self.header();
        header.write(output);
        let ghost mut wire = header.wire();
        write_u32(output, self.id);
        proof {
            wire = wire + word_le(view.id as int);
            assert(output@ =~= start + wire);
        }
        self.write_name(output);
        proof {
            wire = wire + name_wire(view.name);
            assert(output@ =~= start + wire);
        }
        let type_string_offset: usize = 288;
        write_u32(output, type_string_offset as u32);
        proof {
            wire = wire + word_le(view.type_strings_start());
            assert(output@ =~= start + wire);
        }
        write_u32(output, self.last_public_type);
        proof {
            wire = wire + word_le(view.last_public_type as int);
            assert(output@ =~= start + wire);
        }
        let key_string_offset = type_string_offset + self.type_names.size().unwrap();
        write_u32(output, key_string_offset as u32);
        proof {
            wire = wire + word_le(view.key_strings_start());
            assert(output@ =~= start + wire);
        }
        write_u32(output, self.last_public_key);
        proof {
            wire = wire + word_le(view.last_public_key as int);
            assert(output@ =~= start + wire);
        }
        write_u32(output, 0);
        proof {
            wire = wire + word_le(0);
            assert(output@ =~= start + wire);
            assert(wire == view.preamble_wire());
        }
        288
    }

    /// Appends the types, each with its spec chunk and its configurations.
    pub fn write_types(&self, output: &mut Vec<u8>) -> (written: usize)
        requires
            forall|i: int|
                0 <= i < self@.types.len() ==> (#[trigger] self@.types[i]).representable(),
        ensures
            final(output)@ == old(output)@ + concat(type_wires(self@.types)),
            written == final(output)@.len() - old(output)@.len(),
    {
        let before = output.len();
        let ghost view = self@;
        let ghost parts = type_wires(view.types);
        let mut i: usize = 0;
        while i < self.types.len()
            invariant
                i <= self.types@.len(),
                view == self@,
                forall|i: int|
                    0 <= i < view.types.len() ==> (#[trigger] view.types[i]).representable(),
                parts == type_wires(view.types),
                output@ == old(output)@ + concat(parts.take(i as int)),
            decreases self.types@.len() - i,
        {
            assert(view.types[i as int].representable());
            self.types[i].write(output);
            proof {
                lemma_concat_step(parts, i as int);
                assert(output@ =~= old(output)@ + concat(parts.take(i + 1)));
            }
            i += 1;
        }
        assert(parts.take(i as int) =~= parts);
        output.len() - before
    }

    /// Appends the chunk: its fixed part, the pool of type names, the pool of
    /// key names, and the types.
    pub fn write(&self, output: &mut Vec<u8>) -> (written: usize)
        requires
            self@.representable(),
        ensures
            final(output)@ == old(output)@ + self@.wire(),
            written == final(output)@.len() - old(output)@.len(),
    {
        let before = output.len();
        let ghost start = output@;
        let ghost view = self@;
        self.write_preamble(output);
        self.type_names.write(output);
        self.key_names.write(output);
        self.write_types(output);
        assert(output@ =~= start + view.wire());
        output.len() - before
    }
}

impl Arsc {
    /// Appends the packages, one after the other.
    pub fn write_packages(&self, output: &mut Vec<u8>) -> (written: usize)
        requires
            forall|i: int|
                0 <= i < self@.packages.len() ==> (#[trigger] self@.packages[i]).representable(),
        ensures
            final(output)@ == old(output)@ + concat(package_wires(self@.packages)),
            written == final(output)@.len() - old(output)@.len(),
    {
        let before = output.len();
        let ghost view = self@;
        let ghost parts = package_wires(view.packages);
        let mut i: usize = 0;
        while i < self.packages.len()
            invariant
                i <= self.packages@.len(),
                view == self@,
                forall|i: int|
                    0 <= i < view.packages.len() ==> (#[trigger] view.packages[i]).representable(),
                parts == package_wires(view.packages),
                output@ == old(output)@ + concat(parts.take(i as int)),
            decreases self.packages@.len() - i,
        {
            assert(view.packages[i as int].representable());
            self.packages[i].write(output);
            proof {
                lemma_concat_step(parts, i as int);
                assert(output@ =~= old(output)@ + concat(parts.take(i + 1)));
            }
            i += 1;
        }
        assert(parts.take(i as int) =~= parts);
        output.len() - before
    }

    /// Appends the whole table: its tag, the number of packages, the global
    /// pool, and the packages.
    pub fn write(&self, output: &mut Vec<u8>) -> (written: usize)
        requires
            self@.representable(),
        ensures
            final(output)@ == old(output)@ + self@.wire(),
            written == final(output)@.len() - old(output)@.len(),
    {
        let before = output.len();
        let ghost start = output@;
        let ghost view = self@;
        let header = self.header();
        header.write(output);
        let ghost mut wire = header.wire();
        write_u32(output, self.packages.len() as u32);
        proof {
            wire = wire + word_le(view.packages.len() as int);
            assert(output@ =~= start + wire);
        }
        self.global_string_pool.write(output);
        proof {
            wire = wire + view.global_string_pool.wire();
            assert(output@ =~= start + wire);
        }
        self.write_packages(output);
        proof {
            wire = wire + concat(package_wires(view.packages));
            assert(output@ =~= start + wire);
            assert(wire == view.wire());
        }
        output.len() - before
    }
}

} // verus!
