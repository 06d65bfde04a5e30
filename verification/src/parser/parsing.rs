//! A parser that keeps its place in the input.
use crate::components::{Arsc, Config, Header, Package, ResourceEntry, Specs, StringPool, Type};
use crate::encoding::{half_at, signed_word_at, word_at};
use crate::grammar::{
    attach_config, attach_specs, can_read, parse_config, parse_entries, parse_entry, parse_package,
    parse_specs, parse_string_pool, parse_table, units_at, until_zero_unit, ParseError,
};
use crate::parser::components_read::{views_of_entries, views_of_types};
use crate::parser::read_util::{read_i32, read_u16, read_u32, read_u8};
use crate::text::{decode_utf16, valid_utf16};
use std::collections::BTreeMap;
use vstd::prelude::*;

verus! {

/// The input and the place in it where the next read starts.
pub struct Parser<'a> {
    pub input: &'a [u8],
    pub position: usize,
}

impl<'a> Parser<'a> {
    /// A parser at the start of `input`.
    pub fn new(input: &'a [u8]) -> (made: Parser<'a>)
        ensures
            made.input == input,
            made.position == 0,
    {
        Parser { input, position: 0 }
    }

    /// Reads the whole input, from its start, as a table, and leaves the
    /// parser at the start.
    pub fn parse(&mut self) -> (result: Result<Arsc, ParseError>)
        ensures
            final(self).input == old(self).input,
            final(self).position == 0,
            match (result, parse_table(old(self).input@)) {
                (Ok(table), Ok(view)) => table@ == view,
                (Err(found), Err(error)) => found == error,
                _ => false,
            },
    {
        self.position = 0;
        Arsc::parse(self.input)
    }

    /// Reads the package whose chunk starts at the parser's place and moves
    /// behind its last chunk.
    pub fn parse_package(&mut self) -> (result: Result<Package, ParseError>)
        ensures
            final(self).input == old(self).input,
            match (result, parse_package(old(self).input@, old(self).position as int)) {
                (Ok(package), Ok((view, end))) => package@ == view && final(self).position == end,
                (Err(found), Err(error)) => found == error && final(self).position == old(
                    self,
                ).position,
                _ => false,
            },
    {
        match Package::parse(self.input, self.position) {
            Err(error) => Err(error),
            Ok((package, next)) => {
                self.position = next;
                Ok(package)
            },
        }
    }

    /// Reads the string pool whose chunk starts at the parser's place and
    /// moves to where the chunk says it ends.
    pub fn parse_string_pool(&mut self) -> (result: Result<StringPool, ParseError>)
        ensures
            final(self).input == old(self).input,
            match (result, parse_string_pool(old(self).input@, old(self).position as int)) {
                (Ok(pool), Ok((view, end))) => pool@ == view && final(self).position == end,
                (Err(found), Err(error)) => found == error && final(self).position == old(
                    self,
                ).position,
                _ => false,
            },
    {
        match StringPool::parse(self.input, self.position) {
            Err(error) => Err(error),
            Ok((pool, next)) => {
                self.position = next;
                Ok(pool)
            },
        }
    }

    /// Reads the name of a package from its fixed field of 128 code units
    /// and moves behind the field.
    pub fn parse_package_name(&mut self) -> (result: Result<String, ParseError>)
        ensures
            final(self).input == old(self).input,
            match result {
                Ok(text) => {
                    &&& can_read(old(self).input@, old(self).position as int, 256)
                    &&& valid_utf16(
                        until_zero_unit(units_at(old(self).input@, old(self).position as int, 128)),
                    )
                    &&& text@ == decode_utf16(
                        until_zero_unit(units_at(old(self).input@, old(self).position as int, 128)),
                    )
                    &&& final(self).position == old(self).position + 256
                },
                Err(error) => {
                    &&& final(self).position == old(self).position
                    &&& if !can_read(old(self).input@, old(self).position as int, 256) {
                        error == ParseError::UnexpectedEof
                    } else {
                        &&& !valid_utf16(
                            until_zero_unit(
                                units_at(old(self).input@, old(self).position as int, 128),
                            ),
                        )
                        &&& error == ParseError::InvalidString
                    }
                },
            },
    {
        match Package::parse_package_name(self.input, self.position) {
            Err(error) => Err(error),
            Ok(name) => {
                self.position = self.position + 256;
                Ok(name)
            },
        }
    }

    /// Reads the spec chunk whose tag `header` ends at the parser's place,
    /// gives it to the type that it names, and moves behind the chunk. The
    /// tag takes eight bytes: a parser that stands before the eighth byte of
    /// its input has no tag behind it.
    pub fn parse_specs(&mut self, header: Header, types: &mut Vec<Type>) -> (result: Result<
        (),
        ParseError,
    >)
        ensures
            final(self).input == old(self).input,
            match parse_specs(old(self).input@, old(self).position - 8, header) {
                Err(error) => result == Err::<(), ParseError>(error),
                Ok((specs, end)) => match attach_specs(views_of_types(old(types)@), specs) {
                    Err(error) => result == Err::<(), ParseError>(error),
                    Ok(attached) => {
                        &&& result is Ok
                        &&& views_of_types(final(types)@) == attached
                        &&& final(self).position == end
                    },
                },
            },
    {
        if self.position < 8 {
            proof {
                reveal(parse_specs);
            }
            return Err(ParseError::UnexpectedEof);
        }
        match Specs::parse(self.input, self.position - 8, header) {
            Err(error) => Err(error),
            Ok((specs, next)) => match Type::attach_specs(types, specs) {
                Err(error) => Err(error),
                Ok(_) => {
                    self.position = next;
                    Ok(())
                },
            },
        }
    }

    /// Reads the configuration whose tag `header` ends at the parser's
    /// place, adds it to the type that it names, and moves behind its last
    /// entry.
    pub fn parse_config(&mut self, header: Header, types: &mut Vec<Type>) -> (result: Result<
        (),
        ParseError,
    >)
        ensures
            final(self).input == old(self).input,
            match parse_config(old(self).input@, old(self).position - 8, header) {
                Err(error) => result == Err::<(), ParseError>(error),
                Ok((config, end)) => match attach_config(views_of_types(old(types)@), config) {
                    Err(error) => result == Err::<(), ParseError>(error),
                    Ok(attached) => {
                        &&& result is Ok
                        &&& views_of_types(final(types)@) == attached
                        &&& final(self).position == end
                    },
                },
            },
    {
        if self.position < 8 {
            proof {
                reveal(parse_config);
            }
            return Err(ParseError::UnexpectedEof);
        }
        match Config::parse(self.input, self.position - 8, header) {
            Err(error) => Err(error),
            Ok((config, next)) => match Type::attach_config(types, config) {
                Err(error) => Err(error),
                Ok(_) => {
                    self.position = next;
                    Ok(())
                },
            },
        }
    }

    /// Reads the qualifier blob at the parser's place and moves behind it.
    pub fn parse_config_id(&mut self) -> (result: Result<Vec<u8>, ParseError>)
        ensures
            final(self).input == old(self).input,
            match result {
                Ok(id) => {
                    &&& can_read(old(self).input@, old(self).position as int, 4)
                    &&& can_read(
                        old(self).input@,
                        old(self).position as int,
                        word_at(old(self).input@, old(self).position as int),
                    )
                    &&& id@ == old(self).input@.subrange(
                        old(self).position as int,
                        old(self).position + word_at(old(self).input@, old(self).position as int),
                    )
                    &&& final(self).position == old(self).position + word_at(
                        old(self).input@,
                        old(self).position as int,
                    )
                },
                Err(error) => {
                    &&& error == ParseError::UnexpectedEof
                    &&& final(self).position == old(self).position
                    &&& !can_read(old(self).input@, old(self).position as int, 4) || !can_read(
                        old(self).input@,
                        old(self).position as int,
                        word_at(old(self).input@, old(self).position as int),
                    )
                },
            },
    {
        match Config::parse_config_id(self.input, self.position) {
            Err(error) => Err(error),
            Ok((id, next)) => {
                self.position = next;
                Ok(id)
            },
        }
    }

    /// Reads the entries of a configuration whose offset table of
    /// `entry_count` words starts at the parser's place, and moves behind
    /// the last entry.
    pub fn parse_config_resources(&mut self, entry_count: usize) -> (result: Result<
        BTreeMap<usize, ResourceEntry>,
        ParseError,
    >)
        ensures
            final(self).input == old(self).input,
            match result {
                Ok(resources) => {
                    &&& can_read(old(self).input@, old(self).position as int, 4 * entry_count)
                    &&& parse_entries(
                        old(self).input@,
                        old(self).position as int,
                        old(self).position + 4 * entry_count,
                        entry_count as int,
                    ) == Ok::<(Map<usize, crate::components::ResourceEntryView>, int), ParseError>(
                        (views_of_entries(resources@), final(self).position as int),
                    )
                },
                Err(error) => {
                    &&& final(self).position == old(self).position
                    &&& if !can_read(old(self).input@, old(self).position as int, 4 * entry_count) {
                        error == ParseError::UnexpectedEof
                    } else {
                        parse_entries(
                            old(self).input@,
                            old(self).position as int,
                            old(self).position + 4 * entry_count,
                            entry_count as int,
                        ) == Err::<(Map<usize, crate::components::ResourceEntryView>, int), ParseError>(
                            error,
                        )
                    }
                },
            },
    {
        match Config::parse_config_resources(self.input, self.position, entry_count) {
            Err(error) => Err(error),
            Ok((resources, next)) => {
                self.position = next;
                Ok(resources)
            },
        }
    }

    /// Reads the entry at the parser's place, which stands at spec index
    /// `spec_id`, and moves behind it.
    pub fn parse_res_entry(&mut self, spec_id: usize) -> (result: Result<ResourceEntry, ParseError>)
        ensures
            final(self).input == old(self).input,
            match (result, parse_entry(old(self).input@, old(self).position as int, spec_id)) {
                (Ok(entry), Ok((view, end))) => entry@ == view && final(self).position == end,
                (Err(found), Err(error)) => found == error && final(self).position == old(
                    self,
                ).position,
                _ => false,
            },
    {
        match ResourceEntry::parse(self.input, self.position, spec_id) {
            Err(error) => Err(error),
            Ok((entry, next)) => {
                self.position = next;
                Ok(entry)
            },
        }
    }

    /// Reads one byte and moves behind it.
    pub fn read_u8(&mut self) -> (result: Result<u8, ParseError>)
        ensures
            final(self).input == old(self).input,
            match result {
                Ok(value) => {
                    &&& can_read(old(self).input@, old(self).position as int, 1)
                    &&& value == old(self).input@[old(self).position as int]
                    &&& final(self).position == old(self).position + 1
                },
                Err(error) => {
                    &&& !can_read(old(self).input@, old(self).position as int, 1)
                    &&& error == ParseError::UnexpectedEof
                    &&& final(self).position == old(self).position
                },
            },
    {
        let mut position = self.position;
        let result = read_u8(self.input, &mut position);
        self.position = position;
        result
    }

    /// Reads an unsigned 16-bit value and moves behind it.
    pub fn read_u16(&mut self) -> (result: Result<u16, ParseError>)
        ensures
            final(self).input == old(self).input,
            match result {
                Ok(value) => {
                    &&& can_read(old(self).input@, old(self).position as int, 2)
                    &&& value == half_at(old(self).input@, old(self).position as int)
                    &&& final(self).position == old(self).position + 2
                },
                Err(error) => {
                    &&& !can_read(old(self).input@, old(self).position as int, 2)
                    &&& error == ParseError::UnexpectedEof
                    &&& final(self).position == old(self).position
                },
            },
    {
        let mut position = self.position;
        let result = read_u16(self.input, &mut position);
        self.position = position;
        result
    }

    /// Reads an unsigned 32-bit value and moves behind it.
    pub fn read_u32(&mut self) -> (result: Result<u32, ParseError>)
        ensures
            final(self).input == old(self).input,
            match result {
                Ok(value) => {
                    &&& can_read(old(self).input@, old(self).position as int, 4)
                    &&& value == word_at(old(self).input@, old(self).position as int)
                    &&& final(self).position == old(self).position + 4
                },
                Err(error) => {
                    &&& !can_read(old(self).input@, old(self).position as int, 4)
                    &&& error == ParseError::UnexpectedEof
                    &&& final(self).position == old(self).position
                },
            },
    {
        let mut position = self.position;
        let result = read_u32(self.input, &mut position);
        self.position = position;
        result
    }

    /// Reads a signed 32-bit value and moves behind it.
    pub fn read_i32(&mut self) -> (result: Result<i32, ParseError>)
        ensures
            final(self).input == old(self).input,
            match result {
                Ok(value) => {
                    &&& can_read(old(self).input@, old(self).position as int, 4)
                    &&& value == signed_word_at(old(self).input@, old(self).position as int)
                    &&& final(self).position == old(self).position + 4
                },
                Err(error) => {
                    &&& !can_read(old(self).input@, old(self).position as int, 4)
                    &&& error == ParseError::UnexpectedEof
                    &&& final(self).position == old(self).position
                },
            },
    {
        let mut position = self.position;
        let result = read_i32(self.input, &mut position);
        self.position = position;
        result
    }
}

} // verus!
