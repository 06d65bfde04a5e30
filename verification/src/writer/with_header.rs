//! The tag that each kind of chunk is written with.
use crate::components::{Arsc, Config, Header, Package, ResourceType, Specs, StringPool};
use crate::layout::{
    CONFIG_HEADER_SIZE, PACKAGE_HEADER_SIZE, SPECS_HEADER_SIZE, STRING_POOL_HEADER_SIZE,
    TABLE_HEADER_SIZE,
};
use vstd::prelude::*;

verus! {

impl Arsc {
    /// The `header_size` that a table is written with.
    pub fn get_header_size(&self) -> (header_size: u16)
        ensures
            header_size == 0x000C,
    {
        TABLE_HEADER_SIZE
    }

    /// The tag that the table is written with.
    pub fn header(&self) -> (header: Header)
        requires
            self@.representable(),
        ensures
            header.resource_type == ResourceType::Table,
            header.header_size == 0x000C,
            header.size == self@.size(),
    {
        Header {
            resource_type: ResourceType::Table,
            header_size: self.get_header_size(),
            size: self.size().unwrap() as u64,
        }
    }
}

impl StringPool {
    /// The `header_size` that a string pool is written with.
    pub fn get_header_size(&self) -> (header_size: u16)
        ensures
            header_size == 0x001C,
    {
        STRING_POOL_HEADER_SIZE
    }

    /// The tag that the pool is written with.
    pub fn header(&self) -> (header: Header)
        requires
            self@.representable(),
        ensures
            header.resource_type == ResourceType::StringPool,
            header.header_size == 0x001C,
            header.size == self@.size(),
    {
        Header {
            resource_type: ResourceType::StringPool,
            header_size: self.get_header_size(),
            size: self.size().unwrap() as u64,
        }
    }
}

impl Package {
    /// The `header_size` that a package is written with.
    pub fn get_header_size(&self) -> (header_size: u16)
        ensures
            header_size == 0x0120,
    {
        PACKAGE_HEADER_SIZE
    }

    /// The tag that the package is written with.
    pub fn header(&self) -> (header: Header)
        requires
            self@.representable(),
        ensures
            header.resource_type == ResourceType::TablePackage,
            header.header_size == 0x0120,
            header.size == self@.size(),
    {
        Header {
            resource_type: ResourceType::TablePackage,
            header_size: self.get_header_size(),
            size: self.size().unwrap() as u64,
        }
    }
}

impl Specs {
    /// The `header_size` that a spec chunk is written with.
    pub fn get_header_size(&self) -> (header_size: u16)
        ensures
            header_size == 0x0010,
    {
        SPECS_HEADER_SIZE
    }

    /// The tag that the spec chunk is written with.
    pub fn header(&self) -> (header: Header)
        requires
            self@.representable(),
        ensures
            header.resource_type == ResourceType::TableTypeSpec,
            header.header_size == 0x0010,
            header.size == self@.size(),
    {
        Header {
            resource_type: ResourceType::TableTypeSpec,
            header_size: self.get_header_size(),
            size: self.size().unwrap() as u64,
        }
    }
}

impl Config {
    /// The `header_size` that a configuration is written with.
    pub fn get_header_size(&self) -> (header_size: u16)
        ensures
            header_size == 0x0054,
    {
        CONFIG_HEADER_SIZE
    }

    /// The tag that the configuration is written with.
    pub fn header(&self) -> (header: Header)
        requires
            self@.representable(),
        ensures
            header.resource_type == ResourceType::TableType,
            header.header_size == 0x0054,
            header.size == self@.size(),
    {
        Header {
            resource_type: ResourceType::TableType,
            header_size: self.get_header_size(),
            size: self.size().unwrap() as u64,
        }
    }
}

} // verus!
