//! A mutable, in-memory representation of a device tree property.

use crate::bytes::{
    be_u32, lemma_decode_of_bytes, read_be_u32, str_from_utf8, str_trim_end, trim_end,
};
use crate::fdt::FdtProperty;
use vstd::prelude::*;
use vstd::string::StringExecFns;
use vstd::utf8::{decode_utf8, valid_utf8};

verus! {

/// What a property holds: its name and its value.
pub ghost struct PropertyView {
    pub name: Seq<char>,
    pub value: Seq<u8>,
}

/// The value `v` as a 32-bit integer: it has to be four bytes long.
pub open spec fn bytes_as_u32(v: Seq<u8>) -> Result<u32, ()> {
    if v.len() == 4 {
        Ok(be_u32(v, 0))
    } else {
        Err(())
    }
}

/// The value `v` as text: it has to be UTF-8, and the zero characters at
/// its end are left out.
pub open spec fn bytes_as_str(v: Seq<u8>) -> Result<Seq<char>, ()> {
    if valid_utf8(v) {
        Ok(trim_end(decode_utf8(v), '\0'))
    } else {
        Err(())
    }
}

/// A mutable, in-memory representation of a device tree property.
#[derive(Debug, PartialEq, Eq)]
pub struct DeviceTreeProperty {
    name: String,
    value: Vec<u8>,
}

impl View for DeviceTreeProperty {
    type V = PropertyView;

    closed spec fn view(&self) -> PropertyView {
        PropertyView { name: self.name@, value: self.value@ }
    }
}

impl Clone for DeviceTreeProperty {
    fn clone(&self) -> (r: Self)
        ensures
            r@ == self@,
    {
        DeviceTreeProperty { name: self.name.clone(), value: self.value.clone() }
    }
}

impl DeviceTreeProperty {
    /// Creates a new `DeviceTreeProperty` with the given name and value.
    #[must_use]
    pub fn new(name: &str, value: Vec<u8>) -> (r: Self)
        ensures
            r@ == (PropertyView { name: name@, value: value@ }),
    {
        Self { name: String::from_str(name), value }
    }

    /// Returns the name of this property.
    #[must_use]
    pub fn name(&self) -> (n: &str)
        ensures
            n@ == self@.name,
    {
        self.name.as_str()
    }

    /// Returns the value of this property.
    #[must_use]
    pub fn value(&self) -> (v: &[u8])
        ensures
            v@ == self@.value,
    {
        self.value.as_slice()
    }

    /// Sets the value of this property.
    pub fn set_value(&mut self, value: Vec<u8>)
        ensures
            final(self)@ == (PropertyView { name: old(self)@.name, value: value@ }),
    {
        self.value = value;
    }

    /// Returns the value of this property as a `u32`.
    pub fn as_u32(&self) -> (r: Result<u32, ()>)
        ensures
            r == bytes_as_u32(self@.value),
    {
        if self.value.len() != 4 {
            return Err(());
        }
        Ok(read_be_u32(self.value.as_slice(), 0).unwrap())
    }

    /// Returns the value of this property as a string.
    pub fn as_str(&self) -> (r: Result<&str, ()>)
        ensures
            match r {
                Ok(s) => bytes_as_str(self@.value) == Ok::<Seq<char>, ()>(s@),
                Err(_) => bytes_as_str(self@.value) is Err,
            },
    {
        match str_from_utf8(self.value.as_slice()) {
            None => Err(()),
            Some(s) => {
                proof {
                    lemma_decode_of_bytes(s);
                }
                Ok(str_trim_end(s, '\0'))
            },
        }
    }

    /// Copies a property out of a blob.
    pub fn try_from(prop: FdtProperty<'_>) -> (r: Result<Self, crate::error::FdtError>)
        ensures
            r matches Ok(p) && p@ == (PropertyView { name: prop@.name, value: prop@.value }),
    {
        let name = String::from_str(prop.name());
        let value = vstd::slice::slice_to_vec(prop.value());
        Ok(DeviceTreeProperty { name, value })
    }
}

} // verus!
