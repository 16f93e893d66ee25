//! Tag numbers of the universal class that this library names.

use vstd::prelude::*;

verus! {

pub const BOOLEAN: u64 = 1;

pub const INTEGER: u64 = 2;

pub const OCTET_STRING: u64 = 4;

pub const NULL: u64 = 5;

pub const ENUMERATED: u64 = 10;

pub const SEQUENCE: u64 = 16;

pub const SET: u64 = 17;

} // verus!
