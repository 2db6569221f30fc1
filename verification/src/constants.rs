//! The constants of the Mach-O format that the library goes by.
//!
//! Executable code takes the load command numbers, the section types and the
//! segment names from `goblin`; the contracts here say which value each of
//! them is, so that the proofs can speak of it.

use vstd::prelude::*;
use vstd::string::StringSliceAdditionalSpecFns;

verus! {

/// Mask that leaves the type of a section in its `flags` field.
pub const SECTION_TYPE: u32 = 0x0000_00ff;

/// Type of a section that holds non-lazy symbol pointers.
pub const S_NON_LAZY_SYMBOL_POINTERS: u32 = 0x6;

/// Type of a section that holds lazy symbol pointers.
pub const S_LAZY_SYMBOL_POINTERS: u32 = 0x7;

/// Load command of a 32-bit segment.
pub const LC_SEGMENT: u32 = 0x1;

/// Load command of the symbol table.
pub const LC_SYMTAB: u32 = 0x2;

/// Load command of the dynamic symbol table.
pub const LC_DYSYMTAB: u32 = 0xb;

/// Load command of a 64-bit segment.
pub const LC_SEGMENT_64: u32 = 0x19;

/// Entry of the indirect symbol table that stands for a local symbol.
pub const INDIRECT_SYMBOL_LOCAL: u32 = 0x8000_0000;

/// Entry of the indirect symbol table that stands for an absolute symbol.
pub const INDIRECT_SYMBOL_ABS: u32 = 0x4000_0000;

/// Name of the segment that holds writable data.
pub open spec fn seg_data_name() -> Seq<u8> {
    "__DATA".spec_bytes()
}

/// Name of the segment that holds data which is constant once bound.
pub open spec fn seg_data_const_name() -> Seq<u8> {
    "__DATA_CONST".spec_bytes()
}

/// Name of the segment that holds the symbol and string tables.
pub open spec fn seg_linkedit_name() -> Seq<u8> {
    "__LINKEDIT".spec_bytes()
}

/// `goblin::mach::constants::SECTION_TYPE`, which is `0xff`.
#[verifier::external_body]
pub(crate) fn section_type_mask() -> (r: u32)
    ensures
        r == SECTION_TYPE,
{
    goblin::mach::constants::SECTION_TYPE
}

/// `goblin::mach::constants::S_NON_LAZY_SYMBOL_POINTERS`, which is 6.
#[verifier::external_body]
pub(crate) fn non_lazy_symbol_pointers() -> (r: u32)
    ensures
        r == S_NON_LAZY_SYMBOL_POINTERS,
{
    goblin::mach::constants::S_NON_LAZY_SYMBOL_POINTERS
}

/// `goblin::mach::constants::S_LAZY_SYMBOL_POINTERS`, which is 7.
#[verifier::external_body]
pub(crate) fn lazy_symbol_pointers() -> (r: u32)
    ensures
        r == S_LAZY_SYMBOL_POINTERS,
{
    goblin::mach::constants::S_LAZY_SYMBOL_POINTERS
}

/// `goblin::mach::load_command::LC_SEGMENT`, which is 1.
#[verifier::external_body]
pub(crate) fn lc_segment() -> (r: u32)
    ensures
        r == LC_SEGMENT,
{
    goblin::mach::load_command::LC_SEGMENT
}

/// `goblin::mach::load_command::LC_SEGMENT_64`, which is `0x19`.
#[verifier::external_body]
pub(crate) fn lc_segment_64() -> (r: u32)
    ensures
        r == LC_SEGMENT_64,
{
    goblin::mach::load_command::LC_SEGMENT_64
}

/// `goblin::mach::load_command::LC_SYMTAB`, which is 2.
#[verifier::external_body]
pub(crate) fn lc_symtab() -> (r: u32)
    ensures
        r == LC_SYMTAB,
{
    goblin::mach::load_command::LC_SYMTAB
}

/// `goblin::mach::load_command::LC_DYSYMTAB`, which is `0xb`.
#[verifier::external_body]
pub(crate) fn lc_dysymtab() -> (r: u32)
    ensures
        r == LC_DYSYMTAB,
{
    goblin::mach::load_command::LC_DYSYMTAB
}

/// `goblin::mach::constants::SEG_DATA`, which is the name `__DATA`.
#[verifier::external_body]
pub(crate) fn seg_data() -> (r: &'static str)
    ensures
        r.spec_bytes() == seg_data_name(),
{
    goblin::mach::constants::SEG_DATA
}

/// `goblin::mach::constants::SEG_LINKEDIT`, which is the name `__LINKEDIT`.
#[verifier::external_body]
pub(crate) fn seg_linkedit() -> (r: &'static str)
    ensures
        r.spec_bytes() == seg_linkedit_name(),
{
    goblin::mach::constants::SEG_LINKEDIT
}

/// The name `__DATA_CONST`.
pub fn seg_data_const() -> (r: &'static str)
    ensures
        r.spec_bytes() == seg_data_const_name(),
{
    "__DATA_CONST"
}

} // verus!
