//! Segment commands and the section headers that follow them.

use vstd::prelude::*;
use vstd::slice::slice_subrange;
use vstd::string::StringSliceAdditionalSpecFns;
use crate::bytes::{in_bounds, le_u32, read_u32};
use crate::constants::{
    lazy_symbol_pointers, non_lazy_symbol_pointers, section_type_mask, SECTION_TYPE,
    S_LAZY_SYMBOL_POINTERS, S_NON_LAZY_SYMBOL_POINTERS,
};
use crate::macho::{equal_str, name_matches, LoadCommand, Width, NAME_LEN};

verus! {

/// A segment command: where it lies and how many sections follow it.
#[derive(Clone, Copy, Debug, PartialEq, Eq, Structural)]
pub struct Segment {
    /// Offset of the command in the image.
    pub at: usize,
    /// Length of the command, its sections included.
    pub cmdsize: u32,
    /// Number of sections that the command announces.
    pub nsects: u32,
}

/// What the library reads of a section header.
#[derive(Clone, Copy, Debug, PartialEq, Eq, Structural)]
pub struct Section {
    /// Offset of the section header in the image.
    pub at: usize,
    /// Address of the section's contents, before the slide.
    pub addr: u64,
    /// Length of the section's contents in bytes.
    pub size: u64,
    /// Type and attributes.
    pub flags: u32,
    /// For a section of symbol pointers: the entry of the indirect symbol
    /// table that belongs to the section's first slot.
    pub reserved1: u32,
}

impl Width {
    /// Offset of `nsects` in a segment command.
    pub open spec fn nsects_offset(self) -> int {
        match self {
            Width::Bits32 => 48,
            Width::Bits64 => 64,
        }
    }

    /// Offset of `flags` in a section header; `reserved1` follows it.
    pub open spec fn flags_offset(self) -> int {
        match self {
            Width::Bits32 => 56,
            Width::Bits64 => 64,
        }
    }
}

/// Offset of `addr` in a section header, behind the two names; `size`
/// follows it.
pub const SECTION_ADDR_OFFSET: usize = 32;

/// The segment that a load command describes: the command is of the kind
/// that `width` asks for, holds a whole segment command and lies inside the
/// image.
pub open spec fn segment_of(image: Seq<u8>, width: Width, c: LoadCommand) -> Option<Segment> {
    if c.cmd == width.segment_command() && width.segment_len() <= c.cmdsize && in_bounds(
        image.len() as int,
        c.at as int,
        c.cmdsize as int,
    ) {
        Some(
            Segment {
                at: c.at,
                cmdsize: c.cmdsize,
                nsects: le_u32(image, c.at + width.nsects_offset()),
            },
        )
    } else {
        None
    }
}

/// The name field of the segment command at `at`.
pub open spec fn segment_name(image: Seq<u8>, at: int) -> Seq<u8> {
    image.subrange(at + 8, at + 8 + NAME_LEN)
}

/// Classifies a load command as a segment.
pub fn read_segment(image: &[u8], width: Width, c: &LoadCommand) -> (r: Option<Segment>)
    ensures
        r == segment_of(image@, width, *c),
{
    if c.cmd != width.segment_cmd() || (c.cmdsize as usize) < width.segment_size() || c.at
        > image.len() || image.len() - c.at < c.cmdsize as usize {
        return None;
    }
    let offset: usize = match width {
        Width::Bits32 => 48,
        Width::Bits64 => 64,
    };
    match read_u32(image, c.at + offset) {
        Some(nsects) => Some(Segment { at: c.at, cmdsize: c.cmdsize, nsects }),
        None => None,
    }
}

/// Whether the segment's name field lies inside the image and agrees with
/// `reference`.
pub fn segment_named(image: &[u8], segment: &Segment, reference: &str) -> (r: bool)
    ensures
        r == (in_bounds(image@.len() as int, segment.at as int, 8 + NAME_LEN) && name_matches(
            segment_name(image@, segment.at as int),
            reference.spec_bytes(),
        )),
{
    if segment.at > image.len() || image.len() - segment.at < 8 + NAME_LEN {
        return false;
    }
    let field = slice_subrange(image, segment.at + 8, segment.at + 8 + NAME_LEN);
    equal_str(field, reference)
}

/// Offset of the `j`-th section header behind the segment command at
/// `segment.at`.
pub open spec fn section_offset(width: Width, segment: Segment, j: int) -> int {
    match width {
        Width::Bits32 => segment.at + 56 + j * 68,
        Width::Bits64 => segment.at + 72 + j * 80,
    }
}

/// The fields of the section header at `at`.
pub open spec fn section_fields(image: Seq<u8>, width: Width, at: int) -> Section {
    Section {
        at: at as usize,
        addr: width.word_at(image, at + SECTION_ADDR_OFFSET),
        size: width.word_at(image, at + SECTION_ADDR_OFFSET + width.word_len()),
        flags: le_u32(image, at + width.flags_offset()),
        reserved1: le_u32(image, at + width.flags_offset() + 4),
    }
}

/// The `j`-th section of a segment, if the segment announces that many and
/// the section header lies inside the segment command and inside the image.
pub open spec fn section_of(image: Seq<u8>, width: Width, segment: Segment, j: int) -> Option<
    Section,
> {
    let at = section_offset(width, segment, j);
    if 0 <= j < segment.nsects && at + width.section_len() <= segment.at + segment.cmdsize
        && segment.at + segment.cmdsize <= image.len() && image.len() <= usize::MAX {
        Some(section_fields(image, width, at))
    } else {
        None
    }
}

/// Reads the `j`-th section header of a segment.
pub fn read_section(image: &[u8], width: Width, segment: &Segment, j: u32) -> (r: Option<Section>)
    ensures
        r == section_of(image@, width, *segment, j as int),
{
    let head: usize = width.segment_size();
    let each: usize = width.section_size();
    if j >= segment.nsects || segment.at > image.len() || image.len() - segment.at
        < segment.cmdsize as usize || (segment.cmdsize as usize) < head {
        return None;
    }
    let room: usize = segment.cmdsize as usize - head;
    if j as usize >= room / each {
        return None;
    }
    let at: usize = match width {
        Width::Bits32 => segment.at + 56 + j as usize * 68,
        Width::Bits64 => segment.at + 72 + j as usize * 80,
    };
    let (word, flags_at): (usize, usize) = match width {
        Width::Bits32 => (4, at + 56),
        Width::Bits64 => (8, at + 64),
    };
    match (
        width.read_word(image, at + SECTION_ADDR_OFFSET),
        width.read_word(image, at + SECTION_ADDR_OFFSET + word),
        read_u32(image, flags_at),
        read_u32(image, flags_at + 4),
    ) {
        (Some(addr), Some(size), Some(flags), Some(reserved1)) => Some(
            Section { at, addr, size, flags, reserved1 },
        ),
        _ => None,
    }
}

/// Whether a section holds lazy or non-lazy symbol pointers, by the type in
/// its flags.
pub open spec fn holds_symbol_pointers(flags: u32) -> bool {
    flags & SECTION_TYPE == S_LAZY_SYMBOL_POINTERS || flags & SECTION_TYPE
        == S_NON_LAZY_SYMBOL_POINTERS
}

/// Tells whether a section holds symbol pointers.
pub fn is_symbol_pointer_section(flags: u32) -> (r: bool)
    ensures
        r == holds_symbol_pointers(flags),
{
    let kind: u32 = flags & section_type_mask();
    kind == lazy_symbol_pointers() || kind == non_lazy_symbol_pointers()
}

} // verus!
