//! A bounds-checked view of a loaded Mach-O image.
//!
//! The image is a byte slice whose first byte is the first byte of the Mach
//! header. Every accessor takes an offset into that slice and answers with
//! nothing where the structure asked for does not lie inside it.

use vstd::prelude::*;
use vstd::string::StringSliceAdditionalSpecFns;
use crate::bytes::{in_bounds, le_u32, le_u64, read_u32, read_u64};
use crate::constants::{lc_segment, lc_segment_64, LC_SEGMENT, LC_SEGMENT_64};

verus! {

/// The pointer width that an image was built for. It selects the layout of
/// the header, of segment commands, of sections and of symbol table entries.
#[derive(Clone, Copy, Debug, PartialEq, Eq, Structural)]
pub enum Width {
    Bits32,
    Bits64,
}

/// Length of the header that every load command starts with.
pub const LOAD_COMMAND_LEN: usize = 8;

/// Length of a symbol table command.
pub const SYMTAB_COMMAND_LEN: usize = 24;

/// Length of a dynamic symbol table command.
pub const DYSYMTAB_COMMAND_LEN: usize = 80;

/// Length of the name field of a segment or a section.
pub const NAME_LEN: usize = 16;

impl Width {
    /// Length of the Mach header.
    pub open spec fn header_len(self) -> int {
        match self {
            Width::Bits32 => 28,
            Width::Bits64 => 32,
        }
    }

    /// Length of a segment command without its sections.
    pub open spec fn segment_len(self) -> int {
        match self {
            Width::Bits32 => 56,
            Width::Bits64 => 72,
        }
    }

    /// Length of a section header.
    pub open spec fn section_len(self) -> int {
        match self {
            Width::Bits32 => 68,
            Width::Bits64 => 80,
        }
    }

    /// Length of a symbol table entry.
    pub open spec fn nlist_len(self) -> int {
        match self {
            Width::Bits32 => 12,
            Width::Bits64 => 16,
        }
    }

    /// Length of a pointer, which is the length of a slot.
    pub open spec fn word_len(self) -> int {
        match self {
            Width::Bits32 => 4,
            Width::Bits64 => 8,
        }
    }

    /// One more than the largest address.
    pub open spec fn address_limit(self) -> int {
        match self {
            Width::Bits32 => 0x1_0000_0000,
            Width::Bits64 => 0x1_0000_0000_0000_0000,
        }
    }

    /// The load command that describes a segment.
    pub open spec fn segment_command(self) -> u32 {
        match self {
            Width::Bits32 => LC_SEGMENT,
            Width::Bits64 => LC_SEGMENT_64,
        }
    }

    /// An address-sized little-endian field.
    pub open spec fn word_at(self, image: Seq<u8>, at: int) -> u64 {
        match self {
            Width::Bits32 => le_u32(image, at) as u64,
            Width::Bits64 => le_u64(image, at),
        }
    }

    /// Length of the Mach header.
    pub fn header_size(self) -> (r: usize)
        ensures
            r == self.header_len(),
    {
        match self {
            Width::Bits32 => 28,
            Width::Bits64 => 32,
        }
    }

    /// Length of a segment command without its sections.
    pub fn segment_size(self) -> (r: usize)
        ensures
            r == self.segment_len(),
    {
        match self {
            Width::Bits32 => 56,
            Width::Bits64 => 72,
        }
    }

    /// Length of a section header.
    pub fn section_size(self) -> (r: usize)
        ensures
            r == self.section_len(),
    {
        match self {
            Width::Bits32 => 68,
            Width::Bits64 => 80,
        }
    }

    /// Length of a symbol table entry.
    pub fn nlist_size(self) -> (r: usize)
        ensures
            r == self.nlist_len(),
    {
        match self {
            Width::Bits32 => 12,
            Width::Bits64 => 16,
        }
    }

    /// Length of a pointer.
    pub fn word_size(self) -> (r: u64)
        ensures
            r == self.word_len(),
    {
        match self {
            Width::Bits32 => 4,
            Width::Bits64 => 8,
        }
    }

    /// The load command that describes a segment of this width.
    pub fn segment_cmd(self) -> (r: u32)
        ensures
            r == self.segment_command(),
    {
        match self {
            Width::Bits32 => lc_segment(),
            Width::Bits64 => lc_segment_64(),
        }
    }

    /// Reads the address-sized field at `at`, or nothing if it does not lie
    /// inside `image`.
    pub fn read_word(self, image: &[u8], at: usize) -> (r: Option<u64>)
        ensures
            r is Some <==> in_bounds(image@.len() as int, at as int, self.word_len()),
            r matches Some(v) ==> v == self.word_at(image@, at as int),
    {
        match self {
            Width::Bits32 => match read_u32(image, at) {
                Some(v) => Some(v as u64),
                None => None,
            },
            Width::Bits64 => read_u64(image, at),
        }
    }
}

/// Whether a fixed-width name field agrees with a reference name on every
/// position that both have. The field may be padded with zero bytes, and a
/// field that goes on after the end of the reference still agrees with it.
pub open spec fn name_matches(field: Seq<u8>, reference: Seq<u8>) -> bool {
    forall|i: int| 0 <= i < field.len() && i < reference.len() ==> field[i] == reference[i]
}

/// Compares a name field byte by byte with a reference name, up to the end of
/// the shorter of the two.
pub fn equal_str(a: &[u8], b: &str) -> (r: bool)
    ensures
        r == name_matches(a@, b.spec_bytes()),
{
    let reference = b.as_bytes();
    let mut i: usize = 0;
    while i < a.len() && i < reference.len()
        invariant
            reference@ == b.spec_bytes(),
            forall|j: int| 0 <= j < i ==> a@[j] == reference@[j],
        decreases a.len() - i,
    {
        if a[i] != reference[i] {
            return false;
        }
        i += 1;
    }
    true
}

/// What the library reads of the Mach header.
#[derive(Clone, Copy, Debug, PartialEq, Eq, Structural)]
pub struct Header {
    /// Number of load commands.
    pub ncmds: u32,
    /// Length in bytes of all load commands together.
    pub sizeofcmds: u32,
}

/// The header of `image`, if `image` is long enough to hold one.
pub open spec fn header_of(image: Seq<u8>, width: Width) -> Option<Header> {
    if width.header_len() <= image.len() {
        Some(Header { ncmds: le_u32(image, 16), sizeofcmds: le_u32(image, 20) })
    } else {
        None
    }
}

/// Reads the Mach header.
pub fn read_header(image: &[u8], width: Width) -> (r: Option<Header>)
    ensures
        r == header_of(image@, width),
{
    if image.len() < width.header_size() {
        return None;
    }
    match (read_u32(image, 16), read_u32(image, 20)) {
        (Some(ncmds), Some(sizeofcmds)) => Some(Header { ncmds, sizeofcmds }),
        _ => None,
    }
}

/// A load command: where it starts, what it is and how long it is.
#[derive(Clone, Copy, Debug, PartialEq, Eq, Structural)]
pub struct LoadCommand {
    /// Offset of the command in the image.
    pub at: usize,
    /// Kind of the command.
    pub cmd: u32,
    /// Length of the command in bytes, its own header included.
    pub cmdsize: u32,
}

/// Where the load commands end: at the length that the header announces, or
/// at the end of the image if that comes first.
pub open spec fn commands_end(image: Seq<u8>, width: Width, header: Header) -> int {
    if width.header_len() + header.sizeofcmds <= image.len() {
        width.header_len() + header.sizeofcmds
    } else {
        image.len() as int
    }
}

/// The load command at `at`, if one lies there that is at least as long as
/// its own header and ends no later than `end`.
pub open spec fn command_at(image: Seq<u8>, end: int, at: int) -> Option<LoadCommand> {
    if 0 <= at && at + LOAD_COMMAND_LEN <= end && end <= image.len() && LOAD_COMMAND_LEN <= le_u32(
        image,
        at + 4,
    ) && at + le_u32(image, at + 4) <= end {
        Some(LoadCommand { at: at as usize, cmd: le_u32(image, at), cmdsize: le_u32(image, at + 4) })
    } else {
        None
    }
}

/// At most `count` load commands, the first at `at`, each one starting where
/// the one before it ends. The list stops at the first place that holds no
/// command.
pub open spec fn commands_from(image: Seq<u8>, end: int, at: int, count: nat) -> Seq<LoadCommand>
    decreases count,
{
    if count == 0 {
        Seq::empty()
    } else {
        match command_at(image, end, at) {
            None => Seq::empty(),
            Some(c) => seq![c] + commands_from(image, end, at + c.cmdsize, (count - 1) as nat),
        }
    }
}

/// The load commands of an image, in the order in which they lie in it.
pub open spec fn commands(image: Seq<u8>, width: Width) -> Seq<LoadCommand> {
    match header_of(image, width) {
        None => Seq::empty(),
        Some(h) => commands_from(
            image,
            commands_end(image, width, h),
            width.header_len(),
            h.ncmds as nat,
        ),
    }
}

/// Reads the load command at `at`.
pub fn read_command(image: &[u8], end: usize, at: usize) -> (r: Option<LoadCommand>)
    ensures
        r == command_at(image@, end as int, at as int),
{
    if end > image.len() || at > end || end - at < LOAD_COMMAND_LEN {
        return None;
    }
    match (read_u32(image, at), read_u32(image, at + 4)) {
        (Some(cmd), Some(cmdsize)) => {
            if cmdsize as usize >= LOAD_COMMAND_LEN && cmdsize as usize <= end - at {
                Some(LoadCommand { at, cmd, cmdsize })
            } else {
                None
            }
        },
        _ => None,
    }
}

/// Iterates over the load commands: starts behind the header and steps by
/// each command's length, for as many commands as the header announces.
pub fn load_commands(image: &[u8], width: Width) -> (r: Vec<LoadCommand>)
    ensures
        r@ == commands(image@, width),
{
    let mut list: Vec<LoadCommand> = Vec::new();
    let header = match read_header(image, width) {
        Some(h) => h,
        None => {
            return list;
        },
    };
    let start: usize = width.header_size();
    let end: usize = if header.sizeofcmds as usize <= image.len() - start {
        start + header.sizeofcmds as usize
    } else {
        image.len()
    };
    let mut at: usize = start;
    let mut left: u32 = header.ncmds;
    while left > 0
        invariant
            end <= image@.len(),
            at <= end,
            commands(image@, width) == list@ + commands_from(
                image@,
                end as int,
                at as int,
                left as nat,
            ),
        decreases left,
    {
        match read_command(image, end, at) {
            None => {
                return list;
            },
            Some(c) => {
                proof {
                    let rest = commands_from(
                        image@,
                        end as int,
                        at + c.cmdsize,
                        (left - 1) as nat,
                    );
                    assert(list@ + (seq![c] + rest) =~= list@.push(c) + rest);
                }
                list.push(c);
                at = at + c.cmdsize as usize;
                left = left - 1;
            },
        }
    }
    list
}

/// What the library reads of a symbol table command.
#[derive(Clone, Copy, Debug, PartialEq, Eq, Structural)]
pub struct Symtab {
    /// Offset of the symbol table.
    pub symoff: u32,
    /// Number of entries of the symbol table.
    pub nsyms: u32,
    /// Offset of the string table.
    pub stroff: u32,
    /// Length of the string table in bytes.
    pub strsize: u32,
}

/// The symbol table command at `at`, if a whole one lies inside the image.
pub open spec fn symtab_at(image: Seq<u8>, at: int) -> Option<Symtab> {
    if in_bounds(image.len() as int, at, SYMTAB_COMMAND_LEN as int) {
        Some(
            Symtab {
                symoff: le_u32(image, at + 8),
                nsyms: le_u32(image, at + 12),
                stroff: le_u32(image, at + 16),
                strsize: le_u32(image, at + 20),
            },
        )
    } else {
        None
    }
}

/// Reads the symbol table command at `at`.
pub fn read_symtab(image: &[u8], at: usize) -> (r: Option<Symtab>)
    ensures
        r == symtab_at(image@, at as int),
{
    if at > image.len() || image.len() - at < SYMTAB_COMMAND_LEN {
        return None;
    }
    match (
        read_u32(image, at + 8),
        read_u32(image, at + 12),
        read_u32(image, at + 16),
        read_u32(image, at + 20),
    ) {
        (Some(symoff), Some(nsyms), Some(stroff), Some(strsize)) => Some(
            Symtab { symoff, nsyms, stroff, strsize },
        ),
        _ => None,
    }
}

/// What the library reads of a dynamic symbol table command.
#[derive(Clone, Copy, Debug, PartialEq, Eq, Structural)]
pub struct Dysymtab {
    /// Offset of the indirect symbol table.
    pub indirectsymoff: u32,
    /// Number of entries of the indirect symbol table.
    pub nindirectsyms: u32,
}

/// The dynamic symbol table command at `at`, if a whole one lies inside the
/// image.
pub open spec fn dysymtab_at(image: Seq<u8>, at: int) -> Option<Dysymtab> {
    if in_bounds(image.len() as int, at, DYSYMTAB_COMMAND_LEN as int) {
        Some(
            Dysymtab {
                indirectsymoff: le_u32(image, at + 56),
                nindirectsyms: le_u32(image, at + 60),
            },
        )
    } else {
        None
    }
}

/// Reads the dynamic symbol table command at `at`.
pub fn read_dysymtab(image: &[u8], at: usize) -> (r: Option<Dysymtab>)
    ensures
        r == dysymtab_at(image@, at as int),
{
    if at > image.len() || image.len() - at < DYSYMTAB_COMMAND_LEN {
        return None;
    }
    match (read_u32(image, at + 56), read_u32(image, at + 60)) {
        (Some(indirectsymoff), Some(nindirectsyms)) => Some(
            Dysymtab { indirectsymoff, nindirectsyms },
        ),
        _ => None,
    }
}

} // verus!
