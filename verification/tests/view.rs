use fishhook::bytes::{read_u32, read_u64};
use fishhook::macho::{
    load_commands, read_command, read_dysymtab, read_header, read_symtab, Dysymtab, Header,
    LoadCommand, Symtab, Width,
};
use fishhook::segment::{
    is_symbol_pointer_section, read_section, read_segment, segment_named, Section, Segment,
};
use fishhook::symbols::{
    find_nul, names_no_symbol, read_bound_name, read_indirect_index, read_name_offset, Tables,
};

fn le32(out: &mut Vec<u8>, v: u32) {
    out.extend_from_slice(&v.to_le_bytes());
}

fn name16(out: &mut Vec<u8>, name: &str) {
    let mut field = [0u8; 16];
    field[..name.len()].copy_from_slice(name.as_bytes());
    out.extend_from_slice(&field);
}

#[test]
fn fields_are_little_endian() {
    let bytes = [0x01, 0x02, 0x03, 0x04, 0x05, 0x06, 0x07, 0x08, 0x09];
    assert_eq!(read_u32(&bytes, 0), Some(0x0403_0201));
    assert_eq!(read_u32(&bytes, 5), Some(0x0908_0706));
    assert_eq!(read_u64(&bytes, 0), Some(0x0807_0605_0403_0201));
    assert_eq!(read_u64(&bytes, 1), Some(0x0908_0706_0504_0302));
    assert_eq!(read_u32(&[0xff; 4], 0), Some(u32::MAX));
    assert_eq!(read_u64(&[0xff; 8], 0), Some(u64::MAX));
}

#[test]
fn fields_outside_the_slice_are_not_read() {
    let bytes = [0u8; 9];
    assert_eq!(read_u32(&bytes, 6), None);
    assert_eq!(read_u32(&bytes, 9), None);
    assert_eq!(read_u32(&bytes, usize::MAX), None);
    assert_eq!(read_u64(&bytes, 2), None);
    assert_eq!(read_u64(&bytes, usize::MAX - 3), None);
    assert_eq!(read_u32(&[], 0), None);
    assert_eq!(read_u64(&[0; 7], 0), None);
}

#[test]
fn words_have_the_width_of_the_image() {
    let bytes = [0x01, 0x02, 0x03, 0x04, 0x05, 0x06, 0x07, 0x08];
    assert_eq!(Width::Bits32.read_word(&bytes, 0), Some(0x0403_0201));
    assert_eq!(Width::Bits64.read_word(&bytes, 0), Some(0x0807_0605_0403_0201));
    assert_eq!(Width::Bits32.read_word(&bytes, 4), Some(0x0807_0605));
    assert_eq!(Width::Bits64.read_word(&bytes, 4), None);
    assert_eq!(Width::Bits32.read_word(&bytes, 5), None);
}

#[test]
fn the_layouts_have_their_lengths() {
    assert_eq!(
        (
            Width::Bits32.header_size(),
            Width::Bits32.segment_size(),
            Width::Bits32.section_size(),
            Width::Bits32.nlist_size(),
            Width::Bits32.word_size(),
            Width::Bits32.segment_cmd()
        ),
        (28, 56, 68, 12, 4, 0x1)
    );
    assert_eq!(
        (
            Width::Bits64.header_size(),
            Width::Bits64.segment_size(),
            Width::Bits64.section_size(),
            Width::Bits64.nlist_size(),
            Width::Bits64.word_size(),
            Width::Bits64.segment_cmd()
        ),
        (32, 72, 80, 16, 8, 0x19)
    );
}

fn header(ncmds: u32, sizeofcmds: u32, width: Width) -> Vec<u8> {
    let mut out = Vec::new();
    le32(&mut out, 0xfeed_facf);
    le32(&mut out, 7);
    le32(&mut out, 3);
    le32(&mut out, 2);
    le32(&mut out, ncmds);
    le32(&mut out, sizeofcmds);
    le32(&mut out, 0);
    if width == Width::Bits64 {
        le32(&mut out, 0);
    }
    out
}

#[test]
fn the_header_gives_the_number_and_the_length_of_the_commands() {
    let image = header(3, 0x120, Width::Bits64);
    assert_eq!(read_header(&image, Width::Bits64), Some(Header { ncmds: 3, sizeofcmds: 0x120 }));
    assert_eq!(read_header(&image[..31], Width::Bits64), None);
    assert_eq!(read_header(&image[..28], Width::Bits32), Some(Header { ncmds: 3, sizeofcmds: 0x120 }));
    assert_eq!(read_header(&image[..27], Width::Bits32), None);
    assert_eq!(read_header(&[], Width::Bits32), None);
}

fn plain_command(out: &mut Vec<u8>, cmd: u32, cmdsize: u32) {
    le32(out, cmd);
    le32(out, cmdsize);
    for _ in 8..cmdsize {
        out.push(0xee);
    }
}

#[test]
fn load_commands_follow_each_other() {
    let mut image = header(3, 8 + 24 + 16, Width::Bits64);
    plain_command(&mut image, 0x1b, 8);
    plain_command(&mut image, 0x2, 24);
    plain_command(&mut image, 0x26, 16);
    plain_command(&mut image, 0x29, 16);
    assert_eq!(
        load_commands(&image, Width::Bits64),
        vec![
            LoadCommand { at: 32, cmd: 0x1b, cmdsize: 8 },
            LoadCommand { at: 40, cmd: 0x2, cmdsize: 24 },
            LoadCommand { at: 64, cmd: 0x26, cmdsize: 16 },
        ]
    );
}

#[test]
fn load_commands_stop_at_the_announced_number() {
    let mut image = header(2, 48, Width::Bits64);
    plain_command(&mut image, 0x1b, 8);
    plain_command(&mut image, 0x2, 24);
    plain_command(&mut image, 0x26, 16);
    assert_eq!(load_commands(&image, Width::Bits64).len(), 2);
    image[16] = 0;
    assert!(load_commands(&image, Width::Bits64).is_empty());
}

#[test]
fn load_commands_stop_at_the_announced_length() {
    let mut image = header(3, 47, Width::Bits64);
    plain_command(&mut image, 0x1b, 8);
    plain_command(&mut image, 0x2, 24);
    plain_command(&mut image, 0x26, 16);
    assert_eq!(load_commands(&image, Width::Bits64).len(), 2);
    image[20] = 7;
    assert!(load_commands(&image, Width::Bits64).is_empty());
    image[20] = 8;
    assert_eq!(load_commands(&image, Width::Bits64).len(), 1);
}

#[test]
fn load_commands_stop_at_the_end_of_the_image() {
    let mut image = header(5, 0xffff_ffff, Width::Bits64);
    plain_command(&mut image, 0x1b, 8);
    plain_command(&mut image, 0x2, 24);
    assert_eq!(load_commands(&image, Width::Bits64).len(), 2);
    assert_eq!(load_commands(&image[..image.len() - 1], Width::Bits64).len(), 1);
    assert!(load_commands(&image[..39], Width::Bits64).is_empty());
    assert!(load_commands(&image[..10], Width::Bits64).is_empty());
}

#[test]
fn a_command_shorter_than_its_header_ends_the_list() {
    for cmdsize in [0u32, 1, 7] {
        let mut image = header(3, 48, Width::Bits64);
        plain_command(&mut image, 0x1b, 8);
        le32(&mut image, 0x2);
        le32(&mut image, cmdsize);
        image.extend_from_slice(&[0; 32]);
        assert_eq!(load_commands(&image, Width::Bits64).len(), 1, "{cmdsize}");
    }
}

#[test]
fn a_command_is_read_where_it_fits() {
    let mut image = vec![0u8; 16];
    plain_command(&mut image, 0x2, 24);
    assert_eq!(read_command(&image, 40, 16), Some(LoadCommand { at: 16, cmd: 0x2, cmdsize: 24 }));
    assert_eq!(read_command(&image, 39, 16), None);
    assert_eq!(read_command(&image, 41, 16), None);
    assert_eq!(read_command(&image, 40, 34), None);
    assert_eq!(read_command(&image, 10, 16), None);
}

#[test]
fn thirty_two_bit_headers_are_shorter() {
    let mut image = header(1, 8, Width::Bits32);
    plain_command(&mut image, 0x1b, 8);
    assert_eq!(load_commands(&image, Width::Bits32), vec![LoadCommand { at: 28, cmd: 0x1b, cmdsize: 8 }]);
}

#[test]
fn the_symbol_table_command_gives_offsets_and_counts() {
    let mut image = vec![0u8; 4];
    for v in [0x2u32, 24, 0x1000, 17, 0x2000, 0x300] {
        le32(&mut image, v);
    }
    assert_eq!(
        read_symtab(&image, 4),
        Some(Symtab { symoff: 0x1000, nsyms: 17, stroff: 0x2000, strsize: 0x300 })
    );
    assert_eq!(read_symtab(&image, 5), None);
    assert_eq!(read_symtab(&image[..27], 4), None);
    assert_eq!(read_symtab(&image, usize::MAX), None);
}

#[test]
fn the_dynamic_symbol_table_command_gives_the_indirect_table() {
    let mut image = Vec::new();
    le32(&mut image, 0xb);
    le32(&mut image, 80);
    for i in 0..18u32 {
        le32(&mut image, 100 + i);
    }
    assert_eq!(read_dysymtab(&image, 0), Some(Dysymtab { indirectsymoff: 112, nindirectsyms: 113 }));
    assert_eq!(read_dysymtab(&image[..79], 0), None);
    assert_eq!(read_dysymtab(&image, 1), None);
}

fn segment64(name: &str, nsects: u32, sections: &[(u64, u64, u32, u32)]) -> Vec<u8> {
    let mut out = Vec::new();
    le32(&mut out, 0x19);
    le32(&mut out, 72 + 80 * sections.len() as u32);
    name16(&mut out, name);
    for v in [0x1_0000_0000u64, 0x4000, 0x8000, 0x4000] {
        out.extend_from_slice(&v.to_le_bytes());
    }
    le32(&mut out, 3);
    le32(&mut out, 3);
    le32(&mut out, nsects);
    le32(&mut out, 0);
    for (addr, size, flags, reserved1) in sections {
        name16(&mut out, "__sect");
        name16(&mut out, name);
        out.extend_from_slice(&addr.to_le_bytes());
        out.extend_from_slice(&size.to_le_bytes());
        for v in [0x10u32, 3, 0, 0, *flags, *reserved1, 0x22, 0x33] {
            le32(&mut out, v);
        }
    }
    out
}

#[test]
fn a_segment_command_is_classified_by_its_kind_and_length() {
    let image = segment64("__DATA", 2, &[(0x1000, 8, 6, 0), (0x2000, 16, 7, 1)]);
    let c = LoadCommand { at: 0, cmd: 0x19, cmdsize: 232 };
    assert_eq!(read_segment(&image, Width::Bits64, &c), Some(Segment { at: 0, cmdsize: 232, nsects: 2 }));
    assert_eq!(read_segment(&image, Width::Bits32, &c), None);
    assert_eq!(read_segment(&image, Width::Bits64, &LoadCommand { cmd: 0x1, ..c }), None);
    assert_eq!(read_segment(&image, Width::Bits64, &LoadCommand { cmd: 0x2, ..c }), None);
    assert_eq!(read_segment(&image, Width::Bits64, &LoadCommand { cmdsize: 71, ..c }), None);
    assert_eq!(read_segment(&image, Width::Bits64, &LoadCommand { cmdsize: 233, ..c }), None);
    assert_eq!(read_segment(&image, Width::Bits64, &LoadCommand { at: 1, ..c }), None);
    assert_eq!(
        read_segment(&image, Width::Bits64, &LoadCommand { cmdsize: 72, ..c }),
        Some(Segment { at: 0, cmdsize: 72, nsects: 2 })
    );
}

#[test]
fn a_segment_is_named_by_its_field() {
    let image = segment64("__DATA_CONST", 0, &[]);
    let segment = Segment { at: 0, cmdsize: 72, nsects: 0 };
    assert!(segment_named(&image, &segment, "__DATA_CONST"));
    assert!(segment_named(&image, &segment, "__DATA"));
    assert!(segment_named(&image, &segment, ""));
    assert!(!segment_named(&image, &segment, "__LINKEDIT"));
    assert!(!segment_named(&image, &segment, "__DATA_CONSTANT"));
    assert!(!segment_named(&image[..23], &segment, "__DATA"));
    assert!(!segment_named(&image, &Segment { at: usize::MAX, ..segment }, "__DATA"));
}

#[test]
fn sections_follow_their_segment_command() {
    let image = segment64("__DATA", 2, &[(0x1000, 8, 6, 0), (0x2000, 16, 0x8000_0007, 1)]);
    let segment = Segment { at: 0, cmdsize: 232, nsects: 2 };
    assert_eq!(
        read_section(&image, Width::Bits64, &segment, 0),
        Some(Section { at: 72, addr: 0x1000, size: 8, flags: 6, reserved1: 0 })
    );
    assert_eq!(
        read_section(&image, Width::Bits64, &segment, 1),
        Some(Section { at: 152, addr: 0x2000, size: 16, flags: 0x8000_0007, reserved1: 1 })
    );
    assert_eq!(read_section(&image, Width::Bits64, &segment, 2), None);
    assert_eq!(read_section(&image, Width::Bits64, &Segment { nsects: 1, ..segment }, 1), None);
    assert_eq!(read_section(&image, Width::Bits64, &Segment { cmdsize: 231, ..segment }, 1), None);
    assert_eq!(read_section(&image[..231], Width::Bits64, &segment, 0), None);
    assert_eq!(read_section(&image, Width::Bits64, &Segment { nsects: u32::MAX, ..segment }, u32::MAX - 1), None);
}

#[test]
fn thirty_two_bit_sections_have_short_addresses() {
    let mut image = Vec::new();
    le32(&mut image, 0x1);
    le32(&mut image, 56 + 68);
    name16(&mut image, "__DATA");
    for v in [0x4000u32, 0x1000, 0x3000, 0x1000, 3, 3, 1, 0] {
        le32(&mut image, v);
    }
    name16(&mut image, "__nl_symbol_ptr");
    name16(&mut image, "__DATA");
    for v in [0x4010u32, 12, 0x3010, 2, 0, 0, 6, 5, 0] {
        le32(&mut image, v);
    }
    let c = LoadCommand { at: 0, cmd: 0x1, cmdsize: 124 };
    let segment = read_segment(&image, Width::Bits32, &c).unwrap();
    assert_eq!(segment, Segment { at: 0, cmdsize: 124, nsects: 1 });
    assert_eq!(
        read_section(&image, Width::Bits32, &segment, 0),
        Some(Section { at: 56, addr: 0x4010, size: 12, flags: 6, reserved1: 5 })
    );
    assert_eq!(read_segment(&image, Width::Bits64, &c), None);
}

#[test]
fn symbol_pointer_sections_are_known_by_their_type() {
    assert!(is_symbol_pointer_section(6));
    assert!(is_symbol_pointer_section(7));
    assert!(is_symbol_pointer_section(0x8000_0407));
    assert!(is_symbol_pointer_section(0xffff_ff06));
    for flags in [0u32, 1, 5, 8, 0x16, 0x17, 0x600, 0x700, 0xff, 0x8000_0400] {
        assert!(!is_symbol_pointer_section(flags), "{flags:#x}");
    }
}

#[test]
fn local_and_absolute_entries_name_no_symbol() {
    assert!(names_no_symbol(0x8000_0000));
    assert!(names_no_symbol(0x4000_0000));
    assert!(names_no_symbol(0xc000_0000));
    for index in [0u32, 1, 0x3fff_ffff, 0x4000_0001, 0x8000_0001, 0xc000_0001, u32::MAX] {
        assert!(!names_no_symbol(index), "{index:#x}");
    }
}

/// Symbol table at 0 (two entries of 16 bytes), string table at 32 (16
/// bytes), indirect symbol table at 48 (three entries).
fn tables_image() -> (Vec<u8>, Tables) {
    let mut image = Vec::new();
    for n_strx in [1u32, 7] {
        le32(&mut image, n_strx);
        image.extend_from_slice(&[0x01, 0, 0, 0]);
        image.extend_from_slice(&0u64.to_le_bytes());
    }
    image.extend_from_slice(b"\0_puts\0_x\0_\0end\0\0");
    assert_eq!(image.len(), 49);
    image.truncate(48);
    for entry in [1u32, 0, 0x8000_0000] {
        le32(&mut image, entry);
    }
    let tables = Tables {
        symtab: Symtab { symoff: 0, nsyms: 2, stroff: 32, strsize: 16 },
        dysymtab: Dysymtab { indirectsymoff: 48, nindirectsyms: 3 },
    };
    (image, tables)
}

#[test]
fn the_indirect_symbol_table_is_read_inside_its_bounds() {
    let (image, tables) = tables_image();
    assert_eq!(read_indirect_index(&image, &tables.dysymtab, 0), Some(1));
    assert_eq!(read_indirect_index(&image, &tables.dysymtab, 1), Some(0));
    assert_eq!(read_indirect_index(&image, &tables.dysymtab, 2), Some(0x8000_0000));
    assert_eq!(read_indirect_index(&image, &tables.dysymtab, 3), None);
    assert_eq!(read_indirect_index(&image, &tables.dysymtab, u64::MAX), None);
    assert_eq!(read_indirect_index(&image[..59], &tables.dysymtab, 2), None);
    let far = Dysymtab { indirectsymoff: u32::MAX, nindirectsyms: u32::MAX };
    assert_eq!(read_indirect_index(&image, &far, u32::MAX as u64 - 1), None);
}

#[test]
fn a_symbol_names_its_place_in_the_string_table() {
    let (image, tables) = tables_image();
    assert_eq!(read_name_offset(&image, Width::Bits64, &tables.symtab, 0), Some(33));
    assert_eq!(read_name_offset(&image, Width::Bits64, &tables.symtab, 1), Some(39));
    assert_eq!(read_name_offset(&image, Width::Bits64, &tables.symtab, 2), None);
    let short = Symtab { strsize: 7, ..tables.symtab };
    assert_eq!(read_name_offset(&image, Width::Bits64, &short, 0), Some(33));
    assert_eq!(read_name_offset(&image, Width::Bits64, &short, 1), None);
    assert_eq!(read_name_offset(&image[..31], Width::Bits64, &tables.symtab, 1), None);
    // Entries of 12 bytes: the second one starts in the middle of the first
    // entry of 16 bytes, where four zero bytes lie.
    assert_eq!(read_name_offset(&image, Width::Bits32, &tables.symtab, 1), Some(32));
}

#[test]
fn a_string_ends_at_its_first_zero_byte() {
    let bytes = b"ab\0cd\0\0e";
    assert_eq!(find_nul(bytes, 0, 8), Some(2));
    assert_eq!(find_nul(bytes, 2, 8), Some(2));
    assert_eq!(find_nul(bytes, 3, 8), Some(5));
    assert_eq!(find_nul(bytes, 6, 8), Some(6));
    assert_eq!(find_nul(bytes, 7, 8), None);
    assert_eq!(find_nul(bytes, 3, 5), None);
    assert_eq!(find_nul(bytes, 8, 8), None);
    assert_eq!(find_nul(bytes, 0, 2), None);
}

#[test]
fn a_slot_is_bound_to_the_name_behind_its_entry() {
    let (image, tables) = tables_image();
    assert_eq!(read_bound_name(&image, Width::Bits64, &tables, 0), Some(&b"x"[..]));
    assert_eq!(read_bound_name(&image, Width::Bits64, &tables, 1), Some(&b"puts"[..]));
    assert_eq!(read_bound_name(&image, Width::Bits64, &tables, 2), None);
    assert_eq!(read_bound_name(&image, Width::Bits64, &tables, 3), None);
}

#[test]
fn a_name_that_does_not_end_in_the_string_table_is_no_name() {
    let (image, tables) = tables_image();
    let cut = Tables { symtab: Symtab { strsize: 6, ..tables.symtab }, ..tables };
    assert_eq!(read_bound_name(&image, Width::Bits64, &cut, 1), None);
    let enough = Tables { symtab: Symtab { strsize: 7, ..tables.symtab }, ..tables };
    assert_eq!(read_bound_name(&image, Width::Bits64, &enough, 1), Some(&b"puts"[..]));
    assert_eq!(read_bound_name(&image[..38], Width::Bits64, &tables, 1), None);
}

#[test]
fn a_name_of_one_byte_or_none_is_no_name() {
    let mut image = Vec::new();
    for n_strx in [0u32, 1, 3] {
        le32(&mut image, n_strx);
        image.extend_from_slice(&[0; 12]);
    }
    image.extend_from_slice(b"\0_\0_a\0");
    for entry in [0u32, 1, 2] {
        le32(&mut image, entry);
    }
    let tables = Tables {
        symtab: Symtab { symoff: 0, nsyms: 3, stroff: 48, strsize: 6 },
        dysymtab: Dysymtab { indirectsymoff: 54, nindirectsyms: 3 },
    };
    assert_eq!(read_bound_name(&image, Width::Bits64, &tables, 0), None);
    assert_eq!(read_bound_name(&image, Width::Bits64, &tables, 1), None);
    assert_eq!(read_bound_name(&image, Width::Bits64, &tables, 2), Some(&b"a"[..]));
}
