use fishhook::macho::{load_commands, Width};
use fishhook::registry::Rebinding;
use fishhook::walker::{rebind_for_image, read_tables, scan_commands, SlotPatch};

const LAZY: u32 = 0x7;
const NON_LAZY: u32 = 0x6;
const REGULAR: u32 = 0x0;
const LOCAL: u32 = 0x8000_0000;
const ABS: u32 = 0x4000_0000;

struct Sect {
    name: &'static str,
    flags: u32,
    addr: u64,
    size: u64,
    reserved1: u32,
}

struct Seg {
    name: &'static str,
    sects: Vec<Sect>,
}

fn put32(out: &mut Vec<u8>, v: u32) {
    out.extend_from_slice(&v.to_le_bytes());
}

fn put64(out: &mut Vec<u8>, v: u64) {
    out.extend_from_slice(&v.to_le_bytes());
}

fn put_name(out: &mut Vec<u8>, name: &str) {
    let mut field = [0u8; 16];
    field[..name.len()].copy_from_slice(name.as_bytes());
    out.extend_from_slice(&field);
}

/// A 64-bit image: the header, one segment command for each of `segs`, a
/// symbol table command and a dynamic symbol table command, then the symbol
/// table, the string table and the indirect symbol table.
fn image64(segs: &[Seg], symbols: &[&str], indirect: &[u32]) -> Vec<u8> {
    let mut cmds: Vec<u8> = Vec::new();
    for seg in segs {
        put32(&mut cmds, 0x19);
        put32(&mut cmds, 72 + 80 * seg.sects.len() as u32);
        put_name(&mut cmds, seg.name);
        put64(&mut cmds, 0);
        put64(&mut cmds, 0);
        put64(&mut cmds, 0);
        put64(&mut cmds, 0);
        put32(&mut cmds, 3);
        put32(&mut cmds, 3);
        put32(&mut cmds, seg.sects.len() as u32);
        put32(&mut cmds, 0);
        for sect in &seg.sects {
            put_name(&mut cmds, sect.name);
            put_name(&mut cmds, seg.name);
            put64(&mut cmds, sect.addr);
            put64(&mut cmds, sect.size);
            put32(&mut cmds, 0);
            put32(&mut cmds, 3);
            put32(&mut cmds, 0);
            put32(&mut cmds, 0);
            put32(&mut cmds, sect.flags);
            put32(&mut cmds, sect.reserved1);
            put32(&mut cmds, 0);
            put32(&mut cmds, 0);
        }
    }
    let mut strings: Vec<u8> = vec![0];
    let mut offsets: Vec<u32> = Vec::new();
    for s in symbols {
        offsets.push(strings.len() as u32);
        strings.extend_from_slice(s.as_bytes());
        strings.push(0);
    }
    let symoff = 32 + cmds.len() as u32 + 24 + 80;
    let stroff = symoff + 16 * symbols.len() as u32;
    let indirectsymoff = stroff + strings.len() as u32;
    // LC_SYMTAB
    put32(&mut cmds, 0x2);
    put32(&mut cmds, 24);
    put32(&mut cmds, symoff);
    put32(&mut cmds, symbols.len() as u32);
    put32(&mut cmds, stroff);
    put32(&mut cmds, strings.len() as u32);
    // LC_DYSYMTAB
    put32(&mut cmds, 0xb);
    put32(&mut cmds, 80);
    for _ in 0..12 {
        put32(&mut cmds, 0);
    }
    put32(&mut cmds, indirectsymoff);
    put32(&mut cmds, indirect.len() as u32);
    for _ in 0..4 {
        put32(&mut cmds, 0);
    }
    let mut image: Vec<u8> = Vec::new();
    put32(&mut image, 0xfeed_facf);
    put32(&mut image, 0x0100_000c);
    put32(&mut image, 0);
    put32(&mut image, 6);
    put32(&mut image, segs.len() as u32 + 2);
    put32(&mut image, cmds.len() as u32);
    put32(&mut image, 0);
    put32(&mut image, 0);
    image.extend_from_slice(&cmds);
    for offset in &offsets {
        put32(&mut image, *offset);
        image.push(0x01);
        image.push(0);
        image.extend_from_slice(&0u16.to_le_bytes());
        put64(&mut image, 0);
    }
    image.extend_from_slice(&strings);
    for entry in indirect {
        put32(&mut image, *entry);
    }
    image
}

fn binding(name: &str, replacement: u64) -> Rebinding {
    Rebinding { name: name.to_string(), replacement, original: Some(0) }
}

fn typical() -> Vec<u8> {
    image64(
        &[
            Seg { name: "__TEXT", sects: vec![Sect { name: "__text", flags: 0x8000_0400, addr: 0x1000, size: 0x100, reserved1: 0 }] },
            Seg {
                name: "__DATA_CONST",
                sects: vec![Sect { name: "__got", flags: NON_LAZY, addr: 0x4000, size: 16, reserved1: 0 }],
            },
            Seg {
                name: "__DATA",
                sects: vec![
                    Sect { name: "__la_symbol_ptr", flags: LAZY, addr: 0x8000, size: 24, reserved1: 2 },
                    Sect { name: "__data", flags: REGULAR, addr: 0x9000, size: 64, reserved1: 0 },
                ],
            },
            Seg { name: "__LINKEDIT", sects: vec![] },
        ],
        &["_puts", "_malloc", "_free", "_"],
        &[1, ABS, 0, 2, 1],
    )
}

#[test]
fn a_registered_name_is_planned_wherever_it_is_bound() {
    let image = typical();
    let bindings = vec![binding("malloc", 0xaaaa)];
    let plan = rebind_for_image(&image, Width::Bits64, 0, &bindings);
    assert_eq!(plan.len(), 2);
    assert_eq!(plan[0].address, 0x4000);
    assert_eq!(plan[0].window_base, 0x4000);
    assert_eq!(plan[0].window_size, 16);
    assert_eq!(plan[0].index, 0);
    assert_eq!(plan[0].binding, 0);
    assert_eq!(plan[0].replacement, 0xaaaa);
    assert_eq!(plan[1].address, 0x8000 + 16);
    assert_eq!(plan[1].window_base, 0x8000);
    assert_eq!(plan[1].window_size, 24);
    assert_eq!(plan[1].index, 2);
}

#[test]
fn patches_come_in_the_order_of_sections_and_slots() {
    let image = typical();
    let bindings = vec![binding("free", 0x1), binding("puts", 0x2), binding("malloc", 0x3)];
    let plan = rebind_for_image(&image, Width::Bits64, 0, &bindings);
    let got: Vec<(u64, usize, u64)> = plan.iter().map(|p| (p.address, p.binding, p.replacement)).collect();
    assert_eq!(got, vec![(0x4000, 2, 0x3), (0x8000, 1, 0x2), (0x8008, 0, 0x1), (0x8010, 2, 0x3)]);
}

#[test]
fn the_slide_moves_every_address() {
    let image = typical();
    let bindings = vec![binding("puts", 0x2)];
    let plan = rebind_for_image(&image, Width::Bits64, 0x10_0000, &bindings);
    assert_eq!(plan.len(), 1);
    assert_eq!(plan[0].address, 0x10_8000);
    assert_eq!(plan[0].window_base, 0x10_8000);
    let back = rebind_for_image(&image, Width::Bits64, -0x1000, &bindings);
    assert_eq!(back[0].address, 0x7000);
}

#[test]
fn a_section_that_slides_out_of_the_address_space_is_skipped() {
    let image = typical();
    let bindings = vec![binding("puts", 0x2), binding("malloc", 0x3)];
    let plan = rebind_for_image(&image, Width::Bits64, -0x5000, &bindings);
    let got: Vec<u64> = plan.iter().map(|p| p.address).collect();
    assert_eq!(got, vec![0x3000, 0x3010]);
}

#[test]
fn an_unknown_name_plans_nothing() {
    let image = typical();
    let bindings = vec![binding("does_not_exist_xyzzy", 0x2)];
    assert_eq!(rebind_for_image(&image, Width::Bits64, 0, &bindings), Vec::<SlotPatch>::new());
}

#[test]
fn no_rebindings_plan_nothing() {
    let image = typical();
    assert!(rebind_for_image(&image, Width::Bits64, 0, &Vec::new()).is_empty());
}

#[test]
fn of_two_rebindings_with_one_name_the_first_applies() {
    let image = typical();
    let bindings = vec![binding("puts", 0xa), binding("puts", 0xb)];
    let plan = rebind_for_image(&image, Width::Bits64, 0, &bindings);
    assert_eq!(plan.len(), 1);
    assert_eq!(plan[0].binding, 0);
    assert_eq!(plan[0].replacement, 0xa);
}

#[test]
fn names_are_compared_without_the_underscore_and_exactly() {
    let image = typical();
    for name in ["_puts", "put", "putss", "PUTS", ""] {
        let bindings = vec![binding(name, 0x2)];
        assert!(rebind_for_image(&image, Width::Bits64, 0, &bindings).is_empty(), "{name}");
    }
}

#[test]
fn absolute_and_local_entries_are_skipped() {
    let image = image64(
        &[Seg {
            name: "__DATA",
            sects: vec![Sect { name: "__got", flags: NON_LAZY, addr: 0x4000, size: 32, reserved1: 0 }],
        }],
        &["_puts"],
        &[ABS, LOCAL, ABS | LOCAL, 0],
    );
    let bindings = vec![binding("puts", 0x2)];
    let plan = rebind_for_image(&image, Width::Bits64, 0, &bindings);
    assert_eq!(plan.len(), 1);
    assert_eq!(plan[0].index, 3);
    assert_eq!(plan[0].address, 0x4018);
}

#[test]
fn sections_of_other_types_are_skipped() {
    for flags in [REGULAR, 0x1, 0x5, 0x8, 0x9, 0x16, 0x107, 0xff] {
        let image = image64(
            &[Seg {
                name: "__DATA",
                sects: vec![Sect { name: "__x", flags, addr: 0x4000, size: 8, reserved1: 0 }],
            }],
            &["_puts"],
            &[0],
        );
        let bindings = vec![binding("puts", 0x2)];
        let plan = rebind_for_image(&image, Width::Bits64, 0, &bindings);
        assert_eq!(plan.is_empty(), flags != 0x107, "{flags:#x}");
    }
}

#[test]
fn the_type_of_a_section_is_its_flags_under_the_mask() {
    for flags in [LAZY, NON_LAZY, 0x8000_0007, 0x0000_0106, 0xffff_ff06] {
        let image = image64(
            &[Seg {
                name: "__DATA",
                sects: vec![Sect { name: "__x", flags, addr: 0x4000, size: 8, reserved1: 0 }],
            }],
            &["_puts"],
            &[0],
        );
        let bindings = vec![binding("puts", 0x2)];
        assert_eq!(rebind_for_image(&image, Width::Bits64, 0, &bindings).len(), 1, "{flags:#x}");
    }
}

#[test]
fn only_data_segments_are_visited() {
    for (name, visited) in [
        ("__DATA", true),
        ("__DATA_CONST", true),
        ("__DATA_DIRTY", true),
        ("__TEXT", false),
        ("__LINKEDIT", false),
        ("__DAT", false),
        ("", false),
    ] {
        let image = image64(
            &[Seg {
                name,
                sects: vec![Sect { name: "__got", flags: NON_LAZY, addr: 0x4000, size: 8, reserved1: 0 }],
            }],
            &["_puts"],
            &[0],
        );
        let bindings = vec![binding("puts", 0x2)];
        assert_eq!(rebind_for_image(&image, Width::Bits64, 0, &bindings).len() == 1, visited, "{name}");
    }
}

#[test]
fn a_rest_shorter_than_a_pointer_is_no_slot() {
    let image = image64(
        &[Seg {
            name: "__DATA",
            sects: vec![Sect { name: "__got", flags: NON_LAZY, addr: 0x4000, size: 15, reserved1: 0 }],
        }],
        &["_puts"],
        &[0, 0],
    );
    let bindings = vec![binding("puts", 0x2)];
    let plan = rebind_for_image(&image, Width::Bits64, 0, &bindings);
    assert_eq!(plan.len(), 1);
    assert_eq!(plan[0].window_size, 15);
}

#[test]
fn entries_behind_the_symbol_table_are_skipped() {
    let image = image64(
        &[Seg {
            name: "__DATA",
            sects: vec![Sect { name: "__got", flags: NON_LAZY, addr: 0x4000, size: 24, reserved1: 0 }],
        }],
        &["_puts"],
        &[1, 7, 0],
    );
    let bindings = vec![binding("puts", 0x2)];
    let plan = rebind_for_image(&image, Width::Bits64, 0, &bindings);
    assert_eq!(plan.len(), 1);
    assert_eq!(plan[0].index, 2);
}

#[test]
fn slots_behind_the_indirect_symbol_table_are_skipped() {
    let image = image64(
        &[Seg {
            name: "__DATA",
            sects: vec![Sect { name: "__got", flags: NON_LAZY, addr: 0x4000, size: 64, reserved1: 1 }],
        }],
        &["_puts"],
        &[0, 0, 0],
    );
    let bindings = vec![binding("puts", 0x2)];
    let plan = rebind_for_image(&image, Width::Bits64, 0, &bindings);
    let got: Vec<u64> = plan.iter().map(|p| p.index).collect();
    assert_eq!(got, vec![0, 1]);
}

#[test]
fn names_of_one_byte_are_skipped() {
    let image = image64(
        &[Seg {
            name: "__DATA",
            sects: vec![Sect { name: "__got", flags: NON_LAZY, addr: 0x4000, size: 16, reserved1: 0 }],
        }],
        &["_", "_a"],
        &[0, 1],
    );
    let bindings = vec![binding("", 0x1), binding("a", 0x2)];
    let plan = rebind_for_image(&image, Width::Bits64, 0, &bindings);
    assert_eq!(plan.len(), 1);
    assert_eq!(plan[0].binding, 1);
}

#[test]
fn an_image_without_indirect_symbols_is_left_alone() {
    let image = image64(
        &[Seg {
            name: "__DATA",
            sects: vec![Sect { name: "__got", flags: NON_LAZY, addr: 0x4000, size: 16, reserved1: 0 }],
        }],
        &["_puts"],
        &[],
    );
    let bindings = vec![binding("puts", 0x2)];
    assert!(rebind_for_image(&image, Width::Bits64, 0, &bindings).is_empty());
    let cmds = load_commands(&image, Width::Bits64);
    let scan = scan_commands(&image, Width::Bits64, &cmds);
    assert!(scan.symtab.is_some() && scan.dysymtab.is_some());
    assert_eq!(read_tables(&image, &scan), None);
}

#[test]
fn a_missing_linkedit_segment_is_not_fatal() {
    let image = image64(
        &[Seg {
            name: "__DATA",
            sects: vec![Sect { name: "__got", flags: NON_LAZY, addr: 0x4000, size: 8, reserved1: 0 }],
        }],
        &["_puts"],
        &[0],
    );
    let cmds = load_commands(&image, Width::Bits64);
    assert_eq!(scan_commands(&image, Width::Bits64, &cmds).linkedit, None);
    let bindings = vec![binding("puts", 0x2)];
    assert_eq!(rebind_for_image(&image, Width::Bits64, 0, &bindings).len(), 1);
}

#[test]
fn the_first_pass_records_the_tables_and_linkedit() {
    let image = typical();
    let cmds = load_commands(&image, Width::Bits64);
    assert_eq!(cmds.len(), 6);
    let scan = scan_commands(&image, Width::Bits64, &cmds);
    assert_eq!(scan.linkedit, Some(cmds[3]));
    assert_eq!(scan.symtab, Some(cmds[4]));
    assert_eq!(scan.dysymtab, Some(cmds[5]));
    let tables = read_tables(&image, &scan).unwrap();
    assert_eq!(tables.symtab.nsyms, 4);
    assert_eq!(tables.dysymtab.nindirectsyms, 5);
}

#[test]
fn a_truncated_image_plans_nothing_that_the_whole_does_not() {
    let image = typical();
    let bindings = vec![binding("puts", 0x2), binding("malloc", 0x3), binding("free", 0x4)];
    let whole = rebind_for_image(&image, Width::Bits64, 0, &bindings);
    for len in 0..image.len() {
        let plan = rebind_for_image(&image[..len], Width::Bits64, 0, &bindings);
        assert!(plan.len() <= whole.len());
        for patch in &plan {
            assert!(whole.contains(patch));
        }
    }
}

/// A 32-bit image with one data segment of one section, and the tables.
fn image32(flags: u32, addr: u32, size: u32, reserved1: u32, symbols: &[&str], indirect: &[u32]) -> Vec<u8> {
    let mut cmds: Vec<u8> = Vec::new();
    put32(&mut cmds, 0x1);
    put32(&mut cmds, 56 + 68);
    put_name(&mut cmds, "__DATA");
    for v in [0x4000u32, 0x1000, 0, 0, 3, 3, 1, 0] {
        put32(&mut cmds, v);
    }
    put_name(&mut cmds, "__nl_symbol_ptr");
    put_name(&mut cmds, "__DATA");
    for v in [addr, size, 0, 2, 0, 0, flags, reserved1, 0] {
        put32(&mut cmds, v);
    }
    let mut strings: Vec<u8> = vec![0];
    let mut offsets: Vec<u32> = Vec::new();
    for s in symbols {
        offsets.push(strings.len() as u32);
        strings.extend_from_slice(s.as_bytes());
        strings.push(0);
    }
    let symoff = 28 + cmds.len() as u32 + 24 + 80;
    let stroff = symoff + 12 * symbols.len() as u32;
    let indirectsymoff = stroff + strings.len() as u32;
    put32(&mut cmds, 0x2);
    put32(&mut cmds, 24);
    put32(&mut cmds, symoff);
    put32(&mut cmds, symbols.len() as u32);
    put32(&mut cmds, stroff);
    put32(&mut cmds, strings.len() as u32);
    put32(&mut cmds, 0xb);
    put32(&mut cmds, 80);
    for _ in 0..12 {
        put32(&mut cmds, 0);
    }
    put32(&mut cmds, indirectsymoff);
    put32(&mut cmds, indirect.len() as u32);
    for _ in 0..4 {
        put32(&mut cmds, 0);
    }
    let mut image: Vec<u8> = Vec::new();
    for v in [0xfeed_faceu32, 7, 3, 2, 3, cmds.len() as u32, 0] {
        put32(&mut image, v);
    }
    image.extend_from_slice(&cmds);
    for offset in &offsets {
        put32(&mut image, *offset);
        image.extend_from_slice(&[0x01, 0, 0, 0]);
        put32(&mut image, 0);
    }
    image.extend_from_slice(&strings);
    for entry in indirect {
        put32(&mut image, *entry);
    }
    image
}

#[test]
fn slots_of_a_thirty_two_bit_image_are_four_bytes_apart() {
    let image = image32(NON_LAZY, 0x4010, 14, 1, &["_puts", "_free"], &[ABS, 1, 0, 1, 1]);
    let bindings = vec![binding("free", 0xf), binding("puts", 0xe)];
    let plan = rebind_for_image(&image, Width::Bits32, 0x100, &bindings);
    let got: Vec<(u64, u64, usize, u64)> =
        plan.iter().map(|p| (p.index, p.address, p.binding, p.replacement)).collect();
    assert_eq!(got, vec![(0, 0x4110, 0, 0xf), (1, 0x4114, 1, 0xe), (2, 0x4118, 0, 0xf)]);
    assert_eq!(plan[0].window_base, 0x4110);
    assert_eq!(plan[0].window_size, 14);
    assert!(rebind_for_image(&image, Width::Bits64, 0x100, &bindings).is_empty());
}

#[test]
fn a_thirty_two_bit_section_stays_below_four_gigabytes() {
    let image = image32(LAZY, 0xffff_fff0, 16, 0, &["_puts"], &[0, 0, 0, 0]);
    let bindings = vec![binding("puts", 0xe)];
    assert_eq!(rebind_for_image(&image, Width::Bits32, 0, &bindings).len(), 4);
    assert!(rebind_for_image(&image, Width::Bits32, 1, &bindings).is_empty());
    assert_eq!(rebind_for_image(&image, Width::Bits32, -0x10, &bindings)[3].address, 0xffff_ffec);
}

#[test]
fn a_sixty_four_bit_section_stays_inside_the_address_space() {
    let image = image64(
        &[Seg {
            name: "__DATA",
            sects: vec![Sect { name: "__got", flags: NON_LAZY, addr: u64::MAX - 15, size: 16, reserved1: 0 }],
        }],
        &["_puts"],
        &[0, 0],
    );
    let bindings = vec![binding("puts", 0xe)];
    let plan = rebind_for_image(&image, Width::Bits64, 0, &bindings);
    assert_eq!(plan.len(), 2);
    assert_eq!(plan[1].address, u64::MAX - 7);
    assert!(rebind_for_image(&image, Width::Bits64, 1, &bindings).is_empty());
    assert!(rebind_for_image(&image, Width::Bits64, i64::MIN, &bindings).len() == 2);
    let low = image64(
        &[Seg {
            name: "__DATA",
            sects: vec![Sect { name: "__got", flags: NON_LAZY, addr: 0x10, size: 16, reserved1: 0 }],
        }],
        &["_puts"],
        &[0, 0],
    );
    assert!(rebind_for_image(&low, Width::Bits64, -0x11, &bindings).is_empty());
    assert_eq!(rebind_for_image(&low, Width::Bits64, -0x10, &bindings)[0].address, 0);
}
