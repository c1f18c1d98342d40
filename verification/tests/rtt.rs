use scope_monitor::interfaces::rtt_elf::{address_in_bytes, control_block_address_in};
use scope_monitor::interfaces::rtt_if::{
    RttAction, RttCommand, RttEvent, TransferRefusal,
    ControlBlock, RttInterface, RttMode, RttSetup, RttShared, ScanRegion,
};
use std::ops::Range;

fn imxrt1020_ram() -> Vec<Range<u64>> {
    vec![
        0x2020_0000..0x2024_0000,
        0x0000_0000..0x0004_0000,
        0x2000_0000..0x2004_0000,
    ]
}

fn imxrt1020_windows() -> ScanRegion {
    ScanRegion::Ranges(RttInterface::scan_windows(&imxrt1020_ram()))
}

#[test]
fn every_ram_region_gets_a_leading_window() {
    assert_eq!(
        RttInterface::scan_windows(&imxrt1020_ram()),
        vec![
            0x2020_0000..0x2020_8000,
            0x0000_0000..0x0000_8000,
            0x2000_0000..0x2000_8000,
        ],
        "768KiB of RAM is probed as three 32KiB windows"
    );
}

#[test]
fn a_region_smaller_than_the_window_is_not_read_past_its_end() {
    let windows = RttInterface::scan_windows(&[0x2000_0000..0x2000_0800]);

    assert_eq!(windows, vec![0x2000_0000..0x2000_0800]);
}

#[test]
fn empty_and_degenerate_regions_are_dropped() {
    assert!(RttInterface::scan_windows(&[]).is_empty());
    #[allow(clippy::reversed_empty_ranges)]
    let degenerate = [0x2000_0000..0x2000_0000, 0x2000_8000..0x2000_0000];
    assert!(RttInterface::scan_windows(&degenerate).is_empty());
}

#[test]
fn an_exact_address_wins_over_every_scan() {
    let region = RttInterface::scan_region_in(
        &ControlBlock::Exact(0x2020_0410),
        &ScanRegion::Ranges(vec![0x2000_0000..0x2000_8000]),
        &imxrt1020_ram(),
        None,
    );

    assert_eq!(region, ScanRegion::Exact(0x2020_0410));
}

#[test]
fn the_target_description_wins_over_the_memory_map() {
    let named = vec![0x2020_0000..0x2020_1000];
    let region = RttInterface::scan_region_in(
        &ControlBlock::Scan,
        &ScanRegion::Ranges(named.clone()),
        &imxrt1020_ram(),
        None,
    );

    assert_eq!(region, ScanRegion::Ranges(named));
}

#[test]
fn the_memory_map_is_used_when_the_target_names_nothing() {
    for target_regions in [ScanRegion::Ram, ScanRegion::Ranges(vec![])] {
        let region = RttInterface::scan_region_in(
            &ControlBlock::Scan,
            &target_regions,
            &imxrt1020_ram(),
            None,
        );

        assert_eq!(region, imxrt1020_windows());
    }
}

#[test]
fn an_unreadable_elf_falls_back_to_scanning() {
    let region = RttInterface::scan_region_in(
        &ControlBlock::Elf("/nonexistent/zephyr.elf".to_string()),
        &ScanRegion::Ram,
        &imxrt1020_ram(),
        None,
    );

    assert_eq!(region, imxrt1020_windows());
}

#[test]
fn a_readable_elf_gives_the_exact_address() {
    let region = RttInterface::scan_region_in(
        &ControlBlock::Elf("zephyr.elf".to_string()),
        &ScanRegion::Ram,
        &imxrt1020_ram(),
        Some(0x2020_0410),
    );

    assert_eq!(region, ScanRegion::Exact(0x2020_0410));
}

#[test]
fn the_default_probe_speed_is_unchanged() {
    let shared = RttShared::new(RttSetup::default());

    assert_eq!(shared.probe_speed, 4_000);
    assert_eq!(shared.control_block, ControlBlock::Scan);
    assert_eq!(RttInterface::DEFAULT_PROBE_SPEED_KHZ, 4_000);
}

#[test]
fn setup_values_override_the_defaults() {
    let shared = RttShared::new(RttSetup {
        target: Some("MIMXRT1020".to_string()),
        channel: Some(2),
        control_block: Some(ControlBlock::Exact(0x2020_0410)),
        probe_speed: Some(8_000),
    });

    assert_eq!(shared.channel, 2);
    assert_eq!(shared.probe_speed, 8_000);
    assert_eq!(shared.control_block, ControlBlock::Exact(0x2020_0410));
}

#[test]
fn a_target_makes_the_interface_reconnect() {
    let with_target = RttShared::new(RttSetup {
        target: Some("nRF52840_xxAA".to_string()),
        ..RttSetup::default()
    });
    assert_eq!(with_target.mode, RttMode::Reconnecting);
    let without = RttShared::new(RttSetup::default());
    assert_eq!(without.mode, RttMode::DoNotConnect);
    assert_eq!(without.channel, 0);
}

/// A minimal little-endian ARM ELF32 relocatable object whose symbol table
/// holds `symbols` as `(name, address)` pairs, defined in a `.bss` section.
fn elf_with(symbols: &[(&str, u64)]) -> Vec<u8> {
    fn push16(v: &mut Vec<u8>, x: u16) {
        v.extend_from_slice(&x.to_le_bytes());
    }
    fn push32(v: &mut Vec<u8>, x: u32) {
        v.extend_from_slice(&x.to_le_bytes());
    }
    fn align4(v: &mut Vec<u8>) {
        while v.len() % 4 != 0 {
            v.push(0);
        }
    }

    let shstrtab: &[u8] = b"\0.bss\0.symtab\0.strtab\0.shstrtab\0";
    let (bss_name, symtab_name, strtab_name, shstrtab_name) = (1u32, 6u32, 14u32, 22u32);

    let mut strtab = vec![0u8];
    let mut name_offsets = Vec::new();
    for (name, _) in symbols {
        name_offsets.push(strtab.len() as u32);
        strtab.extend_from_slice(name.as_bytes());
        strtab.push(0);
    }

    let mut symtab = vec![0u8; 16];
    for ((_, address), name) in symbols.iter().zip(&name_offsets) {
        push32(&mut symtab, *name);
        push32(&mut symtab, *address as u32);
        push32(&mut symtab, 0x30);
        symtab.push(0x11);
        symtab.push(0);
        push16(&mut symtab, 1);
    }

    let mut out = vec![0u8; 52];
    let shstrtab_off = out.len() as u32;
    out.extend_from_slice(shstrtab);
    align4(&mut out);
    let strtab_off = out.len() as u32;
    out.extend_from_slice(&strtab);
    align4(&mut out);
    let symtab_off = out.len() as u32;
    out.extend_from_slice(&symtab);
    align4(&mut out);
    let shoff = out.len() as u32;

    out.extend_from_slice(&[0u8; 40]);
    let headers: [(u32, u32, u32, u32, u32, u32, u32, u32, u32); 4] = [
        (bss_name, 8, 3, symtab_off, 0x100, 0, 0, 4, 0),
        (symtab_name, 2, 0, symtab_off, symtab.len() as u32, 3, 1, 4, 16),
        (strtab_name, 3, 0, strtab_off, strtab.len() as u32, 0, 0, 1, 0),
        (shstrtab_name, 3, 0, shstrtab_off, shstrtab.len() as u32, 0, 0, 1, 0),
    ];
    for (name, kind, flags, offset, size, link, info, align, entsize) in headers {
        push32(&mut out, name);
        push32(&mut out, kind);
        push32(&mut out, flags);
        push32(&mut out, 0);
        push32(&mut out, offset);
        push32(&mut out, size);
        push32(&mut out, link);
        push32(&mut out, info);
        push32(&mut out, align);
        push32(&mut out, entsize);
    }

    let mut header = Vec::new();
    header.extend_from_slice(&[0x7f, b'E', b'L', b'F', 1, 1, 1, 0]);
    header.extend_from_slice(&[0u8; 8]);
    push16(&mut header, 1);
    push16(&mut header, 40);
    push32(&mut header, 1);
    push32(&mut header, 0);
    push32(&mut header, 0);
    push32(&mut header, shoff);
    push32(&mut header, 0x0500_0000);
    push16(&mut header, 52);
    push16(&mut header, 0);
    push16(&mut header, 0);
    push16(&mut header, 40);
    push16(&mut header, 5);
    push16(&mut header, 4);
    out[..52].copy_from_slice(&header);
    out
}

#[test]
fn the_control_block_symbol_is_found() {
    let elf = elf_with(&[("_SEGGER_RTT", 0x2020_0410)]);

    assert_eq!(address_in_bytes(&elf), Ok(0x2020_0410));
}

#[test]
fn other_symbols_are_ignored() {
    let elf = elf_with(&[
        ("__rtt_buff_data_start", 0x2020_0000),
        ("_SEGGER_RTT", 0x2020_0410),
        ("main", 0x6000_1234),
    ]);

    assert_eq!(address_in_bytes(&elf), Ok(0x2020_0410));
}

#[test]
fn an_elf_without_the_symbol_says_so() {
    let elf = elf_with(&[("main", 0x6000_1234)]);

    let err = address_in_bytes(&elf).expect_err("no control block symbol");
    assert!(err.contains("_SEGGER_RTT"), "{err}");
}

#[test]
fn a_file_that_is_not_an_elf_says_so() {
    let err = address_in_bytes(b"not an elf at all").expect_err("not an ELF");
    assert!(err.contains("ELF"), "{err}");
}

#[test]
fn a_missing_file_reports_its_path() {
    let err = control_block_address_in("/nonexistent/zephyr.elf", b"")
        .expect_err("missing file");
    assert!(err.contains("/nonexistent/zephyr.elf"), "{err}");
}

#[test]
fn an_error_is_prefixed_with_the_path() {
    let err = control_block_address_in("fw.elf", b"junk").unwrap_err();
    assert!(err.starts_with("fw.elf is not a readable ELF: "), "{err}");
    let elf = elf_with(&[("_SEGGER_RTT", 0x1000)]);
    assert_eq!(control_block_address_in("fw.elf", &elf), Ok(0x1000));
}

#[test]
fn partial_lines_are_held_until_the_timeout() {
    let mut held: Vec<u8> = b"ab".to_vec();
    let lines = scope_monitor::interfaces::rtt_if::RttInterface::receive_chunk(&mut held, b"x\ny\nzz");
    assert_eq!(lines, vec![b"abx\n".to_vec(), b"y\n".to_vec()]);
    assert_eq!(held, b"zz".to_vec());
    assert_eq!(scope_monitor::interfaces::rtt_if::RttInterface::flush_held(&mut held, false), None);
    assert_eq!(held, b"zz".to_vec());
    assert_eq!(
        scope_monitor::interfaces::rtt_if::RttInterface::flush_held(&mut held, true),
        Some(b"zz".to_vec())
    );
    assert!(held.is_empty());
    assert_eq!(scope_monitor::interfaces::rtt_if::RttInterface::flush_held(&mut held, true), None);
}

#[test]
fn a_line_split_over_two_reads_is_sent_whole() {
    let mut held: Vec<u8> = Vec::new();
    assert!(scope_monitor::interfaces::rtt_if::RttInterface::receive_chunk(&mut held, b"hel").is_empty());
    let lines = scope_monitor::interfaces::rtt_if::RttInterface::receive_chunk(&mut held, b"lo\n");
    assert_eq!(lines, vec![b"hello\n".to_vec()]);
    assert!(held.is_empty());
}

#[test]
fn a_lost_target_is_attached_again_and_transfers_need_a_connection() {
    let mut s = RttShared::new(RttSetup { target: Some("nrf52".to_string()), ..Default::default() });
    let mut held: Vec<u8> = Vec::new();
    assert_eq!(s.mode, RttMode::Reconnecting);
    assert!(matches!(RttInterface::rtt_step(&mut s, &mut held, false, false, false, RttEvent::Tick), RttAction::TryAttach));
    match RttInterface::rtt_step(
        &mut s,
        &mut held,
        false,
        false,
        false,
        RttEvent::Command(RttCommand::SendFile { path: "fw.bin".to_string() }),
    ) {
        RttAction::RefuseTransfer { path, why } => {
            assert_eq!(path, "fw.bin");
            assert_eq!(why, TransferRefusal::NotConnected);
        }
        _ => panic!("expected a refusal"),
    }
    assert!(matches!(RttInterface::rtt_step(&mut s, &mut held, false, false, false, RttEvent::Attached(true)), RttAction::Attached));
    assert_eq!(s.mode, RttMode::Connected);
    assert!(matches!(RttInterface::rtt_step(&mut s, &mut held, true, false, false, RttEvent::Tick), RttAction::Exchange));
    match RttInterface::rtt_step(
        &mut s,
        &mut held,
        true,
        true,
        false,
        RttEvent::Command(RttCommand::SendFile { path: "b.bin".to_string() }),
    ) {
        RttAction::RefuseTransfer { why, .. } => assert_eq!(why, TransferRefusal::Busy),
        _ => panic!("expected a refusal"),
    }
    match RttInterface::rtt_step(&mut s, &mut held, true, false, false, RttEvent::ReadOk(b"hel".to_vec())) {
        RttAction::Emit(lines) => assert!(lines.is_empty()),
        _ => panic!("expected lines"),
    }
    match RttInterface::rtt_step(&mut s, &mut held, true, false, false, RttEvent::ReadOk(b"lo\n".to_vec())) {
        RttAction::Emit(lines) => assert_eq!(lines, vec![b"hello\n".to_vec()]),
        _ => panic!("expected lines"),
    }
    assert!(matches!(
        RttInterface::rtt_step(&mut s, &mut held, true, true, false, RttEvent::CoreLost),
        RttAction::Close { announce: true }
    ));
    assert_eq!(s.mode, RttMode::Reconnecting);
    assert!(matches!(RttInterface::rtt_step(&mut s, &mut held, false, true, false, RttEvent::Tick), RttAction::AbortTransfer));
    assert!(matches!(RttInterface::rtt_step(&mut s, &mut held, false, false, false, RttEvent::Tick), RttAction::TryAttach));
}
