use forward_os::ahci::{
    ci_register, header_for_table, init_port, port_reg, prdt_for_sector, read_fis, read_sector, reset_hba,
    write_sector, PrdtEntry,
};
use forward_os::apic::{apic_base_from_msr, apic_eoi_program, apic_init_program, init_io_apic};
use forward_os::boot_menu::{ahci_layout, boot_mode_for, conventional_ram, free_conventional, implemented_ports, AhciLayout};
use forward_os::interrupts::{idt_register, poll_key, shift_after, IDTEntry, KeyPoll, KeyRing, KeyboardFuture};
use forward_os::mmio::{Instr, Mmio, Runner};
use forward_os::paging::{init_os_paging, PageTable};
use forward_os::pci::{config_address, find_ahci_device, find_e1000, DeviceConfig, PciDevice};
use forward_os::ram::RamManager;
use forward_os::shell::{parse_command, parse_lba, parse_u64, KeyEffect, Shell, ShellCommand};
use forward_os::syscall::{
    decode, encode, is_key_press, path_buffer, path_len, read_file_allowed, read_key_reply, reply_to, status_word,
    write_at_allowed, ReplyTo, Syscall, SyscallRegs, FAILURE,
};
use forward_os::timing::{
    elapsed_ms, frequency_from_tsc, pit_count, sleep_ms, sleep_us, tsc_from_halves, PitWindow, WINDOW_TICKS,
    wake, DelayFuture, NopFuture, PollOutcome, SleepFuture, TscTimer, WakeFlag, YieldFuture,
};

#[test]
fn syscall_round_trip() {
    let calls = [
        Syscall::Write { ptr: 0x1000, len: 5 },
        Syscall::Read { buf_ptr: 0x2000, buf_len: 1 },
        Syscall::Exit,
        Syscall::Open { path_ptr: 0x3000 },
        Syscall::Close { fd: 7 },
        Syscall::Lseek { fd: 3, offset: -20, whence: 1 },
        Syscall::Fstat { fd: 3, buf: 0x4000 },
        Syscall::Yield,
        Syscall::ReadFile { fd: 3, buf: 0x5000, len: 512 },
        Syscall::WriteFile { fd: 3, buf: 0x5000, len: 22 },
        Syscall::Seek { fd: 4, pos: 99 },
        Syscall::Mget { pages: 1, align: 0, result_ptr: 0x6000 },
        Syscall::Mmap { pages: 64, align: 4096, result_ptr: 0x6008 },
        Syscall::WriteAt { x: 100, y: 200, ptr: 0x7000, len: 19 },
        Syscall::Munmap { addr: 0x8000, pages: 1 },
        Syscall::Unknown { num: 7 },
    ];
    for c in calls {
        assert_eq!(decode(encode(c)), c);
    }
}

#[test]
fn syscall_register_layout() {
    assert_eq!(
        encode(Syscall::WriteAt { x: 1, y: 2, ptr: 3, len: 4 }),
        SyscallRegs { rax: 15, rdi: 1, rsi: 2, rdx: 3, rcx: 4 }
    );
    assert_eq!(encode(Syscall::Lseek { fd: 1, offset: -1, whence: 2 }).rsi, u64::MAX);
    // The handler truncates a descriptor to 32 bits.
    let r = SyscallRegs { rax: 4, rdi: 0x1_0000_0005, rsi: 0, rdx: 0, rcx: 0 };
    assert_eq!(decode(r), Syscall::Close { fd: 5 });
    assert_eq!(decode(SyscallRegs { rax: 12, rdi: 0, rsi: 0, rdx: 0, rcx: 0 }), Syscall::Unknown { num: 12 });
}

#[test]
fn syscall_replies() {
    assert_eq!(reply_to(Syscall::Write { ptr: 0, len: 0 }), ReplyTo::Rax);
    assert_eq!(reply_to(Syscall::Unknown { num: 99 }), ReplyTo::Rax);
    assert_eq!(reply_to(Syscall::Close { fd: 1 }), ReplyTo::ReturnWord);
    assert_eq!(status_word(true), 0);
    assert_eq!(status_word(false), FAILURE);
    assert!(!read_file_allowed(0, 5) && !read_file_allowed(5, 0) && read_file_allowed(5, 5));
    assert!(!write_at_allowed(0, 1) && write_at_allowed(1, 1));
    assert_eq!(read_key_reply(0x1000, 1), 1);
    assert_eq!(read_key_reply(0, 1), FAILURE);
    assert!(is_key_press(0x1E) && !is_key_press(0x9E) && !is_key_press(0));
}

#[test]
fn path_buffers() {
    let b = path_buffer(b"APP.ELF");
    assert_eq!(b, b"APP.ELF\0".to_vec());
    assert_eq!(path_len(&b), 7);
    let long = vec![b'a'; 200];
    let b = path_buffer(&long);
    assert_eq!(b.len(), 128);
    assert_eq!(path_len(&b), 127);
    assert_eq!(path_len(&long), 128);
    assert_eq!(path_len(&[]), 0);
}

#[test]
fn idt_entry_encoding() {
    let mut e = IDTEntry::new();
    assert_eq!(e.flags, 0);
    e.set_handler(0x1234_5678_9ABC_DEF0);
    assert_eq!(e.offset_low, 0xDEF0);
    assert_eq!(e.offset_mid, 0x9ABC);
    assert_eq!(e.offset_high, 0x1234_5678);
    assert_eq!(e.selector, 0x38);
    assert_eq!(e.flags, 0x8E);
    assert_eq!(e.to_bytes(), vec![0xF0, 0xDE, 0x38, 0, 0, 0x8E, 0xBC, 0x9A, 0x78, 0x56, 0x34, 0x12, 0, 0, 0, 0]);
    let r = idt_register(0xABCD);
    assert_eq!((r.limit, r.base), (4095, 0xABCD));
}

#[test]
fn key_ring_is_fifo_with_fifteen_slots() {
    let mut r = KeyRing::new();
    assert_eq!(r.get_key_from_buffer(), None);
    for k in 0..15u8 {
        assert!(r.push_scancode(k + 1));
    }
    assert!(!r.push_scancode(99));
    assert_eq!(r.len(), 15);
    for k in 0..15u8 {
        assert_eq!(r.get_key_from_buffer(), Some(k + 1));
    }
    assert_eq!(r.get_key_from_buffer(), None);
    // Wrapping around the storage keeps the order.
    for k in 0..10u8 {
        r.push_scancode(k);
        assert_eq!(r.get_key_from_buffer(), Some(k));
    }
}

#[test]
fn key_polls_and_shift() {
    let mut r = KeyRing::new();
    assert_eq!(poll_key(&mut r, 0), KeyPoll::Pending);
    assert_eq!(poll_key(&mut r, 1), KeyPoll::ReadPort);
    r.push_scancode(0x1E);
    assert_eq!(poll_key(&mut r, 1), KeyPoll::Ready(0x1E));
    assert!(shift_after(false, 0x2A) && shift_after(false, 0x36));
    assert!(!shift_after(true, 0xAA) && !shift_after(true, 0xB6));
    assert!(shift_after(true, 0x1E) && !shift_after(false, 0x1E));
    let mut k = KeyboardFuture::new();
    k.observe(0x36);
    assert!(k.shift);
    k.observe(0xB6);
    assert!(!k.shift);
}

#[test]
fn timer_arithmetic() {
    assert_eq!(pit_count(0x12, 0x34), 0x1234);
    assert_eq!(tsc_from_halves(1, 2), 0x1_0000_0002);
    // 1193182 * 100 / 1000 = 119318 ticks, counted across counter wraps.
    assert_eq!(WINDOW_TICKS, 119318);
    let mut w = PitWindow::start(60000);
    assert!(!w.observe(10000));
    assert_eq!(w.elapsed, 50000);
    // Past zero the counter starts again from the top.
    assert!(!w.observe(60000));
    assert_eq!(w.elapsed, 50000 + 10000 + 65536 - 60000);
    assert!(!w.observe(10000));
    assert_eq!(w.elapsed, 115536);
    assert!(w.observe(6000));
    assert_eq!(w.elapsed, 119536);
    assert_eq!(frequency_from_tsc(300_000_000), 3_000_000_000);
    let t = TscTimer::new(3_000_000_000);
    assert_eq!(t.frequency(), 3_000_000_000);
    assert_eq!(t.ticks_for_ms(2), 6_000_000);
    assert!(t.wait_elapsed(100, 200, 100) && !t.wait_elapsed(100, 199, 100));
    assert_eq!(elapsed_ms(1_000, 3_000_001_000, 3_000_000_000), 1000);
}

#[test]
fn futures_decide_per_poll() {
    let mut y = YieldFuture::new();
    assert_eq!(y.poll_once(), PollOutcome::PendingWoken);
    assert_eq!(y.poll_once(), PollOutcome::Ready);
    assert_eq!(y.poll_once(), PollOutcome::Ready);
    assert_eq!(NopFuture.poll_once(), PollOutcome::Ready);
    let mut d3 = DelayFuture::new(3);
    let polls: Vec<PollOutcome> = (0..5).map(|_| d3.poll_once()).collect();
    assert_eq!(
        polls,
        vec![PollOutcome::PendingWoken, PollOutcome::PendingWoken, PollOutcome::PendingWoken, PollOutcome::Ready, PollOutcome::Ready]
    );
    let mut d = DelayFuture::new(2);
    assert_eq!(d.poll_once(), PollOutcome::PendingWoken);
    assert_eq!(d.poll_once(), PollOutcome::PendingWoken);
    assert_eq!(d.poll_once(), PollOutcome::Ready);
    let t = TscTimer::new(1_000_000);
    let s = sleep_ms(&t, 500, 1000);
    assert_eq!(s.target_tsc, 1_000_500);
    assert_eq!(s.poll_once(1_000_499), PollOutcome::PendingWoken);
    assert_eq!(s.poll_once(1_000_500), PollOutcome::Ready);
    assert_eq!(sleep_us(&t, 0, 2500).target_tsc, 2500);
    assert_eq!(SleepFuture::new(2000, 10, 3).target_tsc, 16);
    assert_eq!(SleepFuture::new_us(3_000_000, 0, 1).target_tsc, 3);
    let mut w = WakeFlag::new();
    assert!(w.should_pause());
    wake(&mut w);
    assert!(!w.should_pause());
    w.clear();
    assert!(w.should_pause());
}

#[test]
fn sleep_ends_when_its_milliseconds_have_elapsed() {
    let t = TscTimer::new(2_000_000);
    let s = sleep_ms(&t, 100, 3);
    assert_eq!(s.poll_once(6_099), PollOutcome::PendingWoken);
    assert_eq!(elapsed_ms(100, 6_099, 2_000_000), 2);
    assert_eq!(s.poll_once(6_100), PollOutcome::Ready);
    assert_eq!(elapsed_ms(100, 6_100, 2_000_000), 3);
    // At 3 Hz a 1 ms sleep is over at once, with no whole millisecond gone.
    let slow = sleep_ms(&TscTimer::new(3), 0, 1);
    assert_eq!(slow.poll_once(0), PollOutcome::Ready);
    assert_eq!(elapsed_ms(0, 0, 3), 0);
}

fn desc(t: u32, start: u64, pages: u64) -> Vec<u8> {
    let mut d = vec![0u8; 40];
    d[0..4].copy_from_slice(&t.to_le_bytes());
    d[8..16].copy_from_slice(&start.to_le_bytes());
    d[24..32].copy_from_slice(&pages.to_le_bytes());
    d
}

#[test]
fn memory_map_totals_and_frees() {
    let mut map = Vec::new();
    map.extend(desc(7, 0, 16));
    map.extend(desc(2, 0x10000, 4));
    map.extend(desc(7, 0x3FFE000, 4));
    assert_eq!(conventional_ram(&map, map.len() as u64, 40), 20 * 4096);
    let mut m = RamManager::new(0x4004000);
    free_conventional(&mut m, &map, map.len() as u64, 40);
    // Pages below 0x4000000 stay used; the two above are free.
    assert!(m.is_used(0x3FFE) && m.is_used(0x3FFF));
    assert!(!m.is_used(0x4000) && !m.is_used(0x4001));
    assert!(m.is_used(0x4002));
    assert!(m.is_used(0));
}

#[test]
fn boot_menu_choices() {
    assert_eq!(boot_mode_for(0x3B), 1);
    assert_eq!(boot_mode_for(0x3C), 2);
    assert_eq!(boot_mode_for(0x1E), 2);
    assert_eq!(boot_mode_for(0xBB), 0);
    assert_eq!(boot_mode_for(0), 0);
    assert_eq!(implemented_ports(0b1010_0001), vec![0, 5, 7]);
    assert_eq!(implemented_ports(0x8000_0000), vec![31]);
    assert!(implemented_ports(0).is_empty());
    assert_eq!(
        ahci_layout(0x100000),
        AhciLayout { cl_base: 0x100000, fb_base: 0x100400, ct_base: 0x100800, data_ptr: 0x10000000 }
    );
}

fn run(prog: &[Instr], mut regs: impl FnMut(u64) -> u32) -> (bool, Vec<Mmio>) {
    let mut r = Runner::new();
    let mut input = 0u32;
    let mut trace = Vec::new();
    for _ in 0..20_000_000u64 {
        let a = r.step(prog, input);
        match a {
            Mmio::Read32 { addr } => input = regs(addr),
            Mmio::Done { ok } => return (ok, trace),
            Mmio::Spin { .. } | Mmio::Nothing => continue,
            _ => {}
        }
        trace.push(a);
    }
    panic!("program did not end");
}

#[test]
fn hba_reset_program() {
    let abar = 0xFEBF_0000u64;
    // GHC reads with AE and HR set: a reset is already under way, nothing is written.
    let (ok, trace) = run(&reset_hba(abar), |a| if a == abar + 4 { 0x8000_0001 } else { 0 });
    assert!(ok);
    assert!(trace.iter().all(|a| !matches!(a, Mmio::Write32 { .. })));
    // HR clear and AE clear: set AE, then HR, then wait for HR to drop.
    let mut reads = 0;
    let (ok, trace) = run(&reset_hba(abar), |a| {
        if a == abar + 4 {
            reads += 1;
            if reads == 3 { 1 } else { 0 }
        } else {
            0
        }
    });
    assert!(ok);
    assert!(trace.contains(&Mmio::Write32 { addr: abar + 4, value: 0x8000_0000 }));
    assert!(trace.contains(&Mmio::Write32 { addr: abar + 4, value: 1 }));
}

#[test]
fn port_start_up_program() {
    let abar = 0xFEBF_0000u64;
    let p = abar + 0x100 + 2 * 0x80;
    assert_eq!(port_reg(abar, 2, 0x18), p + 0x18);
    // A SATA disk that comes up at once.
    let mut cmd = 0u32;
    let prog = init_port(abar, 2, 0x1000, 0x1400, 0x1800);
    let mut r = Runner::new();
    let mut input = 0u32;
    let mut ok = None;
    for _ in 0..10_000 {
        match r.step(&prog, input) {
            Mmio::Read32 { addr } => {
                input = if addr == p + 0x28 {
                    3
                } else if addr == p + 0x24 {
                    0x101
                } else if addr == p + 0x18 {
                    cmd
                } else {
                    0
                }
            }
            Mmio::Write32 { addr, value } if addr == p + 0x18 => {
                // FRE brings FR up, ST brings CR up.
                cmd = value;
                if value & 0x10 != 0 { cmd |= 0x4000 }
                if value & 1 != 0 { cmd |= 0x8000 }
            }
            Mmio::Done { ok: o } => {
                ok = Some(o);
                break;
            }
            _ => {}
        }
    }
    assert_eq!(ok, Some(true));
    // An ATAPI device is refused.
    let (ok, _) = run(&prog, |a| if a == p + 0x28 { 3 } else if a == p + 0x24 { 0xEB14_0101 } else { 0 });
    assert!(!ok);
    // No device: the COMRESET wait runs out.
    let (ok, _) = run(&init_port(abar, 0, 0x1000, 0x1400, 0x1800)[..9], |_| 0);
    assert!(!ok);
}

#[test]
fn sector_read_program() {
    let abar = 0xFEBF_0000u64;
    let p = abar + 0x100;
    assert_eq!(read_fis(0x0000_0102_0304_0506), vec![0x27, 0x80, 0x25, 0, 6, 5, 4, 0x40, 3, 2, 1, 0, 1, 0]);
    assert_eq!(prdt_for_sector(0x1_2345_6000), PrdtEntry { dba: 0x2345_6000, dbau: 1, rsv0: 0, dw3: 0x8000_01FF });
    let h = header_for_table(0x1800);
    assert_eq!((h.flags, h.prdtl, h.ctba), (5, 1, 0x1800));
    let prog = read_sector(abar, 0, 0x10, 0x1800, 0x10000000, 0x1000);
    assert_eq!(prog.len(), 4 + 14 + 9);
    // The command completes at once.
    let (ok, trace) = run(&prog, |_| 0);
    assert!(ok);
    assert!(trace.contains(&Mmio::Write8 { addr: 0x1800 + 4, value: 0x10 }));
    assert!(trace.contains(&Mmio::Write32 { addr: p + 0x38, value: 1 }));
    // A task file error fails the read.
    let (ok, _) = run(&prog, |a| if a == p + 0x38 { 1 } else if a == p + 0x10 { 0x4000_0000 } else { 0 });
    assert!(!ok);
    assert_eq!(ci_register(abar, 3), abar + 0x100 + 3 * 0x80 + 0x38);
    let w = write_sector(abar, 0, 7, 0x1800, 0x2000);
    assert_eq!(w.len(), 64 + 11 + 8);
    let (ok, trace) = run(&w, |_| 0);
    assert!(ok);
    assert!(trace.contains(&Mmio::Write8 { addr: 0x1802, value: 0x35 }));
}

#[test]
fn pci_scan() {
    let absent = DeviceConfig { id: 0xFFFF_FFFF, class: 0, bar0: 0, bar1: 0, bar5: 0 };
    let ahci = DeviceConfig { id: 0x2922_8086, class: 0x0106_0102, bar0: 0, bar1: 0, bar5: 0xFEBF_1000 };
    let nic = DeviceConfig { id: 0x100E_8086, class: 0x0200_0003, bar0: 0xFEB8_0000, bar1: 0, bar5: 0 };
    let cs = [absent, nic, absent, ahci];
    assert_eq!(
        find_ahci_device(&cs),
        Some(PciDevice {
            bus: 0, device: 3, function: 0, vendor_id: 0x8086, class_code: 1, subclass: 6, bar0: 0, bar1: 0,
            bar5: 0xFEBF_1000
        })
    );
    let e = find_e1000(&cs).unwrap();
    assert_eq!((e.device, e.bar0), (1, 0xFEB8_0000));
    assert_eq!(e.get_mmio_base(), 0xFEB8_0000);
    assert_eq!(find_e1000(&[absent, ahci]), None);
    assert_eq!(config_address(0, 3, 0, 0x26), 0x8000_1824);
    assert_eq!(e.bus_master_command(0x0010_0000), 0x0010_0006);
    let d = PciDevice { bus: 0, device: 0, function: 0, vendor_id: 0, class_code: 0, subclass: 0, bar0: 0xFEB8_000F, bar1: 2, bar5: 0 };
    assert_eq!(d.get_mmio_base(), 0x2_FEB8_0000);
}

#[test]
fn kernel_page_tables() {
    let mut t = PageTable::new();
    t.entries[5] = 9;
    t.clear();
    assert!(t.entries.iter().all(|&e| e == 0));
    let mut m = RamManager::new(100 * 4096);
    for p in 10..80 {
        m.mark_free(p);
    }
    let s = init_os_paging(&mut m).unwrap();
    assert_eq!(s.pml4_phys, 10 * 4096);
    assert_eq!(s.pdpt_phys, 11 * 4096);
    assert_eq!(s.pml4.entries[0], 11 * 4096 | 7);
    assert_eq!(s.pds.len(), 64);
    assert_eq!(s.pdpt.entries[63], s.pds[63].0 | 7);
    assert_eq!(s.pds[1].1.entries[3], (0x4000_0000 + 3 * 0x20_0000) | 0x9F);
    assert_eq!(s.pdpt.entries[64], 0);
    // The tables are the 66 lowest free pages, taken in order, now in use.
    assert_eq!(s.pds[0].0, 12 * 4096);
    assert_eq!(s.pds[63].0, 75 * 4096);
    assert!((10..76).all(|p| m.is_used(p)) && !m.is_used(76));
    // 70 free pages: a second build needs 66 more and finds 4.
    assert!(init_os_paging(&mut m).is_none());
}

#[test]
fn apic_programs() {
    assert_eq!(apic_base_from_msr(0x1, 0xFEE0_0900), 0xFEE0_0000);
    let p = apic_init_program(0xFEE0_0000);
    assert_eq!(p[2], Instr::Write32 { addr: 0xFEE0_0320, value: 0x10000 });
    assert_eq!(apic_eoi_program(0xFEE0_0000), vec![Instr::Write32 { addr: 0xFEE0_00B0, value: 0 }]);
    let io = init_io_apic();
    assert_eq!(io[1], Instr::Write32 { addr: 0xFEC0_0010, value: 0x1_0021 });
}

#[test]
fn shell_commands() {
    assert!(matches!(parse_command(b""), ShellCommand::Empty));
    assert!(matches!(parse_command(b"   "), ShellCommand::Empty));
    assert!(matches!(parse_command(b"reboot"), ShellCommand::Reboot));
    assert!(matches!(parse_command(b"  clear  "), ShellCommand::Clear));
    assert!(matches!(parse_command(b"cd"), ShellCommand::CdRoot));
    assert!(matches!(parse_command(b"cd .."), ShellCommand::CdRoot));
    assert!(matches!(parse_command(b"cd /"), ShellCommand::CdRoot));
    match parse_command(b"cd  DOCS extra") {
        ShellCommand::Cd(t) => assert_eq!(t, b"DOCS".to_vec()),
        _ => panic!(),
    }
    match parse_command(b"ls") {
        ShellCommand::Ls(t) => assert!(t.is_empty()),
        _ => panic!(),
    }
    assert!(matches!(parse_command(b"set lba 0x10"), ShellCommand::SetLba(16)));
    assert!(matches!(parse_command(b"set lba 2048"), ShellCommand::SetLba(2048)));
    assert!(matches!(parse_command(b"set lba zz"), ShellCommand::SetLba(0)));
    assert!(matches!(parse_command(b"set lba"), ShellCommand::ShowLba));
    assert!(matches!(parse_command(b"set x"), ShellCommand::SetUsage));
    match parse_command(b"Reboot now") {
        ShellCommand::Unknown(t) => assert_eq!(t, b"Reboot".to_vec()),
        _ => panic!(),
    }
}

#[test]
fn number_parsing_follows_std() {
    assert_eq!(parse_u64(b"18446744073709551615", 10), Some(u64::MAX));
    assert_eq!(parse_u64(b"18446744073709551616", 10), None);
    assert_eq!(parse_u64(b"+42", 10), Some(42));
    assert_eq!(parse_u64(b"+", 10), None);
    assert_eq!(parse_u64(b"", 10), None);
    assert_eq!(parse_u64(b"-1", 10), None);
    assert_eq!(parse_u64(b"fF", 16), Some(255));
    assert_eq!(parse_u64(b"fg", 16), None);
    assert_eq!(parse_lba(b"0XfF"), 255);
    assert_eq!(parse_lba(b"0x"), 0);
    assert_eq!(parse_lba(b"007"), 7);
}

#[test]
fn shell_line_editing() {
    let mut s = Shell::new();
    for c in "set lba 5".chars() {
        assert!(matches!(s.key(0x10, c), KeyEffect::Nothing));
    }
    assert_eq!(s.input, b"set lba 5".to_vec());
    s.key(0x0E, '\0');
    s.key(0x10, '7');
    // A release and a NUL character do nothing.
    s.key(0x90, 'q');
    s.key(0x10, '\0');
    assert_eq!(s.input, b"set lba 7".to_vec());
    match s.key(0x1C, '\n') {
        KeyEffect::Command(ShellCommand::SetLba(7)) => {}
        _ => panic!(),
    }
    assert_eq!(s.debug_lba, 7);
    assert!(s.input.is_empty());
    s.key(0x4B, '\0');
    assert_eq!(s.debug_lba, 6);
    s.key(0x4D, '\0');
    s.key(0x4D, '\0');
    assert_eq!(s.debug_lba, 8);
    s.enter_directory(9);
    assert_eq!(s.start_cluster(2), 9);
    for c in "cd ..".chars() {
        s.key(0x10, c);
    }
    s.key(0x1C, '\n');
    assert_eq!(s.current_dir_cluster, 0);
    assert_eq!(s.start_cluster(2), 2);
    for _ in 0..70 {
        s.key(0x10, 'x');
    }
    assert_eq!(s.input.len(), 63);
    let mut z = Shell::new();
    z.key(0x4B, '\0');
    assert_eq!(z.debug_lba, 0);
}
