use buitenzorg::abi::{draw_op, sock_kind, syserr, DrawCmd};
use buitenzorg::ata;
use buitenzorg::desktop::{self, Frame, Tick};
use buitenzorg::framebuffer::{self, Console, FbInfo, PixFmt};
use buitenzorg::memory::{self, MemInfo, MmapArena, MmapPlan, PageAction, Walk};
use buitenzorg::syscall::{self, Buf, Screen, Sys};
use buitenzorg::userheap::{self, BumpHeap, Fit};

const USER_RW: u64 = 0x7; // present | writable | user
const USER_RO: u64 = 0x5; // present | user

#[test]
fn user_ranges_need_user_pages() {
    // Empty ranges: fine unless null.
    assert!(memory::validate_user_range(0x1000, 0, false, &[]));
    assert!(!memory::validate_user_range(0, 0, false, &[]));
    // Kernel addresses and wrapping ranges are refused without a walk.
    assert!(!memory::validate_user_range(0x4444_4444_1000, 8, false, &[]));
    assert!(!memory::validate_user_range(u64::MAX - 8, 256, false, &[]));
    assert!(!memory::validate_user_range(0x8000_0000 - 16, 4096, false, &[]));
    // A range over two pages needs both.
    assert!(memory::validate_user_range(0x40_0ff0, 32, false, &[Some(USER_RO), Some(USER_RO)]));
    assert!(!memory::validate_user_range(0x40_0ff0, 32, true, &[Some(USER_RW), Some(USER_RO)]));
    assert!(!memory::validate_user_range(0x40_0ff0, 32, false, &[Some(USER_RO), None]));
    assert!(!memory::validate_user_range(0x40_0000, 8, false, &[Some(0x3)]));
    assert_eq!(memory::user_range_pages(0x40_0ff0, 32), Ok((0x40_0000, 0x40_1000)));
}

#[test]
fn page_walk_steps() {
    assert_eq!(memory::step(0, 39), Walk::Absent);
    assert_eq!(memory::step(0x5000 | 1, 39), Walk::Next(0x5000));
    assert_eq!(memory::step(0x20_0000 | 0x81, 21), Walk::Leaf(0x20_0081));
    assert_eq!(memory::step(0x7007, 12), Walk::Leaf(0x7007));
    assert_eq!(memory::table_index(0x7000_0000, 30), 1);
    assert_eq!(memory::table_index(0x0040_1000, 12), 1);
}

#[test]
fn mmap_arena_reserves_maps_and_refuses() {
    let mut a = MmapArena::new();
    assert_eq!(a.user_mmap(0, 3), MmapPlan::Refuse(syserr::INVAL));
    assert_eq!(a.next, 0x2000_0000);
    assert_eq!(a.user_mmap(1, 0), MmapPlan::Reserve(0x2000_0000));
    assert_eq!(a.next, 0x2000_1000);
    assert_eq!(
        a.user_mmap(8192, 3),
        MmapPlan::MapPages { base: 0x2000_1000, count: 2, flags: 0x8000_0000_0000_0007 }
    );
    assert_eq!(a.user_mmap(0x4000_0000, 1), MmapPlan::Refuse(syserr::INVAL));
    a.commit(&[0x2000_1000, 0x2000_2000]);
    a.forget(&[0x2000_1000]);
    assert_eq!(a.pages, vec![0x2000_2000]);
    let old = a.reset_user_mmap();
    assert_eq!(old, vec![0x2000_2000]);
    assert_eq!(a.next, 0x2000_0000);
    assert_eq!(memory::flags_from_prot(7), 7);
    assert_eq!(memory::span(0x1001, 10), Err(syserr::INVAL));
    assert_eq!(memory::span(0x2000, 4097), Ok((0x2000, 2)));
    assert_eq!(memory::span_pages(0x2000, 2), vec![0x2000, 0x3000]);
    assert_eq!(memory::protect_action(true, 0), PageAction::Reflag);
    assert_eq!(memory::protect_action(false, 1), PageAction::Commit);
    assert_eq!(memory::protect_action(false, 0), PageAction::Skip);
    let mut m = MemInfo { phys_offset: 0x1_0000_0000, usable_mib: 0 };
    m.set_total_usable_mib(512);
    assert_eq!(m.total_usable_mib(), 512);
    assert_eq!(m.phys_to_virt(0x1000), 0x1_0000_1000);
}

#[test]
fn syscall_numbers_and_screening() {
    assert_eq!(syscall::sys_of(0), Some(Sys::AbiVersion));
    assert_eq!(syscall::sys_of(39), Some(Sys::NetInfo));
    assert_eq!(syscall::sys_of(40), None);
    assert_eq!(syscall::screen(Sys::DebugWrite, 0x1000, 0, 0), Screen::Reject(syserr::INVAL));
    assert_eq!(
        syscall::screen(Sys::DebugWrite, 0x1000, 5, 0),
        Screen::Proceed(Some(Buf { ptr: 0x1000, len: 5, write: false }))
    );
    assert_eq!(syscall::screen(Sys::WinCreate, 0x1000, 200, 0), Screen::Reject(0));
    assert_eq!(
        syscall::screen(Sys::ProcList, 0x2000, 8, 0),
        Screen::Proceed(Some(Buf { ptr: 0x2000, len: 512, write: true }))
    );
    assert_eq!(syscall::screen(Sys::FsList, 0, 0x3000, 129), Screen::Reject(syserr::INVAL));
    assert_eq!(syscall::screen(Sys::NetSocket, sock_kind::STREAM, 0, 0), Screen::Reject(syserr::INVAL));
    assert_eq!(syscall::screen(Sys::NetBind, 3, 65536, 0), Screen::Reject(syserr::INVAL));
    assert_eq!(syscall::screen(Sys::FutexWait, 0x1002, 0, 0), Screen::Reject(syserr::INVAL));
    assert_eq!(syscall::screen(Sys::Yield, 0, 0, 0), Screen::Proceed(None));
    assert_eq!(syscall::refused(Sys::WinCreate), 0);
    assert_eq!(syscall::refused(Sys::FsRead), syserr::INVAL);
    assert_eq!(syscall::status(true), 0);
    assert_eq!(syscall::status(false), syserr::INVAL);
}

#[test]
fn syscall_records() {
    let e = syscall::fs_entry("/disk", true);
    assert_eq!(&e.name[..5], b"disk\0");
    assert_eq!(e.is_dir, 1);
    let long = syscall::fs_entry("ABCDEFGHIJKLMNOPQRSTUVWXYZ", false);
    assert_eq!(&long.name[..23], b"ABCDEFGHIJKLMNOPQRSTUVW");
    assert_eq!(long.name[23], 0);
    assert_eq!(syscall::win_dims((640u64 << 32) | 480), (640, 480));
    assert_eq!(syscall::win_dims((10u64 << 32) | 5000), (80, 2000));
    assert_eq!(syscall::win_dims(0xFFFF_FFFF_0000_0000), (80, 60));
    let mut header = [0u8; 16];
    header[..4].copy_from_slice(&[10, 0, 2, 15]);
    header[4..8].copy_from_slice(&7777u32.to_le_bytes());
    assert_eq!(syscall::datagram_target(&header), Some(([10, 0, 2, 15], 7777)));
    header[4..8].copy_from_slice(&70000u32.to_le_bytes());
    assert_eq!(syscall::datagram_target(&header), None);
    let h = syscall::datagram_header([127, 0, 0, 1], 53, 300);
    assert_eq!(h, [127, 0, 0, 1, 53, 0, 0, 0, 0x2C, 0x01, 0, 0, 0, 0, 0, 0]);
}

fn cmd(op: u64, w: i32, h: i32, text_ptr: u64, text_len: u64) -> DrawCmd {
    DrawCmd { op, x: 0, y: 0, w, h, color: 0, _pad: 0, text_ptr, text_len }
}

#[test]
fn window_command_buffers() {
    assert_eq!(syscall::blit_pixels(&cmd(draw_op::BLIT, 10, 10, 0x1000, 400)), Ok(100));
    assert_eq!(syscall::blit_pixels(&cmd(draw_op::BLIT, 10, 10, 0x1000, 399)), Err(syserr::INVAL));
    assert_eq!(syscall::blit_pixels(&cmd(draw_op::BLIT, 10, 10, 0, 400)), Err(syserr::INVAL));
    assert_eq!(syscall::blit_pixels(&cmd(draw_op::BLIT, 4000, 4000, 0x1000, u64::MAX)), Err(syserr::INVAL));
    assert_eq!(syscall::text_buffer(&cmd(draw_op::FILL_RECT, 1, 1, 0, 0)), Ok(None));
    assert_eq!(syscall::text_buffer(&cmd(draw_op::DRAW_TEXT, 1, 1, 0x10, 0)), Err(syserr::INVAL));
    assert_eq!(
        syscall::text_buffer(&cmd(draw_op::DRAW_TEXT, 1, 1, 0x10, 12)),
        Ok(Some(Buf { ptr: 0x10, len: 12, write: false }))
    );
}

#[test]
fn ata_identify_and_registers() {
    let mut id = [0u16; 256];
    let model = b"QEMU HARDDISK                           ";
    for k in 0..20 {
        id[27 + k] = (model[2 * k] as u16) << 8 | model[2 * k + 1] as u16;
    }
    id[60] = 0x4000;
    id[61] = 0x0001;
    assert_eq!(ata::parse_identify(&id), Some((String::from("QEMU HARDDISK"), 0x1_4000)));
    id[60] = 0;
    id[61] = 0;
    assert_eq!(ata::parse_identify(&id), None);
    assert_eq!(ata::lba_registers(0x0123_4567), Ok([0x67, 0x45, 0x23, 0x01]));
    assert_eq!(ata::lba_registers(1 << 28), Err("LBA28 limit exceeded"));
    assert_eq!(ata::drive_select(true, 0x01), 0xF1);
    assert_eq!(ata::disk_name(false, true, "QEMU HARDDISK"), "ata1.1 (QEMU HARDDISK)");
    assert_eq!(ata::data_wait(0x58), ata::DataWait::Ready);
    assert_eq!(ata::data_wait(0x80), ata::DataWait::Again);
    assert_eq!(ata::data_wait(0x51), ata::DataWait::Failed);
    assert!(!ata::device_present(0xFF));
    assert!(ata::plain_ata(0, 0));
}

#[test]
fn console_pixels_and_lines() {
    assert_eq!(framebuffer::blend(0), framebuffer::BG);
    assert_eq!(framebuffer::blend(255), framebuffer::FG);
    let info = FbInfo { width: 64, height: 40, stride: 64, bytes_per_pixel: 4, format: PixFmt::Bgr };
    let mut c = Console::new(info, vec![0u8; 64 * 40 * 4]);
    assert_eq!(&c.buf[..4], &[0x0B, 0x12, 0x0B, 0]);
    assert_eq!(c.dimensions(), (64, 40));
    let mut back = vec![0u32; 64 * 40];
    back[0] = 0x00112233;
    c.present(&back);
    assert_eq!(&c.buf[..3], &[0x33, 0x22, 0x11]);
    // The pen starts at (8, 8); a newline would leave no room, so the screen scrolls.
    c.newline();
    assert_eq!((c.x, c.y), (8, 8));
    assert_eq!(&c.buf[c.buf.len() - 4..], &[0x0B, 0x12, 0x0B, 0]);
    let mut g = vec![0u8; 3];
    framebuffer::write_pixel(&mut g, 0, 1, PixFmt::Gray, (30, 60, 90));
    assert_eq!(g, vec![60, 0, 0]);
    c.write_char('A');
    assert_eq!(c.x, 15);
    c.write_char('\r');
    assert_eq!(c.x, 8);
}

#[test]
fn desktop_ticks() {
    let mut s = desktop::start(100);
    let quiet = |now: u64| Tick { now, keys: false, packets: u64::MAX, left: false };
    let o = desktop::step(&mut s, quiet(150), true, 100);
    assert_eq!(o.frame, Frame::Nothing);
    assert!(!s.saver_active);
    let o = desktop::step(&mut s, quiet(201), true, 100);
    assert_eq!(o.frame, Frame::Nothing);
    assert!(s.saver_active);
    let o = desktop::step(&mut s, quiet(202), true, 100);
    assert_eq!(o.frame, Frame::Saver);
    // A key dismisses the saver and is not delivered.
    let o = desktop::step(&mut s, Tick { now: 203, keys: true, packets: u64::MAX, left: false }, true, 100);
    assert!(!o.feed_keys);
    assert!(!s.saver_active);
    assert_eq!(o.frame, Frame::Desktop);
    let o = desktop::step(&mut s, Tick { now: 204, keys: true, packets: 1, left: true }, true, 100);
    assert!(o.feed_keys && o.feed_mouse);
    assert_eq!((s.last_packets, s.last_left, s.last_input), (1, true, 204));
}

#[test]
fn memory_intrinsics() {
    let mut b = [1u8, 2, 3, 4, 5, 6];
    userheap::memmove(&mut b, 2, 0, 3);
    assert_eq!(b, [1, 2, 1, 2, 3, 6]);
    userheap::memmove(&mut b, 0, 3, 3);
    assert_eq!(b, [2, 3, 6, 2, 3, 6]);
    userheap::memset(&mut b, 0x1FF, 2);
    assert_eq!(b, [0xFF, 0xFF, 6, 2, 3, 6]);
    userheap::memcpy(&mut b, &[9, 8], 2);
    assert_eq!(b, [9, 8, 6, 2, 3, 6]);
    assert_eq!(userheap::memory_compare(b"abcd", b"abzd", 4), ('c' as i32) - ('z' as i32));
    assert_eq!(userheap::memory_compare(b"abcd", b"abzd", 2), 0);
}

#[test]
fn bump_heap_grows_and_aligns() {
    let mut h = BumpHeap::new();
    assert_eq!(h.fit(10), Fit::Grow(0x10_0000));
    assert!(!h.grow(0, 0x10_0000));
    assert!(!h.grow(u64::MAX - 1, 0x10_0000));
    assert!(h.grow(0x2000_0000, 0x10_0000));
    assert_eq!(h.fit(10), Fit::At(0));
    assert_eq!(h.take(0, 10), 0x2000_0000);
    assert_eq!(h.fit(0), Fit::At(16));
    assert_eq!(h.take(16, 0), 0x2000_0010);
    assert_eq!(h.fit(0x20_0000), Fit::Grow(0x20_1000));
    assert_eq!(h.stats(), [11, 0x10_0000, 1, 2, 0x10_0000 - 17]);
}
