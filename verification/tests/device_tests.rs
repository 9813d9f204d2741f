use open_kernel::boot_info::{FrameBufferInfo, PixelFormat};
use open_kernel::driver::{
    BlockDevice, BuiltinDriver, DisplayDriver, Driver, DriverManager, FramebufferDisplayDriver,
    RamDiskDriver,
};
use open_kernel::net::{Ipv4Addr, MacAddress, NetworkInterface, NetworkStack};
use open_kernel::pic::{InterruptIndex, PIC_1_MASK, PIC_1_OFFSET, PIC_2_OFFSET};
use open_kernel::process_memory::{MemoryManager, ProcessAddressSpace, MAX_USER_PID};
use open_kernel::rtc::{read_rtc, RtcRegisters, RtcTime};
use open_kernel::vga_buffer::{Color, Writer, FONT_LEN};

#[test]
fn rtc_bcd_and_12_hour() {
    let regs = RtcRegisters { second: 0x59, minute: 0x30, hour: 0x81, day: 0x31, month: 0x12, year: 0x24, status_b: 0x00 };
    let t = read_rtc(&regs);
    assert_eq!(t, RtcTime { year: 2024, month: 12, day: 31, hour: 13, minute: 30, second: 59 });
    let regs24 = RtcRegisters { status_b: 0x02, hour: 0x23, ..regs };
    assert_eq!(read_rtc(&regs24).hour, 23);
    let binary = RtcRegisters { second: 59, minute: 30, hour: 23, day: 31, month: 12, year: 24, status_b: 0x06 };
    assert_eq!(read_rtc(&binary), RtcTime { year: 2024, month: 12, day: 31, hour: 23, minute: 30, second: 59 });
    let noon = RtcRegisters { hour: 0x92, ..regs };
    assert_eq!(read_rtc(&noon).hour, 12);
    let midnight = RtcRegisters { hour: 0x12, ..regs };
    assert_eq!(read_rtc(&midnight).hour, 0);
    let eleven_pm = RtcRegisters { hour: 0x91, ..regs };
    assert_eq!(read_rtc(&eleven_pm).hour, 23);
    let one_am = RtcRegisters { hour: 0x01, ..regs };
    assert_eq!(read_rtc(&one_am).hour, 1);
    let binary_noon = RtcRegisters { hour: 0x80 | 12, status_b: 0x04, ..binary };
    assert_eq!(read_rtc(&binary_noon).hour, 12);
}

#[test]
fn pic_vectors() {
    assert_eq!(PIC_1_OFFSET, 32);
    assert_eq!(PIC_2_OFFSET, 40);
    assert_eq!(PIC_1_MASK, !0b0001_0011u8);
    assert_eq!(InterruptIndex::Timer.as_u8(), 32);
    assert_eq!(InterruptIndex::Keyboard.as_u8(), 33);
    assert_eq!(InterruptIndex::Serial1.as_u8(), 36);
    assert_eq!(InterruptIndex::Serial1.as_usize(), 36);
}

#[test]
fn addresses_as_text() {
    assert_eq!(Ipv4Addr([192, 168, 1, 100]).to_string(), "192.168.1.100");
    assert_eq!(Ipv4Addr([0, 9, 10, 255]).to_string(), "0.9.10.255");
    assert_eq!(MacAddress([0x52, 0x54, 0x00, 0x12, 0xab, 0xff]).to_string(), "52:54:00:12:ab:ff");
}

#[test]
fn interfaces_start_with_known_counters() {
    let lo = NetworkInterface::loopback();
    assert_eq!(lo.name, "lo0");
    assert_eq!((lo.rx_packets, lo.tx_packets, lo.rx_bytes, lo.tx_bytes), (4, 4, 256, 256));
    let eth = NetworkInterface::eth0();
    assert_eq!(eth.ip, Ipv4Addr([192, 168, 1, 100]));
    assert_eq!((eth.rx_packets, eth.tx_packets, eth.rx_bytes, eth.tx_bytes), (12, 8, 1420, 980));
}

#[test]
fn ping_counts_on_the_answering_interface() {
    let mut s = NetworkStack::new();
    assert!(s.ping("localhost"));
    assert_eq!(s.interfaces()[0].tx_packets, 8);
    assert_eq!(s.interfaces()[0].rx_bytes, 512);
    assert!(s.ping("192.168.1.100"));
    assert_eq!(s.interfaces()[1].tx_packets, 12);
    assert_eq!(s.interfaces()[1].tx_bytes, 1236);
    assert!(s.ping("127.0.0.1"));
    assert_eq!(s.interfaces()[0].tx_packets, 12);
    assert!(!s.ping("10.0.0.1"));
    assert_eq!(s.interfaces()[1].tx_packets, 12);
    assert_eq!(s.interfaces()[0].tx_packets, 12);
}

#[test]
fn ramdisk_blocks() {
    let mut d = RamDiskDriver::new(4, 8);
    assert_eq!(d.name(), "ramdisk0");
    assert_eq!(d.status(), "active");
    assert_eq!(d.device_type(), "Storage (Block Device)");
    assert!(d.init());
    assert_eq!(d.status(), "ready");
    assert_eq!((d.block_size(), d.block_count()), (8, 4));
    let mut buf = [7u8; 10];
    assert!(d.read_block(2, &mut buf));
    assert_eq!(buf, [0, 0, 0, 0, 0, 0, 0, 0, 7, 7]);
    assert!(d.write_block(2, &[1, 2, 3, 4, 5, 6, 7, 8, 9]));
    assert!(d.read_block(2, &mut buf));
    assert_eq!(buf, [1, 2, 3, 4, 5, 6, 7, 8, 7, 7]);
    assert!(!d.write_block(4, &[0; 8]));
    assert!(!d.write_block(0, &[0; 7]));
    let mut small = [9u8; 4];
    assert!(!d.read_block(0, &mut small));
    assert_eq!(small, [9; 4]);
    assert!(!d.read_block(9, &mut buf));
}

#[test]
fn framebuffer_driver() {
    let mut f = FramebufferDisplayDriver::new();
    assert_eq!(f.name(), "gop-graphics");
    assert_eq!(f.status(), "ready");
    assert!(f.init());
    assert_eq!(f.status(), "active");
    assert_eq!((f.width(), f.height()), (1024, 768));
    assert_eq!(f.device_type(), "Graphics (GOP Framebuffer)");
}

#[test]
fn driver_manager_lists_in_order() {
    let mut m = DriverManager::new();
    let l = m.list_drivers();
    assert_eq!(
        l,
        vec![
            ("ramdisk0".to_string(), "Storage (Block Device)".to_string(), "active".to_string()),
            ("gop-graphics".to_string(), "Graphics (GOP Framebuffer)".to_string(), "ready".to_string()),
        ]
    );
    m.register(BuiltinDriver::RamDisk(RamDiskDriver::new(1, 1)));
    assert_eq!(m.list_drivers().len(), 3);
}

#[test]
fn address_spaces() {
    let k = ProcessAddressSpace::create_kernel_space();
    assert_eq!((k.pid, k.name.as_str(), k.cr3_frame, k.isolated), (0, "kernel", 0x1000, false));
    assert_eq!(k.heap_range, (0x444444440000, 0x444444480000));
    let u = ProcessAddressSpace::create_user_space(2, "shell");
    assert_eq!(u.cr3_frame, 0x4000);
    assert_eq!(u.code_range, (0x1_2000_0000, 0x1_2020_0000));
    assert_eq!(u.stack_range, (0x1_2000_0000 + 0x7FF00000, 0x1_2000_0000 + 0x80000000));
    assert_eq!(u.heap_range, (0x1_2040_0000, 0x1_2080_0000));
    assert!(u.isolated);
    let top = ProcessAddressSpace::create_user_space(MAX_USER_PID, "last");
    assert!(top.stack_range.1 <= 0x8000_0000_0000);
    let m = MemoryManager::new();
    let pids: Vec<usize> = m.spaces().iter().map(|s| s.pid).collect();
    assert_eq!(pids, vec![0, 1, 2]);
}

fn ranges(s: &ProcessAddressSpace) -> [(u64, u64); 3] {
    [s.code_range, s.heap_range, s.stack_range]
}

fn disjoint(a: (u64, u64), b: (u64, u64)) -> bool {
    a.1 <= b.0 || b.1 <= a.0
}

#[test]
fn user_address_spaces_are_isolated() {
    let kernel = ProcessAddressSpace::create_kernel_space();
    let pids = [1usize, 2, 8, 9, 10, 279_596, 279_604, 279_605, MAX_USER_PID];
    for &p in pids.iter() {
        let a = ProcessAddressSpace::create_user_space(p, "a");
        for r in ranges(&a) {
            for k in ranges(&kernel) {
                assert!(disjoint(r, k), "pid {} meets the kernel", p);
            }
        }
        assert_ne!(a.cr3_frame, kernel.cr3_frame);
        for &q in pids.iter().filter(|&&q| q != p) {
            let b = ProcessAddressSpace::create_user_space(q, "b");
            for r in ranges(&a) {
                for t in ranges(&b) {
                    assert!(disjoint(r, t), "pids {} and {} overlap", p, q);
                }
            }
            assert_ne!(a.cr3_frame, b.cr3_frame);
        }
    }
    // The stack of pid 1 ends where the code of pid 9 begins.
    let one = ProcessAddressSpace::create_user_space(1, "one");
    let nine = ProcessAddressSpace::create_user_space(9, "nine");
    assert_eq!(one.stack_range.1, nine.code_range.0);
}

fn small_fb() -> FrameBufferInfo {
    FrameBufferInfo { address: 0x1000, byte_len: 16 * 32 * 4, width: 16, height: 32, stride: 16, pixel_format: PixelFormat::Bgr }
}

fn font() -> Vec<u8> {
    let mut f = vec![0u8; FONT_LEN];
    for row in 0..16 {
        f[b'A' as usize * 16 + row] = 0x80;
        f[0xfe * 16 + row] = 0xff;
    }
    f
}

fn pixel(fb: &[u8], info: &FrameBufferInfo, x: usize, y: usize) -> [u8; 4] {
    let o = (y * info.stride + x) * 4;
    [fb[o], fb[o + 1], fb[o + 2], fb[o + 3]]
}

#[test]
fn writer_draws_glyphs_and_wraps() {
    let info = small_fb();
    let mut fb = vec![0x55u8; info.byte_len];
    let mut w = Writer::new();
    w.set_colors(Color::White, Color::Amber);
    w.init(info, font(), &mut fb);
    assert_eq!(pixel(&fb, &info, 3, 7), [0, 176, 255, 0]);
    w.write_byte(&mut fb, b'A');
    assert_eq!(pixel(&fb, &info, 0, 0), [255, 255, 255, 0]);
    assert_eq!(pixel(&fb, &info, 1, 0), [0, 176, 255, 0]);
    assert_eq!(pixel(&fb, &info, 0, 15), [255, 255, 255, 0]);
    assert_eq!(pixel(&fb, &info, 8, 0), [0, 176, 255, 0]);
    w.write_string(&mut fb, "A\u{1}");
    assert_eq!(pixel(&fb, &info, 8, 0), [255, 255, 255, 0]);
    assert_eq!(pixel(&fb, &info, 7, 16), [255, 255, 255, 0]);
    w.write_byte(&mut fb, 0x08);
    assert_eq!(pixel(&fb, &info, 0, 16), [0, 176, 255, 0]);
    assert_eq!(w.dimensions(), (2, 2));
}

#[test]
fn writer_scrolls_at_bottom() {
    let info = small_fb();
    let mut fb = vec![0u8; info.byte_len];
    let mut w = Writer::new();
    w.init(info, font(), &mut fb);
    w.write_byte(&mut fb, b'A');
    w.write_byte(&mut fb, b'\n');
    w.write_byte(&mut fb, b'\n');
    assert_eq!(pixel(&fb, &info, 0, 0), [0, 0, 0, 0]);
    assert_eq!(pixel(&fb, &info, 0, 16), [0, 0, 0, 0]);
    w.write_string(&mut fb, "\nA");
    assert_eq!(pixel(&fb, &info, 0, 16), [255, 255, 255, 0]);
    w.clear_screen(&mut fb);
    assert!(fb.chunks(4).all(|p| p == [0, 0, 0, 0]));
}

#[test]
fn colors_rgb() {
    assert_eq!(Color::Black.rgb(), (0, 0, 0));
    assert_eq!(Color::Green.rgb(), (0, 170, 0));
    assert_eq!(Color::LightGreen.rgb(), (85, 255, 85));
    assert_eq!(Color::White.rgb(), (255, 255, 255));
}

#[test]
fn writer_on_small_framebuffers() {
    // Narrower than a glyph: each character wraps to a line of its own,
    // drawn clipped at the left edge.
    let narrow = FrameBufferInfo { address: 0x1000, byte_len: 4 * 32 * 4, width: 4, height: 32, stride: 4, pixel_format: PixelFormat::Rgb };
    let mut fb = vec![0u8; narrow.byte_len];
    let mut w = Writer::new();
    w.init(narrow, font(), &mut fb);
    assert_eq!(w.dimensions(), (0, 2));
    w.write_byte(&mut fb, b'A');
    assert_eq!(pixel(&fb, &narrow, 0, 16), [255, 255, 255, 0]);
    assert_eq!(pixel(&fb, &narrow, 1, 16), [0, 0, 0, 0]);
    w.write_byte(&mut fb, b'A');
    assert_eq!(pixel(&fb, &narrow, 0, 16), [255, 255, 255, 0]);
    // Lower than a glyph: the screen is cleared, and backspace does nothing.
    let low = FrameBufferInfo { address: 0x1000, byte_len: 8 * 8 * 4, width: 8, height: 8, stride: 8, pixel_format: PixelFormat::Rgb };
    let mut fb = vec![7u8; low.byte_len];
    let mut w = Writer::new();
    w.init(low, font(), &mut fb);
    assert!(fb.iter().all(|&b| b == 0));
    w.write_byte(&mut fb, 0x08);
    w.write_string(&mut fb, "\u{8}");
    assert_eq!(w.dimensions(), (1, 0));
}
