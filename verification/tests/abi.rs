use buitenzorg::abi::{
    sysno, syserr, AudioInfo, DrawCmd, FramebufferInfo, FsEntry, NetDatagram, NetInfo, PkgInfo, ProcInfo,
    RtcTime, SysStat, ABI_VERSION,
};

#[test]
fn syscall_numbers_are_stable() {
    assert_eq!(sysno::ABI_VERSION, 0);
    assert_eq!(sysno::DEBUG_WRITE, 1);
    assert_eq!(sysno::EXIT, 2);
    assert_eq!(sysno::YIELD, 3);
    assert_eq!(sysno::TICKS, 4);
    assert_eq!(sysno::FB_INFO, 5);
    assert_eq!(sysno::WIN_CREATE, 6);
    assert_eq!(sysno::WIN_CMD, 7);
    assert_eq!(sysno::WIN_PRESENT, 8);
    assert_eq!(sysno::KEY_READ, 9);
    assert_eq!(sysno::PROC_LIST, 10);
    assert_eq!(sysno::PROC_KILL, 11);
    assert_eq!(sysno::SYS_STAT, 12);
    assert_eq!(sysno::MMAP, 13);
    assert_eq!(sysno::MPROTECT, 14);
    assert_eq!(sysno::MUNMAP, 15);
    assert_eq!(sysno::THREAD_CREATE, 16);
    assert_eq!(sysno::THREAD_JOIN, 17);
    assert_eq!(sysno::THREAD_EXIT, 18);
    assert_eq!(sysno::FUTEX_WAIT, 19);
    assert_eq!(sysno::FUTEX_WAKE, 20);
    assert_eq!(sysno::THREAD_SELF, 21);
    assert_eq!(sysno::CLOCK_MONO, 22);
    assert_eq!(sysno::AUDIO_STAT, 23);
    assert_eq!(sysno::AUDIO_SET_VOLUME, 24);
    assert_eq!(sysno::AUDIO_TONE, 25);
    assert_eq!(sysno::AUDIO_PLAY, 26);
    assert_eq!(sysno::PKG_LIST, 27);
    assert_eq!(sysno::PKG_SET, 28);
    assert_eq!(sysno::FS_LIST, 29);
    assert_eq!(sysno::FS_READ, 30);
    assert_eq!(sysno::IS_INTERACTIVE, 31);
    assert_eq!(sysno::FS_WRITE, 32);
    assert_eq!(sysno::CLOCK_RTC, 33);
    assert_eq!(sysno::NET_SOCKET, 34);
    assert_eq!(sysno::NET_BIND, 35);
    assert_eq!(sysno::NET_SEND, 36);
    assert_eq!(sysno::NET_RECV, 37);
    assert_eq!(sysno::NET_CLOSE, 38);
    assert_eq!(sysno::NET_INFO, 39);
    assert_eq!(sysno::COUNT, 40);
}

#[test]
fn abi_v1_is_frozen() {
    assert_eq!(ABI_VERSION, 1, "ABI major version changed - that is a breaking change");
    assert_eq!(sysno::COUNT, 40, "syscall count changed: append only, and update both mirrors");

    assert_eq!(core::mem::size_of::<FramebufferInfo>(), 56);
    assert_eq!(core::mem::size_of::<DrawCmd>(), 48);
    assert_eq!(core::mem::size_of::<ProcInfo>(), 64);
    assert_eq!(core::mem::size_of::<SysStat>(), 48);
    assert_eq!(core::mem::size_of::<AudioInfo>(), 48);
    assert_eq!(core::mem::size_of::<PkgInfo>(), 48);
    assert_eq!(core::mem::size_of::<FsEntry>(), 32);
    assert_eq!(core::mem::size_of::<RtcTime>(), 48);
    assert_eq!(core::mem::size_of::<NetDatagram>(), 16);
    assert_eq!(core::mem::size_of::<NetInfo>(), 48);

    assert_eq!(core::mem::align_of::<FramebufferInfo>(), 8);
    assert_eq!(core::mem::align_of::<DrawCmd>(), 8);
    assert_eq!(core::mem::align_of::<ProcInfo>(), 8);
    assert_eq!(core::mem::align_of::<SysStat>(), 8);
    assert_eq!(core::mem::align_of::<AudioInfo>(), 8);
    assert_eq!(core::mem::align_of::<PkgInfo>(), 8);
    assert_eq!(core::mem::align_of::<FsEntry>(), 8);
    assert_eq!(core::mem::align_of::<RtcTime>(), 8);
    assert_eq!(core::mem::align_of::<NetDatagram>(), 8);
    assert_eq!(core::mem::align_of::<NetInfo>(), 8);

    assert_eq!(syserr::NOSYS, u64::MAX);
    assert_eq!(syserr::INVAL, u64::MAX - 1);
}

#[test]
fn bcl_struct_layouts() {
    assert_eq!(core::mem::size_of::<RtcTime>(), 48);
    assert_eq!(core::mem::align_of::<RtcTime>(), 8);
    assert_eq!(core::mem::size_of::<NetDatagram>(), 16);
    assert_eq!(core::mem::align_of::<NetDatagram>(), 8);
    assert_eq!(core::mem::size_of::<NetInfo>(), 48);
    assert_eq!(core::mem::align_of::<NetInfo>(), 8);
    // Field offsets the syscall layer and the user side both hard-code: the
    // header's wire bytes put `addr` at 0, `port` at 4 and `length` at 8.
    let d = NetDatagram { addr: [10, 0, 0, 7], port: 0x0403_0201, length: 0x0c0b_0a09_0807_0605 };
    let b = d.to_bytes();
    assert_eq!(&b[0..4], &[10, 0, 0, 7]);
    assert_eq!(&b[4..8], &[1, 2, 3, 4]);
    assert_eq!(&b[8..16], &[5, 6, 7, 8, 9, 10, 11, 12]);
    assert_eq!(NetDatagram::from_bytes(&b), d);
    let info = NetInfo { addr: [10, 0, 0, 1, 0, 0, 0, 0], up: 0x11, tx_datagrams: 2, rx_datagrams: 3, icmp_replies: 4, arp_replies: 5 };
    let ib = info.to_bytes();
    assert_eq!(ib[8], 0x11);
}

#[test]
fn draw_cmd_layout() {
    assert_eq!(core::mem::size_of::<DrawCmd>(), 48);
    assert_eq!(core::mem::align_of::<DrawCmd>(), 8);
}

#[test]
fn proc_and_stat_layout() {
    assert_eq!(core::mem::size_of::<ProcInfo>(), 64);
    assert_eq!(core::mem::size_of::<SysStat>(), 48);
    assert_eq!(core::mem::align_of::<ProcInfo>(), 8);
    assert_eq!(core::mem::size_of::<AudioInfo>(), 48);
    assert_eq!(core::mem::align_of::<AudioInfo>(), 8);
    assert_eq!(core::mem::size_of::<PkgInfo>(), 48);
    assert_eq!(core::mem::align_of::<PkgInfo>(), 8);
    assert_eq!(core::mem::size_of::<FsEntry>(), 32);
    assert_eq!(core::mem::align_of::<FsEntry>(), 8);
}

#[test]
fn framebuffer_info_layout() {
    assert_eq!(core::mem::size_of::<FramebufferInfo>(), 56);
    assert_eq!(core::mem::align_of::<FramebufferInfo>(), 8);
}
