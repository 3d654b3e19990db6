//! Buitenzorg kernel logic, verified: the syscall ABI, window manager,
//! filesystems, networking, schedulers and the other subsystems of the
//! Buitenzorg hybrid operating system, with their behaviour stated as
//! contracts and proved by Verus.

pub mod abi;
pub mod bytes;
pub mod text;
pub mod gfx;
pub mod theme;
pub mod rtc;
pub mod ipc;
pub mod keyboard;
pub mod pci;
pub mod audio;
pub mod app;
pub mod compute;
pub mod interrupts;
pub mod mouse;
pub mod model;
pub mod pkg;
pub mod task;
pub mod process;
pub mod driver;
pub mod ramdisk;
pub mod service;
pub mod aio;
pub mod fat;
pub mod vfs;
pub mod wm;
pub mod wallpaper;
pub mod vmm;
pub mod net;
pub mod script;
pub mod elf;
pub mod power;
pub mod ai;
pub mod screensaver;
pub mod profile;
pub mod vmx;
pub mod shell;
pub mod terminal;
pub mod memory;
pub mod syscall;
pub mod ata;
pub mod framebuffer;
pub mod desktop;
pub mod userheap;
pub mod bzimage;
