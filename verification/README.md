# buitenzorg

The logic of a small hobby operating system, verified with Verus: window
manager and compositor, terminal and shell, FAT12/16/32 reader and FAT12
writer over a block-device trait, a virtual file system, a JavaScript /
TypeScript / Python interpreter, loopback networking, scheduling,
memory maps, ELF loading, themes, wallpapers, screensavers and more.

- `src/` is the verified library; every function carries a contract.
- `tests/` exercises the library on concrete values.
- `app/` is a hosted stand-in for the machine: it drives the library from
  standard input and prints what the kernel would show.

The one outside crate, `noto-sans-mono-bitmap`, supplies the console font;
its glyphs are used through three small trusted wrappers in `src/gfx.rs`.
