//! The disk-image tool's decisions: what its command line asks for, and the
//! QEMU command line that boots the image with the boot disk on the chosen
//! controller. Copying the images and starting QEMU is the host's part.

use vstd::prelude::*;
use vstd::string::*;
use crate::text::{owned, push_str, str_eq, texts};

verus! {

/// What the tool is asked to do.
#[derive(Debug)]
pub enum Mode {
    /// Copy the UEFI and BIOS images into this directory.
    Out(String),
    /// Boot the image in QEMU (`smoke`: headless, serial to stdout, no
    /// reboot).
    Boot { uefi: bool, smoke: bool, media: String },
    /// Print the image paths and the usage line.
    Usage,
}

/// The first position of `w` in `args`.
pub open spec fn position(args: Seq<Seq<char>>, w: Seq<char>) -> Option<int> {
    if exists|i: int| 0 <= i < args.len() && args[i] == w {
        Some(choose|i: int| 0 <= i < args.len() && args[i] == w && forall|j: int| 0 <= j < i ==> args[j] != w)
    } else {
        None
    }
}

/// The argument after the first `flag`, if both are there.
pub open spec fn value_after(args: Seq<Seq<char>>, flag: Seq<char>) -> Option<Seq<char>> {
    match position(args, flag) {
        Some(p) => if p + 1 < args.len() { Some(args[p + 1]) } else { None },
        None => None,
    }
}

fn find(args: &Vec<String>, w: &str) -> (r: Option<usize>)
    ensures
        r is None <==> position(texts(args@), w@) is None,
        r matches Some(i) ==> i < args@.len() && position(texts(args@), w@) == Some(i as int),
{
    let mut i: usize = 0;
    while i < args.len()
        invariant
            i <= args@.len(),
            forall|j: int| 0 <= j < i ==> texts(args@)[j] != w@,
        decreases args@.len() - i,
    {
        if str_eq(args[i].as_str(), w) {
            proof {
                let t = texts(args@);
                assert(t[i as int] == w@);
                let c = choose|k: int| 0 <= k < t.len() && t[k] == w@ && forall|j: int| 0 <= j < k ==> t[j] != w@;
                if c < i { assert(t[c] != w@); }
                if c > i { assert(t[i as int] != w@); }
            }
            return Some(i);
        }
        i = i + 1;
    }
    None
}

/// The mode the arguments (without the program name) select: `--out [dir]`
/// (default `dist`) first, then `--run` or `--smoke` (with `--uefi` and
/// `--media <kind>`, default `ide`), else the usage.
pub open spec fn mode_of(args: Seq<Seq<char>>) -> (int, bool, bool, Seq<char>) {
    if position(args, "--out"@) is Some {
        (0, false, false, match value_after(args, "--out"@) { Some(d) => d, None => "dist"@ })
    } else if position(args, "--run"@) is Some || position(args, "--smoke"@) is Some {
        (1, position(args, "--uefi"@) is Some, position(args, "--smoke"@) is Some,
            match value_after(args, "--media"@) { Some(m) => m, None => "ide"@ })
    } else {
        (2, false, false, Seq::empty())
    }
}

/// The argument after `flag`, or `default`.
fn flag_value(args: &Vec<String>, flag: &str, default: &str) -> (r: String)
    ensures
        r@ == match value_after(texts(args@), flag@) { Some(d) => d, None => default@ },
{
    let _n = args.len();
    match find(args, flag) {
        Some(p) => if p + 1 < args.len() { owned(args[p + 1].as_str()) } else { owned(default) },
        None => owned(default),
    }
}

/// Whether `flag` is among the arguments.
fn has(args: &Vec<String>, flag: &str) -> (b: bool)
    ensures
        b == position(texts(args@), flag@) is Some,
{
    find(args, flag).is_some()
}

/// Read the command line (see [`mode_of`]).
#[verifier::rlimit(30)]
pub fn parse_cli(args: &Vec<String>) -> (m: Mode)
    ensures
        ({
            let (k, uefi, smoke, s) = mode_of(texts(args@));
            &&& k == 0 ==> (m matches Mode::Out(d) && d@ == s)
            &&& k == 1 ==> (m matches Mode::Boot { uefi: u, smoke: sm, media } && u == uefi && sm == smoke && media@ == s)
            &&& k == 2 ==> m is Usage
        }),
{
    if has(args, "--out") {
        return Mode::Out(flag_value(args, "--out", "dist"));
    }
    let run = has(args, "--run");
    let smoke = has(args, "--smoke");
    if run || smoke {
        let uefi = has(args, "--uefi");
        let media = flag_value(args, "--media", "ide");
        return Mode::Boot { uefi, smoke, media };
    }
    Mode::Usage
}

/// The QEMU arguments attaching the boot disk `image` to the controller
/// `media`; `None` for an unknown controller.
pub open spec fn media_spec(media: Seq<char>, image: Seq<char>) -> Option<Seq<Seq<char>>> {
    let named = "id=bzdisk,format=raw,file="@ + image + ",if=none"@;
    if media == "ide"@ {
        Some(seq!["-drive"@, "format=raw,file="@ + image])
    } else if media == "ahci"@ {
        Some(seq!["-drive"@, named, "-device"@, "ahci,id=ahci0"@, "-device"@, "ide-hd,drive=bzdisk,bus=ahci0.0"@])
    } else if media == "nvme"@ {
        Some(seq!["-drive"@, named, "-device"@, "nvme,drive=bzdisk,serial=bz0001"@])
    } else if media == "usb"@ {
        Some(seq!["-drive"@, named, "-usb"@, "-device"@, "usb-storage,drive=bzdisk"@])
    } else {
        None
    }
}

fn push_all(v: &mut Vec<String>, items: &[&str])
    ensures
        texts(final(v)@) == texts(old(v)@) + items@.map_values(|s: &str| s@),
{
    let mut i: usize = 0;
    while i < items.len()
        invariant
            i <= items@.len(),
            texts(v@) == texts(old(v)@) + items@.take(i as int).map_values(|s: &str| s@),
        decreases items@.len() - i,
    {
        let ghost before = texts(v@);
        v.push(owned(items[i]));
        assert(texts(v@) =~= before.push(items@[i as int]@));
        assert(items@.take(i + 1).map_values(|s: &str| s@) =~= items@.take(i as int).map_values(|s: &str| s@).push(items@[i as int]@));
        i = i + 1;
    }
    assert(items@.take(items@.len() as int) =~= items@);
}

/// The QEMU arguments for the boot disk on controller `media`.
pub fn media_args(media: &str, image: &str) -> (r: Option<Vec<String>>)
    ensures
        match media_spec(media@, image@) {
            None => r is None,
            Some(a) => (r matches Some(v) && texts(v@) == a),
        },
{
    let mut named = owned("id=bzdisk,format=raw,file=");
    push_str(&mut named, image);
    push_str(&mut named, ",if=none");
    let mut v: Vec<String> = Vec::new();
    if str_eq(media, "ide") {
        v.push(owned("-drive"));
        let mut d = owned("format=raw,file=");
        push_str(&mut d, image);
        v.push(d);
        proof { let t = texts(v@); assert(t =~= seq!["-drive"@, "format=raw,file="@ + image@]); }
        return Some(v);
    }
    let tail: &[&str] = if str_eq(media, "ahci") {
        &["-device", "ahci,id=ahci0", "-device", "ide-hd,drive=bzdisk,bus=ahci0.0"]
    } else if str_eq(media, "nvme") {
        &["-device", "nvme,drive=bzdisk,serial=bz0001"]
    } else if str_eq(media, "usb") {
        &["-usb", "-device", "usb-storage,drive=bzdisk"]
    } else {
        return None;
    };
    v.push(owned("-drive"));
    v.push(named);
    let ghost head = texts(v@);
    push_all(&mut v, tail);
    proof {
        assert(head =~= seq!["-drive"@, "id=bzdisk,format=raw,file="@ + image@ + ",if=none"@]);
        assert(texts(v@) =~= head + tail@.map_values(|s: &str| s@));
    }
    Some(v)
}

/// The rest of the QEMU command line: 512 MiB of memory and the serial port
/// on standard I/O, headless and without rebooting for a smoke test.
pub fn tail_args(smoke: bool) -> (r: Vec<String>)
    ensures
        smoke ==> texts(r@) == seq!["-m"@, "512M"@, "-display"@, "none"@, "-serial"@, "stdio"@, "-no-reboot"@],
        !smoke ==> texts(r@) == seq!["-m"@, "512M"@, "-serial"@, "stdio"@],
{
    let mut v: Vec<String> = Vec::new();
    if smoke {
        push_all(&mut v, &["-m", "512M", "-display", "none", "-serial", "stdio", "-no-reboot"]);
    } else {
        push_all(&mut v, &["-m", "512M", "-serial", "stdio"]);
    }
    v
}

/// The QEMU arguments loading the UEFI firmware's code and variable files.
pub fn firmware_args(code: &str, vars: &str) -> (r: Vec<String>)
    ensures
        texts(r@) == seq!["-drive"@, "if=pflash,format=raw,readonly=on,file="@ + code@, "-drive"@,
            "if=pflash,format=raw,readonly=on,file="@ + vars@],
{
    let mut v: Vec<String> = Vec::new();
    v.push(owned("-drive"));
    let mut c = owned("if=pflash,format=raw,readonly=on,file=");
    push_str(&mut c, code);
    v.push(c);
    v.push(owned("-drive"));
    let mut d = owned("if=pflash,format=raw,readonly=on,file=");
    push_str(&mut d, vars);
    v.push(d);
    assert(texts(v@) =~= seq!["-drive"@, "if=pflash,format=raw,readonly=on,file="@ + code@, "-drive"@,
        "if=pflash,format=raw,readonly=on,file="@ + vars@]);
    v
}

} // verus!
