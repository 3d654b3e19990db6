//! Virtual filesystem: a mount table over block devices, with path
//! resolution `/<mount>/<FILE.EXT>`, backed by the FAT driver.
//!
//! Paths are simple: `/disk/BATANG.TXT`, `/ram/DAHAN.TXT`. Only the root
//! directory of each volume is exposed.

use vstd::prelude::*;
use vstd::string::*;
use vstd::utf8::encode_utf8;
use crate::driver::BlockDevice;
use crate::fat::{FatKind, FatVolume};
use crate::text::{owned, push_str, str_eq, texts};

verus! {

/// A mounted volume.
pub struct Mount<D> {
    pub name: String,
    pub read_only: bool,
    pub device: D,
    pub volume: FatVolume,
}

/// The mount table, in mount order.
pub struct Vfs<D> {
    pub mounts: Vec<Mount<D>>,
}

impl<D: BlockDevice> Vfs<D> {
    /// Every mounted device and volume is well formed.
    pub open spec fn inv(&self) -> bool {
        forall|i: int| 0 <= i < self.mounts@.len() ==> (#[trigger] self.mounts@[i]).device.wf() && self.mounts@[i].volume.wf()
    }

    /// No mounts.
    pub fn new() -> (v: Vfs<D>)
        ensures
            v.inv(),
            v.mounts@.len() == 0,
    {
        Vfs { mounts: Vec::new() }
    }
}

/// No `/` in `s`.
pub open spec fn no_slash(s: Seq<char>) -> bool {
    forall|i: int| 0 <= i < s.len() ==> #[trigger] s[i] != '/'
}

/// Index of the first `/` in `s`, or -1.
pub open spec fn first_slash(s: Seq<char>) -> int {
    if no_slash(s) {
        -1
    } else {
        choose|d: int| 0 <= d < s.len() && s[d] == '/' && no_slash(s.take(d))
    }
}

/// `/mount/FILE.EXT` as (mount, file); `/mount` gives an empty file part;
/// `None` for a relative path.
pub open spec fn split_spec(p: Seq<char>) -> Option<(Seq<char>, Seq<char>)> {
    if p.len() == 0 || p[0] != '/' {
        None
    } else {
        let rest = p.skip(1);
        let d = first_slash(rest);
        if d < 0 { Some((rest, Seq::empty())) } else { Some((rest.take(d), rest.skip(d + 1))) }
    }
}

/// The mount part of a path.
pub open spec fn path_mount(p: Seq<char>) -> Seq<char> {
    let (m, _f) = split_spec(p)->0;
    m
}

/// The file part of a path.
pub open spec fn path_file(p: Seq<char>) -> Seq<char> {
    let (_m, f) = split_spec(p)->0;
    f
}

/// Split `/mount/FILE.EXT` into (mount, file) (see [`split_spec`]).
pub fn split_path(path: &str) -> (r: Result<(&str, &str), &'static str>)
    ensures
        split_spec(path@) is None <==> r is Err,
        r is Err ==> r == Err::<(&str, &str), &'static str>("path must be absolute"),
        r is Ok ==> { let (a, b) = r->Ok_0; split_spec(path@) == Some((a@, b@)) },
{
    let n = path.unicode_len();
    if n == 0 || path.get_char(0) != '/' {
        return Err("path must be absolute");
    }
    let ghost rest = path@.skip(1);
    let mut d: usize = 1;
    while d < n && path.get_char(d) != '/'
        invariant
            1 <= d <= n,
            n == path@.len(),
            rest == path@.skip(1),
            no_slash(rest.take(d - 1)),
        decreases n - d,
    {
        assert(rest.take(d as int) =~= rest.take(d - 1).push(path@[d as int]));
        d = d + 1;
    }
    if d < n {
        proof {
            let k = (d - 1) as int;
            assert(rest[k] == '/');
            assert(first_slash(rest) == k) by {
                let c = choose|c: int| 0 <= c < rest.len() && rest[c] == '/' && no_slash(rest.take(c));
                if c < k { assert(rest.take(k)[c] == '/'); }
                if c > k { assert(rest.take(c)[k] == '/'); }
            }
            assert(path@.subrange(1, d as int) =~= rest.take(k));
            assert(path@.subrange(d + 1, n as int) =~= rest.skip(k + 1));
        }
        Ok((path.substring_char(1, d), path.substring_char(d + 1, n)))
    } else {
        proof {
            assert(rest.take(d - 1) =~= rest);
            assert(path@.subrange(1, n as int) =~= rest);
        }
        Ok((path.substring_char(1, n), path.substring_char(n, n)))
    }
}

/// `i` is the first mount called `name`.
pub open spec fn is_first_mount<D>(ms: Seq<Mount<D>>, name: Seq<char>, i: int) -> bool {
    &&& 0 <= i < ms.len()
    &&& ms[i].name@ == name
    &&& forall|j: int| 0 <= j < i ==> (#[trigger] ms[j]).name@ != name
}

/// No mount is called `name`.
pub open spec fn unmounted<D>(ms: Seq<Mount<D>>, name: Seq<char>) -> bool {
    forall|j: int| 0 <= j < ms.len() ==> (#[trigger] ms[j]).name@ != name
}

/// Index of the first mount called `name`.
fn find_mount<D>(v: &Vfs<D>, name: &str) -> (r: Option<usize>)
    ensures
        r is None <==> unmounted(v.mounts@, name@),
        r is Some ==> is_first_mount(v.mounts@, name@, r->0 as int),
{
    let mut i: usize = 0;
    while i < v.mounts.len()
        invariant
            i <= v.mounts@.len(),
            forall|j: int| 0 <= j < i ==> (#[trigger] v.mounts@[j]).name@ != name@,
        decreases v.mounts@.len() - i,
    {
        if str_eq(v.mounts[i].name.as_str(), name) {
            return Some(i);
        }
        i = i + 1;
    }
    None
}

/// Mount the FAT volume on `device` at `/name`. On failure the device is
/// dropped and the table is unchanged.
pub fn mount<D: BlockDevice>(v: &mut Vfs<D>, name: &str, device: D, read_only: bool) -> (r: Result<(), &'static str>)
    requires
        old(v).inv(),
        device.wf(),
    ensures
        final(v).inv(),
        r is Err ==> final(v).mounts@ == old(v).mounts@,
        ({
            let s = device.sectors();
            let sig = s[0][510] == 0x55 && s[0][511] == 0xAA;
            let some_valid = exists|k: int| 0 <= k < crate::fat::mount_candidates(s[0]).len()
                && #[trigger] crate::fat::valid_vbr_at(s, crate::fat::mount_candidates(s[0])[k]);
            &&& device.reads_ok() && s.len() > 0 && !sig ==> r == Err::<(), &'static str>("no boot signature in sector 0")
            &&& device.reads_ok() && s.len() > 0 && sig && some_valid ==> r is Ok
            &&& device.reads_ok() && s.len() > 0 && sig && !some_valid ==>
                r == Err::<(), &'static str>("no FAT volume found on device")
        }),
        r is Ok ==> {
            let s = device.sectors();
            let m = final(v).mounts@.last();
            &&& final(v).mounts@.len() == old(v).mounts@.len() + 1
            &&& final(v).mounts@.drop_last() == old(v).mounts@
            &&& m.name@ == name@
            &&& m.read_only == read_only
            &&& m.device.sectors() == s
            &&& s.len() > 0 && s[0][510] == 0x55 && s[0][511] == 0xAA
            &&& exists|k: int| 0 <= k < crate::fat::mount_candidates(s[0]).len()
                && #[trigger] crate::fat::valid_vbr_at(s, crate::fat::mount_candidates(s[0])[k])
                && m.volume == crate::fat::vbr_volume(s[crate::fat::mount_candidates(s[0])[k] as int], crate::fat::mount_candidates(s[0])[k])
        },
{
    let mut device = device;
    let volume = match FatVolume::mount(&mut device) {
        Ok(vol) => vol,
        Err(e) => {
            return Err(e);
        },
    };
    let m = Mount { name: owned(name), read_only, device, volume };
    v.mounts.push(m);
    assert(final(v).mounts@.drop_last() =~= old(v).mounts@);
    Ok(())
}

/// Take mount `i` out of the table, keeping the others in order.
fn take_mount<D>(v: &mut Vfs<D>, i: usize) -> (m: Mount<D>)
    requires
        i < old(v).mounts@.len(),
    ensures
        m == old(v).mounts@[i as int],
        final(v).mounts@ == old(v).mounts@.remove(i as int),
{
    v.mounts.remove(i)
}

/// Put a mount back at position `i`.
fn put_mount<D>(v: &mut Vfs<D>, i: usize, m: Mount<D>)
    requires
        i <= old(v).mounts@.len(),
    ensures
        final(v).mounts@ == old(v).mounts@.insert(i as int, m),
{
    v.mounts.insert(i, m);
}

/// Read a whole file at `path`.
pub fn read<D: BlockDevice>(v: &mut Vfs<D>, path: &str) -> (r: Result<Vec<u8>, &'static str>)
    requires
        old(v).inv(),
    ensures
        final(v).inv(),
        final(v).mounts@.len() == old(v).mounts@.len(),
        forall|j: int| 0 <= j < old(v).mounts@.len() ==> {
            &&& (#[trigger] final(v).mounts@[j]).name == old(v).mounts@[j].name
            &&& final(v).mounts@[j].read_only == old(v).mounts@[j].read_only
            &&& final(v).mounts@[j].volume == old(v).mounts@[j].volume
            &&& final(v).mounts@[j].device.sectors() == old(v).mounts@[j].device.sectors()
        },
        split_spec(path@) is None ==> r == Err::<Vec<u8>, &'static str>("path must be absolute"),
        split_spec(path@) is Some && path_file(path@).len() == 0 ==>
            r == Err::<Vec<u8>, &'static str>("path names a directory, not a file"),
        split_spec(path@) is Some && path_file(path@).len() > 0 && unmounted(old(v).mounts@, path_mount(path@)) ==>
            r == Err::<Vec<u8>, &'static str>("no such mount"),
        r is Ok ==> {
            let (mn, f) = split_spec(path@)->0;
            exists|i: int| #[trigger] is_first_mount(old(v).mounts@, mn, i)
                && old(v).mounts@[i].volume.read_result(old(v).mounts@[i].device.sectors(), encode_utf8(f), r->Ok_0@)
        },
        split_spec(path@) is Some && path_file(path@).len() > 0 ==> forall|i: int| #[trigger] is_first_mount(old(v).mounts@, path_mount(path@), i)
            ==> old(v).mounts@[i].volume.read_outcome(old(v).mounts@[i].device.sectors(), old(v).mounts@[i].device.reads_ok(),
                encode_utf8(path_file(path@)), r),
{
    let (mn, file) = match split_path(path) {
        Ok(p) => p,
        Err(e) => {
            return Err(e);
        },
    };
    if file.unicode_len() == 0 {
        return Err("path names a directory, not a file");
    }
    let i = match find_mount(v, mn) {
        Some(i) => i,
        None => {
            return Err("no such mount");
        },
    };
    let ghost v0 = v.mounts@;
    assert(v0 == old(v).mounts@);
    assert(path_mount(path@) == mn@);
    let mut m = take_mount(v, i);
    assert(v0[i as int] == m);
    let r = m.volume.read_file(&mut m.device, file);
    let ghost m1 = m;
    put_mount(v, i, m);
    assert(v.mounts@[i as int] == m1);
    proof {
        assert forall|j: int| 0 <= j < v0.len() implies {
            &&& (#[trigger] v.mounts@[j]).name == v0[j].name
            &&& v.mounts@[j].read_only == v0[j].read_only
            &&& v.mounts@[j].volume == v0[j].volume
            &&& v.mounts@[j].device.sectors() == v0[j].device.sectors()
            &&& v.mounts@[j].device.wf() && v.mounts@[j].volume.wf()
        } by {
            if j < i { assert(v.mounts@[j] == v0[j]); }
            if j > i { assert(v.mounts@[j] == v0[j]); }
        }
        assert(path_file(path@) == file@);
        if r is Ok {
            assert(is_first_mount(v0, mn@, i as int));
        }
    }
    r
}

/// Write a whole file at `path` (creates or overwrites).
pub fn write<D: BlockDevice>(v: &mut Vfs<D>, path: &str, data: &[u8]) -> (r: Result<(), &'static str>)
    requires
        old(v).inv(),
        data@.len() < 0x1_0000_0000_0000,
    ensures
        final(v).inv(),
        final(v).mounts@.len() == old(v).mounts@.len(),
        forall|j: int| 0 <= j < old(v).mounts@.len() ==> {
            &&& (#[trigger] final(v).mounts@[j]).name == old(v).mounts@[j].name
            &&& final(v).mounts@[j].read_only == old(v).mounts@[j].read_only
            &&& final(v).mounts@[j].volume == old(v).mounts@[j].volume
        },
        split_spec(path@) is None ==> r == Err::<(), &'static str>("path must be absolute") && final(v).mounts@ == old(v).mounts@,
        split_spec(path@) is Some && path_file(path@).len() == 0 ==>
            r == Err::<(), &'static str>("path names a directory, not a file") && final(v).mounts@ == old(v).mounts@,
        split_spec(path@) is Some && path_file(path@).len() > 0 && unmounted(old(v).mounts@, path_mount(path@)) ==>
            r == Err::<(), &'static str>("no such mount") && final(v).mounts@ == old(v).mounts@,
        split_spec(path@) is Some ==> forall|i: int| #[trigger] is_first_mount(old(v).mounts@, path_mount(path@), i) ==> {
            &&& path_file(path@).len() > 0 && old(v).mounts@[i].read_only ==> r == Err::<(), &'static str>("mount is read-only")
            &&& (old(v).mounts@[i].read_only || old(v).mounts@[i].volume.kind != FatKind::Fat12) ==> r is Err
            &&& r is Ok ==> path_file(path@).len() > 0
                && encode83_ok(encode_utf8(path_file(path@)))
                && exists|chain: Seq<u32>, m: nat, k: int| #[trigger] old(v).mounts@[i].volume.file_written(
                    old(v).mounts@[i].device.sectors(), encode_utf8(path_file(path@)), data@,
                    final(v).mounts@[i].device.sectors(), chain, m, k)
        },
        forall|j: int| 0 <= j < old(v).mounts@.len() && final(v).mounts@[j].device.sectors() != old(v).mounts@[j].device.sectors()
            ==> is_first_mount(old(v).mounts@, path_mount(path@), j),
{
    let (mn, file) = match split_path(path) {
        Ok(p) => p,
        Err(e) => {
            return Err(e);
        },
    };
    if file.unicode_len() == 0 {
        return Err("path names a directory, not a file");
    }
    let i = match find_mount(v, mn) {
        Some(i) => i,
        None => {
            return Err("no such mount");
        },
    };
    let ghost v0 = v.mounts@;
    assert(v0 == old(v).mounts@);
    assert(path_mount(path@) == mn@);
    let mut m = take_mount(v, i);
    assert(v0[i as int] == m);
    let r = if m.read_only {
        Err("mount is read-only")
    } else {
        m.volume.write_file(&mut m.device, file, data)
    };
    let ghost m1 = m;
    put_mount(v, i, m);
    assert(v.mounts@[i as int] == m1);
    assert(path_file(path@) == file@);
    proof {
        assert forall|j: int| 0 <= j < v0.len() implies {
            &&& (#[trigger] v.mounts@[j]).name == v0[j].name
            &&& v.mounts@[j].read_only == v0[j].read_only
            &&& v.mounts@[j].volume == v0[j].volume
            &&& v.mounts@[j].device.wf() && v.mounts@[j].volume.wf()
            &&& j != i ==> v.mounts@[j] == v0[j]
        } by {
            if j < i { assert(v.mounts@[j] == v0[j]); }
            if j > i { assert(v.mounts@[j] == v0[j]); }
        }
        assert(is_first_mount(v0, mn@, i as int));
        assert forall|i2: int| #[trigger] is_first_mount(v0, mn@, i2) implies i2 == i as int by {
            if i2 < i { assert(v0[i2].name@ != mn@); }
            if i2 > i { assert(v0[i as int].name@ != mn@); }
        }
    }
    r
}

/// The name is a valid 8.3 name.
pub open spec fn encode83_ok(b: Seq<u8>) -> bool {
    crate::fat::encode83(b) is Some
}

/// List the root directory of a mount (`/disk`).
pub fn list<D: BlockDevice>(v: &mut Vfs<D>, path: &str) -> (r: Result<Vec<String>, &'static str>)
    requires
        old(v).inv(),
    ensures
        final(v).inv(),
        final(v).mounts@.len() == old(v).mounts@.len(),
        forall|j: int| 0 <= j < old(v).mounts@.len() ==> {
            &&& (#[trigger] final(v).mounts@[j]).name == old(v).mounts@[j].name
            &&& final(v).mounts@[j].read_only == old(v).mounts@[j].read_only
            &&& final(v).mounts@[j].volume == old(v).mounts@[j].volume
            &&& final(v).mounts@[j].device.sectors() == old(v).mounts@[j].device.sectors()
        },
        split_spec(path@) is None ==> r == Err::<Vec<String>, &'static str>("path must be absolute"),
        split_spec(path@) is Some && unmounted(old(v).mounts@, path_mount(path@)) ==>
            r == Err::<Vec<String>, &'static str>("no such mount"),
        split_spec(path@) is Some ==> forall|i: int| #[trigger] is_first_mount(old(v).mounts@, path_mount(path@), i)
            && old(v).mounts@[i].volume.kind != FatKind::Fat32 && old(v).mounts@[i].device.reads_ok()
            && old(v).mounts@[i].volume.data_start <= old(v).mounts@[i].device.sectors().len() ==> r is Ok,
        r is Ok ==> {
            let mn = path_mount(path@);
            exists|i: int| #[trigger] is_first_mount(old(v).mounts@, mn, i)
                && (old(v).mounts@[i].volume.kind != FatKind::Fat32 ==> texts(r->Ok_0@)
                    == crate::fat::names_of(old(v).mounts@[i].volume.root_visible(old(v).mounts@[i].device.sectors())))
        },
{
    let (mn, _file) = match split_path(path) {
        Ok(p) => p,
        Err(e) => {
            return Err(e);
        },
    };
    let i = match find_mount(v, mn) {
        Some(i) => i,
        None => {
            return Err("no such mount");
        },
    };
    let ghost v0 = v.mounts@;
    assert(v0 == old(v).mounts@);
    assert(path_mount(path@) == mn@);
    let mut m = take_mount(v, i);
    assert(v0[i as int] == m);
    let r = m.volume.list_root(&mut m.device);
    let ghost m1 = m;
    put_mount(v, i, m);
    assert(v.mounts@[i as int] == m1);
    proof {
        assert forall|j: int| 0 <= j < v0.len() implies {
            &&& (#[trigger] v.mounts@[j]).name == v0[j].name
            &&& v.mounts@[j].read_only == v0[j].read_only
            &&& v.mounts@[j].volume == v0[j].volume
            &&& v.mounts@[j].device.sectors() == v0[j].device.sectors()
            &&& v.mounts@[j].device.wf() && v.mounts@[j].volume.wf()
        } by {
            if j < i { assert(v.mounts@[j] == v0[j]); }
            if j > i { assert(v.mounts@[j] == v0[j]); }
        }
        assert(is_first_mount(v0, mn@, i as int));
    }
    r
}

/// Names of all current mounts, e.g. `["/disk", "/ram"]`.
pub fn mounts<D>(v: &Vfs<D>) -> (r: Vec<String>)
    ensures
        r@.len() == v.mounts@.len(),
        forall|i: int| 0 <= i < r@.len() ==> (#[trigger] r@[i])@ == seq!['/'] + v.mounts@[i].name@,
{
    let mut out: Vec<String> = Vec::new();
    let mut i: usize = 0;
    while i < v.mounts.len()
        invariant
            i <= v.mounts@.len(),
            out@.len() == i,
            forall|k: int| 0 <= k < i ==> (#[trigger] out@[k])@ == seq!['/'] + v.mounts@[k].name@,
        decreases v.mounts@.len() - i,
    {
        let mut s = owned("/");
        proof {
            reveal_strlit("/");
        }
        push_str(&mut s, v.mounts[i].name.as_str());
        out.push(s);
        i = i + 1;
    }
    out
}

} // verus!
