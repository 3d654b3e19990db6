//! Package manager + registry: the registry lists available packages (name,
//! version, description, backing ELF on `/disk`); install/remove track which
//! are installed, and only installed apps launch.

use vstd::prelude::*;
use crate::abi::PkgInfo;
use crate::text::str_eq;
use vstd::string::StringSliceAdditionalSpecFns;

verus! {

/// A registry entry.
#[derive(Clone, Copy)]
pub struct Package {
    pub name: &'static str,
    pub version: &'static str,
    pub description: &'static str,
    /// 8.3 file on /disk.
    pub elf: &'static str,
    /// desktop | console | web | widget
    pub kind: &'static str,
    /// User-facing category (App Store).
    pub category: &'static str,
}

/// Number of registry entries.
pub const REGISTRY_LEN: usize = 11;

/// Package names, in catalog order.
pub const PKG_NAMES: [&'static str; 11] = [
    "calc", "2048", "clock", "piano", "store", "paint", "taskmgr", "xox", "widget", "webview", "hello",
];
/// Version of each package.
pub const PKG_VERSIONS: [&'static str; 11] = [
    "1.0.0", "1.0.0", "1.0.0", "1.0.0", "1.0.0", "0.9.0", "0.9.0", "0.8.0", "0.9.0", "0.9.0", "0.4.0",
];
/// Description of each package.
pub const PKG_DESCRIPTIONS: [&'static str; 11] = [
    "Kalkulator (Buitenzorg.UI)", "Game geser-ubin 2048", "Jam analog + digital", "Piano (audio)", "App Store",
    "Buitenzorg.Drawing demo", "Task Manager / monitor", "Tic-Tac-Toe game", "System monitor widget",
    "Mini web-app runtime", "Hello from C# (console)",
];
/// Backing ELF of each package.
pub const PKG_ELFS: [&'static str; 11] = [
    "CALC.ELF", "G2048.ELF", "CLOCK.ELF", "PIANO.ELF", "STORE.ELF", "PAINT.ELF", "TASKMGR.ELF", "XOX.ELF",
    "WIDGET.ELF", "WEBVIEW.ELF", "HELLO.ELF",
];
/// Kind of each package.
pub const PKG_KINDS: [&'static str; 11] = [
    "desktop", "desktop", "desktop", "desktop", "desktop", "desktop", "desktop", "desktop", "widget", "web", "console",
];
/// Category of each package.
pub const PKG_CATEGORIES: [&'static str; 11] = [
    "PRODUKTIVITAS", "GAME", "UTILITAS", "MULTIMEDIA", "SISTEM", "GRAFIS", "UTILITAS", "GAME", "UTILITAS", "INTERNET",
    "KONSOL",
];

/// Registry entry `i`.
pub open spec fn spec_package(i: int) -> Package {
    Package {
        name: PKG_NAMES[i],
        version: PKG_VERSIONS[i],
        description: PKG_DESCRIPTIONS[i],
        elf: PKG_ELFS[i],
        kind: PKG_KINDS[i],
        category: PKG_CATEGORIES[i],
    }
}

/// Registry entry `i`.
pub fn package_at(i: usize) -> (p: Package)
    requires
        i < REGISTRY_LEN,
    ensures
        p == spec_package(i as int),
{
    Package {
        name: PKG_NAMES[i],
        version: PKG_VERSIONS[i],
        description: PKG_DESCRIPTIONS[i],
        elf: PKG_ELFS[i],
        kind: PKG_KINDS[i],
        category: PKG_CATEGORIES[i],
    }
}

/// The first registry entry named `name`.
pub fn find(name: &str) -> (p: Option<Package>)
    ensures
        p is None <==> forall|i: int| 0 <= i < REGISTRY_LEN ==> PKG_NAMES[i]@ != name@,
        p is Some ==> exists|i: int| 0 <= i < REGISTRY_LEN && PKG_NAMES[i]@ == name@ && p->0 == spec_package(i),
{
    match crate::text::find_str(&PKG_NAMES, name) {
        Some(i) => Some(package_at(i)),
        None => None,
    }
}

/// Names of installed packages.
pub struct PkgState {
    pub installed: Vec<String>,
}

impl PkgState {
    /// Nothing installed.
    pub fn new() -> (s: PkgState)
        ensures
            s.installed@.len() == 0,
    {
        PkgState { installed: Vec::new() }
    }
}

/// The installed names as character sequences.
pub open spec fn installed_names(st: &PkgState) -> Seq<Seq<char>> {
    st.installed@.map_values(|s: String| s@)
}

/// Whether `name` is installed.
pub fn is_installed(st: &PkgState, name: &str) -> (b: bool)
    ensures
        b == installed_names(st).contains(name@),
{
    position(st, name).is_some()
}

fn position(st: &PkgState, name: &str) -> (p: Option<usize>)
    ensures
        p is None <==> !installed_names(st).contains(name@),
        p is Some ==> p->0 < st.installed@.len() && st.installed@[p->0 as int]@ == name@
            && forall|j: int| 0 <= j < p->0 ==> st.installed@[j]@ != name@,
{
    let mut i: usize = 0;
    while i < st.installed.len()
        invariant
            i <= st.installed@.len(),
            forall|j: int| 0 <= j < i ==> st.installed@[j]@ != name@,
        decreases st.installed@.len() - i,
    {
        if str_eq(st.installed[i].as_str(), name) {
            assert(installed_names(st)[i as int] == name@);
            return Some(i);
        }
        i = i + 1;
    }
    proof {
        if installed_names(st).contains(name@) {
            let k = choose|k: int| 0 <= k < installed_names(st).len() && installed_names(st)[k] == name@;
            assert(st.installed@[k]@ == name@);
        }
    }
    None
}

/// Pre-install a base set (each name once, in order).
pub fn seed(st: &mut PkgState, names: &[&str])
    ensures
        forall|k: int| 0 <= k < names@.len() ==> installed_names(final(st)).contains((#[trigger] names@[k])@),
        forall|s: Seq<char>| installed_names(final(st)).contains(s) ==> installed_names(old(st)).contains(s)
            || exists|k: int| 0 <= k < names@.len() && (#[trigger] names@[k])@ == s,
        final(st).installed@.len() >= old(st).installed@.len(),
        forall|j: int| 0 <= j < old(st).installed@.len() ==> final(st).installed@[j] == old(st).installed@[j],
{
    let mut k: usize = 0;
    while k < names.len()
        invariant
            k <= names@.len(),
            forall|j: int| 0 <= j < k ==> installed_names(st).contains((#[trigger] names@[j])@),
            forall|s: Seq<char>| installed_names(st).contains(s) ==> installed_names(old(st)).contains(s)
                || exists|j: int| 0 <= j < names@.len() && (#[trigger] names@[j])@ == s,
            st.installed@.len() >= old(st).installed@.len(),
            forall|j: int| 0 <= j < old(st).installed@.len() ==> st.installed@[j] == old(st).installed@[j],
        decreases names@.len() - k,
    {
        let n = names[k];
        if !is_installed(st, n) {
            let ghost before = installed_names(st);
            st.installed.push(crate::text::owned(n));
            proof {
                assert(installed_names(st) =~= before.push(n@));
                assert forall|s: Seq<char>| installed_names(st).contains(s) implies installed_names(old(st)).contains(s)
                    || exists|j: int| 0 <= j < names@.len() && (#[trigger] names@[j])@ == s by {
                    if s == n@ {
                        assert(names@[k as int]@ == s);
                    } else {
                        let idx = choose|idx: int| 0 <= idx < installed_names(st).len() && installed_names(st)[idx] == s;
                        assert(before[idx] == s);
                    }
                }
                assert forall|j: int| 0 <= j <= k implies installed_names(st).contains((#[trigger] names@[j])@) by {
                    if j < k {
                        let idx = choose|idx: int| 0 <= idx < before.len() && before[idx] == names@[j]@;
                        assert(installed_names(st)[idx] == names@[j]@);
                    } else {
                        assert(installed_names(st)[before.len() as int] == n@);
                    }
                }
            }
        }
        k = k + 1;
    }
}

/// The path of a registered package's payload on `/disk`.
pub fn payload_path(name: &str) -> (p: Option<String>)
    ensures
        p is None <==> forall|i: int| 0 <= i < REGISTRY_LEN ==> PKG_NAMES[i]@ != name@,
        p is Some ==> exists|i: int| 0 <= i < REGISTRY_LEN && PKG_NAMES[i]@ == name@
            && p->0@ == "/disk/"@ + PKG_ELFS[i]@,
{
    match find(name) {
        Some(pkg) => {
            let mut s = crate::text::owned("/disk/");
            crate::text::push_str(&mut s, pkg.elf);
            Some(s)
        },
        None => None,
    }
}

/// Install a package from the registry, given whether its payload (see
/// [`payload_path`]) is present on `/disk`. Returns the version, or
/// "package not in registry", "package payload missing on /disk" or
/// "already installed", checked in that order.
pub fn install(st: &mut PkgState, name: &str, payload_present: bool) -> (r: Result<&'static str, &'static str>)
    ensures
        (forall|i: int| 0 <= i < REGISTRY_LEN ==> PKG_NAMES[i]@ != name@) ==> r is Err
            && r->Err_0@ == "package not in registry"@,
        (exists|i: int| 0 <= i < REGISTRY_LEN && PKG_NAMES[i]@ == name@) ==> ({
            &&& !payload_present ==> r is Err && r->Err_0@ == "package payload missing on /disk"@
            &&& payload_present && installed_names(old(st)).contains(name@) ==> r is Err
                && r->Err_0@ == "already installed"@
            &&& payload_present && !installed_names(old(st)).contains(name@) ==> r is Ok
                && installed_names(final(st)) == installed_names(old(st)).push(name@)
                && exists|i: int| 0 <= i < REGISTRY_LEN && PKG_NAMES[i]@ == name@ && r->Ok_0 == PKG_VERSIONS[i]
        }),
        r is Err ==> final(st).installed@ == old(st).installed@,
{
    let pkg = match find(name) {
        Some(p) => p,
        None => return Err("package not in registry"),
    };
    if !payload_present {
        return Err("package payload missing on /disk");
    }
    if is_installed(st, name) {
        return Err("already installed");
    }
    st.installed.push(crate::text::owned(pkg.name));
    assert(installed_names(st) =~= installed_names(old(st)).push(name@));
    Ok(pkg.version)
}

/// Remove an installed package ("not installed" otherwise).
pub fn remove(st: &mut PkgState, name: &str) -> (r: Result<(), &'static str>)
    ensures
        !installed_names(old(st)).contains(name@) ==> r is Err && r->Err_0@ == "not installed"@
            && final(st).installed@ == old(st).installed@,
        installed_names(old(st)).contains(name@) ==> r is Ok && exists|p: int| 0 <= p < old(st).installed@.len()
            && old(st).installed@[p]@ == name@ && (forall|j: int| 0 <= j < p ==> old(st).installed@[j]@ != name@)
            && final(st).installed@ == old(st).installed@.remove(p),
{
    match position(st, name) {
        Some(p) => {
            st.installed.remove(p);
            Ok(())
        },
        None => Err("not installed"),
    }
}

fn put_name<const N: usize>(dst: &mut [u8; N], src: &str)
    requires
        N >= 1,
    ensures
        forall|k: int| 0 <= k < N ==> final(dst)@[k] == if k < src.spec_bytes().len() && k < N - 1 {
            src.spec_bytes()[k]
        } else if k == (if src.spec_bytes().len() < N - 1 { src.spec_bytes().len() as int } else { N - 1 }) {
            0u8
        } else {
            old(dst)@[k]
        },
{
    let b = src.as_bytes();
    let n = if b.len() < N - 1 { b.len() } else { N - 1 };
    let mut i: usize = 0;
    while i < n
        invariant
            n <= N - 1,
            n <= b@.len(),
            b@ == src.spec_bytes(),
            n == (if src.spec_bytes().len() < N - 1 { src.spec_bytes().len() as int } else { N - 1 }),
            i <= n,
            forall|k: int| 0 <= k < i ==> dst@[k] == b@[k],
            forall|k: int| i <= k < N ==> dst@[k] == old(dst)@[k],
        decreases n - i,
    {
        dst[i] = b[i];
        i = i + 1;
    }
    dst[n] = 0;
}

/// Fill `out` with registry entries (NUL-terminated name and category,
/// truncated to fit, plus installed state) for the PKG_LIST syscall. Returns
/// the number written (the registry size capped to `out.len()`).
pub fn list(st: &PkgState, out: &mut [PkgInfo]) -> (n: usize)
    ensures
        n == (if old(out)@.len() < REGISTRY_LEN { old(out)@.len() as int } else { REGISTRY_LEN as int }),
        final(out)@.len() == old(out)@.len(),
        forall|k: int| n <= k < old(out)@.len() ==> final(out)@[k] == old(out)@[k],
        forall|k: int| 0 <= k < n ==> (#[trigger] final(out)@[k]).installed == (if installed_names(st).contains(PKG_NAMES[k]@) { 1u64 } else { 0u64 }),
        forall|k: int| 0 <= k < n ==> (#[trigger] final(out)@[k]).name@[0] == (if PKG_NAMES[k].spec_bytes().len() > 0 { PKG_NAMES[k].spec_bytes()[0] } else { 0u8 }),
{
    let mut n: usize = 0;
    while n < REGISTRY_LEN && n < out.len()
        invariant
            n <= REGISTRY_LEN,
            n <= out@.len(),
            out@.len() == old(out)@.len(),
            forall|k: int| n <= k < out@.len() ==> out@[k] == old(out)@[k],
            forall|k: int| 0 <= k < n ==> (#[trigger] out@[k]).installed == (if installed_names(st).contains(PKG_NAMES[k]@) { 1u64 } else { 0u64 }),
            forall|k: int| 0 <= k < n ==> (#[trigger] out@[k]).name@[0] == (if PKG_NAMES[k].spec_bytes().len() > 0 { PKG_NAMES[k].spec_bytes()[0] } else { 0u8 }),
        decreases REGISTRY_LEN - n,
    {
        let pkg = package_at(n);
        let mut e = PkgInfo { name: [0; 24], category: [0; 16], installed: 0 };
        put_name(&mut e.name, pkg.name);
        put_name(&mut e.category, pkg.category);
        e.installed = if is_installed(st, pkg.name) { 1 } else { 0 };
        out[n] = e;
        n = n + 1;
    }
    n
}

} // verus!
