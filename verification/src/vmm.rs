//! Virtualization manager and a software virtual machine ("BZVM"): a
//! fetch/decode/execute CPU with eight registers, linear guest memory, a
//! stack, virtio-style I/O ports, a RAM-backed virtual disk and state
//! snapshots. A tiny guest ("NanoOS") is assembled and runs on it.
//!
//! Instructions are 8 bytes: `[op, rd, rs, pad, imm:u32-le]`. The
//! instruction set's meaning is [`step`]; running the CPU is repeating it.

use vstd::prelude::*;
use crate::bytes::{le32, u32_at, to_vec, push_all};
use vstd::utf8::{encode_utf8, is_ascii_chars};
use crate::interrupts::TickCounter;
use crate::text::{all_digits, decimal, owned, parse_u32, push_decimal, push_str, string_push, u32_text};

verus! {

pub const NOP: u8 = 0x00;
/// `rd = imm`
pub const MOVI: u8 = 0x01;
/// `rd = r[rs]`
pub const MOV: u8 = 0x02;
/// `rd += r[rs]`
pub const ADD: u8 = 0x03;
/// `rd -= r[rs]`
pub const SUB: u8 = 0x04;
/// `rd *= r[rs]`
pub const MUL: u8 = 0x05;
/// `rd += imm`
pub const ADDI: u8 = 0x06;
pub const AND: u8 = 0x07;
pub const OR: u8 = 0x08;
pub const XOR: u8 = 0x09;
/// `zf = (r[rd] == r[rs])`
pub const CMP: u8 = 0x0A;
/// `zf = (r[rd] == imm)`
pub const CMPI: u8 = 0x0B;
pub const JMP: u8 = 0x0C;
pub const JZ: u8 = 0x0D;
pub const JNZ: u8 = 0x0E;
/// `rd = mem[r[rs] + imm]`
pub const LOADB: u8 = 0x0F;
/// `mem[r[rd] + imm] = r[rs]`
pub const STOREB: u8 = 0x10;
/// `port(imm) <- r[rs]`
pub const OUT: u8 = 0x11;
/// `rd <- port(imm)`
pub const IN: u8 = 0x12;
pub const PUSH: u8 = 0x13;
pub const POP: u8 = 0x14;
pub const CALL: u8 = 0x15;
pub const RET: u8 = 0x16;
pub const HLT: u8 = 0xFF;

/// Append a byte to the console as a character.
pub const PORT_CONSOLE_CHAR: u32 = 0;
/// Append a value to the console in decimal.
pub const PORT_CONSOLE_NUM: u32 = 1;
/// Append a byte to the virtual disk.
pub const PORT_DISK_WRITE: u32 = 2;
/// Read the host timer.
pub const PORT_HOST_TICK: u32 = 3;

/// Guest strings live from here (code stays below).
pub const DATA_BASE: u32 = 0x600;

/// The step budget of one run: a guest cannot hang the host.
pub const MAX_STEPS: u64 = 100_000;

/// One line of guest assembly: a label, or an instruction whose immediate
/// is either given or the address of a label (`tgt`).
pub enum Tok {
    Label(&'static str),
    Ins { op: u8, rd: u8, rs: u8, imm: u32, tgt: Option<&'static str> },
}

/// An instruction with a literal immediate.
pub fn ins(op: u8, rd: u8, rs: u8, imm: u32) -> (t: Tok)
    ensures
        t == (Tok::Ins { op, rd, rs, imm, tgt: None }),
{
    Tok::Ins { op, rd, rs, imm, tgt: None }
}

/// A jump or call to a label.
pub fn jump(op: u8, tgt: &'static str) -> (t: Tok)
    ensures
        t == (Tok::Ins { op, rd: 0, rs: 0, imm: 0, tgt: Some(tgt) }),
{
    Tok::Ins { op, rd: 0, rs: 0, imm: 0, tgt: Some(tgt) }
}

/// A label.
pub fn label(n: &'static str) -> (t: Tok)
    ensures
        t == Tok::Label(n),
{
    Tok::Label(n)
}

/// Instructions among the first `n` lines.
pub open spec fn ins_count(toks: Seq<Tok>, n: nat) -> nat
    decreases n,
{
    if n == 0 {
        0
    } else {
        ins_count(toks, (n - 1) as nat) + (if toks[n - 1] is Ins { 1nat } else { 0nat })
    }
}

/// The labels among the first `n` lines, in order, each with its address
/// (8 bytes per instruction before it).
pub open spec fn label_table(toks: Seq<Tok>, n: nat) -> Seq<(Seq<char>, u32)>
    decreases n,
{
    if n == 0 {
        seq![]
    } else {
        let t = label_table(toks, (n - 1) as nat);
        match toks[n - 1] {
            Tok::Label(l) => t.push((l@, (8 * ins_count(toks, (n - 1) as nat)) as u32)),
            _ => t,
        }
    }
}

/// The address of `name` in a label table: its last definition, or 0 when
/// it is not defined.
pub open spec fn lookup_label(t: Seq<(Seq<char>, u32)>, name: Seq<char>) -> u32
    decreases t.len(),
{
    if t.len() == 0 {
        0
    } else {
        let (l, a) = t.last();
        if l == name { a } else { lookup_label(t.drop_last(), name) }
    }
}

/// The eight bytes of one instruction line, its label resolved in `t`.
pub open spec fn encode_ins(tok: Tok, t: Seq<(Seq<char>, u32)>) -> Seq<u8> {
    match tok {
        Tok::Ins { op, rd, rs, imm, tgt } => {
            let v = match tgt {
                Some(n) => lookup_label(t, n@),
                None => imm,
            };
            seq![op, rd, rs, 0u8] + le32_bytes(v)
        },
        _ => seq![],
    }
}

/// The machine code of the first `n` lines, labels resolved in `t`.
pub open spec fn image(toks: Seq<Tok>, n: nat, t: Seq<(Seq<char>, u32)>) -> Seq<u8>
    decreases n,
{
    if n == 0 {
        seq![]
    } else {
        image(toks, (n - 1) as nat, t) + encode_ins(toks[n - 1], t)
    }
}

/// The machine code of a whole program.
pub open spec fn assembled(toks: Seq<Tok>) -> Seq<u8> {
    image(toks, toks.len(), label_table(toks, toks.len()))
}

proof fn lemma_ins_count_bound(toks: Seq<Tok>, n: nat)
    ensures
        ins_count(toks, n) <= n,
    decreases n,
{
    if n > 0 {
        lemma_ins_count_bound(toks, (n - 1) as nat);
    }
}

proof fn lemma_image_len(toks: Seq<Tok>, n: nat, t: Seq<(Seq<char>, u32)>)
    ensures
        image(toks, n, t).len() == 8 * ins_count(toks, n),
    decreases n,
{
    if n > 0 {
        lemma_image_len(toks, (n - 1) as nat, t);
    }
}

/// Pairs a list of label names with their addresses.
pub open spec fn zip_labels(names: Seq<&'static str>, addrs: Seq<u32>) -> Seq<(Seq<char>, u32)> {
    Seq::new(names.len(), |j: int| (names[j]@, addrs[j]))
}

/// The address of label `name` (last definition wins; 0 when undefined).
fn find_label(names: &Vec<&'static str>, addrs: &Vec<u32>, name: &str) -> (a: u32)
    requires
        names@.len() == addrs@.len(),
    ensures
        a == lookup_label(zip_labels(names@, addrs@), name@),
{
    let ghost t = zip_labels(names@, addrs@);
    let mut i = names.len();
    assert(t.subrange(0, i as int) =~= t);
    while i > 0
        invariant
            i <= names@.len() == addrs@.len(),
            t == zip_labels(names@, addrs@),
            lookup_label(t, name@) == lookup_label(t.subrange(0, i as int), name@),
        decreases i,
    {
        let ghost sub = t.subrange(0, i as int);
        assert(sub.drop_last() =~= t.subrange(0, i - 1));
        if crate::text::str_eq(names[i - 1], name) {
            return addrs[i - 1];
        }
        i = i - 1;
    }
    0
}

/// Appends one instruction's eight bytes.
fn emit(out: &mut Vec<u8>, op: u8, rd: u8, rs: u8, v: u32)
    ensures
        final(out)@ == old(out)@ + (seq![op, rd, rs, 0u8] + le32_bytes(v)),
{
    out.push(op);
    out.push(rd);
    out.push(rs);
    out.push(0);
    out.push((v & 0xFF) as u8);
    out.push(((v >> 8) & 0xFF) as u8);
    out.push(((v >> 16) & 0xFF) as u8);
    out.push(((v >> 24) & 0xFF) as u8);
    assert(final(out)@ =~= old(out)@ + (seq![op, rd, rs, 0u8] + le32_bytes(v)));
}

/// Two-pass assembler: collect label addresses, then encode every
/// instruction as `[op, rd, rs, 0, imm:u32-le]`, a label target taking the
/// label's address.
pub fn assemble(toks: &[Tok]) -> (code: Vec<u8>)
    requires
        toks@.len() < 0x2000_0000,
    ensures
        code@ == assembled(toks@),
        code@.len() == 8 * ins_count(toks@, toks@.len()),
{
    let mut names: Vec<&'static str> = Vec::new();
    let mut addrs: Vec<u32> = Vec::new();
    let mut addr: u32 = 0;
    let mut i: usize = 0;
    while i < toks.len()
        invariant
            i <= toks@.len() < 0x2000_0000,
            names@.len() == addrs@.len(),
            zip_labels(names@, addrs@) == label_table(toks@, i as nat),
            addr == 8 * ins_count(toks@, i as nat),
        decreases toks@.len() - i,
    {
        proof { lemma_ins_count_bound(toks@, i as nat); }
        match &toks[i] {
            Tok::Label(n) => {
                names.push(*n);
                addrs.push(addr);
            },
            Tok::Ins { .. } => {
                addr = addr + 8;
            },
        }
        i = i + 1;
        assert(zip_labels(names@, addrs@) =~= label_table(toks@, i as nat));
    }
    let ghost t = label_table(toks@, toks@.len());
    let mut out: Vec<u8> = Vec::new();
    let mut i: usize = 0;
    while i < toks.len()
        invariant
            i <= toks@.len(),
            names@.len() == addrs@.len(),
            zip_labels(names@, addrs@) == t,
            t == label_table(toks@, toks@.len()),
            out@ == image(toks@, i as nat, t),
        decreases toks@.len() - i,
    {
        match &toks[i] {
            Tok::Ins { op, rd, rs, imm, tgt } => {
                let v = match tgt {
                    Some(n) => find_label(&names, &addrs, n),
                    None => *imm,
                };
                emit(&mut out, *op, *rd, *rs, v);
            },
            Tok::Label(_) => {},
        }
        i = i + 1;
    }
    proof { lemma_image_len(toks@, toks@.len(), t); }
    out
}

/// The guest's four messages: banner, sum label, tick label, farewell.
pub open spec fn guest_texts() -> Seq<Seq<char>> {
    seq![
        "NanoOS v0.1 (guest) boot di atas Buitenzorg VMM\n"@,
        "  hitung 1..10 = "@,
        "  host tick (guest tools) = "@,
        "NanoOS halted. sampai jumpa.\n"@,
    ]
}

/// Texts laid out as NUL-terminated UTF-8 strings, one after another.
pub open spec fn cstrings(ss: Seq<Seq<char>>) -> Seq<u8>
    decreases ss.len(),
{
    if ss.len() == 0 {
        seq![]
    } else {
        cstrings(ss.drop_last()) + encode_utf8(ss.last()) + seq![0u8]
    }
}

proof fn lemma_ascii_len(s: Seq<char>)
    requires
        is_ascii_chars(s),
    ensures
        encode_utf8(s).len() == s.len(),
{
    vstd::utf8::is_ascii_chars_encode_utf8(s);
}

proof fn lemma_guest_texts()
    ensures
        encode_utf8(guest_texts()[0]).len() == 48,
        encode_utf8(guest_texts()[1]).len() == 17,
        encode_utf8(guest_texts()[2]).len() == 28,
        encode_utf8(guest_texts()[3]).len() == 29,
{
    reveal_strlit("NanoOS v0.1 (guest) boot di atas Buitenzorg VMM\n");
    reveal_strlit("  hitung 1..10 = ");
    reveal_strlit("  host tick (guest tools) = ");
    reveal_strlit("NanoOS halted. sampai jumpa.\n");
    lemma_ascii_len(guest_texts()[0]);
    lemma_ascii_len(guest_texts()[1]);
    lemma_ascii_len(guest_texts()[2]);
    lemma_ascii_len(guest_texts()[3]);
}

/// The guest's data blob (its messages as NUL-terminated strings) and each
/// message's guest address, the blob being loaded at [`DATA_BASE`].
pub fn guest_data() -> (r: (Vec<u8>, [u32; 4]))
    ensures
        r.0@ == cstrings(guest_texts()),
        r.0@.len() == 126,
        forall|k: int| 0 <= k < 4 ==> r.1@[k] == DATA_BASE + cstrings(#[trigger] guest_texts().take(k)).len(),
{
    let strings: [&str; 4] = [
        "NanoOS v0.1 (guest) boot di atas Buitenzorg VMM\n",
        "  hitung 1..10 = ",
        "  host tick (guest tools) = ",
        "NanoOS halted. sampai jumpa.\n",
    ];
    let ghost texts = guest_texts();
    proof { lemma_guest_texts(); }
    let mut blob: Vec<u8> = Vec::new();
    let mut addrs: [u32; 4] = [0; 4];
    let mut k: usize = 0;
    while k < 4
        invariant
            k <= 4,
            texts == guest_texts(),
            forall|j: int| 0 <= j < 4 ==> (#[trigger] strings@[j])@ == texts[j],
            encode_utf8(texts[0]).len() == 48 && encode_utf8(texts[1]).len() == 17,
            encode_utf8(texts[2]).len() == 28 && encode_utf8(texts[3]).len() == 29,
            blob@ == cstrings(texts.take(k as int)),
            blob@.len() == (if k == 0 { 0int } else if k == 1 { 49int } else if k == 2 { 67int } else if k == 3 { 96int } else { 126int }),
            forall|j: int| 0 <= j < k ==> addrs@[j] == DATA_BASE + cstrings(#[trigger] texts.take(j)).len(),
        decreases 4 - k,
    {
        addrs[k] = DATA_BASE + blob.len() as u32;
        let s = strings[k];
        push_all(&mut blob, s.as_bytes());
        blob.push(0);
        proof {
            assert(texts.take(k + 1).drop_last() =~= texts.take(k as int));
        }
        k = k + 1;
    }
    proof { assert(texts.take(4) =~= texts); }
    (blob, addrs)
}

/// An instruction line with a literal immediate.
pub open spec fn itok(op: u8, rd: u8, rs: u8, imm: u32) -> Tok {
    Tok::Ins { op, rd, rs, imm, tgt: None }
}

/// An instruction line targeting a label.
pub open spec fn jtok(op: u8, n: &'static str) -> Tok {
    Tok::Ins { op, rd: 0, rs: 0, imm: 0, tgt: Some(n) }
}

/// The NanoOS guest program, its four messages at `a[0..4]`: print the
/// banner, print the sum 1..10 (computed in a loop), print the host tick
/// read through the guest-tools port, print the farewell, halt. Registers:
/// r0 scratch, r1 string pointer, r2 character, r5 value, r6 counter.
pub open spec fn nano_tokens(a: Seq<u32>) -> Seq<Tok> {
    seq![
        itok(MOVI, 1, 0, a[0]), jtok(CALL, "print_str"),
        itok(MOVI, 1, 0, a[1]), jtok(CALL, "print_str"),
        itok(MOVI, 5, 0, 0), itok(MOVI, 6, 0, 1),
        Tok::Label("loop_sum"),
        itok(CMPI, 6, 0, 11), jtok(JZ, "done_sum"),
        itok(ADD, 5, 6, 0), itok(ADDI, 6, 0, 1), jtok(JMP, "loop_sum"),
        Tok::Label("done_sum"),
        itok(OUT, 0, 5, PORT_CONSOLE_NUM), itok(MOVI, 0, 0, 10), itok(OUT, 0, 0, PORT_CONSOLE_CHAR),
        itok(MOVI, 1, 0, a[2]), jtok(CALL, "print_str"),
        itok(IN, 5, 0, PORT_HOST_TICK), itok(OUT, 0, 5, PORT_CONSOLE_NUM),
        itok(MOVI, 0, 0, 10), itok(OUT, 0, 0, PORT_CONSOLE_CHAR),
        itok(MOVI, 1, 0, a[3]), jtok(CALL, "print_str"),
        itok(HLT, 0, 0, 0),
        Tok::Label("print_str"), Tok::Label("ps_loop"),
        itok(LOADB, 2, 1, 0), itok(CMPI, 2, 0, 0), jtok(JZ, "ps_end"),
        itok(OUT, 0, 2, PORT_CONSOLE_CHAR), itok(ADDI, 1, 0, 1), jtok(JMP, "ps_loop"),
        Tok::Label("ps_end"),
        itok(RET, 0, 0, 0),
    ]
}

/// The NanoOS program lines (see [`nano_tokens`]).
pub fn nano_program(a: &[u32; 4]) -> (p: Vec<Tok>)
    ensures
        p@ == nano_tokens(a@),
{
    let p = vec![
        ins(MOVI, 1, 0, a[0]), jump(CALL, "print_str"),
        ins(MOVI, 1, 0, a[1]), jump(CALL, "print_str"),
        ins(MOVI, 5, 0, 0), ins(MOVI, 6, 0, 1),
        label("loop_sum"),
        ins(CMPI, 6, 0, 11), jump(JZ, "done_sum"),
        ins(ADD, 5, 6, 0), ins(ADDI, 6, 0, 1), jump(JMP, "loop_sum"),
        label("done_sum"),
        ins(OUT, 0, 5, PORT_CONSOLE_NUM), ins(MOVI, 0, 0, 10), ins(OUT, 0, 0, PORT_CONSOLE_CHAR),
        ins(MOVI, 1, 0, a[2]), jump(CALL, "print_str"),
        ins(IN, 5, 0, PORT_HOST_TICK), ins(OUT, 0, 5, PORT_CONSOLE_NUM),
        ins(MOVI, 0, 0, 10), ins(OUT, 0, 0, PORT_CONSOLE_CHAR),
        ins(MOVI, 1, 0, a[3]), jump(CALL, "print_str"),
        ins(HLT, 0, 0, 0),
        label("print_str"), label("ps_loop"),
        ins(LOADB, 2, 1, 0), ins(CMPI, 2, 0, 0), jump(JZ, "ps_end"),
        ins(OUT, 0, 2, PORT_CONSOLE_CHAR), ins(ADDI, 1, 0, 1), jump(JMP, "ps_loop"),
        label("ps_end"),
        ins(RET, 0, 0, 0),
    ];
    assert(p@ =~= nano_tokens(a@));
    p
}

/// The guest addresses of the four messages.
pub open spec fn guest_addrs() -> Seq<u32> {
    Seq::new(4, |k: int| (DATA_BASE + cstrings(guest_texts().take(k)).len()) as u32)
}

/// The NanoOS machine code.
pub open spec fn nano_code() -> Seq<u8> {
    assembled(nano_tokens(guest_addrs()))
}

/// Assemble the NanoOS guest: its machine code and its data blob.
pub fn build_nano_guest() -> (r: (Vec<u8>, Vec<u8>))
    ensures
        r.0@ == nano_code(),
        r.0@.len() <= 280,
        r.1@ == cstrings(guest_texts()),
        r.1@.len() == 126,
{
    let (blob, a) = guest_data();
    assert(a@ =~= guest_addrs());
    let prog = nano_program(&a);
    proof { lemma_ins_count_bound(prog@, prog@.len()); }
    let code = assemble(prog.as_slice());
    (code, blob)
}

/// Guest memory of `n` bytes right after boot: zeros, the code at 0 and
/// the data blob at [`DATA_BASE`] (the blob written last).
pub open spec fn boot_image(n: nat) -> Seq<u8> {
    let code = nano_code();
    let data = cstrings(guest_texts());
    Seq::new(n, |i: int| if DATA_BASE <= i < DATA_BASE + data.len() { data[i - DATA_BASE] }
        else if i < code.len() { code[i] } else { 0u8 })
}

/// The machine right after loading the guest into memory of `n` bytes; the
/// virtual disk is kept.
pub open spec fn boot_cpu(n: nat, disk: Seq<u8>) -> Cpu {
    Cpu { mem: boot_image(n), regs: Seq::new(8, |i: int| 0u32), sp: n as u32, pc: 0, zf: false, disk,
        console: Seq::empty(), steps: 0, state: State::Created }
}

/// `n` bytes of memory holding `code` at 0 and `data` at [`DATA_BASE`].
fn load_image(n: usize, code: &Vec<u8>, data: &Vec<u8>) -> (m: Vec<u8>)
    requires
        DATA_BASE + data@.len() <= n,
    ensures
        m@ == Seq::new(n as nat, |i: int| if DATA_BASE <= i < DATA_BASE + data@.len() { data@[i - DATA_BASE] }
            else if i < code@.len() { code@[i] } else { 0u8 }),
{
    let ghost want = Seq::new(n as nat, |i: int| if DATA_BASE <= i < DATA_BASE + data@.len() { data@[i - DATA_BASE] }
        else if i < code@.len() { code@[i] } else { 0u8 });
    let db = DATA_BASE as usize;
    let mut m: Vec<u8> = Vec::new();
    let mut i: usize = 0;
    while i < n
        invariant
            i <= n,
            db == DATA_BASE,
            DATA_BASE + data@.len() <= n,
            m@ == want.take(i as int),
            want == Seq::new(n as nat, |i: int| if DATA_BASE <= i < DATA_BASE + data@.len() { data@[i - DATA_BASE] }
                else if i < code@.len() { code@[i] } else { 0u8 }),
        decreases n - i,
    {
        let b = if db <= i && i < db + data.len() { data[i - db] } else if i < code.len() { code[i] } else { 0u8 };
        m.push(b);
        i = i + 1;
        assert(m@ =~= want.take(i as int));
    }
    assert(want.take(n as int) =~= want);
    m
}

/// VM lifecycle state.
#[derive(Clone, Copy, PartialEq, Eq, Debug, Structural)]
pub enum State {
    Created,
    Halted,
    Faulted,
}

impl State {
    /// "created", "halted" or "faulted".
    pub fn name(self) -> (s: &'static str)
        ensures
            self == State::Created ==> s == "created",
            self == State::Halted ==> s == "halted",
            self == State::Faulted ==> s == "faulted",
    {
        match self {
            State::Created => "created",
            State::Halted => "halted",
            State::Faulted => "faulted",
        }
    }
}

/// The CPU-visible machine state.
pub struct Cpu {
    pub mem: Seq<u8>,
    pub regs: Seq<u32>,
    pub sp: u32,
    pub pc: u32,
    pub zf: bool,
    pub disk: Seq<u8>,
    pub console: Seq<char>,
    pub steps: u64,
    pub state: State,
}

/// The four little-endian bytes of `v`.
pub open spec fn le32_bytes(v: u32) -> Seq<u8> {
    seq![(v & 0xFF) as u8, ((v >> 8u32) & 0xFF) as u8, ((v >> 16u32) & 0xFF) as u8, ((v >> 24u32) & 0xFF) as u8]
}

/// `mem` with the four bytes of `v` written at `a`.
pub open spec fn write32(mem: Seq<u8>, a: int, v: u32) -> Seq<u8> {
    Seq::new(mem.len(), |i: int| if a <= i < a + 4 { le32_bytes(v)[i - a] } else { mem[i] })
}

/// `c` stopped in state `st`.
pub open spec fn stop(c: Cpu, st: State) -> (Cpu, bool) {
    (Cpu { state: st, ..c }, false)
}

/// Register `r` of `c` set to `v`.
pub open spec fn set_reg(c: Cpu, r: int, v: u32) -> Cpu {
    Cpu { regs: c.regs.update(r, v), ..c }
}

/// The effect of writing `val` to port `port`.
pub open spec fn device_out_spec(c: Cpu, port: u32, val: u32) -> Cpu {
    if port == PORT_CONSOLE_CHAR {
        Cpu { console: c.console.push((val as u8) as char), ..c }
    } else if port == PORT_CONSOLE_NUM {
        Cpu { console: c.console + decimal(val as nat), ..c }
    } else if port == PORT_DISK_WRITE {
        Cpu { disk: c.disk.push(val as u8), ..c }
    } else {
        c
    }
}

/// One instruction: the machine after it, and whether the CPU keeps
/// running. The budget, a fetch past memory, a memory or stack access past
/// memory, `HLT` and an unknown opcode stop it (faulted, except `HLT`).
pub open spec fn step(c: Cpu, tick: u32) -> (Cpu, bool) {
    if c.steps >= MAX_STEPS {
        stop(c, State::Faulted)
    } else if c.pc + 8 > c.mem.len() {
        stop(c, State::Faulted)
    } else {
        let pc = c.pc as int;
        let op = c.mem[pc];
        let rd = (c.mem[pc + 1] & 7) as int;
        let rs = (c.mem[pc + 2] & 7) as int;
        let imm = le32(c.mem, pc + 4) as u32;
        let c1 = Cpu { pc: (c.pc + 8) as u32, steps: (c.steps + 1) as u64, ..c };
        let r = c1.regs;
        if op == NOP {
            (c1, true)
        } else if op == MOVI {
            (set_reg(c1, rd, imm), true)
        } else if op == MOV {
            (set_reg(c1, rd, r[rs]), true)
        } else if op == ADD {
            (set_reg(c1, rd, r[rd].wrapping_add(r[rs])), true)
        } else if op == SUB {
            (set_reg(c1, rd, r[rd].wrapping_sub(r[rs])), true)
        } else if op == MUL {
            (set_reg(c1, rd, r[rd].wrapping_mul(r[rs])), true)
        } else if op == ADDI {
            (set_reg(c1, rd, r[rd].wrapping_add(imm)), true)
        } else if op == AND {
            (set_reg(c1, rd, r[rd] & r[rs]), true)
        } else if op == OR {
            (set_reg(c1, rd, r[rd] | r[rs]), true)
        } else if op == XOR {
            (set_reg(c1, rd, r[rd] ^ r[rs]), true)
        } else if op == CMP {
            (Cpu { zf: r[rd] == r[rs], ..c1 }, true)
        } else if op == CMPI {
            (Cpu { zf: r[rd] == imm, ..c1 }, true)
        } else if op == JMP {
            (Cpu { pc: imm, ..c1 }, true)
        } else if op == JZ {
            (if c1.zf { Cpu { pc: imm, ..c1 } } else { c1 }, true)
        } else if op == JNZ {
            (if !c1.zf { Cpu { pc: imm, ..c1 } } else { c1 }, true)
        } else if op == LOADB {
            let a = r[rs].wrapping_add(imm) as int;
            if a < c1.mem.len() { (set_reg(c1, rd, c1.mem[a] as u32), true) } else { stop(c1, State::Faulted) }
        } else if op == STOREB {
            let a = r[rd].wrapping_add(imm) as int;
            if a < c1.mem.len() { (Cpu { mem: c1.mem.update(a, r[rs] as u8), ..c1 }, true) } else { stop(c1, State::Faulted) }
        } else if op == OUT {
            (device_out_spec(c1, imm, r[rs]), true)
        } else if op == IN {
            (set_reg(c1, rd, if imm == PORT_HOST_TICK { tick } else { 0 }), true)
        } else if op == PUSH {
            let sp = c1.sp.wrapping_sub(4);
            let c2 = Cpu { sp: sp, ..c1 };
            if sp + 4 <= c1.mem.len() { (Cpu { mem: write32(c1.mem, sp as int, r[rd]), ..c2 }, true) } else { stop(c2, State::Faulted) }
        } else if op == POP {
            if c1.sp + 4 <= c1.mem.len() {
                (Cpu { sp: c1.sp.wrapping_add(4), ..set_reg(c1, rd, le32(c1.mem, c1.sp as int) as u32) }, true)
            } else {
                stop(c1, State::Faulted)
            }
        } else if op == CALL {
            let sp = c1.sp.wrapping_sub(4);
            let c2 = Cpu { sp: sp, ..c1 };
            if sp + 4 <= c1.mem.len() { (Cpu { mem: write32(c1.mem, sp as int, c1.pc), pc: imm, ..c2 }, true) } else { stop(c2, State::Faulted) }
        } else if op == RET {
            if c1.sp + 4 <= c1.mem.len() {
                (Cpu { pc: le32(c1.mem, c1.sp as int) as u32, sp: c1.sp.wrapping_add(4), ..c1 }, true)
            } else {
                stop(c1, State::Faulted)
            }
        } else if op == HLT {
            stop(c1, State::Halted)
        } else {
            stop(c1, State::Faulted)
        }
    }
}

/// The machine after up to `k` steps (stopping early when the CPU stops).
pub open spec fn run_spec(c: Cpu, tick: u32, k: nat) -> (Cpu, bool)
    decreases k,
{
    if k == 0 {
        (c, true)
    } else {
        let p = run_spec(c, tick, (k - 1) as nat);
        if !p.1 { p } else { step(p.0, tick) }
    }
}

/// A saved machine state.
pub struct Snapshot {
    pub mem: Vec<u8>,
    pub regs: [u32; 8],
    pub sp: u32,
    pub pc: u32,
    pub zf: bool,
    pub disk: Vec<u8>,
    pub console: String,
    pub steps: u64,
    pub state: State,
}

/// A virtual machine.
pub struct Vm {
    pub id: u32,
    pub name: String,
    pub mem_kib: u32,
    pub vcpus: u32,
    pub disk_kib: u32,
    pub state: State,
    pub mem: Vec<u8>,
    pub regs: [u32; 8],
    pub sp: u32,
    pub pc: u32,
    pub zf: bool,
    pub disk: Vec<u8>,
    pub console: String,
    pub steps: u64,
    pub snap: Option<Snapshot>,
}

impl Snapshot {
    /// The machine state saved.
    pub open spec fn cpu(&self) -> Cpu {
        Cpu { mem: self.mem@, regs: self.regs@, sp: self.sp, pc: self.pc, zf: self.zf, disk: self.disk@,
            console: self.console@, steps: self.steps, state: self.state }
    }
}

impl Vm {
    /// The machine state.
    pub open spec fn cpu(&self) -> Cpu {
        Cpu { mem: self.mem@, regs: self.regs@, sp: self.sp, pc: self.pc, zf: self.zf, disk: self.disk@,
            console: self.console@, steps: self.steps, state: self.state }
    }

    /// Memory is 4 KiB to 1 MiB (`mem_kib` KiB), as is any snapshot's.
    pub open spec fn wf(&self) -> bool {
        &&& 4 <= self.mem_kib <= 1024
        &&& self.mem@.len() == self.mem_kib * 1024
        &&& self.snap is Some ==> self.snap->0.mem@.len() == self.mem@.len()
    }
}

/// `after` is `before` with its machine state saved as the snapshot.
pub open spec fn snapshot_taken(before: Vm, after: Vm) -> bool {
    &&& after.cpu() == before.cpu()
    &&& after.snap matches Some(sn) && sn.cpu() == before.cpu()
}

/// `after` is `before` with its snapshot put back (`ok`), or unchanged when
/// it has none; the snapshot itself is kept.
pub open spec fn snapshot_restored(before: Vm, after: Vm, ok: bool) -> bool {
    &&& ok == before.snap is Some
    &&& after.snap == before.snap
    &&& after.cpu() == match before.snap { Some(sn) => sn.cpu(), None => before.cpu() }
}

/// Restoring after a snapshot gives back the machine state at the snapshot,
/// whatever happened to the machine in between, as long as the snapshot was
/// kept.
pub proof fn lemma_restore_after_snapshot(v0: Vm, v1: Vm, v2: Vm, v3: Vm, ok: bool)
    requires
        snapshot_taken(v0, v1),
        v2.snap == v1.snap,
        snapshot_restored(v2, v3, ok),
    ensures
        ok,
        v3.cpu() == v0.cpu(),
{
}

/// Read the little-endian `u32` at `a`, if it fits in memory.
fn rd_u32(mem: &Vec<u8>, addr: u32) -> (r: Option<u32>)
    ensures
        addr + 4 <= mem@.len() ==> r == Some(le32(mem@, addr as int) as u32),
        !(addr + 4 <= mem@.len()) ==> r is None,
{
    let a = addr as u64;
    if a + 4 <= mem.len() as u64 {
        Some(u32_at(mem.as_slice(), addr as usize) as u32)
    } else {
        None
    }
}

/// Write `v` little-endian at `a`, if it fits in memory.
fn wr_u32(mem: &mut Vec<u8>, addr: u32, v: u32) -> (ok: bool)
    ensures
        ok == (addr + 4 <= old(mem)@.len()),
        ok ==> final(mem)@ == write32(old(mem)@, addr as int, v),
        !ok ==> final(mem)@ == old(mem)@,
{
    let a = addr as u64;
    if a + 4 <= mem.len() as u64 {
        let ai = addr as usize;
        let ghost m0 = mem@;
        mem.set(ai, (v & 0xFF) as u8);
        mem.set(ai + 1, ((v >> 8) & 0xFF) as u8);
        mem.set(ai + 2, ((v >> 16) & 0xFF) as u8);
        mem.set(ai + 3, ((v >> 24) & 0xFF) as u8);
        assert(mem@ =~= write32(m0, addr as int, v));
        true
    } else {
        false
    }
}

impl Vm {
    /// The configuration (id, name, sizes) of `self` and `other` agree.
    pub open spec fn same_config(&self, other: &Vm) -> bool {
        &&& self.id == other.id && self.name == other.name
        &&& self.mem_kib == other.mem_kib && self.vcpus == other.vcpus && self.disk_kib == other.disk_kib
    }

    /// Fresh boot: guest memory reloaded with the NanoOS image, registers
    /// cleared, stack at the top of memory, console emptied, state
    /// `Created`. The virtual disk and any snapshot are kept.
    pub fn reset_and_load(&mut self)
        requires
            old(self).wf(),
        ensures
            final(self).wf(),
            final(self).cpu() == boot_cpu(old(self).mem@.len(), old(self).disk@),
            final(self).same_config(old(self)),
            final(self).snap == old(self).snap,
    {
        let (code, data) = build_nano_guest();
        let n = self.mem.len();
        self.mem = load_image(n, &code, &data);
        self.regs = [0; 8];
        self.sp = n as u32;
        self.pc = 0;
        self.zf = false;
        self.console = String::new();
        self.steps = 0;
        self.state = State::Created;
        assert(self.regs@ =~= Seq::new(8, |i: int| 0u32));
        assert(self.mem@ =~= boot_image(n as nat));
    }

    /// Save the whole machine state (memory, registers, disk, console,
    /// counters), replacing any earlier snapshot.
    pub fn take_snapshot(&mut self)
        requires
            old(self).wf(),
        ensures
            final(self).wf(),
            final(self).same_config(old(self)),
            snapshot_taken(*old(self), *final(self)),
    {
        let snap = Snapshot {
            mem: to_vec(self.mem.as_slice()),
            regs: self.regs,
            sp: self.sp,
            pc: self.pc,
            zf: self.zf,
            disk: to_vec(self.disk.as_slice()),
            console: self.console.clone(),
            steps: self.steps,
            state: self.state,
        };
        self.snap = Some(snap);
    }

    /// Put the saved machine state back; `false` (and nothing changed) when
    /// there is no snapshot.
    pub fn restore_snapshot(&mut self) -> (ok: bool)
        requires
            old(self).wf(),
        ensures
            final(self).wf(),
            final(self).same_config(old(self)),
            snapshot_restored(*old(self), *final(self), ok),
    {
        match &self.snap {
            Some(s) => {
                let m = to_vec(s.mem.as_slice());
                let d = to_vec(s.disk.as_slice());
                let c = s.console.clone();
                let (regs, sp, pc, zf, steps, st) = (s.regs, s.sp, s.pc, s.zf, s.steps, s.state);
                self.mem = m;
                self.disk = d;
                self.console = c;
                self.regs = regs;
                self.sp = sp;
                self.pc = pc;
                self.zf = zf;
                self.steps = steps;
                self.state = st;
                true
            },
            None => false,
        }
    }

    /// Write `val` to device port `port`.
    fn device_out(&mut self, port: u32, val: u32)
        ensures
            final(self).cpu() == device_out_spec(old(self).cpu(), port, val),
            final(self).mem@ == old(self).mem@,
            final(self).snap == old(self).snap,
            final(self).mem_kib == old(self).mem_kib && final(self).vcpus == old(self).vcpus
                && final(self).disk_kib == old(self).disk_kib,
            final(self).id == old(self).id && final(self).name == old(self).name,
    {
        if port == PORT_CONSOLE_CHAR {
            string_push(&mut self.console, (val as u8) as char);
        } else if port == PORT_CONSOLE_NUM {
            push_decimal(&mut self.console, val as u64);
        } else if port == PORT_DISK_WRITE {
            self.disk.push(val as u8);
        }
    }

    /// Run the virtual CPU until `HLT`, a fault, or the step budget (see
    /// [`step`]); the host-tick port reads `ticks`.
    fn run(&mut self, ticks: &TickCounter)
        requires
            old(self).wf(),
        ensures
            final(self).wf(),
            final(self).snap == old(self).snap,
            final(self).id == old(self).id && final(self).name == old(self).name,
            final(self).mem_kib == old(self).mem_kib && final(self).vcpus == old(self).vcpus
                && final(self).disk_kib == old(self).disk_kib,
            exists|k: nat| #[trigger] run_spec(old(self).cpu(), ticks.count as u32, k) == (final(self).cpu(), false),
    {
        let tick = crate::interrupts::ticks(ticks) as u32;
        let ghost c0 = self.cpu();
        let ghost mut k: nat = 0;
        let mut running = true;
        while running
            invariant
                self.wf(),
                self.snap == old(self).snap,
                self.id == old(self).id && self.name == old(self).name,
                self.mem_kib == old(self).mem_kib && self.vcpus == old(self).vcpus && self.disk_kib == old(self).disk_kib,
                tick == ticks.count as u32,
                c0 == old(self).cpu(),
                run_spec(c0, tick, k) == (self.cpu(), running),
            decreases (if self.steps < MAX_STEPS { MAX_STEPS - self.steps } else { 0int })
                + (if running { 1int } else { 0int }),
        {
            let ghost before = self.cpu();
            proof {
                assert(run_spec(c0, tick, k + 1) == step(before, tick));
            }
            if self.steps >= MAX_STEPS {
                self.state = State::Faulted;
                running = false;
            } else if self.pc as u64 + 8 > self.mem.len() as u64 {
                self.state = State::Faulted;
                running = false;
            } else {
                let pc = self.pc as usize;
                let op = self.mem[pc];
                let b1 = self.mem[pc + 1];
                let b2 = self.mem[pc + 2];
                assert(b1 & 7 < 8 && b2 & 7 < 8) by (bit_vector);
                let rd = (b1 & 7) as usize;
                let rs = (b2 & 7) as usize;
                let imm = u32_at(self.mem.as_slice(), pc + 4) as u32;
                self.pc = self.pc + 8;
                self.steps = self.steps + 1;
                if op == NOP {
                } else if op == MOVI {
                    self.regs[rd] = imm;
                } else if op == MOV {
                    self.regs[rd] = self.regs[rs];
                } else if op == ADD {
                    self.regs[rd] = self.regs[rd].wrapping_add(self.regs[rs]);
                } else if op == SUB {
                    self.regs[rd] = self.regs[rd].wrapping_sub(self.regs[rs]);
                } else if op == MUL {
                    self.regs[rd] = self.regs[rd].wrapping_mul(self.regs[rs]);
                } else if op == ADDI {
                    self.regs[rd] = self.regs[rd].wrapping_add(imm);
                } else if op == AND {
                    self.regs[rd] = self.regs[rd] & self.regs[rs];
                } else if op == OR {
                    self.regs[rd] = self.regs[rd] | self.regs[rs];
                } else if op == XOR {
                    self.regs[rd] = self.regs[rd] ^ self.regs[rs];
                } else if op == CMP {
                    self.zf = self.regs[rd] == self.regs[rs];
                } else if op == CMPI {
                    self.zf = self.regs[rd] == imm;
                } else if op == JMP {
                    self.pc = imm;
                } else if op == JZ {
                    if self.zf {
                        self.pc = imm;
                    }
                } else if op == JNZ {
                    if !self.zf {
                        self.pc = imm;
                    }
                } else if op == LOADB {
                    let a = self.regs[rs].wrapping_add(imm) as usize;
                    if a < self.mem.len() {
                        self.regs[rd] = self.mem[a] as u32;
                    } else {
                        self.state = State::Faulted;
                        running = false;
                    }
                } else if op == STOREB {
                    let a = self.regs[rd].wrapping_add(imm) as usize;
                    if a < self.mem.len() {
                        let v = self.regs[rs] as u8;
                        self.mem.set(a, v);
                    } else {
                        self.state = State::Faulted;
                        running = false;
                    }
                } else if op == OUT {
                    let v = self.regs[rs];
                    self.device_out(imm, v);
                } else if op == IN {
                    self.regs[rd] = if imm == PORT_HOST_TICK { tick } else { 0 };
                } else if op == PUSH {
                    self.sp = self.sp.wrapping_sub(4);
                    let v = self.regs[rd];
                    let sp = self.sp;
                    if !wr_u32(&mut self.mem, sp, v) {
                        self.state = State::Faulted;
                        running = false;
                    }
                } else if op == POP {
                    match rd_u32(&self.mem, self.sp) {
                        Some(v) => {
                            self.regs[rd] = v;
                            self.sp = self.sp.wrapping_add(4);
                        },
                        None => {
                            self.state = State::Faulted;
                            running = false;
                        },
                    }
                } else if op == CALL {
                    self.sp = self.sp.wrapping_sub(4);
                    let sp = self.sp;
                    let ret = self.pc;
                    if !wr_u32(&mut self.mem, sp, ret) {
                        self.state = State::Faulted;
                        running = false;
                    } else {
                        self.pc = imm;
                    }
                } else if op == RET {
                    match rd_u32(&self.mem, self.sp) {
                        Some(v) => {
                            self.pc = v;
                            self.sp = self.sp.wrapping_add(4);
                        },
                        None => {
                            self.state = State::Faulted;
                            running = false;
                        },
                    }
                } else if op == HLT {
                    self.state = State::Halted;
                    running = false;
                } else {
                    self.state = State::Faulted;
                    running = false;
                }
            }
            proof {
                assert(self.regs@ =~= step(before, tick).0.regs);
                assert(self.cpu() == step(before, tick).0);
                k = k + 1;
            }
        }
    }
}

/// A summary of one VM.
pub struct VmInfo {
    pub id: u32,
    pub name: String,
    pub mem_kib: u32,
    pub vcpus: u32,
    pub disk_kib: u32,
    pub state: State,
    pub steps: u64,
    pub has_snapshot: bool,
}

/// What a run of a VM's guest produced.
pub struct RunResult {
    pub name: String,
    pub state: State,
    pub steps: u64,
    pub console: String,
}

/// `i` is the first VM with id `id`.
pub open spec fn first_id(vms: Seq<Vm>, id: u32, i: int) -> bool {
    &&& 0 <= i < vms.len() && vms[i].id == id
    &&& forall|j: int| 0 <= j < i ==> (#[trigger] vms[j]).id != id
}

/// `i` is the first VM named `name`.
pub open spec fn first_name(vms: Seq<Vm>, name: Seq<char>, i: int) -> bool {
    &&& 0 <= i < vms.len() && vms[i].name@ == name
    &&& forall|j: int| 0 <= j < i ==> (#[trigger] vms[j]).name@ != name
}

/// Some VM has id `id`.
pub open spec fn has_id(vms: Seq<Vm>, id: u32) -> bool {
    exists|j: int| 0 <= j < vms.len() && (#[trigger] vms[j]).id == id
}

/// Some VM is named `name`.
pub open spec fn has_name(vms: Seq<Vm>, name: Seq<char>) -> bool {
    exists|j: int| 0 <= j < vms.len() && (#[trigger] vms[j]).name@ == name
}

/// The VM a selector picks: a selector that reads as a number picks the
/// first VM with that id, if any; otherwise the first VM with that name.
pub open spec fn selects(vms: Seq<Vm>, sel: Seq<char>, r: Option<usize>) -> bool {
    let by_id = match u32_text(sel) { Some(id) => has_id(vms, id), None => false };
    if by_id {
        r is Some && first_id(vms, u32_text(sel)->0, r->0 as int)
    } else if has_name(vms, sel) {
        r is Some && first_name(vms, sel, r->0 as int)
    } else {
        r is None
    }
}

/// The message for a selector that picks no VM.
pub open spec fn not_found(sel: Seq<char>) -> Seq<char> {
    "VM '"@ + sel + "' tidak ditemukan"@
}

/// The virtualization manager: the registry of VMs and the next id.
pub struct Vmm {
    pub vms: Vec<Vm>,
    pub next_id: u32,
}

/// Builds the not-found message.
fn not_found_msg(sel: &str) -> (m: String)
    ensures
        m@ == not_found(sel@),
{
    let mut m = owned("VM '");
    push_str(&mut m, sel);
    push_str(&mut m, "' tidak ditemukan");
    m
}

impl Vmm {
    /// Every VM is well formed.
    pub open spec fn wf(&self) -> bool {
        forall|i: int| 0 <= i < self.vms@.len() ==> (#[trigger] self.vms@[i]).wf()
    }

    /// An empty registry; ids start at 1.
    pub fn new() -> (m: Vmm)
        ensures
            m.wf(),
            m.vms@.len() == 0,
            m.next_id == 1,
    {
        Vmm { vms: Vec::new(), next_id: 1 }
    }

    /// Create a VM preloaded with the NanoOS guest; memory is clamped to
    /// 4..=1024 KiB and vCPUs to 1..=4, the disk is 64 KiB. Returns its id
    /// (ids count up, wrapping).
    pub fn create(&mut self, name: &str, mem_kib: u32, vcpus: u32) -> (id: u32)
        requires
            old(self).wf(),
        ensures
            final(self).wf(),
            id == old(self).next_id,
            final(self).next_id == old(self).next_id.wrapping_add(1),
            final(self).vms@.len() == old(self).vms@.len() + 1,
            final(self).vms@.drop_last() == old(self).vms@,
            ({
                let v = final(self).vms@.last();
                &&& v.id == id && v.name@ == name@
                &&& v.mem_kib == (if mem_kib < 4 { 4 } else if mem_kib > 1024 { 1024 } else { mem_kib })
                &&& v.vcpus == (if vcpus < 1 { 1 } else if vcpus > 4 { 4 } else { vcpus })
                &&& v.disk_kib == 64 && v.snap is None
                &&& v.cpu() == boot_cpu((v.mem_kib * 1024) as nat, Seq::empty())
            }),
    {
        let id = self.next_id;
        self.next_id = self.next_id.wrapping_add(1);
        let mem_kib = if mem_kib < 4 { 4 } else if mem_kib > 1024 { 1024 } else { mem_kib };
        let vcpus = if vcpus < 1 { 1 } else if vcpus > 4 { 4 } else { vcpus };
        let mut mem: Vec<u8> = Vec::new();
        let n = mem_kib as usize * 1024;
        let mut i: usize = 0;
        while i < n
            invariant
                i <= n,
                mem@.len() == i,
            decreases n - i,
        {
            mem.push(0);
            i = i + 1;
        }
        let mut vm = Vm {
            id,
            name: owned(name),
            mem_kib,
            vcpus,
            disk_kib: 64,
            state: State::Created,
            mem,
            regs: [0; 8],
            sp: 0,
            pc: 0,
            zf: false,
            disk: Vec::new(),
            console: String::new(),
            steps: 0,
            snap: None,
        };
        vm.reset_and_load();
        self.vms.push(vm);
        assert(self.vms@.drop_last() =~= old(self).vms@);
        assert forall|i: int| 0 <= i < self.vms@.len() implies (#[trigger] self.vms@[i]).wf() by {
            if i < old(self).vms@.len() {
                assert(self.vms@[i] == old(self).vms@[i]);
            }
        }
        id
    }

    /// The VM a selector picks (see [`selects`]).
    pub fn find_index(&self, sel: &str) -> (r: Option<usize>)
        ensures
            selects(self.vms@, sel@, r),
    {
        let n = self.vms.len();
        match parse_u32(sel) {
            Some(id) => {
                let mut i: usize = 0;
                while i < n
                    invariant
                        i <= n == self.vms@.len(),
                        u32_text(sel@) == Some(id),
                        forall|j: int| 0 <= j < i ==> (#[trigger] self.vms@[j]).id != id,
                    decreases n - i,
                {
                    if self.vms[i].id == id {
                        return Some(i);
                    }
                    i = i + 1;
                }
            },
            None => {},
        }
        let mut i: usize = 0;
        while i < n
            invariant
                i <= n == self.vms@.len(),
                match u32_text(sel@) { Some(id) => !has_id(self.vms@, id), None => true },
                forall|j: int| 0 <= j < i ==> (#[trigger] self.vms@[j]).name@ != sel@,
            decreases n - i,
        {
            if crate::text::string_eq_str(&self.vms[i].name, sel) {
                return Some(i);
            }
            i = i + 1;
        }
        None
    }

    /// A summary of every VM, in registry order.
    pub fn list(&self) -> (r: Vec<VmInfo>)
        ensures
            r@.len() == self.vms@.len(),
            forall|i: int| 0 <= i < r@.len() ==> {
                let (v, f) = (#[trigger] r@[i], self.vms@[i]);
                &&& v.id == f.id && v.name@ == f.name@ && v.mem_kib == f.mem_kib && v.vcpus == f.vcpus
                &&& v.disk_kib == f.disk_kib && v.state == f.state && v.steps == f.steps
                &&& v.has_snapshot == f.snap is Some
            },
    {
        let mut r: Vec<VmInfo> = Vec::new();
        let mut i: usize = 0;
        while i < self.vms.len()
            invariant
                i <= self.vms@.len(),
                r@.len() == i,
                forall|k: int| 0 <= k < i ==> {
                    let (v, f) = (#[trigger] r@[k], self.vms@[k]);
                    &&& v.id == f.id && v.name@ == f.name@ && v.mem_kib == f.mem_kib && v.vcpus == f.vcpus
                    &&& v.disk_kib == f.disk_kib && v.state == f.state && v.steps == f.steps
                    &&& v.has_snapshot == f.snap is Some
                },
            decreases self.vms@.len() - i,
        {
            let f = &self.vms[i];
            r.push(VmInfo {
                id: f.id,
                name: f.name.clone(),
                mem_kib: f.mem_kib,
                vcpus: f.vcpus,
                disk_kib: f.disk_kib,
                state: f.state,
                steps: f.steps,
                has_snapshot: f.snap.is_some(),
            });
            i = i + 1;
        }
        r
    }
}

/// `after` is `before` freshly booted and run to a stop with the host tick
/// `tick`; its configuration and snapshot are kept.
pub open spec fn booted_and_ran(before: Vm, after: Vm, tick: u32) -> bool {
    &&& after.same_config(&before) && after.snap == before.snap && after.wf()
    &&& exists|k: nat| #[trigger] run_spec(boot_cpu(before.mem@.len(), before.disk@), tick, k) == (after.cpu(), false)
}

impl Vmm {
    /// Boot the selected VM afresh and run its guest to `HLT`, a fault or
    /// the step budget; the result carries its name, state, step count and
    /// console output.
    pub fn start(&mut self, sel: &str, ticks: &TickCounter) -> (r: Result<RunResult, String>)
        requires
            old(self).wf(),
        ensures
            final(self).wf(),
            final(self).next_id == old(self).next_id,
            r is Err <==> selects(old(self).vms@, sel@, None),
            r matches Err(m) ==> m@ == not_found(sel@) && final(self).vms@ == old(self).vms@,
            r matches Ok(res) ==> exists|i: usize| {
                &&& #[trigger] selects(old(self).vms@, sel@, Some(i))
                &&& final(self).vms@ == old(self).vms@.update(i as int, final(self).vms@[i as int])
                &&& booted_and_ran(old(self).vms@[i as int], final(self).vms@[i as int], ticks.count as u32)
                &&& res.name@ == final(self).vms@[i as int].name@ && res.state == final(self).vms@[i as int].state
                &&& res.steps == final(self).vms@[i as int].steps
                &&& res.console@ == final(self).vms@[i as int].console@
            },
    {
        match self.find_index(sel) {
            None => Err(not_found_msg(sel)),
            Some(idx) => {
                let ghost old_vms = self.vms@;
                let mut vm = self.vms.remove(idx);
                assert(vm.wf());
                vm.reset_and_load();
                vm.run(ticks);
                let res = RunResult { name: vm.name.clone(), state: vm.state, steps: vm.steps, console: vm.console.clone() };
                self.vms.insert(idx, vm);
                assert(self.vms@ =~= old_vms.update(idx as int, self.vms@[idx as int]));
                assert forall|i: int| 0 <= i < self.vms@.len() implies (#[trigger] self.vms@[i]).wf() by {
                    if i != idx { assert(self.vms@[i] == old_vms[i]); }
                }
                assert(selects(old(self).vms@, sel@, Some(idx)));
                Ok(res)
            },
        }
    }

    /// Snapshot the selected VM's whole machine state.
    pub fn snapshot(&mut self, sel: &str) -> (r: Result<(), String>)
        requires
            old(self).wf(),
        ensures
            final(self).wf(),
            final(self).next_id == old(self).next_id,
            r is Err <==> selects(old(self).vms@, sel@, None),
            r matches Err(m) ==> m@ == not_found(sel@) && final(self).vms@ == old(self).vms@,
            r is Ok ==> exists|i: usize| {
                &&& #[trigger] selects(old(self).vms@, sel@, Some(i))
                &&& final(self).vms@ == old(self).vms@.update(i as int, final(self).vms@[i as int])
                &&& final(self).vms@[i as int].same_config(&old(self).vms@[i as int])
                &&& final(self).vms@[i as int].cpu() == old(self).vms@[i as int].cpu()
                &&& final(self).vms@[i as int].snap matches Some(sn) && sn.cpu() == old(self).vms@[i as int].cpu()
            },
    {
        match self.find_index(sel) {
            None => Err(not_found_msg(sel)),
            Some(idx) => {
                let ghost old_vms = self.vms@;
                let mut vm = self.vms.remove(idx);
                assert(vm.wf());
                vm.take_snapshot();
                self.vms.insert(idx, vm);
                assert(self.vms@ =~= old_vms.update(idx as int, self.vms@[idx as int]));
                assert forall|i: int| 0 <= i < self.vms@.len() implies (#[trigger] self.vms@[i]).wf() by {
                    if i != idx { assert(self.vms@[i] == old_vms[i]); }
                }
                assert(selects(old(self).vms@, sel@, Some(idx)));
                Ok(())
            },
        }
    }

    /// Put the selected VM back into its snapshot state; an error when it
    /// has none.
    pub fn restore(&mut self, sel: &str) -> (r: Result<(), String>)
        requires
            old(self).wf(),
        ensures
            final(self).wf(),
            final(self).next_id == old(self).next_id,
            selects(old(self).vms@, sel@, None) ==> (r matches Err(m) && m@ == not_found(sel@)
                && final(self).vms@ == old(self).vms@),
            forall|i: usize| #[trigger] selects(old(self).vms@, sel@, Some(i)) ==> {
                let (v0, v1) = (old(self).vms@[i as int], final(self).vms@[i as int]);
                &&& final(self).vms@ == old(self).vms@.update(i as int, v1)
                &&& v1.same_config(&v0) && v1.snap == v0.snap
                &&& match v0.snap {
                    Some(sn) => r is Ok && v1.cpu() == sn.cpu(),
                    None => (r matches Err(m) && m@ == "belum ada snapshot"@) && v1.cpu() == v0.cpu(),
                }
            },
    {
        match self.find_index(sel) {
            None => Err(not_found_msg(sel)),
            Some(idx) => {
                let ghost old_vms = self.vms@;
                let mut vm = self.vms.remove(idx);
                assert(vm.wf());
                let ok = vm.restore_snapshot();
                self.vms.insert(idx, vm);
                assert(self.vms@ =~= old_vms.update(idx as int, self.vms@[idx as int]));
                assert forall|i: int| 0 <= i < self.vms@.len() implies (#[trigger] self.vms@[i]).wf() by {
                    if i != idx { assert(self.vms@[i] == old_vms[i]); }
                }
                proof { lemma_selects_unique(old_vms, sel@, Some(idx)); }
                if ok { Ok(()) } else { Err(owned("belum ada snapshot")) }
            },
        }
    }

    /// Remove the selected VM from the registry.
    pub fn remove(&mut self, sel: &str) -> (r: Result<(), String>)
        requires
            old(self).wf(),
        ensures
            final(self).wf(),
            final(self).next_id == old(self).next_id,
            r is Err <==> selects(old(self).vms@, sel@, None),
            r matches Err(m) ==> m@ == not_found(sel@) && final(self).vms@ == old(self).vms@,
            r is Ok ==> exists|i: usize| #[trigger] selects(old(self).vms@, sel@, Some(i))
                && final(self).vms@ == old(self).vms@.remove(i as int),
    {
        match self.find_index(sel) {
            None => Err(not_found_msg(sel)),
            Some(idx) => {
                let ghost old_vms = self.vms@;
                let _vm = self.vms.remove(idx);
                assert forall|i: int| 0 <= i < self.vms@.len() implies (#[trigger] self.vms@[i]).wf() by {
                    if i < idx { assert(self.vms@[i] == old_vms[i]); } else { assert(self.vms@[i] == old_vms[i + 1]); }
                }
                assert(selects(old(self).vms@, sel@, Some(idx)));
                Ok(())
            },
        }
    }
}

/// A selector picks at most one VM.
pub proof fn lemma_selects_unique(vms: Seq<Vm>, sel: Seq<char>, r: Option<usize>)
    requires
        selects(vms, sel, r),
    ensures
        forall|q: Option<usize>| #[trigger] selects(vms, sel, q) ==> q == r,
{
    assert forall|q: Option<usize>| #[trigger] selects(vms, sel, q) implies q == r by {
        if q is Some && r is Some {
            let (a, b) = (q->0 as int, r->0 as int);
            if a < b {
                assert(vms[a] == vms[a]);
            } else if b < a {
                assert(vms[b] == vms[b]);
            }
        }
    }
}

impl Vmm {
    /// Boot self-test: create "nanovm" (64 KiB, 1 vCPU), run its guest,
    /// snapshot it, corrupt console, r3 and disk, restore, and check that the
    /// console is back and r3 is not the corruption marker. Returns the run's
    /// console output and whether the check held.
    pub fn selftest(&mut self, ticks: &TickCounter) -> (r: (String, bool))
        requires
            old(self).wf(),
        ensures
            final(self).wf(),
            final(self).vms@.len() == old(self).vms@.len() + 1,
            exists|i: int| #[trigger] first_name(final(self).vms@, "nanovm"@, i) && {
                let v = final(self).vms@[i];
                &&& v.snap matches Some(sn) && v.cpu() == sn.cpu()
                &&& r.0@ == v.console@
                &&& r.1 == (v.regs@[3] != 0xDEAD_BEEF)
            },
    {
        proof {
            reveal_strlit("nanovm");
            assert(!all_digits("nanovm"@) || "nanovm"@[0] == '+') by { assert("nanovm"@[0] == 'n'); }
        }
        let _ = self.create("nanovm", 64, 1);
        let ghost n1 = self.vms@.len();
        assert(self.vms@[n1 - 1].name@ == "nanovm"@);
        assert(u32_text("nanovm"@) is None);
        let idx = match self.find_index("nanovm") {
            Some(i) => i,
            None => {
                assert(has_name(self.vms@, "nanovm"@));
                return (String::new(), false);
            },
        };
        let ghost old_vms = self.vms@;
        let mut vm = self.vms.remove(idx);
        assert(vm.wf());
        vm.reset_and_load();
        vm.run(ticks);
        let console = vm.console.clone();
        vm.take_snapshot();
        let before = vm.console.clone();
        push_str(&mut vm.console, "XXCORRUPTXX");
        vm.regs[3] = 0xDEAD_BEEF;
        vm.disk.push(0xFF);
        let restored = vm.restore_snapshot();
        let ok = restored && crate::text::string_eq(&vm.console, &before) && vm.regs[3] != 0xDEAD_BEEF;
        self.vms.insert(idx, vm);
        assert forall|j: int| 0 <= j < self.vms@.len() implies (#[trigger] self.vms@[j]).wf() by {
            if j != idx { assert(self.vms@[j] == old_vms[j]); }
        }
        assert forall|j: int| 0 <= j < idx implies (#[trigger] self.vms@[j]).name@ != "nanovm"@ by {
            assert(self.vms@[j] == old_vms[j]);
        }
        assert(first_name(self.vms@, "nanovm"@, idx as int));
        (console, ok)
    }
}

} // verus!
