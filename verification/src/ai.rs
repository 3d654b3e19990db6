//! AI system API backed by tiny local models: a character-bigram language
//! model trained on a built-in corpus, Sobel edge detection over a
//! grayscale image, and a procedural text-to-image generator driven by a
//! hash of the prompt. All deterministic.

use vstd::prelude::*;
use crate::text::string_push;
use vstd::utf8::encode_utf8;

verus! {

/// The training corpus.
pub const CORPUS: &'static str = "buitenzorg adalah sistem operasi ai-native. kernel ditulis dengan rust, aplikasi dan layanan ai dengan c sharp. tanpa kekhawatiran, zonder zorg. kebun raya bogor menumbuhkan benih menjadi akar, batang, daun, kanopi, kembang, buah. ai lokal berjalan offline. model dari hugging face. selamat datang.";

/// Size of the model's alphabet: a-z, space, '.', ','.
pub const ALPHA: usize = 29;

/// ASCII lowercase.
pub open spec fn lower(c: u8) -> u8 {
    if 65 <= c <= 90 { (c + 32) as u8 } else { c }
}

/// A byte's letter in the model's alphabet: a-z are 0..25, '.' 27, ','
/// 28, anything else (space included) 26.
pub open spec fn char_index_spec(c: u8) -> nat {
    if 97 <= c <= 122 { (c - 97) as nat } else if c == 46 { 27 } else if c == 44 { 28 } else { 26 }
}

/// The character for letter `i` of the alphabet.
pub open spec fn alpha_char(i: nat) -> char {
    if i < 26 { ((97 + i) as u8) as char } else if i == 26 { ' ' } else if i == 27 { '.' } else { ',' }
}

/// The alphabet index of a byte.
pub fn char_index(c: u8) -> (i: usize)
    ensures
        i == char_index_spec(c),
        i < ALPHA,
{
    if 97 <= c && c <= 122 {
        (c - 97) as usize
    } else if c == 46 {
        27
    } else if c == 44 {
        28
    } else {
        26
    }
}

fn to_lower(c: u8) -> (r: u8)
    ensures
        r == lower(c),
{
    if 65 <= c && c <= 90 { c + 32 } else { c }
}

/// How often letter `b` follows letter `a` among the first `n` adjacent
/// pairs of `t` (case folded).
pub open spec fn bigram(t: Seq<u8>, a: nat, b: nat, n: nat) -> nat
    decreases n,
{
    if n == 0 {
        0
    } else {
        bigram(t, a, b, (n - 1) as nat) + (if char_index_spec(lower(t[n - 1])) == a
            && char_index_spec(lower(t[n as int])) == b { 1nat } else { 0nat })
    }
}

/// The number of adjacent pairs in `t`.
pub open spec fn pairs(t: Seq<u8>) -> nat {
    if t.len() == 0 { 0 } else { (t.len() - 1) as nat }
}

proof fn lemma_bigram_bound(t: Seq<u8>, a: nat, b: nat, n: nat)
    ensures
        bigram(t, a, b, n) <= n,
    decreases n,
{
    if n > 0 {
        lemma_bigram_bound(t, a, b, (n - 1) as nat);
    }
}

/// The trained model: `table[a][b]` counts `b` after `a` in `text`.
pub fn build_bigram(text: &[u8]) -> (table: Vec<[u32; 29]>)
    requires
        text@.len() < 0x1000_0000,
    ensures
        table@.len() == ALPHA,
        forall|a: int, b: int| 0 <= a < 29 && 0 <= b < 29 ==> #[trigger] table@[a]@[b] == bigram(text@, a as nat, b as nat, pairs(text@)),
{
    let mut table: Vec<[u32; 29]> = Vec::new();
    let mut a: usize = 0;
    while a < ALPHA
        invariant
            a <= ALPHA,
            table@.len() == a,
            forall|x: int, y: int| 0 <= x < a && 0 <= y < 29 ==> #[trigger] table@[x]@[y] == 0,
        decreases ALPHA - a,
    {
        table.push([0u32; 29]);
        a = a + 1;
    }
    let n = if text.len() == 0 { 0 } else { text.len() - 1 };
    let mut k: usize = 0;
    while k < n
        invariant
            n == pairs(text@),
            text@.len() < 0x1000_0000,
            k <= n,
            table@.len() == ALPHA,
            forall|x: int, y: int| 0 <= x < 29 && 0 <= y < 29 ==> #[trigger] table@[x]@[y] == bigram(text@, x as nat, y as nat, k as nat),
        decreases n - k,
    {
        let x = char_index(to_lower(text[k]));
        let y = char_index(to_lower(text[k + 1]));
        proof { lemma_bigram_bound(text@, x as nat, y as nat, k as nat); }
        let mut row = table[x];
        row[y] = row[y] + 1;
        table.set(x, row);
        k = k + 1;
        assert forall|p: int, q: int| 0 <= p < 29 && 0 <= q < 29 implies #[trigger] table@[p]@[q] == bigram(text@, p as nat, q as nat, k as nat) by {
            assert(bigram(text@, p as nat, q as nat, k as nat) == bigram(text@, p as nat, q as nat, (k - 1) as nat)
                + (if p == x && q == y { 1nat } else { 0nat }));
        }
    }
    table
}

/// Sum of the first `m` counts of a row.
pub open spec fn row_sum(row: Seq<u32>, m: nat) -> nat
    decreases m,
{
    if m == 0 { 0 } else { row_sum(row, (m - 1) as nat) + row[m - 1] as nat }
}

/// The weighted pick: the first letter `i` (from `i`) whose count exceeds
/// what is left of `r` after the counts before it; 0 when none does.
pub open spec fn pick(row: Seq<u32>, r: int, i: nat) -> nat
    decreases row.len() - i,
{
    if i >= row.len() { 0 } else if r < row[i as int] { i } else { pick(row, r - row[i as int], i + 1) }
}

/// The next state of the generator's LCG.
pub open spec fn lcg(seed: u32) -> u32 {
    seed.wrapping_mul(1103515245).wrapping_add(12345)
}

/// `n` generated characters continuing from letter `cur` with generator
/// state `seed`: an empty row gives a space; otherwise the LCG advances and
/// `(seed >> 8) % total` picks the next letter by weight.
pub open spec fn generate(table: Seq<Seq<u32>>, cur: nat, seed: u32, n: nat) -> Seq<char>
    decreases n,
{
    if n == 0 {
        Seq::empty()
    } else {
        let row = table[cur as int];
        let total = row_sum(row, 29);
        let (next, s2) = if total == 0 {
            (26nat, seed)
        } else {
            let s = lcg(seed);
            (pick(row, ((s >> 8u32) as int) % (total as int), 0), s)
        };
        seq![alpha_char(next)] + generate(table, next, s2, (n - 1) as nat)
    }
}

/// The bigram table of the corpus, as sequences.
pub open spec fn corpus_table() -> Seq<Seq<u32>> {
    let t = encode_utf8(CORPUS@);
    Seq::new(29, |a: int| Seq::new(29, |b: int| bigram(t, a as nat, b as nat, pairs(t)) as u32))
}

/// The letter a prompt ends on (its last byte, case folded), or space.
pub open spec fn prompt_letter(p: Seq<u8>) -> nat {
    if p.len() == 0 { 26 } else { char_index_spec(lower(p.last())) }
}

proof fn lemma_corpus_len()
    ensures
        encode_utf8(CORPUS@).len() == 298,
{
    reveal_strlit("buitenzorg adalah sistem operasi ai-native. kernel ditulis dengan rust, aplikasi dan layanan ai dengan c sharp. tanpa kekhawatiran, zonder zorg. kebun raya bogor menumbuhkan benih menjadi akar, batang, daun, kanopi, kembang, buah. ai lokal berjalan offline. model dari hugging face. selamat datang.");
    vstd::utf8::is_ascii_chars_encode_utf8(CORPUS@);
}

proof fn lemma_row_sum_bound(row: Seq<u32>, m: nat, bound: nat)
    requires
        m <= row.len(),
        forall|i: int| 0 <= i < m ==> row[i] <= bound,
    ensures
        row_sum(row, m) <= m * bound,
    decreases m,
{
    if m > 0 {
        lemma_row_sum_bound(row, (m - 1) as nat, bound);
        assert((m - 1) * bound + bound == m * bound) by (nonlinear_arith);
    }
}

/// Continue `prompt` by `len` characters with the corpus bigram model (see
/// [`generate`]); the result starts with the prompt.
pub fn llm_complete(prompt: &str, len: usize) -> (out: String)
    ensures
        out@ == prompt@ + generate(corpus_table(), prompt_letter(encode_utf8(prompt@)), 0x1234, len as nat),
{
    proof { lemma_corpus_len(); }
    let table = build_bigram(CORPUS.as_bytes());
    let ghost tb = corpus_table();
    assert forall|a: int| 0 <= a < 29 implies #[trigger] table@[a]@ == tb[a] by {
        assert(table@[a]@ =~= tb[a]);
    }
    assert forall|a: int, b: int| 0 <= a < 29 && 0 <= b < 29 implies #[trigger] tb[a][b] <= 298 by {
        let t = encode_utf8(CORPUS@);
        lemma_bigram_bound(t, a as nat, b as nat, pairs(t));
    }
    let mut out = crate::text::owned(prompt);
    let pb = prompt.as_bytes();
    let mut cur: usize = if pb.len() == 0 { 26 } else { char_index(to_lower(pb[pb.len() - 1])) };
    let mut seed: u32 = 0x1234;
    let mut i: usize = 0;
    while i < len
        invariant
            i <= len,
            cur < 29,
            table@.len() == 29,
            tb == corpus_table(),
            forall|a: int| 0 <= a < 29 ==> #[trigger] table@[a]@ == tb[a],
            forall|a: int, b: int| 0 <= a < 29 && 0 <= b < 29 ==> #[trigger] tb[a][b] <= 298,
            out@ + generate(tb, cur as nat, seed, (len - i) as nat)
                == prompt@ + generate(tb, prompt_letter(encode_utf8(prompt@)), 0x1234, len as nat),
        decreases len - i,
    {
        let row = table[cur];
        let ghost rs = row@;
        let mut total: u32 = 0;
        let mut b: usize = 0;
        proof { lemma_row_sum_bound(rs, 29, 298); }
        while b < ALPHA
            invariant
                b <= 29,
                rs == row@,
                rs.len() == 29,
                total == row_sum(rs, b as nat),
                forall|q: int| 0 <= q < 29 ==> rs[q] <= 298,
            decreases 29 - b,
        {
            proof { lemma_row_sum_bound(rs, (b + 1) as nat, 298); }
            total = total + row[b];
            b = b + 1;
        }
        let next: usize = if total == 0 {
            26
        } else {
            seed = seed.wrapping_mul(1103515245).wrapping_add(12345);
            let mut r = (seed >> 8) % total;
            let mut idx: usize = 0;
            let mut q: usize = 0;
            let mut found = false;
            while q < ALPHA && !found
                invariant
                    q <= 29,
                    rs == row@,
                    rs.len() == 29,
                    !found ==> pick(rs, ((seed >> 8u32) as int) % (total as int), 0) == pick(rs, r as int, q as nat),
                    found ==> pick(rs, ((seed >> 8u32) as int) % (total as int), 0) == idx,
                    !found ==> idx == 0,
                    idx < 29,
                decreases 29 - q + (if found { 0int } else { 1int }),
            {
                if r < row[q] {
                    idx = q;
                    found = true;
                } else {
                    r = r - row[q];
                    q = q + 1;
                }
            }
            idx
        };
        let ghost old_out = out@;
        string_push(&mut out, if next < 26 { (97u8 + next as u8) as char } else if next == 26 { ' ' } else if next == 27 { '.' } else { ',' });
        proof {
            assert(out@ =~= old_out + seq![alpha_char(next as nat)]);
        }
        cur = next;
        i = i + 1;
    }
    assert(out@ + Seq::<char>::empty() =~= out@);
    out
}

/// The Sobel gradient magnitude `|gx| + |gy|` at interior pixel `(x, y)` of
/// a `w`-wide grayscale image.
pub open spec fn sobel(g: Seq<u8>, w: int, x: int, y: int) -> int {
    let at = |xx: int, yy: int| g[yy * w + xx] as int;
    let gx = -at(x - 1, y - 1) - 2 * at(x - 1, y) - at(x - 1, y + 1) + at(x + 1, y - 1) + 2 * at(x + 1, y) + at(x + 1, y + 1);
    let gy = -at(x - 1, y - 1) - 2 * at(x, y - 1) - at(x + 1, y - 1) + at(x - 1, y + 1) + 2 * at(x, y + 1) + at(x + 1, y + 1);
    (if gx < 0 { -gx } else { gx }) + (if gy < 0 { -gy } else { gy })
}

/// Edge pixels with `x` in `1..xe` on row `y`.
pub open spec fn row_edges(g: Seq<u8>, w: int, y: int, thr: u16, xe: int) -> nat
    decreases xe,
{
    if xe <= 1 { 0 } else { row_edges(g, w, y, thr, xe - 1) + (if sobel(g, w, xe - 1, y) > thr { 1nat } else { 0nat }) }
}

/// Edge pixels on rows `1..ye`.
pub open spec fn edges_upto(g: Seq<u8>, w: int, h: int, thr: u16, ye: int) -> nat
    decreases ye,
{
    if ye <= 1 { 0 } else { edges_upto(g, w, h, thr, ye - 1) + row_edges(g, w, ye - 1, thr, w - 1) }
}

proof fn lemma_row_edges_bound(g: Seq<u8>, w: int, y: int, thr: u16, xe: int)
    ensures
        row_edges(g, w, y, thr, xe) <= (if xe > 1 { xe - 1 } else { 0 }),
    decreases xe,
{
    if xe > 1 {
        lemma_row_edges_bound(g, w, y, thr, xe - 1);
    }
}

/// Count the interior pixels of a `w` x `h` grayscale image whose Sobel
/// magnitude exceeds `threshold`.
pub fn vision_edges(gray: &[u8], w: usize, h: usize, threshold: u16) -> (n: usize)
    requires
        w * h <= gray@.len(),
    ensures
        n == (if h >= 2 && w >= 2 { edges_upto(gray@, w as int, h as int, threshold, h - 1) } else { 0 }),
{
    let mut edges: usize = 0;
    let ye = if h >= 1 { h - 1 } else { 0 };
    let xe = if w >= 1 { w - 1 } else { 0 };
    let mut y: usize = 1;
    if h < 2 || w < 2 {
        return 0;
    }
    let _n = gray.len();
    while y < ye
        invariant
            1 <= y <= ye,
            ye == h - 1,
            xe == w - 1,
            w >= 2,
            w * h <= gray@.len() <= usize::MAX,
            edges == edges_upto(gray@, w as int, h as int, threshold, y as int),
            edges <= (y - 1) * (w - 2),
        decreases ye - y,
    {
        let mut x: usize = 1;
        let mut row: usize = 0;
        while x < xe
            invariant
                1 <= x <= xe,
                1 <= y < ye,
                ye == h - 1,
                xe == w - 1,
                w * h <= gray@.len() <= usize::MAX,
                row == row_edges(gray@, w as int, y as int, threshold, x as int),
                row <= x - 1,
            decreases xe - x,
        {
            assert((y + 1) * w + (x + 1) < w * h) by (nonlinear_arith)
                requires y + 1 < h, x + 1 < w;
            assert((y - 1) * w + (x - 1) >= 0) by (nonlinear_arith)
                requires y >= 1, x >= 1, w >= 0;
            assert(y * w == (y - 1) * w + w && (y + 1) * w == y * w + w) by (nonlinear_arith);
            let r0 = (y - 1) * w;
            let r1 = y * w;
            let r2 = (y + 1) * w;
            let a00 = gray[r0 + x - 1] as i32;
            let a01 = gray[r0 + x] as i32;
            let a02 = gray[r0 + x + 1] as i32;
            let a10 = gray[r1 + x - 1] as i32;
            let a12 = gray[r1 + x + 1] as i32;
            let a20 = gray[r2 + x - 1] as i32;
            let a21 = gray[r2 + x] as i32;
            let a22 = gray[r2 + x + 1] as i32;
            let gx = -a00 - 2 * a10 - a20 + a02 + 2 * a12 + a22;
            let gy = -a00 - 2 * a01 - a02 + a20 + 2 * a21 + a22;
            let m = (if gx < 0 { -gx } else { gx }) + (if gy < 0 { -gy } else { gy });
            assert(m == sobel(gray@, w as int, x as int, y as int));
            if (m as u16) > threshold {
                row = row + 1;
            }
            x = x + 1;
        }
        assert(y * (w - 2) == (y - 1) * (w - 2) + (w - 2)) by (nonlinear_arith);
        assert((y - 1) * (w - 2) + (w - 2) <= w * h) by (nonlinear_arith)
            requires y < h, w >= 2;
        edges = edges + row;
        y = y + 1;
    }
    edges
}

/// The FNV-1a hash of the first `n` bytes of `b`.
pub open spec fn fnv(b: Seq<u8>, n: nat) -> u64
    decreases n,
{
    if n == 0 { 0xcbf29ce484222325 } else { ((fnv(b, (n - 1) as nat) ^ (b[n - 1] as u64)) as u64).wrapping_mul(0x100000001b3) }
}

/// The generated pixel `(x, y)` for prompt hash `seed`: an interference
/// pattern `a = (x * (3 + seed & 7)) ^ (y * (5 + (seed >> 3) & 7))` turned
/// into red, green and blue bytes.
pub open spec fn gen_pixel(seed: u64, x: u64, y: u64) -> u32 {
    let hue = (seed & 0xFF) as u32;
    let a = ((x * (3 + (seed & 7))) as u64 ^ (y * (5 + ((seed >> 3u64) & 7))) as u64) as u32;
    let r = (a.wrapping_add(hue) & 0xFF) as u8;
    let g = ((a >> 2u32).wrapping_add(0x40) & 0xFF) as u8;
    let bl = ((a >> 4u32).wrapping_add(hue / 2) & 0xFF) as u8;
    ((r as u32) << 16u32) | ((g as u32) << 8u32) | bl as u32
}

/// Text-to-image: a `w` x `h` image (row-major, 0x00RRGGBB) synthesized
/// from the prompt's hash (see [`gen_pixel`]).
pub fn genai_image(prompt: &str, w: usize, h: usize) -> (img: Vec<u32>)
    requires
        w * h <= usize::MAX,
        w * 10 <= u64::MAX,
        h * 12 <= u64::MAX,
    ensures
        img@.len() == w * h,
        forall|x: int, y: int| 0 <= x < w && 0 <= y < h ==> #[trigger] img@[y * w + x]
            == gen_pixel(fnv(encode_utf8(prompt@), encode_utf8(prompt@).len()), x as u64, y as u64),
{
    let pb = prompt.as_bytes();
    let mut seed: u64 = 0xcbf29ce484222325;
    let mut i: usize = 0;
    while i < pb.len()
        invariant
            i <= pb@.len(),
            seed == fnv(pb@, i as nat),
        decreases pb@.len() - i,
    {
        seed = (seed ^ pb[i] as u64).wrapping_mul(0x100000001b3);
        i = i + 1;
    }
    let hue = (seed & 0xFF) as u32;
    let mut img: Vec<u32> = Vec::new();
    let mut y: usize = 0;
    while y < h
        invariant
            y <= h,
            w * h <= usize::MAX,
            w * 10 <= u64::MAX,
            h * 12 <= u64::MAX,
            img@.len() == y * w,
            seed == fnv(pb@, pb@.len()),
            hue == (seed & 0xFF) as u32,
            forall|xx: int, yy: int| 0 <= xx < w && 0 <= yy < y ==> #[trigger] img@[yy * w + xx]
                == gen_pixel(seed, xx as u64, yy as u64),
        decreases h - y,
    {
        let mut x: usize = 0;
        while x < w
            invariant
                x <= w,
                y < h,
                w * h <= usize::MAX,
                w * 10 <= u64::MAX,
                h * 12 <= u64::MAX,
                img@.len() == y * w + x,
                seed == fnv(pb@, pb@.len()),
                hue == (seed & 0xFF) as u32,
                forall|xx: int, yy: int| 0 <= xx < w && 0 <= yy < y ==> #[trigger] img@[yy * w + xx]
                    == gen_pixel(seed, xx as u64, yy as u64),
                forall|xx: int| 0 <= xx < x ==> #[trigger] img@[y * w + xx] == gen_pixel(seed, xx as u64, y as u64),
            decreases w - x,
        {
            assert(y * w + x < w * h) by (nonlinear_arith) requires y < h, x < w;
            assert(seed & 7 <= 7 && (seed >> 3) & 7 <= 7) by (bit_vector);
            let k1: u64 = 3 + (seed & 7);
            let k2: u64 = 5 + ((seed >> 3) & 7);
            assert((x as u64) * k1 <= u64::MAX) by (nonlinear_arith) requires x < w, w * 10 <= u64::MAX, k1 <= 10;
            assert((y as u64) * k2 <= u64::MAX) by (nonlinear_arith) requires y < h, h * 12 <= u64::MAX, k2 <= 12;
            let a = (((x as u64) * k1) ^ ((y as u64) * k2)) as u32;
            let r = (a.wrapping_add(hue) & 0xFF) as u8;
            let g = ((a >> 2).wrapping_add(0x40) & 0xFF) as u8;
            let b = ((a >> 4).wrapping_add(hue / 2) & 0xFF) as u8;
            let p = ((r as u32) << 16) | ((g as u32) << 8) | b as u32;
            assert(p == gen_pixel(seed, x as u64, y as u64));
            img.push(p);
            proof {
                assert forall|xx: int, yy: int| 0 <= xx < w && 0 <= yy < y implies #[trigger] img@[yy * w + xx]
                    == gen_pixel(seed, xx as u64, yy as u64) by {
                    assert(yy * w + xx < y * w) by (nonlinear_arith) requires yy < y, xx < w;
                }
            }
            x = x + 1;
        }
        assert(y * w + w == (y + 1) * w) by (nonlinear_arith);
        y = y + 1;
        proof {
            assert forall|xx: int, yy: int| 0 <= xx < w && 0 <= yy < y implies #[trigger] img@[yy * w + xx]
                == gen_pixel(seed, xx as u64, yy as u64) by {
                if yy < y - 1 {
                } else {
                    assert(img@[(y - 1) * w + xx] == gen_pixel(seed, xx as u64, (y - 1) as u64));
                }
            }
        }
    }
    assert(h * w == w * h) by (nonlinear_arith);
    img
}

/// Demo of the three capabilities: a completion of "kernel ", the edge
/// count of a 32x32 image with a bright 16x16 square (threshold 200), and
/// the low-byte checksum of a 16x16 image for "kebun raya bogor".
pub fn selftest() -> (r: (String, usize, u32))
    ensures
        r.0@ == "kernel "@ + generate(corpus_table(), prompt_letter(encode_utf8("kernel "@)), 0x1234, 40),
{
    let text = llm_complete("kernel ", 40);
    let (w, h): (usize, usize) = (32, 32);
    let mut gray: Vec<u8> = Vec::new();
    let mut k: usize = 0;
    while k < w * h
        invariant
            k <= 1024,
            gray@.len() == k,
            w == 32 && h == 32,
        decreases 1024 - k,
    {
        let (x, y) = (k % 32, k / 32);
        gray.push(if 8 <= x && x < 24 && 8 <= y && y < 24 { 220 } else { 20 });
        k = k + 1;
    }
    let edges = vision_edges(gray.as_slice(), w, h, 200);
    let img = genai_image("kebun raya bogor", 16, 16);
    let mut checksum: u32 = 0;
    let mut i: usize = 0;
    while i < img.len()
        invariant
            i <= img@.len() == 256,
            checksum <= i * 255,
        decreases img@.len() - i,
    {
        let v = img[i];
        assert(v & 0xFF <= 255) by (bit_vector);
        checksum = checksum + (v & 0xFF);
        i = i + 1;
    }
    (text, edges, checksum)
}

} // verus!
