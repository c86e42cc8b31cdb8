//! Recompute and patch in-ROM checksums for Game Boy and Mega Drive headers.
//!
//! Many ROM hacks ship a patched body without recomputing the cartridge
//! checksums; the resulting ROM boots on lenient emulators but fails on
//! hardware. These helpers fix the relevant bytes in place.
use vstd::prelude::*;


verus! {

/// The cartridge families whose header checksums can be recomputed.
#[derive(Debug, Clone, Copy, PartialEq, Eq, Structural)]
pub enum ChecksumFamily {
    GameBoy,
    MegaDrive,
}

/// The display name of each family.
pub open spec fn family_name(f: ChecksumFamily) -> Seq<char> {
    match f {
        ChecksumFamily::GameBoy => seq!['G', 'a', 'm', 'e', ' ', 'B', 'o', 'y'],
        ChecksumFamily::MegaDrive => seq!['M', 'e', 'g', 'a', ' ', 'D', 'r', 'i', 'v', 'e'],
    }
}

impl ChecksumFamily {
    pub fn name(self) -> (r: &'static str)
        ensures
            r@ == family_name(self),
    {
        match self {
            ChecksumFamily::GameBoy => {
                proof {
                    reveal_strlit("Game Boy");
                }
                "Game Boy"
            },
            ChecksumFamily::MegaDrive => {
                proof {
                    reveal_strlit("Mega Drive");
                }
                "Mega Drive"
            },
        }
    }
}

/// The sum of the bytes `s[a..b]`.
pub open spec fn sum_range(s: Seq<u8>, a: int, b: int) -> int
    decreases b - a,
{
    if b <= a {
        0
    } else {
        sum_range(s, a, b - 1) + s[b - 1]
    }
}

/// Sum of `s[..n]` without the two global-checksum bytes 0x14E and 0x14F.
pub open spec fn gb_partial_sum(s: Seq<u8>, n: int) -> int {
    sum_range(s, 0, n) - (if n > 0x14E {
        s[0x14E] as int
    } else {
        0
    }) - (if n > 0x14F {
        s[0x14F] as int
    } else {
        0
    })
}

/// The Game Boy header checksum: starting from zero, subtract each byte of
/// 0x134..=0x14C plus one, modulo 256.
pub open spec fn gb_header_checksum(s: Seq<u8>) -> u8 {
    ((0x10000 - sum_range(s, 0x134, 0x14D) - 25) % 256) as u8
}

/// The Game Boy global checksum: every byte but 0x14E and 0x14F, modulo 2^16.
pub open spec fn gb_global_checksum(s: Seq<u8>) -> int {
    gb_partial_sum(s, s.len() as int) % 0x10000
}

/// A Game Boy ROM with both checksums recomputed: the header checksum at
/// 0x14D, then the global checksum (over the updated bytes) big-endian at
/// 0x14E..0x150.
pub open spec fn gb_fixed(s: Seq<u8>) -> Seq<u8> {
    let s1 = s.update(0x14D, gb_header_checksum(s));
    let g = gb_global_checksum(s1);
    s1.update(0x14E, (g / 0x100) as u8).update(0x14F, (g % 0x100) as u8)
}

/// Sum of the first `k` big-endian 16-bit words from 0x200.
pub open spec fn md_word_sum(s: Seq<u8>, k: int) -> int
    decreases k,
{
    if k <= 0 {
        0
    } else {
        md_word_sum(s, k - 1) + s[0x200 + 2 * (k - 1)] * 0x100 + s[0x200 + 2 * (k - 1) + 1]
    }
}

/// The Mega Drive checksum: the 16-bit big-endian words from 0x200 to the
/// end (an odd trailing byte ignored), summed modulo 2^16.
pub open spec fn md_checksum(s: Seq<u8>) -> int {
    md_word_sum(s, (s.len() - 0x200) / 2) % 0x10000
}

/// A Mega Drive ROM with its checksum written big-endian at 0x18E..0x190.
pub open spec fn md_fixed(s: Seq<u8>) -> Seq<u8> {
    let c = md_checksum(s);
    s.update(0x18E, (c / 0x100) as u8).update(0x18F, (c % 0x100) as u8)
}

proof fn lemma_wrap_sub(h: int, x: int, acc: int)
    by (nonlinear_arith)
    requires
        0 <= h < 256,
        0 <= x <= 256,
        h == acc % 256,
    ensures
        (if h - x < 0 {
            h - x + 256
        } else {
            h - x
        }) == (acc - x) % 256,
{
}

proof fn lemma_wrap_add(g: int, x: int, acc: int, m: int)
    by (nonlinear_arith)
    requires
        m > 0,
        0 <= g < m,
        0 <= x < m,
        g == acc % m,
    ensures
        (if g + x >= m {
            g + x - m
        } else {
            g + x
        }) == (acc + x) % m,
{
}

/// Recomputes the Game Boy header checksum (0x14D) and global checksum
/// (0x14E..0x150); returns `false`, changing nothing, when the ROM is too
/// small for a Game Boy header.
pub fn fix_game_boy(rom: &mut [u8]) -> (r: bool)
    ensures
        old(rom)@.len() < 0x150 ==> !r && final(rom)@ == old(rom)@,
        old(rom)@.len() >= 0x150 ==> r && final(rom)@ == gb_fixed(old(rom)@),
{
    if rom.len() < 0x150 {
        return false;
    }
    let ghost s = rom@;
    let mut header: u8 = 0;
    let mut i: usize = 0x134;
    while i <= 0x14C
        invariant
            0x134 <= i <= 0x14D,
            rom@ == s,
            s.len() >= 0x150,
            header == (0x10000 - sum_range(s, 0x134, i as int) - (i - 0x134)) % 256,
        decreases 0x14D - i,
    {
        let b = rom[i];
        proof {
            lemma_wrap_sub(
                header as int,
                b as int,
                0x10000 - sum_range(s, 0x134, i as int) - (i - 0x134),
            );
            lemma_wrap_sub(
                header.wrapping_sub(b) as int,
                1,
                0x10000 - sum_range(s, 0x134, i as int) - (i - 0x134) - b,
            );
        }
        header = header.wrapping_sub(b).wrapping_sub(1);
        i = i + 1;
    }
    rom[0x14D] = header;
    let ghost s1 = rom@;
    proof {
        assert(s1 == s.update(0x14D, gb_header_checksum(s)));
    }
    let mut global: u16 = 0;
    let mut j: usize = 0;
    let n = rom.len();
    while j < n
        invariant
            j <= n,
            n == s1.len(),
            rom@ == s1,
            s1.len() >= 0x150,
            global == gb_partial_sum(s1, j as int) % 0x10000,
        decreases n - j,
    {
        let b = rom[j];
        if j != 0x14E && j != 0x14F {
            proof {
                lemma_wrap_add(global as int, b as int, gb_partial_sum(s1, j as int), 0x10000);
            }
            global = global.wrapping_add(b as u16);
        }
        j = j + 1;
    }
    rom[0x14E] = (global / 0x100) as u8;
    rom[0x14F] = (global % 0x100) as u8;
    true
}

/// Recomputes the Mega Drive checksum (0x18E..0x190) as the sum of the
/// big-endian 16-bit words from 0x200 to the end (an odd trailing byte is
/// ignored); returns `false`, changing nothing, when the ROM is too small.
pub fn fix_mega_drive(rom: &mut [u8]) -> (r: bool)
    ensures
        old(rom)@.len() < 0x200 ==> !r && final(rom)@ == old(rom)@,
        old(rom)@.len() >= 0x200 ==> r && final(rom)@ == md_fixed(old(rom)@),
{
    if rom.len() < 0x200 {
        return false;
    }
    let ghost s = rom@;
    let mut sum: u16 = 0;
    let n = rom.len();
    let pairs = (n - 0x200) / 2;
    let mut k: usize = 0;
    while k < pairs
        invariant
            k <= pairs,
            n == s.len(),
            0x200 + 2 * pairs <= n,
            pairs == (s.len() - 0x200) / 2,
            rom@ == s,
            s.len() >= 0x200,
            sum == md_word_sum(s, k as int) % 0x10000,
        decreases pairs - k,
    {
        let hi = rom[0x200 + 2 * k] as u16;
        let lo = rom[0x200 + 2 * k + 1] as u16;
        let word = hi * 0x100 + lo;
        proof {
            lemma_wrap_add(sum as int, word as int, md_word_sum(s, k as int), 0x10000);
        }
        sum = sum.wrapping_add(word);
        k = k + 1;
    }
    rom[0x18E] = (sum / 0x100) as u8;
    rom[0x18F] = (sum % 0x100) as u8;
    true
}

proof fn lemma_sum_update(s: Seq<u8>, i: int, v: u8, a: int, b: int)
    requires
        0 <= i < s.len(),
        0 <= a,
        b <= s.len(),
    ensures
        sum_range(s.update(i, v), a, b) == sum_range(s, a, b) + (if a <= i < b {
            v - s[i]
        } else {
            0
        }),
    decreases b - a,
{
    if b > a {
        lemma_sum_update(s, i, v, a, b - 1);
    }
}

proof fn lemma_word_sum_agree(s: Seq<u8>, t: Seq<u8>, k: int)
    requires
        0 <= k,
        0x200 + 2 * k <= s.len(),
        s.len() == t.len(),
        forall|j: int| 0x200 <= j < s.len() ==> s[j] == t[j],
    ensures
        md_word_sum(s, k) == md_word_sum(t, k),
    decreases k,
{
    if k > 0 {
        lemma_word_sum_agree(s, t, k - 1);
    }
}

/// Fixing a Game Boy ROM twice gives what fixing it once gave: once both
/// checksums are in place, recomputing them writes the same bytes.
pub proof fn lemma_gb_fix_idempotent(s: Seq<u8>)
    requires
        s.len() >= 0x150,
    ensures
        gb_fixed(gb_fixed(s)) == gb_fixed(s),
{
    let h = gb_header_checksum(s);
    let s1 = s.update(0x14D, h);
    let g = gb_global_checksum(s1);
    let x = (g / 0x100) as u8;
    let y = (g % 0x100) as u8;
    let s2 = s1.update(0x14E, x);
    let t = s2.update(0x14F, y);
    lemma_sum_update(s, 0x14D, h, 0x134, 0x14D);
    lemma_sum_update(s1, 0x14E, x, 0x134, 0x14D);
    lemma_sum_update(s2, 0x14F, y, 0x134, 0x14D);
    assert(gb_header_checksum(t) == h);
    assert(t.update(0x14D, h) =~= t);
    lemma_sum_update(s1, 0x14E, x, 0, s.len() as int);
    lemma_sum_update(s2, 0x14F, y, 0, s.len() as int);
    assert(gb_partial_sum(t, t.len() as int) == gb_partial_sum(s1, s1.len() as int));
    assert(gb_global_checksum(t) == g);
    assert(t.update(0x14E, x).update(0x14F, y) =~= t);
}

/// Fixing a Mega Drive ROM twice gives what fixing it once gave: the
/// checksum bytes lie outside the words that are summed.
pub proof fn lemma_md_fix_idempotent(s: Seq<u8>)
    requires
        s.len() >= 0x200,
    ensures
        md_fixed(md_fixed(s)) == md_fixed(s),
{
    let t = md_fixed(s);
    let k = (s.len() - 0x200) / 2;
    lemma_word_sum_agree(s, t, k);
    assert(md_checksum(t) == md_checksum(s));
    let c = md_checksum(s);
    assert(t.update(0x18E, (c / 0x100) as u8).update(0x18F, (c % 0x100) as u8) =~= t);
}

/// What a Game Boy fix writes: every byte outside 0x14D..0x150 is kept,
/// 0x14D holds the header checksum, and 0x14E..0x150 hold, big-endian, the
/// sum modulo 2^16 of every other byte of the fixed ROM.
pub proof fn lemma_gb_fixed_bytes(s: Seq<u8>)
    requires
        s.len() >= 0x150,
    ensures
        gb_fixed(s).len() == s.len(),
        forall|i: int| 0 <= i < s.len() && !(0x14D <= i < 0x150) ==> gb_fixed(s)[i] == s[i],
        gb_fixed(s)[0x14D] == gb_header_checksum(s),
        gb_fixed(s)[0x14E] * 0x100 + gb_fixed(s)[0x14F] == gb_global_checksum(gb_fixed(s)),
{
    lemma_gb_fix_idempotent(s);
    let t = gb_fixed(s);
    let g = gb_global_checksum(s.update(0x14D, gb_header_checksum(s)));
    assert(0 <= g < 0x10000);
    assert((g / 0x100) as u8 == g / 0x100);
    assert((g % 0x100) as u8 == g % 0x100);
    assert(t[0x14E] * 0x100 + t[0x14F] == g);
    // Fixing again recomputes the same global checksum over `t`.
    let t1 = t.update(0x14D, gb_header_checksum(t));
    assert(gb_header_checksum(t) == gb_header_checksum(s)) by {
        lemma_sum_update(s, 0x14D, gb_header_checksum(s), 0x134, 0x14D);
        let s1 = s.update(0x14D, gb_header_checksum(s));
        lemma_sum_update(s1, 0x14E, (g / 0x100) as u8, 0x134, 0x14D);
        lemma_sum_update(s1.update(0x14E, (g / 0x100) as u8), 0x14F, (g % 0x100) as u8, 0x134, 0x14D);
    }
    assert(t1 =~= t);
    assert(gb_fixed(t)[0x14E] == (gb_global_checksum(t) / 0x100) as u8);
    assert(gb_fixed(t)[0x14F] == (gb_global_checksum(t) % 0x100) as u8);
}

proof fn lemma_sum_range_bounds(s: Seq<u8>, a: int, b: int)
    requires
        a <= b,
    ensures
        0 <= sum_range(s, a, b) <= 255 * (b - a),
    decreases b - a,
{
    if a < b {
        lemma_sum_range_bounds(s, a, b - 1);
    }
}

/// The Game Boy header checksum that a fix writes at 0x14D is the byte
/// that, added to the bytes 0x134..=0x14C and to 25 (one for each of
/// them), gives 0 modulo 256: starting from zero, each header byte and one
/// more are subtracted.
pub proof fn lemma_gb_header_checksum_cancels(s: Seq<u8>)
    requires
        s.len() >= 0x150,
    ensures
        (gb_fixed(s)[0x14D] + sum_range(s, 0x134, 0x14D) + 25) % 256 == 0,
        (gb_fixed(s)[0x14D] + sum_range(gb_fixed(s), 0x134, 0x14D) + 25) % 256 == 0,
{
    lemma_gb_fixed_bytes(s);
    let t = gb_fixed(s);
    let sum = sum_range(s, 0x134, 0x14D);
    lemma_sum_range_bounds(s, 0x134, 0x14D);
    let h = (0x10000 - sum - 25) % 256;
    assert(0 <= 0x10000 - sum - 25);
    assert(t[0x14D] == h);
    assert((h + sum + 25) % 256 == 0) by (nonlinear_arith)
        requires
            h == (0x10000 - sum - 25) % 256,
            0 <= 0x10000 - sum - 25,
    ;
    lemma_sum_agree_header(s, t, 0x14D);
}

/// The global checksum that a Game Boy fix writes big-endian at
/// 0x14E..0x150 is the sum, modulo 2^16, of every other byte of the fixed
/// ROM.
pub proof fn lemma_gb_global_checksum_sums(s: Seq<u8>)
    requires
        s.len() >= 0x150,
    ensures
        gb_fixed(s)[0x14E] * 0x100 + gb_fixed(s)[0x14F] == (sum_range(
            gb_fixed(s),
            0,
            s.len() as int,
        ) - gb_fixed(s)[0x14E] - gb_fixed(s)[0x14F]) % 0x10000,
{
    lemma_gb_fixed_bytes(s);
}

proof fn lemma_sum_agree_header(s: Seq<u8>, t: Seq<u8>, b: int)
    requires
        0x134 <= b <= 0x14D,
        s.len() >= 0x150,
        t.len() == s.len(),
        forall|i: int| 0 <= i < s.len() && !(0x14D <= i < 0x150) ==> t[i] == s[i],
    ensures
        sum_range(s, 0x134, b) == sum_range(t, 0x134, b),
    decreases b - 0x134,
{
    if b > 0x134 {
        lemma_sum_agree_header(s, t, b - 1);
    }
}

/// What a Mega Drive fix writes: every byte but 0x18E and 0x18F is kept,
/// and those two hold, big-endian, the sum modulo 2^16 of the big-endian
/// words from 0x200 (an odd trailing byte ignored).
pub proof fn lemma_md_fixed_bytes(s: Seq<u8>)
    requires
        s.len() >= 0x200,
    ensures
        md_fixed(s).len() == s.len(),
        forall|i: int| 0 <= i < s.len() && i != 0x18E && i != 0x18F ==> md_fixed(s)[i] == s[i],
        md_fixed(s)[0x18E] * 0x100 + md_fixed(s)[0x18F] == md_word_sum(s, (s.len() - 0x200) / 2)
            % 0x10000,
{
    let c = md_checksum(s);
    assert(0 <= c < 0x10000);
    assert((c / 0x100) as u8 == c / 0x100);
    assert((c % 0x100) as u8 == c % 0x100);
}

/// `SEGA` at 0x100 marks a Mega Drive header.
pub open spec fn sega_magic() -> Seq<u8> {
    seq![0x53u8, 0x45u8, 0x47u8, 0x41u8]
}

/// The first bytes of the Nintendo logo at 0x104 mark a Game Boy header.
pub open spec fn gb_logo_start() -> Seq<u8> {
    seq![0xCEu8, 0xEDu8, 0x66u8, 0x66u8]
}

/// The cartridge family recognised in `rom`: Mega Drive when `SEGA` stands
/// at 0x100 of a ROM of at least 0x200 bytes, else Game Boy when the logo
/// starts at 0x104 of a ROM of at least 0x150 bytes.
pub open spec fn sniff_spec(rom: Seq<u8>) -> Option<ChecksumFamily> {
    if rom.len() >= 0x200 && rom.subrange(0x100, 0x104) == sega_magic() {
        Some(ChecksumFamily::MegaDrive)
    } else if rom.len() >= 0x150 && rom.subrange(0x104, 0x108) == gb_logo_start() {
        Some(ChecksumFamily::GameBoy)
    } else {
        None
    }
}

/// Recognises the cartridge family of `rom` and recomputes its checksums;
/// returns the family, or `None` (changing nothing) when none is recognised.
pub fn sniff_and_fix(rom: &mut Vec<u8>) -> (r: Option<ChecksumFamily>)
    ensures
        r == sniff_spec(old(rom)@),
        r == Some(ChecksumFamily::MegaDrive) ==> final(rom)@ == md_fixed(old(rom)@),
        r == Some(ChecksumFamily::GameBoy) ==> final(rom)@ == gb_fixed(old(rom)@),
        r is None ==> final(rom)@ == old(rom)@,
{
    let sega: [u8; 4] = [0x53, 0x45, 0x47, 0x41];
    let logo: [u8; 4] = [0xCE, 0xED, 0x66, 0x66];
    proof {
        assert(sega@ == sega_magic());
        assert(logo@ == gb_logo_start());
    }
    if rom.len() >= 0x200 && crate::buf::bytes_eq(&rom.as_slice()[0x100..0x104], &sega) {
        fix_mega_drive(rom.as_mut_slice());
        return Some(ChecksumFamily::MegaDrive);
    }
    if rom.len() >= 0x150 && crate::buf::bytes_eq(&rom.as_slice()[0x104..0x108], &logo) {
        fix_game_boy(rom.as_mut_slice());
        return Some(ChecksumFamily::GameBoy);
    }
    None
}

} // verus!
