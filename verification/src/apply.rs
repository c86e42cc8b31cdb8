//! High-level orchestration: take a ROM and a patch, optionally strip the
//! ROM header, verify input hashes, apply the patch, fix cartridge
//! checksums, verify output hashes, and re-attach the header.
//!
//! `run` is byte-oriented: it does no file I/O. Front-ends read paths, call
//! `run`, and write the resulting bytes themselves.
use vstd::prelude::*;

use crate::buf::to_vec;
use crate::checksum_fix::{
    gb_fixed, md_fixed, sniff_and_fix, sniff_spec, ChecksumFamily,
};
use crate::error::{bytes_result, patch_error_text, PatchError};
use crate::format::{detect_spec, kind_apply_relation, FormatKind};
use crate::hash::{adler32, adler32_of, crc32, crc32_of, hex, md5, md5_of, sha1, sha1_of};
use crate::header::{self, split_point, HeaderKind};
use crate::text::{
    ascii_lower_seq, chars_eq, chars_of, hex_of, hex_u32, is_lower_hex, lemma_hex_of, lower_chars,
    push_hex_u32, push_str, u32_be_bytes,
    string_of, trim_white_space, trim_ws,
};

verus! {

/// One of the four hash algorithms accepted in a `HashSpec`.
#[derive(Debug, Clone, Copy, PartialEq, Eq, Structural)]
pub enum HashAlgo {
    Crc32,
    Md5,
    Sha1,
    Adler32,
}

/// The lowercase name of each algorithm.
pub open spec fn algo_name(a: HashAlgo) -> Seq<char> {
    match a {
        HashAlgo::Crc32 => seq!['c', 'r', 'c', '3', '2'],
        HashAlgo::Md5 => seq!['m', 'd', '5'],
        HashAlgo::Sha1 => seq!['s', 'h', 'a', '1'],
        HashAlgo::Adler32 => seq!['a', 'd', 'l', 'e', 'r', '3', '2'],
    }
}

/// The algorithm a name stands for, compared without ASCII case.
pub open spec fn algo_from_name(name: Seq<char>) -> Option<HashAlgo> {
    let n = ascii_lower_seq(name);
    if n == algo_name(HashAlgo::Crc32) {
        Some(HashAlgo::Crc32)
    } else if n == algo_name(HashAlgo::Md5) {
        Some(HashAlgo::Md5)
    } else if n == algo_name(HashAlgo::Sha1) {
        Some(HashAlgo::Sha1)
    } else if n == algo_name(HashAlgo::Adler32) {
        Some(HashAlgo::Adler32)
    } else {
        None
    }
}

/// The number of hex digits of each algorithm's canonical text.
pub open spec fn hex_len(a: HashAlgo) -> nat {
    match a {
        HashAlgo::Crc32 => 8,
        HashAlgo::Md5 => 32,
        HashAlgo::Sha1 => 40,
        HashAlgo::Adler32 => 8,
    }
}

/// The canonical lowercase hex of the hash of `data`: eight zero-padded
/// digits for the 32-bit checksums, two digits per byte for the digests.
pub open spec fn algo_hex(a: HashAlgo, data: Seq<u8>) -> Seq<char> {
    match a {
        HashAlgo::Crc32 => hex_u32(crc32_of(data)),
        HashAlgo::Md5 => hex_of(md5_of(data)),
        HashAlgo::Sha1 => hex_of(sha1_of(data)),
        HashAlgo::Adler32 => hex_u32(adler32_of(data)),
    }
}

/// An algorithm's name is accepted back by `HashAlgo::parse`.
pub proof fn lemma_algo_name_roundtrip(a: HashAlgo)
    ensures
        algo_from_name(algo_name(a)) == Some(a),
{
    let n = algo_name(a);
    assert(ascii_lower_seq(n) =~= n);
}

fn algo_from_chars(name: &[char]) -> (r: Option<HashAlgo>)
    ensures
        r == algo_from_name(name@),
{
    let lower = lower_chars(name);
    let n = lower.as_slice();
    let crc = ['c', 'r', 'c', '3', '2'];
    let md = ['m', 'd', '5'];
    let sha = ['s', 'h', 'a', '1'];
    let adler = ['a', 'd', 'l', 'e', 'r', '3', '2'];
    proof {
        assert(crc@ == algo_name(HashAlgo::Crc32));
        assert(md@ == algo_name(HashAlgo::Md5));
        assert(sha@ == algo_name(HashAlgo::Sha1));
        assert(adler@ == algo_name(HashAlgo::Adler32));
    }
    if chars_eq(n, &crc) {
        Some(HashAlgo::Crc32)
    } else if chars_eq(n, &md) {
        Some(HashAlgo::Md5)
    } else if chars_eq(n, &sha) {
        Some(HashAlgo::Sha1)
    } else if chars_eq(n, &adler) {
        Some(HashAlgo::Adler32)
    } else {
        None
    }
}

impl HashAlgo {
    pub fn name(self) -> (r: &'static str)
        ensures
            r@ == algo_name(self),
    {
        match self {
            HashAlgo::Crc32 => {
                proof {
                    reveal_strlit("crc32");
                }
                "crc32"
            },
            HashAlgo::Md5 => {
                proof {
                    reveal_strlit("md5");
                }
                "md5"
            },
            HashAlgo::Sha1 => {
                proof {
                    reveal_strlit("sha1");
                }
                "sha1"
            },
            HashAlgo::Adler32 => {
                proof {
                    reveal_strlit("adler32");
                }
                "adler32"
            },
        }
    }

    /// Parses an algorithm name, ignoring ASCII case.
    pub fn parse(name: &str) -> (r: Option<Self>)
        ensures
            r == algo_from_name(name@),
    {
        let chars = chars_of(name);
        algo_from_chars(chars.as_slice())
    }

    /// Computes the hash of `bytes` and returns its canonical lowercase hex:
    /// 8 digits for the checksums, 32 for MD5, 40 for SHA-1.
    pub fn compute_hex(self, bytes: &[u8]) -> (r: String)
        ensures
            r@ == algo_hex(self, bytes@),
            r@.len() == hex_len(self),
            forall|i: int| 0 <= i < r@.len() ==> is_lower_hex(#[trigger] r@[i]),
    {
        match self {
            HashAlgo::Crc32 => {
                let c = crc32(bytes);
                let mut s = String::new();
                push_hex_u32(&mut s, c);
                proof {
                    lemma_hex_of(u32_be_bytes(c));
                }
                s
            },
            HashAlgo::Md5 => {
                let d = md5(bytes);
                proof {
                    lemma_hex_of(d@);
                }
                hex(&d)
            },
            HashAlgo::Sha1 => {
                let d = sha1(bytes);
                proof {
                    lemma_hex_of(d@);
                }
                hex(&d)
            },
            HashAlgo::Adler32 => {
                let c = adler32(bytes);
                let mut s = String::new();
                push_hex_u32(&mut s, c);
                proof {
                    lemma_hex_of(u32_be_bytes(c));
                }
                s
            },
        }
    }
}

/// Expected hash for one side of a patch operation.
#[derive(Debug, Clone, PartialEq, Eq)]
pub struct HashSpec {
    pub algo: HashAlgo,
    /// Lowercase hex string. `parse` normalizes on the way in.
    pub expected_hex: String,
}

/// The index of the first `c` in `s`, or `s.len()` when there is none.
pub open spec fn index_of_char(s: Seq<char>, c: char) -> int
    decreases s.len(),
{
    if s.len() == 0 {
        0
    } else if s[0] == c {
        0
    } else {
        1 + index_of_char(s.drop_first(), c)
    }
}

/// What `HashSpec::parse` makes of `s`: the algorithm before the first `:`
/// and the rest trimmed and lowercased, or the text that is reported as
/// invalid (the whole input when there is no `:`, else the algorithm name).
pub open spec fn hash_spec_parse(s: Seq<char>) -> core::result::Result<
    (HashAlgo, Seq<char>),
    Seq<char>,
> {
    let i = index_of_char(s, ':');
    if i >= s.len() {
        Err(s)
    } else {
        match algo_from_name(s.take(i)) {
            None => Err(s.take(i)),
            Some(a) => Ok((a, ascii_lower_seq(trim_ws(s.skip(i + 1))))),
        }
    }
}

proof fn lemma_index_of_char(s: Seq<char>, c: char)
    ensures
        0 <= index_of_char(s, c) <= s.len(),
        index_of_char(s, c) < s.len() ==> s[index_of_char(s, c)] == c,
        forall|j: int| 0 <= j < index_of_char(s, c) ==> s[j] != c,
    decreases s.len(),
{
    if s.len() > 0 && s[0] != c {
        lemma_index_of_char(s.drop_first(), c);
        assert forall|j: int| 0 <= j < index_of_char(s, c) implies s[j] != c by {
            if j > 0 {
                assert(s[j] == s.drop_first()[j - 1]);
            }
        }
    }
}

proof fn lemma_index_of_char_at(s: Seq<char>, c: char, i: int)
    requires
        0 <= i <= s.len(),
        i < s.len() ==> s[i] == c,
        forall|j: int| 0 <= j < i ==> s[j] != c,
    ensures
        index_of_char(s, c) == i,
    decreases s.len(),
{
    if s.len() > 0 && i > 0 {
        assert forall|j: int| 0 <= j < i - 1 implies s.drop_first()[j] != c by {
            assert(s.drop_first()[j] == s[j + 1]);
        }
        lemma_index_of_char_at(s.drop_first(), c, i - 1);
    }
}

impl HashSpec {
    /// Parses the form `algo:hex` (e.g. `sha1:da39a3ee...`).
    pub fn parse(spec: &str) -> (r: core::result::Result<Self, ApplyError>)
        ensures
            match (r, hash_spec_parse(spec@)) {
                (Ok(h), Ok((a, hex))) => h.algo == a && h.expected_hex@ == hex,
                (Err(ApplyError::InvalidHashSpec(t)), Err(text)) => t@ == text,
                _ => false,
            },
    {
        let chars = chars_of(spec);
        let n = chars.len();
        let mut i: usize = 0;
        while i < n && chars[i] != ':'
            invariant
                i <= n,
                n == chars@.len(),
                forall|j: int| 0 <= j < i ==> chars@[j] != ':',
            decreases n - i,
        {
            i = i + 1;
        }
        proof {
            lemma_index_of_char_at(spec@, ':', i as int);
        }
        if i == n {
            return Err(ApplyError::InvalidHashSpec(string_of(chars.as_slice())));
        }
        let name = &chars.as_slice()[0..i];
        proof {
            assert(name@ == spec@.take(i as int));
        }
        match algo_from_chars(name) {
            None => Err(ApplyError::InvalidHashSpec(string_of(name))),
            Some(algo) => {
                let rest = &chars.as_slice()[i + 1..n];
                proof {
                    assert(rest@ == spec@.skip(i + 1));
                }
                let trimmed = trim_white_space(rest);
                let lower = lower_chars(trimmed.as_slice());
                Ok(HashSpec { algo, expected_hex: string_of(lower.as_slice()) })
            },
        }
    }
}

/// Which side of the patch operation a `HashSpec` was checking.
#[derive(Debug, Clone, Copy, PartialEq, Eq, Structural)]
pub enum HashCheckKind {
    Input,
    Output,
}

/// The name of each side.
pub open spec fn check_kind_name(k: HashCheckKind) -> Seq<char> {
    match k {
        HashCheckKind::Input => seq!['i', 'n', 'p', 'u', 't'],
        HashCheckKind::Output => seq!['o', 'u', 't', 'p', 'u', 't'],
    }
}

impl HashCheckKind {
    pub fn name(self) -> (r: &'static str)
        ensures
            r@ == check_kind_name(self),
    {
        match self {
            HashCheckKind::Input => {
                proof {
                    reveal_strlit("input");
                }
                "input"
            },
            HashCheckKind::Output => {
                proof {
                    reveal_strlit("output");
                }
                "output"
            },
        }
    }
}

/// Inputs to `run`.
#[derive(Debug, Clone)]
pub struct ApplyOptions {
    pub strip_header: bool,
    pub fix_checksum: bool,
    pub verify_input: Option<HashSpec>,
    pub verify_output: Option<HashSpec>,
    pub format_override: Option<FormatKind>,
}

impl Default for ApplyOptions {
    fn default() -> (r: Self)
        ensures
            !r.strip_header,
            !r.fix_checksum,
            r.verify_input is None,
            r.verify_output is None,
            r.format_override is None,
    {
        ApplyOptions {
            strip_header: false,
            fix_checksum: false,
            verify_input: None,
            verify_output: None,
            format_override: None,
        }
    }
}

/// Result of a successful `run` call.
#[derive(Debug, Clone)]
pub struct ApplyOutcome {
    pub format: FormatKind,
    /// Final ROM bytes (header re-attached if it was stripped).
    pub output: Vec<u8>,
    /// `Some(kind)` if a header was detected and stripped before patching.
    pub stripped_header: Option<HeaderKind>,
    /// `Some(family)` if `fix_checksum` was set and a known cartridge family
    /// was detected.
    pub fixed_checksum: Option<ChecksumFamily>,
}

/// Errors returned by `run`.
#[derive(Debug, Clone)]
pub enum ApplyError {
    Patch(PatchError),
    UnknownFormat,
    UnknownFormatName(String),
    InvalidHashSpec(String),
    HashMismatch { kind: HashCheckKind, algo: HashAlgo, expected: String, actual: String },
}

impl From<PatchError> for ApplyError {
    fn from(e: PatchError) -> (r: Self) {
        ApplyError::Patch(e)
    }
}

impl vstd::std_specs::convert::FromSpecImpl<PatchError> for ApplyError {
    open spec fn obeys_from_spec() -> bool {
        true
    }

    open spec fn from_spec(e: PatchError) -> Self {
        ApplyError::Patch(e)
    }
}

/// The text of each error, as it is shown to a user.
pub open spec fn apply_error_text(e: ApplyError) -> Seq<char> {
    match e {
        ApplyError::Patch(p) => patch_error_text(p),
        ApplyError::UnknownFormat => "unknown patch format (no recognized magic bytes)"@,
        ApplyError::UnknownFormatName(name) => "unknown format name: "@ + name@,
        ApplyError::InvalidHashSpec(s) => "invalid hash spec: "@ + s@,
        ApplyError::HashMismatch { kind, algo, expected, actual } => check_kind_name(kind) + " "@
            + algo_name(algo) + " hash mismatch: expected "@ + expected@ + ", got "@ + actual@,
    }
}

impl ApplyError {
    /// The message shown to a user for this error.
    pub fn message(&self) -> (r: String)
        ensures
            r@ == apply_error_text(*self),
    {
        match self {
            ApplyError::Patch(p) => p.message(),
            ApplyError::UnknownFormat => {
                let mut s = String::new();
                push_str(&mut s, "unknown patch format (no recognized magic bytes)");
                s
            },
            ApplyError::UnknownFormatName(name) => {
                let mut s = String::new();
                push_str(&mut s, "unknown format name: ");
                push_str(&mut s, name.as_str());
                s
            },
            ApplyError::InvalidHashSpec(spec) => {
                let mut s = String::new();
                push_str(&mut s, "invalid hash spec: ");
                push_str(&mut s, spec.as_str());
                s
            },
            ApplyError::HashMismatch { kind, algo, expected, actual } => {
                let mut s = String::new();
                push_str(&mut s, kind.name());
                push_str(&mut s, " ");
                push_str(&mut s, algo.name());
                push_str(&mut s, " hash mismatch: expected ");
                push_str(&mut s, expected.as_str());
                push_str(&mut s, ", got ");
                push_str(&mut s, actual.as_str());
                s
            },
        }
    }
}

/// The header that `run` strips: the detected one, when stripping is asked.
pub open spec fn stripped_kind(rom: Seq<u8>, strip: bool) -> Option<HeaderKind> {
    if strip {
        header::detect_spec(rom)
    } else {
        None
    }
}

/// The bytes in front of the body (empty when nothing is stripped).
pub open spec fn header_part(rom: Seq<u8>, h: Option<HeaderKind>) -> Seq<u8> {
    match h {
        Some(k) => rom.take(split_point(rom, k)),
        None => Seq::empty(),
    }
}

/// The bytes that the patch is applied to.
pub open spec fn body_part(rom: Seq<u8>, h: Option<HeaderKind>) -> Seq<u8> {
    match h {
        Some(k) => rom.skip(split_point(rom, k)),
        None => rom,
    }
}

/// Whether `data` passes the optional hash check.
pub open spec fn hash_ok(check: Option<HashSpec>, data: Seq<u8>) -> bool {
    match check {
        None => true,
        Some(s) => algo_hex(s.algo, data) == s.expected_hex@,
    }
}

/// `e` reports that `data` failed the `kind` check against `s`.
pub open spec fn is_mismatch(e: ApplyError, kind: HashCheckKind, s: HashSpec, data: Seq<u8>) -> bool {
    e matches ApplyError::HashMismatch { kind: k, algo, expected, actual } && k == kind && algo
        == s.algo && expected@ == s.expected_hex@ && actual@ == algo_hex(s.algo, data)
}

/// The format `run` uses: the override, else the detected one.
pub open spec fn chosen_format(over: Option<FormatKind>, patch: Seq<u8>) -> Option<FormatKind> {
    match over {
        Some(k) => Some(k),
        None => detect_spec(patch),
    }
}

/// The family recognised and the bytes after the optional checksum fix.
pub open spec fn fix_step(out: Seq<u8>, fix: bool) -> (Option<ChecksumFamily>, Seq<u8>) {
    if !fix {
        (None, out)
    } else {
        match sniff_spec(out) {
            Some(ChecksumFamily::MegaDrive) => (Some(ChecksumFamily::MegaDrive), md_fixed(out)),
            Some(ChecksumFamily::GameBoy) => (Some(ChecksumFamily::GameBoy), gb_fixed(out)),
            None => (None, out),
        }
    }
}

/// What `run` gives once the patch has been applied to the body with
/// result `applied`.
pub open spec fn after_apply(
    rom: Seq<u8>,
    opts: ApplyOptions,
    kind: FormatKind,
    applied: crate::error::Result<Seq<u8>>,
    r: core::result::Result<ApplyOutcome, ApplyError>,
) -> bool {
    let h = stripped_kind(rom, opts.strip_header);
    match applied {
        Err(e) => r matches Err(ApplyError::Patch(pe)) && pe == e,
        Ok(out) => {
            let fam = fix_step(out, opts.fix_checksum).0;
            let fixed = fix_step(out, opts.fix_checksum).1;
            if !hash_ok(opts.verify_output, fixed) {
                r matches Err(e) && is_mismatch(
                    e,
                    HashCheckKind::Output,
                    opts.verify_output->0,
                    fixed,
                )
            } else {
                r matches Ok(o) && o.format == kind && o.output@ == header_part(rom, h) + fixed
                    && o.stripped_header == h && o.fixed_checksum == fam
            }
        },
    }
}

/// The whole pipeline: strip, check the input, pick the format, apply, fix
/// checksums, check the output, re-attach the header.
pub open spec fn run_relation(
    rom: Seq<u8>,
    patch: Seq<u8>,
    opts: ApplyOptions,
    r: core::result::Result<ApplyOutcome, ApplyError>,
) -> bool {
    let h = stripped_kind(rom, opts.strip_header);
    let body = body_part(rom, h);
    if !hash_ok(opts.verify_input, body) {
        r matches Err(e) && is_mismatch(e, HashCheckKind::Input, opts.verify_input->0, body)
    } else {
        match chosen_format(opts.format_override, patch) {
            None => r matches Err(ApplyError::UnknownFormat),
            Some(kind) => exists|applied: crate::error::Result<Seq<u8>>|
                kind_apply_relation(kind, patch, body, applied) && after_apply(
                    rom,
                    opts,
                    kind,
                    applied,
                    r,
                ),
        }
    }
}

/// With no options set, `run` is `format::apply`: it applies the detected
/// format and returns that output unchanged, or that format's error, or
/// `UnknownFormat` when no format is detected.
pub proof fn lemma_run_plain(
    rom: Seq<u8>,
    patch: Seq<u8>,
    opts: ApplyOptions,
    r: core::result::Result<ApplyOutcome, ApplyError>,
)
    requires
        !opts.strip_header,
        !opts.fix_checksum,
        opts.verify_input is None,
        opts.verify_output is None,
        opts.format_override is None,
        run_relation(rom, patch, opts, r),
    ensures
        match detect_spec(patch) {
            None => r matches Err(ApplyError::UnknownFormat),
            Some(k) => forall|applied: crate::error::Result<Seq<u8>>|
                #[trigger] kind_apply_relation(k, patch, rom, applied) ==> match applied {
                    Ok(out) => r matches Ok(o) && o.format == k && o.output@ == out
                        && o.stripped_header is None && o.fixed_checksum is None,
                    Err(e) => r matches Err(ApplyError::Patch(pe)) && pe == e,
                },
        },
{
    if let Some(k) = detect_spec(patch) {
        let chosen = choose|a: crate::error::Result<Seq<u8>>|
            kind_apply_relation(k, patch, rom, a) && after_apply(rom, opts, k, a, r);
        assert forall|applied: crate::error::Result<Seq<u8>>|
            #[trigger] kind_apply_relation(k, patch, rom, applied) implies match applied {
                Ok(out) => r matches Ok(o) && o.format == k && o.output@ == out
                    && o.stripped_header is None && o.fixed_checksum is None,
                Err(e) => r matches Err(ApplyError::Patch(pe)) && pe == e,
            } by {
            crate::format::lemma_apply_relation_unique(k, patch, rom, chosen, applied);
            if let Ok(out) = applied {
                assert(Seq::<u8>::empty() + out =~= out);
            }
        }
    }
}

/// What a successful `run` returns, header by header: the header it strips
/// (the detected one when stripping is asked, none otherwise) comes back
/// byte for byte in front of the output; the input check passed on the body
/// alone; the rest of the output is the patched body after the optional
/// checksum fix, and the output check passed on it.
pub proof fn lemma_run_keeps_header(
    rom: Seq<u8>,
    patch: Seq<u8>,
    opts: ApplyOptions,
    o: ApplyOutcome,
)
    requires
        run_relation(rom, patch, opts, Ok(o)),
    ensures
        ({
            let h = stripped_kind(rom, opts.strip_header);
            let cut = header_part(rom, h).len() as int;
            let body = body_part(rom, h);
            &&& o.stripped_header == h
            &&& !opts.strip_header ==> o.stripped_header is None && cut == 0 && body == rom
            &&& opts.strip_header ==> match header::detect_spec(rom) {
                Some(k) => o.stripped_header == Some(k) && cut == split_point(rom, k)
                    && o.output@.take(cut) == rom.take(cut) && body == rom.skip(cut),
                None => o.stripped_header is None && cut == 0 && body == rom,
            }
            &&& o.output@.take(cut) == header_part(rom, h)
            &&& hash_ok(opts.verify_input, body)
            &&& chosen_format(opts.format_override, patch) == Some(o.format)
            &&& forall|applied: crate::error::Result<Seq<u8>>|
                #[trigger] kind_apply_relation(o.format, patch, body, applied) ==> (
                applied matches Ok(out) && o.output@.skip(cut) == fix_step(
                    out,
                    opts.fix_checksum,
                ).1 && hash_ok(opts.verify_output, fix_step(out, opts.fix_checksum).1)
                    && o.fixed_checksum == fix_step(out, opts.fix_checksum).0)
        }),
{
    let h = stripped_kind(rom, opts.strip_header);
    let hp = header_part(rom, h);
    let body = body_part(rom, h);
    let r = Ok::<ApplyOutcome, ApplyError>(o);
    let kind = chosen_format(opts.format_override, patch)->Some_0;
    let chosen = choose|a: crate::error::Result<Seq<u8>>|
        kind_apply_relation(kind, patch, body, a) && after_apply(rom, opts, kind, a, r);
    let out = chosen->Ok_0;
    let fixed = fix_step(out, opts.fix_checksum).1;
    assert(o.output@ == hp + fixed);
    assert(o.output@.take(hp.len() as int) =~= hp);
    assert(o.output@.skip(hp.len() as int) =~= fixed);
    assert forall|applied: crate::error::Result<Seq<u8>>|
        #[trigger] kind_apply_relation(o.format, patch, body, applied) implies (applied matches Ok(
        out2,
    ) && o.output@.skip(hp.len() as int) == fix_step(out2, opts.fix_checksum).1 && hash_ok(
        opts.verify_output,
        fix_step(out2, opts.fix_checksum).1,
    ) && o.fixed_checksum == fix_step(out2, opts.fix_checksum).0) by {
        crate::format::lemma_apply_relation_unique(kind, patch, body, chosen, applied);
    }
    if let Some(k) = h {
        assert(hp.len() == split_point(rom, k));
    }
}

fn verify(bytes: &[u8], spec: &HashSpec, kind: HashCheckKind) -> (r: core::result::Result<
    (),
    ApplyError,
>)
    ensures
        hash_ok(Some(*spec), bytes@) ==> r is Ok,
        !hash_ok(Some(*spec), bytes@) ==> (r matches Err(e) && is_mismatch(e, kind, *spec, bytes@)),
{
    let actual = spec.algo.compute_hex(bytes);
    if actual != spec.expected_hex {
        return Err(
            ApplyError::HashMismatch {
                kind,
                algo: spec.algo,
                expected: spec.expected_hex.clone(),
                actual,
            },
        );
    }
    Ok(())
}

/// Runs the full apply pipeline against the given ROM and patch bytes.
pub fn run(rom: &[u8], patch: &[u8], opts: &ApplyOptions) -> (r: core::result::Result<
    ApplyOutcome,
    ApplyError,
>)
    ensures
        run_relation(rom@, patch@, *opts, r),
{
    let stripped_header = if opts.strip_header {
        header::detect(rom)
    } else {
        None
    };
    let body: &[u8] = match stripped_header {
        Some(kind) => header::split(rom, kind).1,
        None => rom,
    };
    assert(body@ == body_part(rom@, stripped_header));
    if let Some(spec) = &opts.verify_input {
        if let Err(e) = verify(body, spec, HashCheckKind::Input) {
            return Err(e);
        }
    }
    let kind = match opts.format_override {
        Some(k) => k,
        None => match crate::format::detect(patch) {
            Some(k) => k,
            None => return Err(ApplyError::UnknownFormat),
        },
    };
    let applied = kind.apply(patch, body);
    let ghost applied_model = bytes_result(applied);
    let mut output = match applied {
        Ok(v) => v,
        Err(e) => {
            let r = Err(ApplyError::from(e));
            assert(kind_apply_relation(kind, patch@, body@, applied_model) && after_apply(
                rom@,
                *opts,
                kind,
                applied_model,
                r,
            ));
            return r;
        },
    };
    let ghost out = output@;
    let fixed_checksum = if opts.fix_checksum {
        sniff_and_fix(&mut output)
    } else {
        None
    };
    assert(fixed_checksum == fix_step(out, opts.fix_checksum).0);
    assert(output@ == fix_step(out, opts.fix_checksum).1);
    if let Some(spec) = &opts.verify_output {
        let checked = verify(output.as_slice(), spec, HashCheckKind::Output);
        if let Err(e) = checked {
            let r = Err(e);
            assert(kind_apply_relation(kind, patch@, body@, applied_model) && after_apply(
                rom@,
                *opts,
                kind,
                applied_model,
                r,
            ));
            return r;
        }
    }
    let final_output = match stripped_header {
        Some(h) => {
            let mut joined = to_vec(header::split(rom, h).0);
            joined.append(&mut output);
            joined
        },
        None => output,
    };
    let r = Ok(
        ApplyOutcome { format: kind, output: final_output, stripped_header, fixed_checksum },
    );
    assert(kind_apply_relation(kind, patch@, body@, applied_model) && after_apply(
        rom@,
        *opts,
        kind,
        applied_model,
        r,
    ));
    r
}

} // verus!
