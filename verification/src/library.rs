//! Local content-addressed ROM/patch library: the index and its rules.
//!
//! The library stores three buckets keyed by SHA-256:
//!   `roms/<hash>.bin`, `patches/<hash>.<ext>` and `outputs/<hash>.bin`,
//! and an index that links the three by hash, with human metadata (original
//! file names, apply options, timestamps). This module holds the index and
//! every decision made on it; reading and writing files is left to the
//! front-end, which hands the results in and performs the file operations
//! that come back.
use vstd::prelude::*;

use crate::apply::{algo_hex, apply_error_text, ApplyError, ApplyOptions, ApplyOutcome, HashAlgo};
use crate::checksum_fix::ChecksumFamily;
use crate::error::{io_error_text, patch_error_text, PatchError};
use crate::format::{detect_spec, kind_name, FormatKind};
use crate::hash::{sha256_hex, sha256_of};
use crate::header::HeaderKind;
use crate::text::{
    ascii_lower_seq, chars_of, lemma_text_lt_irreflexive, lemma_text_lt_total, lemma_text_lt_transitive, lower_chars, push_char,
    push_str, str_eq, string_of, text_less, text_lt, hex_of,
};

verus! {

/// The version written into new indexes.
pub const LIBRARY_INDEX_VERSION: u32 = 1;

/// One recorded patch application.
#[derive(Debug, Clone)]
pub struct LibraryEntry {
    pub id: String,
    pub source_rom_hash: String,
    pub source_rom_name: String,
    pub source_rom_size: u64,
    pub patch_hash: String,
    pub patch_name: String,
    pub patch_format: FormatKind,
    pub output_hash: String,
    pub output_name: String,
    pub output_size: u64,
    pub header: Option<HeaderKind>,
    pub fixed_checksum: Option<ChecksumFamily>,
    pub applied_at: String,
    pub apply_options: ApplyOptions,
}

/// One base ROM kept in the library.
#[derive(Debug, Clone)]
pub struct LibraryRomEntry {
    pub id: String,
    pub rom_hash: String,
    pub rom_name: String,
    pub rom_size: u64,
    pub header: Option<HeaderKind>,
    pub added_at: String,
}

/// The whole index.
#[derive(Debug, Clone)]
pub struct LibraryIndex {
    pub version: u32,
    /// Where the library lives, as the front-end names it.
    pub root: String,
    pub roms: Vec<LibraryRomEntry>,
    pub entries: Vec<LibraryEntry>,
}

/// Whether a stored output still has the hash it was recorded with.
#[derive(Debug, Clone, Copy, PartialEq, Eq, Structural)]
pub enum VerifyStatus {
    Match,
    Mismatch,
    Missing,
}

/// Which of an entry's three files to show.
#[derive(Debug, Clone, Copy, PartialEq, Eq, Structural)]
pub enum RevealTarget {
    Source,
    Patch,
    Output,
}

/// What is known of a successful apply when it is recorded: the hashes,
/// names and sizes of its three files and how it was made.
#[derive(Debug, Clone)]
pub struct RecordInput {
    pub source_hash: String,
    pub source_name: String,
    pub source_size: u64,
    pub patch_hash: String,
    pub patch_name: String,
    pub output_hash: String,
    pub output_name: String,
    pub output_size: u64,
    pub format: FormatKind,
    pub header: Option<HeaderKind>,
    pub fixed_checksum: Option<ChecksumFamily>,
    pub apply_options: ApplyOptions,
}

/// Errors of the library and of the operations behind it.
#[derive(Debug)]
pub enum GuiError {
    Io(std::io::Error),
    Apply(ApplyError),
    Patch(PatchError),
    Library(String),
}


// ---------- file names ----------

/// The index of the last `c` in `name[..n]`, or -1.
pub open spec fn last_index(name: Seq<char>, c: char, n: int) -> int
    decreases n,
{
    if n <= 0 {
        -1
    } else if name[n - 1] == c {
        n - 1
    } else {
        last_index(name, c, n - 1)
    }
}

/// The lowercased extension of a file name, as `Path::extension` finds it
/// in the last `/`-separated part: the text after its last `.`; none when
/// it has no `.`, when its only `.` leads, or when it is `..`.
pub open spec fn extension_spec(name: Seq<char>) -> Option<Seq<char>> {
    let file = name.skip(last_index(name, '/', name.len() as int) + 1);
    let i = last_index(file, '.', file.len() as int);
    if i <= 0 || file == seq!['.', '.'] {
        None
    } else {
        Some(ascii_lower_seq(file.skip(i + 1)))
    }
}

proof fn lemma_last_index(name: Seq<char>, c: char, n: int)
    requires
        0 <= n <= name.len(),
    ensures
        -1 <= last_index(name, c, n) < n,
    decreases n,
{
    if n > 0 && name[n - 1] != c {
        lemma_last_index(name, c, n - 1);
    }
}

/// Position of the last `c` in `chars[..n]`, or `n` itself when there is
/// none (so that the answer plus one never underflows): returns `i` with
/// `i - 1 == last_index`.
pub(crate) fn after_last(chars: &[char], c: char, n: usize) -> (r: usize)
    requires
        n <= chars@.len(),
    ensures
        r as int - 1 == last_index(chars@, c, n as int),
        r <= n,
{
    proof {
        lemma_last_index(chars@, c, n as int);
    }
    let mut i = n;
    while i > 0 && chars[i - 1] != c
        invariant
            i <= n <= chars@.len(),
            last_index(chars@, c, n as int) == last_index(chars@, c, i as int),
        decreases i,
    {
        i = i - 1;
    }
    i
}

/// The lowercased extension of a file name (`Path::extension`).
pub fn extension_of(name: &str) -> (r: Option<String>)
    ensures
        match (r, extension_spec(name@)) {
            (None, None) => true,
            (Some(e), Some(x)) => e@ == x,
            _ => false,
        },
{
    let chars = chars_of(name);
    let n = chars.len();
    let start = after_last(chars.as_slice(), '/', n);
    let file = &chars.as_slice()[start..n];
    assert(file@ == name@.skip(start as int));
    let m = file.len();
    let i = after_last(file, '.', m);
    let dots = ['.', '.'];
    assert(dots@ == seq!['.', '.']);
    if i <= 1 || crate::text::chars_eq(file, &dots) {
        return None;
    }
    let ext = lower_chars(&file[i..m]);
    proof {
        assert(file@.subrange(i as int, m as int) == file@.skip(i as int));
    }
    Some(string_of(ext.as_slice()))
}

/// `<hash>.<ext>`, or `<hash>.bin` without a (non-empty) extension.
pub open spec fn content_file_spec(hash: Seq<char>, ext: Option<Seq<char>>) -> Seq<char> {
    match ext {
        Some(e) if e.len() > 0 => hash + seq!['.'] + e,
        _ => hash + seq!['.', 'b', 'i', 'n'],
    }
}

/// The file name of a blob: ROMs and outputs always use `.bin`; patches
/// keep their extension so the format detector still works on round-trip.
pub fn content_file_name(hash: &str, ext: Option<&str>) -> (r: String)
    ensures
        r@ == content_file_spec(
            hash@,
            match ext {
                Some(e) => Some(e@),
                None => None,
            },
        ),
{
    let mut s = String::new();
    push_str(&mut s, hash);
    match ext {
        Some(e) if !e.is_empty() => {
            push_char(&mut s, '.');
            push_str(&mut s, e);
        },
        _ => {
            push_str(&mut s, ".bin");
            proof {
                reveal_strlit(".bin");
            }
        },
    }
    s
}

/// The bucket that holds base ROMs.
pub open spec fn roms_dir() -> Seq<char> {
    seq!['r', 'o', 'm', 's']
}

/// The bucket that holds patches.
pub open spec fn patches_dir() -> Seq<char> {
    seq!['p', 'a', 't', 'c', 'h', 'e', 's']
}

/// The bucket that holds outputs.
pub open spec fn outputs_dir() -> Seq<char> {
    seq!['o', 'u', 't', 'p', 'u', 't', 's']
}

/// `bucket/file`, relative to the library root.
pub open spec fn in_bucket(bucket: Seq<char>, file: Seq<char>) -> Seq<char> {
    bucket + seq!['/'] + file
}

/// Where the base ROM with `hash` is stored.
pub open spec fn rom_file(hash: Seq<char>) -> Seq<char> {
    in_bucket(roms_dir(), content_file_spec(hash, None))
}

/// Where an entry's patch is stored.
pub open spec fn patch_file(e: LibraryEntry) -> Seq<char> {
    in_bucket(patches_dir(), content_file_spec(e.patch_hash@, extension_spec(e.patch_name@)))
}

/// Where an entry's output is stored.
pub open spec fn output_file(e: LibraryEntry) -> Seq<char> {
    in_bucket(outputs_dir(), content_file_spec(e.output_hash@, None))
}

fn bucket_path(bucket: &str, file: String) -> (r: String)
    ensures
        r@ == in_bucket(bucket@, file@),
{
    let mut s = String::new();
    push_str(&mut s, bucket);
    push_char(&mut s, '/');
    push_str(&mut s, file.as_str());
    s
}

/// Where the base ROM with `rom_hash` is stored, relative to the root.
pub fn rom_path_for(rom_hash: &str) -> (r: String)
    ensures
        r@ == rom_file(rom_hash@),
{
    proof {
        reveal_strlit("roms");
    }
    bucket_path("roms", content_file_name(rom_hash, None))
}

/// The stored source, patch and output files for these hashes and this
/// patch name, relative to the root.
fn stored_paths(source_hash: &str, patch_hash: &str, patch_name: &str, output_hash: &str) -> (r: (
    String,
    String,
    String,
))
    ensures
        r.0@ == rom_file(source_hash@),
        r.1@ == in_bucket(
            patches_dir(),
            content_file_spec(patch_hash@, extension_spec(patch_name@)),
        ),
        r.2@ == in_bucket(outputs_dir(), content_file_spec(output_hash@, None)),
{
    proof {
        reveal_strlit("patches");
        reveal_strlit("outputs");
    }
    let ext = extension_of(patch_name);
    let patch_file_name = match &ext {
        Some(e) => content_file_name(patch_hash, Some(e.as_str())),
        None => content_file_name(patch_hash, None),
    };
    (
        rom_path_for(source_hash),
        bucket_path("patches", patch_file_name),
        bucket_path("outputs", content_file_name(output_hash, None)),
    )
}

/// The source, patch and output files of an entry, relative to the root.
pub fn entry_paths(entry: &LibraryEntry) -> (r: (String, String, String))
    ensures
        r.0@ == rom_file(entry.source_rom_hash@),
        r.1@ == patch_file(*entry),
        r.2@ == output_file(*entry),
{
    stored_paths(
        entry.source_rom_hash.as_str(),
        entry.patch_hash.as_str(),
        entry.patch_name.as_str(),
        entry.output_hash.as_str(),
    )
}

/// Where recording `input` stores the source, patch and output: the same
/// files as `entry_paths` gives for the entry it records.
pub fn record_paths(input: &RecordInput) -> (r: (String, String, String))
    ensures
        r.0@ == rom_file(input.source_hash@),
        forall|id: String, now: String|
            r.1@ == patch_file(#[trigger] new_entry(*input, id, now)) && r.2@ == output_file(
                new_entry(*input, id, now),
            ),
{
    stored_paths(
        input.source_hash.as_str(),
        input.patch_hash.as_str(),
        input.patch_name.as_str(),
        input.output_hash.as_str(),
    )
}

// ---------- errors ----------

/// `<prefix><what>` as a library error.
fn library_error(prefix: &str, what: &str) -> (r: GuiError)
    ensures
        r matches GuiError::Library(m) && m@ == prefix@ + what@,
{
    let mut s = String::new();
    push_str(&mut s, prefix);
    push_str(&mut s, what);
    GuiError::Library(s)
}

/// The message of a library error about `what`.
pub open spec fn is_library_error(e: GuiError, prefix: Seq<char>, what: Seq<char>) -> bool {
    e matches GuiError::Library(m) && m@ == prefix + what
}

// ---------- lookups ----------

/// The position of the first entry with this id.
pub open spec fn entry_pos(entries: Seq<LibraryEntry>, id: Seq<char>, i: int) -> Option<int>
    decreases entries.len() - i,
{
    if i < 0 || i >= entries.len() {
        None
    } else if entries[i].id@ == id {
        Some(i)
    } else {
        entry_pos(entries, id, i + 1)
    }
}

proof fn lemma_entry_pos(entries: Seq<LibraryEntry>, id: Seq<char>, i: int)
    requires
        0 <= i <= entries.len(),
    ensures
        entry_pos(entries, id, i) matches Some(k) ==> i <= k < entries.len() && entries[k].id@ == id,
        entry_pos(entries, id, i) is None ==> forall|j: int| i <= j < entries.len() ==> entries[j].id@ != id,
    decreases entries.len() - i,
{
    if i < entries.len() && entries[i].id@ != id {
        lemma_entry_pos(entries, id, i + 1);
    }
}

/// Finds the entry with `entry_id`; `entry not found: <id>` when none has it.
pub fn find_entry(index: &LibraryIndex, entry_id: &str) -> (r: Result<usize, GuiError>)
    ensures
        match entry_pos(index.entries@, entry_id@, 0) {
            Some(k) => r matches Ok(i) && i == k,
            None => r matches Err(e) && is_library_error(e, "entry not found: "@, entry_id@),
        },
{
    let n = index.entries.len();
    let mut i: usize = 0;
    while i < n
        invariant
            i <= n,
            n == index.entries@.len(),
            entry_pos(index.entries@, entry_id@, 0) == entry_pos(index.entries@, entry_id@, i as int),
        decreases n - i,
    {
        if str_eq(index.entries[i].id.as_str(), entry_id) {
            return Ok(i);
        }
        i = i + 1;
    }
    Err(library_error("entry not found: ", entry_id))
}

/// The status of a stored output whose hash was recorded as `expected`:
/// missing when there is no file to hash, else whether the hashes agree.
pub open spec fn status_of(expected: Seq<char>, observed: Option<Seq<char>>) -> VerifyStatus {
    match observed {
        None => VerifyStatus::Missing,
        Some(h) => if h == expected {
            VerifyStatus::Match
        } else {
            VerifyStatus::Mismatch
        },
    }
}

/// The content address of some bytes: their SHA-256 as lowercase hex.
pub open spec fn content_hash(bytes: Seq<u8>) -> Seq<char> {
    hex_of(sha256_of(bytes))
}

/// Checks an entry's output against the bytes of the stored output file
/// (`None` when the file is gone): hashes them with SHA-256 and compares.
pub fn verify(entry: &LibraryEntry, output: Option<&[u8]>) -> (r: VerifyStatus)
    ensures
        r == status_of(
            entry.output_hash@,
            match output {
                Some(b) => Some(content_hash(b@)),
                None => None,
            },
        ),
{
    match output {
        None => VerifyStatus::Missing,
        Some(b) => reapply_status(entry, b),
    }
}

/// The status of an entry whose output was just produced again as
/// `output`: whether its SHA-256 is the recorded one.
pub fn reapply_status(entry: &LibraryEntry, output: &[u8]) -> (r: VerifyStatus)
    ensures
        r == status_of(entry.output_hash@, Some(content_hash(output@))),
{
    let observed = sha256_hex(output);
    if str_eq(observed.as_str(), entry.output_hash.as_str()) {
        VerifyStatus::Match
    } else {
        VerifyStatus::Mismatch
    }
}

/// The file of an entry that `target` names.
pub open spec fn target_file(e: LibraryEntry, target: RevealTarget) -> Seq<char> {
    match target {
        RevealTarget::Source => rom_file(e.source_rom_hash@),
        RevealTarget::Patch => patch_file(e),
        RevealTarget::Output => output_file(e),
    }
}

/// The file to show for an entry, relative to the root.
pub fn reveal_path(index: &LibraryIndex, entry_id: &str, target: RevealTarget) -> (r: Result<
    String,
    GuiError,
>)
    ensures
        match entry_pos(index.entries@, entry_id@, 0) {
            Some(k) => r matches Ok(p) && p@ == target_file(index.entries@[k], target),
            None => r matches Err(e) && is_library_error(e, "entry not found: "@, entry_id@),
        },
{
    proof {
        lemma_entry_pos(index.entries@, entry_id@, 0);
    }
    let k = match find_entry(index, entry_id) {
        Ok(k) => k,
        Err(e) => return Err(e),
    };
    let (source, patch, output) = entry_paths(&index.entries[k]);
    Ok(
        match target {
            RevealTarget::Source => source,
            RevealTarget::Patch => patch,
            RevealTarget::Output => output,
        },
    )
}

// ---------- recording ----------

/// The position of the first base ROM with this hash.
pub open spec fn rom_pos(roms: Seq<LibraryRomEntry>, hash: Seq<char>, i: int) -> Option<int>
    decreases roms.len() - i,
{
    if i < 0 || i >= roms.len() {
        None
    } else if roms[i].rom_hash@ == hash {
        Some(i)
    } else {
        rom_pos(roms, hash, i + 1)
    }
}

proof fn lemma_rom_pos(roms: Seq<LibraryRomEntry>, hash: Seq<char>, i: int)
    requires
        0 <= i <= roms.len(),
    ensures
        rom_pos(roms, hash, i) matches Some(k) ==> i <= k < roms.len() && roms[k].rom_hash@ == hash,
        rom_pos(roms, hash, i) is None ==> forall|j: int|
            i <= j < roms.len() ==> roms[j].rom_hash@ != hash,
    decreases roms.len() - i,
{
    if i < roms.len() && roms[i].rom_hash@ != hash {
        lemma_rom_pos(roms, hash, i + 1);
    }
}

fn find_rom(roms: &Vec<LibraryRomEntry>, hash: &str) -> (r: Option<usize>)
    ensures
        match rom_pos(roms@, hash@, 0) {
            Some(k) => r matches Some(i) && i == k,
            None => r is None,
        },
{
    let n = roms.len();
    let mut i: usize = 0;
    while i < n
        invariant
            i <= n,
            n == roms@.len(),
            rom_pos(roms@, hash@, 0) == rom_pos(roms@, hash@, i as int),
        decreases n - i,
    {
        if str_eq(roms[i].rom_hash.as_str(), hash) {
            return Some(i);
        }
        i = i + 1;
    }
    None
}

/// The position of the first entry linking the same three hashes.
pub open spec fn triple_pos(
    entries: Seq<LibraryEntry>,
    source: Seq<char>,
    patch: Seq<char>,
    output: Seq<char>,
    i: int,
) -> Option<int>
    decreases entries.len() - i,
{
    if i < 0 || i >= entries.len() {
        None
    } else if entries[i].source_rom_hash@ == source && entries[i].patch_hash@ == patch
        && entries[i].output_hash@ == output {
        Some(i)
    } else {
        triple_pos(entries, source, patch, output, i + 1)
    }
}

/// The base ROM that recording `input` registers.
pub open spec fn new_rom(input: RecordInput, id: String, now: String) -> LibraryRomEntry {
    LibraryRomEntry {
        id,
        rom_hash: input.source_hash,
        rom_name: input.source_name,
        rom_size: input.source_size,
        header: input.header,
        added_at: now,
    }
}

/// The entry that recording `input` adds.
pub open spec fn new_entry(input: RecordInput, id: String, now: String) -> LibraryEntry {
    LibraryEntry {
        id,
        source_rom_hash: input.source_hash,
        source_rom_name: input.source_name,
        source_rom_size: input.source_size,
        patch_hash: input.patch_hash,
        patch_name: input.patch_name,
        patch_format: input.format,
        output_hash: input.output_hash,
        output_name: input.output_name,
        output_size: input.output_size,
        header: input.header,
        fixed_checksum: input.fixed_checksum,
        applied_at: now,
        apply_options: input.apply_options,
    }
}

/// `e` with a new timestamp.
pub open spec fn restamped(e: LibraryEntry, now: String) -> LibraryEntry {
    LibraryEntry { applied_at: now, ..e }
}

/// The base ROMs after `hash` is registered: unchanged when a ROM with
/// that hash is already there.
pub open spec fn roms_with(roms: Seq<LibraryRomEntry>, hash: Seq<char>, rom: LibraryRomEntry) -> Seq<
    LibraryRomEntry,
> {
    if rom_pos(roms, hash, 0) is Some {
        roms
    } else {
        roms.push(rom)
    }
}

/// The entries after recording `input`: the entry linking the same three
/// hashes gets the new time, or a new entry is appended.
pub open spec fn recorded_entries(
    entries: Seq<LibraryEntry>,
    input: RecordInput,
    id: String,
    now: String,
) -> Seq<LibraryEntry> {
    match triple_pos(entries, input.source_hash@, input.patch_hash@, input.output_hash@, 0) {
        Some(k) => entries.update(k, restamped(entries[k], now)),
        None => entries.push(new_entry(input, id, now)),
    }
}

proof fn lemma_triple_pos_found(
    entries: Seq<LibraryEntry>,
    source: Seq<char>,
    patch: Seq<char>,
    output: Seq<char>,
    i: int,
    j: int,
)
    requires
        0 <= i <= j < entries.len(),
        entries[j].source_rom_hash@ == source,
        entries[j].patch_hash@ == patch,
        entries[j].output_hash@ == output,
    ensures
        triple_pos(entries, source, patch, output, i) is Some,
    decreases j - i,
{
    if i < j && !(entries[i].source_rom_hash@ == source && entries[i].patch_hash@ == patch
        && entries[i].output_hash@ == output) {
        lemma_triple_pos_found(entries, source, patch, output, i + 1, j);
    }
}

proof fn lemma_triple_pos_in(
    entries: Seq<LibraryEntry>,
    source: Seq<char>,
    patch: Seq<char>,
    output: Seq<char>,
    i: int,
)
    requires
        0 <= i <= entries.len(),
    ensures
        triple_pos(entries, source, patch, output, i) matches Some(k) ==> i <= k < entries.len()
            && entries[k].source_rom_hash@ == source && entries[k].patch_hash@ == patch
            && entries[k].output_hash@ == output,
    decreases entries.len() - i,
{
    if i < entries.len() && !(entries[i].source_rom_hash@ == source && entries[i].patch_hash@
        == patch && entries[i].output_hash@ == output) {
        lemma_triple_pos_in(entries, source, patch, output, i + 1);
    }
}

/// Recording the same application twice keeps one entry for it: the second
/// record only refreshes the time of the entry the first one left.
pub proof fn lemma_record_twice(
    entries: Seq<LibraryEntry>,
    input: RecordInput,
    id1: String,
    now1: String,
    id2: String,
    now2: String,
)
    ensures
        recorded_entries(recorded_entries(entries, input, id1, now1), input, id2, now2).len()
            == recorded_entries(entries, input, id1, now1).len(),
{
    let once = recorded_entries(entries, input, id1, now1);
    let (s, p, o) = (input.source_hash@, input.patch_hash@, input.output_hash@);
    lemma_triple_pos_in(entries, s, p, o, 0);
    match triple_pos(entries, s, p, o, 0) {
        Some(k) => {
            assert(once[k].source_rom_hash@ == s && once[k].patch_hash@ == p && once[k].output_hash@ == o);
            lemma_triple_pos_found(once, s, p, o, 0, k);
        },
        None => {
            let j = entries.len() as int;
            assert(once[j] == new_entry(input, id1, now1));
            lemma_triple_pos_found(once, s, p, o, 0, j);
        },
    }
    lemma_triple_pos_in(once, s, p, o, 0);
}

/// Importing the same ROM twice registers it once.
pub proof fn lemma_import_twice(
    roms: Seq<LibraryRomEntry>,
    hash: Seq<char>,
    first: LibraryRomEntry,
    second: LibraryRomEntry,
)
    requires
        first.rom_hash@ == hash,
    ensures
        roms_with(roms_with(roms, hash, first), hash, second) == roms_with(roms, hash, first),
{
    lemma_rom_pos(roms, hash, 0);
    if rom_pos(roms, hash, 0) is None {
        lemma_rom_pos_found(roms.push(first), hash, 0, roms.len() as int);
    }
}

/// Whether two entries link the same source ROM, patch and output.
pub open spec fn same_triple(a: LibraryEntry, b: LibraryEntry) -> bool {
    a.source_rom_hash@ == b.source_rom_hash@ && a.patch_hash@ == b.patch_hash@ && a.output_hash@
        == b.output_hash@
}

/// No two entries link the same three hashes.
pub open spec fn unique_triples(entries: Seq<LibraryEntry>) -> bool {
    forall|i: int, j: int|
        0 <= i < j < entries.len() ==> !same_triple(#[trigger] entries[i], #[trigger] entries[j])
}

/// No two base ROMs have the same hash.
pub open spec fn unique_roms(roms: Seq<LibraryRomEntry>) -> bool {
    forall|i: int, j: int|
        0 <= i < j < roms.len() ==> #[trigger] roms[i].rom_hash@ != #[trigger] roms[j].rom_hash@
}

/// Recording keeps both uniqueness properties of the index. The recorded
/// entry links the three hashes of `input`: an entry that already linked
/// them keeps its identity and place, and only its time changes; otherwise
/// the new entry is appended. Exactly one base ROM then has the source hash.
pub proof fn lemma_record_keeps_uniqueness(
    entries: Seq<LibraryEntry>,
    roms: Seq<LibraryRomEntry>,
    input: RecordInput,
    rom_id: String,
    entry_id: String,
    now: String,
)
    requires
        unique_triples(entries),
        unique_roms(roms),
    ensures
        unique_triples(recorded_entries(entries, input, entry_id, now)),
        unique_roms(roms_with(roms, input.source_hash@, new_rom(input, rom_id, now))),
        match triple_pos(entries, input.source_hash@, input.patch_hash@, input.output_hash@, 0) {
            Some(k) => {
                let after = recorded_entries(entries, input, entry_id, now);
                &&& 0 <= k < entries.len()
                &&& after.len() == entries.len()
                &&& after[k] == restamped(entries[k], now)
                &&& after[k].id == entries[k].id
                &&& same_triple(after[k], new_entry(input, entry_id, now))
            },
            None => recorded_entries(entries, input, entry_id, now) == entries.push(
                new_entry(input, entry_id, now),
            ),
        },
        ({
            let rs = roms_with(roms, input.source_hash@, new_rom(input, rom_id, now));
            &&& exists|k: int| 0 <= k < rs.len() && #[trigger] rs[k].rom_hash@ == input.source_hash@
            &&& forall|i: int, j: int|
                0 <= i < rs.len() && 0 <= j < rs.len() && rs[i].rom_hash@ == input.source_hash@
                    && rs[j].rom_hash@ == input.source_hash@ ==> i == j
        }),
{
    let (s, p, o) = (input.source_hash@, input.patch_hash@, input.output_hash@);
    let after = recorded_entries(entries, input, entry_id, now);
    lemma_triple_pos_in(entries, s, p, o, 0);
    match triple_pos(entries, s, p, o, 0) {
        Some(k) => {
            assert forall|i: int, j: int| 0 <= i < j < after.len() implies !same_triple(
                #[trigger] after[i],
                #[trigger] after[j],
            ) by {
                assert(same_triple(after[i], entries[i]));
                assert(same_triple(after[j], entries[j]));
            }
        },
        None => {
            let n = entries.len() as int;
            assert forall|i: int, j: int| 0 <= i < j < after.len() implies !same_triple(
                #[trigger] after[i],
                #[trigger] after[j],
            ) by {
                if j == n {
                    if same_triple(entries[i], new_entry(input, entry_id, now)) {
                        lemma_triple_pos_found(entries, s, p, o, 0, i);
                    }
                } else {
                    assert(after[i] == entries[i] && after[j] == entries[j]);
                }
            }
        },
    }
    let rs = roms_with(roms, s, new_rom(input, rom_id, now));
    lemma_rom_pos(roms, s, 0);
    match rom_pos(roms, s, 0) {
        Some(k) => {
            assert(rs[k].rom_hash@ == s);
        },
        None => {
            let n = roms.len() as int;
            assert(rs[n].rom_hash@ == s);
            assert forall|i: int, j: int| 0 <= i < j < rs.len() implies #[trigger] rs[i].rom_hash@
                != #[trigger] rs[j].rom_hash@ by {
                if j < n {
                    assert(rs[i] == roms[i] && rs[j] == roms[j]);
                } else {
                    assert(rs[i] == roms[i]);
                }
            }
        },
    }
    assert forall|i: int, j: int|
        0 <= i < rs.len() && 0 <= j < rs.len() && rs[i].rom_hash@ == s && rs[j].rom_hash@
            == s implies i == j by {
        if i < j {
            assert(rs[i].rom_hash@ != rs[j].rom_hash@);
        } else if j < i {
            assert(rs[j].rom_hash@ != rs[i].rom_hash@);
        }
    }
}

proof fn lemma_rom_pos_found(roms: Seq<LibraryRomEntry>, hash: Seq<char>, i: int, j: int)
    requires
        0 <= i <= j < roms.len(),
        roms[j].rom_hash@ == hash,
    ensures
        rom_pos(roms, hash, i) is Some,
    decreases j - i,
{
    if i < j && roms[i].rom_hash@ != hash {
        lemma_rom_pos_found(roms, hash, i + 1, j);
    }
}

/// Records a successful apply: registers the source ROM if it is new, and
/// either refreshes the timestamp of the entry that links the same three
/// hashes or appends a new entry. Returns the position of the entry.
/// `rom_id` and `entry_id` are fresh identifiers and `now` the current
/// time, all made by the caller.
pub fn record(
    index: &mut LibraryIndex,
    input: RecordInput,
    rom_id: String,
    entry_id: String,
    now: String,
) -> (r: usize)
    ensures
        final(index).version == old(index).version,
        final(index).root == old(index).root,
        final(index).roms@ == roms_with(
            old(index).roms@,
            input.source_hash@,
            new_rom(input, rom_id, now),
        ),
        final(index).entries@ == recorded_entries(old(index).entries@, input, entry_id, now),
        match triple_pos(
            old(index).entries@,
            input.source_hash@,
            input.patch_hash@,
            input.output_hash@,
            0,
        ) {
            Some(k) => r == k,
            None => r == old(index).entries@.len(),
        },
{
    let ghost now0 = now;
    if find_rom(&index.roms, input.source_hash.as_str()).is_none() {
        let rom = LibraryRomEntry {
            id: rom_id,
            rom_hash: input.source_hash.clone(),
            rom_name: input.source_name.clone(),
            rom_size: input.source_size,
            header: input.header,
            added_at: now.clone(),
        };
        index.roms.push(rom);
    }
    let n = index.entries.len();
    let mut i: usize = 0;
    while i < n
        invariant
            i <= n,
            n == index.entries@.len(),
            index.entries@ == old(index).entries@,
            now0 == now,
            index.version == old(index).version,
            index.root == old(index).root,
            index.roms@ == roms_with(old(index).roms@, input.source_hash@, new_rom(input, rom_id, now)),
            triple_pos(old(index).entries@, input.source_hash@, input.patch_hash@, input.output_hash@, 0)
                == triple_pos(old(index).entries@, input.source_hash@, input.patch_hash@, input.output_hash@, i as int),
        decreases n - i,
    {
        let e = &index.entries[i];
        if str_eq(e.source_rom_hash.as_str(), input.source_hash.as_str()) && str_eq(
            e.patch_hash.as_str(),
            input.patch_hash.as_str(),
        ) && str_eq(e.output_hash.as_str(), input.output_hash.as_str()) {
            let mut found = index.entries.remove(i);
            found.applied_at = now;
            index.entries.insert(i, found);
            proof {
                assert(index.entries@ =~= old(index).entries@.update(
                    i as int,
                    restamped(old(index).entries@[i as int], now0),
                ));
            }
            return i;
        }
        i = i + 1;
    }
    let entry = LibraryEntry {
        id: entry_id,
        source_rom_hash: input.source_hash,
        source_rom_name: input.source_name,
        source_rom_size: input.source_size,
        patch_hash: input.patch_hash,
        patch_name: input.patch_name,
        patch_format: input.format,
        output_hash: input.output_hash,
        output_name: input.output_name,
        output_size: input.output_size,
        header: input.header,
        fixed_checksum: input.fixed_checksum,
        applied_at: now,
        apply_options: input.apply_options,
    };
    index.entries.push(entry);
    n
}

/// A base ROM with exactly these fields.
pub open spec fn rom_entry_is(
    e: LibraryRomEntry,
    id: String,
    hash: Seq<char>,
    name: String,
    size: u64,
    header: Option<HeaderKind>,
    now: String,
) -> bool {
    e.id == id && e.rom_hash@ == hash && e.rom_name == name && e.rom_size == size && e.header
        == header && e.added_at == now
}

/// The leading bytes of a file that are checked for patch magic.
pub open spec fn magic_prefix(bytes: Seq<u8>) -> Seq<u8> {
    if bytes.len() < 64 {
        bytes
    } else {
        bytes.take(64)
    }
}

/// Registers a bare ROM by its bytes. A file whose first 64 bytes carry the
/// magic of a known patch format is refused, and nothing changes. Otherwise
/// returns the position of the ROM with the same SHA-256 when there is one,
/// else appends a new ROM (with the caller's fresh `id` and current time
/// `now`) and returns its position.
pub fn import_rom(
    index: &mut LibraryIndex,
    rom: &[u8],
    rom_name: String,
    header: Option<HeaderKind>,
    id: String,
    now: String,
) -> (r: Result<usize, GuiError>)
    ensures
        match detect_spec(magic_prefix(rom@)) {
            Some(f) => {
                &&& r matches Err(GuiError::Library(m)) && m@ == patch_not_rom_text(rom_name@, f)
                &&& *final(index) == *old(index)
            },
            None => {
                &&& r is Ok
                &&& final(index).version == old(index).version
                &&& final(index).root == old(index).root
                &&& final(index).entries@ == old(index).entries@
                &&& final(index).roms@ == roms_with(
                    old(index).roms@,
                    content_hash(rom@),
                    final(index).roms@.last(),
                )
                &&& match rom_pos(old(index).roms@, content_hash(rom@), 0) {
                    Some(k) => (r matches Ok(i) && i == k) && final(index).roms@ == old(index).roms@,
                    None => {
                        &&& r matches Ok(i) && i == old(index).roms@.len()
                        &&& final(index).roms@.len() == old(index).roms@.len() + 1
                        &&& final(index).roms@.take(old(index).roms@.len() as int) == old(index).roms@
                        &&& rom_entry_is(
                            final(index).roms@[old(index).roms@.len() as int],
                            id,
                            content_hash(rom@),
                            rom_name,
                            rom@.len() as u64,
                            header,
                            now,
                        )
                    },
                }
            },
        },
{
    let cut = if rom.len() < 64 {
        rom.len()
    } else {
        64
    };
    let magic = &rom[0..cut];
    proof {
        assert(magic@ =~= magic_prefix(rom@));
    }
    match check_not_patch(magic, rom_name.as_str()) {
        Err(e) => return Err(e),
        Ok(()) => {},
    }
    let rom_hash = sha256_hex(rom);
    let rom_size = rom.len() as u64;
    proof {
        lemma_rom_pos(index.roms@, rom_hash@, 0);
    }
    match find_rom(&index.roms, rom_hash.as_str()) {
        Some(k) => Ok(k),
        None => {
            let n = index.roms.len();
            index.roms.push(LibraryRomEntry { id, rom_hash, rom_name, rom_size, header, added_at: now });
            proof {
                assert(index.roms@.take(n as int) =~= old(index).roms@);
                assert(index.roms@ =~= old(index).roms@.push(index.roms@.last()));
            }
            Ok(n)
        },
    }
}

/// What is recorded of an apply, from the three files' bytes: their SHA-256
/// content addresses and sizes, with the names and how the output was made.
pub fn record_input(
    source: &[u8],
    source_name: String,
    patch: &[u8],
    patch_name: String,
    output: &[u8],
    output_name: String,
    format: FormatKind,
    header: Option<HeaderKind>,
    fixed_checksum: Option<ChecksumFamily>,
    apply_options: ApplyOptions,
) -> (r: RecordInput)
    ensures
        r.source_hash@ == content_hash(source@),
        r.source_name == source_name,
        r.source_size == source@.len(),
        r.patch_hash@ == content_hash(patch@),
        r.patch_name == patch_name,
        r.output_hash@ == content_hash(output@),
        r.output_name == output_name,
        r.output_size == output@.len(),
        r.format == format,
        r.header == header,
        r.fixed_checksum == fixed_checksum,
        r.apply_options == apply_options,
{
    RecordInput {
        source_hash: sha256_hex(source),
        source_name,
        source_size: source.len() as u64,
        patch_hash: sha256_hex(patch),
        patch_name,
        output_hash: sha256_hex(output),
        output_name,
        output_size: output.len() as u64,
        format,
        header,
        fixed_checksum,
        apply_options,
    }
}

/// The message given when a file with patch magic is offered as a ROM.
pub open spec fn patch_not_rom_text(file_name: Seq<char>, format: FormatKind) -> Seq<char> {
    file_name + " looks like a "@ + kind_name(format)
        + " patch, not a ROM. Patches can't be imported as ROMs - apply them to a ROM from the Patch page instead."@
}

/// Refuses a file whose first bytes carry the magic of a known patch
/// format: patching a patch is never the intent.
pub fn check_not_patch(magic: &[u8], file_name: &str) -> (r: Result<(), GuiError>)
    ensures
        match detect_spec(magic@) {
            None => r is Ok,
            Some(f) => r matches Err(GuiError::Library(m)) && m@ == patch_not_rom_text(file_name@, f),
        },
{
    match crate::format::detect(magic) {
        None => Ok(()),
        Some(f) => {
            let mut s = String::new();
            push_str(&mut s, file_name);
            push_str(&mut s, " looks like a ");
            push_str(&mut s, f.name());
            push_str(
                &mut s,
                " patch, not a ROM. Patches can't be imported as ROMs - apply them to a ROM from the Patch page instead.",
            );
            Err(GuiError::Library(s))
        },
    }
}

// ---------- deleting ----------

/// The texts of a list of strings.
pub open spec fn texts(v: Seq<String>) -> Seq<Seq<char>> {
    v.map_values(|s: String| s@)
}

/// Whether some entry uses the patch with this hash.
pub open spec fn uses_patch(entries: Seq<LibraryEntry>, hash: Seq<char>) -> bool {
    exists|i: int| 0 <= i < entries.len() && #[trigger] entries[i].patch_hash@ == hash
}

/// Whether some entry produced the output with this hash.
pub open spec fn uses_output(entries: Seq<LibraryEntry>, hash: Seq<char>) -> bool {
    exists|i: int| 0 <= i < entries.len() && #[trigger] entries[i].output_hash@ == hash
}

/// The blobs of `removed` that no entry of `rest` refers to any more: its
/// patch, then its output.
pub open spec fn orphan_files(removed: LibraryEntry, rest: Seq<LibraryEntry>) -> Seq<Seq<char>> {
    (if uses_patch(rest, removed.patch_hash@) {
        Seq::empty()
    } else {
        seq![patch_file(removed)]
    }) + (if uses_output(rest, removed.output_hash@) {
        Seq::empty()
    } else {
        seq![output_file(removed)]
    })
}

fn push_text(files: &mut Vec<String>, f: String)
    ensures
        texts(final(files)@) == texts(old(files)@).push(f@),
{
    let ghost before = files@;
    files.push(f);
    proof {
        assert(texts(files@) =~= texts(before).push(f@));
    }
}

fn any_patch(entries: &Vec<LibraryEntry>, hash: &str) -> (r: bool)
    ensures
        r == uses_patch(entries@, hash@),
{
    let n = entries.len();
    let mut i: usize = 0;
    while i < n
        invariant
            i <= n,
            n == entries@.len(),
            forall|j: int| 0 <= j < i ==> entries@[j].patch_hash@ != hash@,
        decreases n - i,
    {
        if str_eq(entries[i].patch_hash.as_str(), hash) {
            return true;
        }
        i = i + 1;
    }
    false
}

fn any_output(entries: &Vec<LibraryEntry>, hash: &str) -> (r: bool)
    ensures
        r == uses_output(entries@, hash@),
{
    let n = entries.len();
    let mut i: usize = 0;
    while i < n
        invariant
            i <= n,
            n == entries@.len(),
            forall|j: int| 0 <= j < i ==> entries@[j].output_hash@ != hash@,
        decreases n - i,
    {
        if str_eq(entries[i].output_hash.as_str(), hash) {
            return true;
        }
        i = i + 1;
    }
    false
}

/// Appends the orphaned blobs of `removed`.
fn push_orphans(files: &mut Vec<String>, removed: &LibraryEntry, rest: &Vec<LibraryEntry>)
    ensures
        texts(final(files)@) == texts(old(files)@) + orphan_files(*removed, rest@),
{
    let ghost before = texts(files@);
    let (_, patch, output) = entry_paths(removed);
    if !any_patch(rest, removed.patch_hash.as_str()) {
        push_text(files, patch);
    }
    if !any_output(rest, removed.output_hash.as_str()) {
        push_text(files, output);
    }
    proof {
        assert(texts(files@) =~= before + orphan_files(*removed, rest@));
    }
}

/// Removes the entry with `entry_id` and returns the blobs (relative to the
/// root) that only it referred to: its patch and output unless another
/// entry shares them. The source ROM stays. An unknown id is refused with
/// `entry not found: <id>` and nothing changes.
pub fn delete_entry(index: &mut LibraryIndex, entry_id: &str) -> (r: Result<Vec<String>, GuiError>)
    ensures
        match entry_pos(old(index).entries@, entry_id@, 0) {
            None => (r matches Err(e) && is_library_error(e, "entry not found: "@, entry_id@))
                && *final(index) == *old(index),
            Some(k) => {
                &&& final(index).entries@ == old(index).entries@.remove(k)
                &&& final(index).roms@ == old(index).roms@
                &&& final(index).version == old(index).version
                &&& final(index).root == old(index).root
                &&& r matches Ok(v) && texts(v@) == orphan_files(
                    old(index).entries@[k],
                    old(index).entries@.remove(k),
                )
            },
        },
{
    proof {
        lemma_entry_pos(index.entries@, entry_id@, 0);
    }
    let k = match find_entry(index, entry_id) {
        Ok(k) => k,
        Err(e) => return Err(e),
    };
    let removed = index.entries.remove(k);
    let mut files: Vec<String> = Vec::new();
    proof {
        assert(texts(files@) =~= Seq::empty());
    }
    push_orphans(&mut files, &removed, &index.entries);
    proof {
        assert(texts(files@) =~= orphan_files(removed, index.entries@));
    }
    Ok(files)
}

/// The entries whose source ROM is not `hash`, in order.
pub open spec fn kept_entries(s: Seq<LibraryEntry>, hash: Seq<char>) -> Seq<LibraryEntry>
    decreases s.len(),
{
    if s.len() == 0 {
        s
    } else if s.last().source_rom_hash@ == hash {
        kept_entries(s.drop_last(), hash)
    } else {
        kept_entries(s.drop_last(), hash).push(s.last())
    }
}

/// The entries whose source ROM is `hash`, in order.
pub open spec fn entries_of_rom(s: Seq<LibraryEntry>, hash: Seq<char>) -> Seq<LibraryEntry>
    decreases s.len(),
{
    if s.len() == 0 {
        s
    } else if s.last().source_rom_hash@ == hash {
        entries_of_rom(s.drop_last(), hash).push(s.last())
    } else {
        entries_of_rom(s.drop_last(), hash)
    }
}

/// Deleting a ROM leaves no entry that was made from it, and keeps every
/// other entry.
pub proof fn lemma_kept_entries(s: Seq<LibraryEntry>, hash: Seq<char>)
    ensures
        !uses_rom(kept_entries(s, hash), hash),
        kept_entries(s, hash).len() + entries_of_rom(s, hash).len() == s.len(),
    decreases s.len(),
{
    if s.len() > 0 {
        lemma_kept_entries(s.drop_last(), hash);
        let k = kept_entries(s, hash);
        let k0 = kept_entries(s.drop_last(), hash);
        assert forall|i: int| 0 <= i < k.len() implies #[trigger] k[i].source_rom_hash@ != hash by {
            if i < k0.len() {
                assert(k[i] == k0[i]);
                assert(!(k0[i].source_rom_hash@ == hash));
            }
        }
    }
}

/// The blobs that removing the entries `c` orphans, given the entries
/// `kept` that remain: for each removed entry in turn, its orphaned patch
/// and output.
pub open spec fn cascade_files(c: Seq<LibraryEntry>, kept: Seq<LibraryEntry>) -> Seq<Seq<char>>
    decreases c.len(),
{
    if c.len() == 0 {
        Seq::empty()
    } else {
        cascade_files(c.drop_last(), kept) + orphan_files(c.last(), kept)
    }
}

/// Blob `f` is the patch or the output of `e` that no entry of `kept`
/// refers to.
pub open spec fn orphaned_blob_of(f: Seq<char>, e: LibraryEntry, kept: Seq<LibraryEntry>) -> bool {
    (f == patch_file(e) && !uses_patch(kept, e.patch_hash@)) || (f == output_file(e)
        && !uses_output(kept, e.output_hash@))
}

/// The blobs that removing `c` unlinks are exactly the orphaned ones: the
/// patch and the output of every removed entry that no kept entry refers
/// to are listed, and every listed blob is such an orphaned patch or
/// output of a removed entry.
pub proof fn lemma_cascade_files(c: Seq<LibraryEntry>, kept: Seq<LibraryEntry>)
    ensures
        forall|i: int|
            0 <= i < c.len() && !uses_patch(kept, c[i].patch_hash@) ==> #[trigger] cascade_files(
                c,
                kept,
            ).contains(patch_file(c[i])),
        forall|i: int|
            0 <= i < c.len() && !uses_output(kept, c[i].output_hash@) ==> #[trigger] cascade_files(
                c,
                kept,
            ).contains(output_file(c[i])),
        forall|f: Seq<char>| #[trigger]
            cascade_files(c, kept).contains(f) ==> exists|i: int|
                0 <= i < c.len() && orphaned_blob_of(f, #[trigger] c[i], kept),
    decreases c.len(),
{
    if c.len() > 0 {
        let d = c.drop_last();
        let e = c.last();
        let a = cascade_files(d, kept);
        let b = orphan_files(e, kept);
        let all = cascade_files(c, kept);
        lemma_cascade_files(d, kept);
        assert(all == a + b);
        assert forall|x: Seq<char>| a.contains(x) implies all.contains(x) by {
            let j = choose|j: int| 0 <= j < a.len() && a[j] == x;
            assert(all[j] == x);
        }
        assert forall|x: Seq<char>| b.contains(x) implies all.contains(x) by {
            let j = choose|j: int| 0 <= j < b.len() && b[j] == x;
            assert(all[a.len() + j] == x);
        }
        assert forall|i: int|
            0 <= i < c.len() && !uses_patch(kept, c[i].patch_hash@) implies #[trigger] all.contains(
            patch_file(c[i]),
        ) by {
            if i < d.len() {
                assert(d[i] == c[i]);
                assert(a.contains(patch_file(d[i])));
            } else {
                assert(b[0] == patch_file(e));
                assert(b.contains(patch_file(e)));
            }
        }
        assert forall|i: int|
            0 <= i < c.len() && !uses_output(kept, c[i].output_hash@) implies #[trigger] all.contains(
            output_file(c[i]),
        ) by {
            if i < d.len() {
                assert(d[i] == c[i]);
                assert(a.contains(output_file(d[i])));
            } else {
                assert(b[b.len() - 1] == output_file(e));
                assert(b.contains(output_file(e)));
            }
        }
        assert forall|f: Seq<char>| #[trigger] all.contains(f) implies exists|i: int|
            0 <= i < c.len() && orphaned_blob_of(f, #[trigger] c[i], kept) by {
            let j = choose|j: int| 0 <= j < all.len() && all[j] == f;
            if j < a.len() {
                assert(a[j] == f);
                assert(a.contains(f));
                let i = choose|i: int| 0 <= i < d.len() && orphaned_blob_of(f, #[trigger] d[i], kept);
                assert(d[i] == c[i]);
            } else {
                assert(b[j - a.len()] == f);
                assert(orphaned_blob_of(f, c[c.len() - 1], kept));
            }
        }
    }
}

/// With base ROMs unique by hash, deleting a ROM leaves none with its hash.
pub proof fn lemma_delete_rom_leaves_no_rom(roms: Seq<LibraryRomEntry>, hash: Seq<char>)
    requires
        unique_roms(roms),
    ensures
        ({
            let left = match rom_pos(roms, hash, 0) {
                Some(p) => roms.remove(p),
                None => roms,
            };
            forall|i: int| 0 <= i < left.len() ==> #[trigger] left[i].rom_hash@ != hash
        }),
{
    lemma_rom_pos(roms, hash, 0);
    if let Some(p) = rom_pos(roms, hash, 0) {
        let left = roms.remove(p);
        assert forall|i: int| 0 <= i < left.len() implies #[trigger] left[i].rom_hash@ != hash by {
            if i < p {
                assert(left[i] == roms[i]);
            } else {
                assert(left[i] == roms[i + 1]);
                assert(roms[p].rom_hash@ != roms[i + 1].rom_hash@);
            }
        }
    }
}

/// Whether some entry was made from the ROM with this hash.
pub open spec fn uses_rom(entries: Seq<LibraryEntry>, hash: Seq<char>) -> bool {
    exists|i: int| 0 <= i < entries.len() && #[trigger] entries[i].source_rom_hash@ == hash
}

fn any_from_rom(entries: &Vec<LibraryEntry>, hash: &str) -> (r: bool)
    ensures
        r == uses_rom(entries@, hash@),
{
    let n = entries.len();
    let mut i: usize = 0;
    while i < n
        invariant
            i <= n,
            n == entries@.len(),
            forall|j: int| 0 <= j < i ==> entries@[j].source_rom_hash@ != hash@,
        decreases n - i,
    {
        if str_eq(entries[i].source_rom_hash.as_str(), hash) {
            return true;
        }
        i = i + 1;
    }
    false
}

/// Removes a base ROM with every entry made from it, and returns the blobs
/// to unlink (relative to the root): the ROM file, then for each removed
/// entry its patch and output unless a remaining entry still refers to
/// them. A hash that neither a ROM nor an entry has is refused with
/// `rom not found: <hash>` and nothing changes.
pub fn delete_rom(index: &mut LibraryIndex, rom_hash: &str) -> (r: Result<Vec<String>, GuiError>)
    ensures
        r is Err <==> (rom_pos(old(index).roms@, rom_hash@, 0) is None && !uses_rom(
            old(index).entries@,
            rom_hash@,
        )),
        ({
            let rp = rom_pos(old(index).roms@, rom_hash@, 0);
            let kept = kept_entries(old(index).entries@, rom_hash@);
            if rp is None && !uses_rom(old(index).entries@, rom_hash@) {
                (r matches Err(e) && is_library_error(e, "rom not found: "@, rom_hash@))
                    && *final(index) == *old(index)
            } else {
                &&& final(index).roms@ == (match rp {
                    Some(p) => old(index).roms@.remove(p),
                    None => old(index).roms@,
                })
                &&& final(index).entries@ == kept
                &&& final(index).version == old(index).version
                &&& final(index).root == old(index).root
                &&& r matches Ok(v) && texts(v@) == seq![rom_file(rom_hash@)] + cascade_files(
                    entries_of_rom(old(index).entries@, rom_hash@),
                    kept,
                )
            }
        }),
{
    proof {
        lemma_rom_pos(index.roms@, rom_hash@, 0);
    }
    let rp = find_rom(&index.roms, rom_hash);
    if rp.is_none() && !any_from_rom(&index.entries, rom_hash) {
        return Err(library_error("rom not found: ", rom_hash));
    }
    if let Some(p) = rp {
        index.roms.remove(p);
    }
    let mut rest: Vec<LibraryEntry> = Vec::new();
    std::mem::swap(&mut rest, &mut index.entries);
    let ghost all = rest@;
    let total = rest.len();
    let mut kept: Vec<LibraryEntry> = Vec::new();
    let mut cascaded: Vec<LibraryEntry> = Vec::new();
    let mut i: usize = 0;
    proof {
        assert(all.take(0) =~= Seq::<LibraryEntry>::empty());
        assert(all =~= all.take(0) + rest@);
    }
    while rest.len() > 0
        invariant
            i <= all.len(),
            all.len() == total,
            i + rest@.len() == total,
            all == all.take(i as int) + rest@,
            kept@ == kept_entries(all.take(i as int), rom_hash@),
            cascaded@ == entries_of_rom(all.take(i as int), rom_hash@),
        decreases rest@.len(),
    {
        let e = rest.remove(0);
        proof {
            assert(all[i as int] == e);
            assert(all.take(i + 1).drop_last() =~= all.take(i as int));
            assert(all =~= all.take(i + 1) + rest@);
        }
        if str_eq(e.source_rom_hash.as_str(), rom_hash) {
            cascaded.push(e);
        } else {
            kept.push(e);
        }
        i = i + 1;
    }
    proof {
        assert(all.take(i as int) =~= all);
    }
    let mut files: Vec<String> = Vec::new();
    proof {
        assert(texts(files@) =~= Seq::empty());
    }
    push_text(&mut files, rom_path_for(rom_hash));
    let m = cascaded.len();
    let mut j: usize = 0;
    proof {
        assert(cascaded@.take(0) =~= Seq::<LibraryEntry>::empty());
    }
    while j < m
        invariant
            j <= m,
            m == cascaded@.len(),
            texts(files@) == seq![rom_file(rom_hash@)] + cascade_files(cascaded@.take(j as int), kept@),
        decreases m - j,
    {
        push_orphans(&mut files, &cascaded[j], &kept);
        proof {
            assert(cascaded@.take(j + 1).drop_last() =~= cascaded@.take(j as int));
        }
        j = j + 1;
    }
    proof {
        assert(cascaded@.take(m as int) =~= cascaded@);
    }
    index.entries = kept;
    Ok(files)
}

// ---------- listing ----------

/// The first position from `i` whose key sorts before `k`, or the end.
pub open spec fn first_below<T>(s: Seq<T>, k: Seq<char>, key: spec_fn(T) -> Seq<char>, i: int) -> int
    decreases s.len() - i,
{
    if i < 0 || i >= s.len() {
        s.len() as int
    } else if text_lt(key(s[i]), k) {
        i
    } else {
        first_below(s, k, key, i + 1)
    }
}

/// `s` sorted newest first by `key` (descending), keeping the original
/// order among equal keys: each element is inserted after every element
/// whose key is not below its own.
pub open spec fn sort_desc<T>(s: Seq<T>, key: spec_fn(T) -> Seq<char>) -> Seq<T>
    decreases s.len(),
{
    if s.len() == 0 {
        s
    } else {
        let sorted = sort_desc(s.drop_last(), key);
        sorted.insert(first_below(sorted, key(s.last()), key, 0), s.last())
    }
}

/// The key entries are listed by: when they were applied.
pub open spec fn applied_key() -> spec_fn(LibraryEntry) -> Seq<char> {
    |e: LibraryEntry| e.applied_at@
}

/// The key base ROMs are listed by: when they were added.
pub open spec fn added_key() -> spec_fn(LibraryRomEntry) -> Seq<char> {
    |e: LibraryRomEntry| e.added_at@
}

proof fn lemma_first_below<T>(s: Seq<T>, k: Seq<char>, key: spec_fn(T) -> Seq<char>, i: int)
    requires
        0 <= i <= s.len(),
    ensures
        i <= first_below(s, k, key, i) <= s.len(),
        forall|j: int| i <= j < first_below(s, k, key, i) ==> !text_lt(#[trigger] key(s[j]), k),
        first_below(s, k, key, i) < s.len() ==> text_lt(key(s[first_below(s, k, key, i)]), k),
    decreases s.len() - i,
{
    if i < s.len() && !text_lt(key(s[i]), k) {
        lemma_first_below(s, k, key, i + 1);
    }
}

/// Sorted newest first: no key sorts before a key that follows it.
pub open spec fn sorted_desc<T>(s: Seq<T>, key: spec_fn(T) -> Seq<char>) -> bool {
    forall|i: int, j: int| 0 <= i < j < s.len() ==> !text_lt(#[trigger] key(s[i]), #[trigger] key(s[j]))
}

/// Listing newest first gives a sorted list holding the same items.
pub proof fn lemma_sort_desc<T>(s: Seq<T>, key: spec_fn(T) -> Seq<char>)
    ensures
        sorted_desc(sort_desc(s, key), key),
        sort_desc(s, key).to_multiset() == s.to_multiset(),
    decreases s.len(),
{
    broadcast use vstd::seq_lib::group_to_multiset_ensures;

    if s.len() > 0 {
        let sorted = sort_desc(s.drop_last(), key);
        let x = s.last();
        lemma_sort_desc(s.drop_last(), key);
        lemma_first_below(sorted, key(x), key, 0);
        let p = first_below(sorted, key(x), key, 0);
        let r = sorted.insert(p, x);
        assert forall|i: int, j: int| 0 <= i < j < r.len() implies !text_lt(
            #[trigger] key(r[i]),
            #[trigger] key(r[j]),
        ) by {
            if i < p && j == p {
                assert(r[i] == sorted[i]);
            } else if i == p {
                assert(r[j] == sorted[j - 1]);
                if j - 1 > p {
                    assert(!text_lt(key(sorted[p]), key(sorted[j - 1])));
                    lemma_text_lt_total(key(sorted[p]), key(sorted[j - 1]));
                    if key(sorted[p]) != key(sorted[j - 1]) {
                        lemma_text_lt_transitive(key(sorted[j - 1]), key(sorted[p]), key(x));
                    }
                }
                lemma_text_lt_total(key(x), key(sorted[j - 1]));
            } else if i < p && j > p {
                assert(r[i] == sorted[i]);
                assert(r[j] == sorted[j - 1]);
            } else if i > p {
                assert(r[i] == sorted[i - 1]);
                assert(r[j] == sorted[j - 1]);
            } else {
                assert(r[i] == sorted[i]);
                assert(r[j] == sorted[j]);
            }
        }
        assert(r.remove(p) =~= sorted);
        assert(r[p] == x);
        assert(s.drop_last().push(x) =~= s);
    }
}

/// The items whose key is `k`.
pub open spec fn key_is<T>(key: spec_fn(T) -> Seq<char>, k: Seq<char>) -> spec_fn(T) -> bool {
    |x: T| key(x) == k
}

proof fn lemma_filter_none<T>(s: Seq<T>, pred: spec_fn(T) -> bool)
    requires
        forall|i: int| 0 <= i < s.len() ==> !pred(#[trigger] s[i]),
    ensures
        s.filter(pred) == Seq::<T>::empty(),
    decreases s.len(),
{
    reveal(Seq::filter);
    if s.len() > 0 {
        lemma_filter_none(s.drop_last(), pred);
    }
}

/// Listing newest first keeps the original order among items with the same
/// key: the items with key `k` come out as they went in.
pub proof fn lemma_sort_desc_stable<T>(s: Seq<T>, key: spec_fn(T) -> Seq<char>, k: Seq<char>)
    ensures
        sort_desc(s, key).filter(key_is(key, k)) == s.filter(key_is(key, k)),
    decreases s.len(),
{
    if s.len() > 0 {
        let pred = key_is(key, k);
        let sorted = sort_desc(s.drop_last(), key);
        let x = s.last();
        lemma_sort_desc_stable(s.drop_last(), key, k);
        lemma_sort_desc(s.drop_last(), key);
        lemma_first_below(sorted, key(x), key, 0);
        let p = first_below(sorted, key(x), key, 0);
        let front = sorted.take(p);
        let back = sorted.skip(p);
        assert(sort_desc(s, key) =~= front + seq![x] + back);
        assert(sorted =~= front + back);
        Seq::filter_distributes_over_add(front + seq![x], back, pred);
        Seq::filter_distributes_over_add(front, seq![x], pred);
        Seq::filter_distributes_over_add(front, back, pred);
        assert(s.drop_last().push(x) =~= s);
        s.drop_last().lemma_filter_push(x, pred);
        Seq::<T>::empty().lemma_filter_push(x, pred);
        assert(Seq::<T>::empty().push(x) =~= seq![x]);
        assert(Seq::<T>::empty().filter(pred) =~= Seq::<T>::empty()) by {
            reveal(Seq::filter);
        }
        if key(x) == k {
            assert forall|i: int| 0 <= i < back.len() implies !pred(#[trigger] back[i]) by {
                assert(back[i] == sorted[p + i]);
                if i == 0 {
                    lemma_text_lt_irreflexive(k);
                } else {
                    assert(!text_lt(key(sorted[p]), key(sorted[p + i])));
                }
            }
            lemma_filter_none(back, pred);
            assert(front.filter(pred) + seq![x] =~= (front.filter(pred) + Seq::<T>::empty()).push(x));
        }
    }
}

fn sort_entries(v: Vec<LibraryEntry>) -> (r: Vec<LibraryEntry>)
    ensures
        r@ == sort_desc(v@, applied_key()),
{
    let ghost all = v@;
    let total = v.len();
    let mut rest = v;
    let mut out: Vec<LibraryEntry> = Vec::new();
    let mut i: usize = 0;
    proof {
        assert(all =~= all.take(0) + rest@);
        assert(all.take(0) =~= Seq::<LibraryEntry>::empty());
    }
    while rest.len() > 0
        invariant
            all.len() == total,
            i + rest@.len() == total,
            all == all.take(i as int) + rest@,
            out@ == sort_desc(all.take(i as int), applied_key()),
        decreases rest@.len(),
    {
        let e = rest.remove(0);
        proof {
            assert(all[i as int] == e);
            assert(all.take(i + 1).drop_last() =~= all.take(i as int));
            assert(all =~= all.take(i + 1) + rest@);
        }
        let n = out.len();
        let mut j: usize = 0;
        while j < n && !text_less(out[j].applied_at.as_str(), e.applied_at.as_str())
            invariant
                j <= n,
                n == out@.len(),
                first_below(out@, e.applied_at@, applied_key(), 0) == first_below(
                    out@,
                    e.applied_at@,
                    applied_key(),
                    j as int,
                ),
            decreases n - j,
        {
            j = j + 1;
        }
        out.insert(j, e);
        i = i + 1;
    }
    proof {
        assert(all.take(i as int) =~= all);
    }
    out
}

fn sort_roms(v: Vec<LibraryRomEntry>) -> (r: Vec<LibraryRomEntry>)
    ensures
        r@ == sort_desc(v@, added_key()),
{
    let ghost all = v@;
    let total = v.len();
    let mut rest = v;
    let mut out: Vec<LibraryRomEntry> = Vec::new();
    let mut i: usize = 0;
    proof {
        assert(all =~= all.take(0) + rest@);
        assert(all.take(0) =~= Seq::<LibraryRomEntry>::empty());
    }
    while rest.len() > 0
        invariant
            all.len() == total,
            i + rest@.len() == total,
            all == all.take(i as int) + rest@,
            out@ == sort_desc(all.take(i as int), added_key()),
        decreases rest@.len(),
    {
        let e = rest.remove(0);
        proof {
            assert(all[i as int] == e);
            assert(all.take(i + 1).drop_last() =~= all.take(i as int));
            assert(all =~= all.take(i + 1) + rest@);
        }
        let n = out.len();
        let mut j: usize = 0;
        while j < n && !text_less(out[j].added_at.as_str(), e.added_at.as_str())
            invariant
                j <= n,
                n == out@.len(),
                first_below(out@, e.added_at@, added_key(), 0) == first_below(
                    out@,
                    e.added_at@,
                    added_key(),
                    j as int,
                ),
            decreases n - j,
        {
            j = j + 1;
        }
        out.insert(j, e);
        i = i + 1;
    }
    proof {
        assert(all.take(i as int) =~= all);
    }
    out
}

/// The recorded entries, newest first.
pub fn list(index: LibraryIndex) -> (r: Vec<LibraryEntry>)
    ensures
        r@ == sort_desc(index.entries@, applied_key()),
{
    sort_entries(index.entries)
}

/// The base ROMs, newest first.
pub fn list_roms(index: LibraryIndex) -> (r: Vec<LibraryRomEntry>)
    ensures
        r@ == sort_desc(index.roms@, added_key()),
{
    sort_roms(index.roms)
}

/// The entries that used the patch with this hash, in order.
pub open spec fn with_patch(s: Seq<LibraryEntry>, hash: Seq<char>) -> Seq<LibraryEntry>
    decreases s.len(),
{
    if s.len() == 0 {
        s
    } else if s.last().patch_hash@ == hash {
        with_patch(s.drop_last(), hash).push(s.last())
    } else {
        with_patch(s.drop_last(), hash)
    }
}

/// The entries that used the patch `patch` (matched by its SHA-256),
/// newest first.
pub fn lookup_by_patch_hash(index: LibraryIndex, patch: &[u8]) -> (r: Vec<LibraryEntry>)
    ensures
        r@ == sort_desc(with_patch(index.entries@, content_hash(patch@)), applied_key()),
{
    let hash = sha256_hex(patch);
    entries_with_patch(index, hash.as_str())
}

/// The entries that used the patch with hash `patch_hash`, newest first.
fn entries_with_patch(index: LibraryIndex, patch_hash: &str) -> (r: Vec<LibraryEntry>)
    ensures
        r@ == sort_desc(with_patch(index.entries@, patch_hash@), applied_key()),
{
    let ghost all = index.entries@;
    let mut rest = index.entries;
    let total = rest.len();
    let mut matches: Vec<LibraryEntry> = Vec::new();
    let mut i: usize = 0;
    proof {
        assert(all =~= all.take(0) + rest@);
        assert(all.take(0) =~= Seq::<LibraryEntry>::empty());
    }
    while rest.len() > 0
        invariant
            all.len() == total,
            i + rest@.len() == total,
            all == all.take(i as int) + rest@,
            matches@ == with_patch(all.take(i as int), patch_hash@),
        decreases rest@.len(),
    {
        let e = rest.remove(0);
        proof {
            assert(all[i as int] == e);
            assert(all.take(i + 1).drop_last() =~= all.take(i as int));
            assert(all =~= all.take(i + 1) + rest@);
        }
        if str_eq(e.patch_hash.as_str(), patch_hash) {
            matches.push(e);
        }
        i = i + 1;
    }
    proof {
        assert(all.take(i as int) =~= all);
    }
    sort_entries(matches)
}

// ---------- reports and errors for the front-end ----------

/// The four checksums of a file, as lowercase hex, and its size.
#[derive(Debug, Clone)]
pub struct HashReport {
    pub crc32: String,
    pub md5: String,
    pub sha1: String,
    pub adler32: String,
    pub file_size: u64,
}

/// Computes the CRC-32, MD5, SHA-1 and Adler-32 of `bytes` in one report.
pub fn compute_hashes(bytes: &[u8]) -> (r: HashReport)
    ensures
        r.crc32@ == algo_hex(HashAlgo::Crc32, bytes@),
        r.md5@ == algo_hex(HashAlgo::Md5, bytes@),
        r.sha1@ == algo_hex(HashAlgo::Sha1, bytes@),
        r.adler32@ == algo_hex(HashAlgo::Adler32, bytes@),
        r.file_size == bytes@.len(),
{
    HashReport {
        crc32: HashAlgo::Crc32.compute_hex(bytes),
        md5: HashAlgo::Md5.compute_hex(bytes),
        sha1: HashAlgo::Sha1.compute_hex(bytes),
        adler32: HashAlgo::Adler32.compute_hex(bytes),
        file_size: bytes.len() as u64,
    }
}


/// What the front-end reports of a successful apply.
#[derive(Debug)]
pub struct ApplyReport {
    pub format: FormatKind,
    pub out_path: std::path::PathBuf,
    pub out_size: u64,
    pub stripped_header: Option<HeaderKind>,
    pub fixed_checksum: Option<ChecksumFamily>,
}

/// The report of `outcome`, written to `out_path`.
pub fn apply_report(outcome: &ApplyOutcome, out_path: std::path::PathBuf) -> (r: ApplyReport)
    ensures
        r.format == outcome.format,
        r.out_path == out_path,
        r.out_size == outcome.output@.len(),
        r.stripped_header == outcome.stripped_header,
        r.fixed_checksum == outcome.fixed_checksum,
{
    ApplyReport {
        format: outcome.format,
        out_path,
        out_size: outcome.output.len() as u64,
        stripped_header: outcome.stripped_header,
        fixed_checksum: outcome.fixed_checksum,
    }
}

/// What the front-end sends to record an apply: the three files and how
/// the output was made.
#[derive(Debug)]
pub struct LibraryRecordArgs {
    pub source_path: std::path::PathBuf,
    pub patch_path: std::path::PathBuf,
    pub output_path: std::path::PathBuf,
    pub format: FormatKind,
    pub header: Option<HeaderKind>,
    pub fixed_checksum: Option<ChecksumFamily>,
    pub apply_options: ApplyOptions,
}

/// The message of each error that does not come from the operating system.
pub open spec fn gui_error_text(e: GuiError) -> Seq<char> {
    match e {
        GuiError::Io(_) => "I/O error: "@,
        GuiError::Apply(a) => apply_error_text(a),
        GuiError::Patch(p) => patch_error_text(p),
        GuiError::Library(m) => m@,
    }
}

impl GuiError {
    /// The message shown to a user; an I/O error is `I/O error: ` followed by
    /// the system's description.
    pub fn message(&self) -> (r: String)
        ensures
            match *self {
                GuiError::Io(_) => exists|t: Seq<char>| r@ == gui_error_text(*self) + t,
                _ => r@ == gui_error_text(*self),
            },
    {
        match self {
            GuiError::Io(e) => {
                let mut s = String::new();
                push_str(&mut s, "I/O error: ");
                let t = io_error_text(e);
                push_str(&mut s, t.as_str());
                assert(s@ == gui_error_text(*self) + t@);
                s
            },
            GuiError::Apply(a) => a.message(),
            GuiError::Patch(p) => p.message(),
            GuiError::Library(m) => m.clone(),
        }
    }
}

impl From<std::io::Error> for GuiError {
    fn from(e: std::io::Error) -> (r: Self) {
        GuiError::Io(e)
    }
}

impl vstd::std_specs::convert::FromSpecImpl<std::io::Error> for GuiError {
    open spec fn obeys_from_spec() -> bool {
        true
    }

    open spec fn from_spec(e: std::io::Error) -> Self {
        GuiError::Io(e)
    }
}

impl From<ApplyError> for GuiError {
    fn from(e: ApplyError) -> (r: Self) {
        GuiError::Apply(e)
    }
}

impl vstd::std_specs::convert::FromSpecImpl<ApplyError> for GuiError {
    open spec fn obeys_from_spec() -> bool {
        true
    }

    open spec fn from_spec(e: ApplyError) -> Self {
        GuiError::Apply(e)
    }
}

impl From<PatchError> for GuiError {
    fn from(e: PatchError) -> (r: Self) {
        GuiError::Patch(e)
    }
}

impl vstd::std_specs::convert::FromSpecImpl<PatchError> for GuiError {
    open spec fn obeys_from_spec() -> bool {
        true
    }

    open spec fn from_spec(e: PatchError) -> Self {
        GuiError::Patch(e)
    }
}

/// An error flattened for the front-end: a short kind it can switch on and
/// the message.
#[derive(Debug)]
pub struct IpcError {
    pub kind: &'static str,
    pub message: String,
}

/// The kind of each error.
pub open spec fn error_kind(e: GuiError) -> Seq<char> {
    match e {
        GuiError::Io(_) => seq!['i', 'o'],
        GuiError::Apply(_) => seq!['a', 'p', 'p', 'l', 'y'],
        GuiError::Patch(_) => seq!['p', 'a', 't', 'c', 'h'],
        GuiError::Library(_) => seq!['l', 'i', 'b', 'r', 'a', 'r', 'y'],
    }
}

impl IpcError {
    /// Flattens an error into its kind and message.
    pub fn from(e: GuiError) -> (r: IpcError)
        ensures
            r.kind@ == error_kind(e),
            match e {
                GuiError::Io(_) => exists|t: Seq<char>| r.message@ == gui_error_text(e) + t,
                _ => r.message@ == gui_error_text(e),
            },
    {
        let kind = match &e {
            GuiError::Io(_) => {
                proof {
                    reveal_strlit("io");
                }
                "io"
            },
            GuiError::Apply(_) => {
                proof {
                    reveal_strlit("apply");
                }
                "apply"
            },
            GuiError::Patch(_) => {
                proof {
                    reveal_strlit("patch");
                }
                "patch"
            },
            GuiError::Library(_) => {
                proof {
                    reveal_strlit("library");
                }
                "library"
            },
        };
        IpcError { kind, message: e.message() }
    }
}

} // verus!
