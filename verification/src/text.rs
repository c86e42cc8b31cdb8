//! Small text helpers: number formatting, hex, ASCII case folding and
//! whitespace trimming, all over `Seq<char>` models of strings.
use vstd::prelude::*;

verus! {

/// Appends one character to a `String` (`String::push`).
#[verifier::external_body]
pub(crate) fn push_char(s: &mut String, c: char)
    ensures
        final(s)@ == old(s)@.push(c),
{
    s.push(c);
}

/// The lowercase hexadecimal digit for `n` (0..16).
pub open spec fn hex_digit(n: int) -> char {
    if n < 10 {
        (48 + n) as char
    } else {
        (87 + n) as char
    }
}

/// The decimal digit for `n` (0..10).
pub open spec fn dec_digit(n: int) -> char {
    (48 + n) as char
}

/// Lowercase hex of a byte sequence, two digits per byte, most significant
/// nibble first.
pub open spec fn hex_of(bytes: Seq<u8>) -> Seq<char>
    decreases bytes.len(),
{
    if bytes.len() == 0 {
        Seq::empty()
    } else {
        hex_of(bytes.drop_last()) + seq![
            hex_digit((bytes.last() / 16) as int),
            hex_digit((bytes.last() % 16) as int),
        ]
    }
}

/// A lowercase hexadecimal digit.
pub open spec fn is_lower_hex(c: char) -> bool {
    ('0' <= c && c <= '9') || ('a' <= c && c <= 'f')
}

/// Hex text has two lowercase hex digits per byte.
pub proof fn lemma_hex_of(bytes: Seq<u8>)
    ensures
        hex_of(bytes).len() == 2 * bytes.len(),
        forall|i: int| 0 <= i < hex_of(bytes).len() ==> is_lower_hex(#[trigger] hex_of(bytes)[i]),
    decreases bytes.len(),
{
    if bytes.len() > 0 {
        lemma_hex_of(bytes.drop_last());
        let b = bytes.last();
        assert(is_lower_hex(hex_digit((b / 16) as int)));
        assert(is_lower_hex(hex_digit((b % 16) as int)));
    }
}

/// The four big-endian bytes of `v`.
pub open spec fn u32_be_bytes(v: u32) -> Seq<u8> {
    seq![
        (v / 0x1000000) as u8,
        ((v / 0x10000) % 0x100) as u8,
        ((v / 0x100) % 0x100) as u8,
        (v % 0x100) as u8,
    ]
}

/// `v` as eight lowercase hex digits, zero-padded.
pub open spec fn hex_u32(v: u32) -> Seq<char> {
    hex_of(u32_be_bytes(v))
}

/// The decimal representation of `n` without leading zeros.
pub open spec fn dec_of(n: nat) -> Seq<char>
    decreases n,
{
    if n < 10 {
        seq![dec_digit(n as int)]
    } else {
        dec_of(n / 10) + seq![dec_digit((n % 10) as int)]
    }
}

/// The decimal representation of a signed integer.
pub open spec fn dec_int(n: int) -> Seq<char> {
    if n < 0 {
        seq!['-'] + dec_of((-n) as nat)
    } else {
        dec_of(n as nat)
    }
}

/// The digit character for a value below 16.
pub fn hex_digit_char(n: u8) -> (c: char)
    requires
        n < 16,
    ensures
        c == hex_digit(n as int),
{
    if n < 10 {
        (48 + n) as char
    } else {
        (87 + n) as char
    }
}

/// Appends the lowercase hex of `bytes` to `s`.
pub fn push_hex(s: &mut String, bytes: &[u8])
    ensures
        final(s)@ == old(s)@ + hex_of(bytes@),
{
    let ghost start = s@;
    let mut i: usize = 0;
    while i < bytes.len()
        invariant
            i <= bytes@.len(),
            s@ == start + hex_of(bytes@.take(i as int)),
        decreases bytes@.len() - i,
    {
        let b = bytes[i];
        push_char(s, hex_digit_char(b / 16));
        push_char(s, hex_digit_char(b % 16));
        proof {
            assert(bytes@.take(i + 1).drop_last() == bytes@.take(i as int));
        }
        i = i + 1;
    }
    proof {
        assert(bytes@.take(bytes@.len() as int) == bytes@);
    }
}

/// Appends `v` as eight zero-padded lowercase hex digits.
pub fn push_hex_u32(s: &mut String, v: u32)
    ensures
        final(s)@ == old(s)@ + hex_u32(v),
{
    let bytes: [u8; 4] = [
        (v / 0x1000000) as u8,
        ((v / 0x10000) % 0x100) as u8,
        ((v / 0x100) % 0x100) as u8,
        (v % 0x100) as u8,
    ];
    proof {
        assert(bytes@ =~= u32_be_bytes(v));
    }
    push_hex(s, &bytes);
}

/// Appends the decimal representation of `n`.
pub fn push_dec(s: &mut String, n: u64)
    ensures
        final(s)@ == old(s)@ + dec_of(n as nat),
    decreases n,
{
    if n >= 10 {
        push_dec(s, n / 10);
    }
    let d = (n % 10) as u8;
    push_char(s, (48 + d) as char);
    proof {
        if n >= 10 {
            assert(dec_of(n as nat) == dec_of((n / 10) as nat) + seq![dec_digit((n % 10) as int)]);
        }
    }
}

/// Appends the decimal representation of a signed value.
pub fn push_dec_i64(s: &mut String, n: i64)
    ensures
        final(s)@ == old(s)@ + dec_int(n as int),
{
    if n < 0 {
        push_char(s, '-');
        let mag: u64 = if n == i64::MIN {
            0x8000_0000_0000_0000
        } else {
            (-n) as u64
        };
        push_dec(s, mag);
        proof {
            assert(seq!['-'] + dec_of((-n) as nat) == seq!['-'].add(dec_of(mag as nat)));
        }
    } else {
        push_dec(s, n as u64);
    }
}

/// Decimal string of `n` (`n.to_string()`).
pub fn dec_string(n: u64) -> (r: String)
    ensures
        r@ == dec_of(n as nat),
{
    let mut s = String::new();
    push_dec(&mut s, n);
    s
}

/// The characters of a string slice, in order.
pub fn chars_of(s: &str) -> (r: Vec<char>)
    ensures
        r@ == s@,
{
    let mut v: Vec<char> = Vec::new();
    for c in it: s.chars()
        invariant
            v@ == it.seq().take(it.index() as int),
    {
        v.push(c);
    }
    v
}

/// Appends the characters of `t` (`String::push_str`).
pub fn push_str(s: &mut String, t: &str)
    ensures
        final(s)@ == old(s)@ + t@,
{
    let ghost start = s@;
    for c in it: t.chars()
        invariant
            s@ == start + it.seq().take(it.index() as int),
    {
        push_char(s, c);
        proof {
            assert(it.seq().take(it.index() + 1) == it.seq().take(it.index() as int).push(c));
        }
    }
}

/// A `String` holding exactly `chars`.
pub fn string_of(chars: &[char]) -> (r: String)
    ensures
        r@ == chars@,
{
    let mut s = String::new();
    let mut i: usize = 0;
    while i < chars.len()
        invariant
            i <= chars@.len(),
            s@ == chars@.take(i as int),
        decreases chars@.len() - i,
    {
        push_char(&mut s, chars[i]);
        proof {
            assert(chars@.take(i + 1) == chars@.take(i as int).push(chars@[i as int]));
        }
        i = i + 1;
    }
    proof {
        assert(chars@.take(chars@.len() as int) == chars@);
    }
    s
}

/// Whether two character slices are equal.
pub fn chars_eq(a: &[char], b: &[char]) -> (r: bool)
    ensures
        r == (a@ == b@),
{
    if a.len() != b.len() {
        return false;
    }
    let mut i: usize = 0;
    while i < a.len()
        invariant
            i <= a@.len(),
            a@.len() == b@.len(),
            forall|j: int| 0 <= j < i ==> a@[j] == b@[j],
        decreases a@.len() - i,
    {
        if a[i] != b[i] {
            return false;
        }
        i = i + 1;
    }
    proof {
        assert(a@ =~= b@);
    }
    true
}

/// ASCII lowercase of one character; other characters are unchanged.
pub open spec fn ascii_lower(c: char) -> char {
    if 'A' <= c && c <= 'Z' {
        ((c as int) + 32) as char
    } else {
        c
    }
}

/// ASCII lowercase of every character (`to_ascii_lowercase`).
pub open spec fn ascii_lower_seq(s: Seq<char>) -> Seq<char> {
    s.map_values(|c: char| ascii_lower(c))
}

pub fn lower_char(c: char) -> (r: char)
    ensures
        r == ascii_lower(c),
{
    if 'A' <= c && c <= 'Z' {
        ((c as u32) + 32) as u8 as char
    } else {
        c
    }
}

/// ASCII lowercase copy of `chars`.
pub fn lower_chars(chars: &[char]) -> (r: Vec<char>)
    ensures
        r@ == ascii_lower_seq(chars@),
{
    let mut v: Vec<char> = Vec::new();
    let mut i: usize = 0;
    while i < chars.len()
        invariant
            i <= chars@.len(),
            v@ == ascii_lower_seq(chars@.take(i as int)),
        decreases chars@.len() - i,
    {
        v.push(lower_char(chars[i]));
        proof {
            assert(ascii_lower_seq(chars@.take(i + 1)) =~= ascii_lower_seq(chars@.take(i as int)).push(
                ascii_lower(chars@[i as int]),
            ));
        }
        i = i + 1;
    }
    proof {
        assert(chars@.take(chars@.len() as int) == chars@);
    }
    v
}

/// Unicode `White_Space` characters, the ones that `str::trim` removes.
pub open spec fn is_white_space(c: char) -> bool {
    let n = c as u32;
    (0x09 <= n && n <= 0x0D) || n == 0x20 || n == 0x85 || n == 0xA0 || n == 0x1680 || (0x2000 <= n
        && n <= 0x200A) || n == 0x2028 || n == 0x2029 || n == 0x202F || n == 0x205F || n == 0x3000
}

pub fn white_space(c: char) -> (r: bool)
    ensures
        r == is_white_space(c),
{
    let n = c as u32;
    (0x09 <= n && n <= 0x0D) || n == 0x20 || n == 0x85 || n == 0xA0 || n == 0x1680 || (0x2000 <= n
        && n <= 0x200A) || n == 0x2028 || n == 0x2029 || n == 0x202F || n == 0x205F || n == 0x3000
}

/// Index of the first character not in `drop`, from the start.
pub open spec fn trim_start_index(s: Seq<char>, drop: spec_fn(char) -> bool, i: int) -> int
    decreases s.len() - i,
{
    if i < 0 || i >= s.len() {
        s.len() as int
    } else if drop(s[i]) {
        trim_start_index(s, drop, i + 1)
    } else {
        i
    }
}

/// Length of `s.take(n)` once trailing characters in `drop` are removed.
pub open spec fn trim_end_len(s: Seq<char>, drop: spec_fn(char) -> bool, n: int) -> int
    decreases n,
{
    if n <= 0 {
        0
    } else if drop(s[n - 1]) {
        trim_end_len(s, drop, n - 1)
    } else {
        n
    }
}

/// `s` without leading and trailing characters for which `drop` holds.
pub open spec fn trim_by(s: Seq<char>, drop: spec_fn(char) -> bool) -> Seq<char> {
    let end = trim_end_len(s, drop, s.len() as int);
    let inner = s.take(end);
    inner.skip(trim_start_index(inner, drop, 0))
}

/// The `White_Space` test as a predicate value.
pub open spec fn ws_pred() -> spec_fn(char) -> bool {
    |c: char| is_white_space(c)
}

/// `str::trim`: drops leading and trailing `White_Space`.
pub open spec fn trim_ws(s: Seq<char>) -> Seq<char> {
    trim_by(s, ws_pred())
}

proof fn lemma_trim_end_len_bounds(s: Seq<char>, drop: spec_fn(char) -> bool, n: int)
    requires
        0 <= n <= s.len(),
    ensures
        0 <= trim_end_len(s, drop, n) <= n,
    decreases n,
{
    if n > 0 && drop(s[n - 1]) {
        lemma_trim_end_len_bounds(s, drop, n - 1);
    }
}

proof fn lemma_trim_start_bounds(s: Seq<char>, drop: spec_fn(char) -> bool, i: int)
    requires
        0 <= i <= s.len(),
    ensures
        i <= trim_start_index(s, drop, i) <= s.len(),
    decreases s.len() - i,
{
    if i < s.len() && drop(s[i]) {
        lemma_trim_start_bounds(s, drop, i + 1);
    }
}

/// Copy of `chars` with leading and trailing white space removed.
pub fn trim_white_space(chars: &[char]) -> (r: Vec<char>)
    ensures
        r@ == trim_ws(chars@),
{
    let ghost drop = ws_pred();
    let mut end = chars.len();
    while end > 0 && white_space(chars[end - 1])
        invariant
            end <= chars@.len(),
            drop == ws_pred(),
            trim_end_len(chars@, drop, chars@.len() as int) == trim_end_len(chars@, drop, end as int),
        decreases end,
    {
        assert(drop(chars@[end - 1]));
        end = end - 1;
    }
    let ghost inner = chars@.take(end as int);
    let mut start: usize = 0;
    while start < end && white_space(chars[start])
        invariant
            start <= end <= chars@.len(),
            inner == chars@.take(end as int),
            drop == ws_pred(),
            trim_start_index(inner, drop, 0) == trim_start_index(inner, drop, start as int),
        decreases end - start,
    {
        assert(inner[start as int] == chars@[start as int]);
        assert(drop(inner[start as int]));
        start = start + 1;
    }
    let mut v: Vec<char> = Vec::new();
    let mut i = start;
    while i < end
        invariant
            start <= i <= end <= chars@.len(),
            v@ == chars@.subrange(start as int, i as int),
        decreases end - i,
    {
        v.push(chars[i]);
        proof {
            assert(chars@.subrange(start as int, i + 1) == chars@.subrange(start as int, i as int).push(
                chars@[i as int],
            ));
        }
        i = i + 1;
    }
    proof {
        assert(trim_end_len(chars@, drop, end as int) == end as int);
        assert(trim_start_index(inner, drop, start as int) == start as int);
        assert(v@ =~= inner.skip(start as int));
    }
    v
}

/// What `String::from_utf8_lossy` makes of `bytes`: the decoded text, each
/// invalid sequence replaced by U+FFFD.
pub uninterp spec fn utf8_lossy_of(bytes: Seq<u8>) -> Seq<char>;

/// `String::from_utf8_lossy(bytes).into_owned()`. The contract names the
/// result and states the documented case of valid input that callers use:
/// ASCII bytes decode to the same characters. How invalid sequences are
/// replaced is left to the name.
#[verifier::external_body]
pub(crate) fn utf8_lossy(bytes: &[u8]) -> (r: String)
    ensures
        r@ == utf8_lossy_of(bytes@),
        (forall|i: int| 0 <= i < bytes@.len() ==> bytes@[i] < 0x80) ==> r@ == bytes@.map_values(
            |b: u8| b as char,
        ),
{
    String::from_utf8_lossy(bytes).into_owned()
}

/// NUL or space: what fixed-width text fields are padded with.
pub open spec fn pad_pred() -> spec_fn(char) -> bool {
    |c: char| c == '\0' || c == ' '
}

/// A fixed-width text field: decoded lossily, trailing NULs and spaces cut,
/// then white space trimmed on both sides.
pub open spec fn trimmed_text(bytes: Seq<u8>) -> Seq<char> {
    let s = utf8_lossy_of(bytes);
    trim_ws(s.take(trim_end_len(s, pad_pred(), s.len() as int)))
}

/// The text of a fixed-width field (see `trimmed_text`).
pub fn trimmed_string(bytes: &[u8]) -> (r: String)
    ensures
        r@ == trimmed_text(bytes@),
{
    let lossy = utf8_lossy(bytes);
    let chars = chars_of(lossy.as_str());
    let ghost drop = pad_pred();
    let mut end = chars.len();
    while end > 0 && (chars[end - 1] == '\0' || chars[end - 1] == ' ')
        invariant
            end <= chars@.len(),
            drop == pad_pred(),
            trim_end_len(chars@, drop, chars@.len() as int) == trim_end_len(chars@, drop, end as int),
        decreases end,
    {
        assert(drop(chars@[end - 1]));
        end = end - 1;
    }
    proof {
        assert(trim_end_len(chars@, drop, end as int) == end as int);
    }
    let kept = &chars.as_slice()[0..end];
    assert(kept@ == chars@.take(end as int));
    let trimmed = trim_white_space(kept);
    string_of(trimmed.as_slice())
}

/// `true` or `false`, as `bool::to_string` writes it.
pub open spec fn bool_text(b: bool) -> Seq<char> {
    if b {
        seq!['t', 'r', 'u', 'e']
    } else {
        seq!['f', 'a', 'l', 's', 'e']
    }
}

/// `bool::to_string`.
pub fn bool_string(b: bool) -> (r: String)
    ensures
        r@ == bool_text(b),
{
    let mut s = String::new();
    if b {
        push_char(&mut s, 't');
        push_char(&mut s, 'r');
        push_char(&mut s, 'u');
        push_char(&mut s, 'e');
    } else {
        push_char(&mut s, 'f');
        push_char(&mut s, 'a');
        push_char(&mut s, 'l');
        push_char(&mut s, 's');
        push_char(&mut s, 'e');
    }
    s
}

/// Lexicographic order on text, character by character (the order of
/// `str`'s `Ord`: UTF-8 keeps code point order byte by byte).
pub open spec fn text_lt(a: Seq<char>, b: Seq<char>) -> bool
    decreases a.len(),
{
    if a.len() == 0 {
        b.len() > 0
    } else if b.len() == 0 {
        false
    } else if a[0] != b[0] {
        (a[0] as int) < (b[0] as int)
    } else {
        text_lt(a.drop_first(), b.drop_first())
    }
}

/// Whether `a` sorts before `b`.
pub fn text_less(a: &str, b: &str) -> (r: bool)
    ensures
        r == text_lt(a@, b@),
{
    let x = chars_of(a);
    let y = chars_of(b);
    let mut i: usize = 0;
    proof {
        assert(x@.skip(0) == x@);
        assert(y@.skip(0) == y@);
    }
    while i < x.len() && i < y.len() && x[i] == y[i]
        invariant
            i <= x@.len(),
            i <= y@.len(),
            text_lt(a@, b@) == text_lt(x@.skip(i as int), y@.skip(i as int)),
            x@ == a@,
            y@ == b@,
        decreases x@.len() - i,
    {
        proof {
            assert(x@.skip(i as int).drop_first() == x@.skip(i + 1));
            assert(y@.skip(i as int).drop_first() == y@.skip(i + 1));
        }
        i = i + 1;
    }
    proof {
        if i < x@.len() {
            assert(x@.skip(i as int)[0] == x@[i as int]);
        }
        if i < y@.len() {
            assert(y@.skip(i as int)[0] == y@[i as int]);
        }
    }
    if i == x.len() {
        i < y.len()
    } else if i == y.len() {
        false
    } else {
        x[i] < y[i]
    }
}

/// The order is strict: nothing sorts before itself.
pub proof fn lemma_text_lt_irreflexive(a: Seq<char>)
    ensures
        !text_lt(a, a),
    decreases a.len(),
{
    if a.len() > 0 {
        lemma_text_lt_irreflexive(a.drop_first());
    }
}

/// Any two different texts are ordered one way or the other, never both.
pub proof fn lemma_text_lt_total(a: Seq<char>, b: Seq<char>)
    ensures
        a != b ==> text_lt(a, b) || text_lt(b, a),
        !(text_lt(a, b) && text_lt(b, a)),
    decreases a.len(),
{
    if a.len() > 0 && b.len() > 0 {
        lemma_text_lt_total(a.drop_first(), b.drop_first());
        if a[0] == b[0] && a.drop_first() == b.drop_first() {
            assert(a =~= seq![a[0]] + a.drop_first());
            assert(b =~= seq![b[0]] + b.drop_first());
        }
    } else if a.len() == 0 && b.len() == 0 {
        assert(a =~= b);
    }
}

/// The order is transitive.
pub proof fn lemma_text_lt_transitive(a: Seq<char>, b: Seq<char>, c: Seq<char>)
    requires
        text_lt(a, b),
        text_lt(b, c),
    ensures
        text_lt(a, c),
    decreases a.len(),
{
    if a.len() > 0 && b.len() > 0 && c.len() > 0 {
        if a[0] == b[0] && b[0] == c[0] {
            lemma_text_lt_transitive(a.drop_first(), b.drop_first(), c.drop_first());
        }
    }
}

/// Whether two strings hold the same characters.
pub fn str_eq(a: &str, b: &str) -> (r: bool)
    ensures
        r == (a@ == b@),
{
    let x = chars_of(a);
    let y = chars_of(b);
    chars_eq(x.as_slice(), y.as_slice())
}

} // verus!
