//! The command-line front-end's decisions: how its options become
//! `ApplyOptions`, where an output goes by default, how a report is
//! printed, and which exit code each failure gives.
use vstd::prelude::*;

use crate::apply::{
    apply_error_text, hash_spec_parse, algo_from_name, ApplyError, ApplyOptions, HashAlgo, HashSpec,
};
use crate::error::{io_error_text, patch_error_text, PatchError};
use crate::format::{kind_from_name, kind_name, FormatKind};
use crate::info::{fields_view, PatchInfo};
use crate::library::{after_last, last_index};
use crate::text::{chars_eq, chars_of, dec_of, push_char, push_dec, push_str, string_of};

verus! {

/// A parsed command line.
#[derive(Debug)]
pub enum Command {
    Apply {
        rom: std::path::PathBuf,
        patch: std::path::PathBuf,
        out: Option<std::path::PathBuf>,
        strip_header: bool,
        fix_checksum: bool,
        verify_input: Option<String>,
        verify_output: Option<String>,
        format_override: Option<String>,
    },
    Detect { patch: std::path::PathBuf },
    Info { patch: std::path::PathBuf },
    Hash { file: std::path::PathBuf, algo: String },
}

/// Why a command failed.
#[derive(Debug)]
pub enum CommandError {
    Io(std::io::Error),
    Apply(ApplyError),
    Patch(PatchError),
    UnknownFormat,
    InvalidHashAlgo(String),
}

/// The exit code of each failure: 3 for I/O, 2 for everything else.
pub open spec fn exit_code_of(e: CommandError) -> u8 {
    match e {
        CommandError::Io(_) => 3,
        _ => 2,
    }
}

/// The message of each failure that does not come from the operating
/// system (an I/O failure starts with this text).
pub open spec fn command_error_text(e: CommandError) -> Seq<char> {
    match e {
        CommandError::Io(_) => "I/O error: "@,
        CommandError::Apply(a) => apply_error_text(a),
        CommandError::Patch(p) => patch_error_text(p),
        CommandError::UnknownFormat => "unknown patch format (no recognized magic bytes)"@,
        CommandError::InvalidHashAlgo(s) => "invalid hash algorithm: "@ + s@,
    }
}

impl CommandError {
    pub fn exit_code(&self) -> (r: u8)
        ensures
            r == exit_code_of(*self),
    {
        match self {
            CommandError::Io(_) => 3,
            CommandError::Apply(_) | CommandError::Patch(_) | CommandError::UnknownFormat
            | CommandError::InvalidHashAlgo(_) => 2,
        }
    }

    /// The message printed for this failure.
    pub fn message(&self) -> (r: String)
        ensures
            match *self {
                CommandError::Io(_) => exists|t: Seq<char>| r@ == command_error_text(*self) + t,
                _ => r@ == command_error_text(*self),
            },
    {
        match self {
            CommandError::Io(e) => {
                let mut s = String::new();
                push_str(&mut s, "I/O error: ");
                let t = io_error_text(e);
                push_str(&mut s, t.as_str());
                assert(s@ == command_error_text(*self) + t@);
                s
            },
            CommandError::Apply(a) => a.message(),
            CommandError::Patch(p) => p.message(),
            CommandError::UnknownFormat => {
                let mut s = String::new();
                push_str(&mut s, "unknown patch format (no recognized magic bytes)");
                s
            },
            CommandError::InvalidHashAlgo(name) => {
                let mut s = String::new();
                push_str(&mut s, "invalid hash algorithm: ");
                push_str(&mut s, name.as_str());
                s
            },
        }
    }
}

impl From<std::io::Error> for CommandError {
    fn from(e: std::io::Error) -> (r: Self) {
        CommandError::Io(e)
    }
}

impl vstd::std_specs::convert::FromSpecImpl<std::io::Error> for CommandError {
    open spec fn obeys_from_spec() -> bool {
        true
    }

    open spec fn from_spec(e: std::io::Error) -> Self {
        CommandError::Io(e)
    }
}

impl From<PatchError> for CommandError {
    fn from(e: PatchError) -> (r: Self) {
        CommandError::Patch(e)
    }
}

impl vstd::std_specs::convert::FromSpecImpl<PatchError> for CommandError {
    open spec fn obeys_from_spec() -> bool {
        true
    }

    open spec fn from_spec(e: PatchError) -> Self {
        CommandError::Patch(e)
    }
}

impl From<ApplyError> for CommandError {
    fn from(e: ApplyError) -> (r: Self) {
        CommandError::Apply(e)
    }
}

impl vstd::std_specs::convert::FromSpecImpl<ApplyError> for CommandError {
    open spec fn obeys_from_spec() -> bool {
        true
    }

    open spec fn from_spec(e: ApplyError) -> Self {
        CommandError::Apply(e)
    }
}

/// The hash algorithm the `hash` command was asked for; an unknown name is
/// refused with `InvalidHashAlgo` carrying the name.
pub fn parse_hash_algo(name: &str) -> (r: Result<HashAlgo, CommandError>)
    ensures
        match algo_from_name(name@) {
            Some(a) => r matches Ok(x) && x == a,
            None => r matches Err(CommandError::InvalidHashAlgo(s)) && s@ == name@,
        },
{
    match HashAlgo::parse(name) {
        Some(a) => Ok(a),
        None => {
            let mut s = String::new();
            push_str(&mut s, name);
            Err(CommandError::InvalidHashAlgo(s))
        },
    }
}

/// What an optional `algo:hex` option parses to.
pub open spec fn check_parsed(
    text: Option<Seq<char>>,
    r: Option<HashSpec>,
) -> bool {
    match text {
        None => r is None,
        Some(t) => match hash_spec_parse(t) {
            Ok((a, hex)) => r matches Some(h) && h.algo == a && h.expected_hex@ == hex,
            Err(_) => false,
        },
    }
}

/// Whether an optional `algo:hex` option fails to parse, and with what text.
pub open spec fn check_fails(text: Option<Seq<char>>) -> Option<Seq<char>> {
    match text {
        None => None,
        Some(t) => match hash_spec_parse(t) {
            Ok(_) => None,
            Err(m) => Some(m),
        },
    }
}

/// The view of an optional string.
pub open spec fn opt_text(s: Option<&str>) -> Option<Seq<char>> {
    match s {
        Some(t) => Some(t@),
        None => None,
    }
}

fn parse_check(text: Option<&str>) -> (r: Result<Option<HashSpec>, ApplyError>)
    ensures
        match check_fails(opt_text(text)) {
            Some(m) => r matches Err(ApplyError::InvalidHashSpec(s)) && s@ == m,
            None => r matches Ok(h) && check_parsed(opt_text(text), h),
        },
{
    match text {
        None => Ok(None),
        Some(t) => match HashSpec::parse(t) {
            Ok(h) => Ok(Some(h)),
            Err(e) => Err(e),
        },
    }
}

/// Builds the apply options from the command line's flags: the format
/// name is checked first (an unknown one gives `UnknownFormatName`), then
/// the input check, then the output check (a malformed one gives
/// `InvalidHashSpec`).
pub fn apply_options(
    strip_header: bool,
    fix_checksum: bool,
    verify_input: Option<&str>,
    verify_output: Option<&str>,
    format_override: Option<&str>,
) -> (r: Result<ApplyOptions, ApplyError>)
    ensures
        match opt_text(format_override) {
            Some(n) if kind_from_name(n) is None => r matches Err(ApplyError::UnknownFormatName(s))
                && s@ == n,
            _ => match check_fails(opt_text(verify_input)) {
                Some(m) => r matches Err(ApplyError::InvalidHashSpec(s)) && s@ == m,
                None => match check_fails(opt_text(verify_output)) {
                    Some(m) => r matches Err(ApplyError::InvalidHashSpec(s)) && s@ == m,
                    None => r matches Ok(o) && o.strip_header == strip_header && o.fix_checksum
                        == fix_checksum && check_parsed(opt_text(verify_input), o.verify_input)
                        && check_parsed(opt_text(verify_output), o.verify_output)
                        && o.format_override == match opt_text(format_override) {
                        Some(n) => kind_from_name(n),
                        None => None,
                    },
                },
            },
        },
{
    let format_override = match format_override {
        Some(name) => match FormatKind::from_name(name) {
            Some(k) => Some(k),
            None => {
                let mut s = String::new();
                push_str(&mut s, name);
                return Err(ApplyError::UnknownFormatName(s));
            },
        },
        None => None,
    };
    let verify_input = match parse_check(verify_input) {
        Ok(h) => h,
        Err(e) => return Err(e),
    };
    let verify_output = match parse_check(verify_output) {
        Ok(h) => h,
        Err(e) => return Err(e),
    };
    Ok(ApplyOptions { strip_header, fix_checksum, verify_input, verify_output, format_override })
}

/// A bare file name split as `Path::file_stem` and `Path::extension` split
/// it: at the last `.`, unless that dot leads the name or the name is `..`.
pub open spec fn stem_and_extension(name: Seq<char>) -> (Seq<char>, Option<Seq<char>>) {
    let i = last_index(name, '.', name.len() as int);
    if i <= 0 || name == seq!['.', '.'] {
        (name, None)
    } else {
        (name.take(i), Some(name.skip(i + 1)))
    }
}

/// `<stem>.patched.<ext>` (or `<stem>.patched` without an extension).
pub open spec fn patched_name(name: Seq<char>) -> Seq<char> {
    let (stem, ext) = stem_and_extension(name);
    stem + ".patched"@ + match ext {
        Some(e) => seq!['.'] + e,
        None => Seq::empty(),
    }
}

/// The file name of the default output next to a ROM with file name `name`.
pub fn patched_file_name(name: &str) -> (r: String)
    ensures
        r@ == patched_name(name@),
{
    let chars = chars_of(name);
    let n = chars.len();
    let i = after_last(chars.as_slice(), '.', n);
    let dots = ['.', '.'];
    assert(dots@ == seq!['.', '.']);
    let mut s = String::new();
    if i <= 1 || chars_eq(chars.as_slice(), &dots) {
        push_str(&mut s, name);
        push_str(&mut s, ".patched");
    } else {
        let stem = string_of(&chars.as_slice()[0..i - 1]);
        let ext = string_of(&chars.as_slice()[i..n]);
        push_str(&mut s, stem.as_str());
        push_str(&mut s, ".patched");
        push_char(&mut s, '.');
        push_str(&mut s, ext.as_str());
        proof {
            assert(chars@.subrange(0, i - 1) == name@.take(i - 1));
            assert(chars@.subrange(i as int, n as int) == name@.skip(i as int));
        }
    }
    s
}

/// The lines the `info` command prints for a report.
pub open spec fn info_lines(format: FormatKind, size: u64, fields: Seq<(Seq<char>, Seq<char>)>) -> Seq<
    Seq<char>,
> {
    seq!["format: "@ + kind_name(format), "patch size: "@ + dec_of(size as nat) + " bytes"@]
        + fields.map_values(|f: (Seq<char>, Seq<char>)| f.0 + ": "@ + f.1)
}

/// Renders a patch report as the lines the `info` command prints.
pub fn render_info(info: &PatchInfo) -> (r: Vec<String>)
    ensures
        r@.map_values(|s: String| s@) == info_lines(
            info.format,
            info.patch_size,
            fields_view(info.fields@),
        ),
{
    let mut lines: Vec<String> = Vec::new();
    let mut first = String::new();
    push_str(&mut first, "format: ");
    push_str(&mut first, info.format.name());
    lines.push(first);
    let mut second = String::new();
    push_str(&mut second, "patch size: ");
    push_dec(&mut second, info.patch_size);
    push_str(&mut second, " bytes");
    lines.push(second);
    let ghost head = lines@.map_values(|s: String| s@);
    let n = info.fields.len();
    let mut i: usize = 0;
    while i < n
        invariant
            i <= n,
            n == info.fields@.len(),
            lines@.len() == 2 + i,
            lines@.map_values(|s: String| s@) == head + fields_view(info.fields@).take(
                i as int,
            ).map_values(|f: (Seq<char>, Seq<char>)| f.0 + ": "@ + f.1),
        decreases n - i,
    {
        let ghost before = lines@;
        let mut line = String::new();
        push_str(&mut line, info.fields[i].0.as_str());
        push_str(&mut line, ": ");
        push_str(&mut line, info.fields[i].1.as_str());
        lines.push(line);
        proof {
            assert(fields_view(info.fields@).take(i + 1) =~= fields_view(info.fields@).take(
                i as int,
            ).push(fields_view(info.fields@)[i as int]));
            assert(lines@.map_values(|s: String| s@) =~= before.map_values(|s: String| s@).push(
                line@,
            ));
        }
        i = i + 1;
    }
    proof {
        assert(fields_view(info.fields@).take(n as int) =~= fields_view(info.fields@));
    }
    lines
}

} // verus!
