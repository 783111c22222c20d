//! The checksum tool's decisions: its flags, the lines it prints for each
//! file, and how it checks a listing of digests.
use vstd::prelude::*;
use crate::crypto_md5::{digest_msg, md5_crate_digest};
use crate::hex::{hex_encode, lemma_hex_encode_digits, words32_be, words32_le, words64_be, HEX_DIGITS};
use crate::md5::{digest_msg_mine, law_md5_digest_len, md5};
use crate::sha256::{digest_sha256_msg_mine, law_sha256_digest_len, sha256};
use crate::sha512::{digest_sha512_msg_mine, law_sha512_digest_len, sha512};
use crate::text::{
    chars_eq, chars_of, extend_chars, join, join_chars, lemma_find_from_at, lemma_find_from_none,
    lemma_split_nonempty, lines_chars, lines_of, matches_at, split_chars, split_from, split_on,
    string_of,
};

verus! {

/// The options the tool runs with.
pub struct Config {
    pub b_flag: bool,
    pub c_flag: bool,
    pub mine: bool,
    pub quiet_flag: bool,
    pub alg: String,
}

/// The problems counted while checking listings.
pub struct ErrorCount {
    pub inc_format: u32,
    pub inc_digest: u32,
}

impl ErrorCount {
    pub fn new() -> (e: Self)
        ensures
            e.inc_format == 0,
            e.inc_digest == 0,
    {
        ErrorCount { inc_format: 0, inc_digest: 0 }
    }
}

/// A file operand: standard input, or a path.
pub enum File {
    StdIn,
    FilePath(String),
}

impl View for File {
    /// `None` for standard input, else the path.
    type V = Option<Seq<char>>;

    open spec fn view(&self) -> Option<Seq<char>> {
        match self {
            File::StdIn => None,
            File::FilePath(p) => Some(p@),
        }
    }
}

/// The file an operand names: `-` is standard input.
pub open spec fn file_of(arg: Seq<char>) -> Option<Seq<char>> {
    if arg == "-"@ {
        None
    } else {
        Some(arg)
    }
}

/// How a file is named in messages.
pub open spec fn display_path(f: Option<Seq<char>>) -> Seq<char> {
    match f {
        None => "std in"@,
        Some(p) => p,
    }
}

/// The last component of a file's path (after the last `/`); `-` for standard input.
pub open spec fn file_name(f: Option<Seq<char>>) -> Seq<char> {
    match f {
        None => "-"@,
        Some(p) => split_on(p, seq!['/']).last(),
    }
}

/// The hexadecimal digest the options select: the library's MD5 with
/// `--mine`, else SHA-256 or SHA-512 when the algorithm names one, else the
/// `md-5` crate's MD5.
pub open spec fn digest_spec(mine: bool, alg: Seq<char>, content: Seq<u8>) -> Seq<char> {
    if mine {
        hex_encode(words32_le(md5(content)))
    } else if alg == "sha256"@ {
        hex_encode(words32_be(sha256(content)))
    } else if alg == "sha512"@ {
        hex_encode(words64_be(sha512(content)))
    } else {
        hex_encode(md5_crate_digest(content))
    }
}

/// The content is short enough for the selected hasher to count its bits.
pub open spec fn digest_len_ok(mine: bool, alg: Seq<char>, len: nat) -> bool {
    if mine || alg == "sha256"@ {
        len * 8 <= u64::MAX
    } else if alg == "sha512"@ {
        len * 8 <= u128::MAX
    } else {
        true
    }
}

/// What separates a digest from the file name in the output.
pub open spec fn spacer(b_flag: bool) -> Seq<char> {
    if b_flag {
        " *"@
    } else {
        "  "@
    }
}

/// The message for a file that cannot be read while checking.
pub open spec fn missing_message(f: Option<Seq<char>>) -> Seq<char> {
    "md5sum:  "@ + display_path(f) + ": No such file or directory"@
}

impl From<String> for File {
    fn from(value: String) -> (f: File) {
        let dash = chars_of("-");
        if chars_eq(chars_of(value.as_str()).as_slice(), dash.as_slice()) {
            File::StdIn
        } else {
            File::FilePath(value)
        }
    }
}

impl<'a> From<&'a str> for File {
    fn from(value: &'a str) -> (f: File)
        ensures
            f@ == file_of(value@),
    {
        let dash = chars_of("-");
        if chars_eq(chars_of(value).as_slice(), dash.as_slice()) {
            File::StdIn
        } else {
            File::FilePath(value.to_owned())
        }
    }
}

/// The path `String` that `from` makes out of a `&str` is a new value, which
/// no spec function can name; so this impl does not claim to follow
/// `from_spec`, and its `from` states the view of its result instead.
impl<'a> vstd::std_specs::convert::FromSpecImpl<&'a str> for File {
    open spec fn obeys_from_spec() -> bool {
        false
    }

    open spec fn from_spec(v: &'a str) -> File {
        if v@ == "-"@ {
            File::StdIn
        } else {
            File::FilePath(vstd::pervasive::arbitrary())
        }
    }
}

impl vstd::std_specs::convert::FromSpecImpl<String> for File {
    open spec fn obeys_from_spec() -> bool {
        true
    }

    open spec fn from_spec(v: String) -> File {
        if v@ == "-"@ {
            File::StdIn
        } else {
            File::FilePath(v)
        }
    }
}

/// Whether `s` holds the characters of `lit`.
fn is_literal(s: &String, lit: &str) -> (r: bool)
    ensures
        r == (s@ == lit@),
{
    chars_eq(chars_of(s.as_str()).as_slice(), chars_of(lit).as_slice())
}

impl File {
    /// The last component of the path; `-` for standard input.
    pub fn to_name(&self) -> (s: String)
        ensures
            s@ == file_name(self@),
    {
        match self {
            File::StdIn => string_of(chars_of("-").as_slice()),
            File::FilePath(path) => {
                let slash = ['/'];
                let parts = split_chars(chars_of(path.as_str()).as_slice(), &slash);
                proof {
                    assert(slash@ =~= seq!['/']);
                    lemma_split_nonempty(path@, seq!['/'], 0);
                }
                string_of(parts[parts.len() - 1].as_slice())
            },
        }
    }

    /// The path as messages show it: `std in` for standard input.
    pub fn to_file_path(&self) -> (s: String)
        ensures
            s@ == display_path(self@),
    {
        match self {
            File::StdIn => string_of(chars_of("std in").as_slice()),
            File::FilePath(path) => path.clone(),
        }
    }

    /// The digest of the file's content, `read` (`None` when it could not be read).
    pub fn digest(&self, config: &Config, read: Option<&[u8]>) -> (d: Option<String>)
        requires
            read matches Some(c) ==> digest_len_ok(config.mine, config.alg@, c@.len()),
        ensures
            match read {
                None => d is None,
                Some(c) => d matches Some(s) && s@ == digest_spec(config.mine, config.alg@, c@),
            },
    {
        match read {
            None => None,
            Some(content) => {
                let alg = chars_of(config.alg.as_str());
                if config.mine {
                    Some(digest_msg_mine(content))
                } else if chars_eq(alg.as_slice(), chars_of("sha256").as_slice()) {
                    Some(digest_sha256_msg_mine(content))
                } else if chars_eq(alg.as_slice(), chars_of("sha512").as_slice()) {
                    Some(digest_sha512_msg_mine(content))
                } else {
                    Some(digest_msg(content))
                }
            },
        }
    }

    /// The output line for the file: its digest, the spacer and its path, or
    /// a message that it could not be read.
    pub fn digest_file(&self, config: &Config, read: Option<&[u8]>) -> (s: String)
        requires
            read matches Some(c) ==> digest_len_ok(config.mine, config.alg@, c@.len()),
        ensures
            s@ == match read {
                Some(c) => digest_spec(config.mine, config.alg@, c@) + spacer(config.b_flag)
                    + display_path(self@),
                None => "Couldn't read file with path "@ + display_path(self@),
            },
    {
        let spacer = if config.b_flag {
            chars_of(" *")
        } else {
            chars_of("  ")
        };
        let path = self.to_file_path();
        match self.digest(config, read) {
            Some(digest) => {
                let mut out = chars_of(digest.as_str());
                extend_chars(&mut out, spacer.as_slice());
                extend_chars(&mut out, chars_of(path.as_str()).as_slice());
                string_of(out.as_slice())
            },
            None => {
                let mut out = chars_of("Couldn't read file with path ");
                extend_chars(&mut out, chars_of(path.as_str()).as_slice());
                string_of(out.as_slice())
            },
        }
    }
}

/// The separator of the two-space listing form.
pub open spec fn double_space() -> Seq<char> {
    seq![' ', ' ']
}

/// What a listing line says: the expected digest, the file operand, and
/// whether it used the two-space form (`digest  file`) rather than the
/// `digest *file` form; `None` when the line is not understood.
pub open spec fn check_entry(line: Seq<char>) -> Option<(Seq<char>, Seq<char>, bool)> {
    let parts = split_on(line, double_space());
    if parts.len() >= 2 {
        Some((parts[0], parts[1], true))
    } else {
        let starred = split_on(line, seq![' ', '*']);
        if starred.len() <= 2 {
            None
        } else {
            Some((starred[0], starred[1], false))
        }
    }
}

/// The outcome of checking one listing line against the content of the file
/// it names (`None` when unreadable): the message printed, if any; whether
/// the line counts as malformed; whether it counts as a mismatch.
pub open spec fn check_outcome(
    line: Seq<char>,
    read: Option<Seq<u8>>,
    mine: bool,
    alg: Seq<char>,
    quiet: bool,
) -> (Option<Seq<char>>, bool, bool) {
    match check_entry(line) {
        None => (None, true, false),
        Some((expected, arg, two_space)) => {
            let path = display_path(file_of(arg));
            match read {
                None => (Some(missing_message(file_of(arg))), false, false),
                Some(content) => {
                    let matched = expected == digest_spec(mine, alg, content);
                    if two_space {
                        if matched {
                            (
                                if quiet {
                                    Some(path + ": OK"@)
                                } else {
                                    None
                                },
                                false,
                                false,
                            )
                        } else {
                            (Some(path + ": FAILED"@), false, true)
                        }
                    } else {
                        if matched {
                            (Some(path + ": OK"@), false, false)
                        } else {
                            (Some(path + ": WARNING"@), false, true)
                        }
                    }
                },
            }
        },
    }
}

/// The messages printed for the first `lines.len()` lines of a listing.
pub open spec fn check_messages(
    lines: Seq<Seq<char>>,
    reads: Seq<Option<Seq<u8>>>,
    mine: bool,
    alg: Seq<char>,
    quiet: bool,
) -> Seq<Seq<char>>
    decreases lines.len(),
{
    if lines.len() == 0 {
        Seq::empty()
    } else {
        let prev = check_messages(lines.drop_last(), reads, mine, alg, quiet);
        match check_outcome(lines.last(), reads[lines.len() - 1], mine, alg, quiet).0 {
            Some(m) => prev.push(m),
            None => prev,
        }
    }
}

/// How many of `lines` are malformed.
pub open spec fn count_malformed(lines: Seq<Seq<char>>) -> nat
    decreases lines.len(),
{
    if lines.len() == 0 {
        0
    } else {
        count_malformed(lines.drop_last()) + if check_entry(lines.last()) is None {
            1nat
        } else {
            0nat
        }
    }
}

/// How many of `lines` name a readable file whose digest does not match.
pub open spec fn count_mismatched(
    lines: Seq<Seq<char>>,
    reads: Seq<Option<Seq<u8>>>,
    mine: bool,
    alg: Seq<char>,
) -> nat
    decreases lines.len(),
{
    if lines.len() == 0 {
        0
    } else {
        count_mismatched(lines.drop_last(), reads, mine, alg) + if check_outcome(
            lines.last(),
            reads[lines.len() - 1],
            mine,
            alg,
            false,
        ).2 {
            1nat
        } else {
            0nat
        }
    }
}

/// The contents read for each line, as byte sequences.
pub open spec fn reads_view(reads: Seq<Option<Vec<u8>>>) -> Seq<Option<Seq<u8>>> {
    reads.map_values(
        |r: Option<Vec<u8>>|
            match r {
                Some(v) => Some(v@),
                None => None,
            },
    )
}

/// A parsed listing line.
pub struct CheckLine {
    pub expected: Vec<char>,
    pub file: File,
    pub two_space: bool,
}

/// Parses a listing line: `digest  file`, or `digest *file` followed by
/// another ` *` (with only one ` *` the line is taken as malformed).
pub fn parse_check_line(line: &[char]) -> (r: Option<CheckLine>)
    ensures
        match check_entry(line@) {
            None => r is None,
            Some((expected, arg, two_space)) => r matches Some(c) && c.expected@ == expected
                && c.file@ == file_of(arg) && c.two_space == two_space,
        },
{
    let sep = [' ', ' '];
    assert(sep@ =~= seq![' ', ' ']);
    let parts = split_chars(line, &sep);
    if parts.len() >= 2 {
        let file = File::from(string_of(parts[1].as_slice()));
        let expected = parts[0].clone();
        assert(expected@ =~= parts@[0]@);
        return Some(CheckLine { expected, file, two_space: true });
    }
    let star = [' ', '*'];
    assert(star@ =~= seq![' ', '*']);
    let parts = split_chars(line, &star);
    if parts.len() <= 2 {
        None
    } else {
        let file = File::from(string_of(parts[1].as_slice()));
        let expected = parts[0].clone();
        assert(expected@ =~= parts@[0]@);
        Some(CheckLine { expected, file, two_space: false })
    }
}

/// `text` followed by the characters of `suffix`.
fn with_suffix(text: &[char], suffix: &str) -> (r: Vec<char>)
    ensures
        r@ == text@ + suffix@,
{
    let mut r: Vec<char> = Vec::new();
    extend_chars(&mut r, text);
    extend_chars(&mut r, chars_of(suffix).as_slice());
    r
}

/// The message for a file that cannot be read.
fn missing_file_message(file: &File) -> (r: Vec<char>)
    ensures
        r@ == missing_message(file@),
{
    let mut r = chars_of("md5sum:  ");
    extend_chars(&mut r, chars_of(file.to_file_path().as_str()).as_slice());
    extend_chars(&mut r, chars_of(": No such file or directory").as_slice());
    r
}

/// Counting over a prefix of the lines counts no more than over all of them.
proof fn lemma_counts_prefix(
    lines: Seq<Seq<char>>,
    reads: Seq<Option<Seq<u8>>>,
    mine: bool,
    alg: Seq<char>,
    i: int,
)
    requires
        0 <= i <= lines.len(),
    ensures
        count_malformed(lines.take(i)) <= count_malformed(lines),
        count_mismatched(lines.take(i), reads, mine, alg) <= count_mismatched(lines, reads, mine, alg),
    decreases lines.len() - i,
{
    if i == lines.len() {
        assert(lines.take(i) =~= lines);
    } else {
        lemma_counts_prefix(lines, reads, mine, alg, i + 1);
        assert(lines.take(i + 1).drop_last() =~= lines.take(i));
    }
}

impl File {
    /// Checks a listing of digests (this file's content, `listing`; `None`
    /// when it could not be read) against the files it names, whose contents
    /// are `reads[i]` for line `i`. Returns the messages, one per line, and
    /// counts malformed lines and mismatches in `error`.
    pub fn validate_file(
        &self,
        config: &Config,
        listing: Option<&str>,
        reads: &Vec<Option<Vec<u8>>>,
        error: &mut ErrorCount,
    ) -> (s: String)
        requires
            listing matches Some(text) ==> {
                let n = lines_of(text@).len();
                &&& reads@.len() == n
                &&& old(error).inc_format + count_malformed(lines_of(text@)) <= u32::MAX
                &&& old(error).inc_digest + count_mismatched(
                    lines_of(text@),
                    reads_view(reads@),
                    config.mine,
                    config.alg@,
                ) <= u32::MAX
                &&& forall|i: int|
                    0 <= i < n ==> (#[trigger] reads@[i] matches Some(c) ==> digest_len_ok(
                        config.mine,
                        config.alg@,
                        c@.len(),
                    ))
            },
        ensures
            match listing {
                None => s@ == missing_message(self@) && *final(error) == *old(error),
                Some(text) => {
                    let lines = lines_of(text@);
                    let rv = reads_view(reads@);
                    &&& s@ == join(
                        check_messages(lines, rv, config.mine, config.alg@, config.quiet_flag),
                        seq!['\n'],
                    )
                    &&& final(error).inc_format == old(error).inc_format + count_malformed(lines)
                    &&& final(error).inc_digest == old(error).inc_digest + count_mismatched(
                        lines,
                        rv,
                        config.mine,
                        config.alg@,
                    )
                },
            },
    {
        let text = match listing {
            None => {
                return string_of(missing_file_message(self).as_slice());
            },
            Some(text) => text,
        };
        let lines = lines_chars(chars_of(text).as_slice());
        let ghost lv = lines_of(text@);
        let ghost rv = reads_view(reads@);
        let ghost mine = config.mine;
        let ghost alg = config.alg@;
        let ghost quiet = config.quiet_flag;
        let ghost f0 = error.inc_format;
        let ghost d0 = error.inc_digest;
        let mut outs: Vec<Vec<char>> = Vec::new();
        for i in 0..lines.len()
            invariant
                lines@.len() == lv.len(),
                forall|j: int| 0 <= j < lv.len() ==> #[trigger] lines@[j]@ == lv[j],
                reads@.len() == lv.len(),
                rv == reads_view(reads@),
                mine == config.mine,
                alg == config.alg@,
                quiet == config.quiet_flag,
                f0 + count_malformed(lv) <= u32::MAX,
                d0 + count_mismatched(lv, rv, mine, alg) <= u32::MAX,
                forall|j: int|
                    0 <= j < lv.len() ==> (#[trigger] reads@[j] matches Some(c) ==> digest_len_ok(
                        mine,
                        alg,
                        c@.len(),
                    )),
                outs@.map_values(|p: Vec<char>| p@) == check_messages(
                    lv.take(i as int),
                    rv,
                    mine,
                    alg,
                    quiet,
                ),
                error.inc_format == f0 + count_malformed(lv.take(i as int)),
                error.inc_digest == d0 + count_mismatched(lv.take(i as int), rv, mine, alg),
        {
            proof {
                lemma_counts_prefix(lv, rv, mine, alg, i + 1);
            }
            let ghost before = outs@.map_values(|p: Vec<char>| p@);
            let ghost t = lv.take(i + 1);
            assert(t.drop_last() =~= lv.take(i as int));
            assert(t.last() == lv[i as int]);
            assert(rv[i as int] == match reads@[i as int] {
                Some(v) => Some(v@),
                None => None,
            });
            let line = &lines[i];
            match parse_check_line(line.as_slice()) {
                None => {
                    error.inc_format += 1;
                },
                Some(entry) => {
                    let read: Option<&[u8]> = match &reads[i] {
                        Some(v) => Some(v.as_slice()),
                        None => None,
                    };
                    let path = entry.file.to_file_path();
                    let path_chars = chars_of(path.as_str());
                    match entry.file.digest(config, read) {
                        None => {
                            outs.push(missing_file_message(&entry.file));
                        },
                        Some(hex) => {
                            let matched = chars_eq(
                                entry.expected.as_slice(),
                                chars_of(hex.as_str()).as_slice(),
                            );
                            if entry.two_space {
                                if matched {
                                    if config.quiet_flag {
                                        outs.push(with_suffix(path_chars.as_slice(), ": OK"));
                                    }
                                } else {
                                    outs.push(with_suffix(path_chars.as_slice(), ": FAILED"));
                                    error.inc_digest += 1;
                                }
                            } else {
                                if matched {
                                    outs.push(with_suffix(path_chars.as_slice(), ": OK"));
                                } else {
                                    outs.push(with_suffix(path_chars.as_slice(), ": WARNING"));
                                    error.inc_digest += 1;
                                }
                            }
                        },
                    }
                },
            }
            assert(outs@.map_values(|p: Vec<char>| p@) =~= check_messages(t, rv, mine, alg, quiet));
        }
        assert(lv.take(lines@.len() as int) =~= lv);
        let nl = ['\n'];
        assert(nl@ =~= seq!['\n']);
        let joined = join_chars(&outs, &nl);
        string_of(joined.as_slice())
    }
}

/// The options and operands read from the command line so far.
pub struct ParsedArgs {
    pub b_flag: bool,
    pub c_flag: bool,
    pub mine: bool,
    pub quiet_flag: bool,
    pub alg: Seq<char>,
    pub inputs: Seq<Option<Seq<char>>>,
}

/// Nothing read yet.
pub open spec fn no_args() -> ParsedArgs {
    ParsedArgs {
        b_flag: false,
        c_flag: false,
        mine: false,
        quiet_flag: false,
        alg: Seq::empty(),
        inputs: Seq::empty(),
    }
}

/// Reads `args[i..]` into `st`, left to right: `-b`, `-c`, `--quiet` and
/// `--mine` set flags, `--algorithm` takes the next argument as the
/// algorithm, and anything else is a file operand.
pub open spec fn parse_from(args: Seq<Seq<char>>, i: int, st: ParsedArgs) -> ParsedArgs
    decreases args.len() - i,
{
    if i < 0 || i >= args.len() {
        st
    } else if args[i] == "-b"@ {
        parse_from(args, i + 1, ParsedArgs { b_flag: true, ..st })
    } else if args[i] == "-c"@ {
        parse_from(args, i + 1, ParsedArgs { c_flag: true, ..st })
    } else if args[i] == "--quiet"@ {
        parse_from(args, i + 1, ParsedArgs { quiet_flag: true, ..st })
    } else if args[i] == "--mine"@ {
        parse_from(args, i + 1, ParsedArgs { mine: true, ..st })
    } else if args[i] == "--algorithm"@ {
        if i + 1 < args.len() {
            parse_from(args, i + 2, ParsedArgs { alg: args[i + 1], ..st })
        } else {
            st
        }
    } else {
        parse_from(args, i + 1, ParsedArgs { inputs: st.inputs.push(file_of(args[i])), ..st })
    }
}

/// Every `--algorithm` read from position `i` on has an argument after it.
pub open spec fn args_complete(args: Seq<Seq<char>>, i: int) -> bool
    decreases args.len() - i,
{
    if i < 0 || i >= args.len() {
        true
    } else if args[i] == "-b"@ || args[i] == "-c"@ || args[i] == "--quiet"@ || args[i]
        == "--mine"@ {
        args_complete(args, i + 1)
    } else if args[i] == "--algorithm"@ {
        i + 1 < args.len() && args_complete(args, i + 2)
    } else {
        args_complete(args, i + 1)
    }
}

/// The arguments as character sequences.
pub open spec fn args_view(args: Seq<String>) -> Seq<Seq<char>> {
    args.map_values(|a: String| a@)
}

/// The files as views.
pub open spec fn files_view(files: Seq<File>) -> Seq<Option<Seq<char>>> {
    files.map_values(|f: File| f@)
}

/// Whether every `--algorithm` in `args` is followed by its argument.
pub fn args_are_complete(args: &Vec<String>) -> (r: bool)
    ensures
        r == args_complete(args_view(args@), 0),
{
    let ghost av = args_view(args@);
    let mut i: usize = 0;
    while i < args.len()
        invariant
            av == args_view(args@),
            i <= args@.len() + 1,
            args_complete(av, 0) == args_complete(av, i as int),
        decreases args@.len() + 1 - i,
    {
        let arg = &args[i];
        if is_literal(arg, "-b") || is_literal(arg, "-c") || is_literal(arg, "--quiet")
            || is_literal(arg, "--mine") {
            i += 1;
        } else if is_literal(arg, "--algorithm") {
            if i + 1 >= args.len() {
                return false;
            }
            i += 2;
        } else {
            i += 1;
        }
    }
    true
}

/// Reads the command-line arguments into options and file operands.
pub fn parse_flag(args: Vec<String>) -> (r: (Config, Vec<File>))
    requires
        args_complete(args_view(args@), 0),
    ensures
        ({
            let p = parse_from(args_view(args@), 0, no_args());
            &&& r.0.b_flag == p.b_flag
            &&& r.0.c_flag == p.c_flag
            &&& r.0.mine == p.mine
            &&& r.0.quiet_flag == p.quiet_flag
            &&& r.0.alg@ == p.alg
            &&& files_view(r.1@) == p.inputs
        }),
{
    let ghost av = args_view(args@);
    let mut b_flag = false;
    let mut c_flag = false;
    let mut mine = false;
    let mut quiet_flag = false;
    let mut alg = String::new();
    let mut inputs: Vec<File> = Vec::new();

    let mut i: usize = 0;
    assert(files_view(inputs@) =~= Seq::<Option<Seq<char>>>::empty());
    assert(ParsedArgs {
        b_flag,
        c_flag,
        mine,
        quiet_flag,
        alg: alg@,
        inputs: files_view(inputs@),
    } == no_args());
    while i < args.len()
        invariant
            av == args_view(args@),
            i <= args@.len(),
            args_complete(av, i as int),
            parse_from(av, 0, no_args()) == parse_from(
                av,
                i as int,
                ParsedArgs {
                    b_flag,
                    c_flag,
                    mine,
                    quiet_flag,
                    alg: alg@,
                    inputs: files_view(inputs@),
                },
            ),
        decreases args@.len() - i,
    {
        let arg = &args[i];
        if is_literal(arg, "-b") {
            b_flag = true;
        } else if is_literal(arg, "-c") {
            c_flag = true;
        } else if is_literal(arg, "--quiet") {
            quiet_flag = true;
        } else if is_literal(arg, "--mine") {
            mine = true;
        } else if is_literal(arg, "--algorithm") {
            alg = args[i + 1].clone();
            i += 1;
        } else {
            let ghost before = inputs@;
            inputs.push(File::from(arg.as_str()));
            assert(files_view(inputs@) =~= files_view(before).push(file_of(av[i as int])));
        }
        i += 1;
    }

    (Config { b_flag: b_flag, c_flag: c_flag, quiet_flag: quiet_flag, mine: mine, alg: alg }, inputs)
}

/// The digest the options select is written in lower-case hexadecimal digits.
proof fn lemma_digest_spec_digits(mine: bool, alg: Seq<char>, content: Seq<u8>)
    ensures
        forall|i: int|
            0 <= i < digest_spec(mine, alg, content).len() ==> HEX_DIGITS@.contains(
                #[trigger] digest_spec(mine, alg, content)[i],
            ),
{
    if mine {
        lemma_hex_encode_digits(words32_le(md5(content)));
    } else if alg == "sha256"@ {
        lemma_hex_encode_digits(words32_be(sha256(content)));
    } else if alg == "sha512"@ {
        lemma_hex_encode_digits(words64_be(sha512(content)));
    } else {
        lemma_hex_encode_digits(md5_crate_digest(content));
    }
}

/// Checking accepts what the tool prints. The line printed for a readable
/// file without `-b` (digest, two spaces, path), checked with the same
/// options against the same content, prints nothing and counts nothing, or
/// prints `path: OK` under `--quiet`. This holds for every path other than
/// `-` that has no two consecutive spaces.
pub proof fn law_check_accepts_printed_line(
    mine: bool,
    alg: Seq<char>,
    quiet: bool,
    path: Seq<char>,
    content: Seq<u8>,
)
    requires
        path != "-"@,
        forall|j: int| !#[trigger] matches_at(path, double_space(), j),
    ensures
        check_outcome(
            digest_spec(mine, alg, content) + spacer(false) + path,
            Some(content),
            mine,
            alg,
            quiet,
        ) == (
            if quiet {
                Some(path + ": OK"@)
            } else {
                None::<Seq<char>>
            },
            false,
            false,
        ),
{
    reveal_strlit("  ");
    let d = digest_spec(mine, alg, content);
    let pat = double_space();
    let line = d + spacer(false) + path;
    assert(spacer(false) == pat);
    lemma_digest_spec_digits(mine, alg, content);
    assert(!HEX_DIGITS@.contains(' ')) by {
        assert forall|i: int| 0 <= i < 16 implies HEX_DIGITS@[i] != ' ' by {
            assert(HEX_DIGITS@ =~= seq![
                '0', '1', '2', '3', '4', '5', '6', '7', '8', '9', 'a', 'b', 'c', 'd', 'e', 'f',
            ]);
        }
    }
    assert forall|j: int| 0 <= j < d.len() implies !#[trigger] matches_at(line, pat, j) by {
        assert(line[j] == d[j]);
        assert(HEX_DIGITS@.contains(d[j]));
        if matches_at(line, pat, j) {
            assert(line.subrange(j, j + 2)[0] == line[j]);
        }
    }
    assert(line.subrange(d.len() as int, d.len() + 2int) =~= pat);
    lemma_find_from_at(line, pat, 0, d.len() as int);
    let rest: int = d.len() + 2int;
    assert forall|j: int| rest <= j implies !#[trigger] matches_at(line, pat, j) by {
        if matches_at(line, pat, j) {
            assert(line.subrange(j, j + 2) =~= path.subrange(j - rest, j - rest + 2));
            assert(matches_at(path, pat, j - rest));
        }
    }
    lemma_find_from_none(line, pat, rest);
    assert(split_from(line, pat, rest) == seq![line.subrange(rest, line.len() as int)]);
    assert(line.subrange(0, d.len() as int) =~= d);
    assert(line.subrange(rest, line.len() as int) =~= path);
    assert(split_on(line, pat) =~= seq![d, path]);
}

/// The digest the options select is the selected algorithm's: `--mine`
/// gives the library's MD5 (32 hexadecimal digits); otherwise
/// `--algorithm sha256` gives SHA-256 (64 digits), `--algorithm sha512`
/// gives SHA-512 (128 digits), and any other algorithm the `md-5` crate's MD5.
pub proof fn law_digest_selection(alg: Seq<char>, content: Seq<u8>)
    ensures
        digest_spec(true, alg, content) == hex_encode(words32_le(md5(content))),
        digest_spec(true, alg, content).len() == 32,
        digest_spec(false, "sha256"@, content) == hex_encode(words32_be(sha256(content))),
        digest_spec(false, "sha256"@, content).len() == 64,
        digest_spec(false, "sha512"@, content) == hex_encode(words64_be(sha512(content))),
        digest_spec(false, "sha512"@, content).len() == 128,
        alg != "sha256"@ && alg != "sha512"@ ==> digest_spec(false, alg, content) == hex_encode(
            md5_crate_digest(content),
        ),
{
    reveal_strlit("sha256");
    reveal_strlit("sha512");
    assert("sha256"@ != "sha512"@) by {
        assert("sha256"@[4] != "sha512"@[4]);
    }
    law_md5_digest_len(content);
    law_sha256_digest_len(content);
    law_sha512_digest_len(content);
}

/// The arguments that select options.
pub open spec fn is_flag(a: Seq<char>) -> bool {
    a == "-b"@ || a == "-c"@ || a == "--quiet"@ || a == "--mine"@ || a == "--algorithm"@
}

/// Reading arguments none of which is a flag adds each of them, in order, as
/// a file operand and changes no option.
proof fn lemma_parse_operands_from(args: Seq<Seq<char>>, i: int, st: ParsedArgs)
    requires
        0 <= i <= args.len(),
        forall|j: int| 0 <= j < args.len() ==> !is_flag(#[trigger] args[j]),
    ensures
        parse_from(args, i, st) == (ParsedArgs {
            inputs: st.inputs + args.skip(i).map_values(|a: Seq<char>| file_of(a)),
            ..st
        }),
    decreases args.len() - i,
{
    if i == args.len() {
        assert(st.inputs + args.skip(i).map_values(|a: Seq<char>| file_of(a)) =~= st.inputs);
    } else {
        assert(!is_flag(args[i]));
        let st2 = ParsedArgs { inputs: st.inputs.push(file_of(args[i])), ..st };
        lemma_parse_operands_from(args, i + 1, st2);
        assert(st2.inputs + args.skip(i + 1).map_values(|a: Seq<char>| file_of(a)) =~= st.inputs
            + args.skip(i).map_values(|a: Seq<char>| file_of(a)));
    }
}

/// Every argument that is not a flag is a file operand, in order: with no
/// flags among the arguments, the operands are all the arguments, each read
/// as a file (`-` for standard input), and every option stays off.
pub proof fn law_parse_operands(args: Seq<Seq<char>>)
    requires
        forall|j: int| 0 <= j < args.len() ==> !is_flag(#[trigger] args[j]),
    ensures
        parse_from(args, 0, no_args()).inputs == args.map_values(|a: Seq<char>| file_of(a)),
        parse_from(args, 0, no_args()).inputs.len() == args.len(),
        !parse_from(args, 0, no_args()).b_flag,
        !parse_from(args, 0, no_args()).c_flag,
        !parse_from(args, 0, no_args()).mine,
        !parse_from(args, 0, no_args()).quiet_flag,
        parse_from(args, 0, no_args()).alg == Seq::<char>::empty(),
{
    lemma_parse_operands_from(args, 0, no_args());
    assert(Seq::<Option<Seq<char>>>::empty() + args.skip(0).map_values(|a: Seq<char>| file_of(a))
        =~= args.map_values(|a: Seq<char>| file_of(a)));
}

/// The file operands among `args`: every argument that is not a flag, in
/// order, each read as a file.
pub open spec fn operands(args: Seq<Seq<char>>) -> Seq<Option<Seq<char>>>
    decreases args.len(),
{
    if args.len() == 0 {
        Seq::empty()
    } else if is_flag(args[0]) {
        operands(args.drop_first())
    } else {
        seq![file_of(args[0])] + operands(args.drop_first())
    }
}

proof fn lemma_parse_without_algorithm_from(args: Seq<Seq<char>>, i: int, st: ParsedArgs)
    requires
        0 <= i <= args.len(),
        !args.contains("--algorithm"@),
    ensures
        parse_from(args, i, st) == (ParsedArgs {
            b_flag: st.b_flag || args.skip(i).contains("-b"@),
            c_flag: st.c_flag || args.skip(i).contains("-c"@),
            mine: st.mine || args.skip(i).contains("--mine"@),
            quiet_flag: st.quiet_flag || args.skip(i).contains("--quiet"@),
            alg: st.alg,
            inputs: st.inputs + operands(args.skip(i)),
        }),
    decreases args.len() - i,
{
    let rest = args.skip(i);
    if i == args.len() {
        assert(rest =~= Seq::<Seq<char>>::empty());
        assert(st.inputs + operands(rest) =~= st.inputs);
    } else {
        let a = args[i];
        assert(rest[0] == a);
        assert(rest.drop_first() =~= args.skip(i + 1));
        assert(a != "--algorithm"@) by {
            assert(args[i] == a);
        }
        assert forall|f: Seq<char>| rest.contains(f) <==> (f == a || args.skip(i + 1).contains(f)) by {
            if rest.contains(f) {
                let j = choose|j: int| 0 <= j < rest.len() && rest[j] == f;
                if j > 0 {
                    assert(args.skip(i + 1)[j - 1] == f);
                } else {
                    assert(rest[0] == f);
                }
            }
            let tail = args.skip(i + 1);
            if tail.contains(f) {
                let j = choose|j: int| 0 <= j < tail.len() && tail[j] == f;
                assert(rest[j + 1] == f);
            }
        }
        reveal_strlit("-b");
        reveal_strlit("-c");
        reveal_strlit("--mine");
        reveal_strlit("--quiet");
        reveal_strlit("--algorithm");
        assert("-b"@[1] != "-c"@[1]);
        assert("-b"@.len() != "--mine"@.len() && "-b"@.len() != "--quiet"@.len());
        assert("--mine"@.len() != "--quiet"@.len() && "-c"@.len() != "--quiet"@.len());
        assert("-c"@.len() != "--mine"@.len());
        assert(rest.contains("-b"@) == (a == "-b"@ || args.skip(i + 1).contains("-b"@)));
        assert(rest.contains("-c"@) == (a == "-c"@ || args.skip(i + 1).contains("-c"@)));
        assert(rest.contains("--mine"@) == (a == "--mine"@ || args.skip(i + 1).contains("--mine"@)));
        assert(rest.contains("--quiet"@) == (a == "--quiet"@ || args.skip(i + 1).contains(
            "--quiet"@,
        )));
        if a == "-b"@ {
            lemma_parse_without_algorithm_from(args, i + 1, ParsedArgs { b_flag: true, ..st });
        } else if a == "-c"@ {
            lemma_parse_without_algorithm_from(args, i + 1, ParsedArgs { c_flag: true, ..st });
        } else if a == "--quiet"@ {
            lemma_parse_without_algorithm_from(args, i + 1, ParsedArgs { quiet_flag: true, ..st });
        } else if a == "--mine"@ {
            lemma_parse_without_algorithm_from(args, i + 1, ParsedArgs { mine: true, ..st });
        } else {
            let st2 = ParsedArgs { inputs: st.inputs.push(file_of(a)), ..st };
            lemma_parse_without_algorithm_from(args, i + 1, st2);
            assert(st2.inputs + operands(args.skip(i + 1)) =~= st.inputs + operands(rest));
        }
    }
}

/// Without `--algorithm`, an option is on exactly when its flag occurs among
/// the arguments, and the file operands are all the other arguments, in order.
pub proof fn law_parse_without_algorithm(args: Seq<Seq<char>>)
    requires
        !args.contains("--algorithm"@),
    ensures
        parse_from(args, 0, no_args()).b_flag == args.contains("-b"@),
        parse_from(args, 0, no_args()).c_flag == args.contains("-c"@),
        parse_from(args, 0, no_args()).mine == args.contains("--mine"@),
        parse_from(args, 0, no_args()).quiet_flag == args.contains("--quiet"@),
        parse_from(args, 0, no_args()).alg == Seq::<char>::empty(),
        parse_from(args, 0, no_args()).inputs == operands(args),
{
    lemma_parse_without_algorithm_from(args, 0, no_args());
    assert(args.skip(0) =~= args);
    assert(Seq::<Option<Seq<char>>>::empty() + operands(args) =~= operands(args));
}

/// A line `expected  path` (two spaces), where `expected` has no space and
/// `path` no two consecutive spaces, is read as an entry for `path`
/// expecting `expected`, in the two-space form.
pub proof fn lemma_two_space_entry(expected: Seq<char>, path: Seq<char>)
    requires
        forall|i: int| 0 <= i < expected.len() ==> #[trigger] expected[i] != ' ',
        forall|j: int| !#[trigger] matches_at(path, double_space(), j),
    ensures
        check_entry(expected + spacer(false) + path) == Some((expected, path, true)),
{
    reveal_strlit("  ");
    let pat = double_space();
    let line = expected + spacer(false) + path;
    assert(spacer(false) == pat);
    assert forall|j: int| 0 <= j < expected.len() implies !#[trigger] matches_at(line, pat, j) by {
        assert(line[j] == expected[j]);
        if matches_at(line, pat, j) {
            assert(line.subrange(j, j + 2)[0] == line[j]);
        }
    }
    assert(line.subrange(expected.len() as int, expected.len() + 2int) =~= pat);
    lemma_find_from_at(line, pat, 0, expected.len() as int);
    let rest: int = expected.len() + 2int;
    assert forall|j: int| rest <= j implies !#[trigger] matches_at(line, pat, j) by {
        if matches_at(line, pat, j) {
            assert(line.subrange(j, j + 2) =~= path.subrange(j - rest, j - rest + 2));
            assert(matches_at(path, pat, j - rest));
        }
    }
    lemma_find_from_none(line, pat, rest);
    assert(split_from(line, pat, rest) == seq![line.subrange(rest, line.len() as int)]);
    assert(line.subrange(0, expected.len() as int) =~= expected);
    assert(line.subrange(rest, line.len() as int) =~= path);
    assert(split_on(line, pat) =~= seq![expected, path]);
}

/// Checking a two-space listing line `expected  path`: an unreadable file
/// gives the no-such-file message and counts nothing; a file whose digest
/// (with the options in force) equals `expected` passes, printing `path: OK`
/// only under `--quiet`; any other content fails, printing `path: FAILED`
/// and counting one mismatch. No such line counts as malformed.
pub proof fn law_check_two_space_line(
    mine: bool,
    alg: Seq<char>,
    quiet: bool,
    expected: Seq<char>,
    path: Seq<char>,
    read: Option<Seq<u8>>,
)
    requires
        path != "-"@,
        forall|i: int| 0 <= i < expected.len() ==> #[trigger] expected[i] != ' ',
        forall|j: int| !#[trigger] matches_at(path, double_space(), j),
    ensures
        check_outcome(expected + spacer(false) + path, read, mine, alg, quiet) == match read {
            None => (Some("md5sum:  "@ + path + ": No such file or directory"@), false, false),
            Some(c) => if expected == digest_spec(mine, alg, c) {
                (
                    if quiet {
                        Some(path + ": OK"@)
                    } else {
                        None::<Seq<char>>
                    },
                    false,
                    false,
                )
            } else {
                (Some(path + ": FAILED"@), false, true)
            },
        },
{
    lemma_two_space_entry(expected, path);
}

/// The options and operands after reading `xs`, none of them
/// `--algorithm`, into `st`.
pub open spec fn read_plain(st: ParsedArgs, xs: Seq<Seq<char>>) -> ParsedArgs {
    ParsedArgs {
        b_flag: st.b_flag || xs.contains("-b"@),
        c_flag: st.c_flag || xs.contains("-c"@),
        mine: st.mine || xs.contains("--mine"@),
        quiet_flag: st.quiet_flag || xs.contains("--quiet"@),
        alg: st.alg,
        inputs: st.inputs + operands(xs),
    }
}

/// Reading `args[i..n]`, where no argument is `--algorithm`.
proof fn lemma_parse_plain_range(args: Seq<Seq<char>>, i: int, n: int, st: ParsedArgs)
    requires
        0 <= i <= n <= args.len(),
        forall|j: int| i <= j < n ==> #[trigger] args[j] != "--algorithm"@,
    ensures
        parse_from(args, i, st) == parse_from(args, n, read_plain(st, args.subrange(i, n))),
    decreases n - i,
{
    let xs = args.subrange(i, n);
    if i == n {
        assert(xs =~= Seq::<Seq<char>>::empty());
        assert(st.inputs + operands(xs) =~= st.inputs);
        assert(read_plain(st, xs) == st);
    } else {
        let a = args[i];
        let ys = args.subrange(i + 1, n);
        assert(xs[0] == a);
        assert(xs.drop_first() =~= ys);
        assert(a != "--algorithm"@);
        assert forall|f: Seq<char>| xs.contains(f) <==> (f == a || ys.contains(f)) by {
            if xs.contains(f) {
                let j = choose|j: int| 0 <= j < xs.len() && xs[j] == f;
                if j > 0 {
                    assert(ys[j - 1] == f);
                } else {
                    assert(xs[0] == f);
                }
            }
            if ys.contains(f) {
                let j = choose|j: int| 0 <= j < ys.len() && ys[j] == f;
                assert(xs[j + 1] == f);
            }
        }
        reveal_strlit("-b");
        reveal_strlit("-c");
        reveal_strlit("--mine");
        reveal_strlit("--quiet");
        reveal_strlit("--algorithm");
        assert("-b"@[1] != "-c"@[1]);
        assert("-b"@.len() != "--mine"@.len() && "-b"@.len() != "--quiet"@.len());
        assert("--mine"@.len() != "--quiet"@.len() && "-c"@.len() != "--quiet"@.len());
        assert("-c"@.len() != "--mine"@.len());
        assert(xs.contains("-b"@) == (a == "-b"@ || ys.contains("-b"@)));
        assert(xs.contains("-c"@) == (a == "-c"@ || ys.contains("-c"@)));
        assert(xs.contains("--mine"@) == (a == "--mine"@ || ys.contains("--mine"@)));
        assert(xs.contains("--quiet"@) == (a == "--quiet"@ || ys.contains("--quiet"@)));
        let st2 = if a == "-b"@ {
            ParsedArgs { b_flag: true, ..st }
        } else if a == "-c"@ {
            ParsedArgs { c_flag: true, ..st }
        } else if a == "--quiet"@ {
            ParsedArgs { quiet_flag: true, ..st }
        } else if a == "--mine"@ {
            ParsedArgs { mine: true, ..st }
        } else {
            ParsedArgs { inputs: st.inputs.push(file_of(a)), ..st }
        };
        assert(parse_from(args, i, st) == parse_from(args, i + 1, st2));
        lemma_parse_plain_range(args, i + 1, n, st2);
        if !is_flag(a) {
            assert(st2.inputs + operands(ys) =~= st.inputs + operands(xs));
        }
        assert(read_plain(st2, ys) == read_plain(st, xs));
    }
}

/// The value after `--algorithm` selects the algorithm and is not a file
/// operand: with one `--algorithm v` between arguments `pre` and `post`
/// (neither holding another), the algorithm is `v`, the operands are those
/// of `pre` then those of `post`, and an option is on when its flag occurs
/// in `pre` or `post`.
pub proof fn law_parse_algorithm(pre: Seq<Seq<char>>, v: Seq<char>, post: Seq<Seq<char>>)
    requires
        !pre.contains("--algorithm"@),
        !post.contains("--algorithm"@),
    ensures
        ({
            let p = parse_from(pre + seq!["--algorithm"@, v] + post, 0, no_args());
            &&& p.alg == v
            &&& p.inputs == operands(pre) + operands(post)
            &&& p.b_flag == (pre.contains("-b"@) || post.contains("-b"@))
            &&& p.c_flag == (pre.contains("-c"@) || post.contains("-c"@))
            &&& p.mine == (pre.contains("--mine"@) || post.contains("--mine"@))
            &&& p.quiet_flag == (pre.contains("--quiet"@) || post.contains("--quiet"@))
        }),
{
    let args = pre + seq!["--algorithm"@, v] + post;
    let n = pre.len() as int;
    assert forall|j: int| 0 <= j < n implies #[trigger] args[j] != "--algorithm"@ by {
        assert(args[j] == pre[j]);
    }
    lemma_parse_plain_range(args, 0, n, no_args());
    assert(args.subrange(0, n) =~= pre);
    let st1 = read_plain(no_args(), pre);
    reveal_strlit("-b");
    reveal_strlit("-c");
    reveal_strlit("--mine");
    reveal_strlit("--quiet");
    reveal_strlit("--algorithm");
    assert(args[n] == "--algorithm"@);
    assert(args[n + 1] == v);
    assert(parse_from(args, n, st1) == parse_from(args, n + 2, ParsedArgs { alg: v, ..st1 }));
    assert forall|j: int| n + 2 <= j < args.len() implies #[trigger] args[j] != "--algorithm"@ by {
        assert(args[j] == post[j - n - 2]);
    }
    let st2 = ParsedArgs { alg: v, ..st1 };
    lemma_parse_plain_range(args, n + 2, args.len() as int, st2);
    assert(args.subrange(n + 2, args.len() as int) =~= post);
    assert(no_args().inputs + operands(pre) + operands(post) =~= operands(pre) + operands(post));
}

} // verus!
