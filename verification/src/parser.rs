//! Command-line options of the reflection converter.

use vstd::prelude::*;
use vstd::string::*;

verus! {

/// Why a list of arguments cannot be turned into options.
#[derive(Clone, Copy, Debug, PartialEq, Eq, Structural)]
pub enum ArgError {
    /// `-v` is the last argument: no level follows it.
    MissingVerbosity,
    /// The argument after `-v` is not a decimal number from 0 to 255.
    BadVerbosity,
}

/// The options the converter runs with.
#[derive(Clone)]
pub struct Parser {
    xdsascii_file: String,
    outdir: String,
    outfile: String,
    recursive: bool,
    verbosity: u8,
}

/// What a `Parser` holds, as plain values.
pub struct ParserView {
    pub xdsascii_file: Seq<char>,
    pub outdir: Seq<char>,
    pub outfile: Seq<char>,
    pub recursive: bool,
    pub verbosity: u8,
}

/// The value of one decimal digit, or `None` for any other character.
pub open spec fn digit_value(c: char) -> Option<nat> {
    if '0' <= c && c <= '9' {
        Some((c as nat - '0' as nat) as nat)
    } else {
        None
    }
}

/// Every character of `s` is a decimal digit.
pub open spec fn all_digits(s: Seq<char>) -> bool {
    forall|i: int| 0 <= i < s.len() ==> (#[trigger] digit_value(s[i])) is Some
}

/// The number that the digits of `s` spell, most significant first.
pub open spec fn digits_value(s: Seq<char>) -> nat
    decreases s.len(),
{
    if s.len() == 0 {
        0
    } else {
        10 * digits_value(s.drop_last()) + digit_value(s.last()).unwrap_or(0)
    }
}

/// `s` without one leading plus sign.
pub open spec fn unsigned_part(s: Seq<char>) -> Seq<char> {
    if s.len() > 0 && s[0] == '+' {
        s.subrange(1, s.len() as int)
    } else {
        s
    }
}

/// The verbosity level that `s` spells: an optional `+`, then one or more
/// decimal digits whose value is at most 255.
pub open spec fn verbosity_value(s: Seq<char>) -> Option<u8> {
    let body = unsigned_part(s);
    if body.len() > 0 && all_digits(body) && digits_value(body) <= 255 {
        Some(digits_value(body) as u8)
    } else {
        None
    }
}

/// The argument asks for the help text.
pub open spec fn is_help(a: Seq<char>) -> bool {
    a == "-h"@ || a == "-?"@
}

/// The argument announces a verbosity level.
pub open spec fn is_verbosity_flag(a: Seq<char>) -> bool {
    a == "-v"@
}

/// The verbosity after reading the arguments from `idx` on, starting from
/// `verbosity`: `Ok(None)` as soon as help is asked for, an error as soon as a
/// `-v` has no valid level behind it. The level itself is read again as an
/// ordinary argument, and every other argument is passed over.
pub open spec fn scan_args(args: Seq<Seq<char>>, idx: int, verbosity: u8) -> Result<
    Option<u8>,
    ArgError,
>
    decreases args.len() - idx,
{
    if idx < 0 || idx >= args.len() {
        Ok(Some(verbosity))
    } else if is_help(args[idx]) {
        Ok(None)
    } else if is_verbosity_flag(args[idx]) {
        if idx + 1 >= args.len() {
            Err(ArgError::MissingVerbosity)
        } else {
            match verbosity_value(args[idx + 1]) {
                None => Err(ArgError::BadVerbosity),
                Some(v) => scan_args(args, idx + 1, v),
            }
        }
    } else {
        scan_args(args, idx + 1, verbosity)
    }
}

/// The options in force when no argument changes them, at a given verbosity.
pub open spec fn default_options(verbosity: u8) -> ParserView {
    ParserView {
        xdsascii_file: "XDS_ASCII.HKL"@,
        outdir: "./"@,
        outfile: "xds.sad"@,
        recursive: true,
        verbosity,
    }
}

/// The views of the arguments, in order.
pub open spec fn arg_views(args: Seq<String>) -> Seq<Seq<char>> {
    Seq::new(args.len(), |i: int| args[i]@)
}

proof fn lemma_digits_value_push(s: Seq<char>, c: char)
    ensures
        digits_value(s.push(c)) == 10 * digits_value(s) + digit_value(c).unwrap_or(0),
{
    assert(s.push(c).drop_last() =~= s);
}

/// Reads a verbosity level from `s`.
pub fn parse_verbosity(s: &str) -> (r: Option<u8>)
    ensures
        r == verbosity_value(s@),
{
    let n = s.unicode_len();
    let mut i: usize = 0;
    if n > 0 && s.get_char(0) == '+' {
        i = 1;
    }
    let start = i;
    if i == n {
        return None;
    }
    let ghost body = unsigned_part(s@);
    assert(body =~= s@.subrange(start as int, n as int));
    let mut value: u32 = 0;
    while i < n
        invariant
            start <= i <= n,
            n == s@.len(),
            start < n,
            body == s@.subrange(start as int, n as int),
            body == unsigned_part(s@),
            all_digits(body.subrange(0, i - start)),
            value == digits_value(body.subrange(0, i - start)),
            value <= 255,
        decreases n - i,
    {
        let c = s.get_char(i);
        let ghost before = body.subrange(0, i - start);
        assert(body.subrange(0, i + 1 - start) =~= before.push(c));
        proof {
            lemma_digits_value_push(before, c);
        }
        if c < '0' || c > '9' {
            assert(digit_value(body[i - start]) is None);
            assert(!all_digits(body));
            return None;
        }
        let d: u32 = (c as u32) - ('0' as u32);
        value = 10 * value + d;
        if value > 255 {
            proof {
                lemma_digits_value_grows(body, i + 1 - start);
            }
            return None;
        }
        i = i + 1;
    }
    assert(body.subrange(0, n - start) =~= body);
    Some(value as u8)
}

/// Among digit strings, a prefix never spells more than the whole.
proof fn lemma_digits_value_grows(s: Seq<char>, k: int)
    requires
        0 <= k <= s.len(),
    ensures
        digits_value(s.subrange(0, k)) <= digits_value(s),
    decreases s.len() - k,
{
    if k < s.len() {
        lemma_digits_value_grows(s, k + 1);
        assert(s.subrange(0, k + 1).drop_last() =~= s.subrange(0, k));
    } else {
        assert(s.subrange(0, k) =~= s);
    }
}

impl View for Parser {
    type V = ParserView;

    closed spec fn view(&self) -> ParserView {
        ParserView {
            xdsascii_file: self.xdsascii_file@,
            outdir: self.outdir@,
            outfile: self.outfile@,
            recursive: self.recursive,
            verbosity: self.verbosity,
        }
    }
}

impl Parser {
    /// The file the reflections are read from.
    pub fn xdsascii(&self) -> (r: String)
        ensures
            r@ == self@.xdsascii_file,
    {
        self.xdsascii_file.clone()
    }

    /// How much the converter reports while it runs.
    pub fn verbosity(&self) -> (r: u8)
        ensures
            r == self@.verbosity,
    {
        self.verbosity
    }

    /// The file the converted reflections are written to.
    pub fn outfile(&self) -> (r: String)
        ensures
            r@ == self@.outfile,
    {
        self.outfile.clone()
    }

    /// The directory the output is written to.
    pub fn outdir(&self) -> (r: String)
        ensures
            r@ == self@.outdir,
    {
        self.outdir.clone()
    }

    /// Whether input files are searched for in subdirectories.
    pub fn recursive(&self) -> (r: bool)
        ensures
            r == self@.recursive,
    {
        self.recursive
    }

    /// Reads the options from the program's arguments; `args[0]`, the
    /// program's name, is passed over. `Ok(None)` means that help was asked
    /// for.
    pub fn parseinput(args: &Vec<String>) -> (r: Result<Option<Parser>, ArgError>)
        ensures
            match scan_args(arg_views(args@), 1, 1) {
                Ok(Some(v)) => r matches Ok(Some(p)) && p@ == default_options(v),
                Ok(None) => r matches Ok(None),
                Err(e) => r == Err::<Option<Parser>, ArgError>(e),
            },
    {
        let help_h = String::from_str("-h");
        let help_q = String::from_str("-?");
        let flag_v = String::from_str("-v");
        let ghost views = arg_views(args@);
        let mut verbosity: u8 = 1;
        let mut idx: usize = 1;
        while idx < args.len()
            invariant
                1 <= idx,
                views == arg_views(args@),
                help_h@ == "-h"@,
                help_q@ == "-?"@,
                flag_v@ == "-v"@,
                scan_args(views, 1, 1) == scan_args(views, idx as int, verbosity),
            decreases args.len() - idx,
        {
            assert(views[idx as int] == args[idx as int]@);
            if args[idx] == help_h || args[idx] == help_q {
                return Ok(None);
            }
            if args[idx] == flag_v {
                if idx + 1 >= args.len() {
                    return Err(ArgError::MissingVerbosity);
                }
                assert(views[idx + 1] == args[idx + 1]@);
                match parse_verbosity(args[idx + 1].as_str()) {
                    None => {
                        return Err(ArgError::BadVerbosity);
                    },
                    Some(v) => {
                        verbosity = v;
                    },
                }
            }
            idx = idx + 1;
        }
        Ok(
            Some(
                Parser {
                    xdsascii_file: String::from_str("XDS_ASCII.HKL"),
                    outdir: String::from_str("./"),
                    outfile: String::from_str("xds.sad"),
                    recursive: true,
                    verbosity,
                },
            ),
        )
    }
}

} // verus!
