//! The command line handed to the downloader for one job.
use vstd::prelude::*;
use vstd::utf8::encode_utf8;

use crate::text::{owned, string_views, trim, trimmed};

verus! {

/// The options the frontend sends with a download.
#[derive(Debug)]
pub struct DownloadOptions {
    /// The format selector, e.g. "bv*+ba/b".
    pub format: Option<String>,
    /// The output directory; without one the downloader's default location is used.
    pub output_dir: Option<String>,
    /// Extra command line arguments, split as a POSIX shell would and
    /// appended verbatim.
    pub raw_args: Option<String>,
    /// The content of a cookies.txt file, for sites that need cookies.
    pub cookies: Option<String>,
}

impl Default for DownloadOptions {
    fn default() -> (res: DownloadOptions)
        ensures
            res.format is None,
            res.output_dir is None,
            res.raw_args is None,
            res.cookies is None,
    {
        DownloadOptions { format: None, output_dir: None, raw_args: None, cookies: None }
    }
}

/// The error type of `shell_words::split`.
#[verifier::external_type_specification]
#[verifier::external_body]
pub struct ExParseError(shell_words::ParseError);

/// The words that `shell_words::split` makes of a command line, or `None`
/// where a quote is not closed.
pub uninterp spec fn shell_split(line: Seq<char>) -> Option<Seq<Seq<char>>>;

/// `shell_words::split`: its result is named by `shell_split`.
#[verifier::external_body]
fn split_shell_words(line: &str) -> (res: Result<Vec<String>, shell_words::ParseError>)
    ensures
        res is Ok <==> shell_split(line@) is Some,
        res matches Ok(words) ==> shell_split(line@) == Some(string_views(words@)),
{
    shell_words::split(line)
}

/// The `Display` text of `shell_words::ParseError`, which is always
/// "missing closing quote".
#[verifier::external_body]
fn parse_error_text(e: &shell_words::ParseError) -> (res: String)
    ensures
        res@ == "missing closing quote"@,
{
    e.to_string()
}

// ---------------------------------------------------------------------------
// Specifications
// ---------------------------------------------------------------------------

/// The machine-readable plumbing every run gets: progress on separate
/// lines, UTF-8 output, the title and final path printed with markers, and
/// a progress template of `|`-separated fields.
pub open spec fn base_args() -> Seq<Seq<char>> {
    seq![
        "--no-simulate"@,
        "--progress"@,
        "--newline"@,
        "--encoding"@,
        "utf-8"@,
        "--print"@,
        "before_dl:__ENTRY__|%(title)s"@,
        "--print"@,
        "after_move:__FILE__|%(filepath)s"@,
        "--progress-template"@,
        "download:__PROG__|%(progress.downloaded_bytes)s|%(progress.total_bytes)s|%(progress.total_bytes_estimate)s|%(progress.speed)s|%(progress.eta)s"@,
        "--no-mtime"@,
    ]
}

/// `--format` with the trimmed selector, unless there is none or it is blank.
pub open spec fn format_args(o: DownloadOptions) -> Seq<Seq<char>> {
    match o.format {
        Some(f) => if trimmed(f@).len() > 0 {
            seq!["--format"@, trimmed(f@)]
        } else {
            Seq::empty()
        },
        None => Seq::empty(),
    }
}

/// `--paths` with the trimmed output directory; a blank or missing one gives
/// nothing, so the downloader's default location applies.
pub open spec fn paths_args(o: DownloadOptions) -> Seq<Seq<char>> {
    match o.output_dir {
        Some(d) => if trimmed(d@).len() > 0 {
            seq!["--paths"@, trimmed(d@)]
        } else {
            Seq::empty()
        },
        None => Seq::empty(),
    }
}

/// Whether the options carry cookies (not blank).
pub open spec fn has_cookies(o: DownloadOptions) -> bool {
    o.cookies matches Some(c) && trimmed(c@).len() > 0
}

/// `--cookies` with the file the cookies were written to.
pub open spec fn cookies_args(o: DownloadOptions, cookies_file: Option<String>) -> Seq<Seq<char>> {
    if has_cookies(o) {
        seq!["--cookies"@, cookies_file.unwrap()@]
    } else {
        Seq::empty()
    }
}

/// The arguments made from the options themselves.
pub open spec fn option_args(o: DownloadOptions, cookies_file: Option<String>) -> Seq<Seq<char>> {
    base_args() + format_args(o) + paths_args(o) + cookies_args(o, cookies_file)
}

/// A non-blank format selector was given.
pub open spec fn has_format(o: DownloadOptions) -> bool {
    o.format matches Some(f) && trimmed(f@).len() > 0
}

/// A non-blank output directory was given.
pub open spec fn has_output_dir(o: DownloadOptions) -> bool {
    o.output_dir matches Some(d) && trimmed(d@).len() > 0
}

/// Where each option lands on the command line: the plumbing comes first;
/// then `--format` and the trimmed selector if one was given; then
/// `--paths` and the trimmed output directory if one was given, whatever
/// the format; the cookies file comes last. Nothing else is added, so
/// without an output directory the downloader's default location applies.
pub proof fn law_option_positions(o: DownloadOptions, cookies_file: Option<String>)
    requires
        has_cookies(o) ==> cookies_file is Some,
    ensures
        ({
            let a = option_args(o, cookies_file);
            let f: int = if has_format(o) { 2 } else { 0 };
            let p: int = if has_output_dir(o) { 2 } else { 0 };
            let c: int = if has_cookies(o) { 2 } else { 0 };
            &&& a.len() == base_args().len() + f + p + c
            &&& a.subrange(0, base_args().len() as int) == base_args()
            &&& has_format(o) ==> a[12] == "--format"@ && a[13] == trimmed(o.format.unwrap()@)
            &&& has_output_dir(o) ==> a[12 + f] == "--paths"@ && a[13 + f] == trimmed(
                o.output_dir.unwrap()@,
            )
            &&& has_cookies(o) ==> a[a.len() - 2] == "--cookies"@ && a[a.len() - 1]
                == cookies_file.unwrap()@
        }),
{
    let a = option_args(o, cookies_file);
    assert(base_args().len() == 12);
    assert(a.subrange(0, 12) =~= base_args());
}

/// The error for extra arguments with an unclosed quote.
pub open spec fn raw_args_error() -> Seq<char> {
    "raw args parse error: "@ + "missing closing quote"@
}

/// The byte order mark that makes the downloader read a file as UTF-8.
pub open spec fn utf8_bom() -> Seq<u8> {
    seq![0xefu8, 0xbbu8, 0xbfu8]
}

// ---------------------------------------------------------------------------
// Executable functions
// ---------------------------------------------------------------------------

fn push_pair(args: &mut Vec<String>, flag: &str, value: String)
    ensures
        string_views(final(args)@) == string_views(old(args)@) + seq![flag@, value@],
{
    let ghost before = string_views(args@);
    args.push(owned(flag));
    args.push(value);
    assert(string_views(args@) =~= before + seq![flag@, value@]);
}

/// Appends the words of the extra arguments to `args`, or reports why they
/// could not be split.
pub fn finish_args(args: Vec<String>, words: Result<Vec<String>, String>) -> (res: Result<
    Vec<String>,
    String,
>)
    ensures
        match words {
            Ok(w) => res matches Ok(a) && string_views(a@) == string_views(args@) + string_views(w@),
            Err(m) => res matches Err(e) && e@ == "raw args parse error: "@ + m@,
        },
{
    match words {
        Ok(w) => {
            let mut all = args;
            let ghost start = string_views(all@);
            let mut i: usize = 0;
            while i < w.len()
                invariant
                    i <= w@.len(),
                    string_views(all@) == start + string_views(w@).take(i as int),
                decreases w@.len() - i,
            {
                let ghost before = string_views(all@);
                all.push(w[i].clone());
                assert(string_views(all@) =~= before.push(w@[i as int]@));
                assert(string_views(w@).take(i + 1) =~= string_views(w@).take(i as int).push(
                    w@[i as int]@,
                ));
                i = i + 1;
            }
            assert(string_views(w@).take(w@.len() as int) =~= string_views(w@));
            Ok(all)
        },
        Err(m) => {
            let mut e = owned("raw args parse error: ");
            e.append(m.as_str());
            Err(e)
        },
    }
}

impl DownloadOptions {
    /// The arguments made from the options themselves, before any extra
    /// arguments. `cookies_file` is where the cookies were written, which
    /// there must be when the options carry cookies.
    pub fn option_args(&self, cookies_file: Option<String>) -> (res: Vec<String>)
        requires
            has_cookies(*self) ==> cookies_file is Some,
        ensures
            string_views(res@) == option_args(*self, cookies_file),
    {
        let mut args: Vec<String> = Vec::new();
        args.push(owned("--no-simulate"));
        args.push(owned("--progress"));
        args.push(owned("--newline"));
        args.push(owned("--encoding"));
        args.push(owned("utf-8"));
        args.push(owned("--print"));
        args.push(owned("before_dl:__ENTRY__|%(title)s"));
        args.push(owned("--print"));
        args.push(owned("after_move:__FILE__|%(filepath)s"));
        args.push(owned("--progress-template"));
        args.push(
            owned(
                "download:__PROG__|%(progress.downloaded_bytes)s|%(progress.total_bytes)s|%(progress.total_bytes_estimate)s|%(progress.speed)s|%(progress.eta)s",
            ),
        );
        args.push(owned("--no-mtime"));
        assert(string_views(args@) =~= base_args());
        if let Some(f) = &self.format {
            let f = trim(f.as_str());
            if !f.as_str().is_empty() {
                push_pair(&mut args, "--format", f);
            }
        }
        assert(string_views(args@) =~= base_args() + format_args(*self));
        if let Some(d) = &self.output_dir {
            let d = trim(d.as_str());
            if !d.as_str().is_empty() {
                push_pair(&mut args, "--paths", d);
            }
        }
        assert(string_views(args@) =~= base_args() + format_args(*self) + paths_args(*self));
        if let Some(c) = &self.cookies {
            let c = trim(c.as_str());
            if !c.as_str().is_empty() {
                if let Some(path) = cookies_file {
                    push_pair(&mut args, "--cookies", path);
                }
            }
        }
        assert(string_views(args@) =~= option_args(*self, cookies_file));
        args
    }

    /// The whole command line for the downloader, without the URL: the
    /// option arguments, then the words of the extra arguments. Fails only
    /// when the extra arguments have an unclosed quote. The cookies file
    /// must have been written when the options carry cookies.
    pub fn to_args(&self, cookies_file: Option<String>) -> (res: Result<Vec<String>, String>)
        requires
            has_cookies(*self) ==> cookies_file is Some,
        ensures
            match self.raw_args {
                None => res matches Ok(a) && string_views(a@) == option_args(*self, cookies_file),
                Some(r) => match shell_split(r@) {
                    Some(words) => res matches Ok(a) && string_views(a@) == option_args(*self, cookies_file) + words,
                    None => res matches Err(e) && e@ == raw_args_error(),
                },
            },
            res matches Ok(a) ==> base_args().is_prefix_of(string_views(a@)),
    {
        let args = self.option_args(cookies_file);
        let res = match &self.raw_args {
            None => Ok(args),
            Some(raw) => match split_shell_words(raw.as_str()) {
                Ok(words) => finish_args(args, Ok(words)),
                Err(e) => finish_args(args, Err(parse_error_text(&e))),
            },
        };
        proof {
            if res is Ok {
                let a = res->Ok_0;
                assert(string_views(a@).subrange(0, base_args().len() as int) =~= base_args());
            }
        }
        res
    }

    /// What goes into the cookies file: a UTF-8 byte order mark, then the
    /// trimmed cookies; `None` when there are no cookies or they are blank.
    pub fn cookie_file_contents(&self) -> (res: Option<Vec<u8>>)
        ensures
            !has_cookies(*self) ==> res is None,
            has_cookies(*self) ==> (res matches Some(b) && b@ == utf8_bom() + encode_utf8(
                trimmed(self.cookies.unwrap()@),
            )),
    {
        match &self.cookies {
            None => None,
            Some(c) => {
                let t = trim(c.as_str());
                if t.as_str().is_empty() {
                    return None;
                }
                let bytes = t.as_str().as_bytes();
                let mut out: Vec<u8> = Vec::new();
                out.push(0xefu8);
                out.push(0xbbu8);
                out.push(0xbfu8);
                let mut i: usize = 0;
                while i < bytes.len()
                    invariant
                        i <= bytes@.len(),
                        out@ == utf8_bom() + bytes@.take(i as int),
                    decreases bytes@.len() - i,
                {
                    out.push(bytes[i]);
                    assert(bytes@.take(i + 1) =~= bytes@.take(i as int).push(bytes@[i as int]));
                    i = i + 1;
                }
                assert(bytes@.take(bytes@.len() as int) =~= bytes@);
                Some(out)
            },
        }
    }
}

} // verus!
