//! Probing a URL for its metadata, the downloader's version, and the
//! default download folder.
use vstd::prelude::*;

use crate::text::{
    chars_of, decode_output, decoded, last_line, owned, split_chars, split_seq, text_lines, trim,
    trimmed, utf8_lossy, utf8_lossy_string,
};

verus! {

/// A JSON document (`serde_json::Value`).
#[verifier::external_type_specification]
#[verifier::external_body]
pub struct ExJsonValue(serde_json::Value);

/// The error of a JSON parse (`serde_json::Error`).
#[verifier::external_type_specification]
#[verifier::external_body]
pub struct ExJsonError(serde_json::Error);

/// What `serde_json::from_str` makes of a text as a `serde_json::Value`:
/// the document, or the error that stopped the parse.
pub uninterp spec fn json_parse(text: Seq<char>) -> Result<serde_json::Value, serde_json::Error>;

/// The `Display` text of a `serde_json::Error`: what went wrong, and where.
pub uninterp spec fn json_error_display(e: serde_json::Error) -> Seq<char>;

/// `serde_json::from_str` into a `serde_json::Value`: its result is named
/// by `json_parse`.
#[verifier::external_body]
fn parse_json(text: &str) -> (res: Result<serde_json::Value, serde_json::Error>)
    ensures
        res == json_parse(text@),
{
    serde_json::from_str(text)
}

/// `Display` of `serde_json::Error`: its text is named by `json_error_display`.
#[verifier::external_body]
fn json_error_text(e: &serde_json::Error) -> (res: String)
    ensures
        res@ == json_error_display(*e),
{
    e.to_string()
}

/// What the downloader reports of its version.
#[derive(Debug)]
pub struct VersionReport {
    /// The installed version.
    pub current: String,
    /// The newest released version, where it could be learnt.
    pub latest: Option<String>,
    /// A different, non-empty newest version is known.
    pub update_available: bool,
}

// ---------------------------------------------------------------------------
// Specifications
// ---------------------------------------------------------------------------

/// The message of a failed probe: the last stderr line, or a default.
pub open spec fn probe_error(stderr: Seq<char>) -> Seq<char> {
    let ls = text_lines(stderr);
    if ls.len() > 0 {
        ls.last()
    } else {
        "failed to fetch info"@
    }
}

/// The arguments of a metadata probe: one JSON document, no warnings,
/// UTF-8 output, and the trimmed URL.
pub open spec fn probe_args(url: Seq<char>) -> Seq<Seq<char>> {
    seq!["-J"@, "--no-warnings"@, "--encoding"@, "utf-8"@, trimmed(url)]
}

/// A decimal digit.
pub open spec fn is_digit(c: char) -> bool {
    48 <= (c as u32) <= 57
}

/// The number that a string of decimal digits spells.
pub open spec fn digits_value(s: Seq<char>) -> nat
    decreases s.len(),
{
    if s.len() == 0 {
        0
    } else {
        digits_value(s.drop_last()) * 10 + ((s.last() as u32) - 48) as nat
    }
}

/// A version component: a non-empty run of decimal digits that fits in 64 bits.
pub open spec fn is_number(s: Seq<char>) -> bool {
    &&& s.len() > 0
    &&& forall|k: int| 0 <= k < s.len() ==> is_digit(#[trigger] s[k])
    &&& digits_value(s) <= u64::MAX
}

/// The numeric components of a release tag such as "2026.07.04" or
/// "2024.03.10.232819", or `None` if the tag is not of that form.
pub open spec fn version_parts(tag: Seq<char>) -> Option<Seq<nat>> {
    let p = split_seq(tag, '.');
    if forall|i: int| 0 <= i < p.len() ==> is_number(#[trigger] p[i]) {
        Some(p.map_values(|s: Seq<char>| digits_value(s)))
    } else {
        None
    }
}

/// Version `a` comes after version `b`: component by component, the first
/// difference decides, and a version extended by more components is newer.
pub open spec fn later_parts(a: Seq<nat>, b: Seq<nat>) -> bool
    decreases a.len(),
{
    if a.len() == 0 {
        false
    } else if b.len() == 0 {
        true
    } else if a[0] > b[0] {
        true
    } else if a[0] < b[0] {
        false
    } else {
        later_parts(a.drop_first(), b.drop_first())
    }
}

/// The tag `latest` names a newer release than `current`. Where either tag
/// is not a dotted version, no order is known and any different, non-empty
/// tag counts as newer.
pub open spec fn is_newer(latest: Seq<char>, current: Seq<char>) -> bool {
    match (version_parts(latest), version_parts(current)) {
        (Some(l), Some(c)) => later_parts(l, c),
        _ => latest.len() > 0 && latest != current,
    }
}

/// An update is offered when the newest release is known and newer than
/// the installed version.
pub open spec fn update_offered(current: Seq<char>, latest: Option<String>) -> bool {
    match latest {
        Some(l) => is_newer(l@, current),
        None => false,
    }
}

/// Versions are ordered by their first differing component: where `a` and
/// `b` agree on their first `i` components, a larger component `i` makes
/// `a` later and a smaller one makes it earlier, whatever their lengths; if
/// `b` ends there and `a` goes on, `a` is later; if `a` ends there, it is
/// not later.
pub proof fn law_version_order(a: Seq<nat>, b: Seq<nat>, i: int)
    requires
        0 <= i <= a.len(),
        i <= b.len(),
        a.take(i) == b.take(i),
    ensures
        i < a.len() && i < b.len() && a[i] > b[i] ==> later_parts(a, b),
        i < a.len() && i < b.len() && a[i] < b[i] ==> !later_parts(a, b),
        i == b.len() && i < a.len() ==> later_parts(a, b),
        i == a.len() ==> !later_parts(a, b),
    decreases i,
{
    if i > 0 {
        assert(a[0] == a.take(i)[0]);
        assert(b[0] == b.take(i)[0]);
        assert(a.drop_first().take(i - 1) =~= b.drop_first().take(i - 1)) by {
            assert forall|k: int| 0 <= k < i - 1 implies #[trigger] a.drop_first().take(i - 1)[k]
                == b.drop_first().take(i - 1)[k] by {
                assert(a.take(i)[k + 1] == b.take(i)[k + 1]);
                assert(a.take(i)[k + 1] == a[k + 1]);
                assert(b.take(i)[k + 1] == b[k + 1]);
            }
        }
        law_version_order(a.drop_first(), b.drop_first(), i - 1);
    }
}

/// No version is later than itself, and of two versions at most one is
/// later than the other.
pub proof fn law_version_order_strict(a: Seq<nat>, b: Seq<nat>)
    ensures
        !later_parts(a, a),
        !(later_parts(a, b) && later_parts(b, a)),
    decreases a.len(),
{
    if a.len() > 0 && b.len() > 0 {
        law_version_order_strict(a.drop_first(), b.drop_first());
    } else if a.len() > 0 {
        law_version_order_strict(a.drop_first(), a.drop_first());
    }
}

/// An update is never offered without a known release, nor for the version
/// already installed; between dotted versions it is offered one way at most.
pub proof fn law_update_offer(current: Seq<char>, latest: Seq<char>)
    ensures
        !update_offered(current, None),
        !is_newer(current, current),
        version_parts(latest) is Some && version_parts(current) is Some ==> !(is_newer(
            latest,
            current,
        ) && is_newer(current, latest)),
{
    if let Some(p) = version_parts(current) {
        law_version_order_strict(p, p);
    }
    if let (Some(l), Some(c)) = (version_parts(latest), version_parts(current)) {
        law_version_order_strict(l, c);
    }
}

/// A prefix of a digit string spells no larger a number.
proof fn lemma_digits_prefix(s: Seq<char>, i: int)
    requires
        0 <= i <= s.len(),
    ensures
        digits_value(s.take(i)) <= digits_value(s),
    decreases s.len(),
{
    if i < s.len() {
        lemma_digits_prefix(s.drop_last(), i);
        assert(s.drop_last().take(i) =~= s.take(i));
    } else {
        assert(s.take(i) =~= s);
    }
}

/// The path the shell printed for the Downloads folder, trimmed.
pub open spec fn shell_path(stdout: Seq<u8>) -> Seq<char> {
    trimmed(utf8_lossy(stdout))
}

// ---------------------------------------------------------------------------
// Executable functions
// ---------------------------------------------------------------------------

/// The arguments of a metadata probe of `url`, before the ffmpeg location.
pub fn fetch_info_args(url: &str) -> (res: Vec<String>)
    ensures
        res@.map_values(|s: String| s@) == probe_args(url@),
{
    let mut args: Vec<String> = Vec::new();
    args.push(owned("-J"));
    args.push(owned("--no-warnings"));
    args.push(owned("--encoding"));
    args.push(owned("utf-8"));
    args.push(trim(url));
    assert(args@.map_values(|s: String| s@) =~= probe_args(url@));
    args
}

/// The outcome of a metadata probe, from the downloader's exit status and
/// output. A failed run gives the last line of its stderr (or "failed to
/// fetch info"); a successful one gives the JSON document on its stdout, or
/// "failed to parse metadata: " and the parser's message. The code page
/// decodings are used for output that is not UTF-8, as in `decode_output`.
pub fn fetch_info(
    success: bool,
    stdout: &[u8],
    stderr: &[u8],
    stdout_codepage: Option<String>,
    stderr_codepage: Option<String>,
) -> (res: Result<serde_json::Value, String>)
    ensures
        !success ==> (res matches Err(e) && e@ == probe_error(decoded(stderr@, stderr_codepage))),
        success ==> match json_parse(decoded(stdout@, stdout_codepage)) {
            Ok(v) => res == Ok::<serde_json::Value, String>(v),
            Err(e) => res matches Err(m) && m@ == "failed to parse metadata: "@ + json_error_display(
                e,
            ),
        },
{
    if !success {
        let err = decode_output(stderr, stderr_codepage);
        return match last_line(err.as_str()) {
            Some(l) => Err(l),
            None => Err(owned("failed to fetch info")),
        };
    }
    let text = decode_output(stdout, stdout_codepage);
    let parsed = match parse_json(text.as_str()) {
        Ok(v) => Ok(v),
        Err(e) => Err(json_error_text(&e)),
    };
    metadata_outcome(parsed)
}

/// The outcome of parsing the probe's stdout: the document, or the parser's
/// message behind "failed to parse metadata: ".
pub fn metadata_outcome(parsed: Result<serde_json::Value, String>) -> (res: Result<
    serde_json::Value,
    String,
>)
    ensures
        match parsed {
            Ok(v) => res == Ok::<serde_json::Value, String>(v),
            Err(m) => res matches Err(e) && e@ == "failed to parse metadata: "@ + m@,
        },
        res matches Err(e) ==> "failed to parse metadata: "@.is_prefix_of(e@),
{
    match parsed {
        Ok(v) => Ok(v),
        Err(m) => {
            let mut msg = owned("failed to parse metadata: ");
            let ghost prefix = msg@;
            msg.append(m.as_str());
            assert(prefix.is_prefix_of(msg@)) by {
                assert(msg@.subrange(0, prefix.len() as int) =~= prefix);
            }
            Err(msg)
        },
    }
}

/// The number a version component spells, or `None` if it is not a
/// non-empty run of digits that fits in 64 bits.
fn parse_number(v: &Vec<char>) -> (res: Option<u64>)
    ensures
        is_number(v@) ==> res == Some(digits_value(v@) as u64),
        !is_number(v@) ==> res is None,
{
    if v.len() == 0 {
        return None;
    }
    let mut val: u64 = 0;
    let mut i: usize = 0;
    assert(v@.take(0) =~= Seq::<char>::empty());
    while i < v.len()
        invariant
            i <= v@.len(),
            forall|k: int| 0 <= k < i ==> is_digit(#[trigger] v@[k]),
            val == digits_value(v@.take(i as int)),
        decreases v@.len() - i,
    {
        let c = v[i];
        let u = c as u32;
        assert(v@.take(i + 1).drop_last() =~= v@.take(i as int));
        assert(v@.take(i + 1).last() == c);
        if u < 48 || u > 57 {
            return None;
        }
        let d = (u - 48) as u64;
        match val.checked_mul(10) {
            Some(m) => match m.checked_add(d) {
                Some(n) => {
                    val = n;
                },
                None => {
                    proof {
                        lemma_digits_prefix(v@, i + 1);
                    }
                    return None;
                },
            },
            None => {
                proof {
                    lemma_digits_prefix(v@, i + 1);
                }
                return None;
            },
        }
        i = i + 1;
    }
    assert(v@.take(v@.len() as int) =~= v@);
    Some(val)
}

/// The numeric components of a release tag, or `None` if it is not a
/// dotted version.
pub fn parse_version(tag: &str) -> (res: Option<Vec<u64>>)
    ensures
        match version_parts(tag@) {
            Some(p) => res matches Some(v) && v@.map_values(|x: u64| x as nat) == p,
            None => res is None,
        },
{
    let chars = chars_of(tag);
    let parts = split_chars(&chars, '.');
    let ghost pv = parts@.map_values(|p: Vec<char>| p@);
    let mut out: Vec<u64> = Vec::new();
    let mut j: usize = 0;
    while j < parts.len()
        invariant
            j <= parts@.len(),
            pv == parts@.map_values(|p: Vec<char>| p@),
            pv == split_seq(tag@, '.'),
            out@.len() == j,
            forall|k: int| 0 <= k < j ==> is_number(#[trigger] pv[k]),
            forall|k: int| 0 <= k < j ==> out@[k] as nat == digits_value(#[trigger] pv[k]),
        decreases parts@.len() - j,
    {
        assert(pv[j as int] == parts@[j as int]@);
        match parse_number(&parts[j]) {
            Some(n) => {
                out.push(n);
            },
            None => {
                assert(!is_number(pv[j as int]));
                return None;
            },
        }
        j = j + 1;
    }
    assert(out@.map_values(|x: u64| x as nat) =~= pv.map_values(|s: Seq<char>| digits_value(s)));
    Some(out)
}

/// Whether version `a` comes after version `b`.
pub fn later_version(a: &Vec<u64>, b: &Vec<u64>) -> (res: bool)
    ensures
        res == later_parts(a@.map_values(|x: u64| x as nat), b@.map_values(|x: u64| x as nat)),
{
    let ghost av = a@.map_values(|x: u64| x as nat);
    let ghost bv = b@.map_values(|x: u64| x as nat);
    let mut i: usize = 0;
    assert(av.skip(0) =~= av);
    assert(bv.skip(0) =~= bv);
    while i < a.len() && i < b.len()
        invariant
            i <= a@.len(),
            i <= b@.len(),
            av == a@.map_values(|x: u64| x as nat),
            bv == b@.map_values(|x: u64| x as nat),
            later_parts(av, bv) == later_parts(av.skip(i as int), bv.skip(i as int)),
        decreases a@.len() - i,
    {
        assert(av.skip(i as int)[0] == a@[i as int] as nat);
        assert(bv.skip(i as int)[0] == b@[i as int] as nat);
        if a[i] > b[i] {
            return true;
        }
        if a[i] < b[i] {
            return false;
        }
        assert(av.skip(i as int).drop_first() =~= av.skip(i + 1));
        assert(bv.skip(i as int).drop_first() =~= bv.skip(i + 1));
        i = i + 1;
    }
    a.len() > b.len()
}

/// Whether the tag `latest` names a newer release than `current`.
pub fn is_newer_version(latest: &str, current: &str) -> (res: bool)
    ensures
        res == is_newer(latest@, current@),
{
    match (parse_version(latest), parse_version(current)) {
        (Some(l), Some(c)) => later_version(&l, &c),
        _ => {
            let l = owned(latest);
            let c = owned(current);
            !latest.is_empty() && l != c
        },
    }
}

/// Whether an update is offered: the newest release is known and newer
/// than the installed version.
pub fn update_available(current: &String, latest: &Option<String>) -> (res: bool)
    ensures
        res == update_offered(current@, *latest),
{
    match latest {
        Some(l) => is_newer_version(l.as_str(), current.as_str()),
        None => false,
    }
}

/// The version report, from what `--version` printed and the newest
/// released version where it could be learnt.
pub fn ytdlp_version(version_stdout: &[u8], latest: Option<String>) -> (res: VersionReport)
    ensures
        res.current@ == trimmed(utf8_lossy(version_stdout@)),
        res.latest == latest,
        res.update_available == update_offered(res.current@, latest),
{
    let text = utf8_lossy_string(version_stdout);
    let current = trim(text.as_str());
    let update = update_available(&current, &latest);
    VersionReport { current, latest, update_available: update }
}

/// The default download folder: the path the shell printed, trimmed, unless
/// it printed nothing, in which case `fallback` (the Downloads folder in the
/// user profile, or why it is unknown).
pub fn default_download_dir(shell_stdout: &[u8], fallback: Result<String, String>) -> (res: Result<
    String,
    String,
>)
    ensures
        shell_path(shell_stdout@).len() > 0 ==> (res matches Ok(p) && p@ == shell_path(
            shell_stdout@,
        )),
        shell_path(shell_stdout@).len() == 0 ==> res == fallback,
{
    let text = utf8_lossy_string(shell_stdout);
    let path = trim(text.as_str());
    if path.as_str().is_empty() {
        fallback
    } else {
        Ok(path)
    }
}

} // verus!
