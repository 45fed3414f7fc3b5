//! The downloader's machine-readable output: the stdout stream is decoded
//! line by line, each line is a title, a final file path, a progress report
//! or noise; stderr supplies the error text of a failed run.
use vstd::prelude::*;

use crate::jobs::{update_job, with_output, JobInfo, JobManager};
use crate::text::{
    chars_of, decode_output, join_seq, lemma_join_split, owned, push_char, decoded, last_line, lines_of, split_bytes, split_chars, split_seq,
    string_of, strip_prefix, text_lines, trim, trimmed, lemma_split_nonempty,
};

verus! {

/// The raw fields of a progress line; a field the downloader reported as
/// unknown ("NA", "None" or empty) is `None`.
#[derive(Debug)]
pub struct ProgressFields {
    pub downloaded: Option<String>,
    pub total: Option<String>,
    pub total_estimate: Option<String>,
    pub speed: Option<String>,
    pub eta: Option<String>,
}

/// What one line of the downloader's stdout says.
#[derive(Debug)]
pub enum OutputLine {
    /// `__ENTRY__|title`: the title of the video.
    Entry(String),
    /// `__FILE__|path`: where the file was finally moved.
    File(String),
    /// `__PROG__|downloaded|total|total_estimate|speed|eta`.
    Progress(ProgressFields),
    /// Anything else.
    Other,
}

/// What a run's stdout told: the last title and file path, and every
/// progress report in order.
#[derive(Debug)]
pub struct StdoutReport {
    pub title: Option<String>,
    pub filepath: Option<String>,
    pub progress: Vec<ProgressFields>,
}

// ---------------------------------------------------------------------------
// Specifications
// ---------------------------------------------------------------------------

pub open spec fn entry_marker() -> Seq<char> {
    "__ENTRY__|"@
}

pub open spec fn file_marker() -> Seq<char> {
    "__FILE__|"@
}

pub open spec fn progress_marker() -> Seq<char> {
    "__PROG__"@
}

/// A progress field: unknown values are absent.
pub open spec fn field_spec(s: Seq<char>) -> Option<Seq<char>> {
    if s == "NA"@ || s == "None"@ || s.len() == 0 {
        None
    } else {
        Some(s)
    }
}

pub open spec fn opt_view(o: Option<String>) -> Option<Seq<char>> {
    match o {
        Some(s) => Some(s@),
        None => None,
    }
}

/// The five fields of a progress report, as text.
pub open spec fn fields_view(p: ProgressFields) -> Seq<Option<Seq<char>>> {
    seq![
        opt_view(p.downloaded),
        opt_view(p.total),
        opt_view(p.total_estimate),
        opt_view(p.speed),
        opt_view(p.eta),
    ]
}

/// A progress line: at least six `|`-separated fields, the first being the
/// progress marker.
pub open spec fn progress_spec(line: Seq<char>) -> Option<Seq<Option<Seq<char>>>> {
    let p = split_seq(line, '|');
    if p.len() >= 6 && p[0] == progress_marker() {
        Some(seq![field_spec(p[1]), field_spec(p[2]), field_spec(p[3]), field_spec(p[4]), field_spec(p[5])])
    } else {
        None
    }
}

/// The progress report a line carries, if it is neither a title nor a file line.
pub open spec fn progress_of(line: Seq<char>) -> Option<Seq<Option<Seq<char>>>> {
    if entry_marker().is_prefix_of(line) || file_marker().is_prefix_of(line) {
        None
    } else {
        progress_spec(line)
    }
}

/// How `out` describes `line`.
pub open spec fn classifies(line: Seq<char>, out: OutputLine) -> bool {
    if entry_marker().is_prefix_of(line) {
        out matches OutputLine::Entry(t) && t@ == line.skip(entry_marker().len() as int)
    } else if file_marker().is_prefix_of(line) {
        out matches OutputLine::File(f) && f@ == line.skip(file_marker().len() as int)
    } else {
        match progress_spec(line) {
            Some(fields) => out matches OutputLine::Progress(p) && fields_view(p) == fields,
            None => out is Other,
        }
    }
}

/// The body of the last title line.
pub open spec fn last_title(ls: Seq<Seq<char>>) -> Option<Seq<char>>
    decreases ls.len(),
{
    if ls.len() == 0 {
        None
    } else if entry_marker().is_prefix_of(ls.last()) {
        Some(ls.last().skip(entry_marker().len() as int))
    } else {
        last_title(ls.drop_last())
    }
}

/// The body of the last file line.
pub open spec fn last_file(ls: Seq<Seq<char>>) -> Option<Seq<char>>
    decreases ls.len(),
{
    if ls.len() == 0 {
        None
    } else if !entry_marker().is_prefix_of(ls.last()) && file_marker().is_prefix_of(ls.last()) {
        Some(ls.last().skip(file_marker().len() as int))
    } else {
        last_file(ls.drop_last())
    }
}

/// The progress reports of the lines, in order.
pub open spec fn progress_events(ls: Seq<Seq<char>>) -> Seq<Seq<Option<Seq<char>>>>
    decreases ls.len(),
{
    if ls.len() == 0 {
        Seq::empty()
    } else {
        match progress_of(ls.last()) {
            Some(f) => progress_events(ls.drop_last()).push(f),
            None => progress_events(ls.drop_last()),
        }
    }
}

/// A line is a progress report exactly when it has at least six
/// `|`-separated fields and the first is the progress marker; the report is
/// the next five fields in order, each kept as written unless it says the
/// value is unknown ("NA", "None" or nothing).
pub proof fn law_progress_line(l: Seq<char>, s: Seq<char>)
    ensures
        progress_spec(l) is Some <==> split_seq(l, '|').len() >= 6 && split_seq(l, '|')[0]
            == progress_marker(),
        progress_spec(l) matches Some(f) ==> f.len() == 5 && forall|k: int|
            0 <= k < 5 ==> #[trigger] f[k] == field_spec(split_seq(l, '|')[k + 1]),
        field_spec(s) is None <==> s == "NA"@ || s == "None"@ || s.len() == 0,
        field_spec(s) matches Some(v) ==> v == s,
{
}

/// Is `l` a file line (it starts with the file marker and not the title marker)?
pub open spec fn is_file_line(l: Seq<char>) -> bool {
    file_marker().is_prefix_of(l) && !entry_marker().is_prefix_of(l)
}

/// The latest line wins: after a title line the reported title is that
/// line without its marker, after a file line the reported path is that
/// line without its marker, and any other line leaves them as they were.
/// A progress line adds its report at the end; no other line adds one.
pub proof fn law_latest_line_wins(ls: Seq<Seq<char>>, l: Seq<char>)
    ensures
        entry_marker().is_prefix_of(l) ==> last_title(ls.push(l)) == Some(
            l.skip(entry_marker().len() as int),
        ),
        !entry_marker().is_prefix_of(l) ==> last_title(ls.push(l)) == last_title(ls),
        is_file_line(l) ==> last_file(ls.push(l)) == Some(l.skip(file_marker().len() as int)),
        !is_file_line(l) ==> last_file(ls.push(l)) == last_file(ls),
        progress_of(l) matches Some(f) ==> progress_events(ls.push(l)) == progress_events(ls).push(
            f,
        ),
        progress_of(l) is None ==> progress_events(ls.push(l)) == progress_events(ls),
{
    assert(ls.push(l).drop_last() =~= ls);
    assert(ls.push(l).last() == l);
}

/// Reading lines in two parts gives what reading them at once gives: the
/// title and path of the later part where it has one, else of the earlier;
/// the progress reports of both parts, in order.
pub proof fn law_reading_in_parts(ls: Seq<Seq<char>>, ms: Seq<Seq<char>>)
    ensures
        last_title(ls + ms) == (if last_title(ms) is Some {
            last_title(ms)
        } else {
            last_title(ls)
        }),
        last_file(ls + ms) == (if last_file(ms) is Some {
            last_file(ms)
        } else {
            last_file(ls)
        }),
        progress_events(ls + ms) == progress_events(ls) + progress_events(ms),
    decreases ms.len(),
{
    if ms.len() == 0 {
        assert(ls + ms =~= ls);
        assert(progress_events(ls) + progress_events(ms) =~= progress_events(ls));
    } else {
        law_reading_in_parts(ls, ms.drop_last());
        assert((ls + ms).drop_last() =~= ls + ms.drop_last());
        assert((ls + ms).last() == ms.last());
        let pm = progress_events(ms.drop_last());
        let pl = progress_events(ls);
        match progress_of(ms.last()) {
            Some(f) => {
                assert((pl + pm).push(f) =~= pl + pm.push(f));
            },
            None => {},
        }
    }
}

/// The code page decoding given for the `k`th output line, if any.
pub open spec fn fallback_at(fallbacks: Seq<Option<String>>, k: int) -> Option<String> {
    if 0 <= k < fallbacks.len() {
        fallbacks[k]
    } else {
        None
    }
}

/// The first `k` newline-terminated pieces, each decoded on its own and
/// followed by a newline.
pub open spec fn ended_text(
    segs: Seq<Seq<u8>>,
    fallbacks: Seq<Option<String>>,
    k: nat,
) -> Seq<char>
    decreases k,
{
    if k == 0 {
        Seq::empty()
    } else {
        ended_text(segs, fallbacks, (k - 1) as nat) + decoded(
            segs[k - 1],
            fallback_at(fallbacks, k - 1),
        ) + seq!['\n']
    }
}

/// The stdout stream as text: each line is decoded on its own, since the
/// title and the file path of one download can come in different encodings.
pub open spec fn stdout_text(buf: Seq<u8>, fallbacks: Seq<Option<String>>) -> Seq<char> {
    let segs = split_seq(buf, 10u8);
    let n = segs.len() - 1;
    ended_text(segs, fallbacks, n as nat) + (if segs[n].len() > 0 {
        decoded(segs[n], fallback_at(fallbacks, n))
    } else {
        Seq::empty()
    })
}

/// One piece of stdout as text: decoded, and followed by its newline if it
/// had one.
pub open spec fn line_text(segment: Seq<u8>, codepage_text: Option<String>, ended: bool) -> Seq<char> {
    decoded(segment, codepage_text) + (if ended {
        seq!['\n']
    } else {
        Seq::empty()
    })
}

/// The error text of a run: the last line of stderr, trimmed, if not empty.
pub open spec fn error_tail_spec(stderr: Seq<char>) -> Option<Seq<char>> {
    let ls = text_lines(stderr);
    let last = if ls.len() > 0 { ls.last() } else { Seq::empty() };
    if trimmed(last).len() > 0 {
        Some(trimmed(last))
    } else {
        None
    }
}

// ---------------------------------------------------------------------------
// Executable functions
// ---------------------------------------------------------------------------

/// A progress field, or `None` for "NA", "None" and the empty string.
pub fn field_value(s: String) -> (res: Option<String>)
    ensures
        opt_view(res) == field_spec(s@),
{
    if s.as_str().is_empty() || s == owned("NA") || s == owned("None") {
        None
    } else {
        Some(s)
    }
}

/// The fields of a progress line, or `None` if `body` is not one.
pub fn parse_progress_line(body: &str) -> (res: Option<ProgressFields>)
    ensures
        match progress_spec(body@) {
            Some(f) => res matches Some(p) && fields_view(p) == f,
            None => res is None,
        },
{
    let v = chars_of(body);
    let parts = split_chars(&v, '|');
    let ghost pv = parts@.map_values(|p: Vec<char>| p@);
    assert(pv == split_seq(body@, '|'));
    if parts.len() < 6 {
        return None;
    }
    let first = string_of(&parts[0], 0, parts[0].len());
    assert(parts@[0]@.subrange(0, parts@[0]@.len() as int) =~= pv[0]);
    if first != owned("__PROG__") {
        return None;
    }
    let mut fields: Vec<Option<String>> = Vec::new();
    let mut k: usize = 1;
    while k < 6
        invariant
            1 <= k <= 6,
            parts@.len() >= 6,
            pv == parts@.map_values(|p: Vec<char>| p@),
            fields@.len() == k - 1,
            forall|m: int| 0 <= m < k - 1 ==> opt_view(#[trigger] fields@[m]) == field_spec(pv[m + 1]),
        decreases 6 - k,
    {
        let s = string_of(&parts[k], 0, parts[k].len());
        assert(parts@[k as int]@.subrange(0, parts@[k as int]@.len() as int) =~= pv[k as int]);
        let f = field_value(s);
        fields.push(f);
        k = k + 1;
    }
    let eta = fields.pop().unwrap();
    let speed = fields.pop().unwrap();
    let total_estimate = fields.pop().unwrap();
    let total = fields.pop().unwrap();
    let downloaded = fields.pop().unwrap();
    let p = ProgressFields { downloaded, total, total_estimate, speed, eta };
    assert(fields_view(p) =~= progress_spec(body@).unwrap());
    Some(p)
}

/// What one stdout line says.
pub fn classify_output_line(line: &str) -> (res: OutputLine)
    ensures
        classifies(line@, res),
{
    match strip_prefix(line, "__ENTRY__|") {
        Some(title) => {
            return OutputLine::Entry(title);
        },
        None => {},
    }
    match strip_prefix(line, "__FILE__|") {
        Some(path) => {
            return OutputLine::File(path);
        },
        None => {},
    }
    match parse_progress_line(line) {
        Some(p) => OutputLine::Progress(p),
        None => OutputLine::Other,
    }
}

/// The stdout stream cut at each newline byte; the caller may decode the
/// pieces in the console code page and hand the results to `stdout_lines`.
pub fn output_segments(buf: &[u8]) -> (res: Vec<Vec<u8>>)
    ensures
        res@.map_values(|p: Vec<u8>| p@) == split_seq(buf@, 10u8),
{
    split_bytes(buf, 10u8)
}

/// Adds `chunk` to the bytes still `pending` and hands back every line
/// that is now complete (without its newline); the unterminated rest stays
/// pending for the next chunk.
pub fn take_complete_lines(pending: &mut Vec<u8>, chunk: &[u8]) -> (res: Vec<Vec<u8>>)
    ensures
        ({
            let segs = split_seq(old(pending)@ + chunk@, 10u8);
            &&& res@.map_values(|p: Vec<u8>| p@) == segs.drop_last()
            &&& final(pending)@ == segs.last()
        }),
{
    let mut all: Vec<u8> = Vec::new();
    std::mem::swap(&mut all, pending);
    let ghost start = all@;
    let mut i: usize = 0;
    while i < chunk.len()
        invariant
            i <= chunk@.len(),
            all@ == start + chunk@.take(i as int),
        decreases chunk@.len() - i,
    {
        all.push(chunk[i]);
        assert(chunk@.take(i + 1) =~= chunk@.take(i as int).push(chunk@[i as int]));
        i = i + 1;
    }
    assert(chunk@.take(chunk@.len() as int) =~= chunk@);
    let mut segs = split_bytes(all.as_slice(), 10u8);
    proof {
        lemma_split_nonempty(all@, 10u8);
    }
    let ghost sv = segs@.map_values(|p: Vec<u8>| p@);
    let rest = segs.pop().unwrap();
    assert(sv.last() == rest@);
    assert(segs@.map_values(|p: Vec<u8>| p@) =~= sv.drop_last());
    *pending = rest;
    segs
}

/// Reading stdout in chunks loses and adds nothing: the lines handed back,
/// each with its newline, followed by what stays pending, are exactly the
/// bytes pending before and the new chunk.
pub proof fn law_chunks_keep_bytes(pending: Seq<u8>, chunk: Seq<u8>)
    ensures
        ({
            let segs = split_seq(pending + chunk, 10u8);
            join_seq(segs.drop_last().push(segs.last()), 10u8) == pending + chunk
        }),
{
    let segs = split_seq(pending + chunk, 10u8);
    lemma_split_nonempty(pending + chunk, 10u8);
    lemma_join_split(pending + chunk, 10u8);
    assert(segs.drop_last().push(segs.last()) =~= segs);
}

fn fallback_for(fallbacks: &Vec<Option<String>>, k: usize) -> (res: Option<String>)
    ensures
        res == fallback_at(fallbacks@, k as int),
{
    if k < fallbacks.len() {
        match &fallbacks[k] {
            Some(s) => Some(s.clone()),
            None => None,
        }
    } else {
        None
    }
}

/// The stdout stream as text, each line decoded on its own; `fallbacks[k]`
/// is the console code page decoding of the `k`th line where the platform
/// has one.
pub fn stdout_text_of(buf: &[u8], fallbacks: &Vec<Option<String>>) -> (res: String)
    ensures
        res@ == stdout_text(buf@, fallbacks@),
{
    let segs = split_bytes(buf, 10u8);
    let ghost sv = segs@.map_values(|p: Vec<u8>| p@);
    proof {
        lemma_split_nonempty(buf@, 10u8);
    }
    let n = segs.len() - 1;
    let mut text = String::new();
    let mut k: usize = 0;
    while k < n
        invariant
            k <= n,
            n + 1 == segs@.len(),
            sv == segs@.map_values(|p: Vec<u8>| p@),
            text@ == ended_text(sv, fallbacks@, k as nat),
        decreases n - k,
    {
        let piece = decode_output(segs[k].as_slice(), fallback_for(fallbacks, k));
        assert(segs@[k as int]@ == sv[k as int]);
        text.append(piece.as_str());
        push_char(&mut text, '\n');
        assert(text@ =~= ended_text(sv, fallbacks@, (k + 1) as nat));
        k = k + 1;
    }
    assert(segs@[n as int]@ == sv[n as int]);
    if segs[n].len() > 0 {
        let piece = decode_output(segs[n].as_slice(), fallback_for(fallbacks, n));
        text.append(piece.as_str());
    }
    text
}

/// The error text of a failed run: the last stderr line, trimmed, if it
/// is not empty.
pub fn error_tail(stderr: &str) -> (res: Option<String>)
    ensures
        opt_view(res) == error_tail_spec(stderr@),
{
    let last = match last_line(stderr) {
        Some(l) => l,
        None => String::new(),
    };
    let t = trim(last.as_str());
    if t.as_str().is_empty() {
        None
    } else {
        Some(t)
    }
}

impl JobManager {
    /// Reads a run's stdout at once: the lines are decoded one by one
    /// (`fallbacks` as in `stdout_text_of`), the job's title and file path are
    /// set to the last ones announced, and the progress reports are returned
    /// in order.
    pub fn apply_stdout(&mut self, id: u32, buf: &[u8], fallbacks: &Vec<Option<String>>) -> (res:
        StdoutReport)
        ensures
            ({
                let ls = text_lines(stdout_text(buf@, fallbacks@));
                &&& opt_view(res.title) == last_title(ls)
                &&& opt_view(res.filepath) == last_file(ls)
                &&& res.progress@.map_values(|p: ProgressFields| fields_view(p)) == progress_events(ls)
            }),
            final(self).entries() == update_job(
                old(self).entries(),
                id,
                |j: JobInfo| with_output(j, res.title, res.filepath),
            ),
            final(self).last_id() == old(self).last_id(),
    {
        let text = stdout_text_of(buf, fallbacks);
        self.apply_text(id, text.as_str())
    }

    /// Reads one piece of a run's stdout as it arrives: `segment` is a line
    /// without its newline (`ended`) or the unterminated rest at the end of
    /// the stream, decoded as in `decode_output`. The job's title and file
    /// path are set to those the piece announces.
    pub fn apply_output_line(
        &mut self,
        id: u32,
        segment: &[u8],
        codepage_text: Option<String>,
        ended: bool,
    ) -> (res: StdoutReport)
        ensures
            ({
                let ls = text_lines(line_text(segment@, codepage_text, ended));
                &&& opt_view(res.title) == last_title(ls)
                &&& opt_view(res.filepath) == last_file(ls)
                &&& res.progress@.map_values(|p: ProgressFields| fields_view(p)) == progress_events(ls)
            }),
            final(self).entries() == update_job(
                old(self).entries(),
                id,
                |j: JobInfo| with_output(j, res.title, res.filepath),
            ),
            final(self).last_id() == old(self).last_id(),
    {
        let mut text = decode_output(segment, codepage_text);
        if ended {
            push_char(&mut text, '\n');
        }
        assert(text@ =~= line_text(segment@, codepage_text, ended));
        self.apply_text(id, text.as_str())
    }

    /// Reads decoded stdout text: the job's title and file path are set to the
    /// last ones its lines announce, and the progress reports are returned in
    /// order.
    pub fn apply_text(&mut self, id: u32, text: &str) -> (res: StdoutReport)
        ensures
            ({
                let ls = text_lines(text@);
                &&& opt_view(res.title) == last_title(ls)
                &&& opt_view(res.filepath) == last_file(ls)
                &&& res.progress@.map_values(|p: ProgressFields| fields_view(p)) == progress_events(ls)
            }),
            final(self).entries() == update_job(
                old(self).entries(),
                id,
                |j: JobInfo| with_output(j, res.title, res.filepath),
            ),
            final(self).last_id() == old(self).last_id(),
    {
        let lines = lines_of(text);
        let ghost ls = lines@.map_values(|s: String| s@);
        let mut title: Option<String> = None;
        let mut filepath: Option<String> = None;
        let mut progress: Vec<ProgressFields> = Vec::new();
        let mut i: usize = 0;
        while i < lines.len()
            invariant
                i <= lines@.len(),
                ls == lines@.map_values(|s: String| s@),
                opt_view(title) == last_title(ls.take(i as int)),
                opt_view(filepath) == last_file(ls.take(i as int)),
                progress@.map_values(|p: ProgressFields| fields_view(p)) == progress_events(
                    ls.take(i as int),
                ),
            decreases lines@.len() - i,
        {
            let ghost prefix = ls.take(i as int);
            let ghost next = ls.take(i + 1);
            assert(next.drop_last() =~= prefix);
            assert(next.last() == lines@[i as int]@);
            let ghost before = progress@.map_values(|p: ProgressFields| fields_view(p));
            match classify_output_line(lines[i].as_str()) {
                OutputLine::Entry(t) => {
                    title = Some(t);
                },
                OutputLine::File(f) => {
                    filepath = Some(f);
                },
                OutputLine::Progress(p) => {
                    progress.push(p);
                    assert(progress@.map_values(|p: ProgressFields| fields_view(p)) =~= before.push(
                        fields_view(p),
                    ));
                },
                OutputLine::Other => {},
            }
            i = i + 1;
        }
        assert(ls.take(lines@.len() as int) =~= ls);
        self.record_output(id, &title, &filepath);
        StdoutReport { title, filepath, progress }
    }
}

} // verus!
