//! Character-level text handling: whitespace trimming, line and field
//! splitting, prefix stripping and the decoding of subprocess output.
use vstd::prelude::*;
use vstd::utf8::{decode_utf8, valid_utf8};

verus! {

// ---------------------------------------------------------------------------
// Specifications
// ---------------------------------------------------------------------------

/// Unicode `White_Space`, the set that `char::is_whitespace` and `str::trim` use.
pub open spec fn is_white_space(c: char) -> bool {
    let u = c as u32;
    ||| 0x09 <= u <= 0x0d
    ||| u == 0x20
    ||| u == 0x85
    ||| u == 0xa0
    ||| u == 0x1680
    ||| 0x2000 <= u <= 0x200a
    ||| u == 0x2028
    ||| u == 0x2029
    ||| u == 0x202f
    ||| u == 0x205f
    ||| u == 0x3000
}

/// `s` without its leading white space.
pub open spec fn trim_start(s: Seq<char>) -> Seq<char>
    decreases s.len(),
{
    if s.len() > 0 && is_white_space(s[0]) {
        trim_start(s.drop_first())
    } else {
        s
    }
}

/// `s` without its trailing white space.
pub open spec fn trim_end(s: Seq<char>) -> Seq<char>
    decreases s.len(),
{
    if s.len() > 0 && is_white_space(s.last()) {
        trim_end(s.drop_last())
    } else {
        s
    }
}

/// `s` without leading and trailing white space (`str::trim`).
pub open spec fn trimmed(s: Seq<char>) -> Seq<char> {
    trim_end(trim_start(s))
}

/// The pieces of `s` between occurrences of `sep` (`str::split` with one
/// separator): there is always at least one piece, and `k` separators give
/// `k + 1` pieces.
pub open spec fn split_seq<T>(s: Seq<T>, sep: T) -> Seq<Seq<T>>
    decreases s.len(),
{
    if s.len() == 0 {
        seq![Seq::<T>::empty()]
    } else {
        let p = split_seq(s.drop_last(), sep);
        if s.last() == sep {
            p.push(Seq::<T>::empty())
        } else {
            p.update(p.len() - 1, p.last().push(s.last()))
        }
    }
}

/// The pieces put back together with `sep` between them.
pub open spec fn join_seq<T>(p: Seq<Seq<T>>, sep: T) -> Seq<T>
    decreases p.len(),
{
    if p.len() == 0 {
        Seq::empty()
    } else if p.len() == 1 {
        p[0]
    } else {
        join_seq(p.drop_last(), sep) + seq![sep] + p.last()
    }
}

/// A line without the carriage return that ended it.
pub open spec fn strip_cr(l: Seq<char>) -> Seq<char> {
    if l.len() > 0 && l.last() == '\r' {
        l.drop_last()
    } else {
        l
    }
}

/// The lines of `s` (`str::lines`): split at `\n`, one `\r` before a `\n`
/// dropped, and no empty last line after a final `\n`.
pub open spec fn text_lines(s: Seq<char>) -> Seq<Seq<char>> {
    let p = split_seq(s, '\n');
    let ended = p.drop_last().map_values(|l: Seq<char>| strip_cr(l));
    if p.last().len() == 0 {
        ended
    } else {
        ended.push(p.last())
    }
}

/// The views of a sequence of strings.
pub open spec fn string_views(v: Seq<String>) -> Seq<Seq<char>> {
    v.map_values(|s: String| s@)
}

/// What `String::from_utf8_lossy` gives for `bytes`: invalid sequences are
/// replaced by U+FFFD.
pub uninterp spec fn utf8_lossy(bytes: Seq<u8>) -> Seq<char>;

/// The text that subprocess output decodes to: UTF-8 where it is valid,
/// else the console code page decoding where the platform gave one, else
/// the lossy decoding.
pub open spec fn decoded(bytes: Seq<u8>, codepage_text: Option<String>) -> Seq<char> {
    if valid_utf8(bytes) {
        decode_utf8(bytes)
    } else {
        match codepage_text {
            Some(s) => s@,
            None => utf8_lossy(bytes),
        }
    }
}

// ---------------------------------------------------------------------------
// Lemmas
// ---------------------------------------------------------------------------

/// A split has at least one piece.
pub proof fn lemma_split_nonempty<T>(s: Seq<T>, sep: T)
    ensures
        split_seq(s, sep).len() >= 1,
    decreases s.len(),
{
    if s.len() > 0 {
        lemma_split_nonempty(s.drop_last(), sep);
    }
}

/// Splitting loses nothing: the pieces joined by the separator give back
/// the whole.
pub proof fn lemma_join_split<T>(s: Seq<T>, sep: T)
    ensures
        join_seq(split_seq(s, sep), sep) == s,
    decreases s.len(),
{
    if s.len() > 0 {
        let p = split_seq(s.drop_last(), sep);
        lemma_join_split(s.drop_last(), sep);
        lemma_split_nonempty(s.drop_last(), sep);
        if s.last() == sep {
            let q = p.push(Seq::<T>::empty());
            assert(q.drop_last() =~= p);
            assert(join_seq(q, sep) =~= s);
        } else {
            let q = p.update(p.len() - 1, p.last().push(s.last()));
            if p.len() == 1 {
                assert(join_seq(q, sep) =~= s);
            } else {
                assert(q.drop_last() =~= p.drop_last());
                assert(join_seq(q, sep) =~= join_seq(p, sep).push(s.last()));
                assert(join_seq(q, sep) =~= s);
            }
        }
    }
}

/// What is left after trimming the start begins with no white space.
proof fn lemma_trim_start_head(s: Seq<char>)
    ensures
        trim_start(s).len() > 0 ==> !is_white_space(trim_start(s)[0]),
    decreases s.len(),
{
    if s.len() > 0 && is_white_space(s[0]) {
        lemma_trim_start_head(s.drop_first());
    }
}

/// Trimming the end keeps a prefix that ends with no white space.
proof fn lemma_trim_end_shape(s: Seq<char>)
    ensures
        trim_end(s) =~= s.take(trim_end(s).len() as int),
        trim_end(s).len() <= s.len(),
        trim_end(s).len() > 0 ==> !is_white_space(trim_end(s).last()),
    decreases s.len(),
{
    if s.len() > 0 && is_white_space(s.last()) {
        lemma_trim_end_shape(s.drop_last());
        assert(s.drop_last().take(trim_end(s).len() as int) =~= s.take(trim_end(s).len() as int));
    } else {
        assert(s.take(s.len() as int) =~= s);
    }
}

/// Trimming twice is trimming once.
pub proof fn lemma_trimmed_idempotent(s: Seq<char>)
    ensures
        trimmed(trimmed(s)) == trimmed(s),
{
    let y = trim_start(s);
    let x = trim_end(y);
    lemma_trim_start_head(s);
    lemma_trim_end_shape(y);
    if x.len() > 0 {
        assert(x[0] == y[0]);
        assert(trim_start(x) == x);
        assert(trim_end(x) == x);
    }
}

/// Where trimming the start cuts: everything before is white space.
proof fn trim_start_cut(s: Seq<char>) -> (k: int)
    ensures
        0 <= k <= s.len(),
        trim_start(s) == s.skip(k),
        forall|i: int| 0 <= i < k ==> is_white_space(#[trigger] s[i]),
    decreases s.len(),
{
    if s.len() > 0 && is_white_space(s[0]) {
        let k1 = trim_start_cut(s.drop_first());
        assert(s.drop_first().skip(k1) =~= s.skip(k1 + 1));
        assert forall|i: int| 0 <= i < k1 + 1 implies is_white_space(#[trigger] s[i]) by {
            if i > 0 {
                assert(s[i] == s.drop_first()[i - 1]);
            }
        }
        k1 + 1
    } else {
        assert(s.skip(0) =~= s);
        0
    }
}

/// Where trimming the end cuts: everything after is white space.
proof fn trim_end_cut(s: Seq<char>) -> (k: int)
    ensures
        0 <= k <= s.len(),
        trim_end(s) == s.take(k),
        forall|i: int| k <= i < s.len() ==> is_white_space(#[trigger] s[i]),
    decreases s.len(),
{
    if s.len() > 0 && is_white_space(s.last()) {
        let k1 = trim_end_cut(s.drop_last());
        assert(s.drop_last().take(k1) =~= s.take(k1));
        assert forall|i: int| k1 <= i < s.len() implies is_white_space(#[trigger] s[i]) by {
            if i < s.len() - 1 {
                assert(s[i] == s.drop_last()[i]);
            }
        }
        k1
    } else {
        assert(s.take(s.len() as int) =~= s);
        s.len() as int
    }
}

/// Trimming keeps one contiguous piece of the text: only white space is
/// cut on either side, and what is kept neither starts nor ends with white
/// space.
pub proof fn law_trim(s: Seq<char>)
    ensures
        exists|i: int, j: int|
            0 <= i <= j <= s.len() && trimmed(s) == s.subrange(i, j) && (forall|k: int|
                0 <= k < i ==> is_white_space(#[trigger] s[k])) && (forall|k: int|
                j <= k < s.len() ==> is_white_space(#[trigger] s[k])),
        trimmed(s).len() > 0 ==> !is_white_space(trimmed(s)[0]) && !is_white_space(
            trimmed(s).last(),
        ),
{
    let i = trim_start_cut(s);
    let y = trim_start(s);
    let m = trim_end_cut(y);
    lemma_trim_start_head(s);
    lemma_trim_end_shape(y);
    assert(trimmed(s) == s.subrange(i, i + m)) by {
        assert(s.skip(i).take(m) =~= s.subrange(i, i + m));
    }
    assert forall|k: int| i + m <= k < s.len() implies is_white_space(#[trigger] s[k]) by {
        assert(s[k] == y[k - i]);
    }
    if trimmed(s).len() > 0 {
        assert(trimmed(s)[0] == y[0]);
    }
}

/// No piece of a split holds the separator.
pub proof fn law_split_pieces<T>(s: Seq<T>, sep: T)
    ensures
        forall|i: int, k: int|
            0 <= i < split_seq(s, sep).len() && 0 <= k < split_seq(s, sep)[i].len() ==> #[trigger] split_seq(
                s,
                sep,
            )[i][k] != sep,
    decreases s.len(),
{
    if s.len() > 0 {
        law_split_pieces(s.drop_last(), sep);
        lemma_split_nonempty(s.drop_last(), sep);
        let p = split_seq(s.drop_last(), sep);
        let q = split_seq(s, sep);
        assert forall|i: int, k: int| 0 <= i < q.len() && 0 <= k < q[i].len() implies #[trigger] q[i][k]
            != sep by {
            if s.last() == sep {
                if i < p.len() {
                    assert(q[i] == p[i]);
                }
            } else {
                if i < p.len() - 1 {
                    assert(q[i] == p[i]);
                } else {
                    assert(q[i] == p.last().push(s.last()));
                    if k < p.last().len() {
                        assert(q[i][k] == p[p.len() - 1][k]);
                    }
                }
            }
        }
    }
}

/// Splitting one more element on the right.
proof fn lemma_split_step<T>(s: Seq<T>, i: int, sep: T)
    requires
        0 <= i < s.len(),
    ensures
        split_seq(s.take(i + 1), sep) == (if s[i] == sep {
            split_seq(s.take(i), sep).push(Seq::<T>::empty())
        } else {
            let p = split_seq(s.take(i), sep);
            p.update(p.len() - 1, p.last().push(s[i]))
        }),
{
    assert(s.take(i + 1).drop_last() =~= s.take(i));
}

// ---------------------------------------------------------------------------
// Trusted std calls
// ---------------------------------------------------------------------------

/// `String::push`: appends one character.
#[verifier::external_body]
pub(crate) fn push_char(s: &mut String, c: char)
    ensures
        final(s)@ == old(s)@.push(c),
{
    s.push(c);
}

/// `std::str::from_utf8`: succeeds exactly on valid UTF-8, and then holds
/// the decoded characters.
#[verifier::external_body]
fn utf8_str(bytes: &[u8]) -> (res: Option<&str>)
    ensures
        res is Some <==> valid_utf8(bytes@),
        res matches Some(s) ==> s@ == decode_utf8(bytes@),
{
    std::str::from_utf8(bytes).ok()
}

/// `String::from_utf8_lossy`: its result is named by `utf8_lossy`; on valid
/// UTF-8 it is the plain decoding.
#[verifier::external_body]
pub(crate) fn utf8_lossy_string(bytes: &[u8]) -> (res: String)
    ensures
        res@ == utf8_lossy(bytes@),
        valid_utf8(bytes@) ==> res@ == decode_utf8(bytes@),
{
    String::from_utf8_lossy(bytes).into_owned()
}

// ---------------------------------------------------------------------------
// Executable functions
// ---------------------------------------------------------------------------

/// An owned copy of a string slice.
pub fn owned(s: &str) -> (res: String)
    ensures
        res@ == s@,
{
    s.to_owned()
}

/// The characters of a string slice, in order.
pub fn chars_of(s: &str) -> (res: Vec<char>)
    ensures
        res@ == s@,
{
    let mut res: Vec<char> = Vec::new();
    for c in it: s.chars()
        invariant
            res@ == it.seq().take(it.index() as int),
    {
        res.push(c);
    }
    res
}

/// The string made of `v[lo..hi]`.
pub fn string_of(v: &Vec<char>, lo: usize, hi: usize) -> (res: String)
    requires
        lo <= hi <= v@.len(),
    ensures
        res@ == v@.subrange(lo as int, hi as int),
{
    let mut res = String::new();
    let mut k = lo;
    while k < hi
        invariant
            lo <= k <= hi <= v@.len(),
            res@ == v@.subrange(lo as int, k as int),
        decreases hi - k,
    {
        push_char(&mut res, v[k]);
        assert(v@.subrange(lo as int, k + 1) =~= v@.subrange(lo as int, k as int).push(v@[k as int]));
        k = k + 1;
    }
    res
}

/// Whether `c` is Unicode white space (`char::is_whitespace`).
pub fn is_white_space_char(c: char) -> (res: bool)
    ensures
        res == is_white_space(c),
{
    let u = c as u32;
    (0x09 <= u && u <= 0x0d) || u == 0x20 || u == 0x85 || u == 0xa0 || u == 0x1680 || (0x2000
        <= u && u <= 0x200a) || u == 0x2028 || u == 0x2029 || u == 0x202f || u == 0x205f || u
        == 0x3000
}

/// `s` with leading and trailing white space removed.
pub fn trim(s: &str) -> (res: String)
    ensures
        res@ == trimmed(s@),
{
    let v = chars_of(s);
    let n = v.len();
    let mut i: usize = 0;
    assert(v@.subrange(0, n as int) =~= v@);
    while i < n && is_white_space_char(v[i])
        invariant
            i <= n == v@.len(),
            trim_start(v@) == trim_start(v@.subrange(i as int, n as int)),
        decreases n - i,
    {
        assert(v@.subrange(i as int, n as int).drop_first() =~= v@.subrange(i + 1, n as int));
        i = i + 1;
    }
    assert(trim_start(v@) == v@.subrange(i as int, n as int));
    let mut j: usize = n;
    while j > i && is_white_space_char(v[j - 1])
        invariant
            i <= j <= n == v@.len(),
            trim_end(v@.subrange(i as int, n as int)) == trim_end(v@.subrange(i as int, j as int)),
        decreases j - i,
    {
        assert(v@.subrange(i as int, j as int).drop_last() =~= v@.subrange(i as int, j - 1));
        j = j - 1;
    }
    string_of(&v, i, j)
}

/// The pieces of `v` between occurrences of `sep`.
pub fn split_chars(v: &Vec<char>, sep: char) -> (res: Vec<Vec<char>>)
    ensures
        res@.map_values(|p: Vec<char>| p@) == split_seq(v@, sep),
{
    let mut done: Vec<Vec<char>> = Vec::new();
    let mut cur: Vec<char> = Vec::new();
    let n = v.len();
    assert(v@.take(0) =~= Seq::<char>::empty());
    let mut i: usize = 0;
    while i < n
        invariant
            i <= n == v@.len(),
            split_seq(v@.take(i as int), sep) == done@.map_values(|p: Vec<char>| p@).push(cur@),
        decreases n - i,
    {
        proof {
            lemma_split_step(v@, i as int, sep);
        }
        let c = v[i];
        let ghost before = done@.map_values(|p: Vec<char>| p@);
        if c == sep {
            let finished = cur;
            cur = Vec::new();
            done.push(finished);
            assert(done@.map_values(|p: Vec<char>| p@) =~= before.push(finished@));
        } else {
            cur.push(c);
            assert(before.push(cur@) =~= before.push(cur@.drop_last()).update(
                before.len() as int,
                cur@,
            ));
        }
        i = i + 1;
    }
    assert(v@.take(n as int) =~= v@);
    let ghost before = done@.map_values(|p: Vec<char>| p@);
    done.push(cur);
    assert(done@.map_values(|p: Vec<char>| p@) =~= before.push(cur@));
    done
}

/// `l` without a final carriage return.
fn strip_cr_string(l: &Vec<char>) -> (res: String)
    ensures
        res@ == strip_cr(l@),
{
    let n = l.len();
    if n > 0 && l[n - 1] == '\r' {
        string_of(l, 0, n - 1)
    } else {
        string_of(l, 0, n)
    }
}

/// The lines of `s`, as `str::lines` gives them.
pub fn lines_of(s: &str) -> (res: Vec<String>)
    ensures
        string_views(res@) == text_lines(s@),
{
    let v = chars_of(s);
    let parts = split_chars(&v, '\n');
    let ghost pv = parts@.map_values(|p: Vec<char>| p@);
    proof {
        lemma_split_nonempty(v@, '\n');
    }
    let last = parts.len() - 1;
    let mut res: Vec<String> = Vec::new();
    let mut k: usize = 0;
    while k < last
        invariant
            pv == split_seq(v@, '\n'),
            pv == parts@.map_values(|p: Vec<char>| p@),
            last + 1 == parts@.len(),
            k <= last,
            string_views(res@) == pv.take(k as int).map_values(|l: Seq<char>| strip_cr(l)),
        decreases last - k,
    {
        let line = strip_cr_string(&parts[k]);
        assert(pv[k as int] == parts@[k as int]@);
        let ghost before = string_views(res@);
        res.push(line);
        assert(string_views(res@) =~= before.push(line@));
        assert(pv.take(k + 1) =~= pv.take(k as int).push(pv[k as int]));
        assert(string_views(res@) =~= pv.take(k + 1).map_values(|l: Seq<char>| strip_cr(l)));
        k = k + 1;
    }
    assert(pv.take(last as int) =~= pv.drop_last());
    if parts[last].len() > 0 {
        let tail = string_of(&parts[last], 0, parts[last].len());
        res.push(tail);
        assert(parts[last as int]@.subrange(0, parts[last as int]@.len() as int) =~= pv.last());
        assert(string_views(res@) =~= pv.drop_last().map_values(|l: Seq<char>| strip_cr(l)).push(
            pv.last(),
        ));
    }
    res
}

/// The last line of `s` (`s.lines().last()`), if `s` has a line.
pub fn last_line(s: &str) -> (res: Option<String>)
    ensures
        text_lines(s@).len() == 0 ==> res is None,
        text_lines(s@).len() > 0 ==> (res matches Some(l) && l@ == text_lines(s@).last()),
{
    let mut lines = lines_of(s);
    let ghost lv = string_views(lines@);
    let r = lines.pop();
    proof {
        if lv.len() > 0 {
            assert(lv.last() == lines@.push(r.unwrap())[lv.len() - 1]@);
        }
    }
    r
}

/// `line` without `prefix`, if it starts with it (`str::strip_prefix`).
pub fn strip_prefix(line: &str, prefix: &str) -> (res: Option<String>)
    ensures
        prefix@.is_prefix_of(line@) ==> (res matches Some(r) && r@ == line@.skip(
            prefix@.len() as int,
        )),
        !prefix@.is_prefix_of(line@) ==> res is None,
{
    let l = chars_of(line);
    let p = chars_of(prefix);
    if p.len() > l.len() {
        return None;
    }
    let mut i: usize = 0;
    while i < p.len()
        invariant
            i <= p@.len() <= l@.len(),
            l@ == line@,
            p@ == prefix@,
            forall|k: int| 0 <= k < i ==> p@[k] == l@[k],
        decreases p@.len() - i,
    {
        if p[i] != l[i] {
            proof {
                if p@.is_prefix_of(l@) {
                    assert(p@[i as int] == l@.subrange(0, p@.len() as int)[i as int]);
                }
            }
            return None;
        }
        i = i + 1;
    }
    assert(p@ =~= l@.subrange(0, p@.len() as int));
    let rest = string_of(&l, p.len(), l.len());
    assert(l@.subrange(p@.len() as int, l@.len() as int) =~= l@.skip(p@.len() as int));
    Some(rest)
}

/// Subprocess output as text. UTF-8 is the normal case; where the bytes are
/// not valid UTF-8 the console code page decoding is taken if the platform
/// produced one (`codepage_text`, computed by the caller), else a lossy
/// decoding with U+FFFD for each invalid sequence.
pub fn decode_output(bytes: &[u8], codepage_text: Option<String>) -> (res: String)
    ensures
        res@ == decoded(bytes@, codepage_text),
{
    match utf8_str(bytes) {
        Some(s) => s.to_owned(),
        None => match codepage_text {
            Some(s) => s,
            None => utf8_lossy_string(bytes),
        },
    }
}

/// The pieces of `v` between occurrences of the byte `sep`.
pub fn split_bytes(v: &[u8], sep: u8) -> (res: Vec<Vec<u8>>)
    ensures
        res@.map_values(|p: Vec<u8>| p@) == split_seq(v@, sep),
{
    let mut done: Vec<Vec<u8>> = Vec::new();
    let mut cur: Vec<u8> = Vec::new();
    let n = v.len();
    assert(v@.take(0) =~= Seq::<u8>::empty());
    let mut i: usize = 0;
    while i < n
        invariant
            i <= n == v@.len(),
            split_seq(v@.take(i as int), sep) == done@.map_values(|p: Vec<u8>| p@).push(cur@),
        decreases n - i,
    {
        proof {
            lemma_split_step(v@, i as int, sep);
        }
        let c = v[i];
        let ghost before = done@.map_values(|p: Vec<u8>| p@);
        if c == sep {
            let finished = cur;
            cur = Vec::new();
            done.push(finished);
            assert(done@.map_values(|p: Vec<u8>| p@) =~= before.push(finished@));
        } else {
            cur.push(c);
            assert(before.push(cur@) =~= before.push(cur@.drop_last()).update(
                before.len() as int,
                cur@,
            ));
        }
        i = i + 1;
    }
    assert(v@.take(n as int) =~= v@);
    let ghost before = done@.map_values(|p: Vec<u8>| p@);
    done.push(cur);
    assert(done@.map_values(|p: Vec<u8>| p@) =~= before.push(cur@));
    done
}

} // verus!
