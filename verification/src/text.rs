//! Verified text helpers: character classification, equality, substring
//! search, line splitting, trimming and decimal formatting, all specified
//! over `Seq<char>` views.

use vstd::prelude::*;
use vstd::string::StrSliceExecFns;

verus! {

/// The whitespace characters recognised when trimming output buffers.
pub open spec fn is_ws(c: char) -> bool {
    c == ' ' || c == '\t' || c == '\n' || c == '\r'
}

/// Executable test for [`is_ws`].
pub fn is_ws_char(c: char) -> (r: bool)
    ensures
        r == is_ws(c),
{
    c == ' ' || c == '\t' || c == '\n' || c == '\r'
}

/// Relies on `String::push`: appends one character to the end of the string.
#[verifier::external_body]
pub fn push_char(s: &mut String, c: char)
    ensures
        final(s)@ == old(s)@.push(c),
{
    s.push(c);
}

/// Character-wise string equality, decided over the `Seq<char>` views.
pub fn str_eq(a: &str, b: &str) -> (r: bool)
    ensures
        r == (a@ == b@),
{
    let a_len = a.unicode_len();
    let b_len = b.unicode_len();
    if a_len != b_len {
        return false;
    }
    let mut i: usize = 0;
    while i < a_len
        invariant
            a_len == a@.len(),
            b_len == b@.len(),
            a_len == b_len,
            i <= a_len,
            forall|j: int| 0 <= j < i ==> a@[j] == b@[j],
        decreases a_len - i,
    {
        if a.get_char(i) != b.get_char(i) {
            return false;
        }
        i += 1;
    }
    proof {
        assert(a@ =~= b@);
    }
    true
}

/// Index of the first `'\n'` in `s`, or `s.len()` when there is none.
pub open spec fn find_newline(s: Seq<char>) -> int
    decreases s.len(),
{
    if s.len() == 0 {
        0
    } else if s[0] == '\n' {
        0
    } else {
        1 + find_newline(s.drop_first())
    }
}

pub proof fn lemma_find_newline_bounds(s: Seq<char>)
    ensures
        0 <= find_newline(s) <= s.len(),
        forall|k: int| 0 <= k < find_newline(s) ==> s[k] != '\n',
        find_newline(s) < s.len() ==> s[find_newline(s)] == '\n',
    decreases s.len(),
{
    if s.len() != 0 && s[0] != '\n' {
        lemma_find_newline_bounds(s.drop_first());
        assert forall|k: int| 0 <= k < find_newline(s) implies s[k] != '\n' by {
            if k > 0 {
                assert(s.drop_first()[k - 1] == s[k]);
            }
        }
        if find_newline(s) < s.len() {
            assert(s.drop_first()[find_newline(s) - 1] == s[find_newline(s)]);
        }
    }
}

/// `find_newline` is pinned down by the facts the scan establishes.
pub proof fn lemma_find_newline_is(s: Seq<char>, i: int)
    requires
        0 <= i <= s.len(),
        forall|k: int| 0 <= k < i ==> s[k] != '\n',
        i < s.len() ==> s[i] == '\n',
    ensures
        find_newline(s) == i,
    decreases s.len(),
{
    if s.len() != 0 && s[0] != '\n' {
        assert forall|k: int| 0 <= k < i - 1 implies s.drop_first()[k] != '\n' by {
            assert(s[k + 1] != '\n');
        }
        if i - 1 < s.drop_first().len() {
            assert(s.drop_first()[i - 1] == s[i]);
        }
        lemma_find_newline_is(s.drop_first(), i - 1);
    }
}

/// Removes one trailing carriage return, as line splitting does for a
/// newline-terminated line.
pub open spec fn strip_cr(line: Seq<char>) -> Seq<char> {
    if line.len() > 0 && line.last() == '\r' {
        line.drop_last()
    } else {
        line
    }
}

/// The line sequence of `s`: split at `'\n'`, with a carriage return before
/// the newline removed, and no trailing empty line for a trailing newline.
/// A final segment without a newline is kept as it stands.
pub open spec fn lines_spec(s: Seq<char>) -> Seq<Seq<char>>
    decreases s.len(),
{
    if s.len() == 0 {
        Seq::empty()
    } else {
        let i = find_newline(s);
        if 0 <= i < s.len() {
            seq![strip_cr(s.take(i))] + lines_spec(s.skip(i + 1))
        } else {
            seq![s]
        }
    }
}

/// Finds the end of the line starting at `from`: the index of the next
/// newline, or the length of `s`.
fn scan_to_newline(s: &str, from: usize) -> (r: usize)
    requires
        from <= s@.len(),
    ensures
        from <= r <= s@.len(),
        forall|k: int| from <= k < r ==> s@[k] != '\n',
        r < s@.len() ==> s@[r as int] == '\n',
{
    let len = s.unicode_len();
    let mut j = from;
    while j < len
        invariant
            from <= j <= len,
            len == s@.len(),
            forall|k: int| from <= k < j ==> s@[k] != '\n',
        decreases len - j,
    {
        if s.get_char(j) == '\n' {
            return j;
        }
        j += 1;
    }
    j
}

/// Splits `s` into its lines, as [`lines_spec`] describes.
pub fn split_lines(s: &str) -> (r: Vec<String>)
    ensures
        r.deep_view() == lines_spec(s@),
{
    let len = s.unicode_len();
    let mut out: Vec<String> = Vec::new();
    let mut pos: usize = 0;
    proof {
        assert(s@.skip(0) =~= s@);
        assert(out.deep_view() + lines_spec(s@.skip(0)) =~= lines_spec(s@));
    }
    while pos < len
        invariant
            pos <= len,
            len == s@.len(),
            out.deep_view() + lines_spec(s@.skip(pos as int)) =~= lines_spec(s@),
        decreases len - pos,
    {
        let ghost prev = out.deep_view();
        let ghost p0 = pos as int;
        let ghost rest = s@.skip(p0);
        let j = scan_to_newline(s, pos);
        proof {
            assert forall|k: int| 0 <= k < j - p0 implies rest[k] != '\n' by {
                assert(s@[p0 + k] != '\n');
            }
            lemma_find_newline_is(rest, j - p0);
        }
        if j == len {
            // final segment without a newline terminator
            let line = s.substring_char(pos, j).to_owned();
            out.push(line);
            pos = j;
            proof {
                assert(rest =~= s@.subrange(p0, j as int));
                assert(lines_spec(rest) =~= seq![rest]);
                assert(out.deep_view() =~= prev + seq![line@]);
                assert(s@.skip(pos as int) =~= Seq::<char>::empty());
                assert(out.deep_view() + lines_spec(s@.skip(pos as int)) =~= lines_spec(s@));
            }
        } else {
            // strip one carriage return before the newline
            let end = if j > pos && s.get_char(j - 1) == '\r' {
                j - 1
            } else {
                j
            };
            let line = s.substring_char(pos, end).to_owned();
            out.push(line);
            pos = j + 1;
            proof {
                assert(rest.take(j - p0) =~= s@.subrange(p0, j as int));
                assert(strip_cr(rest.take(j - p0)) =~= s@.subrange(p0, end as int));
                assert(rest.skip(j - p0 + 1) =~= s@.skip(j + 1));
                assert(lines_spec(rest) =~= seq![line@] + lines_spec(s@.skip(j + 1)));
                assert(out.deep_view() =~= prev + seq![line@]);
                assert(out.deep_view() + lines_spec(s@.skip(j + 1)) =~= lines_spec(s@));
            }
        }
    }
    proof {
        assert(s@.skip(len as int) =~= Seq::<char>::empty());
        assert(out.deep_view() =~= lines_spec(s@));
    }
    out
}

/// Two texts are considered equal when they split into the same lines.
pub open spec fn same_lines(a: Seq<char>, b: Seq<char>) -> bool {
    lines_spec(a) == lines_spec(b)
}

/// `s` with a carriage return inserted before every newline.
pub open spec fn crlf_of(s: Seq<char>) -> Seq<char>
    decreases s.len(),
{
    if s.len() == 0 {
        Seq::empty()
    } else if s[0] == '\n' {
        seq!['\r', '\n'] + crlf_of(s.drop_first())
    } else {
        seq![s[0]] + crlf_of(s.drop_first())
    }
}

pub proof fn lemma_crlf_no_newline(s: Seq<char>)
    requires
        forall|k: int| 0 <= k < s.len() ==> s[k] != '\n',
    ensures
        crlf_of(s) == s,
    decreases s.len(),
{
    if s.len() > 0 {
        assert forall|k: int| 0 <= k < s.drop_first().len() implies s.drop_first()[k] != '\n' by {
            assert(s[k + 1] != '\n');
        }
        lemma_crlf_no_newline(s.drop_first());
        assert(crlf_of(s) =~= s);
    }
}

pub proof fn lemma_crlf_concat(a: Seq<char>, b: Seq<char>)
    ensures
        crlf_of(a + b) == crlf_of(a) + crlf_of(b),
    decreases a.len(),
{
    if a.len() == 0 {
        assert(a + b =~= b);
        assert(crlf_of(a) + crlf_of(b) =~= crlf_of(b));
    } else {
        lemma_crlf_concat(a.drop_first(), b);
        assert((a + b).drop_first() =~= a.drop_first() + b);
        assert((a + b)[0] == a[0]);
        if a[0] == '\n' {
            assert(crlf_of(a + b) =~= crlf_of(a) + crlf_of(b));
        } else {
            assert(crlf_of(a + b) =~= crlf_of(a) + crlf_of(b));
        }
    }
}

/// Writing every newline of a carriage-return-free text as `\r\n` does not
/// change its lines.
pub proof fn lemma_lines_ignore_crlf(s: Seq<char>)
    requires
        forall|k: int| 0 <= k < s.len() ==> s[k] != '\r',
    ensures
        lines_spec(crlf_of(s)) == lines_spec(s),
    decreases s.len(),
{
    lemma_find_newline_bounds(s);
    let i = find_newline(s);
    if i == s.len() {
        lemma_crlf_no_newline(s);
    } else {
        let pre = s.take(i);
        let suf = s.skip(i + 1);
        assert(s =~= pre + seq!['\n'] + suf);
        lemma_crlf_concat(pre + seq!['\n'], suf);
        lemma_crlf_concat(pre, seq!['\n']);
        assert forall|k: int| 0 <= k < pre.len() implies pre[k] != '\n' by {
            assert(s[k] != '\n');
        }
        lemma_crlf_no_newline(pre);
        assert(crlf_of(seq!['\n']) =~= seq!['\r', '\n']) by {
            assert(seq!['\n'].drop_first() =~= Seq::<char>::empty());
            assert(crlf_of(Seq::<char>::empty()) =~= Seq::<char>::empty());
            assert(seq!['\n'][0] == '\n');
        }
        let c = crlf_of(s);
        assert(c =~= pre + seq!['\r', '\n'] + crlf_of(suf));
        assert forall|k: int| 0 <= k < i + 1 implies c[k] != '\n' by {
            if k < i {
                assert(c[k] == pre[k] && s[k] != '\n');
            } else {
                assert(c[k] == '\r');
            }
        }
        assert(c[i + 1] == '\n');
        lemma_find_newline_is(c, i + 1);
        assert(c.take(i + 1) =~= pre + seq!['\r']);
        assert(strip_cr(c.take(i + 1)) =~= pre);
        assert(c.skip(i + 2) =~= crlf_of(suf));
        assert forall|k: int| 0 <= k < suf.len() implies suf[k] != '\r' by {
            assert(s[i + 1 + k] != '\r');
        }
        lemma_lines_ignore_crlf(suf);
        assert(strip_cr(s.take(i)) =~= pre) by {
            if pre.len() > 0 {
                assert(s[i - 1] != '\r');
            }
        }
        assert(lines_spec(c) =~= lines_spec(s));
    }
}

/// `s` with trailing whitespace removed.
pub open spec fn trim_end_spec(s: Seq<char>) -> Seq<char>
    decreases s.len(),
{
    if s.len() > 0 && is_ws(s.last()) {
        trim_end_spec(s.drop_last())
    } else {
        s
    }
}

/// `s` with leading whitespace removed.
pub open spec fn trim_start_spec(s: Seq<char>) -> Seq<char>
    decreases s.len(),
{
    if s.len() > 0 && is_ws(s.first()) {
        trim_start_spec(s.drop_first())
    } else {
        s
    }
}

/// `s` with whitespace removed on both sides.
pub open spec fn trim_spec(s: Seq<char>) -> Seq<char> {
    trim_start_spec(trim_end_spec(s))
}

pub proof fn lemma_trim_end_is(s: Seq<char>, end: int)
    requires
        0 <= end <= s.len(),
        forall|k: int| end <= k < s.len() ==> is_ws(s[k]),
        end > 0 ==> !is_ws(s[end - 1]),
    ensures
        trim_end_spec(s) == s.take(end),
    decreases s.len(),
{
    if end == s.len() {
        assert(s.take(end) =~= s);
    } else {
        assert(is_ws(s.last()));
        lemma_trim_end_is(s.drop_last(), end);
        assert(s.drop_last().take(end) =~= s.take(end));
    }
}

pub proof fn lemma_trim_start_is(s: Seq<char>, start: int)
    requires
        0 <= start <= s.len(),
        forall|k: int| 0 <= k < start ==> is_ws(s[k]),
        start < s.len() ==> !is_ws(s[start]),
    ensures
        trim_start_spec(s) == s.skip(start),
    decreases s.len(),
{
    if start == 0 {
        assert(s.skip(0) =~= s);
    } else {
        assert(is_ws(s.first()));
        lemma_trim_start_is(s.drop_first(), start - 1);
        assert(s.drop_first().skip(start - 1) =~= s.skip(start));
    }
}

/// The index after the last non-whitespace character of `s`.
fn scan_trim_end(s: &str) -> (end: usize)
    ensures
        end <= s@.len(),
        forall|k: int| end <= k < s@.len() ==> is_ws(s@[k]),
        end > 0 ==> !is_ws(s@[end - 1]),
{
    let len = s.unicode_len();
    let mut end = len;
    while end > 0
        invariant
            end <= len,
            len == s@.len(),
            forall|k: int| end <= k < len ==> is_ws(s@[k]),
        decreases end,
    {
        if !is_ws_char(s.get_char(end - 1)) {
            return end;
        }
        end -= 1;
    }
    0
}

/// Removes trailing whitespace, as [`trim_end_spec`] describes.
pub fn trim_end_ws(s: &str) -> (r: String)
    ensures
        r@ == trim_end_spec(s@),
{
    let end = scan_trim_end(s);
    proof {
        lemma_trim_end_is(s@, end as int);
    }
    s.substring_char(0, end).to_owned()
}

/// Removes leading and trailing whitespace, as [`trim_spec`] describes.
pub fn trim_ws(s: &str) -> (r: String)
    ensures
        r@ == trim_spec(s@),
{
    let end = scan_trim_end(s);
    proof {
        lemma_trim_end_is(s@, end as int);
    }
    let mut start: usize = 0;
    while start < end
        invariant_except_break
            start <= end,
            end <= s@.len(),
            forall|k: int| 0 <= k < start ==> is_ws(s@[k]),
        ensures
            start <= end,
            end <= s@.len(),
            forall|k: int| 0 <= k < start ==> is_ws(s@[k]),
            start < end ==> !is_ws(s@[start as int]),
        decreases end - start,
    {
        if !is_ws_char(s.get_char(start)) {
            break;
        }
        start += 1;
    }
    proof {
        let t = trim_end_spec(s@);
        assert forall|k: int| 0 <= k < start implies is_ws(t[k]) by {
            assert(t[k] == s@[k]);
        }
        if start < t.len() {
            assert(t[start as int] == s@[start as int]);
        }
        lemma_trim_start_is(t, start as int);
        assert(t.skip(start as int) =~= s@.subrange(start as int, end as int));
    }
    s.substring_char(start, end).to_owned()
}

/// Whether `needle` occurs in `hay` starting at position `i`.
pub open spec fn match_at(hay: Seq<char>, needle: Seq<char>, i: int) -> bool {
    0 <= i && i + needle.len() <= hay.len() && hay.subrange(i, i + needle.len()) == needle
}

/// Whether `needle` occurs anywhere in `hay`.
pub open spec fn contains_sub(hay: Seq<char>, needle: Seq<char>) -> bool {
    exists|i: int| match_at(hay, needle, i)
}

/// Whether `needle` occurs at position `i` of `hay`.
pub fn match_here(hay: &str, needle: &str, i: usize) -> (r: bool)
    requires
        i + needle@.len() <= hay@.len(),
    ensures
        r == match_at(hay@, needle@, i as int),
{
    let n_len = needle.unicode_len();
    let h_len = hay.unicode_len();
    let mut j: usize = 0;
    while j < n_len
        invariant
            j <= n_len,
            n_len == needle@.len(),
            h_len == hay@.len(),
            i + n_len <= hay@.len(),
            forall|k: int| 0 <= k < j ==> hay@[i + k] == needle@[k],
        decreases n_len - j,
    {
        if hay.get_char(i + j) != needle.get_char(j) {
            proof {
                assert(hay@.subrange(i as int, i + needle@.len())[j as int] != needle@[j as int]);
            }
            return false;
        }
        j += 1;
    }
    proof {
        assert(hay@.subrange(i as int, i + needle@.len()) =~= needle@);
    }
    true
}

/// The first position where `needle` occurs in `hay`, if any.
pub fn find_sub(hay: &str, needle: &str) -> (r: Option<usize>)
    ensures
        match r {
            Option::Some(i) => match_at(hay@, needle@, i as int) && forall|j: int|
                0 <= j < i ==> !match_at(hay@, needle@, j),
            Option::None => !contains_sub(hay@, needle@),
        },
{
    let h_len = hay.unicode_len();
    let n_len = needle.unicode_len();
    if n_len > h_len {
        return None;
    }
    if n_len == 0 {
        proof {
            assert(hay@.subrange(0, 0) =~= needle@);
        }
        return Some(0);
    }
    let last = h_len - n_len;
    let mut i: usize = 0;
    while i <= last
        invariant
            i <= last + 1,
            last == h_len - n_len,
            1 <= n_len <= h_len,
            h_len == hay@.len(),
            n_len == needle@.len(),
            forall|j: int| 0 <= j < i ==> !match_at(hay@, needle@, j),
        decreases h_len - i,
    {
        if match_here(hay, needle, i) {
            return Some(i);
        }
        i += 1;
    }
    None
}

/// Whether `needle` occurs anywhere in `hay`.
pub fn contains_str(hay: &str, needle: &str) -> (r: bool)
    ensures
        r == contains_sub(hay@, needle@),
{
    find_sub(hay, needle).is_some()
}

/// Whether `s` begins with `prefix`.
pub fn starts_with_str(s: &str, prefix: &str) -> (r: bool)
    ensures
        r == (prefix@.len() <= s@.len() && match_at(s@, prefix@, 0)),
{
    let p_len = prefix.unicode_len();
    if p_len > s.unicode_len() {
        return false;
    }
    match_here(s, prefix, 0)
}

/// Index of the first `sep` in `s`, or `s.len()` when there is none.
pub open spec fn find_char(s: Seq<char>, sep: char) -> int
    decreases s.len(),
{
    if s.len() == 0 {
        0
    } else if s[0] == sep {
        0
    } else {
        1 + find_char(s.drop_first(), sep)
    }
}

/// `find_char` is pinned down by the facts a scan establishes.
pub proof fn lemma_find_char_is(s: Seq<char>, sep: char, i: int)
    requires
        0 <= i <= s.len(),
        forall|k: int| 0 <= k < i ==> s[k] != sep,
        i < s.len() ==> s[i] == sep,
    ensures
        find_char(s, sep) == i,
    decreases s.len(),
{
    if s.len() != 0 && s[0] != sep {
        assert forall|k: int| 0 <= k < i - 1 implies s.drop_first()[k] != sep by {
            assert(s[k + 1] != sep);
        }
        if i - 1 < s.drop_first().len() {
            assert(s.drop_first()[i - 1] == s[i]);
        }
        lemma_find_char_is(s.drop_first(), sep, i - 1);
    }
}

/// The segments of `s` between occurrences of `sep`: an empty input gives
/// one empty segment, and a trailing separator gives a trailing empty
/// segment.
pub open spec fn split_on(s: Seq<char>, sep: char) -> Seq<Seq<char>>
    decreases s.len(),
{
    let i = find_char(s, sep);
    if 0 <= i < s.len() {
        seq![s.take(i)] + split_on(s.skip(i + 1), sep)
    } else {
        seq![s]
    }
}

/// Splits `s` at every `sep`, as [`split_on`] describes.
pub fn split_at_char(s: &str, sep: char) -> (r: Vec<String>)
    ensures
        r.deep_view() == split_on(s@, sep),
{
    let len = s.unicode_len();
    let mut out: Vec<String> = Vec::new();
    let mut pos: usize = 0;
    proof {
        assert(s@.skip(0) =~= s@);
        assert(out.deep_view() + split_on(s@.skip(0), sep) =~= split_on(s@, sep));
    }
    loop
        invariant
            pos <= len,
            len == s@.len(),
            out.deep_view() + split_on(s@.skip(pos as int), sep) =~= split_on(s@, sep),
        decreases len - pos,
    {
        let ghost prev = out.deep_view();
        let ghost p0 = pos as int;
        let ghost rest = s@.skip(p0);
        // find the next separator
        let mut j = pos;
        while j < len
            invariant_except_break
                pos <= j <= len,
                len == s@.len(),
                forall|k: int| pos <= k < j ==> s@[k] != sep,
            ensures
                pos <= j <= len,
                len == s@.len(),
                forall|k: int| pos <= k < j ==> s@[k] != sep,
                j < len ==> s@[j as int] == sep,
            decreases len - j,
        {
            if s.get_char(j) == sep {
                break;
            }
            j += 1;
        }
        proof {
            assert forall|k: int| 0 <= k < j - p0 implies rest[k] != sep by {
                assert(s@[p0 + k] != sep);
            }
            if (j as int) - p0 < rest.len() {
                assert(rest[j - p0] == s@[j as int]);
            }
            lemma_find_char_is(rest, sep, j - p0);
        }
        let piece = s.substring_char(pos, j).to_owned();
        out.push(piece);
        if j == len {
            proof {
                assert(rest =~= s@.subrange(p0, j as int));
                assert(out.deep_view() =~= prev + seq![rest]);
                assert(split_on(rest, sep) =~= seq![rest]);
            }
            return out;
        }
        pos = j + 1;
        proof {
            assert(rest.take(j - p0) =~= s@.subrange(p0, j as int));
            assert(rest.skip(j - p0 + 1) =~= s@.skip(pos as int));
            assert(split_on(rest, sep) =~= seq![s@.subrange(p0, j as int)] + split_on(
                s@.skip(pos as int),
                sep,
            ));
            assert(out.deep_view() =~= prev + seq![s@.subrange(p0, j as int)]);
            assert(out.deep_view() + split_on(s@.skip(pos as int), sep) =~= split_on(s@, sep));
        }
    }
}

/// A character folded for case-insensitive comparison: ASCII letters are
/// lowered, every other character stands for itself.
pub open spec fn fold_char(c: char) -> u32 {
    if 65 <= c as u32 <= 90 {
        (c as u32 + 32) as u32
    } else {
        c as u32
    }
}

/// Case-insensitive character equality over ASCII letters.
pub open spec fn eq_ci(a: char, b: char) -> bool {
    fold_char(a) == fold_char(b)
}

/// Executable test for [`eq_ci`].
pub fn eq_ci_char(a: char, b: char) -> (r: bool)
    ensures
        r == eq_ci(a, b),
{
    let ua = a as u32;
    let ub = b as u32;
    let fa = if 65 <= ua && ua <= 90 {
        ua + 32
    } else {
        ua
    };
    let fb = if 65 <= ub && ub <= 90 {
        ub + 32
    } else {
        ub
    };
    fa == fb
}

/// Whether `needle` occurs at position `i` of `hay`, ignoring ASCII case.
pub open spec fn match_at_ci(hay: Seq<char>, needle: Seq<char>, i: int) -> bool {
    0 <= i && i + needle.len() <= hay.len() && forall|j: int|
        0 <= j < needle.len() ==> eq_ci(hay[i + j], needle[j])
}

/// Whether `needle` occurs anywhere in `hay`, ignoring ASCII case.
pub open spec fn contains_sub_ci(hay: Seq<char>, needle: Seq<char>) -> bool {
    exists|i: int| match_at_ci(hay, needle, i)
}

fn match_here_ci(hay: &str, needle: &str, i: usize) -> (r: bool)
    requires
        i + needle@.len() <= hay@.len(),
    ensures
        r == match_at_ci(hay@, needle@, i as int),
{
    let n_len = needle.unicode_len();
    let h_len = hay.unicode_len();
    let mut j: usize = 0;
    while j < n_len
        invariant
            j <= n_len,
            n_len == needle@.len(),
            h_len == hay@.len(),
            i + n_len <= hay@.len(),
            forall|k: int| 0 <= k < j ==> eq_ci(hay@[i + k], needle@[k]),
        decreases n_len - j,
    {
        if !eq_ci_char(hay.get_char(i + j), needle.get_char(j)) {
            return false;
        }
        j += 1;
    }
    true
}

/// Whether `needle` occurs anywhere in `hay`, ignoring ASCII case.
pub fn contains_str_ci(hay: &str, needle: &str) -> (r: bool)
    ensures
        r == contains_sub_ci(hay@, needle@),
{
    let h_len = hay.unicode_len();
    let n_len = needle.unicode_len();
    if n_len > h_len {
        return false;
    }
    if n_len == 0 {
        proof {
            assert(match_at_ci(hay@, needle@, 0));
        }
        return true;
    }
    let last = h_len - n_len;
    let mut i: usize = 0;
    while i <= last
        invariant
            i <= last + 1,
            last == h_len - n_len,
            1 <= n_len <= h_len,
            h_len == hay@.len(),
            n_len == needle@.len(),
            forall|j: int| 0 <= j < i ==> !match_at_ci(hay@, needle@, j),
        decreases h_len - i,
    {
        if match_here_ci(hay, needle, i) {
            return true;
        }
        i += 1;
    }
    false
}

/// Whether `c` is a decimal digit.
pub open spec fn is_digit(c: char) -> bool {
    48 <= c as u32 <= 57
}

/// The numeric value of a digit character.
pub open spec fn digit_val(c: char) -> int {
    c as u32 - 48
}

pub open spec fn all_digits(s: Seq<char>) -> bool {
    forall|i: int| 0 <= i < s.len() ==> is_digit(s[i])
}

/// The value of a digit string read in base ten.
pub open spec fn dec_value(s: Seq<char>) -> int
    decreases s.len(),
{
    if s.len() == 0 {
        0
    } else {
        dec_value(s.drop_last()) * 10 + digit_val(s.last())
    }
}

pub proof fn lemma_dec_value_nonneg(s: Seq<char>)
    requires
        all_digits(s),
    ensures
        dec_value(s) >= 0,
    decreases s.len(),
{
    if s.len() > 0 {
        assert(all_digits(s.drop_last()));
        lemma_dec_value_nonneg(s.drop_last());
    }
}

/// Reading more digits never makes the value smaller.
pub proof fn lemma_dec_value_prefix_le(s: Seq<char>, i: int)
    requires
        all_digits(s),
        0 <= i <= s.len(),
    ensures
        dec_value(s.take(i)) <= dec_value(s),
    decreases s.len() - i,
{
    if i < s.len() {
        lemma_dec_value_prefix_le(s, i + 1);
        let t = s.take(i + 1);
        assert(t.drop_last() =~= s.take(i));
        assert(all_digits(s.take(i)));
        lemma_dec_value_nonneg(s.take(i));
        assert(dec_value(t) == dec_value(s.take(i)) * 10 + digit_val(t.last()));
        assert(dec_value(s.take(i)) <= dec_value(s.take(i)) * 10) by (nonlinear_arith)
            requires dec_value(s.take(i)) >= 0;
    } else {
        assert(s.take(i) =~= s);
    }
}

/// Parses a string of decimal digits.
///
/// Returns the value exactly when the string is non-empty, all digits, and
/// the value fits in a `u64`.
pub fn parse_u64(s: &str) -> (r: Option<u64>)
    ensures
        match r {
            Option::Some(v) => s@.len() > 0 && all_digits(s@) && v == dec_value(s@),
            Option::None => s@.len() == 0 || !all_digits(s@) || dec_value(s@) > u64::MAX,
        },
{
    let len = s.unicode_len();
    if len == 0 {
        return None;
    }
    let mut v: u64 = 0;
    let mut i: usize = 0;
    while i < len
        invariant
            i <= len,
            len == s@.len(),
            all_digits(s@.take(i as int)),
            v == dec_value(s@.take(i as int)),
        decreases len - i,
    {
        let c = s.get_char(i);
        let u = c as u32;
        if u < 48 || u > 57 {
            assert(!all_digits(s@));
            return None;
        }
        let d = (u - 48) as u64;
        proof {
            assert(s@.take(i + 1).drop_last() =~= s@.take(i as int));
            assert(all_digits(s@.take(i + 1)));
        }
        if v > (u64::MAX - d) / 10 {
            proof {
                assert(v * 10 + d > u64::MAX) by (nonlinear_arith)
                    requires
                        v > (u64::MAX - d) / 10,
                        0 <= d <= 9,
                ;
                if all_digits(s@) {
                    lemma_dec_value_prefix_le(s@, i + 1);
                }
            }
            return None;
        }
        proof {
            assert(v * 10 + d <= u64::MAX) by (nonlinear_arith)
                requires
                    v <= (u64::MAX - d) / 10,
                    0 <= d <= 9,
            ;
        }
        v = v * 10 + d;
        i += 1;
    }
    proof {
        assert(s@.take(len as int) =~= s@);
    }
    Some(v)
}

/// The digit character of a value below ten.
pub open spec fn digit_char(d: int) -> char {
    if d == 0 {
        '0'
    } else if d == 1 {
        '1'
    } else if d == 2 {
        '2'
    } else if d == 3 {
        '3'
    } else if d == 4 {
        '4'
    } else if d == 5 {
        '5'
    } else if d == 6 {
        '6'
    } else if d == 7 {
        '7'
    } else if d == 8 {
        '8'
    } else {
        '9'
    }
}

/// The decimal rendering of `n`, most significant digit first.
pub open spec fn dec_str(n: nat) -> Seq<char>
    decreases n,
{
    if n < 10 {
        seq![digit_char(n as int)]
    } else {
        dec_str(n / 10) + seq![digit_char((n % 10) as int)]
    }
}

fn digit_to_char(d: u64) -> (c: char)
    requires
        d < 10,
    ensures
        c == digit_char(d as int),
{
    if d == 0 {
        '0'
    } else if d == 1 {
        '1'
    } else if d == 2 {
        '2'
    } else if d == 3 {
        '3'
    } else if d == 4 {
        '4'
    } else if d == 5 {
        '5'
    } else if d == 6 {
        '6'
    } else if d == 7 {
        '7'
    } else if d == 8 {
        '8'
    } else {
        '9'
    }
}

/// Renders `n` in decimal, as [`dec_str`] describes.
pub fn u64_to_string(n: u64) -> (r: String)
    ensures
        r@ == dec_str(n as nat),
    decreases n,
{
    if n < 10 {
        let mut s = String::new();
        push_char(&mut s, digit_to_char(n));
        proof {
            assert(s@ =~= dec_str(n as nat));
        }
        s
    } else {
        let mut s = u64_to_string(n / 10);
        push_char(&mut s, digit_to_char(n % 10));
        proof {
            assert(s@ =~= dec_str(n as nat));
        }
        s
    }
}

/// `s` with every occurrence of a backslash followed by `c` collapsed to
/// `c`, read left to right.
pub open spec fn unescape_spec(s: Seq<char>, c: char) -> Seq<char>
    decreases s.len(),
{
    if s.len() >= 2 && s[0] == '\\' && s[1] == c {
        seq![c] + unescape_spec(s.skip(2), c)
    } else if s.len() > 0 {
        seq![s[0]] + unescape_spec(s.drop_first(), c)
    } else {
        Seq::empty()
    }
}

/// Collapses `\c` pairs, as [`unescape_spec`] describes.
pub fn unescape(s: &str, c: char) -> (r: String)
    ensures
        r@ == unescape_spec(s@, c),
{
    let len = s.unicode_len();
    let mut out = String::new();
    let mut pos: usize = 0;
    proof {
        assert(s@.skip(0) =~= s@);
        assert(out@ + unescape_spec(s@.skip(0), c) =~= unescape_spec(s@, c));
    }
    while pos < len
        invariant
            pos <= len,
            len == s@.len(),
            out@ + unescape_spec(s@.skip(pos as int), c) =~= unescape_spec(s@, c),
        decreases len - pos,
    {
        let ghost rest = s@.skip(pos as int);
        let ch = s.get_char(pos);
        if ch == '\\' && pos + 1 < len && s.get_char(pos + 1) == c {
            push_char(&mut out, c);
            proof {
                assert(rest.skip(2) =~= s@.skip(pos + 2));
                assert(out@ + unescape_spec(s@.skip(pos + 2), c) =~= unescape_spec(s@, c));
            }
            pos += 2;
        } else {
            push_char(&mut out, ch);
            proof {
                assert(rest[0] == ch);
                if rest.len() >= 2 && rest[0] == '\\' && rest[1] == c {
                    assert(false);
                }
                assert(rest.drop_first() =~= s@.skip(pos + 1));
                assert(out@ + unescape_spec(s@.skip(pos + 1), c) =~= unescape_spec(s@, c));
            }
            pos += 1;
        }
    }
    proof {
        assert(s@.skip(len as int) =~= Seq::<char>::empty());
        assert(out@ =~= unescape_spec(s@, c));
    }
    out
}

} // verus!
