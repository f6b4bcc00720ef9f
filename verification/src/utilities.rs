//! Output comparison and command-line tokenization.

use vstd::prelude::*;
use vstd::string::StrSliceExecFns;

use crate::text::{is_ws, is_ws_char, lines_spec, push_char, same_lines, split_lines, str_eq, trim_spec, trim_ws};

pub mod commands;
pub mod filter;

verus! {

/// Compares two outputs line by line: equal exactly when they split into the
/// same lines, so `\n`, `\r\n` and a trailing newline do not matter.
pub fn is_equal_ignore_new_line_sequence(lhs: &str, rhs: &str) -> (r: bool)
    ensures
        r == same_lines(lhs@, rhs@),
{
    let lhs_lines = split_lines(lhs);
    let rhs_lines = split_lines(rhs);
    if lhs_lines.len() != rhs_lines.len() {
        assert(lhs_lines.deep_view().len() != rhs_lines.deep_view().len());
        return false;
    }
    let mut i: usize = 0;
    while i < lhs_lines.len()
        invariant
            i <= lhs_lines.deep_view().len(),
            lhs_lines.deep_view().len() == rhs_lines.deep_view().len(),
            lhs_lines.deep_view() == lines_spec(lhs@),
            rhs_lines.deep_view() == lines_spec(rhs@),
            forall|j: int| 0 <= j < i ==> lhs_lines.deep_view()[j] == rhs_lines.deep_view()[j],
        decreases lhs_lines.len() - i,
    {
        if !str_eq(lhs_lines[i].as_str(), rhs_lines[i].as_str()) {
            assert(lines_spec(lhs@)[i as int] != lines_spec(rhs@)[i as int]);
            return false;
        }
        i += 1;
    }
    proof {
        assert(lines_spec(lhs@) =~= lines_spec(rhs@));
    }
    true
}

/// Comparing any text with itself succeeds: the comparison is reflexive.
pub proof fn lemma_compare_reflexive(s: Seq<char>)
    ensures
        same_lines(s, s),
{
}

/// The comparison ignores line-ending variation: a text without carriage
/// returns compares equal to the same text with every newline written as
/// `\r\n`.
pub proof fn lemma_compare_ignores_crlf(s: Seq<char>)
    requires
        forall|k: int| 0 <= k < s.len() ==> s[k] != '\r',
    ensures
        same_lines(crate::text::crlf_of(s), s),
{
    crate::text::lemma_lines_ignore_crlf(s);
}

/// Whether a file extension marks a specification file: the closed set of
/// recognised extensions.
pub fn is_specification_extension(ext: &str) -> (r: bool)
    ensures
        r == (ext@ == ("md"@) || ext@ == ("mdspec"@)),
{
    str_eq(ext, "md") || str_eq(ext, "mdspec")
}

/// Whether an interactive reply asks to stop the whole run.
pub fn is_exit_command(input: &str) -> (r: bool)
    ensures
        r == (trim_spec(input@) == ("exit"@) || trim_spec(input@) == ("e"@) || trim_spec(input@)
            == ("quit"@) || trim_spec(input@) == ("q"@)),
{
    let t = trim_ws(input);
    str_eq(t.as_str(), "exit") || str_eq(t.as_str(), "e") || str_eq(t.as_str(), "quit") || str_eq(
        t.as_str(),
        "q",
    )
}

/// The characters that end a plain token or open a quoted one.
pub open spec fn is_sep(c: char) -> bool {
    c == ' ' || c == '\'' || c == '"'
}

/// First separator at or after `from`, or the length of `s`.
pub open spec fn find_sep(s: Seq<char>, from: int) -> int
    decreases s.len() - from,
{
    if from < 0 || from >= s.len() {
        s.len() as int
    } else if is_sep(s[from]) {
        from
    } else {
        find_sep(s, from + 1)
    }
}

pub proof fn lemma_find_sep_props(s: Seq<char>, from: int)
    requires
        0 <= from <= s.len(),
    ensures
        from <= find_sep(s, from) <= s.len(),
        forall|k: int| from <= k < find_sep(s, from) ==> !is_sep(s[k]),
        find_sep(s, from) < s.len() ==> is_sep(s[find_sep(s, from)]),
    decreases s.len() - from,
{
    if from < s.len() && !is_sep(s[from]) {
        lemma_find_sep_props(s, from + 1);
    }
}

/// Whether position `k` of `rest` closes a quote of kind `q`: the quote
/// character not preceded by a backslash.
pub open spec fn closes_at(rest: Seq<char>, q: char, k: int) -> bool {
    0 <= k < rest.len() && rest[k] == q && (k == 0 || rest[k - 1] != '\\')
}

/// First closing quote `q` at or after `from` that is not preceded by a
/// backslash, or `-1` when the quote is never closed.
pub open spec fn find_close(rest: Seq<char>, q: char, from: int) -> int
    decreases rest.len() - from,
{
    if from < 0 || from >= rest.len() {
        -1
    } else if closes_at(rest, q, from) {
        from
    } else {
        find_close(rest, q, from + 1)
    }
}

pub proof fn lemma_find_close_props(rest: Seq<char>, q: char, from: int)
    requires
        0 <= from <= rest.len(),
    ensures
        find_close(rest, q, from) == -1 || from <= find_close(rest, q, from) < rest.len(),
        find_close(rest, q, from) >= 0 ==> closes_at(rest, q, find_close(rest, q, from)),
        find_close(rest, q, from) == -1 ==> forall|k: int|
            from <= k < rest.len() ==> !#[trigger] closes_at(rest, q, k),
        forall|k: int|
            from <= k < find_close(rest, q, from) ==> !#[trigger] closes_at(rest, q, k),
    decreases rest.len() - from,
{
    if 0 <= from < rest.len() && !closes_at(rest, q, from) {
        lemma_find_close_props(rest, q, from + 1);
    }
}

/// First non-whitespace character at or after `from`, or the length of `s`.
pub open spec fn find_non_ws(s: Seq<char>, from: int) -> int
    decreases s.len() - from,
{
    if from < 0 || from >= s.len() {
        s.len() as int
    } else if !is_ws(s[from]) {
        from
    } else {
        find_non_ws(s, from + 1)
    }
}

pub proof fn lemma_find_non_ws_props(s: Seq<char>, from: int)
    requires
        0 <= from <= s.len(),
    ensures
        from <= find_non_ws(s, from) <= s.len(),
    decreases s.len() - from,
{
    if from < s.len() && is_ws(s[from]) {
        lemma_find_non_ws_props(s, from + 1);
    }
}

/// `s` with every backslash removed, as quoted tokens are emitted.
pub open spec fn strip_bs(s: Seq<char>) -> Seq<char>
    decreases s.len(),
{
    if s.len() == 0 {
        Seq::empty()
    } else if s[0] == '\\' {
        strip_bs(s.drop_first())
    } else {
        seq![s[0]] + strip_bs(s.drop_first())
    }
}

/// What one call of [`ArgumentIter::next`] does from position `last`.
pub ghost enum TokenStep {
    /// The input is exhausted.
    Done,
    /// A token, and the position where the next scan starts.
    Token(Seq<char>, int),
    /// A quote was opened and never closed.
    Unterminated,
}

/// One tokenization step: a plain token runs to the next space and is
/// trimmed; a quote opens a token closed by the first unescaped quote of the
/// same kind, whose backslashes are removed and whose trailing whitespace is
/// skipped; the final separator-free tail is emitted as it stands.
pub open spec fn next_token_spec(s: Seq<char>, last: int) -> TokenStep {
    if last >= s.len() {
        TokenStep::Done
    } else {
        let i = find_sep(s, last);
        if i == s.len() {
            TokenStep::Token(s.skip(last), s.len() as int)
        } else if s[i] == ' ' {
            TokenStep::Token(trim_spec(s.subrange(last, i)), i + 1)
        } else {
            let rest = s.skip(last + 1);
            let j = find_close(rest, s[i], 0);
            if j < 0 {
                TokenStep::Unterminated
            } else {
                let after = if i + j + 2 <= s.len() {
                    i + j + 2
                } else {
                    s.len() as int
                };
                TokenStep::Token(strip_bs(rest.take(j)), find_non_ws(s, after))
            }
        }
    }
}

#[via_fn]
proof fn tokens_spec_decreases(s: Seq<char>, last: int) {
    if 0 <= last < s.len() {
        lemma_find_sep_props(s, last);
        let i = find_sep(s, last);
        if i < s.len() && s[i] != ' ' {
            let rest = s.skip(last + 1);
            lemma_find_close_props(rest, s[i], 0);
            let j = find_close(rest, s[i], 0);
            if j >= 0 {
                let after = if i + j + 2 <= s.len() {
                    i + j + 2
                } else {
                    s.len() as int
                };
                lemma_find_non_ws_props(s, after);
            }
        }
    }
}

/// The full token list of `s` from position `last`, or `None` when a quoted
/// token is unterminated.
pub open spec fn tokens_spec(s: Seq<char>, last: int) -> Option<Seq<Seq<char>>>
    decreases s.len() - last,
        via tokens_spec_decreases
{
    match next_token_spec(s, last) {
        TokenStep::Done => Option::Some(Seq::empty()),
        TokenStep::Token(t, l) => match tokens_spec(s, l) {
            Option::Some(rest) => Option::Some(seq![t] + rest),
            Option::None => Option::None,
        },
        TokenStep::Unterminated => Option::None,
    }
}

/// The token list of a whole command string.
pub open spec fn arguments_spec(s: Seq<char>) -> Option<Seq<Seq<char>>> {
    tokens_spec(s, 0)
}

/// The condition reported for a quoted token with no terminating quote.
#[derive(Debug, PartialEq, Eq, Clone, Copy)]
pub enum TokenizeError {
    UnterminatedQuote,
}

/// Splits a command string into argument tokens.
///
/// Spaces separate tokens; single or double quotes open a token that runs to
/// the matching unescaped quote, with backslashes removed on emission.
pub struct ArgumentIter {
    on: String,
    last: usize,
}

impl ArgumentIter {
    /// The command string being tokenized.
    pub closed spec fn src(&self) -> Seq<char> {
        self.on@
    }

    /// The current scan position.
    pub closed spec fn pos(&self) -> int {
        self.last as int
    }

    pub fn new(on: &str) -> (r: Self)
        ensures
            r.src() == on@,
            r.pos() == 0,
    {
        Self { on: on.to_owned(), last: 0 }
    }

    /// The next token, an error for an unterminated quote, or `None` at the
    /// end of the input.
    pub fn next(&mut self) -> (r: Option<Result<String, TokenizeError>>)
        ensures
            final(self).src() == old(self).src(),
            match next_token_spec(old(self).src(), old(self).pos()) {
                TokenStep::Done => r is None && final(self).pos() == old(self).pos(),
                TokenStep::Token(t, l) => {
                    &&& r matches Option::Some(Result::Ok(tok)) && tok@ == t
                    &&& final(self).pos() == l
                },
                TokenStep::Unterminated => r matches Option::Some(Result::Err(
                    TokenizeError::UnterminatedQuote,
                )),
            },
    {
        let len = self.on.as_str().unicode_len();
        let start = self.last;
        if start >= len {
            return None;
        }
        let i = scan_sep(self.on.as_str(), start);
        if i == len {
            // final token: no separator follows
            self.last = len;
            let tail = self.on.as_str().substring_char(start, len).to_owned();
            proof {
                assert(tail@ =~= self.on@.skip(start as int));
            }
            return Some(Ok(tail));
        }
        let sep = self.on.as_str().get_char(i);
        if sep == ' ' {
            self.last = i + 1;
            let tok = trim_ws(self.on.as_str().substring_char(start, i));
            return Some(Ok(tok));
        }
        // quoted token: find the first unescaped closing quote
        let rest_start = start + 1;
        let ghost rest = self.on@.skip(start + 1);
        match scan_close(self.on.as_str(), rest_start, sep) {
            None => Some(Err(TokenizeError::UnterminatedQuote)),
            Some(j) => {
                // emit the quoted content with backslashes removed
                let tok = copy_strip_bs(self.on.as_str(), rest_start, rest_start + j);
                proof {
                    assert(self.on@.subrange(rest_start as int, rest_start + j) =~= rest.take(
                        j as int,
                    ));
                }
                // step past the closing quote, then past following whitespace
                let after = if j + 2 <= len - i {
                    i + j + 2
                } else {
                    len
                };
                let l = scan_ws_end(self.on.as_str(), after);
                self.last = l;
                Some(Ok(tok))
            },
        }
    }
}

/// The position of the first separator at or after `from`.
fn scan_sep(s: &str, from: usize) -> (i: usize)
    requires
        from <= s@.len(),
    ensures
        i == find_sep(s@, from as int),
        from <= i <= s@.len(),
        i < s@.len() ==> is_sep(s@[i as int]),
{
    let len = s.unicode_len();
    let mut i = from;
    while i < len
        invariant
            from <= i <= len,
            len == s@.len(),
            forall|k: int| from <= k < i ==> !is_sep(s@[k]),
        decreases len - i,
    {
        let c = s.get_char(i);
        if c == ' ' || c == '\'' || c == '"' {
            proof {
                lemma_find_sep_at(s@, from as int, i as int);
            }
            return i;
        }
        i += 1;
    }
    proof {
        lemma_find_sep_at(s@, from as int, len as int);
    }
    len
}

/// `find_sep` is pinned down by the facts the scan establishes.
proof fn lemma_find_sep_at(s: Seq<char>, from: int, i: int)
    requires
        0 <= from <= i <= s.len(),
        forall|k: int| from <= k < i ==> !is_sep(s[k]),
        i < s.len() ==> is_sep(s[i]),
    ensures
        find_sep(s, from) == i,
    decreases i - from,
{
    if from < i {
        lemma_find_sep_at(s, from + 1, i);
    }
}

/// The first unescaped occurrence of the quote `q` at or after `rest_start`,
/// as an offset from `rest_start`; `None` when there is none.
fn scan_close(s: &str, rest_start: usize, q: char) -> (r: Option<usize>)
    requires
        1 <= rest_start <= s@.len(),
    ensures
        match r {
            Option::Some(j) => j == find_close(s@.skip(rest_start as int), q, 0) && j + rest_start
                < s@.len(),
            Option::None => find_close(s@.skip(rest_start as int), q, 0) == -1,
        },
{
    let ghost rest = s@.skip(rest_start as int);
    let len = s.unicode_len();
    let rest_len = len - rest_start;
    let mut j: usize = 0;
    while j < rest_len
        invariant
            0 <= j <= rest_len,
            rest_start + rest_len == len,
            len == s@.len(),
            rest == s@.skip(rest_start as int),
            rest.len() == rest_len,
            forall|k: int| 0 <= k < j ==> !#[trigger] closes_at(rest, q, k),
        decreases rest_len - j,
    {
        let c = s.get_char(rest_start + j);
        proof {
            assert(rest[j as int] == s@[rest_start + j]);
            if j > 0 {
                assert(rest[j as int - 1] == s@[rest_start + j - 1]);
            }
        }
        if c == q && (j == 0 || s.get_char(rest_start + j - 1) != '\\') {
            proof {
                assert(closes_at(rest, q, j as int));
                lemma_find_close_at(rest, q, 0, j as int);
            }
            return Some(j);
        }
        proof {
            assert(!closes_at(rest, q, j as int));
        }
        j += 1;
    }
    proof {
        lemma_find_close_props(rest, q, 0);
        if find_close(rest, q, 0) >= 0 {
            assert(closes_at(rest, q, find_close(rest, q, 0)));
        }
    }
    None
}

/// `find_close` is pinned down by the facts the scan establishes.
proof fn lemma_find_close_at(rest: Seq<char>, q: char, from: int, j: int)
    requires
        0 <= from <= j < rest.len(),
        forall|k: int| from <= k < j ==> !#[trigger] closes_at(rest, q, k),
        closes_at(rest, q, j),
    ensures
        find_close(rest, q, from) == j,
    decreases j - from,
{
    if from < j {
        lemma_find_close_at(rest, q, from + 1, j);
    }
}

/// Copies `s[from..to]` leaving out every backslash.
fn copy_strip_bs(s: &str, from: usize, to: usize) -> (tok: String)
    requires
        from <= to <= s@.len(),
    ensures
        tok@ == strip_bs(s@.subrange(from as int, to as int)),
{
    let ghost content = s@.subrange(from as int, to as int);
    let mut tok = String::new();
    let mut k = from;
    proof {
        assert(content.skip(0) =~= content);
        assert(tok@ + strip_bs(content.skip(k - from)) =~= strip_bs(content));
    }
    while k < to
        invariant
            from <= k <= to,
            to <= s@.len(),
            content == s@.subrange(from as int, to as int),
            tok@ + strip_bs(content.skip(k - from)) =~= strip_bs(content),
        decreases to - k,
    {
        let ghost piece = content.skip(k - from);
        let c = s.get_char(k);
        proof {
            assert(piece[0] == content[k - from]);
            assert(content[k - from] == s@[k as int]);
            assert(piece.drop_first() =~= content.skip(k + 1 - from));
        }
        if c != '\\' {
            push_char(&mut tok, c);
        }
        k += 1;
    }
    proof {
        assert(content.skip(to - from) =~= Seq::<char>::empty());
        assert(tok@ =~= strip_bs(content));
    }
    tok
}

/// The position of the first non-whitespace character at or after `from`.
fn scan_ws_end(s: &str, from: usize) -> (l: usize)
    requires
        from <= s@.len(),
    ensures
        l == find_non_ws(s@, from as int),
        from <= l <= s@.len(),
{
    let len = s.unicode_len();
    let mut l = from;
    while l < len
        invariant
            from <= l <= len,
            len == s@.len(),
            forall|k: int| from <= k < l ==> is_ws(s@[k]),
        decreases len - l,
    {
        if !is_ws_char(s.get_char(l)) {
            proof {
                lemma_find_non_ws_after(s@, from as int, l as int);
            }
            return l;
        }
        l += 1;
    }
    proof {
        lemma_find_non_ws_after(s@, from as int, len as int);
    }
    len
}

/// `find_non_ws` is pinned down by the facts the scan establishes.
pub proof fn lemma_find_non_ws_after(s: Seq<char>, from: int, l: int)
    requires
        0 <= from <= l <= s.len(),
        forall|k: int| from <= k < l ==> is_ws(s[k]),
        l < s.len() ==> !is_ws(s[l]),
    ensures
        find_non_ws(s, from) == l,
    decreases l - from,
{
    if from < l {
        lemma_find_non_ws_after(s, from + 1, l);
    }
}

/// A token that needs no quoting: non-empty, with no separator and no
/// whitespace character.
pub open spec fn plain_token(t: Seq<char>) -> bool {
    t.len() > 0 && forall|k: int| 0 <= k < t.len() ==> !is_sep(#[trigger] t[k]) && !is_ws(t[k])
}

/// `t` with a backslash inserted before every double quote.
pub open spec fn escape_quotes(t: Seq<char>) -> Seq<char>
    decreases t.len(),
{
    if t.len() == 0 {
        Seq::empty()
    } else if t[0] == '"' {
        seq!['\\', '"'] + escape_quotes(t.drop_first())
    } else {
        seq![t[0]] + escape_quotes(t.drop_first())
    }
}

/// A token quoted where needed: a plain token stands as it is, any other
/// token is wrapped in double quotes with its quotes escaped.
pub open spec fn requote(t: Seq<char>) -> Seq<char> {
    if plain_token(t) {
        t
    } else {
        seq!['"'] + escape_quotes(t) + seq!['"']
    }
}

/// The requoted tokens joined with single spaces.
pub open spec fn join_requoted(tokens: Seq<Seq<char>>) -> Seq<char>
    decreases tokens.len(),
{
    if tokens.len() == 0 {
        Seq::empty()
    } else if tokens.len() == 1 {
        requote(tokens[0])
    } else {
        requote(tokens[0]) + seq![' '] + join_requoted(tokens.drop_first())
    }
}

/// A token the quoting scheme can carry: one without backslashes, which
/// quoted emission always removes.
pub open spec fn token_ok(t: Seq<char>) -> bool {
    forall|k: int| 0 <= k < t.len() ==> #[trigger] t[k] != '\\'
}

/// In an escaped token every double quote follows a backslash, and the
/// text never ends in a backslash.
proof fn lemma_escape_quotes_props(t: Seq<char>)
    requires
        token_ok(t),
    ensures
        escape_quotes(t).len() >= t.len(),
        forall|j: int|
            0 <= j < escape_quotes(t).len() && #[trigger] escape_quotes(t)[j] == '"' ==> j > 0
                && escape_quotes(t)[j - 1] == '\\',
        t.len() > 0 ==> escape_quotes(t).len() > 0 && escape_quotes(t).last() != '\\',
    decreases t.len(),
{
    if t.len() > 0 {
        let e = escape_quotes(t);
        let e2 = escape_quotes(t.drop_first());
        assert(token_ok(t.drop_first())) by {
            assert forall|k: int| 0 <= k < t.drop_first().len() implies #[trigger] t.drop_first()[k]
                != '\\' by {
                assert(t[k + 1] != '\\');
            }
        }
        lemma_escape_quotes_props(t.drop_first());
        let h: int = if t[0] == '"' {
            2
        } else {
            1
        };
        assert forall|j: int| 0 <= j < e.len() && #[trigger] e[j] == '"' implies j > 0 && e[j - 1]
            == '\\' by {
            if j >= h {
                assert(e[j] == e2[j - h]);
                assert(j - h > 0 && e2[j - h - 1] == '\\');
                assert(e[j - 1] == e2[j - h - 1]);
            }
        }
        if t.len() == 1 {
            assert(e.last() != '\\');
        } else {
            assert(e.last() == e2.last());
        }
    }
}

/// Removing backslashes undoes quote escaping on a backslash-free token.
proof fn lemma_strip_escape(t: Seq<char>)
    requires
        token_ok(t),
    ensures
        strip_bs(escape_quotes(t)) == t,
    decreases t.len(),
{
    if t.len() == 0 {
        assert(strip_bs(escape_quotes(t)) =~= t);
    } else {
        assert(token_ok(t.drop_first())) by {
            assert forall|k: int| 0 <= k < t.drop_first().len() implies #[trigger] t.drop_first()[k]
                != '\\' by {
                assert(t[k + 1] != '\\');
            }
        }
        lemma_strip_escape(t.drop_first());
        let e = escape_quotes(t);
        let e2 = escape_quotes(t.drop_first());
        if t[0] == '"' {
            assert(e.drop_first() =~= seq!['"'] + e2);
            assert((seq!['"'] + e2).drop_first() =~= e2);
            assert(strip_bs(e) == strip_bs(seq!['"'] + e2));
            assert((seq!['"'] + e2)[0] == '"');
            assert(strip_bs(seq!['"'] + e2) == seq!['"'] + strip_bs(e2));
            assert(seq!['"'] + t.drop_first() =~= t);
            assert(strip_bs(e) =~= t);
        } else {
            assert(e.drop_first() =~= e2);
            assert(strip_bs(e) =~= t);
        }
    }
}

/// Scanning for a separator from an offset of the suffix finds the same
/// separator.
proof fn lemma_find_sep_shift(s: Seq<char>, c: int, p: int)
    requires
        0 <= c <= p <= s.len(),
    ensures
        find_sep(s, p) == c + find_sep(s.skip(c), p - c),
    decreases s.len() - p,
{
    if p < s.len() {
        assert(s.skip(c)[p - c] == s[p]);
        if !is_sep(s[p]) {
            lemma_find_sep_shift(s, c, p + 1);
        }
    }
}

/// Scanning for non-whitespace from an offset of the suffix finds the
/// same position.
proof fn lemma_find_non_ws_shift(s: Seq<char>, c: int, p: int)
    requires
        0 <= c <= p <= s.len(),
    ensures
        find_non_ws(s, p) == c + find_non_ws(s.skip(c), p - c),
    decreases s.len() - p,
{
    if p < s.len() {
        assert(s.skip(c)[p - c] == s[p]);
        if is_ws(s[p]) {
            lemma_find_non_ws_shift(s, c, p + 1);
        }
    }
}

/// One token step reads the same token at the same relative position in a
/// suffix of the input.
proof fn lemma_next_token_shift(s: Seq<char>, c: int, p: int)
    requires
        0 <= c <= p <= s.len(),
    ensures
        ({
            let whole = next_token_spec(s, p);
            let part = next_token_spec(s.skip(c), p - c);
            match part {
                TokenStep::Done => whole is Done,
                TokenStep::Token(t, l) => whole == TokenStep::Token(t, l + c),
                TokenStep::Unterminated => whole is Unterminated,
            }
        }),
{
    let sub = s.skip(c);
    if p < s.len() {
        lemma_find_sep_shift(s, c, p);
        lemma_find_sep_props(s, p);
        let i = find_sep(s, p);
        if i == s.len() {
            assert(sub.skip(p - c) =~= s.skip(p));
        } else {
            assert(sub[i - c] == s[i]);
            if s[i] == ' ' {
                assert(sub.subrange(p - c, i - c) =~= s.subrange(p, i));
            } else {
                assert(sub.skip(p - c + 1) =~= s.skip(p + 1));
                let rest = s.skip(p + 1);
                lemma_find_close_props(rest, s[i], 0);
                let j = find_close(rest, s[i], 0);
                if j >= 0 {
                    let after_whole = if i + j + 2 <= s.len() {
                        i + j + 2
                    } else {
                        s.len() as int
                    };
                    let after_part = if (i - c) + j + 2 <= sub.len() {
                        (i - c) + j + 2
                    } else {
                        sub.len() as int
                    };
                    assert(after_whole == after_part + c);
                    lemma_find_non_ws_shift(s, c, after_whole);
                }
            }
        }
    }
}

/// The token list from a position is the token list of the suffix there.
proof fn lemma_tokens_shift(s: Seq<char>, c: int, p: int)
    requires
        0 <= c <= p <= s.len(),
    ensures
        tokens_spec(s, p) == tokens_spec(s.skip(c), p - c),
    decreases s.len() - p,
{
    lemma_next_token_shift(s, c, p);
    lemma_next_token_bounds(s, p);
    match next_token_spec(s.skip(c), p - c) {
        TokenStep::Done => {},
        TokenStep::Token(t, l) => {
            lemma_tokens_shift(s, c, l + c);
        },
        TokenStep::Unterminated => {},
    }
}

/// A plain token is already trimmed.
proof fn lemma_trim_plain(t: Seq<char>)
    requires
        plain_token(t),
    ensures
        trim_spec(t) == t,
{
    assert(!is_ws(t.last()));
    assert(!is_ws(t.first()));
}

/// A requoted token never begins with whitespace.
proof fn lemma_requote_head_not_ws(t: Seq<char>)
    ensures
        requote(t).len() > 0,
        !is_ws(requote(t)[0]),
{
    if plain_token(t) {
        assert(!is_ws(t[0]));
    } else {
        assert(requote(t)[0] == '"');
    }
}

/// The argument tokenizer round-trips: requoting a token list and joining
/// it with single spaces yields a command string that tokenizes back to
/// exactly that list. Tokens containing backslashes are left out: quoted
/// emission removes every backslash, so no quoting scheme can carry them.
pub proof fn lemma_tokenizer_round_trip(tokens: Seq<Seq<char>>)
    requires
        forall|i: int| 0 <= i < tokens.len() ==> token_ok(#[trigger] tokens[i]),
    ensures
        arguments_spec(join_requoted(tokens)) == Option::Some(tokens),
    decreases tokens.len(),
{
    let s = join_requoted(tokens);
    if tokens.len() == 0 {
        assert(tokens_spec(s, 0) == Option::Some(Seq::<Seq<char>>::empty()));
        assert(Seq::<Seq<char>>::empty() =~~= tokens);
    } else {
        let t = tokens[0];
        let rest_tokens = tokens.drop_first();
        let r = requote(t);
        lemma_requote_head_not_ws(t);
        // the joined string is the requoted head, then a space and the rest
        if tokens.len() == 1 {
            assert(s == r);
        } else {
            assert(s == r + seq![' '] + join_requoted(rest_tokens));
        }
        lemma_tokenizer_round_trip(rest_tokens);
        if plain_token(t) {
            // the head token is read to the separating space or the end
            assert forall|k: int| 0 <= k < t.len() implies !is_sep(s[k]) by {
                assert(s[k] == t[k]);
            }
            if tokens.len() == 1 {
                lemma_find_sep_at(s, 0, s.len() as int);
                assert(s.skip(0) =~= t);
                assert(next_token_spec(s, 0) == TokenStep::Token(t, s.len() as int));
                assert(tokens_spec(s, s.len() as int) == Option::Some(Seq::<Seq<char>>::empty()));
                assert(seq![t] + Seq::<Seq<char>>::empty() =~~= tokens);
            } else {
                assert(s[t.len() as int] == ' ');
                lemma_find_sep_at(s, 0, t.len() as int);
                assert(s.subrange(0, t.len() as int) =~= t);
                lemma_trim_plain(t);
                assert(next_token_spec(s, 0) == TokenStep::Token(t, t.len() as int + 1));
                lemma_tokens_shift(s, t.len() as int + 1, t.len() as int + 1);
                assert(s.skip(t.len() as int + 1) =~= join_requoted(rest_tokens));
                assert(seq![t] + rest_tokens =~~= tokens);
            }
        } else {
            // the head token is quoted: its first unescaped quote closes it
            let e = escape_quotes(t);
            let m = e.len() as int;
            lemma_escape_quotes_props(t);
            lemma_strip_escape(t);
            assert(s[0] == '"');
            lemma_find_sep_at(s, 0, 0);
            let rest_s = s.skip(1);
            assert forall|k: int| 0 <= k < m implies rest_s[k] == e[k] by {
                assert(s[k + 1] == e[k]);
            }
            assert(rest_s[m] == '"') by {
                assert(s[m + 1] == '"');
            }
            assert forall|k: int| 0 <= k < m implies !#[trigger] closes_at(rest_s, '"', k) by {
                if rest_s[k] == '"' {
                    assert(e[k] == '"');
                    assert(k > 0 && e[k - 1] == '\\');
                    assert(rest_s[k - 1] == '\\');
                }
            }
            assert(closes_at(rest_s, '"', m)) by {
                if m > 0 {
                    assert(rest_s[m - 1] == e[m - 1]);
                    assert(e.last() != '\\');
                }
            }
            lemma_find_close_at(rest_s, '"', 0, m);
            assert(rest_s.take(m) =~= e);
            let after = if 0 + m + 2 <= s.len() {
                m + 2
            } else {
                s.len() as int
            };
            if tokens.len() == 1 {
                assert(s.len() == m + 2);
                assert(after == m + 2);
                lemma_find_non_ws_after(s, after, s.len() as int);
                assert(next_token_spec(s, 0) == TokenStep::Token(t, s.len() as int));
                assert(tokens_spec(s, s.len() as int) == Option::Some(Seq::<Seq<char>>::empty()));
                assert(seq![t] + Seq::<Seq<char>>::empty() =~~= tokens);
            } else {
                let tail = join_requoted(rest_tokens);
                lemma_requote_head_not_ws(rest_tokens[0]);
                assert(tail.len() > 0 && !is_ws(tail[0])) by {
                    if rest_tokens.len() == 1 {
                        assert(tail == requote(rest_tokens[0]));
                    } else {
                        assert(tail == requote(rest_tokens[0]) + seq![' '] + join_requoted(
                            rest_tokens.drop_first(),
                        ));
                        assert(tail[0] == requote(rest_tokens[0])[0]);
                    }
                }
                assert(s.len() == m + 3 + tail.len());
                assert(after == m + 2);
                assert(s[m + 2] == ' ');
                assert(s[m + 3] == tail[0]);
                lemma_find_non_ws_after(s, m + 2, m + 3);
                assert(next_token_spec(s, 0) == TokenStep::Token(t, m + 3));
                lemma_tokens_shift(s, m + 3, m + 3);
                assert(s.skip(m + 3) =~= tail);
                assert(seq![t] + rest_tokens =~~= tokens);
            }
        }
    }
}

/// A token step always advances the scan position, and never past the end.
pub proof fn lemma_next_token_bounds(s: Seq<char>, last: int)
    requires
        0 <= last <= s.len(),
    ensures
        next_token_spec(s, last) matches TokenStep::Token(t, l) ==> last < l <= s.len(),
{
    if last < s.len() {
        lemma_find_sep_props(s, last);
        let i = find_sep(s, last);
        if i < s.len() && s[i] != ' ' {
            let rest = s.skip(last + 1);
            lemma_find_close_props(rest, s[i], 0);
            let j = find_close(rest, s[i], 0);
            if j >= 0 {
                let after = if i + j + 2 <= s.len() {
                    i + j + 2
                } else {
                    s.len() as int
                };
                lemma_find_non_ws_props(s, after);
            }
        }
    }
}

/// Splits a whole command string into its argument tokens, or reports the
/// unterminated quote.
pub fn split_arguments(s: &str) -> (r: Result<Vec<String>, TokenizeError>)
    ensures
        match r {
            Result::Ok(v) => Option::Some(v.deep_view()) == arguments_spec(s@),
            Result::Err(_) => arguments_spec(s@) is None,
        },
{
    let mut iter = ArgumentIter::new(s);
    let mut out: Vec<String> = Vec::new();
    proof {
        assert(out.deep_view() =~= Seq::<Seq<char>>::empty());
    }
    loop
        invariant
            iter.src() == s@,
            0 <= iter.pos() <= s@.len(),
            match tokens_spec(s@, iter.pos()) {
                Option::Some(rest) => arguments_spec(s@) == Option::Some(out.deep_view() + rest),
                Option::None => arguments_spec(s@) is None,
            },
        decreases s@.len() - iter.pos(),
    {
        let ghost pos0 = iter.pos();
        let ghost prev = out.deep_view();
        match iter.next() {
            None => {
                proof {
                    assert(tokens_spec(s@, pos0) == Option::Some(Seq::<Seq<char>>::empty()));
                    assert(out.deep_view() + Seq::<Seq<char>>::empty() =~= out.deep_view());
                }
                return Ok(out);
            },
            Some(Ok(tok)) => {
                out.push(tok);
                proof {
                    lemma_next_token_bounds(s@, pos0);
                    match next_token_spec(s@, pos0) {
                        TokenStep::Token(t, l) => {
                            assert(out.deep_view() =~= prev.push(t));
                            match tokens_spec(s@, l) {
                                Option::Some(rest) => {
                                    assert(prev + (seq![t] + rest) =~= out.deep_view() + rest);
                                },
                                Option::None => {},
                            }
                        },
                        _ => {},
                    }
                }
            },
            Some(Err(e)) => {
                return Err(e);
            },
        }
    }
}

} // verus!
