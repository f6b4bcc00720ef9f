//! Rendering extracted tests as JSON for the listing front-end.

use vstd::prelude::*;
use vstd::string::{StrSliceExecFns, StringExecFns};

use crate::text::push_char;
use crate::Test;

verus! {

/// A text as the contents of a JSON string literal: quotes and backslashes
/// escaped, newlines, carriage returns and tabs as their two-character
/// escapes, every other character as itself.
pub open spec fn json_escape_spec(s: Seq<char>) -> Seq<char>
    decreases s.len(),
{
    if s.len() == 0 {
        Seq::empty()
    } else {
        let head = if s[0] == '"' {
            seq!['\\', '"']
        } else if s[0] == '\\' {
            seq!['\\', '\\']
        } else if s[0] == '\n' {
            seq!['\\', 'n']
        } else if s[0] == '\r' {
            seq!['\\', 'r']
        } else if s[0] == '\t' {
            seq!['\\', 't']
        } else {
            seq![s[0]]
        };
        head + json_escape_spec(s.drop_first())
    }
}

/// Escapes a text for a JSON string literal, as [`json_escape_spec`]
/// describes.
pub fn json_escape(s: &str) -> (r: String)
    ensures
        r@ == json_escape_spec(s@),
{
    let len = s.unicode_len();
    let mut out = String::new();
    let mut i: usize = 0;
    proof {
        assert(s@.skip(0) =~= s@);
        assert(out@ + json_escape_spec(s@.skip(0)) =~= json_escape_spec(s@));
    }
    while i < len
        invariant
            i <= len,
            len == s@.len(),
            out@ + json_escape_spec(s@.skip(i as int)) =~= json_escape_spec(s@),
        decreases len - i,
    {
        let ghost rest = s@.skip(i as int);
        proof {
            assert(rest[0] == s@[i as int]);
            assert(rest.drop_first() =~= s@.skip(i + 1));
        }
        let c = s.get_char(i);
        if c == '"' {
            push_char(&mut out, '\\');
            push_char(&mut out, '"');
        } else if c == '\\' {
            push_char(&mut out, '\\');
            push_char(&mut out, '\\');
        } else if c == '\n' {
            push_char(&mut out, '\\');
            push_char(&mut out, 'n');
        } else if c == '\r' {
            push_char(&mut out, '\\');
            push_char(&mut out, 'r');
        } else if c == '\t' {
            push_char(&mut out, '\\');
            push_char(&mut out, 't');
        } else {
            push_char(&mut out, c);
        }
        i += 1;
        proof {
            assert(out@ + json_escape_spec(s@.skip(i as int)) =~= json_escape_spec(s@));
        }
    }
    proof {
        assert(s@.skip(len as int) =~= Seq::<char>::empty());
        assert(out@ =~= json_escape_spec(s@));
    }
    out
}

/// The JSON object of one test: its name, case, and expected output (the
/// empty string when the test has none).
pub open spec fn test_json_spec(t: crate::TestView) -> Seq<char> {
    ("{\"name\":\""@) + json_escape_spec(t.name) + ("\",\"case\":\""@) + json_escape_spec(t.case)
        + ("\",\"expected\":\""@) + json_escape_spec(
        match t.expected {
            Option::Some(e) => e,
            Option::None => Seq::empty(),
        },
    ) + ("\"}"@)
}

/// Renders one test as a JSON object, as [`test_json_spec`] describes.
pub fn render_test_json(t: &Test) -> (r: String)
    ensures
        r@ == test_json_spec(t@),
{
    let mut out = String::from_str("{\"name\":\"");
    out.append(json_escape(t.name.as_str()).as_str());
    out.append("\",\"case\":\"");
    out.append(json_escape(t.case.as_str()).as_str());
    out.append("\",\"expected\":\"");
    match &t.expected {
        Some(e) => {
            out.append(json_escape(e.as_str()).as_str());
        },
        None => {
            proof {
                assert(json_escape_spec(Seq::<char>::empty()) =~= Seq::<char>::empty());
                assert(out@ + json_escape_spec(Seq::<char>::empty()) =~= out@);
            }
        },
    }
    out.append("\"}");
    out
}

} // verus!
