//! Support for runners built from compiled artifacts.

use vstd::prelude::*;

use crate::text::{contains_sub, find_sub, match_at};

verus! {

/// The first artifact path in a compiler's JSON message: the text between
/// `"filenames":["` and the next double quote after it.
pub open spec fn output_name_spec(s: Seq<char>) -> Option<Seq<char>> {
    let p = ("\"filenames\":[\""@);
    if !contains_sub(s, p) {
        Option::None
    } else {
        let start = first_match(s, p) + p.len();
        let after = s.skip(start);
        if !contains_sub(after, ("\""@)) {
            Option::None
        } else {
            Option::Some(after.take(first_match(after, ("\""@))))
        }
    }
}

/// The first position where `needle` matches inside `hay`.
pub open spec fn first_match(hay: Seq<char>, needle: Seq<char>) -> int {
    choose|i: int|
        #[trigger] match_at(hay, needle, i) && forall|j: int| 0 <= j < i ==> !match_at(
            hay,
            needle,
            j,
        )
}

/// Finds the artifact path in a compiler's JSON output, as
/// [`output_name_spec`] describes: present exactly when the `filenames`
/// marker occurs and a closing quote follows it.
pub fn get_output_name_from_json(json_output: &str) -> (r: Option<String>)
    ensures
        match r {
            Option::Some(name) => output_name_spec(json_output@) == Option::Some(name@),
            Option::None => output_name_spec(json_output@) is None,
        },
{
    let prefix = "\"filenames\":[\"";
    let ghost p = prefix@;
    match find_sub(json_output, prefix) {
        None => {
            proof {
                assert(!contains_sub(json_output@, p));
            }
            None
        },
        Some(at) => {
            proof {
                assert(match_at(json_output@, p, at as int));
                assert(first_match(json_output@, p) == at) by {
                    let w = at as int;
                    assert(match_at(json_output@, p, w) && forall|j: int|
                        0 <= j < w ==> !match_at(json_output@, p, j));
                };
            }
            let p_len = prefix.unicode_len();
            let s_len = json_output.unicode_len();
            proof {
                assert(at + p_len <= s_len);
            }
            let start = at + p_len;
            let after = json_output.substring_char(start, s_len);
            proof {
                assert(after@ =~= json_output@.skip(start as int));
            }
            match find_sub(after, "\"") {
                None => {
                    proof {
                        assert(!contains_sub(after@, ("\""@)));
                    }
                    None
                },
                Some(end) => {
                    proof {
                        assert(first_match(after@, ("\""@)) == end) by {
                            let w = end as int;
                            assert(match_at(after@, ("\""@), w) && forall|j: int|
                                0 <= j < w ==> !match_at(after@, ("\""@), j));
                        };
                    }
                    let name = after.substring_char(0, end).to_owned();
                    proof {
                        assert(name@ =~= after@.take(end as int));
                    }
                    Some(name)
                },
            }
        },
    }
}

} // verus!
