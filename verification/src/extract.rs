//! Extracting test records from a structured document.
//!
//! The document is walked as a stream of typed blocks: headings name tests
//! and sections, fenced code blocks fill the case and then the expected
//! output, a `With` paragraph redirects the next code block into the
//! options slot, a quote block can request merged stderr, and front-matter
//! can name an expected runner. The walk itself is performed by an outside
//! markdown parser; every rule about which block plays which role is
//! specified and verified here.

use vstd::prelude::*;

use simple_markdown_parser::MarkdownElement as Md;
use simple_yaml_parser::{RootYAMLValue as Yv, YAMLKey as Yk};

use vstd::string::StrSliceExecFns;
use vstd::utf8::encode_utf8;

use crate::text::{
    match_at, starts_with_str, str_eq, trim_spec, trim_ws, unescape, unescape_spec,
};
use crate::{Input, Test, TestView};

verus! {

/// A blank byte: a space or a tab.
pub open spec fn is_blank(b: u8) -> bool {
    b == 32 || b == 9
}

/// A run of 256 number signs starting at byte `i`: the block parser
/// rejects a heading this deep.
pub open spec fn deep_heading_at(s: Seq<u8>, i: int) -> bool {
    0 <= i && i + 256 <= s.len() && forall|k: int| i <= k < i + 256 ==> s[k] == 35
}

/// A dash at byte `i` followed by 256 blanks: the block parser rejects a
/// list item this deep.
pub open spec fn deep_list_at(s: Seq<u8>, i: int) -> bool {
    0 <= i && i + 257 <= s.len() && s[i] == 45 && forall|k: int|
        i + 1 <= k < i + 257 ==> is_blank(s[k])
}

/// Whether the document holds a marker run too deep for the block parser,
/// anywhere in its bytes — even inside a code fence, where the run would
/// in fact be harmless; such documents are rejected before parsing.
pub open spec fn has_deep_marker(s: Seq<u8>) -> bool {
    exists|i: int| deep_heading_at(s, i) || deep_list_at(s, i)
}

/// Whether a run of 256 number signs starts at byte `i`.
fn heading_run_at(bytes: &Vec<u8>, i: usize) -> (r: bool)
    requires
        i < bytes@.len(),
    ensures
        r == deep_heading_at(bytes@, i as int),
{
    let len = bytes.len();
    if len - i < 256 {
        return false;
    }
    let mut k: usize = 0;
    while k < 256
        invariant
            k <= 256,
            len == bytes@.len(),
            i + 256 <= len,
            forall|j: int| i <= j < i + k ==> bytes@[j] == 35,
        decreases 256 - k,
    {
        if bytes[i + k] != 35 {
            return false;
        }
        k += 1;
    }
    true
}

/// Whether a dash followed by 256 blanks starts at byte `i`.
fn list_run_at(bytes: &Vec<u8>, i: usize) -> (r: bool)
    requires
        i < bytes@.len(),
    ensures
        r == deep_list_at(bytes@, i as int),
{
    let len = bytes.len();
    if len - i < 257 {
        return false;
    }
    if bytes[i] != 45 {
        return false;
    }
    let mut k: usize = 1;
    while k < 257
        invariant
            1 <= k <= 257,
            len == bytes@.len(),
            i + 257 <= len,
            bytes@[i as int] == 45,
            forall|j: int| i + 1 <= j < i + k ==> is_blank(bytes@[j]),
        decreases 257 - k,
    {
        let b = bytes[i + k];
        if b != 32 && b != 9 {
            return false;
        }
        k += 1;
    }
    true
}

/// Scans the document's bytes for a marker run too deep for the block
/// parser, as [`has_deep_marker`] describes.
fn find_deep_marker(bytes: &Vec<u8>) -> (r: bool)
    ensures
        r == has_deep_marker(bytes@),
{
    let len = bytes.len();
    let mut i: usize = 0;
    while i < len
        invariant
            i <= len,
            len == bytes@.len(),
            forall|j: int| 0 <= j < i ==> !deep_heading_at(bytes@, j) && !deep_list_at(bytes@, j),
        decreases len - i,
    {
        if heading_run_at(bytes, i) || list_run_at(bytes, i) {
            return true;
        }
        i += 1;
    }
    false
}

/// One typed block of the document, holding exactly the text the
/// extraction rules read.
#[derive(Debug)]
pub enum Block {
    Heading { level: u8, text: String },
    Paragraph { text: String },
    ListItem { text: String },
    CodeBlock { code: String },
    Quote { text: String },
    Frontmatter { text: String },
    Other,
}

/// The block sequence the markdown parser produces for a document: a
/// function of the text alone.
pub uninterp spec fn md_blocks(s: Seq<char>) -> Seq<Block>;

/// Relies on `simple_markdown_parser::parse`: walks the document and hands
/// each block element to the callback in document order. The conversion
/// keeps, per variant, exactly the fields the extraction rules read.
/// The parser rejects a heading level or list depth beyond 255 by
/// panicking, so documents holding such a marker run are excluded here and
/// turned away by [`extract_tests`] before this call.
#[verifier::external_body]
fn md_parse_blocks(content: &str) -> (r: Vec<Block>)
    requires
        !has_deep_marker(encode_utf8(content@)),
    ensures
        r@ == md_blocks(content@),
{
    let mut out: Vec<Block> = Vec::new();
    let _ = simple_markdown_parser::parse(content, |e| {
        out.push(match e {
            Md::Heading { level, text } => Block::Heading { level, text: text.0.to_owned() },
            Md::Paragraph(t) => Block::Paragraph { text: t.0.to_owned() },
            Md::ListItem { text, .. } => Block::ListItem { text: text.0.to_owned() },
            Md::CodeBlock { code, .. } => Block::CodeBlock { code: code.to_owned() },
            Md::Quote(inner) => Block::Quote { text: inner.0.to_owned() },
            Md::Frontmatter(t) => Block::Frontmatter { text: t.to_owned() },
            _ => Block::Other,
        });
    });
    out
}

/// One step of a front-matter key path.
#[derive(Debug)]
pub enum YamlKey {
    Name(String),
    Index(usize),
}

/// A front-matter value, as far as the extraction rules distinguish them.
#[derive(Debug)]
pub enum YamlValue {
    Text(String),
    Truth(bool),
    Multiline,
}

/// One key-value pair of the front-matter.
#[derive(Debug)]
pub struct YamlEntry {
    pub keys: Vec<YamlKey>,
    pub value: YamlValue,
}

/// The entries the YAML parser produces for a front-matter text, or `None`
/// when it reports a parse error: a function of the text alone.
pub uninterp spec fn yaml_entries(s: Seq<char>) -> Option<Seq<YamlEntry>>;

/// Relies on `simple_yaml_parser::parse`: hands each key path and value to
/// the callback in document order, and reports malformed input as an error.
/// The conversion keeps the key path and the kind of each value, with the
/// text of plain string values.
#[verifier::external_body]
fn yaml_parse_entries(text: &str) -> (r: Result<Vec<YamlEntry>, ()>)
    ensures
        match r {
            Result::Ok(v) => yaml_entries(text@) == Option::Some(v@),
            Result::Err(_) => yaml_entries(text@) is None,
        },
{
    let mut out: Vec<YamlEntry> = Vec::new();
    let result = simple_yaml_parser::parse(text, |keys, value| {
        let keys = keys.iter().map(|k| match k {
            Yk::Slice(s) => YamlKey::Name((*s).to_owned()),
            Yk::Index(i) => YamlKey::Index(*i),
        }).collect();
        let value = match value {
            Yv::String(s) | Yv::Number(s) => YamlValue::Text(s.to_owned()),
            Yv::True => YamlValue::Truth(true),
            Yv::False => YamlValue::Truth(false),
            Yv::MultilineString(_) => YamlValue::Multiline,
        };
        out.push(YamlEntry { keys, value });
    });
    if result.is_ok() { Ok(out) } else { Err(()) }
}

/// The conditions on which extraction aborts a document.
#[derive(Debug, PartialEq, Eq, Clone, Copy)]
pub enum ExtractError {
    /// The front-matter gives `expected_runner` a value that is not a plain
    /// string.
    ExpectedRunnerNotText,
    /// The document holds a heading of 256 or more number signs, or a list
    /// dash followed by 256 or more blanks: deeper than the block parser
    /// supports.
    MarkerTooDeep,
}

/// The extractor's transient state while walking blocks.
pub ghost struct ExtractState {
    /// The current section title.
    pub section: Seq<char>,
    /// The test being assembled.
    pub cur: TestView,
    /// Whether the previous block was the paragraph `With`.
    pub last_was_with: bool,
    /// Whether the expected output so far came from list items.
    pub expected_from_list: bool,
    /// The runner named by the front-matter, if any.
    pub expected_runner: Option<Seq<char>>,
    /// Whether the front-matter gave a typed key a value of the wrong kind.
    pub bad_frontmatter: bool,
}

/// A fresh in-progress test with only a name and a section.
pub open spec fn empty_test_view(name: Seq<char>, section: Seq<char>) -> TestView {
    TestView {
        section,
        name,
        options: Seq::empty(),
        case: Seq::empty(),
        expected: Option::None,
        merge_stderr: false,
    }
}

/// The state before any block is seen.
pub open spec fn initial_extract_state() -> ExtractState {
    ExtractState {
        section: Seq::empty(),
        cur: empty_test_view(Seq::empty(), Seq::empty()),
        last_was_with: false,
        expected_from_list: false,
        expected_runner: Option::None,
        bad_frontmatter: false,
    }
}

/// Whether a paragraph reads ``With `<options>` ``.
pub open spec fn is_with_backtick(text: Seq<char>) -> bool {
    &&& text.len() > ("With `"@).len()
    &&& match_at(text, "With `"@, 0)
    &&& text.last() == '`'
}

/// The options inside a ``With `<options>` `` paragraph.
pub open spec fn with_backtick_options(text: Seq<char>) -> Seq<char> {
    text.subrange(("With `"@).len() as int, text.len() - 1)
}

/// Whether a quote asks for stderr to be merged into stdout. The quote
/// marker itself may or may not have been stripped by the block parser, so
/// both spellings are accepted.
pub open spec fn is_merge_stderr_quote(text: Seq<char>) -> bool {
    trim_spec(text) == ("Merge `stderr` here"@) || trim_spec(text) == ("> Merge `stderr` here"@)
}

/// A list item's text with the escape pairs `\<` and `\"` unescaped.
pub open spec fn list_item_text(text: Seq<char>) -> Seq<char> {
    unescape_spec(unescape_spec(text, '<'), '"')
}

/// Whether a key path is exactly the top-level key `expected_runner`.
pub open spec fn keys_name_expected_runner(keys: Seq<YamlKey>) -> bool {
    keys.len() == 1 && (keys[0] matches YamlKey::Name(n) && n@ == ("expected_runner"@))
}

/// Applies front-matter entries in order: each `expected_runner` entry with
/// a plain string value names the runner, any other value for that key is
/// fatal, and unknown keys are ignored. Returns the runner and whether a
/// fatal entry was hit.
pub open spec fn apply_frontmatter(entries: Seq<YamlEntry>, runner: Option<Seq<char>>) -> (
    Option<Seq<char>>,
    bool,
)
    decreases entries.len(),
{
    if entries.len() == 0 {
        (runner, false)
    } else {
        let e = entries[0];
        if keys_name_expected_runner(e.keys@) {
            match e.value {
                YamlValue::Text(s) => apply_frontmatter(entries.drop_first(), Option::Some(s@)),
                _ => (runner, true),
            }
        } else {
            apply_frontmatter(entries.drop_first(), runner)
        }
    }
}

/// What one block does to the extraction state, and the test it emits, if
/// any.
///
/// - A heading of level three or more finalizes the in-progress test (it is
///   emitted when its case is non-empty) and starts a new one named by the
///   heading, under the current section.
/// - A lower heading sets the current section.
/// - The paragraph ``With `<options>` `` sets the options; the bare
///   paragraph `With` makes the next code block the options.
/// - A code block becomes, in order of availability: the options (after
///   `With`), the case, the expected output; when all three are taken it
///   finalizes the test and opens a continuation named with a trailing
///   ` *`, taking the block as the next case.
/// - A merge-stderr quote marks the in-progress test.
/// - A list item, in list-as-expected mode, becomes the expected output
///   (unescaped), or extends an expected output that came from list items.
/// - Front-matter names the expected runner, as [`apply_frontmatter`] says.
/// - After a fatal front-matter entry the walk is abandoned: every later
///   block leaves the state unchanged.
pub open spec fn extract_step(st: ExtractState, b: Block, lists: bool) -> (ExtractState, Seq<
    TestView,
>) {
    if st.bad_frontmatter {
        (st, Seq::empty())
    } else {
        match b {
            Block::Heading { level, text } => if level >= 3 {
                let emitted = if st.cur.case.len() > 0 {
                    seq![st.cur]
                } else {
                    Seq::empty()
                };
                (
                    ExtractState {
                        cur: empty_test_view(text@, st.section),
                        last_was_with: false,
                        expected_from_list: false,
                        ..st
                    },
                    emitted,
                )
            } else {
                (ExtractState { section: text@, last_was_with: false, ..st }, Seq::empty())
            },
            Block::Paragraph { text } => if is_with_backtick(text@) {
                (
                    ExtractState {
                        cur: TestView { options: with_backtick_options(text@), ..st.cur },
                        last_was_with: false,
                        ..st
                    },
                    Seq::empty(),
                )
            } else {
                (
                    ExtractState { last_was_with: text@ == ("With"@), ..st },
                    Seq::empty(),
                )
            },
            Block::CodeBlock { code } => if st.last_was_with {
                (
                    ExtractState {
                        cur: TestView { options: code@, ..st.cur },
                        last_was_with: false,
                        ..st
                    },
                    Seq::empty(),
                )
            } else if st.cur.case.len() == 0 {
                (
                    ExtractState {
                        cur: TestView { case: code@, ..st.cur },
                        last_was_with: false,
                        ..st
                    },
                    Seq::empty(),
                )
            } else if st.cur.expected is None {
                (
                    ExtractState {
                        cur: TestView { expected: Option::Some(code@), ..st.cur },
                        last_was_with: false,
                        expected_from_list: false,
                        ..st
                    },
                    Seq::empty(),
                )
            } else {
                (
                    ExtractState {
                        cur: TestView {
                            case: code@,
                            ..empty_test_view(st.cur.name + (" *"@), st.cur.section)
                        },
                        last_was_with: false,
                        expected_from_list: false,
                        ..st
                    },
                    seq![st.cur],
                )
            },
            Block::Quote { text } => if is_merge_stderr_quote(text@) {
                (
                    ExtractState {
                        cur: TestView { merge_stderr: true, ..st.cur },
                        last_was_with: false,
                        ..st
                    },
                    Seq::empty(),
                )
            } else {
                (ExtractState { last_was_with: false, ..st }, Seq::empty())
            },
            Block::ListItem { text } => if lists && st.cur.case.len() > 0 {
                match st.cur.expected {
                    Option::None => (
                        ExtractState {
                            cur: TestView {
                                expected: Option::Some(list_item_text(text@)),
                                ..st.cur
                            },
                            last_was_with: false,
                            expected_from_list: true,
                            ..st
                        },
                        Seq::empty(),
                    ),
                    Option::Some(e) => if st.expected_from_list {
                        (
                            ExtractState {
                                cur: TestView {
                                    expected: Option::Some(e + ("\n"@) + list_item_text(text@)),
                                    ..st.cur
                                },
                                last_was_with: false,
                                ..st
                            },
                            Seq::empty(),
                        )
                    } else {
                        (ExtractState { last_was_with: false, ..st }, Seq::empty())
                    },
                }
            } else {
                (ExtractState { last_was_with: false, ..st }, Seq::empty())
            },
            Block::Frontmatter { text } => match yaml_entries(text@) {
                Option::Some(entries) => {
                    let (runner, bad) = apply_frontmatter(entries, st.expected_runner);
                    (
                        ExtractState {
                            expected_runner: runner,
                            bad_frontmatter: bad,
                            last_was_with: false,
                            ..st
                        },
                        Seq::empty(),
                    )
                },
                Option::None => (ExtractState { last_was_with: false, ..st }, Seq::empty()),
            },
            Block::Other => (ExtractState { last_was_with: false, ..st }, Seq::empty()),
        }
    }
}

/// Folds [`extract_step`] over a block sequence.
pub open spec fn extract_blocks(blocks: Seq<Block>, st: ExtractState, lists: bool) -> (
    ExtractState,
    Seq<TestView>,
)
    decreases blocks.len(),
{
    if blocks.len() == 0 {
        (st, Seq::empty())
    } else {
        let (st1, out1) = extract_step(st, blocks[0], lists);
        let (st2, out2) = extract_blocks(blocks.drop_first(), st1, lists);
        (st2, out1 + out2)
    }
}

/// The tests, expected runner and fatality of a whole block sequence: after
/// the walk, an in-progress test with a non-empty case is emitted too.
pub open spec fn extract_spec(blocks: Seq<Block>, lists: bool) -> (Seq<TestView>, Option<
    Seq<char>,
>, bool) {
    let (st, out) = extract_blocks(blocks, initial_extract_state(), lists);
    let tests = if st.cur.case.len() > 0 {
        out.push(st.cur)
    } else {
        out
    };
    (tests, st.expected_runner, st.bad_frontmatter)
}

/// The `TestView`s of a test list.
pub open spec fn tests_view(v: Seq<Test>) -> Seq<TestView> {
    v.map_values(|t: Test| t@)
}

/// The view of an optional string.
pub open spec fn opt_view(o: Option<String>) -> Option<Seq<char>> {
    match o {
        Option::Some(s) => Option::Some(s@),
        Option::None => Option::None,
    }
}

/// Folding distributes over concatenation of block sequences.
pub proof fn lemma_extract_blocks_concat(a: Seq<Block>, b: Seq<Block>, st: ExtractState, lists: bool)
    ensures
        ({
            let (st1, o1) = extract_blocks(a, st, lists);
            let (st2, o2) = extract_blocks(b, st1, lists);
            extract_blocks(a + b, st, lists) == (st2, o1 + o2)
        }),
    decreases a.len(),
{
    let (st1, o1) = extract_blocks(a, st, lists);
    let (st2, o2) = extract_blocks(b, st1, lists);
    if a.len() == 0 {
        assert(a + b =~= b);
        assert(o1 + o2 =~= o2);
    } else {
        let (sth, oh) = extract_step(st, a[0], lists);
        lemma_extract_blocks_concat(a.drop_first(), b, sth, lists);
        assert((a + b).drop_first() =~= a.drop_first() + b);
        assert((a + b)[0] == a[0]);
        let (stm, om) = extract_blocks(a.drop_first(), sth, lists);
        let (ste, oe) = extract_blocks(b, stm, lists);
        assert(oh + (om + oe) =~= (oh + om) + oe);
    }
}

/// A fatal front-matter entry abandons the walk: nothing later changes the
/// state or emits a test.
pub proof fn lemma_bad_is_final(blocks: Seq<Block>, st: ExtractState, lists: bool)
    requires
        st.bad_frontmatter,
    ensures
        extract_blocks(blocks, st, lists) == (st, Seq::<TestView>::empty()),
    decreases blocks.len(),
{
    if blocks.len() > 0 {
        lemma_bad_is_final(blocks.drop_first(), st, lists);
        assert(Seq::<TestView>::empty() + Seq::<TestView>::empty() =~= Seq::<
            TestView,
        >::empty());
    }
}

/// Every test the walk emits has a non-empty case.
pub proof fn lemma_emitted_cases_nonempty(blocks: Seq<Block>, st: ExtractState, lists: bool)
    ensures
        forall|i: int|
            0 <= i < extract_blocks(blocks, st, lists).1.len() ==> extract_blocks(
                blocks,
                st,
                lists,
            ).1[i].case.len() > 0,
    decreases blocks.len(),
{
    if blocks.len() > 0 {
        let (st1, out1) = extract_step(st, blocks[0], lists);
        lemma_emitted_cases_nonempty(blocks.drop_first(), st1, lists);
    }
}

/// Every test of an extraction has a non-empty case.
pub proof fn lemma_every_test_has_case(blocks: Seq<Block>, lists: bool)
    ensures
        forall|i: int|
            0 <= i < extract_spec(blocks, lists).0.len() ==> extract_spec(
                blocks,
                lists,
            ).0[i].case.len() > 0,
{
    lemma_emitted_cases_nonempty(blocks, initial_extract_state(), lists);
}

fn clone_test(t: &Test) -> (r: Test)
    ensures
        r@ == t@,
{
    Test {
        section: t.section.clone(),
        name: t.name.clone(),
        options: t.options.clone(),
        case: t.case.clone(),
        expected: match &t.expected {
            Option::Some(e) => Option::Some(e.clone()),
            Option::None => Option::None,
        },
        merge_stderr: t.merge_stderr,
    }
}

/// The extractor's working state: the current section, the test being
/// assembled, and the one-step lookback for the `With` paragraph.
struct Extraction {
    section: String,
    cur: Test,
    last_was_with: bool,
    expected_from_list: bool,
    expected_runner: Option<String>,
}

impl Extraction {
    /// The mathematical state this working state stands for.
    spec fn st(&self) -> ExtractState {
        ExtractState {
            section: self.section@,
            cur: self.cur@,
            last_was_with: self.last_was_with,
            expected_from_list: self.expected_from_list,
            expected_runner: opt_view(self.expected_runner),
            bad_frontmatter: false,
        }
    }

    fn begin() -> (r: Extraction)
        ensures
            r.st() == initial_extract_state(),
    {
        let r = Extraction {
            section: String::new(),
            cur: Test {
                section: String::new(),
                name: String::new(),
                options: String::new(),
                case: String::new(),
                expected: None,
                merge_stderr: false,
            },
            last_was_with: false,
            expected_from_list: false,
            expected_runner: None,
        };
        proof {
            assert(r.st() =~~= initial_extract_state());
        }
        r
    }

    /// A fresh in-progress test named by a heading, under the current
    /// section.
    fn fresh_test(&self, name: String) -> (r: Test)
        ensures
            r@ == empty_test_view(name@, self.section@),
    {
        Test {
            section: self.section.clone(),
            name,
            options: String::new(),
            case: String::new(),
            expected: None,
            merge_stderr: false,
        }
    }

    /// Applies one block to the state, emitting into `tests`, as
    /// [`extract_step`] describes.
    #[verifier::loop_isolation(false)]
    fn apply(&mut self, b: &Block, lists: bool, tests: &mut Vec<Test>) -> (r: Result<
        (),
        ExtractError,
    >)
        ensures
            ({
                let (st2, out) = extract_step(old(self).st(), *b, lists);
                match r {
                    Result::Ok(()) => final(self).st() == st2 && tests_view(final(tests)@)
                        == tests_view(old(tests)@) + out,
                    Result::Err(e) => st2.bad_frontmatter && final(tests)@ == old(tests)@ && e
                        == ExtractError::ExpectedRunnerNotText,
                }
            }),
    {
        let ghost st0 = self.st();
        let ghost prev = tests_view(tests@);
        match b {
            Block::Heading { level, text } => {
                if *level >= 3 {
                    let fresh = self.fresh_test(text.clone());
                    if !self.cur.case.as_str().is_empty() {
                        tests.push(clone_test(&self.cur));
                        proof {
                            assert(tests_view(tests@) =~= prev + seq![st0.cur]);
                        }
                    } else {
                        proof {
                            assert(tests_view(tests@) =~= prev + Seq::<TestView>::empty());
                        }
                    }
                    self.cur = fresh;
                    self.last_was_with = false;
                    self.expected_from_list = false;
                } else {
                    self.section = text.clone();
                    self.last_was_with = false;
                    proof {
                        assert(tests_view(tests@) =~= prev + Seq::<TestView>::empty());
                    }
                }
            },
            Block::Paragraph { text } => {
                let t_len = text.as_str().unicode_len();
                let p_len = "With `".unicode_len();
                if starts_with_str(text.as_str(), "With `") && t_len > p_len && text.as_str()
                    .get_char(t_len - 1) == '`' {
                    self.cur.options = text.as_str().substring_char(p_len, t_len - 1).to_owned();
                    self.last_was_with = false;
                    proof {
                        assert(is_with_backtick(text@));
                        assert(self.cur.options@ == with_backtick_options(text@));
                    }
                } else {
                    self.last_was_with = str_eq(text.as_str(), "With");
                    proof {
                        if is_with_backtick(text@) {
                            assert(false);
                        }
                    }
                }
                proof {
                    assert(tests_view(tests@) =~= prev + Seq::<TestView>::empty());
                }
            },
            Block::CodeBlock { code } => {
                if self.last_was_with {
                    self.cur.options = code.clone();
                    self.last_was_with = false;
                    proof {
                        assert(tests_view(tests@) =~= prev + Seq::<TestView>::empty());
                    }
                } else if self.cur.case.as_str().is_empty() {
                    self.cur.case = code.clone();
                    self.last_was_with = false;
                    proof {
                        assert(tests_view(tests@) =~= prev + Seq::<TestView>::empty());
                    }
                } else if self.cur.expected.is_none() {
                    self.cur.expected = Some(code.clone());
                    self.last_was_with = false;
                    self.expected_from_list = false;
                    proof {
                        assert(tests_view(tests@) =~= prev + Seq::<TestView>::empty());
                    }
                } else {
                    let mut next_name = self.cur.name.clone();
                    next_name.append(" *");
                    let mut fresh = self.fresh_test(next_name);
                    fresh.case = code.clone();
                    fresh.section = self.cur.section.clone();
                    tests.push(clone_test(&self.cur));
                    self.cur = fresh;
                    self.last_was_with = false;
                    self.expected_from_list = false;
                    proof {
                        assert(tests_view(tests@) =~= prev + seq![st0.cur]);
                    }
                }
            },
            Block::Quote { text } => {
                let trimmed = trim_ws(text.as_str());
                if str_eq(trimmed.as_str(), "Merge `stderr` here") || str_eq(
                    trimmed.as_str(),
                    "> Merge `stderr` here",
                ) {
                    self.cur.merge_stderr = true;
                }
                self.last_was_with = false;
                proof {
                    assert(tests_view(tests@) =~= prev + Seq::<TestView>::empty());
                }
            },
            Block::ListItem { text } => {
                if lists && !self.cur.case.as_str().is_empty() {
                    let unescaped = unescape(unescape(text.as_str(), '<').as_str(), '"');
                    let existing = match &self.cur.expected {
                        Option::Some(e) => Option::Some(e.clone()),
                        Option::None => Option::None,
                    };
                    match existing {
                        Option::None => {
                            self.cur.expected = Some(unescaped);
                            self.expected_from_list = true;
                        },
                        Option::Some(e) => {
                            if self.expected_from_list {
                                let mut appended = e;
                                appended.append("\n");
                                appended.append(unescaped.as_str());
                                self.cur.expected = Some(appended);
                            }
                        },
                    }
                }
                self.last_was_with = false;
                proof {
                    assert(tests_view(tests@) =~= prev + Seq::<TestView>::empty());
                }
            },
            Block::Frontmatter { text } => {
                self.last_was_with = false;
                match yaml_parse_entries(text.as_str()) {
                    Err(_) => {
                        proof {
                            assert(tests_view(tests@) =~= prev + Seq::<TestView>::empty());
                        }
                    },
                    Ok(entries) => {
                        let ghost all = entries@;
                        let ghost runner0 = opt_view(self.expected_runner);
                        let mut k: usize = 0;
                        let len = entries.len();
                        proof {
                            assert(all.skip(0) =~= all);
                        }
                        while k < len
                            invariant
                                k <= len,
                                len == all.len(),
                                entries@ == all,
                                apply_frontmatter(all, runner0) == apply_frontmatter(
                                    all.skip(k as int),
                                    opt_view(self.expected_runner),
                                ),
                                self.section@ == st0.section,
                                self.cur@ == st0.cur,
                                self.last_was_with == false,
                                self.expected_from_list == st0.expected_from_list,
                                tests@ == old(tests)@,
                            decreases len - k,
                        {
                            let ghost rest = all.skip(k as int);
                            let e = &entries[k];
                            proof {
                                assert(rest[0] == all[k as int]);
                                assert(rest.drop_first() =~= all.skip(k + 1));
                            }
                            let is_runner_key = e.keys.len() == 1 && (match &e.keys[0] {
                                YamlKey::Name(n) => str_eq(n.as_str(), "expected_runner"),
                                YamlKey::Index(_) => false,
                            });
                            proof {
                                assert(is_runner_key == keys_name_expected_runner(rest[0].keys@));
                            }
                            if is_runner_key {
                                match &e.value {
                                    YamlValue::Text(s) => {
                                        self.expected_runner = Some(s.clone());
                                    },
                                    _ => {
                                        proof {
                                            assert(apply_frontmatter(all, runner0).1);
                                        }
                                        return Err(ExtractError::ExpectedRunnerNotText);
                                    },
                                }
                            }
                            k += 1;
                        }
                        proof {
                            assert(all.skip(len as int) =~= Seq::<YamlEntry>::empty());
                            assert(apply_frontmatter(all, runner0) == (
                                opt_view(self.expected_runner),
                                false,
                            ));
                            assert(tests_view(tests@) =~= prev + Seq::<TestView>::empty());
                        }
                    },
                }
            },
            Block::Other => {
                self.last_was_with = false;
                proof {
                    assert(tests_view(tests@) =~= prev + Seq::<TestView>::empty());
                }
            },
        }
        proof {
            let (st2, out) = extract_step(st0, *b, lists);
            assert(self.st() =~~= st2);
        }
        Ok(())
    }
}

/// Walks an already-parsed block sequence into tests, as [`extract_spec`]
/// describes; fails exactly when the front-matter gives `expected_runner` a
/// value that is not a plain string.
pub fn extract_tests_from_blocks(blocks: &Vec<Block>, lists_to_code_block: bool) -> (r: Result<
    Input,
    ExtractError,
>)
    ensures
        ({
            let (tests, runner, bad) = extract_spec(blocks@, lists_to_code_block);
            match r {
                Result::Ok(input) => !bad && tests_view(input.tests@) == tests && opt_view(
                    input.expected_runner,
                ) == runner,
                Result::Err(e) => bad && e == ExtractError::ExpectedRunnerNotText,
            }
        }),
{
    let mut state = Extraction::begin();
    let mut tests: Vec<Test> = Vec::new();
    let mut i: usize = 0;
    let len = blocks.len();
    proof {
        assert(blocks@.take(0) =~= Seq::<Block>::empty());
        assert(tests_view(tests@) =~= Seq::<TestView>::empty());
    }
    while i < len
        invariant
            i <= len,
            len == blocks@.len(),
            extract_blocks(blocks@.take(i as int), initial_extract_state(), lists_to_code_block)
                == (state.st(), tests_view(tests@)),
        decreases len - i,
    {
        let ghost taken = blocks@.take(i as int);
        let result = state.apply(&blocks[i], lists_to_code_block, &mut tests);
        proof {
            assert(taken + seq![blocks@[i as int]] =~= blocks@.take(i + 1));
            lemma_extract_blocks_concat(
                taken,
                seq![blocks@[i as int]],
                initial_extract_state(),
                lists_to_code_block,
            );
            let (st1, o1) = extract_blocks(taken, initial_extract_state(), lists_to_code_block);
            let (st2, o2) = extract_step(st1, blocks@[i as int], lists_to_code_block);
            assert(seq![blocks@[i as int]].drop_first() =~= Seq::<Block>::empty());
            assert(extract_blocks(Seq::<Block>::empty(), st2, lists_to_code_block) == (
                st2,
                Seq::<TestView>::empty(),
            ));
            assert(extract_blocks(
                seq![blocks@[i as int]],
                st1,
                lists_to_code_block,
            ) == (st2, o2 + Seq::<TestView>::empty()));
            assert(o2 + Seq::<TestView>::empty() =~= o2);
        }
        match result {
            Ok(()) => {},
            Err(e) => {
                proof {
                    let (st_part, o_part) = extract_blocks(
                        blocks@.take(i + 1),
                        initial_extract_state(),
                        lists_to_code_block,
                    );
                    assert(st_part.bad_frontmatter);
                    assert(blocks@.take(i + 1) + blocks@.skip(i + 1) =~= blocks@);
                    lemma_extract_blocks_concat(
                        blocks@.take(i + 1),
                        blocks@.skip(i + 1),
                        initial_extract_state(),
                        lists_to_code_block,
                    );
                    lemma_bad_is_final(blocks@.skip(i + 1), st_part, lists_to_code_block);
                }
                return Err(e);
            },
        }
        i += 1;
    }
    proof {
        assert(blocks@.take(len as int) =~= blocks@);
    }
    if !state.cur.case.as_str().is_empty() {
        let last = clone_test(&state.cur);
        tests.push(last);
        proof {
            let (st_f, out_f) = extract_blocks(
                blocks@,
                initial_extract_state(),
                lists_to_code_block,
            );
            assert(tests_view(tests@) =~= out_f.push(st_f.cur));
        }
    }
    Ok(Input { tests, expected_runner: state.expected_runner })
}

/// Extracts the tests of a whole document: the markdown parser supplies the
/// block stream and the verified walk applies the extraction rules. A
/// document holding a marker run too deep for the block parser is turned
/// away first.
pub fn extract_tests(content: &str, lists_to_code_block: bool) -> (r: Result<Input, ExtractError>)
    ensures
        ({
            let (tests, runner, bad) = extract_spec(md_blocks(content@), lists_to_code_block);
            if has_deep_marker(encode_utf8(content@)) {
                r matches Result::Err(ExtractError::MarkerTooDeep)
            } else {
                match r {
                    Result::Ok(input) => !bad && tests_view(input.tests@) == tests && opt_view(
                        input.expected_runner,
                    ) == runner,
                    Result::Err(e) => bad && e == ExtractError::ExpectedRunnerNotText,
                }
            }
        }),
{
    let bytes = content.as_bytes_vec();
    if find_deep_marker(&bytes) {
        return Err(ExtractError::MarkerTooDeep);
    }
    let blocks = md_parse_blocks(content);
    extract_tests_from_blocks(&blocks, lists_to_code_block)
}

} // verus!
