//! Glob matching of text, done by the `globset` crate.
use vstd::prelude::*;

use crate::types::views;

verus! {

/// The record of one glob test: what was handed to globset, and its answer.
/// Its fields are private to this module, where `glob_test` makes them; other
/// modules get records only from the functions here.
pub struct GlobTest {
    pattern: String,
    literal_separator: bool,
    text: String,
    matched: Option<bool>,
}

/// The abstract content of a `GlobTest`.
pub struct GlobTestView {
    pub pattern: Seq<char>,
    pub literal_separator: bool,
    pub text: Seq<char>,
    pub matched: Option<bool>,
}

impl View for GlobTest {
    type V = GlobTestView;

    closed spec fn view(&self) -> GlobTestView {
        GlobTestView {
            pattern: self.pattern@,
            literal_separator: self.literal_separator,
            text: self.text@,
            matched: self.matched,
        }
    }
}

impl GlobTest {
    /// The answer of the test: `None` when the pattern did not compile, else
    /// whether the text matched.
    pub fn matched(&self) -> (m: Option<bool>)
        ensures
            m == self@.matched,
    {
        self.matched
    }
}

/// `s` holds no backslash, the one character whose meaning in globset
/// depends on the platform.
pub open spec fn plain(s: Seq<char>) -> bool {
    !s.contains('\\')
}

/// Names globset's answer for a pattern without backslashes against a text
/// without backslashes: `None` when the pattern does not compile, else whether
/// the text matches. On such inputs globset's answer depends on its arguments
/// alone.
pub uninterp spec fn glob_match(pattern: Seq<char>, literal_separator: bool, text: Seq<char>) -> Option<bool>;

/// A record whose answer is globset's named answer wherever the pattern and
/// the text are plain.
pub open spec fn faithful(t: GlobTestView) -> bool {
    plain(t.pattern) && plain(t.text) ==> t.matched == glob_match(t.pattern, t.literal_separator, t.text)
}

/// Tests `text` against `pattern` with globset: the glob is built with
/// `GlobBuilder::new(pattern).literal_separator(..).build()`, put alone in a
/// `GlobSetBuilder`, the set is built, and `GlobSet::is_match(text)` answers;
/// `None` when the pattern does not parse or the set cannot be built. The
/// record keeps the arguments.
///
/// The contract states the arguments, and names the answer (`glob_match`)
/// where neither the pattern nor the text holds a backslash. Where one does,
/// nothing is stated of the answer: globset's treatment of `\` depends on the
/// platform (where it separates paths it does not escape, and it is rewritten
/// to `/` in the text). Not stated either: globset unwraps the aho-corasick
/// automaton it builds for a literal prefix or suffix of the pattern, which
/// fails only for a literal beyond that automaton's state ids.
#[verifier::external_body]
pub(crate) fn glob_test(pattern: &str, literal_separator: bool, text: &str) -> (r: GlobTest)
    ensures
        r@.pattern == pattern@,
        r@.literal_separator == literal_separator,
        r@.text == text@,
        plain(pattern@) && plain(text@) ==> r@.matched == glob_match(
            pattern@,
            literal_separator,
            text@,
        ),
{
    let matched = match globset::GlobBuilder::new(pattern).literal_separator(literal_separator).build() {
        Ok(glob) => match globset::GlobSetBuilder::new().add(glob).build() {
            Ok(set) => Some(set.is_match(text)),
            Err(_) => None,
        },
        Err(_) => None,
    };
    GlobTest { pattern: pattern.to_string(), literal_separator, text: text.to_string(), matched }
}

/// `tests` are the tests of `text` against each of `patterns`, in order, with
/// `*` matching across `/` and spaces.
pub open spec fn tested(tests: Seq<GlobTest>, patterns: Seq<Seq<char>>, text: Seq<char>) -> bool {
    &&& tests.len() == patterns.len()
    &&& forall|i: int|
        0 <= i < tests.len() ==> (#[trigger] tests[i])@.pattern == patterns[i] && tests[i]@.text
            == text && !tests[i]@.literal_separator && faithful(tests[i]@)
}

/// `tests` are the tests of each of `texts`, in order, against `pattern`, with
/// `*` matching across `/` and spaces.
pub open spec fn tested_each(tests: Seq<GlobTest>, pattern: Seq<char>, texts: Seq<Seq<char>>) -> bool {
    &&& tests.len() == texts.len()
    &&& forall|i: int|
        0 <= i < tests.len() ==> (#[trigger] tests[i])@.pattern == pattern && tests[i]@.text
            == texts[i] && !tests[i]@.literal_separator && faithful(tests[i]@)
}

/// Every one of `patterns` is plain.
pub open spec fn all_plain(patterns: Seq<Seq<char>>) -> bool {
    forall|i: int| 0 <= i < patterns.len() ==> plain(#[trigger] patterns[i])
}

/// globset's named answer for `text` against each of `patterns`.
pub open spec fn named_answers(patterns: Seq<Seq<char>>, text: Seq<char>) -> Seq<Option<bool>> {
    patterns.map_values(|p: Seq<char>| glob_match(p, false, text))
}

/// globset's named answer for each of `texts` against `pattern`.
pub open spec fn named_answers_each(pattern: Seq<char>, texts: Seq<Seq<char>>) -> Seq<Option<bool>> {
    texts.map_values(|t: Seq<char>| glob_match(pattern, false, t))
}

/// Tests of a plain text against plain patterns answer as named.
pub proof fn lemma_tested_answers(tests: Seq<GlobTest>, patterns: Seq<Seq<char>>, text: Seq<char>)
    requires
        tested(tests, patterns, text),
        all_plain(patterns),
        plain(text),
    ensures
        outcomes(tests) == named_answers(patterns, text),
{
    assert forall|i: int| 0 <= i < tests.len() implies outcomes(tests)[i] == named_answers(patterns, text)[i] by {
        assert(tests[i]@.pattern == patterns[i]);
        assert(plain(patterns[i]));
    }
    assert(outcomes(tests) =~= named_answers(patterns, text));
}

/// Tests of plain texts against a plain pattern answer as named.
pub proof fn lemma_tested_each_answers(tests: Seq<GlobTest>, pattern: Seq<char>, texts: Seq<Seq<char>>)
    requires
        tested_each(tests, pattern, texts),
        plain(pattern),
        all_plain(texts),
    ensures
        outcomes(tests) == named_answers_each(pattern, texts),
{
    assert forall|i: int| 0 <= i < tests.len() implies outcomes(tests)[i] == named_answers_each(pattern, texts)[i] by {
        assert(tests[i]@.text == texts[i]);
        assert(plain(texts[i]));
    }
    assert(outcomes(tests) =~= named_answers_each(pattern, texts));
}

/// The answers of `tests`.
pub open spec fn outcomes(tests: Seq<GlobTest>) -> Seq<Option<bool>> {
    tests.map_values(|t: GlobTest| t@.matched)
}

/// Some outcome is a match.
pub open spec fn hit(outcomes: Seq<Option<bool>>) -> bool {
    exists|i: int| 0 <= i < outcomes.len() && #[trigger] outcomes[i] == Some(true)
}

/// Tests `text` against each of `patterns`.
pub fn glob_tests(patterns: &Vec<String>, text: &str) -> (r: Vec<GlobTest>)
    ensures
        tested(r@, views(patterns@), text@),
{
    let mut r: Vec<GlobTest> = Vec::new();
    let mut i: usize = 0;
    while i < patterns.len()
        invariant
            i <= patterns@.len(),
            tested(r@, views(patterns@).take(i as int), text@),
        decreases patterns@.len() - i,
    {
        let t = glob_test(patterns[i].as_str(), false, text);
        r.push(t);
        i = i + 1;
        assert(tested(r@, views(patterns@).take(i as int), text@)) by {
            assert forall|j: int| 0 <= j < r@.len() implies (#[trigger] r@[j])@.pattern == views(
                patterns@,
            ).take(i as int)[j] && r@[j]@.text == text@ && !r@[j]@.literal_separator by {
                if j < i - 1 {
                    assert(views(patterns@).take(i as int)[j] == views(patterns@).take(i - 1)[j]);
                }
            }
        }
    }
    assert(views(patterns@).take(patterns@.len() as int) =~= views(patterns@));
    r
}

/// Tests each of `texts` against `pattern`.
pub fn glob_test_each(pattern: &str, texts: &Vec<String>) -> (r: Vec<GlobTest>)
    ensures
        tested_each(r@, pattern@, views(texts@)),
{
    let mut r: Vec<GlobTest> = Vec::new();
    let mut i: usize = 0;
    while i < texts.len()
        invariant
            i <= texts@.len(),
            tested_each(r@, pattern@, views(texts@).take(i as int)),
        decreases texts@.len() - i,
    {
        let t = glob_test(pattern, false, texts[i].as_str());
        r.push(t);
        i = i + 1;
        assert(tested_each(r@, pattern@, views(texts@).take(i as int))) by {
            assert forall|j: int| 0 <= j < r@.len() implies (#[trigger] r@[j])@.pattern == pattern@
                && r@[j]@.text == views(texts@).take(i as int)[j] && !r@[j]@.literal_separator by {
                if j < i - 1 {
                    assert(views(texts@).take(i as int)[j] == views(texts@).take(i - 1)[j]);
                }
            }
        }
    }
    assert(views(texts@).take(texts@.len() as int) =~= views(texts@));
    r
}

/// The answers of `tests`, in order.
pub fn outcomes_of(tests: &Vec<GlobTest>) -> (r: Vec<Option<bool>>)
    ensures
        r@ == outcomes(tests@),
{
    let mut r: Vec<Option<bool>> = Vec::new();
    let mut i: usize = 0;
    while i < tests.len()
        invariant
            i <= tests@.len(),
            r@ == outcomes(tests@.take(i as int)),
        decreases tests@.len() - i,
    {
        r.push(tests[i].matched());
        i = i + 1;
        assert(r@ =~= outcomes(tests@.take(i as int)));
    }
    assert(tests@.take(tests@.len() as int) =~= tests@);
    r
}

/// Whether some outcome is a match (a set of globs matches when one of them
/// does; a pattern that does not parse matches nothing).
pub fn any_hit(outcomes: &Vec<Option<bool>>) -> (r: bool)
    ensures
        r == hit(outcomes@),
{
    let mut i: usize = 0;
    while i < outcomes.len()
        invariant
            i <= outcomes@.len(),
            forall|j: int| 0 <= j < i ==> #[trigger] outcomes@[j] != Some(true),
        decreases outcomes@.len() - i,
    {
        if outcomes[i] == Some(true) {
            return true;
        }
        i = i + 1;
    }
    false
}

} // verus!
