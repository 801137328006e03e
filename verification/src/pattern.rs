//! The pattern engine: a composite matcher that is edited incrementally.
//!
//! A pattern is a string of terms between spaces. A term is a start anchor
//! (`<`), an end anchor (`>`), an expression (`*`) or, without such a mark, a
//! fuzzy term. A haystack is accepted when every term accepts it.

pub mod engine;
pub mod laws;
pub mod model;
pub mod terms;
pub mod text;

pub use crate::pattern::model::PatternScope;

use crate::pattern::engine::{
    build_regex, regex_is_match, regex_language, regex_source, regex_text,
};
use crate::pattern::model::{
    add_scope, begins_end_anchor, lemma_touches_push, slot_accepts, split_spaces, term_language,
    touches_end_anchor, AddMode, MatcherView, REGEX_SIZE_LIMIT,
};
use crate::pattern::terms::{fuzzy_build, regex_build, unescape};
use crate::pattern::text::{
    chars_of, copy_bytes, has_prefix, has_suffix, lemma_encode_concat, lemma_prefix_is_boundary,
    to_lowercase,
};
use regex::bytes::Regex;
use vstd::prelude::*;
use vstd::slice::slice_subrange;
use vstd::string::StringExecFns;
use vstd::string::StringSliceAdditionalSpecFns;
use vstd::utf8::encode_utf8;

verus! {

/// Whether `re` is what `source` compiles to as a term of a pattern.
pub open spec fn compiled_from(re: Regex, source: Seq<char>) -> bool {
    regex_source(re) == source && regex_language(re) == term_language(source)
}

/// Compiles the expression of a term. Letters match either case unless the
/// expression holds an upper-case letter.
pub fn make_regex(text: &str) -> (built: Option<Regex>)
    ensures
        built matches Some(re) ==> compiled_from(re, text@),
{
    let lower = to_lowercase(text);
    let folds = text.to_owned() == lower;
    build_regex(text, folds, REGEX_SIZE_LIMIT, false, true)
}

/// A matcher: the text of a pattern, and what was compiled from it.
pub struct Matcher {
    patterns: Vec<Option<Regex>>,
    starts_with: Option<Vec<u8>>,
    ends_with: Option<Vec<u8>>,
    mode: AddMode,
    escape: bool,
    text: String,
    bad_regex: Option<String>,
    skip_prefix: usize,
}

/// A slot as the model sees it: the text of its expression, if it has one.
pub closed spec fn slot_view(slot: Option<Regex>) -> Option<Seq<char>> {
    match slot {
        Some(re) => Some(regex_source(re)),
        None => None,
    }
}

impl View for Matcher {
    type V = MatcherView;

    closed spec fn view(&self) -> MatcherView {
        MatcherView {
            patterns: self.patterns@.map_values(|slot: Option<Regex>| slot_view(slot)),
            starts_with: match self.starts_with {
                Some(bytes) => Some(bytes@),
                None => None,
            },
            ends_with: match self.ends_with {
                Some(bytes) => Some(bytes@),
                None => None,
            },
            mode: self.mode,
            escape: self.escape,
            text: self.text@,
            bad_regex: match self.bad_regex {
                Some(source) => Some(source@),
                None => None,
            },
            skip_prefix: self.skip_prefix as nat,
        }
    }
}

impl Matcher {
    /// Every compiled slot matches what its text means.
    closed spec fn slots_ok(&self) -> bool {
        forall|i: int|
            0 <= i < self.patterns.len() ==> ((#[trigger] self.patterns[i]) matches Some(re)
                ==> compiled_from(re, regex_source(re)))
    }

    /// The invariant of a matcher: its state is well formed and every slot
    /// matches what its text means.
    pub closed spec fn wf(&self) -> bool {
        self.slots_ok() && self@.wf()
    }

    /// The state of a well-formed matcher is well formed: a slot waits for
    /// its expression exactly while a failed expression is remembered.
    pub proof fn lemma_wf(&self)
        requires
            self.wf(),
        ensures
            self@.wf(),
    {
    }

    /// A matcher without text, which accepts every haystack.
    pub fn new() -> (matcher: Matcher)
        ensures
            matcher.wf(),
            matcher@ == MatcherView::empty(0),
    {
        let matcher = Matcher {
            patterns: Vec::new(),
            starts_with: None,
            ends_with: None,
            mode: AddMode::New,
            escape: false,
            text: String::new(),
            bad_regex: None,
            skip_prefix: 0,
        };
        assert(matcher@.patterns =~= Seq::empty());
        matcher
    }

    /// Settles the last slot once the longer expression `source` was handed to
    /// the compiler: a compiled expression takes the slot, a failure is
    /// remembered and leaves the slot as it is.
    fn settle_last(&mut self, source: String, built: Option<Regex>) -> (compiled:
        bool)
        requires
            old(self).slots_ok(),
            old(self).patterns.len() > 0,
            built matches Some(re) ==> compiled_from(re, source@),
        ensures
            final(self).slots_ok(),
            compiled == built is Some,
            compiled ==> final(self)@ == (MatcherView {
                bad_regex: None,
                patterns: old(self)@.patterns.update(
                    old(self)@.patterns.len() - 1,
                    Some(source@),
                ),
                ..old(self)@
            }),
            !compiled ==> final(self)@ == (MatcherView {
                bad_regex: Some(source@),
                ..old(self)@
            }),
    {
        match built {
            Some(re) => {
                let last: usize = self.patterns.len() - 1;
                self.patterns[last] = Some(re);
                self.bad_regex = None;
                assert(final(self)@.patterns =~= old(self)@.patterns.update(
                    old(self)@.patterns.len() - 1,
                    Some(source@),
                ));
                true
            },
            None => {
                self.bad_regex = Some(source);
                false
            },
        }
    }

    /// Gives a new term its slot once its expression `source` was handed to
    /// the compiler: a compiled expression fills the slot, a failure is
    /// remembered and leaves the slot waiting.
    fn settle_new(&mut self, source: String, built: Option<Regex>) -> (compiled:
        bool)
        requires
            old(self).slots_ok(),
            built matches Some(re) ==> compiled_from(re, source@),
        ensures
            final(self).slots_ok(),
            compiled == built is Some,
            compiled ==> final(self)@ == (MatcherView {
                patterns: old(self)@.patterns.push(Some(source@)),
                ..old(self)@
            }),
            !compiled ==> final(self)@ == (MatcherView {
                patterns: old(self)@.patterns.push(None),
                bad_regex: Some(source@),
                ..old(self)@
            }),
    {
        match built {
            Some(re) => {
                self.patterns.push(Some(re));
                assert(final(self)@.patterns =~= old(self)@.patterns.push(Some(source@)));
                true
            },
            None => {
                self.patterns.push(None);
                self.bad_regex = Some(source);
                assert(final(self)@.patterns =~= old(self)@.patterns.push(None));
                false
            },
        }
    }

    /// The text that more characters of the last term are added to.
    fn open_source(&mut self) -> (source: String)
        requires
            old(self).slots_ok(),
        ensures
            final(self).slots_ok(),
            source@ == old(self)@.open_source(),
            final(self)@ == (MatcherView { bad_regex: None, ..old(self)@ }),
    {
        match self.bad_regex.take() {
            Some(source) => source,
            None => {
                let n: usize = self.patterns.len();
                if n > 0 {
                    match &self.patterns[n - 1] {
                        Some(re) => regex_text(re),
                        None => String::new(),
                    }
                } else {
                    String::new()
                }
            },
        }
    }

    /// Adds `built` to the expression of the last term and compiles the whole.
    fn extend_regex(&mut self, built: (bool, String)) -> (compiled: bool)
        requires
            old(self).slots_ok(),
            old(self).patterns.len() > 0,
        ensures
            final(self).slots_ok(),
            final(self)@ == old(self)@.extend_regex((built.0, built.1@), compiled),
    {
        let last = self.open_source();
        self.escape = built.0;
        let source = last.concat(built.1.as_str());
        let attempt = make_regex(source.as_str());
        self.settle_last(source, attempt)
    }

    /// Compiles `built` as the expression of a new term.
    fn add_regex(&mut self, built: (bool, String)) -> (compiled: bool)
        requires
            old(self).slots_ok(),
        ensures
            final(self).slots_ok(),
            final(self)@ == old(self)@.add_regex((built.0, built.1@), compiled),
    {
        self.escape = built.0;
        let attempt = make_regex(built.1.as_str());
        self.settle_new(built.1, attempt)
    }

    /// Adds what `body` stands for to the start anchor.
    fn extend_starts_with(&mut self, body: &[char])
        requires
            old(self).slots_ok(),
        ensures
            final(self).slots_ok(),
            final(self)@ == old(self)@.extend_starts_with(body@),
    {
        let read = unescape(self.escape, body);
        let mut current = match self.starts_with.take() {
            Some(bytes) => bytes,
            None => Vec::new(),
        };
        let mut more = read.1;
        current.append(&mut more);
        self.starts_with = Some(current);
        self.escape = read.0;
    }

    /// Adds what `body` stands for to the end anchor.
    fn extend_ends_with(&mut self, body: &[char])
        requires
            old(self).slots_ok(),
        ensures
            final(self).slots_ok(),
            final(self)@ == old(self)@.extend_ends_with(body@),
    {
        let read = unescape(self.escape, body);
        let mut current = match self.ends_with.take() {
            Some(bytes) => bytes,
            None => Vec::new(),
        };
        let mut more = read.1;
        current.append(&mut more);
        self.ends_with = Some(current);
        self.escape = read.0;
    }

    /// Reads the first fragment of added text into the term that is open.
    fn continue_term(&mut self, fragment: &[char]) -> (compiled: bool)
        requires
            old(self).wf(),
        ensures
            final(self).wf(),
            final(self)@ == old(self)@.continue_term(fragment@, compiled),
    {
        if fragment.len() == 0 {
            return true;
        }
        match self.mode {
            AddMode::Fuzzy => {
                let built = fuzzy_build(self.escape, fragment);
                self.extend_regex(built)
            },
            AddMode::Regex => {
                let built = regex_build(self.escape, fragment);
                self.extend_regex(built)
            },
            AddMode::StartsWith => {
                self.extend_starts_with(fragment);
                true
            },
            AddMode::EndsWith => {
                self.extend_ends_with(fragment);
                true
            },
            AddMode::New => true,
        }
    }

    /// Reads a fragment that follows a space: a new term.
    fn begin_term(&mut self, fragment: &[char]) -> (compiled: bool)
        requires
            old(self).wf(),
        ensures
            final(self).wf(),
            final(self)@ == old(self)@.begin_term(fragment@, compiled),
    {
        if self.bad_regex.is_some() {
            self.bad_regex = None;
            self.patterns.pop();
            assert(self@.patterns =~= old(self)@.patterns.drop_last());
        }
        assert(self@ == old(self)@.drop_failed());
        let n: usize = fragment.len();
        if n == 0 {
            self.mode = AddMode::New;
            return true;
        }
        let mark = fragment[0];
        if mark == '<' {
            self.extend_starts_with(slice_subrange(fragment, 1, n));
            self.mode = AddMode::StartsWith;
            true
        } else if mark == '>' {
            self.extend_ends_with(slice_subrange(fragment, 1, n));
            self.mode = AddMode::EndsWith;
            true
        } else if mark == '*' {
            let built = regex_build(false, slice_subrange(fragment, 1, n));
            let compiled = self.add_regex(built);
            self.mode = AddMode::Regex;
            compiled
        } else {
            let built = fuzzy_build(false, fragment);
            let compiled = self.add_regex(built);
            self.mode = AddMode::Fuzzy;
            compiled
        }
    }

    /// Reads one fragment of added text: into the open term if it is the first
    /// fragment and a term is open, as a new term otherwise.
    fn read_fragment(&mut self, continues: bool, fragment: &[char]) -> (compiled: bool)
        requires
            old(self).wf(),
        ensures
            final(self).wf(),
            final(self)@ == if continues {
                old(self)@.continue_term(fragment@, compiled)
            } else {
                old(self)@.begin_term(fragment@, compiled)
            },
    {
        if continues {
            self.continue_term(fragment)
        } else {
            self.begin_term(fragment)
        }
    }

    /// Appends `text` to the pattern and reads it term by term. The first
    /// fragment continues the term the pattern ended in, if any; each fragment
    /// after a space begins a term. The scope is `Change` exactly when the end
    /// anchor was touched, and `Narrow` otherwise.
    pub fn add(&mut self, text: &str) -> (scope: PatternScope)
        requires
            old(self).wf(),
        ensures
            final(self).wf(),
            old(self)@.adds(text@, final(self)@),
            scope == add_scope(old(self)@.mode, text@),
            final(self)@.text == old(self)@.text + text@,
            final(self)@.skip_prefix == old(self)@.skip_prefix,
    {
        let continuing = match self.mode {
            AddMode::New => false,
            _ => true,
        };
        let ends = match self.mode {
            AddMode::EndsWith => true,
            _ => false,
        };
        self.text.append(text);
        let chars = chars_of(text);
        let n: usize = chars.len();
        let ghost mode = old(self)@.mode;
        let ghost entry = self@;
        let ghost mut done: Seq<Seq<char>> = Seq::empty();
        let ghost mut outcomes: Seq<bool> = Seq::empty();
        let mut first = true;
        let mut change = false;
        let mut start: usize = 0;
        let mut i: usize = 0;
        proof {
            assert(chars@.take(0).len() == 0);
            assert(chars@.subrange(0, 0) =~= Seq::<char>::empty());
            assert(split_spaces(chars@.take(0)) =~= done.push(chars@.subrange(0, 0)));
        }
        while i < n
            invariant
                start <= i <= n,
                n == chars@.len(),
                split_spaces(chars@.take(i as int)) == done.push(
                    chars@.subrange(start as int, i as int),
                ),
                outcomes.len() == done.len(),
                first == (done.len() == 0),
                self@ == entry.add_fragments(continuing, done, outcomes),
                self@.text == entry.text,
                self@.skip_prefix == entry.skip_prefix,
                self.wf(),
                change == touches_end_anchor(mode, done),
                continuing == (mode != AddMode::New),
                ends == (mode == AddMode::EndsWith),
            decreases n - i,
        {
            proof {
                assert(chars@.take(i + 1).drop_last() =~= chars@.take(i as int));
                assert(chars@.take(i + 1).last() == chars@[i as int]);
            }
            if chars[i] == ' ' {
                let fragment = slice_subrange(chars.as_slice(), start, i);
                let touched = Self::touches(first, continuing, ends, fragment);
                let compiled = self.read_fragment(first && continuing, fragment);
                proof {
                    lemma_touches_push(mode, done, fragment@);
                    assert(done.push(fragment@).drop_last() =~= done);
                    assert(outcomes.push(compiled).drop_last() =~= outcomes);
                    done = done.push(fragment@);
                    outcomes = outcomes.push(compiled);
                    assert(chars@.subrange(i + 1, i + 1) =~= Seq::<char>::empty());
                }
                change = change || touched;
                first = false;
                start = i + 1;
            } else {
                proof {
                    assert(chars@.subrange(start as int, i + 1) =~= chars@.subrange(
                        start as int,
                        i as int,
                    ).push(chars@[i as int]));
                    assert(done.push(chars@.subrange(start as int, i as int)).drop_last()
                        =~= done);
                }
            }
            i += 1;
        }
        let fragment = slice_subrange(chars.as_slice(), start, n);
        let touched = Self::touches(first, continuing, ends, fragment);
        let compiled = self.read_fragment(first && continuing, fragment);
        proof {
            lemma_touches_push(mode, done, fragment@);
            assert(done.push(fragment@).drop_last() =~= done);
            assert(outcomes.push(compiled).drop_last() =~= outcomes);
            assert(chars@.take(n as int) =~= chars@);
            done = done.push(fragment@);
            outcomes = outcomes.push(compiled);
            assert(done == split_spaces(text@));
            assert(entry == MatcherView { text: old(self)@.text + text@, ..old(self)@ });
            assert(self@ == old(self)@.add(text@, outcomes));
        }
        if change || touched {
            PatternScope::Change
        } else {
            PatternScope::Narrow
        }
    }

    /// Whether reading `fragment` touches the end anchor.
    fn touches(first: bool, continuing: bool, ends: bool, fragment: &[char]) -> (touched: bool)
        ensures
            touched == if first && continuing {
                ends && fragment@.len() > 0
            } else {
                begins_end_anchor(fragment@)
            },
    {
        if first && continuing {
            ends && fragment.len() > 0
        } else {
            fragment.len() > 0 && fragment[0] == '>'
        }
    }

    /// Forgets the text and all that was read from it. The number of skipped
    /// bytes stays.
    pub fn reset(&mut self)
        ensures
            final(self).wf(),
            final(self)@ == old(self)@.reset(),
    {
        self.text = String::new();
        self.patterns.clear();
        self.starts_with = None;
        self.ends_with = None;
        self.mode = AddMode::New;
        self.escape = false;
        self.bad_regex = None;
        assert(self@.patterns =~= Seq::empty());
    }

    /// Sets how many leading bytes of a haystack are left out of the match.
    pub fn skip_prefix(&mut self, n: usize)
        requires
            old(self).wf(),
        ensures
            final(self).wf(),
            final(self)@ == (MatcherView { skip_prefix: n as nat, ..old(self)@ }),
    {
        self.skip_prefix = n;
    }

    /// The text of the pattern: everything that was added, in order.
    pub fn text(&self) -> (text: &str)
        ensures
            text@ == self@.text,
    {
        self.text.as_str()
    }

    /// A copy of the start anchor, if there is one.
    pub fn starts_with(&self) -> (anchor: Option<Vec<u8>>)
        ensures
            match anchor {
                Some(bytes) => self@.starts_with == Some(bytes@),
                None => self@.starts_with is None,
            },
    {
        match &self.starts_with {
            Some(bytes) => Some(copy_bytes(bytes.as_slice())),
            None => None,
        }
    }

    /// A copy of the end anchor, if there is one.
    pub fn ends_with(&self) -> (anchor: Option<Vec<u8>>)
        ensures
            match anchor {
                Some(bytes) => self@.ends_with == Some(bytes@),
                None => self@.ends_with is None,
            },
    {
        match &self.ends_with {
            Some(bytes) => Some(copy_bytes(bytes.as_slice())),
            None => None,
        }
    }

    /// Whether the text can lose its last `amount` bytes, as `rm` asks.
    pub fn can_rm(&self, amount: usize) -> (ok: bool)
        ensures
            ok == self@.can_rm(amount as nat),
    {
        let len: usize = self.text.as_str().as_bytes().len();
        amount >= len || self.text.as_str().is_char_boundary(len - amount)
    }

    /// Whether the text can be replaced from byte `start` on, as `set` asks.
    pub fn can_set(&self, start: usize) -> (ok: bool)
        ensures
            ok == self@.can_set(start as nat),
    {
        let len: usize = self.text.as_str().as_bytes().len();
        start >= len || self.text.as_str().is_char_boundary(start)
    }

    /// Takes the last `amount` bytes off the text, or all of it if it has no
    /// more, and reads what is left anew.
    pub fn rm(&mut self, amount: usize) -> (scope: PatternScope)
        requires
            old(self).wf(),
            old(self)@.can_rm(amount as nat),
        ensures
            final(self).wf(),
            scope == PatternScope::Change,
            old(self)@.rms(amount as nat, final(self)@),
            final(self)@.skip_prefix == old(self)@.skip_prefix,
    {
        let len: usize = self.text.as_str().as_bytes().len();
        if amount < len {
            let kept = self.text.as_str().split_at(len - amount).0.to_owned();
            self.reset();
            self.add(kept.as_str());
            proof {
                assert(final(self)@.text =~= kept@);
            }
        } else {
            self.reset();
            proof {
                lemma_add_nothing(self@);
                assert(self@.text_bytes() =~= Seq::<u8>::empty());
            }
        }
        PatternScope::Change
    }

    /// Replaces the text from byte `start` on by `text`. Where that only adds
    /// to the end, what is new is added; otherwise the whole pattern is read
    /// anew, and the scope is `Change`.
    pub fn set(&mut self, start: usize, text: &str) -> (scope: PatternScope)
        requires
            old(self).wf(),
            old(self)@.can_set(start as nat),
        ensures
            final(self).wf(),
            old(self)@.sets(start as nat, text@, final(self)@, scope),
            final(self)@.skip_prefix == old(self)@.skip_prefix,
    {
        broadcast use vstd::utf8::encode_utf8_valid_utf8, vstd::utf8::encode_utf8_decode_utf8;

        let len: usize = self.text.as_str().as_bytes().len();
        let ghost bytes = old(self)@.text_bytes();
        if start >= len {
            proof {
                lemma_encode_concat(self@.text, text@);
                assert(bytes.take(bytes.len() as int) =~= bytes);
            }
            return self.add(text);
        }
        let parts = self.text.as_str().split_at(start);
        let replaced = parts.1.as_bytes();
        if has_prefix(text.as_bytes(), replaced) {
            proof {
                lemma_prefix_is_boundary(replaced@, text.spec_bytes());
            }
            let tail = text.split_at(replaced.len()).1;
            proof {
                assert(encode_utf8(tail@) =~= encode_utf8(text@).skip(replaced@.len() as int));
                lemma_encode_concat(self@.text, tail@);
                assert(replaced@ =~= bytes.skip(start as int));
                assert(encode_utf8(text@) =~= replaced@ + encode_utf8(tail@));
                assert(bytes =~= bytes.take(start as int) + replaced@);
                assert(bytes + encode_utf8(tail@) =~= bytes.take(start as int) + encode_utf8(
                    text@,
                ));
            }
            return self.add(tail);
        }
        let whole = parts.0.to_owned().concat(text);
        proof {
            lemma_encode_concat(parts.0@, text@);
        }
        self.reset();
        self.add(whole.as_str());
        proof {
            assert(final(self)@.text =~= whole@);
        }
        PatternScope::Change
    }

    /// The part of `haystack` that is matched.
    fn adjust_haystack<'a>(&self, haystack: &'a [u8]) -> (hay: &'a [u8])
        ensures
            hay@ == self@.trimmed(haystack@),
    {
        let n: usize = haystack.len();
        let from: usize = if self.skip_prefix < n {
            self.skip_prefix
        } else {
            n
        };
        let hay = slice_subrange(haystack, from, n);
        proof {
            assert(hay@ =~= self@.trimmed(haystack@));
        }
        hay
    }

    /// Whether every part of the pattern accepts `haystack`: the start anchor
    /// stands at its start, the end anchor at its end, and every expression
    /// matches in it. A pattern without text accepts every haystack.
    pub fn all_matches(&self, haystack: &[u8]) -> (accepted: bool)
        requires
            self.wf(),
        ensures
            accepted == self@.all_matches(haystack@),
    {
        if self.text.as_str().is_empty() {
            return true;
        }
        let hay = self.adjust_haystack(haystack);
        match &self.starts_with {
            Some(needle) => {
                if !has_prefix(hay, needle.as_slice()) {
                    return false;
                }
            },
            None => {},
        }
        match &self.ends_with {
            Some(needle) => {
                if !has_suffix(hay, needle.as_slice()) {
                    return false;
                }
            },
            None => {},
        }
        let mut i: usize = 0;
        while i < self.patterns.len()
            invariant
                i <= self.patterns.len(),
                self.wf(),
                self@.text.len() != 0,
                hay@ == self@.trimmed(haystack@),
                forall|k: int| 0 <= k < i ==> slot_accepts(#[trigger] self@.patterns[k], hay@),
            decreases self.patterns.len() - i,
        {
            if !self.slot_matches(i, hay) {
                assert(!slot_accepts(self@.patterns[i as int], hay@));
                return false;
            }
            i += 1;
        }
        true
    }

    /// Whether some part of the pattern accepts `haystack`. A pattern without
    /// text accepts no haystack.
    pub fn any_matches(&self, haystack: &[u8]) -> (accepted: bool)
        requires
            self.wf(),
        ensures
            accepted == self@.any_matches(haystack@),
    {
        if self.text.as_str().is_empty() {
            return false;
        }
        let hay = self.adjust_haystack(haystack);
        match &self.starts_with {
            Some(needle) => {
                if has_prefix(hay, needle.as_slice()) {
                    return true;
                }
            },
            None => {},
        }
        match &self.ends_with {
            Some(needle) => {
                if has_suffix(hay, needle.as_slice()) {
                    return true;
                }
            },
            None => {},
        }
        let mut i: usize = 0;
        while i < self.patterns.len()
            invariant
                i <= self.patterns.len(),
                self.wf(),
                self@.text.len() != 0,
                hay@ == self@.trimmed(haystack@),
                forall|k: int| 0 <= k < i ==> !slot_accepts(#[trigger] self@.patterns[k], hay@),
            decreases self.patterns.len() - i,
        {
            if self.slot_matches(i, hay) {
                assert(slot_accepts(self@.patterns[i as int], hay@));
                return true;
            }
            i += 1;
        }
        false
    }

    /// Whether slot `i` accepts `hay`.
    fn slot_matches(&self, i: usize, hay: &[u8]) -> (accepted: bool)
        requires
            self.wf(),
            i < self.patterns.len(),
        ensures
            accepted == slot_accepts(self@.patterns[i as int], hay@),
    {
        match &self.patterns[i] {
            Some(re) => regex_is_match(re, hay),
            None => true,
        }
    }
}

/// The state of a pattern: its matcher and the number of its version.
#[verifier::ext_equal]
pub struct PatternView {
    /// What the pattern accepts, and how it got there.
    pub matcher: MatcherView,
    /// The number of edits so far.
    pub version: usize,
}

impl PatternView {
    /// The pattern after an edit that left it with `matcher`.
    pub open spec fn edited(self, matcher: MatcherView) -> PatternView {
        PatternView { matcher, version: next_version(self.version) }
    }
}

/// The version after one more edit. The counter wraps at the end of its range.
pub open spec fn next_version(version: usize) -> usize {
    if version == usize::MAX {
        0
    } else {
        (version + 1) as usize
    }
}

/// A pattern: a matcher with a version that every edit moves on. Whoever
/// matched a haystack under one version can tell later, from the version,
/// whether the pattern was edited since.
pub struct Pattern {
    matcher: Matcher,
    version: usize,
}

impl View for Pattern {
    type V = PatternView;

    closed spec fn view(&self) -> PatternView {
        PatternView { matcher: self.matcher@, version: self.version }
    }
}

impl Default for Pattern {
    /// A pattern without text, at version 0.
    fn default() -> (pattern: Pattern)
        ensures
            pattern.wf(),
            pattern@ == Pattern::default_view(),
    {
        Pattern { matcher: Matcher::new(), version: 0 }
    }
}

impl Pattern {
    /// The state of a new pattern: no text, version 0.
    pub open spec fn default_view() -> PatternView {
        PatternView { matcher: MatcherView::empty(0), version: 0 }
    }

    /// The invariant of a pattern, which every function here keeps.
    pub closed spec fn wf(&self) -> bool {
        self.matcher.wf()
    }

    /// The matcher of a well-formed pattern is well formed.
    pub proof fn lemma_wf(&self)
        requires
            self.wf(),
        ensures
            self@.matcher.wf(),
    {
    }

    /// Counts one more edit.
    fn inc_version(&mut self)
        ensures
            final(self).matcher == old(self).matcher,
            final(self).version == next_version(old(self).version),
    {
        self.version = if self.version == usize::MAX {
            0
        } else {
            self.version + 1
        };
    }

    /// Whether every part of the pattern accepts `line`.
    pub fn all_matches(&self, line: &[u8]) -> (accepted: bool)
        requires
            self.wf(),
        ensures
            accepted == self@.matcher.all_matches(line@),
    {
        self.matcher.all_matches(line)
    }

    /// Whether some part of the pattern accepts `line`.
    pub fn any_matches(&self, line: &[u8]) -> (accepted: bool)
        requires
            self.wf(),
        ensures
            accepted == self@.matcher.any_matches(line@),
    {
        self.matcher.any_matches(line)
    }

    /// The number of edits so far.
    pub fn version(&self) -> (version: usize)
        ensures
            version == self@.version,
    {
        self.version
    }

    /// Appends `text` to the pattern; see [`Matcher::add`].
    pub fn add(&mut self, text: &str) -> (scope: PatternScope)
        requires
            old(self).wf(),
        ensures
            final(self).wf(),
            final(self)@.version == next_version(old(self)@.version),
            old(self)@.matcher.adds(text@, final(self)@.matcher),
            scope == add_scope(old(self)@.matcher.mode, text@),
            final(self)@.matcher.text == old(self)@.matcher.text + text@,
            final(self)@.matcher.skip_prefix == old(self)@.matcher.skip_prefix,
    {
        self.inc_version();
        self.matcher.add(text)
    }

    /// Takes the last `amount` bytes off the text; see [`Matcher::rm`].
    pub fn rm(&mut self, amount: usize) -> (scope: PatternScope)
        requires
            old(self).wf(),
            old(self)@.matcher.can_rm(amount as nat),
        ensures
            final(self).wf(),
            final(self)@.version == next_version(old(self)@.version),
            scope == PatternScope::Change,
            old(self)@.matcher.rms(amount as nat, final(self)@.matcher),
    {
        self.inc_version();
        self.matcher.rm(amount)
    }

    /// Replaces the text from byte `start` on; see [`Matcher::set`].
    pub fn set(&mut self, start: usize, text: &str) -> (scope: PatternScope)
        requires
            old(self).wf(),
            old(self)@.matcher.can_set(start as nat),
        ensures
            final(self).wf(),
            final(self)@.version == next_version(old(self)@.version),
            old(self)@.matcher.sets(start as nat, text@, final(self)@.matcher, scope),
    {
        self.inc_version();
        self.matcher.set(start, text)
    }

    /// Takes the last `amount` bytes off the text if the cut does not fall
    /// inside a character, and leaves the pattern alone if it does.
    pub fn try_rm(&mut self, amount: usize) -> (scope: Option<PatternScope>)
        requires
            old(self).wf(),
        ensures
            final(self).wf(),
            scope is Some == old(self)@.matcher.can_rm(amount as nat),
            match scope {
                Some(scope) => scope == PatternScope::Change && final(self)@.version
                    == next_version(old(self)@.version) && old(self)@.matcher.rms(
                    amount as nat,
                    final(self)@.matcher,
                ),
                None => final(self)@ == old(self)@,
            },
    {
        if self.can_rm(amount) {
            Some(self.rm(amount))
        } else {
            None
        }
    }

    /// Replaces the text from byte `start` on if that place does not fall
    /// inside a character, and leaves the pattern alone if it does.
    pub fn try_set(&mut self, start: usize, text: &str) -> (scope: Option<PatternScope>)
        requires
            old(self).wf(),
        ensures
            final(self).wf(),
            scope is Some == old(self)@.matcher.can_set(start as nat),
            match scope {
                Some(scope) => final(self)@.version == next_version(old(self)@.version)
                    && old(self)@.matcher.sets(start as nat, text@, final(self)@.matcher, scope),
                None => final(self)@ == old(self)@,
            },
    {
        if self.can_set(start) {
            Some(self.set(start, text))
        } else {
            None
        }
    }

    /// Sets how many leading bytes of a haystack are left out of the match.
    pub fn skip_prefix(&mut self, n: usize)
        requires
            old(self).wf(),
        ensures
            final(self).wf(),
            final(self)@.version == next_version(old(self)@.version),
            final(self)@.matcher == (MatcherView { skip_prefix: n as nat, ..old(self)@.matcher }),
    {
        self.inc_version();
        self.matcher.skip_prefix(n);
    }

    /// Forgets the text and all that was read from it.
    pub fn reset(&mut self)
        ensures
            final(self).wf(),
            final(self)@.version == next_version(old(self)@.version),
            final(self)@.matcher == old(self)@.matcher.reset(),
    {
        self.inc_version();
        self.matcher.reset();
    }

    /// A copy of the start anchor, if there is one.
    pub fn starts_with(&self) -> (anchor: Option<Vec<u8>>)
        ensures
            match anchor {
                Some(bytes) => self@.matcher.starts_with == Some(bytes@),
                None => self@.matcher.starts_with is None,
            },
    {
        self.matcher.starts_with()
    }

    /// A copy of the end anchor, if there is one.
    pub fn ends_with(&self) -> (anchor: Option<Vec<u8>>)
        ensures
            match anchor {
                Some(bytes) => self@.matcher.ends_with == Some(bytes@),
                None => self@.matcher.ends_with is None,
            },
    {
        self.matcher.ends_with()
    }

    /// A copy of the text of the pattern.
    pub fn clone_text(&self) -> (text: String)
        ensures
            text@ == self@.matcher.text,
    {
        self.matcher.text().to_owned()
    }

    /// Whether the text can lose its last `amount` bytes, as `rm` asks.
    pub fn can_rm(&self, amount: usize) -> (ok: bool)
        ensures
            ok == self@.matcher.can_rm(amount as nat),
    {
        self.matcher.can_rm(amount)
    }

    /// Whether the text can be replaced from byte `start` on, as `set` asks.
    pub fn can_set(&self, start: usize) -> (ok: bool)
        ensures
            ok == self@.matcher.can_set(start as nat),
    {
        self.matcher.can_set(start)
    }
}

/// Adding no text to a pattern without text leaves it as it is.
proof fn lemma_add_nothing(m: MatcherView)
    requires
        m == MatcherView::empty(m.skip_prefix),
    ensures
        m.adds(m.text, m),
{
    let fragments = split_spaces(m.text);
    let outcomes = seq![true];
    assert(fragments =~= seq![Seq::<char>::empty()]);
    assert(m.text + m.text =~= m.text);
    let entry = MatcherView { text: m.text + m.text, ..m };
    assert(entry == m);
    assert(fragments.drop_last().len() == 0);
    assert(entry.add_fragments(false, fragments.drop_last(), outcomes.drop_last()) == entry);
    assert(m.add(m.text, outcomes) == m);
}

} // verus!
