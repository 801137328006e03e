//! What a matcher is, as plain mathematics: its state, how an edit changes it,
//! and which haystacks it accepts.

use crate::pattern::engine::pattern_language;
use crate::pattern::terms::{fuzzy, literal, verbatim};
use crate::pattern::text::lowercase;
use vstd::prelude::*;
use vstd::utf8::{decode_utf8, encode_utf8, is_char_boundary};

verus! {

/// How far an edit may move the set of accepted haystacks.
#[derive(Debug, Clone, Copy, PartialEq, Eq, Structural)]
pub enum PatternScope {
    /// The set can only have shrunk.
    Narrow,
    /// The set can only have grown.
    Widen,
    /// The set may have moved in any way.
    Change,
}

/// The kind of the term that the text ends in. Text added without a leading
/// space continues that term.
#[derive(Debug, Clone, Copy, PartialEq, Eq, Structural)]
pub enum AddMode {
    /// No term is open: the text is empty or ends in a space.
    New,
    /// A term whose characters may be spread over the haystack.
    Fuzzy,
    /// A term given as an expression, after `*`.
    Regex,
    /// An anchor at the start of the haystack, after `<`.
    StartsWith,
    /// An anchor at the end of the haystack, after `>`.
    EndsWith,
}

/// Upper bound, in bytes, on the size of a compiled expression.
pub const REGEX_SIZE_LIMIT: usize = 50000;

/// The haystacks that the expression `source` matches as a term of a pattern:
/// bytes rather than characters, lazy repetition, and letters of either case
/// as long as `source` itself holds no upper-case letter.
pub open spec fn term_language(source: Seq<char>) -> Set<Seq<u8>> {
    pattern_language(source, source == lowercase(source), false, true)
}

/// Whether a slot of the expression list accepts `haystack`. A slot is the
/// text of a compiled expression, or nothing while its term does not compile;
/// such a slot accepts everything, as the empty expression does.
pub open spec fn slot_accepts(slot: Option<Seq<char>>, haystack: Seq<u8>) -> bool {
    match slot {
        Some(source) => term_language(source).contains(haystack),
        None => true,
    }
}

/// The fragments between the spaces of `text`. There is always at least one,
/// and a fragment may be empty.
pub open spec fn split_spaces(text: Seq<char>) -> Seq<Seq<char>>
    decreases text.len(),
{
    if text.len() == 0 {
        seq![Seq::<char>::empty()]
    } else {
        let before = split_spaces(text.drop_last());
        if text.last() == ' ' {
            before.push(Seq::<char>::empty())
        } else {
            before.drop_last().push(before.last().push(text.last()))
        }
    }
}

/// Whether a fragment that begins a term begins an end anchor.
pub open spec fn begins_end_anchor(fragment: Seq<char>) -> bool {
    fragment.len() > 0 && fragment[0] == '>'
}

/// Whether adding `fragments` to a matcher in mode `mode` touches the end
/// anchor: the first fragment continues an end anchor, or a later one begins
/// one.
pub open spec fn touches_end_anchor(mode: AddMode, fragments: Seq<Seq<char>>) -> bool {
    ||| mode == AddMode::EndsWith && fragments.len() > 0 && fragments[0].len() > 0
    ||| exists|k: int|
        (if mode == AddMode::New {
            0int
        } else {
            1int
        }) <= k < fragments.len() && begins_end_anchor(#[trigger] fragments[k])
}

/// The scope of adding `text` to a matcher in mode `mode`.
pub open spec fn add_scope(mode: AddMode, text: Seq<char>) -> PatternScope {
    if touches_end_anchor(mode, split_spaces(text)) {
        PatternScope::Change
    } else {
        PatternScope::Narrow
    }
}

/// The state of a matcher.
#[verifier::ext_equal]
pub struct MatcherView {
    /// One slot for each fuzzy or regex term: see [`slot_accepts`].
    pub patterns: Seq<Option<Seq<char>>>,
    /// The bytes every accepted haystack begins with, if any start anchor was given.
    pub starts_with: Option<Seq<u8>>,
    /// The bytes every accepted haystack ends with, if any end anchor was given.
    pub ends_with: Option<Seq<u8>>,
    /// The kind of the last term.
    pub mode: AddMode,
    /// Whether the text ends in a backslash that still waits for its character.
    pub escape: bool,
    /// Everything that was added, in order.
    pub text: Seq<char>,
    /// The expression of the last term, if it did not compile.
    pub bad_regex: Option<Seq<char>>,
    /// How many leading bytes of a haystack are left out of the match.
    pub skip_prefix: nat,
}

impl MatcherView {
    /// A matcher without text.
    pub open spec fn empty(skip_prefix: nat) -> MatcherView {
        MatcherView {
            patterns: Seq::empty(),
            starts_with: None,
            ends_with: None,
            mode: AddMode::New,
            escape: false,
            text: Seq::empty(),
            bad_regex: None,
            skip_prefix,
        }
    }

    /// What holds of every matcher: only the last slot can be waiting for its
    /// expression, it waits exactly while a failed expression is remembered,
    /// and a fuzzy or regex term has a slot.
    pub open spec fn wf(self) -> bool {
        &&& self.bad_regex is Some ==> self.patterns.len() > 0
        &&& forall|i: int|
            0 <= i < self.patterns.len() && (#[trigger] self.patterns[i]) is None ==> i + 1
                == self.patterns.len() && self.bad_regex is Some
        &&& self.mode == AddMode::Fuzzy || self.mode == AddMode::Regex ==> self.patterns.len() > 0
    }

    /// The state after `reset`: the text and all that was read from it are
    /// gone; the number of skipped bytes stays.
    pub open spec fn reset(self) -> MatcherView {
        MatcherView::empty(self.skip_prefix)
    }

    /// The expression text that more characters of the last term are added to.
    pub open spec fn open_source(self) -> Seq<char> {
        match self.bad_regex {
            Some(source) => source,
            None => if self.patterns.len() > 0 && self.patterns.last() is Some {
                self.patterns.last()->0
            } else {
                Seq::empty()
            },
        }
    }

    /// The last term grows by `built`. If the longer expression compiles it
    /// takes the last slot; if not, it is remembered and the slot stays as it is.
    pub open spec fn extend_regex(self, built: (bool, Seq<char>), compiled: bool) -> MatcherView {
        let source = self.open_source() + built.1;
        if compiled {
            MatcherView {
                escape: built.0,
                bad_regex: None,
                patterns: self.patterns.update(self.patterns.len() - 1, Some(source)),
                ..self
            }
        } else {
            MatcherView { escape: built.0, bad_regex: Some(source), ..self }
        }
    }

    /// A new term with expression `built`. If it compiles it gets a slot of
    /// its own; if not, it is remembered and gets a slot that waits.
    pub open spec fn add_regex(self, built: (bool, Seq<char>), compiled: bool) -> MatcherView {
        if compiled {
            MatcherView { escape: built.0, patterns: self.patterns.push(Some(built.1)), ..self }
        } else {
            MatcherView {
                escape: built.0,
                patterns: self.patterns.push(None),
                bad_regex: Some(built.1),
                ..self
            }
        }
    }

    /// The start anchor grows by what `body` stands for.
    pub open spec fn extend_starts_with(self, body: Seq<char>) -> MatcherView {
        let read = literal(self.escape, body);
        let so_far = match self.starts_with {
            Some(bytes) => bytes,
            None => Seq::empty(),
        };
        MatcherView { escape: read.0, starts_with: Some(so_far + encode_utf8(read.1)), ..self }
    }

    /// The end anchor grows by what `body` stands for.
    pub open spec fn extend_ends_with(self, body: Seq<char>) -> MatcherView {
        let read = literal(self.escape, body);
        let so_far = match self.ends_with {
            Some(bytes) => bytes,
            None => Seq::empty(),
        };
        MatcherView { escape: read.0, ends_with: Some(so_far + encode_utf8(read.1)), ..self }
    }

    /// The first fragment of added text, when a term is open: it continues
    /// that term. `compiled` says how compiling went, where an expression was
    /// compiled.
    pub open spec fn continue_term(self, fragment: Seq<char>, compiled: bool) -> MatcherView {
        if fragment.len() == 0 {
            self
        } else {
            match self.mode {
                AddMode::Fuzzy => self.extend_regex(fuzzy(self.escape, fragment), compiled),
                AddMode::Regex => self.extend_regex(verbatim(self.escape, fragment), compiled),
                AddMode::StartsWith => self.extend_starts_with(fragment),
                AddMode::EndsWith => self.extend_ends_with(fragment),
                AddMode::New => self,
            }
        }
    }

    /// A term that never compiled is given up, with its slot, when the next
    /// term begins.
    pub open spec fn drop_failed(self) -> MatcherView {
        if self.bad_regex is Some {
            MatcherView { bad_regex: None, patterns: self.patterns.drop_last(), ..self }
        } else {
            self
        }
    }

    /// A fragment that follows a space: it begins a term, whose kind its first
    /// character tells. An empty fragment leaves no term open.
    pub open spec fn begin_term(self, fragment: Seq<char>, compiled: bool) -> MatcherView {
        let base = self.drop_failed();
        if fragment.len() == 0 {
            MatcherView { mode: AddMode::New, ..base }
        } else if fragment[0] == '<' {
            MatcherView { mode: AddMode::StartsWith, ..base.extend_starts_with(fragment.skip(1)) }
        } else if fragment[0] == '>' {
            MatcherView { mode: AddMode::EndsWith, ..base.extend_ends_with(fragment.skip(1)) }
        } else if fragment[0] == '*' {
            MatcherView {
                mode: AddMode::Regex,
                ..base.add_regex(verbatim(false, fragment.skip(1)), compiled)
            }
        } else {
            MatcherView { mode: AddMode::Fuzzy, ..base.add_regex(fuzzy(false, fragment), compiled) }
        }
    }

    /// The state after the fragments of added text, one after the other.
    /// `continuing` says whether a term was open before the first of them;
    /// `outcomes` holds, for each fragment, how compiling went.
    pub open spec fn add_fragments(
        self,
        continuing: bool,
        fragments: Seq<Seq<char>>,
        outcomes: Seq<bool>,
    ) -> MatcherView
        decreases fragments.len(),
    {
        if fragments.len() == 0 {
            self
        } else {
            let before = self.add_fragments(continuing, fragments.drop_last(), outcomes.drop_last());
            if fragments.len() == 1 && continuing {
                before.continue_term(fragments.last(), outcomes.last())
            } else {
                before.begin_term(fragments.last(), outcomes.last())
            }
        }
    }

    /// The state after `add(text)`, where `outcomes` holds for each fragment
    /// of `text` whether its expression compiled.
    pub open spec fn add(self, text: Seq<char>, outcomes: Seq<bool>) -> MatcherView {
        MatcherView { text: self.text + text, ..self }.add_fragments(
            self.mode != AddMode::New,
            split_spaces(text),
            outcomes,
        )
    }

    /// Whether `after` is a state that `add(text)` can lead to from this one.
    /// The text decides everything but which expressions compile.
    pub open spec fn adds(self, text: Seq<char>, after: MatcherView) -> bool {
        exists|outcomes: Seq<bool>|
            outcomes.len() == split_spaces(text).len() && after == #[trigger] self.add(
                text,
                outcomes,
            )
    }

    /// The text in UTF-8, which is what lengths and positions in it count.
    pub open spec fn text_bytes(self) -> Seq<u8> {
        encode_utf8(self.text)
    }

    /// The text without its last `amount` bytes; nothing if it has no more
    /// than that.
    pub open spec fn kept_bytes(self, amount: nat) -> Seq<u8> {
        if amount < self.text_bytes().len() {
            self.text_bytes().take(self.text_bytes().len() - amount)
        } else {
            Seq::empty()
        }
    }

    /// Whether the text can lose its last `amount` bytes: the cut must not
    /// fall inside a character.
    pub open spec fn can_rm(self, amount: nat) -> bool {
        amount < self.text_bytes().len() ==> is_char_boundary(
            self.text_bytes(),
            self.text_bytes().len() - amount,
        )
    }

    /// Whether the text can be replaced from byte `start` on: the position
    /// must not fall inside a character.
    pub open spec fn can_set(self, start: nat) -> bool {
        start < self.text_bytes().len() ==> is_char_boundary(self.text_bytes(), start as int)
    }

    /// What `set(start, text)` only has to append, if anything: all of `text`
    /// when `start` is at or behind the end, and the rest of `text` when it
    /// begins with what the pattern holds from `start` on. `None` means that
    /// the pattern is read anew.
    pub open spec fn set_tail(self, start: nat, text: Seq<char>) -> Option<Seq<char>> {
        if start >= self.text_bytes().len() {
            Some(text)
        } else {
            let replaced = self.text_bytes().skip(start as int);
            if replaced.is_prefix_of(encode_utf8(text)) {
                Some(decode_utf8(encode_utf8(text).skip(replaced.len() as int)))
            } else {
                None
            }
        }
    }

    /// Whether `after` is a state that `rm(amount)` can lead to from this
    /// one: the text has lost its last `amount` bytes, and the matcher is what
    /// reading that text from nothing gives.
    pub open spec fn rms(self, amount: nat, after: MatcherView) -> bool {
        &&& after.text_bytes() == self.kept_bytes(amount)
        &&& self.reset().adds(after.text, after)
    }

    /// Whether `after` and `scope` are what `set(start, text)` can lead to
    /// from this state. The text is the old one up to byte `start`, then
    /// `text`. Where that only appends, the matcher is what adding the new
    /// tail gives, with the scope of that addition; otherwise it is what
    /// reading the whole text from nothing gives, and the scope is `Change`.
    pub open spec fn sets(
        self,
        start: nat,
        text: Seq<char>,
        after: MatcherView,
        scope: PatternScope,
    ) -> bool {
        &&& after.text_bytes() == self.text_bytes().take(
            if start < self.text_bytes().len() {
                start as int
            } else {
                self.text_bytes().len() as int
            },
        ) + encode_utf8(text)
        &&& match self.set_tail(start, text) {
            Some(tail) => self.adds(tail, after) && scope == add_scope(self.mode, tail),
            None => self.reset().adds(after.text, after) && scope == PatternScope::Change,
        }
    }

    /// The part of a haystack that is matched: all but the skipped bytes.
    pub open spec fn trimmed(self, haystack: Seq<u8>) -> Seq<u8> {
        if self.skip_prefix < haystack.len() {
            haystack.skip(self.skip_prefix as int)
        } else {
            Seq::empty()
        }
    }

    /// Whether the start anchor, if there is one, stands at the start of `hay`.
    pub open spec fn starts_ok(self, hay: Seq<u8>) -> bool {
        self.starts_with matches Some(needle) ==> needle.is_prefix_of(hay)
    }

    /// Whether the end anchor, if there is one, stands at the end of `hay`.
    pub open spec fn ends_ok(self, hay: Seq<u8>) -> bool {
        self.ends_with matches Some(needle) ==> needle.is_suffix_of(hay)
    }

    /// Whether every part of the pattern accepts `haystack`. A pattern without
    /// text accepts everything.
    pub open spec fn all_matches(self, haystack: Seq<u8>) -> bool {
        self.text.len() == 0 || {
            let hay = self.trimmed(haystack);
            &&& self.starts_ok(hay)
            &&& self.ends_ok(hay)
            &&& forall|i: int|
                0 <= i < self.patterns.len() ==> slot_accepts(#[trigger] self.patterns[i], hay)
        }
    }

    /// Whether some part of the pattern accepts `haystack`. A pattern without
    /// text accepts nothing.
    pub open spec fn any_matches(self, haystack: Seq<u8>) -> bool {
        self.text.len() != 0 && {
            let hay = self.trimmed(haystack);
            ||| self.starts_with matches Some(needle) && needle.is_prefix_of(hay)
            ||| self.ends_with matches Some(needle) && needle.is_suffix_of(hay)
            ||| exists|i: int|
                0 <= i < self.patterns.len() && slot_accepts(#[trigger] self.patterns[i], hay)
        }
    }
}

/// One more fragment touches the end anchor exactly when an earlier one did or
/// the new one does.
pub proof fn lemma_touches_push(mode: AddMode, done: Seq<Seq<char>>, fragment: Seq<char>)
    ensures
        touches_end_anchor(mode, done.push(fragment)) == (touches_end_anchor(mode, done) || if done.len()
            == 0 && mode != AddMode::New {
            mode == AddMode::EndsWith && fragment.len() > 0
        } else {
            begins_end_anchor(fragment)
        }),
{
    let more = done.push(fragment);
    let from: int = if mode == AddMode::New {
        0
    } else {
        1
    };
    if touches_end_anchor(mode, done) {
        if mode == AddMode::EndsWith && done.len() > 0 && done[0].len() > 0 {
            assert(more[0] == done[0]);
        } else {
            let k = choose|k: int| from <= k < done.len() && begins_end_anchor(#[trigger] done[k]);
            assert(more[k] == done[k]);
        }
    }
    if touches_end_anchor(mode, more) && !touches_end_anchor(mode, done) {
        if mode == AddMode::EndsWith && more[0].len() > 0 {
            if done.len() > 0 {
                assert(more[0] == done[0]);
            }
        } else {
            let k = choose|k: int| from <= k < more.len() && begins_end_anchor(#[trigger] more[k]);
            if k < done.len() {
                assert(more[k] == done[k]);
            }
        }
    }
    if done.len() == 0 && mode != AddMode::New {
    } else if begins_end_anchor(fragment) {
        assert(more[done.len() as int] == fragment);
    }
}

} // verus!
