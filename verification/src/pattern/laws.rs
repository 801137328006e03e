//! What holds of every pattern, whatever is done to it.

use crate::pattern::model::{
    add_scope, lemma_touches_push, slot_accepts, split_spaces, touches_end_anchor, AddMode,
    MatcherView, PatternScope,
};
use crate::pattern::next_version;
use vstd::prelude::*;
use vstd::utf8::encode_utf8;

verus! {

/// A pattern without text accepts every haystack in all its parts, and no
/// haystack in any of them.
pub proof fn lemma_empty_pattern(m: MatcherView, haystack: Seq<u8>)
    requires
        m.text.len() == 0,
    ensures
        m.all_matches(haystack),
        !m.any_matches(haystack),
{
}

/// An edit leaves a version that is greater than the one before, as long as
/// the counter has not reached the end of its range.
pub proof fn lemma_version_grows(version: usize)
    requires
        version < usize::MAX,
    ensures
        next_version(version) > version,
{
}

/// The versions seen after one edit and the next, as long as the counter
/// does not wrap, ascend: each is greater than all that were seen before it.
pub proof fn lemma_versions_ascend(versions: Seq<usize>, i: int, j: int)
    requires
        forall|k: int|
            0 <= k < versions.len() - 1 ==> (#[trigger] versions[k]) < usize::MAX && versions[k
                + 1] == next_version(versions[k]),
        0 <= i < j < versions.len(),
    ensures
        versions[i] < versions[j],
    decreases j - i,
{
    assert(versions[j - 1] < usize::MAX);
    if i < j - 1 {
        lemma_versions_ascend(versions, i, j - 1);
    }
}

/// Whether `b` can only be harder to satisfy than `a` in what lies outside
/// the expressions: the text of `b` is not empty if that of `a` is not, the
/// same bytes are skipped, the end anchor is the same, and the start anchor
/// of `a` begins that of `b`.
pub open spec fn anchors_narrowed(a: MatcherView, b: MatcherView) -> bool {
    &&& a.text.len() != 0 ==> b.text.len() != 0
    &&& b.skip_prefix == a.skip_prefix
    &&& b.ends_with == a.ends_with
    &&& a.starts_with matches Some(begin) ==> b.starts_with matches Some(longer)
        && begin.is_prefix_of(longer)
}

/// Whether every expression of `a` is still there in `b`, in its place, and
/// accepts `hay` in `b` only if it did in `a`.
pub open spec fn slots_narrowed(a: MatcherView, b: MatcherView, hay: Seq<u8>) -> bool {
    forall|i: int|
        0 <= i < a.patterns.len() ==> i < b.patterns.len() && (slot_accepts(
            #[trigger] b.patterns[i],
            hay,
        ) ==> slot_accepts(a.patterns[i], hay))
}

/// Reading fragments that do not touch the end anchor leaves the text, the
/// skipped bytes and the end anchor as they are, and only adds to the start
/// anchor.
pub proof fn lemma_fragments_narrow_anchors(
    m: MatcherView,
    mode: AddMode,
    fragments: Seq<Seq<char>>,
    outcomes: Seq<bool>,
)
    requires
        m.mode == mode,
        !touches_end_anchor(mode, fragments),
    ensures
        anchors_narrowed(m, m.add_fragments(mode != AddMode::New, fragments, outcomes)),
        m.add_fragments(mode != AddMode::New, fragments, outcomes).text == m.text,
    decreases fragments.len(),
{
    if fragments.len() > 0 {
        let before = fragments.drop_last();
        assert(fragments =~= before.push(fragments.last()));
        lemma_touches_push(mode, before, fragments.last());
        lemma_fragments_narrow_anchors(m, mode, before, outcomes.drop_last());
        let mid = m.add_fragments(mode != AddMode::New, before, outcomes.drop_last());
        if fragments.len() == 1 {
            assert(before.len() == 0);
            assert(mid == m);
        }
    }
}

/// Adding text leaves the text that was there, with the new text behind it,
/// and skips the same bytes.
pub proof fn lemma_add_keeps_text(m: MatcherView, text: Seq<char>, outcomes: Seq<bool>)
    ensures
        m.add(text, outcomes).text == m.text + text,
        m.add(text, outcomes).skip_prefix == m.skip_prefix,
{
    let entry = MatcherView { text: m.text + text, ..m };
    lemma_fragments_keep_text(entry, m.mode != AddMode::New, split_spaces(text), outcomes);
}

/// Reading fragments changes neither the text nor the bytes skipped.
proof fn lemma_fragments_keep_text(
    m: MatcherView,
    continuing: bool,
    fragments: Seq<Seq<char>>,
    outcomes: Seq<bool>,
)
    ensures
        m.add_fragments(continuing, fragments, outcomes).text == m.text,
        m.add_fragments(continuing, fragments, outcomes).skip_prefix == m.skip_prefix,
    decreases fragments.len(),
{
    if fragments.len() > 0 {
        lemma_fragments_keep_text(m, continuing, fragments.drop_last(), outcomes.drop_last());
    }
}

/// A narrowing edit never widens: a haystack that the pattern did not accept
/// before `add` returned `Narrow` is not accepted afterwards, provided the
/// expressions that were there are still there and accept the haystack no
/// more than before. What the expressions accept is not known to the proofs,
/// so that much is asked of them; everything else is shown.
pub proof fn lemma_narrow_add(
    m: MatcherView,
    text: Seq<char>,
    outcomes: Seq<bool>,
    haystack: Seq<u8>,
)
    requires
        add_scope(m.mode, text) == PatternScope::Narrow,
        slots_narrowed(m, m.add(text, outcomes), m.trimmed(haystack)),
        !m.all_matches(haystack),
    ensures
        !m.add(text, outcomes).all_matches(haystack),
{
    let entry = MatcherView { text: m.text + text, ..m };
    let after = m.add(text, outcomes);
    lemma_fragments_narrow_anchors(entry, m.mode, split_spaces(text), outcomes);
    let hay = m.trimmed(haystack);
    assert(after.trimmed(haystack) == hay);
    if !m.starts_ok(hay) {
        let begin = m.starts_with->0;
        let longer = after.starts_with->0;
        assert(begin.is_prefix_of(longer));
        if longer.is_prefix_of(hay) {
            assert(begin =~= hay.subrange(0, begin.len() as int));
        }
    } else if m.ends_ok(hay) {
        let i = choose|i: int| 0 <= i < m.patterns.len() && !slot_accepts(m.patterns[i], hay);
        assert(!slot_accepts(after.patterns[i], hay));
    }
}

/// Whether adding to the pattern begins new terms only: no expression waits
/// to be settled, and the text added does not go on with a fuzzy or regex
/// term.
pub open spec fn begins_terms_only(m: MatcherView, text: Seq<char>) -> bool {
    &&& m.bad_regex is None
    &&& m.mode == AddMode::Fuzzy || m.mode == AddMode::Regex ==> split_spaces(text)[0].len() == 0
}

/// Reading fragments that begin new terms only leaves the expressions that
/// were there as they are.
proof fn lemma_fragments_keep_slots(
    m: MatcherView,
    continuing: bool,
    fragments: Seq<Seq<char>>,
    outcomes: Seq<bool>,
)
    requires
        m.wf(),
        m.bad_regex is None,
        continuing == (m.mode != AddMode::New),
        m.mode == AddMode::Fuzzy || m.mode == AddMode::Regex ==> fragments.len() > 0
            ==> fragments[0].len() == 0,
    ensures
        ({
            let after = m.add_fragments(continuing, fragments, outcomes);
            &&& after.wf()
            &&& m.patterns.len() <= after.patterns.len()
            &&& after.patterns.take(m.patterns.len() as int) == m.patterns
            &&& after.bad_regex is Some ==> m.patterns.len() < after.patterns.len()
        }),
    decreases fragments.len(),
{
    if fragments.len() == 0 {
        assert(m.patterns.take(m.patterns.len() as int) =~= m.patterns);
    } else {
        let before = fragments.drop_last();
        lemma_fragments_keep_slots(m, continuing, before, outcomes.drop_last());
        let mid = m.add_fragments(continuing, before, outcomes.drop_last());
        let after = m.add_fragments(continuing, fragments, outcomes);
        let n = m.patterns.len() as int;
        if fragments.len() == 1 && continuing {
            assert(mid == m);
            assert(after.patterns =~= m.patterns);
            assert(after.patterns.take(n) =~= m.patterns);
        } else {
            let base = mid.drop_failed();
            assert(base.patterns.take(n) =~= mid.patterns.take(n));
            assert(after.patterns.take(n) =~= base.patterns.take(n));
        }
    }
}

/// Adding new terms never widens: where the text added begins new terms
/// only and `add` returns `Narrow`, a haystack that the pattern did not
/// accept before is not accepted afterwards.
pub proof fn lemma_new_terms_narrow(
    m: MatcherView,
    text: Seq<char>,
    outcomes: Seq<bool>,
    haystack: Seq<u8>,
)
    requires
        m.wf(),
        begins_terms_only(m, text),
        add_scope(m.mode, text) == PatternScope::Narrow,
        !m.all_matches(haystack),
    ensures
        !m.add(text, outcomes).all_matches(haystack),
{
    let entry = MatcherView { text: m.text + text, ..m };
    let after = m.add(text, outcomes);
    lemma_fragments_keep_slots(entry, m.mode != AddMode::New, split_spaces(text), outcomes);
    assert forall|i: int| 0 <= i < m.patterns.len() implies i < after.patterns.len()
        && after.patterns[i] == m.patterns[i] by {
        assert(after.patterns.take(m.patterns.len() as int)[i] == after.patterns[i]);
    }
    lemma_narrow_add(m, text, outcomes, haystack);
}

/// Taking bytes off a text that was added to an empty pattern leaves the
/// text without those bytes, and a matcher that adding what is left to an
/// empty pattern can give.
pub proof fn lemma_rm_round_trip(
    skip: nat,
    text: Seq<char>,
    loaded: MatcherView,
    amount: nat,
    after: MatcherView,
)
    requires
        MatcherView::empty(skip).adds(text, loaded),
        loaded.rms(amount, after),
    ensures
        after.text_bytes() == if amount < encode_utf8(text).len() {
            encode_utf8(text).take(encode_utf8(text).len() - amount)
        } else {
            Seq::empty()
        },
        MatcherView::empty(skip).adds(after.text, after),
{
    let fresh = MatcherView::empty(skip);
    let outcomes = choose|outcomes: Seq<bool>|
        outcomes.len() == split_spaces(text).len() && loaded == #[trigger] fresh.add(
            text,
            outcomes,
        );
    lemma_add_keeps_text(fresh, text, outcomes);
    assert(fresh.text + text =~= text);
    assert(loaded.reset() == fresh);
}

/// After `set(start, text)` the text of the pattern is what it was up to
/// byte `start`, or all of it if it was shorter, and then `text`; whether
/// the pattern was read anew or only added to makes no difference to that.
pub proof fn lemma_set_text(
    m: MatcherView,
    start: nat,
    text: Seq<char>,
    after: MatcherView,
    scope: PatternScope,
)
    requires
        m.sets(start, text, after, scope),
    ensures
        after.text_bytes() == m.text_bytes().take(
            if start < m.text_bytes().len() {
                start as int
            } else {
                m.text_bytes().len() as int
            },
        ) + encode_utf8(text),
{
}

} // verus!
