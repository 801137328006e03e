//! What holds of every window, whatever is done to it.

use crate::server::order::{
    ascending, lemma_less_total, lemma_less_transitive, lex_less, slot_of,
};
use crate::server::walker::next_kill;
use crate::server::window::{Admission, WindowView};
use vstd::prelude::*;

verus! {

/// The window never holds more paths than it may: neither after a path has
/// entered it, nor after one was taken out, nor after its size was set.
pub proof fn lemma_capacity_is_kept(
    w: WindowView,
    path: Seq<u8>,
    pattern_version: usize,
    walker: (usize, usize),
    size: usize,
)
    requires
        w.wf(),
    ensures
        w.admission(path, pattern_version, walker) == Admission::Inserted ==> w.inserted(
            path,
        ).content.len() <= w.size,
        w.releases(path, pattern_version) ==> w.content.remove(slot_of(w.content, path)).len()
            <= w.size,
        (if size < w.content.len() {
            w.content.take(size as int)
        } else {
            w.content
        }).len() <= size,
        w.matched().len() <= w.size,
{
    lemma_slot_in_range(w.content, path);
    if w.releases(path, pattern_version) {
        lemma_slot_of_held(w.content, path);
    }
    w.content.lemma_filter_len(|path: Seq<u8>| w.accepts(path));
}

/// The place where a path belongs lies among the paths or just behind them.
pub proof fn lemma_slot_in_range(paths: Seq<Seq<u8>>, path: Seq<u8>)
    ensures
        0 <= slot_of(paths, path) <= paths.len(),
    decreases paths.len(),
{
    if paths.len() > 0 {
        lemma_slot_in_range(paths.drop_first(), path);
    }
}

/// Every path before the place where a path belongs comes before that path,
/// and no path from that place on does.
pub proof fn lemma_slot_divides(paths: Seq<Seq<u8>>, path: Seq<u8>, k: int)
    requires
        ascending(paths),
        0 <= k < paths.len(),
    ensures
        k < slot_of(paths, path) ==> lex_less(paths[k], path),
        k >= slot_of(paths, path) ==> !lex_less(paths[k], path),
    decreases paths.len(),
{
    if lex_less(paths[0], path) {
        lemma_slot_in_range(paths.drop_first(), path);
        if k > 0 {
            let rest = paths.drop_first();
            assert forall|i: int, j: int| 0 <= i < j < rest.len() implies lex_less(
                #[trigger] rest[i],
                #[trigger] rest[j],
            ) by {
                assert(rest[i] == paths[i + 1]);
                assert(rest[j] == paths[j + 1]);
            }
            lemma_slot_divides(rest, path, k - 1);
            assert(rest[k - 1] == paths[k]);
        }
    } else if k > 0 {
        if lex_less(paths[k], path) {
            lemma_less_transitive(paths[0], paths[k], path);
        }
    }
}

/// The paths of the window stay in ascending order when a path enters it
/// that was not there.
pub proof fn lemma_inserted_ascends(w: WindowView, path: Seq<u8>)
    requires
        w.wf(),
        !w.content.contains(path),
    ensures
        ascending(w.inserted(path).content),
{
    let paths = w.content;
    let at = slot_of(paths, path);
    lemma_slot_in_range(paths, path);
    let more = paths.insert(at, path);
    assert forall|i: int, j: int| 0 <= i < j < more.len() implies lex_less(
        #[trigger] more[i],
        #[trigger] more[j],
    ) by {
        let a = if i < at {
            i
        } else {
            i - 1
        };
        let b = if j < at {
            j
        } else {
            j - 1
        };
        if i != at {
            assert(more[i] == paths[a]);
            lemma_slot_divides(paths, path, a);
        }
        if j != at {
            assert(more[j] == paths[b]);
            lemma_slot_divides(paths, path, b);
            if i == at {
                assert(paths[b] != path);
                lemma_less_total(paths[b], path);
            }
        }
    }
}

/// When the window shrinks, the paths that leave are the last in order:
/// every path that stays comes before every path that leaves.
pub proof fn lemma_shrink_evicts_largest(content: Seq<Seq<u8>>, size: usize, i: int, j: int)
    requires
        ascending(content),
        0 <= i < size <= j < content.len(),
    ensures
        content.take(size as int)[i] == content[i],
        content.skip(size as int)[j - size] == content[j],
        content.take(size as int).len() == size,
        content.skip(size as int).len() == content.len() - size,
        lex_less(content[i], content[j]),
{
}

/// A producer that was woken is not turned away for want of room again:
/// after a path was taken out, after the window has grown, and after it was
/// emptied unless it may hold nothing at all. After a kill the producer is
/// told that it was killed.
pub proof fn lemma_woken_producer_proceeds(
    w: WindowView,
    path: Seq<u8>,
    gone: Seq<u8>,
    pattern_version: usize,
    walker: (usize, usize),
    size: usize,
)
    requires
        w.wf(),
    ensures
        w.releases(gone, pattern_version) ==> (WindowView {
            content: w.content.remove(slot_of(w.content, gone)),
            ..w
        }).admission(path, pattern_version, walker) != Admission::Blocked,
        size > w.size ==> (WindowView { size, ..w }).admission(path, pattern_version, walker)
            != Admission::Blocked,
        w.size > 0 ==> (WindowView { content: Seq::empty(), ..w }).admission(
            path,
            pattern_version,
            walker,
        ) != Admission::Blocked,
        walker.1 == walker.0 ==> w.admission(path, pattern_version, (next_kill(walker.0), walker.1))
            == Admission::Killed,
{
    lemma_slot_in_range(w.content, gone);
    if w.releases(gone, pattern_version) {
        lemma_slot_of_held(w.content, gone);
    }
}

/// A path that is among the paths stands where it belongs.
pub proof fn lemma_slot_of_held(paths: Seq<Seq<u8>>, path: Seq<u8>)
    requires
        paths.contains(path),
    ensures
        0 <= slot_of(paths, path) < paths.len(),
    decreases paths.len(),
{
    let at = choose|k: int| 0 <= k < paths.len() && paths[k] == path;
    if lex_less(paths[0], path) {
        assert(at > 0) by {
            crate::server::order::lemma_less_irreflexive(path);
        }
        assert(paths.drop_first()[at - 1] == path);
        lemma_slot_of_held(paths.drop_first(), path);
    }
}

/// A path that matched under an older version of the pattern enters the
/// window exactly if the pattern still accepts it: with room in the window,
/// a producer that was not killed, and a path that is not there yet.
pub proof fn lemma_stale_version_is_tested_again(
    w: WindowView,
    path: Seq<u8>,
    pattern_version: usize,
    walker: (usize, usize),
)
    requires
        pattern_version != w.pattern.version,
        walker.1 == walker.0,
        w.content.len() < w.size,
        !w.content.contains(path),
    ensures
        w.admission(path, pattern_version, walker) == Admission::Inserted <==> w.accepts(path),
        w.admission(path, pattern_version, walker) == Admission::Skipped <==> !w.accepts(path),
{
}

} // verus!
