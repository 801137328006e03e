//! The window: a bounded set of accepted paths in ascending order, and the
//! queue of messages that tell the client how it changes.

use crate::pattern::text::copy_bytes;
use crate::pattern::{Pattern, PatternView};
use crate::server::order::{
    ascending, compare, lemma_less_irreflexive, lemma_less_total, lemma_less_transitive, lex_less,
    slot_of, Side,
};
use crate::server::walker::{Msg, MsgView, WalkerVersion};
use vstd::prelude::*;

verus! {

/// How an attempt to add a path to the window ended.
#[derive(Debug, Clone, Copy, PartialEq, Eq, Structural)]
pub enum Admission {
    /// The traversal of the producer was killed. Nothing was changed.
    Killed,
    /// The window is full. Nothing was changed; the producer tries again once
    /// the window may have room.
    Blocked,
    /// The path was not taken: the pattern no longer accepts it, or the
    /// window holds it already.
    Skipped,
    /// The path entered the window, and the message that says so was queued.
    Inserted,
}

impl Admission {
    /// How the attempt ends once the producer has tried to send the message
    /// that was queued: a producer that cannot reach the client counts as
    /// killed.
    pub fn delivered(self, sent: bool) -> (end: Admission)
        ensures
            end == if self == Admission::Inserted && !sent {
                Admission::Killed
            } else {
                self
            },
    {
        match self {
            Admission::Inserted => if sent {
                Admission::Inserted
            } else {
                Admission::Killed
            },
            _ => self,
        }
    }
}

/// The state of a window.
#[verifier::ext_equal]
pub struct WindowView {
    /// How many paths the window may hold.
    pub size: usize,
    /// The paths it holds, in ascending order.
    pub content: Seq<Seq<u8>>,
    /// The pattern that decides which paths belong in the window.
    pub pattern: PatternView,
    /// The messages queued for the client, oldest first.
    pub out: Seq<MsgView>,
}

impl WindowView {
    /// What holds of every window: the paths ascend, and there are no more
    /// of them than the window may hold.
    pub open spec fn wf(self) -> bool {
        ascending(self.content) && self.content.len() <= self.size
    }

    /// Whether the pattern accepts `path` now.
    pub open spec fn accepts(self, path: Seq<u8>) -> bool {
        self.pattern.matcher.all_matches(path)
    }

    /// Whether a path that matched under `pattern_version` is still known to
    /// match: the pattern has not moved since, or it accepts the path now.
    pub open spec fn still_matches(self, path: Seq<u8>, pattern_version: usize) -> bool {
        pattern_version == self.pattern.version || self.accepts(path)
    }

    /// Whether a path that failed to match under `pattern_version` is still
    /// known not to match.
    pub open spec fn still_fails(self, path: Seq<u8>, pattern_version: usize) -> bool {
        pattern_version == self.pattern.version || !self.accepts(path)
    }

    /// How an attempt to add `path` ends. `walker` is the version of the
    /// producer: the current number and its own.
    pub open spec fn admission(
        self,
        path: Seq<u8>,
        pattern_version: usize,
        walker: (usize, usize),
    ) -> Admission {
        if walker.1 != walker.0 {
            Admission::Killed
        } else if self.content.len() >= self.size {
            Admission::Blocked
        } else if self.still_matches(path, pattern_version) && !self.content.contains(path) {
            Admission::Inserted
        } else {
            Admission::Skipped
        }
    }

    /// The window after `path` has entered it.
    pub open spec fn inserted(self, path: Seq<u8>) -> WindowView {
        WindowView {
            content: self.content.insert(slot_of(self.content, path), path),
            out: self.out.push(MsgView::AddFile(path)),
            ..self
        }
    }

    /// Whether `remove` takes `path` out: the window holds it, and it is
    /// still known not to match.
    pub open spec fn releases(self, path: Seq<u8>, pattern_version: usize) -> bool {
        self.still_fails(path, pattern_version) && self.content.contains(path)
    }

    /// The paths of the window that the pattern accepts now, in order.
    pub open spec fn matched(self) -> Seq<Seq<u8>> {
        self.content.filter(|path: Seq<u8>| self.accepts(path))
    }

    /// The paths of the window that the pattern does not accept now, in order.
    pub open spec fn unmatched(self) -> Seq<Seq<u8>> {
        self.content.filter(|path: Seq<u8>| !self.accepts(path))
    }

    /// The window with one more message queued.
    pub open spec fn told(self, msg: MsgView) -> WindowView {
        WindowView { out: self.out.push(msg), ..self }
    }
}

/// The messages that say that each of `paths` left the window.
pub open spec fn removals(paths: Seq<Seq<u8>>) -> Seq<MsgView> {
    paths.map_values(|path: Seq<u8>| MsgView::RmFile(path))
}

/// The messages that say that each of `paths` entered the window.
pub open spec fn additions(paths: Seq<Seq<u8>>) -> Seq<MsgView> {
    paths.map_values(|path: Seq<u8>| MsgView::AddFile(path))
}

/// A window of accepted paths.
pub struct Window {
    pattern: Pattern,
    size: usize,
    content: Vec<Vec<u8>>,
    out: Vec<Msg>,
}

impl View for Window {
    type V = WindowView;

    closed spec fn view(&self) -> WindowView {
        WindowView {
            size: self.size,
            content: self.content@.map_values(|path: Vec<u8>| path@),
            pattern: self.pattern@,
            out: self.out@.map_values(|msg: Msg| msg@),
        }
    }
}

impl Window {
    /// The invariant of a window, which every function here keeps.
    pub closed spec fn wf(&self) -> bool {
        self.pattern.wf() && self@.wf()
    }

    /// A well-formed window is well formed as plain data.
    pub proof fn lemma_wf(&self)
        requires
            self.wf(),
        ensures
            self@.wf(),
    {
    }

    /// An empty window for at most `size` paths, with a pattern that has no
    /// text.
    pub fn new(size: usize) -> (window: Window)
        ensures
            window.wf(),
            window@.size == size,
            window@.content == Seq::<Seq<u8>>::empty(),
            window@.out == Seq::<MsgView>::empty(),
            window@.pattern == Pattern::default_view(),
    {
        let window = Window {
            pattern: Pattern::default(),
            size,
            content: Vec::new(),
            out: Vec::new(),
        };
        assert(window@.content =~= Seq::<Seq<u8>>::empty());
        assert(window@.out =~= Seq::<MsgView>::empty());
        window
    }

    /// How many paths the window may hold.
    pub fn size(&self) -> (size: usize)
        ensures
            size == self@.size,
    {
        self.size
    }

    /// The pattern of the window.
    pub fn pattern(&self) -> (pattern: &Pattern)
        ensures
            pattern@ == self@.pattern,
            self.wf() ==> pattern.wf(),
    {
        &self.pattern
    }

    /// The pattern of the window, to be edited. The paths of the window stay
    /// as they are; `remove_unmatched` brings them in line with the pattern.
    pub fn pattern_mut(&mut self) -> (pattern: &mut Pattern)
        requires
            old(self).wf(),
        ensures
            pattern@ == old(self)@.pattern,
            pattern.wf(),
            final(self)@ == (WindowView { pattern: final(pattern)@, ..old(self)@ }),
            final(pattern).wf() ==> final(self).wf(),
    {
        &mut self.pattern
    }

    /// Where `path` belongs among the paths of the window, and whether it is
    /// there already.
    fn find(&self, path: &[u8]) -> (found: (usize, bool))
        requires
            self.wf(),
        ensures
            found.0 == slot_of(self@.content, path@),
            found.0 <= self@.content.len(),
            found.1 == self@.content.contains(path@),
            found.1 ==> found.0 < self@.content.len() && self@.content[found.0 as int] == path@,
            forall|k: int| 0 <= k < found.0 ==> lex_less(#[trigger] self@.content[k], path@),
            !found.1 ==> forall|k: int|
                found.0 <= k < self@.content.len() ==> lex_less(path@, #[trigger] self@.content[k]),
    {
        let ghost content = self@.content;
        let mut i: usize = 0;
        proof {
            assert(content.skip(0) =~= content);
        }
        while i < self.content.len()
            invariant
                self.wf(),
                content == self@.content,
                i <= self.content.len(),
                slot_of(content, path@) == i + slot_of(content.skip(i as int), path@),
                forall|k: int| 0 <= k < i ==> lex_less(#[trigger] content[k], path@),
            decreases self.content.len() - i,
        {
            proof {
                assert(content.skip(i as int).drop_first() =~= content.skip(i + 1));
                assert(content.skip(i as int)[0] == content[i as int]);
            }
            match compare(self.content[i].as_slice(), path) {
                Side::Before => {},
                Side::Same => {
                    proof {
                        lemma_less_irreflexive(path@);
                    }
                    return (i, true);
                },
                Side::After => {
                    proof {
                        lemma_less_total(content[i as int], path@);
                        assert forall|k: int| i <= k < content.len() implies lex_less(
                            path@,
                            #[trigger] content[k],
                        ) by {
                            if k > i {
                                lemma_less_transitive(path@, content[i as int], content[k]);
                            }
                        }
                        assert forall|k: int| 0 <= k < content.len() implies content[k]
                            != path@ by {
                            lemma_less_irreflexive(path@);
                        }
                    }
                    return (i, false);
                },
            }
            i += 1;
        }
        proof {
            assert forall|k: int| 0 <= k < content.len() implies content[k] != path@ by {
                lemma_less_irreflexive(path@);
            }
        }
        (i, false)
    }

    /// Tries to add `value`, which matched the pattern at `pattern_version`.
    ///
    /// A producer whose traversal was killed is turned away, and so is every
    /// producer while the window is full. Otherwise the path enters the window
    /// unless it is there already or the pattern has moved since and no
    /// longer accepts it.
    pub fn add(
        &mut self,
        value: Vec<u8>,
        pattern_version: usize,
        walker_version: &WalkerVersion,
    ) -> (admission: Admission)
        requires
            old(self).wf(),
        ensures
            final(self).wf(),
            admission == old(self)@.admission(value@, pattern_version, walker_version@),
            final(self)@ == if admission == Admission::Inserted {
                old(self)@.inserted(value@)
            } else {
                old(self)@
            },
    {
        if walker_version.is_wrong() {
            return Admission::Killed;
        }
        if self.content.len() >= self.size {
            return Admission::Blocked;
        }
        if pattern_version != self.pattern.version() && !self.pattern.all_matches(
            value.as_slice(),
        ) {
            return Admission::Skipped;
        }
        let found = self.find(value.as_slice());
        if found.1 {
            return Admission::Skipped;
        }
        self.out.push(Msg::AddFile(copy_bytes(value.as_slice())));
        self.content.insert(found.0, value);
        proof {
            let before = old(self)@.content;
            let at = found.0 as int;
            assert(self@.content =~= before.insert(at, value@));
            assert(self@.out =~= old(self)@.out.push(MsgView::AddFile(value@)));
            lemma_insert_ascending(before, at, value@);
        }
        Admission::Inserted
    }

    /// Takes `value` out of the window if it is there and is still known not
    /// to match: the pattern is at `version`, under which it failed, or does
    /// not accept it now. No message is queued. The result says whether the
    /// path was taken out, which is when waiting producers must be woken.
    pub fn remove(&mut self, value: &[u8], version: usize) -> (removed: bool)
        requires
            old(self).wf(),
        ensures
            final(self).wf(),
            removed == old(self)@.releases(value@, version),
            final(self)@ == if removed {
                WindowView {
                    content: old(self)@.content.remove(slot_of(old(self)@.content, value@)),
                    ..old(self)@
                }
            } else {
                old(self)@
            },
    {
        if version != self.pattern.version() && self.pattern.all_matches(value) {
            return false;
        }
        let found = self.find(value);
        if !found.1 {
            return false;
        }
        self.content.remove(found.0);
        proof {
            let before = old(self)@.content;
            assert(self@.content =~= before.remove(found.0 as int));
        }
        true
    }

    /// Sets how many paths the window may hold. Paths beyond that number
    /// leave the window, the last in order first; no message is queued for
    /// them. The result says whether the window has grown, which is when
    /// waiting producers must be woken.
    pub fn set_size(&mut self, value: usize) -> (grown: bool)
        requires
            old(self).wf(),
        ensures
            final(self).wf(),
            grown == (value > old(self)@.size),
            final(self)@ == (WindowView {
                size: value,
                content: if value < old(self)@.content.len() {
                    old(self)@.content.take(value as int)
                } else {
                    old(self)@.content
                },
                ..old(self)@
            }),
    {
        let grown = value > self.size;
        self.size = value;
        self.content.truncate(value);
        proof {
            let before = old(self)@.content;
            if value < before.len() {
                assert(self@.content =~= before.take(value as int));
            } else {
                assert(self@.content =~= before);
            }
        }
        grown
    }

    /// Empties the window and queues the message that says so. Waiting
    /// producers must be woken afterwards.
    pub fn clear(&mut self)
        requires
            old(self).wf(),
        ensures
            final(self).wf(),
            final(self)@ == (WindowView {
                content: Seq::empty(),
                ..old(self)@.told(MsgView::Clear)
            }),
    {
        self.tell(Msg::Clear);
        self.content.clear();
        assert(self@.content =~= Seq::<Seq<u8>>::empty());
    }

    /// Queues the window anew for the client: a clear, then every path in
    /// order.
    pub fn redraw(&mut self)
        requires
            old(self).wf(),
        ensures
            final(self).wf(),
            final(self)@ == (WindowView {
                out: old(self)@.out.push(MsgView::Clear) + additions(old(self)@.content),
                ..old(self)@
            }),
    {
        self.tell(Msg::Clear);
        let ghost begun = self@.out;
        let mut i: usize = 0;
        while i < self.content.len()
            invariant
                self.wf(),
                i <= self.content.len(),
                self@ == (WindowView {
                    out: begun + additions(old(self)@.content.take(i as int)),
                    ..old(self)@
                }),
            decreases self.content.len() - i,
        {
            let path = copy_bytes(self.content[i].as_slice());
            self.tell(Msg::AddFile(path));
            proof {
                let content = old(self)@.content;
                assert(content.take(i + 1) =~= content.take(i as int).push(content[i as int]));
                assert(additions(content.take(i + 1)) =~= additions(content.take(i as int)).push(
                    MsgView::AddFile(content[i as int]),
                ));
                assert(begun + additions(content.take(i + 1)) =~= (begun + additions(
                    content.take(i as int),
                )).push(MsgView::AddFile(content[i as int])));
            }
            i += 1;
        }
        proof {
            let content = old(self)@.content;
            assert(content.take(content.len() as int) =~= content);
        }
    }

    /// Takes out every path that the pattern does not accept now, and queues
    /// a message for each, in order. The result says whether any path was
    /// taken out, which is when waiting producers must be woken.
    pub fn remove_unmatched(&mut self) -> (removed: bool)
        requires
            old(self).wf(),
        ensures
            final(self).wf(),
            removed == (old(self)@.unmatched().len() > 0),
            final(self)@ == (WindowView {
                content: old(self)@.matched(),
                out: old(self)@.out + removals(old(self)@.unmatched()),
                ..old(self)@
            }),
    {
        let mut all: Vec<Vec<u8>> = Vec::new();
        std::mem::swap(&mut self.content, &mut all);
        let ghost before = old(self)@;
        let ghost content = before.content;
        let ghost keep = |path: Seq<u8>| before.accepts(path);
        let ghost drop = |path: Seq<u8>| !before.accepts(path);
        let mut removed = false;
        let mut i: usize = 0;
        proof {
            reveal(Seq::filter);
            assert(content.take(0) =~= Seq::<Seq<u8>>::empty());
            assert(self@.content =~= content.take(0).filter(keep));
            assert(self@.out =~= before.out + removals(content.take(0).filter(drop)));
        }
        while i < all.len()
            invariant
                i <= all.len(),
                self.pattern.wf(),
                before.wf(),
                content == before.content,
                content == all@.map_values(|path: Vec<u8>| path@),
                keep == |path: Seq<u8>| before.accepts(path),
                drop == |path: Seq<u8>| !before.accepts(path),
                self@.size == before.size,
                self@.pattern == before.pattern,
                self@.content == content.take(i as int).filter(keep),
                self@.out == before.out + removals(content.take(i as int).filter(drop)),
                removed == (content.take(i as int).filter(drop).len() > 0),
                ascending(self@.content),
                forall|k: int, j: int|
                    0 <= k < self@.content.len() && i <= j < content.len() ==> lex_less(
                        #[trigger] self@.content[k],
                        #[trigger] content[j],
                    ),
                self@.content.len() <= i,
            decreases all.len() - i,
        {
            let path = copy_bytes(all[i].as_slice());
            let ghost done = content.take(i as int);
            proof {
                reveal(Seq::filter);
                assert(content.take(i + 1).drop_last() =~= done);
                assert(content.take(i + 1).last() == path@);
            }
            let ghost content_before = self@.content;
            let ghost out_before = self@.out;
            if self.pattern.all_matches(path.as_slice()) {
                self.content.push(path);
                proof {
                    assert(self@.content =~= content_before.push(content[i as int]));
                }
            } else {
                self.out.push(Msg::RmFile(path));
                removed = true;
                proof {
                    assert(self@.out =~= out_before.push(MsgView::RmFile(content[i as int])));
                    assert(removals(done.filter(drop).push(content[i as int])) =~= removals(
                        done.filter(drop),
                    ).push(MsgView::RmFile(content[i as int])));
                }
            }
            i += 1;
        }
        proof {
            assert(content.take(content.len() as int) =~= content);
        }
        removed
    }

    /// Queues `msg` for the client.
    fn tell(&mut self, msg: Msg)
        requires
            old(self).wf(),
        ensures
            final(self).wf(),
            final(self)@ == old(self)@.told(msg@),
    {
        self.out.push(msg);
        assert(self@.out =~= old(self)@.out.push(msg@));
    }

    /// Queues the message that a traversal has ended.
    pub fn done(&mut self)
        requires
            old(self).wf(),
        ensures
            final(self).wf(),
            final(self)@ == old(self)@.told(MsgView::WalkDone),
    {
        self.tell(Msg::WalkDone);
    }

    /// Queues the message that a traversal has begun.
    pub fn started(&mut self)
        requires
            old(self).wf(),
        ensures
            final(self).wf(),
            final(self)@ == old(self)@.told(MsgView::WalkStarted),
    {
        self.tell(Msg::WalkStarted);
    }

    /// Queues a message for the user to read.
    pub fn message(&mut self, msg: String)
        requires
            old(self).wf(),
        ensures
            final(self).wf(),
            final(self)@ == old(self)@.told(MsgView::Message(msg@)),
    {
        self.tell(Msg::Message(msg));
    }

    /// Queues the request to give the lines for matching again.
    pub fn request_resync(&mut self)
        requires
            old(self).wf(),
        ensures
            final(self).wf(),
            final(self)@ == old(self)@.told(MsgView::Resync),
    {
        self.tell(Msg::Resync);
    }

    /// Hands over the queued messages, oldest first, and leaves the queue
    /// empty.
    pub fn take_messages(&mut self) -> (messages: Vec<Msg>)
        requires
            old(self).wf(),
        ensures
            final(self).wf(),
            messages@.map_values(|msg: Msg| msg@) == old(self)@.out,
            final(self)@ == (WindowView { out: Seq::empty(), ..old(self)@ }),
    {
        let mut messages: Vec<Msg> = Vec::new();
        std::mem::swap(&mut self.out, &mut messages);
        assert(self@.out =~= Seq::<MsgView>::empty());
        messages
    }
}

/// A path put where it belongs leaves the paths ascending.
proof fn lemma_insert_ascending(paths: Seq<Seq<u8>>, at: int, path: Seq<u8>)
    requires
        ascending(paths),
        0 <= at <= paths.len(),
        forall|k: int| 0 <= k < at ==> lex_less(#[trigger] paths[k], path),
        forall|k: int| at <= k < paths.len() ==> lex_less(path, #[trigger] paths[k]),
    ensures
        ascending(paths.insert(at, path)),
{
    let more = paths.insert(at, path);
    assert forall|i: int, j: int| 0 <= i < j < more.len() implies lex_less(
        #[trigger] more[i],
        #[trigger] more[j],
    ) by {
        let a = if i < at {
            i
        } else {
            i - 1
        };
        let b = if j < at {
            j
        } else {
            j - 1
        };
        if i != at {
            assert(more[i] == paths[a]);
        }
        if j != at {
            assert(more[j] == paths[b]);
        }
    }
}

} // verus!
