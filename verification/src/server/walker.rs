//! The walker: what the commands of a client do to the pattern, the window
//! and the traversal.

use crate::pattern::model::{add_scope, MatcherView, PatternScope};
use crate::pattern::text::{append_bytes, chars_of, copy_bytes, push_char, string_of};
use crate::pattern::{next_version, Pattern, PatternView};
use crate::server::number::{number, parse_number};
use crate::server::order::{compare, slot_of, Side};
use crate::server::window::{additions, removals, Admission, Window, WindowView};
use crate::server::{chars_split_at_space, split_spec};
use vstd::prelude::*;
use vstd::slice::slice_subrange;
use vstd::std_specs::iter::IteratorSpec;
use vstd::string::StringExecFns;
use vstd::string::StringSliceAdditionalSpecFns;
use vstd::utf8::{decode_utf8, encode_utf8};

verus! {

/// A failure of `std::io`. Its inside is not visible to proofs.
#[verifier::external_type_specification]
#[verifier::external_body]
pub struct ExIoError(std::io::Error);

/// The kind of a failure of `std::io`.
#[verifier::external_type_specification]
#[verifier::external_body]
pub struct ExIoErrorKind(std::io::ErrorKind);

/// The kind that an I/O failure is of, as `std::io::Error::kind` gives it.
pub uninterp spec fn io_error_kind(err: std::io::Error) -> std::io::ErrorKind;

/// Calls `std::io::Error::kind`, which returns the kind of the failure.
#[verifier::external_body]
fn kind_of(err: &std::io::Error) -> (kind: std::io::ErrorKind)
    ensures
        kind == io_error_kind(*err),
{
    err.kind()
}

/// The name of a kind of I/O failure, as its `Debug` form shows it.
pub uninterp spec fn io_kind_name(kind: std::io::ErrorKind) -> Seq<char>;

/// Formats a kind of I/O failure through the `std::fmt::Debug` of
/// `std::io::ErrorKind`, which writes the name of the kind.
#[verifier::external_body]
fn kind_text(kind: &std::io::ErrorKind) -> (text: String)
    ensures
        text@ == io_kind_name(*kind),
{
    format!("{kind:?}")
}

/// `Clone` for the kind of an I/O failure: the copy is the same kind.
pub assume_specification[ <std::io::ErrorKind as Clone>::clone ](
    kind: &std::io::ErrorKind,
) -> (copy: std::io::ErrorKind)
    ensures
        copy == *kind,
;

/// Why a command could not be read or obeyed.
#[derive(Debug, Clone, PartialEq)]
pub enum Error {
    /// A command was asked for before a whole frame had been read.
    InvalidCommand,
    /// The input did not follow the protocol.
    ProtocolError,
    /// A frame held bytes that are not UTF-8.
    Utf8Error,
    /// Reading or writing failed.
    IoError(std::io::ErrorKind),
    /// The input has ended.
    Eof,
    /// An argument could not be read, such as a number that is none.
    InvalidArgument,
    /// The path to walk is not a directory.
    NotADirectory,
    /// The command is not known.
    UnknownCommand(String),
    /// The home directory is needed and not known.
    CdInvalid,
}

impl Error {
    /// The error in words, for a message to the client.
    pub open spec fn description(&self) -> Seq<char> {
        match self {
            Error::InvalidCommand => "InvalidCommand"@,
            Error::ProtocolError => "ProtocolError"@,
            Error::Utf8Error => "Utf8Error"@,
            Error::IoError(kind) => "IoError("@ + io_kind_name(*kind) + ")"@,
            Error::Eof => "Eof"@,
            Error::InvalidArgument => "InvalidArgument"@,
            Error::NotADirectory => "NotADirectory"@,
            Error::UnknownCommand(name) => "UnknownCommand("@ + name@ + ")"@,
            Error::CdInvalid => "CdInvalid"@,
        }
    }

    /// The error in words, for a message to the client.
    pub fn describe(&self) -> (text: String)
        ensures
            text@ == self.description(),
    {
        match self {
            Error::InvalidCommand => "InvalidCommand".to_owned(),
            Error::ProtocolError => "ProtocolError".to_owned(),
            Error::Utf8Error => "Utf8Error".to_owned(),
            Error::IoError(kind) => {
                let mut text = "IoError(".to_owned();
                text.append(kind_text(kind).as_str());
                text.append(")");
                text
            },
            Error::Eof => "Eof".to_owned(),
            Error::InvalidArgument => "InvalidArgument".to_owned(),
            Error::NotADirectory => "NotADirectory".to_owned(),
            Error::UnknownCommand(name) => {
                let mut text = "UnknownCommand(".to_owned();
                text.append(name.as_str());
                text.append(")");
                text
            },
            Error::CdInvalid => "CdInvalid".to_owned(),
        }
    }

    /// The exit code of a server that this error has ended: the end of the
    /// input is a clean end, anything else a failure.
    pub fn exit_code(&self) -> (code: i32)
        ensures
            code == if self is Eof {
                0i32
            } else {
                1i32
            },
    {
        match self {
            Error::Eof => 0,
            _ => 1,
        }
    }

    /// The error for a failure of reading or writing: it keeps the kind.
    pub fn from_io(err: std::io::Error) -> (error: Error)
        ensures
            error == Error::IoError(io_error_kind(err)),
    {
        Error::IoError(kind_of(&err))
    }
}

/// The version of a traversal, seen by one of its workers: the number that
/// counts the traversals killed so far, and the number it had when this
/// worker's traversal began. A worker whose two numbers differ must stop.
#[derive(Debug, Clone, Copy)]
pub struct WalkerVersion {
    current_version: usize,
    my_version: usize,
}

impl View for WalkerVersion {
    type V = (usize, usize);

    closed spec fn view(&self) -> (usize, usize) {
        (self.current_version, self.my_version)
    }
}

impl Default for WalkerVersion {
    /// The version before any traversal was killed.
    fn default() -> (version: WalkerVersion)
        ensures
            version@ == (1usize, 1usize),
    {
        WalkerVersion { current_version: 1, my_version: 1 }
    }
}

impl WalkerVersion {
    /// Whether the traversal this version belongs to was killed.
    pub fn is_wrong(&self) -> (wrong: bool)
        ensures
            wrong == (self@.1 != self@.0),
    {
        self.my_version != self.current_version
    }

    /// Kills the traversals begun so far: the current number moves on. The
    /// counter wraps at the end of its range.
    pub fn kill(&mut self)
        ensures
            final(self)@.0 == (if old(self)@.0 == usize::MAX {
                0
            } else {
                old(self)@.0 + 1
            }),
            final(self)@.1 == old(self)@.1,
    {
        self.current_version = if self.current_version == usize::MAX {
            0
        } else {
            self.current_version + 1
        };
    }

    /// Looks at the counter again: the current number is the one that
    /// `shared` has now.
    pub fn sync(&mut self, shared: &WalkerVersion)
        ensures
            final(self)@ == (shared@.0, old(self)@.1),
    {
        self.current_version = shared.current_version;
    }

    /// Begins a traversal: this version is the current one.
    pub fn start(&mut self)
        ensures
            final(self)@.0 == old(self)@.0,
            final(self)@.1 == old(self)@.0,
    {
        self.my_version = self.current_version;
    }
}

/// What the server tells the client.
#[derive(Debug, PartialEq)]
pub enum Msg {
    /// The window was emptied.
    Clear,
    /// A traversal has ended.
    WalkDone,
    /// A path entered the window.
    AddFile(Vec<u8>),
    /// A path left the window.
    RmFile(Vec<u8>),
    /// A traversal has begun.
    WalkStarted,
    /// Something the user should read.
    Message(String),
    /// The lines given for matching must be given again.
    Resync,
}

/// A message as plain data.
pub enum MsgView {
    /// The window was emptied.
    Clear,
    /// A traversal has ended.
    WalkDone,
    /// A path entered the window.
    AddFile(Seq<u8>),
    /// A path left the window.
    RmFile(Seq<u8>),
    /// A traversal has begun.
    WalkStarted,
    /// Something the user should read.
    Message(Seq<char>),
    /// The lines given for matching must be given again.
    Resync,
}

impl MsgView {
    /// The bytes of a frame that holds a word: the word, then a zero byte.
    pub open spec fn word(text: Seq<char>) -> Seq<u8> {
        encode_utf8(text).push(0u8)
    }

    /// The frame that carries this message to the client. A path is sent as
    /// it is, behind `+` or `-`; every frame ends in a zero byte.
    pub open spec fn frame(self) -> Seq<u8> {
        match self {
            MsgView::Clear => Self::word("clear"@),
            MsgView::WalkDone => Self::word("done"@),
            MsgView::WalkStarted => Self::word("started"@),
            MsgView::Resync => Self::word("resync"@),
            MsgView::Message(text) => encode_utf8("message "@) + Self::word(text),
            MsgView::AddFile(path) => (encode_utf8("+"@) + path).push(0u8),
            MsgView::RmFile(path) => (encode_utf8("-"@) + path).push(0u8),
        }
    }
}

impl View for Msg {
    type V = MsgView;

    open spec fn view(&self) -> MsgView {
        match self {
            Msg::Clear => MsgView::Clear,
            Msg::WalkDone => MsgView::WalkDone,
            Msg::AddFile(path) => MsgView::AddFile(path@),
            Msg::RmFile(path) => MsgView::RmFile(path@),
            Msg::WalkStarted => MsgView::WalkStarted,
            Msg::Message(text) => MsgView::Message(text@),
            Msg::Resync => MsgView::Resync,
        }
    }
}

impl Msg {
    /// Appends the frame of this message to `out`.
    pub fn write(&self, out: &mut Vec<u8>)
        ensures
            final(out)@ == old(out)@ + self@.frame(),
    {
        match self {
            Msg::Clear => append_bytes(out, "clear".as_bytes()),
            Msg::WalkDone => append_bytes(out, "done".as_bytes()),
            Msg::WalkStarted => append_bytes(out, "started".as_bytes()),
            Msg::Resync => append_bytes(out, "resync".as_bytes()),
            Msg::Message(text) => {
                append_bytes(out, "message ".as_bytes());
                append_bytes(out, text.as_str().as_bytes());
            },
            Msg::AddFile(path) => {
                append_bytes(out, "+".as_bytes());
                append_bytes(out, path.as_slice());
            },
            Msg::RmFile(path) => {
                append_bytes(out, "-".as_bytes());
                append_bytes(out, path.as_slice());
            },
        }
        out.push(0u8);
        assert(out@ =~= old(out)@ + self@.frame());
    }
}

/// Something for the caller to do, outside of what a walker can do itself.
/// The caller does what a walker hands out in the order in which it stands.
#[derive(Debug, PartialEq)]
pub enum Action {
    /// Send the message to the client.
    Send(Msg),
    /// Wake the producers that wait for room in the window.
    Wake,
    /// Wait until the traversal has ended.
    JoinTraversal,
    /// Begin a traversal of the directory of the walker, under its version.
    StartTraversal,
    /// Begin to take lines for matching, under the version of the walker.
    StartMatchSink,
    /// Take no more lines for matching, and wait until the last was handled.
    StopMatchSink,
    /// Hand the line to whoever takes lines for matching.
    Feed(Vec<u8>),
    /// Find the directory and answer with [`Walker::walk`].
    Locate(String),
}

/// An action as plain data.
pub enum ActionView {
    /// Send the message to the client.
    Send(MsgView),
    /// Wake the producers that wait for room in the window.
    Wake,
    /// Wait until the traversal has ended.
    JoinTraversal,
    /// Begin a traversal.
    StartTraversal,
    /// Begin to take lines for matching.
    StartMatchSink,
    /// Take no more lines for matching.
    StopMatchSink,
    /// Hand the line to whoever takes lines for matching.
    Feed(Seq<u8>),
    /// Find the directory.
    Locate(Seq<char>),
}

impl View for Action {
    type V = ActionView;

    open spec fn view(&self) -> ActionView {
        match self {
            Action::Send(msg) => ActionView::Send(msg@),
            Action::Wake => ActionView::Wake,
            Action::JoinTraversal => ActionView::JoinTraversal,
            Action::StartTraversal => ActionView::StartTraversal,
            Action::StartMatchSink => ActionView::StartMatchSink,
            Action::StopMatchSink => ActionView::StopMatchSink,
            Action::Feed(line) => ActionView::Feed(line@),
            Action::Locate(dir) => ActionView::Locate(dir@),
        }
    }
}

/// A list of actions as plain data.
pub open spec fn action_views(actions: Seq<Action>) -> Seq<ActionView> {
    actions.map_values(|action: Action| action@)
}

/// The actions that send `messages`, one after the other.
pub open spec fn sends(messages: Seq<MsgView>) -> Seq<ActionView> {
    messages.map_values(|msg: MsgView| ActionView::Send(msg))
}

/// What a worker of a traversal has come upon.
#[derive(Debug, Clone, Copy)]
pub enum Entry<'a> {
    /// Something that could not be read.
    Unreadable,
    /// A directory.
    Directory,
    /// A file, with its whole path.
    File(&'a [u8]),
}

impl<'a> Entry<'a> {
    /// The path of the entry if it is a file, and nothing otherwise.
    pub open spec fn file(&self) -> Option<Seq<u8>> {
        match self {
            Entry::File(path) => Some(path@),
            _ => None,
        }
    }
}

/// What a worker of a traversal does after it has shown an entry to the
/// walker.
#[derive(Debug, Clone, Copy, PartialEq, Eq, Structural)]
pub enum Visit {
    /// Go on with the next entry.
    Continue,
    /// Stop: the traversal was killed.
    Quit,
    /// The window is full: wait until woken, then show the same entry again.
    Wait,
}

impl Visit {
    /// What the worker does once it has tried to send the messages of the
    /// visit: a worker that cannot reach the client quits.
    pub fn delivered(self, sent: bool) -> (order: Visit)
        ensures
            order == if sent {
                self
            } else {
                Visit::Quit
            },
    {
        if sent {
            self
        } else {
            Visit::Quit
        }
    }
}

/// Why a command is refused.
#[derive(Debug, Clone, Copy, PartialEq, Eq, Structural)]
pub enum Refusal {
    /// The command is not known.
    UnknownCommand,
    /// The argument cannot be read.
    InvalidArgument,
}

/// The state of a walker.
#[verifier::ext_equal]
pub struct WalkerView {
    /// The window, with the pattern that fills it.
    pub window: WindowView,
    /// The pattern for what is never shown.
    pub ignore: PatternView,
    /// The number that counts the kills, and the number of the traversal
    /// begun last.
    pub version: (usize, usize),
    /// How many leading bytes of a path belong to the directory walked.
    pub dir_len: usize,
    /// The directory walked, with a separator at its end.
    pub path: Seq<char>,
    /// Whether the client has asked for a directory to be walked.
    pub is_walking: bool,
    /// Whether a traversal was begun that was not killed since.
    pub traversal: bool,
    /// Whether lines for matching are taken.
    pub match_sink: bool,
}

/// A walker after it has done something, and what is left for the caller.
#[verifier::ext_equal]
pub struct Turn {
    /// The walker afterwards.
    pub state: WalkerView,
    /// What the caller must do, in order.
    pub actions: Seq<ActionView>,
}

impl Turn {
    /// This turn, followed by another that begins where this one ended.
    pub open spec fn followed_by(self, next: Turn) -> Turn {
        Turn { state: next.state, actions: self.actions + next.actions }
    }
}

/// The version after one more kill. The counter wraps at the end of its range.
pub open spec fn next_kill(version: usize) -> usize {
    if version == usize::MAX {
        0
    } else {
        (version + 1) as usize
    }
}

impl WalkerView {
    /// What holds of every walker between two calls: its window is well
    /// formed, and no message waits in it.
    pub open spec fn wf(self) -> bool {
        self.window.wf() && self.window.out.len() == 0
    }

    /// Nothing happens.
    pub open spec fn idle(self) -> Turn {
        Turn { state: self, actions: Seq::empty() }
    }

    /// The walker with another main pattern.
    pub open spec fn with_pattern(self, pattern: PatternView) -> WalkerView {
        WalkerView { window: WindowView { pattern, ..self.window }, ..self }
    }

    /// The walker with another ignore pattern.
    pub open spec fn with_ignore(self, ignore: PatternView) -> WalkerView {
        WalkerView { ignore, ..self }
    }

    /// The walker with other paths in its window.
    pub open spec fn with_content(self, content: Seq<Seq<u8>>) -> WalkerView {
        WalkerView { window: WindowView { content, ..self.window }, ..self }
    }

    /// The traversal is killed: the version moves on, waiting producers are
    /// woken so that they see it, and a traversal that was begun is waited for.
    pub open spec fn kill_running(self) -> Turn {
        Turn {
            state: WalkerView {
                version: (next_kill(self.version.0), self.version.1),
                traversal: false,
                ..self
            },
            actions: if self.traversal {
                seq![ActionView::Wake, ActionView::JoinTraversal]
            } else {
                seq![ActionView::Wake]
            },
        }
    }

    /// No more lines for matching are taken.
    pub open spec fn kill_match_thread(self) -> Turn {
        if self.match_sink {
            Turn {
                state: WalkerView { match_sink: false, ..self },
                actions: seq![ActionView::StopMatchSink],
            }
        } else {
            self.idle()
        }
    }

    /// A traversal is begun unless one is there: it gets the current version,
    /// and the client is told before the first path can come.
    pub open spec fn ensure_running(self) -> Turn {
        if self.traversal {
            self.idle()
        } else {
            Turn {
                state: WalkerView {
                    version: (self.version.0, self.version.0),
                    traversal: true,
                    ..self
                },
                actions: seq![
                    ActionView::Send(MsgView::WalkStarted),
                    ActionView::StartTraversal,
                ],
            }
        }
    }

    /// The window loses the paths that the pattern does not accept now. The
    /// client is told of each, and waiting producers are woken if there was
    /// any.
    pub open spec fn remove_unmatched(self) -> Turn {
        Turn {
            state: self.with_content(self.window.matched()),
            actions: sends(removals(self.window.unmatched())) + if self.window.unmatched().len()
                > 0 {
                seq![ActionView::Wake]
            } else {
                Seq::empty()
            },
        }
    }

    /// The window is emptied. The client is told, and waiting producers are
    /// woken.
    pub open spec fn clear_window(self) -> Turn {
        Turn {
            state: self.with_content(Seq::empty()),
            actions: seq![ActionView::Send(MsgView::Clear), ActionView::Wake],
        }
    }

    /// What follows an edit of the pattern. After a narrowing edit the window
    /// only loses what no longer matches. After any other edit a walk begins
    /// anew; without a walk, lines for matching are no longer taken and the
    /// client is asked to give them again.
    pub open spec fn change_pattern(self, scope: PatternScope) -> Turn {
        if scope == PatternScope::Narrow {
            self.remove_unmatched()
        } else if self.is_walking {
            let killed = self.kill_running();
            let purged = killed.state.remove_unmatched();
            let begun = purged.state.ensure_running();
            killed.followed_by(purged).followed_by(begun)
        } else {
            let stopped = self.kill_match_thread();
            stopped.followed_by(
                Turn { state: stopped.state, actions: seq![ActionView::Send(MsgView::Resync)] },
            )
        }
    }

    /// A line for matching comes in. Lines begin to be taken if they were
    /// not, under the current version; the line is handed on unless the
    /// ignore pattern accepts it.
    pub open spec fn match_line(self, line: Seq<u8>) -> Turn {
        let begun = if self.match_sink {
            self.idle()
        } else {
            Turn {
                state: WalkerView {
                    match_sink: true,
                    version: (self.version.0, self.version.0),
                    ..self
                },
                actions: seq![ActionView::StartMatchSink],
            }
        };
        Turn {
            state: begun.state,
            actions: if self.ignore.matcher.any_matches(line) {
                begun.actions
            } else {
                begun.actions.push(ActionView::Feed(line))
            },
        }
    }

    /// The client stops the search: the traversal is killed, the window is
    /// emptied, and both patterns lose their text and skip no bytes.
    pub open spec fn stop(self) -> Turn {
        let killed = WalkerView { is_walking: false, ..self }.kill_running();
        let cleared = killed.state.clear_window();
        let state = cleared.state;
        Turn {
            state: state.with_pattern(
                PatternView {
                    matcher: MatcherView::empty(0),
                    version: next_version(next_version(state.window.pattern.version)),
                },
            ).with_ignore(
                PatternView {
                    matcher: MatcherView::empty(0),
                    version: next_version(next_version(state.ignore.version)),
                },
            ),
            actions: killed.actions + cleared.actions,
        }
    }

    /// Both patterns skip `n` bytes of every haystack from now on, and what
    /// follows any edit that is not narrowing follows.
    pub open spec fn skip_prefix(self, n: usize) -> Turn {
        self.with_ignore(
            PatternView {
                matcher: MatcherView { skip_prefix: n as nat, ..self.ignore.matcher },
                version: next_version(self.ignore.version),
            },
        ).with_pattern(
            PatternView {
                matcher: MatcherView { skip_prefix: n as nat, ..self.window.pattern.matcher },
                version: next_version(self.window.pattern.version),
            },
        ).change_pattern(PatternScope::Change)
    }

    /// The client is sent the window anew: a clear, then every path in order.
    pub open spec fn redraw(self) -> Turn {
        Turn {
            state: self,
            actions: seq![ActionView::Send(MsgView::Clear)] + sends(additions(self.window.content)),
        }
    }

    /// The window may hold `n` paths from now on. Paths beyond that number
    /// leave it, the last in order first, and the client is not told. If the
    /// window has grown, waiting producers are woken.
    pub open spec fn window_size(self, n: usize) -> Turn {
        Turn {
            state: WalkerView {
                window: WindowView {
                    size: n,
                    content: if n < self.window.content.len() {
                        self.window.content.take(n as int)
                    } else {
                        self.window.content
                    },
                    ..self.window
                },
                ..self
            },
            actions: if n > self.window.size {
                seq![ActionView::Wake]
            } else {
                Seq::empty()
            },
        }
    }

    /// One message to the client, and nothing else.
    pub open spec fn message(self, text: Seq<char>) -> Turn {
        Turn { state: self, actions: seq![ActionView::Send(MsgView::Message(text))] }
    }

    /// The answer to a `walk` command, once the directory `dir` was looked
    /// for. If it was found at `root`, whatever runs is killed and a
    /// traversal of `root` begins; paths are shown without it. If not, the
    /// client is told why, and nothing changes.
    pub open spec fn walk(self, dir: Seq<char>, root: Result<Seq<char>, Seq<char>>) -> Turn {
        match root {
            Ok(found) => {
                let path = with_separator(found);
                let killed = WalkerView { path, ..self }.kill_running();
                let stopped = killed.state.kill_match_thread();
                let begun = WalkerView {
                    dir_len: encode_utf8(path).len() as usize,
                    is_walking: true,
                    ..stopped.state
                }.ensure_running();
                killed.followed_by(stopped).followed_by(begun)
            },
            Err(why) => self.message("walk "@ + dir + " failed: "@ + why),
        }
    }

    /// The part of a path that is shown and matched: what follows the
    /// directory walked.
    pub open spec fn shown(self, path: Seq<u8>) -> Seq<u8> {
        path.skip(self.dir_len as int)
    }

    /// What becomes of an entry that a worker with version `worker` shows to
    /// the walker: the order for the worker, the walker afterwards, and the
    /// messages for the client. `file` is the path of the entry if it is a
    /// file that could be read, and nothing otherwise.
    ///
    /// A worker whose traversal was killed quits. What is no file is passed
    /// over, and so is what the ignore pattern accepts in any part or the
    /// pattern does not accept in every part. What is left enters the window
    /// unless it is there; while the window is full the worker waits.
    pub open spec fn visit(self, worker: (usize, usize), file: Option<Seq<u8>>) -> (
        Visit,
        WalkerView,
        Seq<MsgView>,
    ) {
        if worker.1 != self.version.0 {
            (Visit::Quit, self, Seq::empty())
        } else {
            match file {
                None => (Visit::Continue, self, Seq::empty()),
                Some(path) => {
                    let data = self.shown(path);
                    if self.ignore.matcher.any_matches(data)
                        || !self.window.pattern.matcher.all_matches(data) {
                        (Visit::Continue, self, Seq::empty())
                    } else if self.window.content.len() >= self.window.size {
                        (Visit::Wait, self, Seq::empty())
                    } else if self.window.content.contains(data) {
                        (Visit::Continue, self, Seq::empty())
                    } else {
                        (
                            Visit::Continue,
                            self.with_content(
                                self.window.content.insert(
                                    slot_of(self.window.content, data),
                                    data,
                                ),
                            ),
                            seq![MsgView::AddFile(data)],
                        )
                    }
                },
            }
        }
    }

    /// What becomes of a line for matching that a taker of lines with
    /// version `worker` hands to the window. The pattern is always asked
    /// anew.
    pub open spec fn take_line(self, worker: (usize, usize), line: Seq<u8>) -> (
        Admission,
        WalkerView,
        Seq<MsgView>,
    ) {
        let admission = self.window.admission(line, 0, (self.version.0, worker.1));
        if admission == Admission::Inserted {
            (
                admission,
                self.with_content(
                    self.window.content.insert(slot_of(self.window.content, line), line),
                ),
                seq![MsgView::AddFile(line)],
            )
        } else {
            (admission, self, Seq::empty())
        }
    }

    /// What the server does with what the reader made of a frame. A command
    /// is obeyed; a command that is refused, or a frame that is no command,
    /// is answered with a message, and the server goes on.
    pub open spec fn serves(
        self,
        cmd: Result<(Seq<char>, Seq<char>), Seq<char>>,
        after: Turn,
    ) -> bool {
        match cmd {
            Ok((ct, arg)) => match self.refusal(ct, arg) {
                None => self.obeys(ct, arg, after),
                Some(Refusal::InvalidArgument) => after == self.message("InvalidArgument"@),
                Some(Refusal::UnknownCommand) => after == self.message(
                    "UnknownCommand("@ + ct + ")"@,
                ),
            },
            Err(why) => after == self.message("Command read error: "@ + why),
        }
    }

    /// The two parts of the argument of `set`: the text of the number, and
    /// the text for the pattern.
    pub open spec fn set_parts(arg: Seq<char>) -> (Seq<char>, Seq<char>) {
        let parts = split_spec(encode_utf8(arg));
        (decode_utf8(parts.0), decode_utf8(parts.1))
    }

    /// Whether `rm` can be obeyed with this argument: it is a number, and
    /// the cut does not fall inside a character.
    pub open spec fn rm_ok(self, arg: Seq<char>) -> bool {
        number(arg) matches Some(n) && self.window.pattern.matcher.can_rm(n as nat)
    }

    /// Whether `set` can be obeyed with this argument: it begins with a
    /// number, and that place does not fall inside a character.
    pub open spec fn set_ok(self, arg: Seq<char>) -> bool {
        number(Self::set_parts(arg).0) matches Some(n) && self.window.pattern.matcher.can_set(
            n as nat,
        )
    }

    /// Why the command is refused, if it is: a command that is not known, a
    /// number that is none, or a place in the text of the pattern that lies
    /// inside a character.
    pub open spec fn refusal(self, ct: Seq<char>, arg: Seq<char>) -> Option<Refusal> {
        if ct == "walk"@ || ct == "match"@ || ct == "stop"@ || ct == "add"@ || ct == "ignore"@ {
            None
        } else if ct == "skip-prefix"@ {
            if number(arg) is Some {
                None
            } else {
                Some(Refusal::InvalidArgument)
            }
        } else if ct == "rm"@ {
            if self.rm_ok(arg) {
                None
            } else {
                Some(Refusal::InvalidArgument)
            }
        } else if ct == "set"@ {
            if self.set_ok(arg) {
                None
            } else {
                Some(Refusal::InvalidArgument)
            }
        } else if ct == "redraw"@ {
            None
        } else if ct == "window_size"@ {
            if number(arg) is Some {
                None
            } else {
                Some(Refusal::InvalidArgument)
            }
        } else {
            Some(Refusal::UnknownCommand)
        }
    }

    /// Whether `after` is what adding `text` to the pattern can lead to.
    pub open spec fn adds(self, text: Seq<char>, after: Turn) -> bool {
        let pattern = self.window.pattern;
        exists|m: MatcherView| #[trigger]
            pattern.matcher.adds(text, m) && after == self.with_pattern(
                pattern.edited(m),
            ).change_pattern(add_scope(pattern.matcher.mode, text))
    }

    /// Whether `after` is what setting the ignore pattern to `text` can lead
    /// to: the traversal is killed and the window emptied; nothing begins.
    pub open spec fn ignores(self, text: Seq<char>, after: Turn) -> bool {
        exists|m: MatcherView, scope: PatternScope| #[trigger]
            self.ignore.matcher.sets(0, text, m, scope) && {
                let killed = self.with_ignore(self.ignore.edited(m)).kill_running();
                after == killed.followed_by(killed.state.clear_window())
            }
    }

    /// Whether `after` is what taking `n` bytes off the pattern can lead to.
    pub open spec fn rms(self, n: usize, after: Turn) -> bool {
        let pattern = self.window.pattern;
        exists|m: MatcherView| #[trigger]
            pattern.matcher.rms(n as nat, m) && after == self.with_pattern(
                pattern.edited(m),
            ).change_pattern(PatternScope::Change)
    }

    /// Whether `after` is what replacing the pattern from byte `n` on by
    /// `text` can lead to.
    pub open spec fn sets(self, n: usize, text: Seq<char>, after: Turn) -> bool {
        let pattern = self.window.pattern;
        exists|m: MatcherView, scope: PatternScope| #[trigger]
            pattern.matcher.sets(n as nat, text, m, scope) && after == self.with_pattern(
                pattern.edited(m),
            ).change_pattern(scope)
    }

    /// Whether `after` is what obeying the command can lead to. The command
    /// decides everything but which expressions of a pattern compile.
    pub open spec fn obeys(self, ct: Seq<char>, arg: Seq<char>, after: Turn) -> bool {
        if ct == "walk"@ {
            after == (Turn { state: self, actions: seq![ActionView::Locate(arg)] })
        } else if ct == "match"@ {
            after == self.match_line(encode_utf8(arg))
        } else if ct == "stop"@ {
            after == self.stop()
        } else if ct == "add"@ {
            self.adds(arg, after)
        } else if ct == "ignore"@ {
            self.ignores(arg, after)
        } else if ct == "skip-prefix"@ {
            number(arg) matches Some(n) && after == self.skip_prefix(n)
        } else if ct == "rm"@ {
            number(arg) matches Some(n) && self.rms(n, after)
        } else if ct == "set"@ {
            number(Self::set_parts(arg).0) matches Some(n) && self.sets(
                n,
                Self::set_parts(arg).1,
                after,
            )
        } else if ct == "redraw"@ {
            after == self.redraw()
        } else if ct == "window_size"@ {
            number(arg) matches Some(n) && after == self.window_size(n)
        } else {
            false
        }
    }
}

/// Whether `state` and `after` are what `turn` leads to when `before` was
/// handed out already.
pub open spec fn follows(
    turn: Turn,
    state: WalkerView,
    before: Seq<Action>,
    after: Seq<Action>,
) -> bool {
    state == turn.state && action_views(after) == action_views(before) + turn.actions
}

/// Adds one action to those handed out.
fn emit(actions: &mut Vec<Action>, action: Action)
    ensures
        action_views(final(actions)@) == action_views(old(actions)@).push(action@),
{
    actions.push(action);
    assert(action_views(actions@) =~= action_views(old(actions)@).push(action@));
}

/// Whether `text` is the word `word`.
fn is_word(text: &str, word: &str) -> (same: bool)
    ensures
        same == (text@ == word@),
{
    proof {
        vstd::utf8::encode_utf8_decode_utf8(text@);
        vstd::utf8::encode_utf8_decode_utf8(word@);
    }
    match compare(text.as_bytes(), word.as_bytes()) {
        Side::Same => true,
        _ => false,
    }
}

/// A directory path with a separator at its end.
pub open spec fn with_separator(path: Seq<char>) -> Seq<char> {
    if path.len() > 0 && path.last() == '/' {
        path
    } else {
        path.push('/')
    }
}

/// Puts a separator at the end of a directory path that has none.
pub fn add_separator(path: String) -> (dir: String)
    ensures
        dir@ == with_separator(path@),
{
    let chars = chars_of(path.as_str());
    let n: usize = chars.len();
    if n > 0 && chars[n - 1] == '/' {
        path
    } else {
        let mut dir = path;
        push_char(&mut dir, '/');
        dir
    }
}

/// Whether a directory is named by its place in the home directory: with
/// a leading `~/`.
pub open spec fn in_home(dir: Seq<char>) -> bool {
    dir.len() >= 2 && dir[0] == '~' && dir[1] == '/'
}

/// The path of a directory that is named by its place in the home directory
/// `base`.
pub open spec fn from_home(dir: Seq<char>, base: Seq<char>) -> Seq<char> {
    (base.push('/') + dir.skip(2)).push('/')
}

/// What was looked up is taken for the directory to walk only if it is a
/// directory.
pub fn directory(path: String, is_dir: bool) -> (root: Result<String, Error>)
    ensures
        match root {
            Ok(found) => is_dir && found@ == path@,
            Err(err) => !is_dir && err is NotADirectory,
        },
{
    if is_dir {
        Ok(path)
    } else {
        Err(Error::NotADirectory)
    }
}

/// Puts the home directory in place of a leading `~/`. The result is the
/// path to look up, or nothing if `dir` has no such lead. Without a home
/// directory the lead cannot be replaced, which is an error.
pub fn home_path(dir: &str, home: Option<&str>) -> (path: Result<Option<String>, Error>)
    ensures
        !in_home(dir@) ==> path matches Ok(None),
        in_home(dir@) ==> match home {
            Some(base) => path matches Ok(Some(found)) && found@ == from_home(dir@, base@),
            None => path matches Err(Error::CdInvalid),
        },
{
    let chars = chars_of(dir);
    let n: usize = chars.len();
    if n >= 2 && chars[0] == '~' && chars[1] == '/' {
        match home {
            Some(base) => {
                let mut path = base.to_owned();
                push_char(&mut path, '/');
                let rest = string_of(slice_subrange(chars.as_slice(), 2, n));
                path.append(rest.as_str());
                push_char(&mut path, '/');
                Ok(Some(path))
            },
            None => Err(Error::CdInvalid),
        }
    } else {
        Ok(None)
    }
}

/// The walker: it owns the window and both patterns, obeys the commands of
/// the client, and decides for the workers of a traversal what becomes of
/// each entry. What it cannot do itself, it hands out as actions.
pub struct Walker {
    out: Window,
    ignore_pattern: Pattern,
    walker_version: WalkerVersion,
    dir_len: usize,
    path: String,
    is_walking: bool,
    traversal: bool,
    match_sink: bool,
}

impl View for Walker {
    type V = WalkerView;

    closed spec fn view(&self) -> WalkerView {
        WalkerView {
            window: self.out@,
            ignore: self.ignore_pattern@,
            version: self.walker_version@,
            dir_len: self.dir_len,
            path: self.path@,
            is_walking: self.is_walking,
            traversal: self.traversal,
            match_sink: self.match_sink,
        }
    }
}

impl Walker {
    /// The window and the patterns are well formed.
    closed spec fn sound(&self) -> bool {
        self.out.wf() && self.ignore_pattern.wf()
    }

    /// The invariant of a walker, which every public function here keeps.
    pub closed spec fn wf(&self) -> bool {
        self.sound() && self@.wf()
    }

    /// A walker for the window `out`. It walks nothing yet; its directory is
    /// the current one.
    pub fn new(out: Window) -> (walker: Walker)
        requires
            out.wf(),
            out@.out.len() == 0,
        ensures
            walker.wf(),
            walker@ == (WalkerView {
                window: out@,
                ignore: Pattern::default_view(),
                version: (1usize, 1usize),
                dir_len: 2,
                path: "./"@,
                is_walking: false,
                traversal: false,
                match_sink: false,
            }),
    {
        proof {
            out.lemma_wf();
        }
        Walker {
            out,
            ignore_pattern: Pattern::default(),
            walker_version: WalkerVersion::default(),
            dir_len: 2,
            path: "./".to_owned(),
            is_walking: false,
            traversal: false,
            match_sink: false,
        }
    }

    /// The window.
    pub fn window(&self) -> (window: &Window)
        ensures
            window@ == self@.window,
            self.wf() ==> window.wf(),
    {
        &self.out
    }

    /// The pattern that fills the window.
    pub fn pattern(&self) -> (pattern: &Pattern)
        ensures
            pattern@ == self@.window.pattern,
            self.wf() ==> pattern.wf(),
    {
        self.out.pattern()
    }

    /// The pattern for what is never shown.
    pub fn ignore_pattern(&self) -> (pattern: &Pattern)
        ensures
            pattern@ == self@.ignore,
            self.wf() ==> pattern.wf(),
    {
        &self.ignore_pattern
    }

    /// The version that a traversal or a taker of lines begun now works under.
    pub fn version(&self) -> (version: WalkerVersion)
        ensures
            version@ == self@.version,
    {
        self.walker_version
    }

    /// The directory walked, with a separator at its end.
    pub fn path(&self) -> (path: &str)
        ensures
            path@ == self@.path,
    {
        self.path.as_str()
    }

    /// How many leading bytes of a path belong to the directory walked.
    pub fn dir_len(&self) -> (len: usize)
        ensures
            len == self@.dir_len,
    {
        self.dir_len
    }

    /// Whether the client has asked for a directory to be walked.
    pub fn is_walking(&self) -> (walking: bool)
        ensures
            walking == self@.is_walking,
    {
        self.is_walking
    }

    /// Hands out the messages that wait in the window, as actions.
    fn flush(&mut self, actions: &mut Vec<Action>)
        requires
            old(self).sound(),
        ensures
            final(self).sound(),
            final(self)@ == (WalkerView {
                window: WindowView { out: Seq::empty(), ..old(self)@.window },
                ..old(self)@
            }),
            action_views(final(actions)@) == action_views(old(actions)@) + sends(
                old(self)@.window.out,
            ),
    {
        broadcast use vstd::std_specs::vec::axiom_spec_into_iter;

        let messages = self.out.take_messages();
        let ghost waiting = old(self)@.window.out;
        let ghost before = action_views(actions@);
        proof {
            assert(before + sends(waiting.take(0)) =~= before);
        }
        for msg in it: messages.into_iter()
            invariant
                it.seq().map_values(|msg: Msg| msg@) == waiting,
                action_views(actions@) == before + sends(waiting.take(it.index() as int)),
        {
            proof {
                let n = it.index() as int;
                assert(waiting[n] == msg@);
                assert(waiting.take(n + 1) =~= waiting.take(n).push(waiting[n]));
                assert(sends(waiting.take(n + 1)) =~= sends(waiting.take(n)).push(
                    ActionView::Send(msg@),
                ));
            }
            emit(actions, Action::Send(msg));
        }
        proof {
            assert(waiting.take(waiting.len() as int) =~= waiting);
        }
    }

    /// Kills the traversal.
    fn kill_running(&mut self, actions: &mut Vec<Action>)
        requires
            old(self).wf(),
        ensures
            final(self).wf(),
            follows(old(self)@.kill_running(), final(self)@, old(actions)@, final(actions)@),
    {
        self.walker_version.kill();
        emit(actions, Action::Wake);
        if self.traversal {
            emit(actions, Action::JoinTraversal);
            self.traversal = false;
        }
        proof {
            assert(action_views(actions@) =~= action_views(old(actions)@)
                + old(self)@.kill_running().actions);
        }
    }

    /// Takes no more lines for matching.
    fn kill_match_thread(&mut self, actions: &mut Vec<Action>)
        requires
            old(self).wf(),
        ensures
            final(self).wf(),
            follows(old(self)@.kill_match_thread(), final(self)@, old(actions)@, final(actions)@),
    {
        if self.match_sink {
            emit(actions, Action::StopMatchSink);
            self.match_sink = false;
        }
        proof {
            assert(action_views(actions@) =~= action_views(old(actions)@)
                + old(self)@.kill_match_thread().actions);
        }
    }

    /// Begins a traversal unless one is there.
    fn ensure_running(&mut self, actions: &mut Vec<Action>)
        requires
            old(self).wf(),
        ensures
            final(self).wf(),
            follows(old(self)@.ensure_running(), final(self)@, old(actions)@, final(actions)@),
    {
        if !self.traversal {
            self.out.started();
            self.flush(actions);
            self.walker_version.start();
            self.traversal = true;
            emit(actions, Action::StartTraversal);
            proof {
                assert(self@.window =~= old(self)@.window);
                assert(sends(old(self)@.window.told(MsgView::WalkStarted).out) =~= seq![
                    ActionView::Send(MsgView::WalkStarted),
                ]);
            }
        }
        proof {
            assert(action_views(actions@) =~= action_views(old(actions)@)
                + old(self)@.ensure_running().actions);
        }
    }

    /// Takes out of the window what the pattern does not accept now.
    fn remove_unmatched(&mut self, actions: &mut Vec<Action>)
        requires
            old(self).wf(),
        ensures
            final(self).wf(),
            follows(old(self)@.remove_unmatched(), final(self)@, old(actions)@, final(actions)@),
    {
        let removed = self.out.remove_unmatched();
        self.flush(actions);
        if removed {
            emit(actions, Action::Wake);
        }
        proof {
            self.out.lemma_wf();
            let gone = removals(old(self)@.window.unmatched());
            assert(old(self)@.window.out + gone =~= gone);
            assert(self@.window =~= old(self)@.remove_unmatched().state.window);
            assert(action_views(actions@) =~= action_views(old(actions)@)
                + old(self)@.remove_unmatched().actions);
        }
    }

    /// Empties the window.
    fn clear_window(&mut self, actions: &mut Vec<Action>)
        requires
            old(self).wf(),
        ensures
            final(self).wf(),
            follows(old(self)@.clear_window(), final(self)@, old(actions)@, final(actions)@),
    {
        self.out.clear();
        self.flush(actions);
        emit(actions, Action::Wake);
        proof {
            assert(sends(old(self)@.window.told(MsgView::Clear).out) =~= seq![
                ActionView::Send(MsgView::Clear),
            ]);
            assert(self@.window =~= old(self)@.clear_window().state.window);
            assert(action_views(actions@) =~= action_views(old(actions)@)
                + old(self)@.clear_window().actions);
        }
    }

    /// Does what follows an edit of the pattern.
    fn change_pattern(&mut self, scope: PatternScope, actions: &mut Vec<Action>)
        requires
            old(self).wf(),
        ensures
            final(self).wf(),
            follows(
                old(self)@.change_pattern(scope),
                final(self)@,
                old(actions)@,
                final(actions)@,
            ),
    {
        match scope {
            PatternScope::Narrow => {
                self.remove_unmatched(actions);
            },
            _ => {
                if self.is_walking {
                    self.kill_running(actions);
                    self.remove_unmatched(actions);
                    self.ensure_running(actions);
                    proof {
                        let killed = old(self)@.kill_running();
                        let purged = killed.state.remove_unmatched();
                        let begun = purged.state.ensure_running();
                        assert(action_views(actions@) =~= action_views(old(actions)@) + (
                        killed.actions + purged.actions + begun.actions));
                    }
                } else {
                    self.kill_match_thread(actions);
                    self.out.request_resync();
                    self.flush(actions);
                    proof {
                        let stopped = old(self)@.kill_match_thread();
                        assert(sends(stopped.state.window.told(MsgView::Resync).out) =~= seq![
                            ActionView::Send(MsgView::Resync),
                        ]);
                        assert(self@.window =~= stopped.state.window);
                        assert(action_views(actions@) =~= action_views(old(actions)@) + (
                        stopped.actions + seq![ActionView::Send(MsgView::Resync)]));
                    }
                }
            },
        }
    }

    /// Takes a line for matching from the client.
    fn match_line(&mut self, arg: &str, actions: &mut Vec<Action>)
        requires
            old(self).wf(),
        ensures
            final(self).wf(),
            follows(
                old(self)@.match_line(encode_utf8(arg@)),
                final(self)@,
                old(actions)@,
                final(actions)@,
            ),
    {
        if !self.match_sink {
            self.match_sink = true;
            self.walker_version.start();
            emit(actions, Action::StartMatchSink);
        }
        let line = arg.as_bytes();
        if !self.ignore_pattern.any_matches(line) {
            emit(actions, Action::Feed(copy_bytes(line)));
        }
        proof {
            assert(action_views(actions@) =~= action_views(old(actions)@) + old(self)@.match_line(
                encode_utf8(arg@),
            ).actions);
        }
    }

    /// Stops the search.
    fn stop(&mut self, actions: &mut Vec<Action>)
        requires
            old(self).wf(),
        ensures
            final(self).wf(),
            follows(old(self)@.stop(), final(self)@, old(actions)@, final(actions)@),
    {
        self.is_walking = false;
        self.kill_running(actions);
        self.clear_window(actions);
        let ghost cleared = self@;
        let pattern = self.out.pattern_mut();
        pattern.reset();
        pattern.skip_prefix(0);
        self.ignore_pattern.reset();
        self.ignore_pattern.skip_prefix(0);
        proof {
            self.out.lemma_wf();
            let killed = WalkerView { is_walking: false, ..old(self)@ }.kill_running();
            let emptied = killed.state.clear_window();
            assert(emptied.state == cleared);
            assert(action_views(actions@) =~= action_views(old(actions)@) + (killed.actions
                + emptied.actions));
        }
    }

    /// Sets how many bytes both patterns skip.
    fn skip_prefix(&mut self, n: usize, actions: &mut Vec<Action>)
        requires
            old(self).wf(),
        ensures
            final(self).wf(),
            follows(old(self)@.skip_prefix(n), final(self)@, old(actions)@, final(actions)@),
    {
        self.ignore_pattern.skip_prefix(n);
        self.out.pattern_mut().skip_prefix(n);
        proof {
            self.out.lemma_wf();
        }
        self.change_pattern(PatternScope::Change, actions);
    }

    /// Adds text to the pattern.
    fn add(&mut self, text: &str, actions: &mut Vec<Action>)
        requires
            old(self).wf(),
            old(actions)@.len() == 0,
        ensures
            final(self).wf(),
            old(self)@.adds(text@, Turn { state: final(self)@, actions: action_views(final(actions)@) }),
    {
        let ghost pattern = old(self)@.window.pattern;
        let scope = self.out.pattern_mut().add(text);
        proof {
            self.out.lemma_wf();
        }
        let ghost edited = self@;
        self.change_pattern(scope, actions);
        proof {
            let m = edited.window.pattern.matcher;
            assert(edited == old(self)@.with_pattern(pattern.edited(m)));
            assert(action_views(actions@) =~= edited.change_pattern(scope).actions);
            assert(pattern.matcher.adds(text@, m));
        }
    }

    /// Sets the ignore pattern.
    fn ignore(&mut self, text: &str, actions: &mut Vec<Action>)
        requires
            old(self).wf(),
            old(actions)@.len() == 0,
        ensures
            final(self).wf(),
            old(self)@.ignores(
                text@,
                Turn { state: final(self)@, actions: action_views(final(actions)@) },
            ),
    {
        broadcast use vstd::utf8::encode_utf8_valid_utf8;

        let scope = self.ignore_pattern.set(0, text);
        let ghost edited = self@;
        self.kill_running(actions);
        self.clear_window(actions);
        proof {
            let m = edited.ignore.matcher;
            assert(edited == old(self)@.with_ignore(old(self)@.ignore.edited(m)));
            let killed = edited.kill_running();
            assert(action_views(actions@) =~= killed.followed_by(
                killed.state.clear_window(),
            ).actions);
            assert(old(self)@.ignore.matcher.sets(0, text@, m, scope));
        }
    }

    /// Takes `n` bytes off the pattern.
    fn rm(&mut self, n: usize, actions: &mut Vec<Action>)
        requires
            old(self).wf(),
            old(self)@.window.pattern.matcher.can_rm(n as nat),
            old(actions)@.len() == 0,
        ensures
            final(self).wf(),
            old(self)@.rms(n, Turn { state: final(self)@, actions: action_views(final(actions)@) }),
    {
        let ghost pattern = old(self)@.window.pattern;
        let scope = self.out.pattern_mut().rm(n);
        proof {
            self.out.lemma_wf();
        }
        let ghost edited = self@;
        self.change_pattern(scope, actions);
        proof {
            let m = edited.window.pattern.matcher;
            assert(edited == old(self)@.with_pattern(pattern.edited(m)));
            assert(action_views(actions@) =~= edited.change_pattern(scope).actions);
            assert(pattern.matcher.rms(n as nat, m));
        }
    }

    /// Replaces the pattern from byte `n` on.
    fn set(&mut self, n: usize, text: &str, actions: &mut Vec<Action>)
        requires
            old(self).wf(),
            old(self)@.window.pattern.matcher.can_set(n as nat),
            old(actions)@.len() == 0,
        ensures
            final(self).wf(),
            old(self)@.sets(
                n,
                text@,
                Turn { state: final(self)@, actions: action_views(final(actions)@) },
            ),
    {
        let ghost pattern = old(self)@.window.pattern;
        let scope = self.out.pattern_mut().set(n, text);
        proof {
            self.out.lemma_wf();
        }
        let ghost edited = self@;
        self.change_pattern(scope, actions);
        proof {
            let m = edited.window.pattern.matcher;
            assert(edited == old(self)@.with_pattern(pattern.edited(m)));
            assert(action_views(actions@) =~= edited.change_pattern(scope).actions);
            assert(pattern.matcher.sets(n as nat, text@, m, scope));
        }
    }

    /// Sends the window anew.
    fn redraw(&mut self, actions: &mut Vec<Action>)
        requires
            old(self).wf(),
        ensures
            final(self).wf(),
            follows(old(self)@.redraw(), final(self)@, old(actions)@, final(actions)@),
    {
        self.out.redraw();
        self.flush(actions);
        proof {
            let content = old(self)@.window.content;
            assert(old(self)@.window.out.push(MsgView::Clear) =~= seq![MsgView::Clear]);
            assert(sends(seq![MsgView::Clear] + additions(content)) =~= seq![
                ActionView::Send(MsgView::Clear),
            ] + sends(additions(content)));
            assert(self@.window.out =~= old(self)@.window.out);
            assert(self@ == old(self)@);
        }
    }

    /// Sets how many paths the window may hold.
    fn window_size(&mut self, n: usize, actions: &mut Vec<Action>)
        requires
            old(self).wf(),
        ensures
            final(self).wf(),
            follows(old(self)@.window_size(n), final(self)@, old(actions)@, final(actions)@),
    {
        let grown = self.out.set_size(n);
        if grown {
            emit(actions, Action::Wake);
        }
        proof {
            self.out.lemma_wf();
            assert(action_views(actions@) =~= action_views(old(actions)@)
                + old(self)@.window_size(n).actions);
        }
    }

    /// Obeys a command of the client: `ct` is its name, `arg` its argument.
    ///
    /// A command that is not known is refused, and so is one whose argument
    /// cannot be read; the walker is then as before. Every other command is
    /// obeyed as [`WalkerView::obeys`] says, and the result is what is left
    /// for the caller to do.
    pub fn command(&mut self, ct: &str, arg: &str) -> (result: Result<Vec<Action>, Error>)
        requires
            old(self).wf(),
        ensures
            final(self).wf(),
            match old(self)@.refusal(ct@, arg@) {
                Some(Refusal::UnknownCommand) => final(self)@ == old(self)@ && (
                result matches Err(Error::UnknownCommand(name)) && name@ == ct@),
                Some(Refusal::InvalidArgument) => final(self)@ == old(self)@ && (
                result matches Err(Error::InvalidArgument)),
                None => result matches Ok(actions) && old(self)@.obeys(
                    ct@,
                    arg@,
                    Turn { state: final(self)@, actions: action_views(actions@) },
                ),
            },
    {
        let mut actions: Vec<Action> = Vec::new();
        proof {
            assert(action_views(actions@) =~= Seq::<ActionView>::empty());
        }
        if is_word(ct, "walk") {
            emit(&mut actions, Action::Locate(arg.to_owned()));
            assert(action_views(actions@) =~= seq![ActionView::Locate(arg@)]);
        } else if is_word(ct, "match") {
            self.match_line(arg, &mut actions);
            assert(action_views(actions@) =~= old(self)@.match_line(encode_utf8(arg@)).actions);
        } else if is_word(ct, "stop") {
            self.stop(&mut actions);
            assert(action_views(actions@) =~= old(self)@.stop().actions);
        } else if is_word(ct, "add") {
            self.add(arg, &mut actions);
        } else if is_word(ct, "ignore") {
            self.ignore(arg, &mut actions);
        } else if is_word(ct, "skip-prefix") {
            match parse_number(arg) {
                Some(n) => {
                    self.skip_prefix(n, &mut actions);
                    assert(action_views(actions@) =~= old(self)@.skip_prefix(n).actions);
                },
                None => {
                    return Err(Error::InvalidArgument);
                },
            }
        } else if is_word(ct, "rm") {
            let n = match parse_number(arg) {
                Some(n) => n,
                None => {
                    return Err(Error::InvalidArgument);
                },
            };
            if !self.out.pattern().can_rm(n) {
                return Err(Error::InvalidArgument);
            }
            self.rm(n, &mut actions);
        } else if is_word(ct, "set") {
            let parts = chars_split_at_space(arg);
            proof {
                vstd::utf8::encode_utf8_decode_utf8(parts.0@);
                vstd::utf8::encode_utf8_decode_utf8(parts.1@);
            }
            let n = match parse_number(parts.0) {
                Some(n) => n,
                None => {
                    return Err(Error::InvalidArgument);
                },
            };
            if !self.out.pattern().can_set(n) {
                return Err(Error::InvalidArgument);
            }
            self.set(n, parts.1, &mut actions);
        } else if is_word(ct, "redraw") {
            self.redraw(&mut actions);
            assert(action_views(actions@) =~= old(self)@.redraw().actions);
        } else if is_word(ct, "window_size") {
            match parse_number(arg) {
                Some(n) => {
                    self.window_size(n, &mut actions);
                    assert(action_views(actions@) =~= old(self)@.window_size(n).actions);
                },
                None => {
                    return Err(Error::InvalidArgument);
                },
            }
        } else {
            return Err(Error::UnknownCommand(ct.to_owned()));
        }
        Ok(actions)
    }

    /// Whoever takes lines for matching has gone: no more lines are taken.
    pub fn match_failed(&mut self) -> (actions: Vec<Action>)
        requires
            old(self).wf(),
        ensures
            final(self).wf(),
            final(self)@ == old(self)@.kill_match_thread().state,
            action_views(actions@) == old(self)@.kill_match_thread().actions,
    {
        let mut actions: Vec<Action> = Vec::new();
        proof {
            assert(action_views(actions@) =~= Seq::<ActionView>::empty());
        }
        self.kill_match_thread(&mut actions);
        proof {
            assert(action_views(actions@) =~= old(self)@.kill_match_thread().actions);
        }
        actions
    }

    /// Tells the client something to read.
    pub fn message(&mut self, value: String) -> (actions: Vec<Action>)
        requires
            old(self).wf(),
        ensures
            final(self).wf(),
            final(self)@ == old(self)@,
            action_views(actions@) == old(self)@.message(value@).actions,
    {
        let mut actions: Vec<Action> = Vec::new();
        self.out.message(value);
        self.flush(&mut actions);
        proof {
            assert(sends(old(self)@.window.told(MsgView::Message(value@)).out) =~= seq![
                ActionView::Send(MsgView::Message(value@)),
            ]);
            assert(action_views(actions@) =~= old(self)@.message(value@).actions);
            assert(self@.window.out =~= old(self)@.window.out);
        }
        actions
    }

    /// Answers a `walk` command once the directory `dir` was looked for:
    /// `root` is where it was found, or why it was not. After a success the
    /// traversal of `root` is begun; after a failure the client is told.
    pub fn walk(&mut self, dir: &str, root: Result<String, Error>) -> (actions: Vec<Action>)
        requires
            old(self).wf(),
        ensures
            final(self).wf(),
            final(self)@ == old(self)@.walk(dir@, root_view(root)).state,
            action_views(actions@) == old(self)@.walk(dir@, root_view(root)).actions,
    {
        match root {
            Ok(found) => {
                let mut actions: Vec<Action> = Vec::new();
                proof {
                    assert(action_views(actions@) =~= Seq::<ActionView>::empty());
                }
                self.path = add_separator(found);
                self.kill_running(&mut actions);
                self.kill_match_thread(&mut actions);
                self.dir_len = self.path.as_str().as_bytes().len();
                self.is_walking = true;
                self.ensure_running(&mut actions);
                proof {
                    let turn = old(self)@.walk(dir@, root_view(root));
                    assert(action_views(actions@) =~= turn.actions);
                }
                actions
            },
            Err(err) => {
                let mut text = "walk ".to_owned();
                text.append(dir);
                text.append(" failed: ");
                text.append(err.describe().as_str());
                self.message(text)
            },
        }
    }

    /// Decides what becomes of an entry of the traversal that a worker begun
    /// with version `worker` has come upon. The messages are for the client;
    /// if they cannot be sent, the worker quits.
    pub fn visit(&mut self, worker: &WalkerVersion, entry: Entry<'_>) -> (visited: (
        Visit,
        Vec<Msg>,
    ))
        requires
            old(self).wf(),
            entry.file() matches Some(path) ==> old(self)@.dir_len <= path.len(),
        ensures
            final(self).wf(),
            visited.0 == old(self)@.visit(worker@, entry.file()).0,
            final(self)@ == old(self)@.visit(worker@, entry.file()).1,
            msg_views(visited.1@) == old(self)@.visit(worker@, entry.file()).2,
    {
        let mut live = *worker;
        live.sync(&self.walker_version);
        if live.is_wrong() {
            let none: Vec<Msg> = Vec::new();
            assert(msg_views(none@) =~= Seq::<MsgView>::empty());
            return (Visit::Quit, none);
        }
        let path = match entry {
            Entry::File(path) => path,
            _ => {
                let none: Vec<Msg> = Vec::new();
                assert(msg_views(none@) =~= Seq::<MsgView>::empty());
                return (Visit::Continue, none);
            },
        };
        let data = slice_subrange(path, self.dir_len, path.len());
        if self.ignore_pattern.any_matches(data) {
            let none: Vec<Msg> = Vec::new();
            assert(msg_views(none@) =~= Seq::<MsgView>::empty());
            return (Visit::Continue, none);
        }
        let version = self.out.pattern().version();
        if !self.out.pattern().all_matches(data) {
            let none: Vec<Msg> = Vec::new();
            assert(msg_views(none@) =~= Seq::<MsgView>::empty());
            return (Visit::Continue, none);
        }
        let admission = self.out.add(copy_bytes(data), version, &live);
        let messages = self.out.take_messages();
        proof {
            self.out.lemma_wf();
            assert(self@.window.out =~= old(self)@.window.out);
            if admission == Admission::Inserted {
                assert(msg_views(messages@) =~= seq![MsgView::AddFile(data@)]);
            } else {
                assert(msg_views(messages@) =~= Seq::<MsgView>::empty());
            }
        }
        let order = match admission {
            Admission::Killed => Visit::Quit,
            Admission::Blocked => Visit::Wait,
            _ => Visit::Continue,
        };
        (order, messages)
    }

    /// Hands a line for matching to the window, for a taker of lines that
    /// was begun with version `worker`. Whether the pattern accepts the line
    /// is always asked anew. The messages are for the client.
    pub fn take_line(&mut self, worker: &WalkerVersion, line: Vec<u8>) -> (taken: (
        Admission,
        Vec<Msg>,
    ))
        requires
            old(self).wf(),
        ensures
            final(self).wf(),
            taken.0 == old(self)@.take_line(worker@, line@).0,
            final(self)@ == old(self)@.take_line(worker@, line@).1,
            msg_views(taken.1@) == old(self)@.take_line(worker@, line@).2,
    {
        let mut live = *worker;
        live.sync(&self.walker_version);
        let admission = self.out.add(line, 0, &live);
        let messages = self.out.take_messages();
        proof {
            self.out.lemma_wf();
            assert(self@.window.out =~= old(self)@.window.out);
            if admission == Admission::Inserted {
                assert(msg_views(messages@) =~= seq![MsgView::AddFile(line@)]);
            } else {
                assert(msg_views(messages@) =~= Seq::<MsgView>::empty());
            }
        }
        (admission, messages)
    }

    /// The message for the client when a traversal has ended, whether it
    /// came to its end or was killed.
    pub fn done(&mut self) -> (messages: Vec<Msg>)
        requires
            old(self).wf(),
        ensures
            final(self).wf(),
            final(self)@ == old(self)@,
            msg_views(messages@) == seq![MsgView::WalkDone],
    {
        self.out.done();
        let messages = self.out.take_messages();
        proof {
            assert(self@.window.out =~= old(self)@.window.out);
            assert(msg_views(messages@) =~= seq![MsgView::WalkDone]);
        }
        messages
    }

    /// One turn of the server: does with a frame what the reader made of it.
    /// A command is obeyed. A command that is refused, and a frame that is
    /// no command, are answered with a message; the server goes on.
    pub fn serve(&mut self, cmd: Result<(&str, &str), Error>) -> (actions: Vec<Action>)
        requires
            old(self).wf(),
        ensures
            final(self).wf(),
            old(self)@.serves(
                cmd_view(cmd),
                Turn { state: final(self)@, actions: action_views(actions@) },
            ),
    {
        match cmd {
            Ok((ct, arg)) => match self.command(ct, arg) {
                Ok(actions) => actions,
                Err(err) => {
                    proof {
                        reveal_strlit("InvalidArgument");
                    }
                    self.message(err.describe())
                },
            },
            Err(err) => {
                let mut text = "Command read error: ".to_owned();
                text.append(err.describe().as_str());
                self.message(text)
            },
        }
    }
}

/// What was looked up for a `walk` command, as plain data: the path found,
/// or the failure in words.
pub open spec fn root_view(root: Result<String, Error>) -> Result<Seq<char>, Seq<char>> {
    match root {
        Ok(found) => Ok(found@),
        Err(err) => Err(err.description()),
    }
}

/// What the reader made of a frame, as plain data: the command and its
/// argument, or the failure in words.
pub open spec fn cmd_view(cmd: Result<(&str, &str), Error>) -> Result<
    (Seq<char>, Seq<char>),
    Seq<char>,
> {
    match cmd {
        Ok((ct, arg)) => Ok((ct@, arg@)),
        Err(err) => Err(err.description()),
    }
}

/// A list of messages as plain data.
pub open spec fn msg_views(messages: Seq<Msg>) -> Seq<MsgView> {
    messages.map_values(|msg: Msg| msg@)
}

} // verus!
