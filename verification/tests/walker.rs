use std::collections::VecDeque;

use koru_find::server::walker::{
    add_separator, directory, home_path, Action, Entry, Error, Msg, Visit, Walker, WalkerVersion,
};
use koru_find::server::window::{Admission, Window};
use koru_find::server::CommandReader;

/// The directory tree that every test walks.
const TREE: [&str; 5] = ["test/", "test/a/", "test/a/1/", "test/a/1/2.txt", "test/a/1/3.txt"];

/// A traversal that was begun: a worker that shows the walker one entry after
/// the other.
struct Traversal {
    version: WalkerVersion,
    entries: Vec<&'static str>,
    next: usize,
}

/// Does by hand, and in one thread, what the threads around a walker do. A
/// traversal moves on whenever the test waits for a message, and whenever the
/// walker waits for it to end.
struct Server {
    walker: Walker,
    sent: VecDeque<Msg>,
    traversal: Option<Traversal>,
    sink: Option<WalkerVersion>,
}

impl Server {
    fn new(size: usize) -> Self {
        Server {
            walker: Walker::new(Window::new(size)),
            sent: VecDeque::new(),
            traversal: None,
            sink: None,
        }
    }

    fn command(&mut self, ct: &str, arg: &str) -> Result<(), Error> {
        let actions = self.walker.command(ct, arg)?;
        self.perform(actions);
        Ok(())
    }

    fn perform(&mut self, actions: Vec<Action>) {
        for action in actions {
            match action {
                Action::Send(msg) => self.sent.push_back(msg),
                Action::Wake => {}
                Action::JoinTraversal => {
                    self.traverse();
                    assert!(self.traversal.is_none());
                }
                Action::StartTraversal => {
                    assert!(self.traversal.is_none());
                    let root = self.walker.path().to_string();
                    self.traversal = Some(Traversal {
                        version: self.walker.version(),
                        entries: TREE.iter().copied().filter(|e| e.starts_with(&root)).collect(),
                        next: 0,
                    });
                }
                Action::StartMatchSink => self.sink = Some(self.walker.version()),
                Action::StopMatchSink => self.sink = None,
                Action::Feed(line) => {
                    let version = self.sink.expect("somebody takes lines");
                    let (_, messages) = self.walker.take_line(&version, line);
                    self.sent.extend(messages);
                }
                Action::Locate(dir) => {
                    let found = TREE.iter().any(|e| e.ends_with('/') && e.starts_with(&dir)
                        && e.len() <= dir.len() + 1);
                    let root = directory(dir.clone(), found);
                    let more = self.walker.walk(&dir, root);
                    self.perform(more);
                }
            }
        }
    }

    /// Lets the traversal run until it has ended or waits for room.
    fn traverse(&mut self) {
        let Some(mut traversal) = self.traversal.take() else {
            return;
        };
        while traversal.next < traversal.entries.len() {
            let entry = traversal.entries[traversal.next];
            let shown = if entry.ends_with('/') {
                Entry::Directory
            } else {
                Entry::File(entry.as_bytes())
            };
            let (visit, messages) = self.walker.visit(&traversal.version, shown);
            self.sent.extend(messages);
            match visit {
                Visit::Continue => traversal.next += 1,
                Visit::Quit => break,
                Visit::Wait => {
                    self.traversal = Some(traversal);
                    return;
                }
            }
        }
        self.sent.extend(self.walker.done());
    }

    fn recv(&mut self) -> Option<Msg> {
        if self.sent.is_empty() {
            self.traverse();
        }
        self.sent.pop_front()
    }

    fn try_recv(&mut self) -> Option<Msg> {
        self.sent.pop_front()
    }

    /// Waits for the traversal and throws away what was sent.
    fn settle(&mut self) {
        self.traverse();
        self.sent.clear();
    }

    fn to_raf(&mut self, mut count: usize) -> String {
        let mut result = vec![];
        while count > 0 {
            let Some(m) = self.recv() else {
                break;
            };
            count -= 1;
            let (t, b) = match m {
                Msg::AddFile(bytes) => ("+", bytes),
                Msg::RmFile(bytes) => ("-", bytes),
                o => ("unexpected ", format!("{o:?}").into_bytes()),
            };
            result.push(format!("{t}{}", std::str::from_utf8(b.as_ref()).unwrap()));
        }
        if count > 0 {
            result.push("timeout".to_string());
        }
        result.sort();
        result.join(" ")
    }

    /// Feeds the bytes of the client to a reader and serves every frame.
    fn input(&mut self, reader: &mut CommandReader, mut data: &[u8]) {
        loop {
            let mut ready = reader.next_frame();
            while !ready && !data.is_empty() {
                let len = std::cmp::min(data.len(), reader.space());
                ready = reader.read(&data[..len]).unwrap();
                data = &data[len..];
            }
            if !ready {
                return;
            }
            let actions = self.walker.serve(reader.get_cmd());
            self.perform(actions);
        }
    }

    fn frame(&mut self) -> String {
        let mut out = Vec::new();
        self.recv().expect("a message").write(&mut out);
        assert_eq!(out.pop(), Some(0));
        String::from_utf8(out).unwrap()
    }
}

#[test]
fn match_command() {
    let mut server = Server::new(5);
    assert!(!server.walker.is_walking());

    server.command("add", "123").unwrap();

    server.command("match", "123456").unwrap();
    server.command("match", "456").unwrap();
    server.command("match", "012hello3").unwrap();

    assert_eq!(server.to_raf(2), "+012hello3 +123456");

    server.command("add", "4").unwrap();

    assert_eq!(server.to_raf(1), "-012hello3");
    server.command("rm", "1").unwrap();
    assert_eq!(server.recv().unwrap(), Msg::Resync);
}

#[test]
fn walker_test_window_size() {
    let mut server = Server::new(5);

    server.command("window_size", "3").unwrap();

    assert_eq!(server.walker.window().size(), 3);
}

#[test]
fn remove() {
    let mut server = Server::new(5);

    server.command("walk", "test").unwrap();

    server.command("add", "123").unwrap();

    assert_eq!(server.recv().unwrap(), Msg::WalkStarted);
    assert_eq!(server.recv().unwrap(), Msg::WalkDone);

    server.command("rm", "2").unwrap();

    assert_eq!(server.recv().unwrap(), Msg::WalkStarted);
    assert_eq!(server.to_raf(2), "+a/1/2.txt +a/1/3.txt");
    assert_eq!(server.recv().unwrap(), Msg::WalkDone);
}

#[test]
fn stop() {
    let mut server = Server::new(5);

    server.command("walk", "test").unwrap();
    server.settle();

    server.command("set", "0 1/3").unwrap();
    server.traverse();
    assert_eq!(server.to_raf(1), "-a/1/2.txt");
    assert!(matches!(server.try_recv(), None));

    server.command("stop", "").unwrap();

    server.command("set", "0 >2.txt ").unwrap();
    assert_eq!(server.recv().unwrap(), Msg::Clear);

    assert_eq!(server.recv().unwrap(), Msg::Resync);
    assert!(matches!(server.try_recv(), None));
    server.command("walk", "test").unwrap();
    server.command("set", "8 a/1").unwrap();

    assert_eq!(server.recv().unwrap(), Msg::WalkStarted);
    assert_eq!(server.to_raf(1), "+a/1/2.txt");
    assert_eq!(server.recv().unwrap(), Msg::WalkDone);
    assert!(matches!(server.try_recv(), None));

    server.command("ignore", "foo").unwrap();
    assert_eq!(server.walker.ignore_pattern().clone_text(), "foo");
    assert_eq!(server.walker.pattern().clone_text(), ">2.txt a/1");

    server.command("stop", "").unwrap();

    assert_eq!(server.walker.pattern().clone_text(), "");
    assert_eq!(server.walker.ignore_pattern().clone_text(), "");
}

#[test]
fn redraw() {
    let mut server = Server::new(5);

    server.command("walk", "test").unwrap();
    server.command("set", "0 txt").unwrap();

    server.settle();

    server.command("redraw", "").unwrap();
    assert_eq!(server.recv().unwrap(), Msg::Clear);
    assert_eq!(server.to_raf(2), "+a/1/2.txt +a/1/3.txt");
    assert!(matches!(server.try_recv(), None));
}

#[test]
fn set() {
    let mut server = Server::new(5);

    server.command("walk", "test").unwrap();
    server.settle();

    server.command("set", "0 1/3").unwrap();
    server.traverse();
    assert_eq!(server.to_raf(1), "-a/1/2.txt");
    assert!(matches!(server.try_recv(), None));

    server.command("set", "1 /2").unwrap();
    assert_eq!(server.to_raf(1), "-a/1/3.txt");
    assert_eq!(server.recv().unwrap(), Msg::WalkStarted);
    assert_eq!(server.to_raf(1), "+a/1/2.txt");
    assert_eq!(server.recv().unwrap(), Msg::WalkDone);

    server.command("set", "2 2tx").unwrap();
    server.traverse();
    assert!(matches!(server.try_recv(), None));

    server.command("set", "1 /2txt").unwrap();

    server.traverse();
    assert!(matches!(server.try_recv(), None));
}

#[test]
fn walker_test_remove_unmatched() {
    let mut server = Server::new(5);

    server.command("walk", "test").unwrap();

    server.command("add", "1").unwrap();

    assert_eq!(server.recv().unwrap(), Msg::WalkStarted);
    assert_eq!(server.to_raf(2), "+a/1/2.txt +a/1/3.txt");
    assert_eq!(server.recv().unwrap(), Msg::WalkDone);

    server.command("add", "14").unwrap();

    assert_eq!(&server.to_raf(2), "-a/1/2.txt -a/1/3.txt");
}

#[test]
fn walker_test_ends_with() {
    let mut server = Server::new(5);

    server.command("walk", "test/").unwrap();

    server.command("add", ">.t").unwrap();

    assert_eq!(server.recv().unwrap(), Msg::WalkStarted);
    assert_eq!(server.recv().unwrap(), Msg::WalkDone);
    assert_eq!(server.recv().unwrap(), Msg::WalkStarted);
    assert_eq!(server.recv().unwrap(), Msg::WalkDone);

    server.command("add", "xt").unwrap();

    assert_eq!(server.recv().unwrap(), Msg::WalkStarted);
    assert_eq!(server.to_raf(2), "+a/1/2.txt +a/1/3.txt");
    assert_eq!(server.recv().unwrap(), Msg::WalkDone);
}

#[test]
fn add() {
    let mut server = Server::new(5);

    server.command("walk", "test/").unwrap();

    server.command("add", "1").unwrap();

    assert_eq!(server.recv().unwrap(), Msg::WalkStarted);
    assert_eq!(server.to_raf(2), "+a/1/2.txt +a/1/3.txt");
    assert_eq!(server.recv().unwrap(), Msg::WalkDone);

    server.command("stop", "").unwrap();
    server.command("walk", "test/a/1").unwrap();
    server.command("add", "2.t").unwrap();

    assert_eq!(server.recv().unwrap(), Msg::Clear);
    assert_eq!(server.recv().unwrap(), Msg::WalkStarted);
    assert_eq!(server.to_raf(1), "+2.txt");
    assert_eq!(server.recv().unwrap(), Msg::WalkDone);
}

#[test]
fn ignore_pattern() {
    let mut server = Server::new(5);
    server.command("ignore", ">2.txt").unwrap();

    server.command("walk", "test/").unwrap();
    assert_eq!(server.recv().unwrap(), Msg::Clear);
    assert_eq!(server.recv().unwrap(), Msg::WalkStarted);
    assert_eq!(server.to_raf(1), "+a/1/3.txt");
    assert_eq!(server.recv().unwrap(), Msg::WalkDone);
}

#[test]
fn scenario_basic_walk_then_narrow_and_restart() {
    let mut server = Server::new(4);
    let mut reader = CommandReader::new();

    server.input(&mut reader, b"walk test\x00window_size 3\x00");
    assert_eq!(server.frame(), "started");
    let mut files = [server.frame(), server.frame()];
    files.sort();
    assert_eq!(files, ["+a/1/2.txt", "+a/1/3.txt"]);
    assert_eq!(server.frame(), "done");

    server.input(&mut reader, b"stop\x00walk test\x00add a/2\x00");
    assert_eq!(server.frame(), "clear");
    assert_eq!(server.frame(), "started");
    assert_eq!(server.frame(), "+a/1/2.txt");
    assert_eq!(server.frame(), "done");
    assert_eq!(server.try_recv(), None);
}

#[test]
fn scenario_window_full() {
    let mut server = Server::new(4);
    let mut reader = CommandReader::new();

    server.input(&mut reader, b"walk test\x00window_size 1\x00add 1\x00");
    assert_eq!(server.frame(), "started");
    let file = server.frame();
    assert!(file == "+a/1/2.txt" || file == "+a/1/3.txt");
    // the worker waits for room; nothing else comes
    assert_eq!(server.recv(), None);
    assert!(server.traversal.is_some());

    // room is made: the worker goes on and the traversal ends
    server.input(&mut reader, b"window_size 2\x00");
    let file = server.frame();
    assert!(file == "+a/1/2.txt" || file == "+a/1/3.txt");
    assert_eq!(server.frame(), "done");
}

#[test]
fn scenario_a_waiting_worker_is_killed() {
    let mut server = Server::new(1);
    server.command("walk", "test").unwrap();
    assert_eq!(server.recv(), Some(Msg::WalkStarted));
    assert_eq!(server.recv(), Some(Msg::AddFile(b"a/1/2.txt".to_vec())));
    assert_eq!(server.recv(), None);
    assert!(server.traversal.is_some());
    let actions = server.walker.command("stop", "").unwrap();
    assert_eq!(
        actions,
        vec![Action::Wake, Action::JoinTraversal, Action::Send(Msg::Clear), Action::Wake]
    );
    server.perform(actions);
    assert!(server.traversal.is_none());
    assert_eq!(server.recv(), Some(Msg::WalkDone));
    assert_eq!(server.recv(), Some(Msg::Clear));
    assert_eq!(server.recv(), None);
}

#[test]
fn scenario_ignore_pattern() {
    let mut server = Server::new(4);
    let mut reader = CommandReader::new();
    server.input(&mut reader, b"ignore >2.txt\x00walk test/\x00add 1\x00");
    assert_eq!(server.frame(), "clear");
    assert_eq!(server.frame(), "started");
    assert_eq!(server.frame(), "+a/1/3.txt");
    assert_eq!(server.frame(), "done");
}

#[test]
fn scenario_redraw() {
    let mut server = Server::new(4);
    let mut reader = CommandReader::new();
    server.input(&mut reader, b"walk test\x00window_size 3\x00");
    server.settle();
    server.input(&mut reader, b"redraw\x00");
    assert_eq!(server.frame(), "clear");
    assert_eq!(server.frame(), "+a/1/2.txt");
    assert_eq!(server.frame(), "+a/1/3.txt");
    assert_eq!(server.try_recv(), None);
}

#[test]
fn scenario_match_streaming() {
    let mut server = Server::new(4);
    let mut reader = CommandReader::new();
    server.input(&mut reader, b"add 123\x00match 123456\x00match 456\x00match 012hello3\x00");
    assert_eq!(server.frame(), "+123456");
    assert_eq!(server.frame(), "+012hello3");
    server.input(&mut reader, b"add 4\x00");
    assert_eq!(server.frame(), "-012hello3");
    server.input(&mut reader, b"rm 1\x00");
    assert_eq!(server.frame(), "resync");
    assert_eq!(server.try_recv(), None);
}

#[test]
fn refused_commands_are_answered_and_the_server_goes_on() {
    let mut server = Server::new(4);
    let mut reader = CommandReader::new();
    server.input(
        &mut reader,
        b"stop-search\x00rm x\x00set  a\x00window_size -1\x00skip-prefix\x00a\xffb\x00walk nowhere\x00redraw\x00",
    );
    assert_eq!(server.frame(), "message UnknownCommand(stop-search)");
    assert_eq!(server.frame(), "message InvalidArgument");
    assert_eq!(server.frame(), "message InvalidArgument");
    assert_eq!(server.frame(), "message InvalidArgument");
    assert_eq!(server.frame(), "message InvalidArgument");
    assert_eq!(server.frame(), "message Command read error: Utf8Error");
    assert_eq!(server.frame(), "message walk nowhere failed: NotADirectory");
    assert_eq!(server.frame(), "clear");
    assert_eq!(server.try_recv(), None);
    assert!(!server.walker.is_walking());
}

#[test]
fn each_command_error() {
    let mut walker = Walker::new(Window::new(3));
    assert_eq!(walker.command("nope", ""), Err(Error::UnknownCommand("nope".to_string())));
    assert_eq!(walker.command("", "walk"), Err(Error::UnknownCommand(String::new())));
    assert_eq!(walker.command("Walk", "x"), Err(Error::UnknownCommand("Walk".to_string())));
    for ct in ["rm", "window_size", "skip-prefix"] {
        assert_eq!(walker.command(ct, "x"), Err(Error::InvalidArgument));
        assert_eq!(walker.command(ct, ""), Err(Error::InvalidArgument));
        assert_eq!(walker.command(ct, "1 2"), Err(Error::InvalidArgument));
    }
    assert_eq!(walker.command("set", "x y"), Err(Error::InvalidArgument));
    assert_eq!(walker.command("set", ""), Err(Error::InvalidArgument));
    assert!(walker.command("set", "0").is_ok());
    assert!(walker.command("add", "é").is_ok());
    assert_eq!(walker.command("rm", "1"), Err(Error::InvalidArgument));
    assert_eq!(walker.command("set", "1 x"), Err(Error::InvalidArgument));
    assert_eq!(walker.pattern().clone_text(), "é");
    assert_eq!(walker.pattern().version(), 2);
    assert!(walker.command("rm", "2").is_ok());
    assert_eq!(walker.pattern().clone_text(), "");
}

#[test]
fn what_each_command_leaves_to_the_caller() {
    let mut walker = Walker::new(Window::new(3));
    assert_eq!(walker.command("walk", "~/x"), Ok(vec![Action::Locate("~/x".to_string())]));
    assert!(!walker.is_walking());
    assert_eq!(
        walker.walk("d", Ok("d".to_string())),
        vec![Action::Wake, Action::Send(Msg::WalkStarted), Action::StartTraversal]
    );
    assert!(walker.is_walking());
    assert_eq!(walker.path(), "d/");
    let worker = walker.version();
    assert!(!worker.is_wrong());
    assert_eq!(walker.visit(&worker, Entry::Directory), (Visit::Continue, vec![]));
    assert_eq!(walker.visit(&worker, Entry::Unreadable), (Visit::Continue, vec![]));
    assert_eq!(
        walker.visit(&worker, Entry::File(b"d/b")),
        (Visit::Continue, vec![Msg::AddFile(b"b".to_vec())])
    );
    assert_eq!(walker.visit(&worker, Entry::File(b"d/b")), (Visit::Continue, vec![]));
    assert_eq!(
        walker.visit(&worker, Entry::File(b"d/a")),
        (Visit::Continue, vec![Msg::AddFile(b"a".to_vec())])
    );
    // narrowing: the traversal goes on, the window loses what no longer matches
    assert_eq!(
        walker.command("add", "a"),
        Ok(vec![Action::Send(Msg::RmFile(b"b".to_vec())), Action::Wake])
    );
    assert_eq!(walker.visit(&worker, Entry::File(b"d/c")), (Visit::Continue, vec![]));
    assert_eq!(walker.command("add", "a"), Ok(vec![Action::Send(Msg::RmFile(b"a".to_vec())), Action::Wake]));
    assert_eq!(walker.command("add", "a"), Ok(vec![]));
    // any other edit: the traversal is killed and begun anew
    assert_eq!(
        walker.command("rm", "2"),
        Ok(vec![
            Action::Wake,
            Action::JoinTraversal,
            Action::Send(Msg::WalkStarted),
            Action::StartTraversal
        ])
    );
    assert_eq!(walker.visit(&worker, Entry::File(b"d/a")), (Visit::Quit, vec![]));
    let worker = walker.version();
    assert_eq!(walker.command("window_size", "1"), Ok(vec![]));
    assert_eq!(
        walker.visit(&worker, Entry::File(b"d/a")),
        (Visit::Continue, vec![Msg::AddFile(b"a".to_vec())])
    );
    assert_eq!(walker.visit(&worker, Entry::File(b"d/ab")), (Visit::Wait, vec![]));
    assert_eq!(walker.visit(&worker, Entry::File(b"d/b")), (Visit::Continue, vec![]));
    assert_eq!(walker.command("window_size", "2"), Ok(vec![Action::Wake]));
    assert_eq!(walker.command("window_size", "2"), Ok(vec![]));
    assert_eq!(
        walker.command("redraw", ""),
        Ok(vec![Action::Send(Msg::Clear), Action::Send(Msg::AddFile(b"a".to_vec()))])
    );
    assert_eq!(
        walker.command("ignore", "x"),
        Ok(vec![Action::Wake, Action::JoinTraversal, Action::Send(Msg::Clear), Action::Wake])
    );
    assert_eq!(walker.visit(&worker, Entry::File(b"d/ab")), (Visit::Quit, vec![]));
    assert_eq!(walker.done(), vec![Msg::WalkDone]);
    // the next edit that is not narrowing begins the walk again
    assert_eq!(
        walker.command("skip-prefix", "1"),
        Ok(vec![Action::Wake, Action::Send(Msg::WalkStarted), Action::StartTraversal])
    );
    let worker = walker.version();
    assert_eq!(walker.visit(&worker, Entry::File(b"d/ax")), (Visit::Continue, vec![]));
    assert_eq!(
        walker.visit(&worker, Entry::File(b"d/ya")),
        (Visit::Continue, vec![Msg::AddFile(b"ya".to_vec())])
    );
    assert_eq!(
        walker.command("stop", ""),
        Ok(vec![Action::Wake, Action::JoinTraversal, Action::Send(Msg::Clear), Action::Wake])
    );
    assert!(!walker.is_walking());
    assert_eq!(walker.pattern().clone_text(), "");
    assert!(walker.pattern().all_matches(b"q"));
    // without a walk, lines are matched
    assert_eq!(
        walker.command("match", "q"),
        Ok(vec![Action::StartMatchSink, Action::Feed(b"q".to_vec())])
    );
    let sink = walker.version();
    assert_eq!(walker.command("match", "r"), Ok(vec![Action::Feed(b"r".to_vec())]));
    assert_eq!(
        walker.take_line(&sink, b"q".to_vec()),
        (Admission::Inserted, vec![Msg::AddFile(b"q".to_vec())])
    );
    assert_eq!(walker.take_line(&sink, b"q".to_vec()), (Admission::Skipped, vec![]));
    assert_eq!(walker.command("ignore", "r"), Ok(vec![Action::Wake, Action::Send(Msg::Clear), Action::Wake]));
    assert_eq!(walker.command("match", "r"), Ok(vec![]));
    assert_eq!(walker.take_line(&sink, b"s".to_vec()), (Admission::Killed, vec![]));
    assert_eq!(
        walker.command("add", ">q"),
        Ok(vec![Action::StopMatchSink, Action::Send(Msg::Resync)])
    );
    assert_eq!(walker.command("add", "q"), Ok(vec![Action::Send(Msg::Resync)]));
    assert_eq!(walker.message("hi".to_string()), vec![Action::Send(Msg::Message("hi".to_string()))]);
    // a walk ends the matching of lines
    walker.command("match", "q").unwrap();
    assert_eq!(
        walker.walk("e/", Ok("e/".to_string())),
        vec![
            Action::Wake,
            Action::StopMatchSink,
            Action::Send(Msg::WalkStarted),
            Action::StartTraversal
        ]
    );
    assert_eq!(walker.path(), "e/");
    assert_eq!(
        walker.walk("f", Err(Error::CdInvalid)),
        vec![Action::Send(Msg::Message("walk f failed: CdInvalid".to_string()))]
    );
    assert_eq!(walker.path(), "e/");
}

#[test]
fn home_and_separators() {
    assert_eq!(home_path("~/src/x", Some("/home/me")), Ok(Some("/home/me/src/x/".to_string())));
    assert_eq!(home_path("~/", Some("/h")), Ok(Some("/h//".to_string())));
    assert_eq!(home_path("~/src", None), Err(Error::CdInvalid));
    assert_eq!(home_path("~", None), Ok(None));
    assert_eq!(home_path("~x/y", Some("/h")), Ok(None));
    assert_eq!(home_path("a/~/b", None), Ok(None));
    assert_eq!(home_path("", Some("/h")), Ok(None));
    assert_eq!(directory("test".to_string(), true), Ok("test".to_string()));
    assert_eq!(directory("test".to_string(), false), Err(Error::NotADirectory));
    assert_eq!(add_separator("test".to_string()), "test/");
    assert_eq!(add_separator("test/".to_string()), "test/");
    assert_eq!(add_separator(String::new()), "/");
    assert_eq!(add_separator("é".to_string()), "é/");
}

#[test]
fn errors_in_words() {
    assert_eq!(Error::InvalidCommand.describe(), "InvalidCommand");
    assert_eq!(Error::ProtocolError.describe(), "ProtocolError");
    assert_eq!(Error::Utf8Error.describe(), "Utf8Error");
    assert_eq!(Error::Eof.describe(), "Eof");
    assert_eq!(Error::InvalidArgument.describe(), "InvalidArgument");
    assert_eq!(Error::NotADirectory.describe(), "NotADirectory");
    assert_eq!(Error::CdInvalid.describe(), "CdInvalid");
    assert_eq!(Error::UnknownCommand("x y".to_string()).describe(), "UnknownCommand(x y)");
    let err = Error::from_io(std::io::Error::from(std::io::ErrorKind::NotFound));
    assert_eq!(err, Error::IoError(std::io::ErrorKind::NotFound));
    assert_eq!(err.describe(), "IoError(NotFound)");
    let err = Error::from_io(std::io::Error::new(std::io::ErrorKind::BrokenPipe, "gone"));
    assert_eq!(err, Error::IoError(std::io::ErrorKind::BrokenPipe));
    assert_eq!(err.clone().describe(), "IoError(BrokenPipe)");
}

#[test]
fn a_worker_that_cannot_send_quits() {
    assert_eq!(Visit::Continue.delivered(true), Visit::Continue);
    assert_eq!(Visit::Wait.delivered(true), Visit::Wait);
    assert_eq!(Visit::Continue.delivered(false), Visit::Quit);
    assert_eq!(Visit::Wait.delivered(false), Visit::Quit);
    assert_eq!(Visit::Quit.delivered(true), Visit::Quit);
}

#[test]
fn walker_version_counts_kills() {
    let mut version = WalkerVersion::default();
    assert!(!version.is_wrong());
    version.kill();
    assert!(version.is_wrong());
    version.kill();
    assert!(version.is_wrong());
    version.start();
    assert!(!version.is_wrong());
    let copy = version;
    version.kill();
    assert!(!copy.is_wrong());
    let mut seen = copy;
    seen.sync(&version);
    assert!(seen.is_wrong());
}
