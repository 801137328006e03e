use koru_find::server::order::{compare, Side};
use koru_find::server::walker::{Msg, WalkerVersion};
use koru_find::server::window::{Admission, Window};

fn content_to_string(messages: &[Msg]) -> String {
    let r: Vec<String> = messages
        .iter()
        .filter_map(|m| match m {
            Msg::AddFile(bytes) => Some(String::from_utf8_lossy(bytes).to_string()),
            _ => None,
        })
        .collect();
    r.join(" ")
}

fn content(w: &mut Window) -> String {
    let waiting = w.take_messages();
    w.redraw();
    let drawn = w.take_messages();
    assert_eq!(drawn[0], Msg::Clear);
    let text = content_to_string(&drawn[1..]);
    assert_eq!(drawn.len(), 1 + text.split(' ').filter(|s| !s.is_empty()).count());
    assert!(waiting.is_empty());
    text
}

fn frames(messages: Vec<Msg>) -> String {
    messages
        .iter()
        .map(|m| match m {
            Msg::AddFile(bytes) => ("+", bytes),
            Msg::RmFile(bytes) => ("-", bytes),
            o => panic!("Unexpected {o:?}"),
        })
        .map(|(t, b)| format!("{t}{}", std::str::from_utf8(b.as_ref()).unwrap()))
        .collect::<Vec<_>>()
        .join(" ")
}

#[test]
fn window_test_remove_unmatched() {
    let mut sent: Vec<Msg> = Vec::new();
    {
        let mut w = Window::new(3);
        w.pattern_mut().add("o");

        let wv = WalkerVersion::default();
        let mut add = |t: &str, n| {
            let admission = w.add(t.as_bytes().to_vec(), n, &wv);
            assert!(matches!(admission, Admission::Inserted | Admission::Skipped));
            sent.extend(w.take_messages());
        };

        add("world", 1);
        add("hello", 1);
        add("brave", 0);
        add("odd", 1);

        w.pattern_mut().add("l");

        w.remove_unmatched();
        sent.extend(w.take_messages());

        assert_eq!(content(&mut w), "world");
    }

    assert_eq!(frames(sent), "+world +hello +odd -hello -odd")
}

#[test]
fn window_test_window_size() {
    let mut w = Window::new(3);
    w.pattern_mut().add("o");
    assert_eq!(w.size(), 3);

    let wv = WalkerVersion::default();

    assert_eq!(w.add(b"world".to_vec(), 1, &wv), Admission::Inserted);
    assert_eq!(w.add(b"hello".to_vec(), 1, &wv), Admission::Inserted);
    assert_eq!(w.add(b"brave".to_vec(), 0, &wv), Admission::Skipped);
    w.take_messages();

    assert_eq!(content(&mut w), "hello world");

    assert_eq!(w.add(b"zoo".to_vec(), 1, &wv), Admission::Inserted);

    // A second producer: it waits while the window is full, and goes on each
    // time it is woken.
    let mut pending: Vec<(&str, usize)> = vec![("3o", 1), ("2o", 1), ("1", 0), ("1o", 1)];
    let produce = |w: &mut Window, pending: &mut Vec<(&str, usize)>| {
        while let Some((text, version)) = pending.last().copied() {
            match w.add(text.as_bytes().to_vec(), version, &wv) {
                Admission::Blocked => return,
                Admission::Killed => panic!("not killed"),
                _ => {
                    pending.pop();
                }
            }
        }
    };

    produce(&mut w, &mut pending);
    assert_eq!(pending.len(), 4);
    w.take_messages();
    assert_eq!(content(&mut w).split(' ').count(), 3);

    assert!(w.remove(b"hello", 1));
    produce(&mut w, &mut pending);

    assert_eq!(pending.len(), 3);
    w.take_messages();
    assert_eq!(content(&mut w).split(' ').count(), 3);

    assert!(w.remove(b"world", 1));
    produce(&mut w, &mut pending);
    assert!(w.remove(b"1o", 1));
    produce(&mut w, &mut pending);

    assert!(pending.is_empty());

    assert!(w.set_size(4));

    assert_eq!(w.add(b"arrow".to_vec(), 1, &wv), Admission::Inserted);
    w.take_messages();

    assert_eq!(content(&mut w), "2o 3o arrow zoo");

    assert!(!w.set_size(2));

    assert!(!w.remove(b"2o", 0)); // wrong version retested
    assert_eq!(content(&mut w), "2o 3o");
}

#[test]
fn window_never_holds_more_than_its_size() {
    let wv = WalkerVersion::default();
    let mut w = Window::new(2);
    let names: [&[u8]; 5] = [b"d", b"b", b"e", b"a", b"c"];
    let mut held = 0;
    for name in names {
        match w.add(name.to_vec(), 0, &wv) {
            Admission::Inserted => held += 1,
            Admission::Blocked => assert_eq!(held, 2),
            other => panic!("{other:?}"),
        }
        assert!(held <= w.size());
    }
    assert_eq!(content_to_string(&w.take_messages()), "d b");
    assert_eq!(content(&mut w), "b d");

    let mut none = Window::new(0);
    assert_eq!(none.add(b"a".to_vec(), 0, &wv), Admission::Blocked);
    assert_eq!(content(&mut none), "");
}

#[test]
fn shrinking_evicts_the_largest_and_tells_nobody() {
    let wv = WalkerVersion::default();
    let mut w = Window::new(5);
    for name in ["m", "a", "zz", "z", "b"] {
        assert_eq!(w.add(name.as_bytes().to_vec(), 0, &wv), Admission::Inserted);
    }
    w.take_messages();
    assert_eq!(content(&mut w), "a b m z zz");
    assert!(!w.set_size(3));
    assert!(w.take_messages().is_empty());
    assert_eq!(w.size(), 3);
    assert_eq!(content(&mut w), "a b m");
    assert!(!w.set_size(3));
    assert_eq!(content(&mut w), "a b m");
    assert!(!w.set_size(0));
    assert_eq!(content(&mut w), "");
    assert!(w.set_size(1));
}

#[test]
fn stale_version_is_tested_again() {
    let wv = WalkerVersion::default();
    let mut w = Window::new(5);
    w.pattern_mut().add("a");
    let seen = w.pattern().version();
    w.pattern_mut().add("b");
    assert!(w.pattern().version() > seen);

    assert_eq!(w.add(b"a".to_vec(), seen, &wv), Admission::Skipped);
    assert_eq!(w.add(b"ab".to_vec(), seen, &wv), Admission::Inserted);
    // an entry that comes with the current version is taken on trust
    let now = w.pattern().version();
    assert_eq!(w.add(b"zzz".to_vec(), now, &wv), Admission::Inserted);
    assert_eq!(w.add(b"zzz".to_vec(), now, &wv), Admission::Skipped);
    assert_eq!(frames(w.take_messages()), "+ab +zzz");

    // remove: the version is stale and the entry still matches, so it stays
    assert!(!w.remove(b"ab", seen));
    // the version is current: the caller is believed
    assert!(w.remove(b"ab", now));
    assert!(!w.remove(b"ab", now));
    // stale version, and the entry does not match: it goes
    assert!(w.remove(b"zzz", seen));
    assert!(w.take_messages().is_empty());
    assert_eq!(content(&mut w), "");
}

#[test]
fn a_killed_producer_is_turned_away_first() {
    let mut wv = WalkerVersion::default();
    let mut w = Window::new(0);
    assert!(!wv.is_wrong());
    assert_eq!(w.add(b"a".to_vec(), 0, &wv), Admission::Blocked);
    wv.kill();
    assert!(wv.is_wrong());
    assert_eq!(w.add(b"a".to_vec(), 0, &wv), Admission::Killed);
    wv.start();
    assert!(!wv.is_wrong());
    assert_eq!(w.add(b"a".to_vec(), 0, &wv), Admission::Blocked);
    let mut other = WalkerVersion::default();
    other.sync(&wv);
    assert!(other.is_wrong());
    other.start();
    assert!(!other.is_wrong());
}

#[test]
fn a_producer_that_cannot_send_counts_as_killed() {
    assert_eq!(Admission::Inserted.delivered(true), Admission::Inserted);
    assert_eq!(Admission::Inserted.delivered(false), Admission::Killed);
    assert_eq!(Admission::Skipped.delivered(false), Admission::Skipped);
    assert_eq!(Admission::Blocked.delivered(false), Admission::Blocked);
    assert_eq!(Admission::Killed.delivered(true), Admission::Killed);
}

#[test]
fn clear_and_the_plain_messages() {
    let wv = WalkerVersion::default();
    let mut w = Window::new(2);
    w.add(b"x".to_vec(), 0, &wv);
    w.started();
    w.done();
    w.message("hi".to_string());
    w.request_resync();
    w.clear();
    assert_eq!(
        w.take_messages(),
        vec![
            Msg::AddFile(b"x".to_vec()),
            Msg::WalkStarted,
            Msg::WalkDone,
            Msg::Message("hi".to_string()),
            Msg::Resync,
            Msg::Clear
        ]
    );
    assert!(w.take_messages().is_empty());
    assert_eq!(content(&mut w), "");
}

#[test]
fn paths_are_ordered_byte_by_byte() {
    assert_eq!(compare(b"", b""), Side::Same);
    assert_eq!(compare(b"", b"a"), Side::Before);
    assert_eq!(compare(b"a", b""), Side::After);
    assert_eq!(compare(b"a", b"ab"), Side::Before);
    assert_eq!(compare(b"ab", b"b"), Side::Before);
    assert_eq!(compare(b"b", b"ab"), Side::After);
    assert_eq!(compare(b"a\xff", b"b"), Side::Before);
    assert_eq!(compare(b"Z", b"a"), Side::Before);
    assert_eq!(compare(b"abc", b"abc"), Side::Same);
    let wv = WalkerVersion::default();
    let mut w = Window::new(9);
    for name in [&b"b"[..], b"a\xff", b"", b"ab", b"a", b"Z"] {
        w.add(name.to_vec(), 0, &wv);
    }
    w.take_messages();
    w.redraw();
    let drawn = w.take_messages();
    let expected: Vec<Msg> = [&b""[..], b"Z", b"a", b"ab", b"a\xff", b"b"]
        .iter()
        .map(|name| Msg::AddFile(name.to_vec()))
        .collect();
    assert_eq!(drawn[1..], expected[..]);
}

#[test]
fn frames_of_messages() {
    let frame = |msg: Msg| {
        let mut out = b"x".to_vec();
        msg.write(&mut out);
        out
    };
    assert_eq!(frame(Msg::Clear), b"xclear\x00");
    assert_eq!(frame(Msg::WalkDone), b"xdone\x00");
    assert_eq!(frame(Msg::WalkStarted), b"xstarted\x00");
    assert_eq!(frame(Msg::Resync), b"xresync\x00");
    assert_eq!(frame(Msg::Message("a b".to_string())), b"xmessage a b\x00");
    assert_eq!(frame(Msg::Message(String::new())), b"xmessage \x00");
    assert_eq!(frame(Msg::AddFile(b"a/\xff".to_vec())), b"x+a/\xff\x00");
    assert_eq!(frame(Msg::RmFile(b"a/1".to_vec())), b"x-a/1\x00");
    assert_eq!(frame(Msg::RmFile(Vec::new())), b"x-\x00");
}
