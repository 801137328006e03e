use koru_find::server::number::parse_number;
use koru_find::server::walker::Error;
use koru_find::server::{chars_split_at_space, split_at_space, CommandReader};

fn read(cr: &mut CommandReader, data: &mut Vec<u8>) -> Result<(), Error> {
    if cr.next_frame() {
        return Ok(());
    }
    loop {
        let len = std::cmp::min(data.len(), cr.space());
        let chunk: Vec<u8> = data.drain(..len).collect();
        if cr.read(&chunk)? {
            return Ok(());
        }
    }
}

#[test]
fn command_reader() {
    let mut data: Vec<u8> = vec![];

    let mut cr = CommandReader::new();

    data.extend_from_slice(b"ignore >_test.rs\x00window_size 85\x00walk ~/src/koru-find\x00");

    read(&mut cr, &mut data).unwrap();
    let (c, a) = cr.get_cmd().unwrap();
    assert_eq!(c, "ignore");
    assert_eq!(a, ">_test.rs");

    read(&mut cr, &mut data).unwrap();
    let (c, a) = cr.get_cmd().unwrap();
    assert_eq!(c, "window_size");
    assert_eq!(a, "85");

    read(&mut cr, &mut data).unwrap();
    let (c, a) = cr.get_cmd().unwrap();
    assert_eq!(c, "walk");
    assert_eq!(a, "~/src/koru-find");

    assert!(matches!(read(&mut cr, &mut data), Err(Error::Eof)));
}

#[test]
fn reader_asks_before_a_frame_is_there() {
    let mut cr = CommandReader::new();
    assert_eq!(cr.get_cmd(), Err(Error::InvalidCommand));
    assert_eq!(cr.space(), 50);
    assert_eq!(cr.read(b"ad"), Ok(false));
    assert_eq!(cr.get_cmd(), Err(Error::InvalidCommand));
    assert_eq!(cr.read(b"d x\x00re"), Ok(true));
    assert_eq!(cr.get_cmd(), Ok(("add", "x")));
    assert_eq!(cr.get_cmd(), Ok(("add", "x")));
    assert!(!cr.next_frame());
    assert_eq!(cr.get_cmd(), Err(Error::InvalidCommand));
    assert_eq!(cr.read(b"draw\x00\x00stop"), Ok(true));
    assert_eq!(cr.get_cmd(), Ok(("redraw", "")));
    assert!(cr.next_frame());
    assert_eq!(cr.get_cmd(), Ok(("", "")));
    assert!(!cr.next_frame());
    assert_eq!(cr.read(b""), Err(Error::Eof));
    assert_eq!(cr.read(b"\x00"), Ok(true));
    assert_eq!(cr.get_cmd(), Ok(("stop", "")));
}

#[test]
fn reader_grows_for_long_frames() {
    let mut cr = CommandReader::new();
    let mut data: Vec<u8> = b"add ".to_vec();
    data.extend(std::iter::repeat(b'y').take(1000));
    data.push(0);
    data.extend_from_slice(b"rm 3\x00");
    let mut reads = 0;
    let mut ready = cr.next_frame();
    while !ready {
        let len = std::cmp::min(data.len(), cr.space());
        assert!(len > 0);
        let chunk: Vec<u8> = data.drain(..len).collect();
        ready = cr.read(&chunk).unwrap();
        reads += 1;
    }
    assert!(reads > 3);
    let (c, a) = cr.get_cmd().unwrap();
    assert_eq!(c, "add");
    assert_eq!(a.len(), 1000);
    assert!(a.bytes().all(|b| b == b'y'));
    read(&mut cr, &mut data).unwrap();
    assert_eq!(cr.get_cmd(), Ok(("rm", "3")));
}

#[test]
fn reader_refuses_what_is_not_utf8() {
    let mut cr = CommandReader::new();
    assert_eq!(cr.read(b"a\xffd x\x00add \xc3\x00add \xc3\xa9\x00"), Ok(true));
    assert_eq!(cr.get_cmd(), Err(Error::Utf8Error));
    assert!(cr.next_frame());
    assert_eq!(cr.get_cmd(), Err(Error::Utf8Error));
    assert!(cr.next_frame());
    assert_eq!(cr.get_cmd(), Ok(("add", "é")));
}

#[test]
fn frames_split_at_the_first_space() {
    assert_eq!(split_at_space(b"set 1 a b"), (&b"set"[..], &b"1 a b"[..]));
    assert_eq!(split_at_space(b"stop"), (&b"stop"[..], &b""[..]));
    assert_eq!(split_at_space(b"stop "), (&b"stop"[..], &b""[..]));
    assert_eq!(split_at_space(b" x"), (&b""[..], &b"x"[..]));
    assert_eq!(split_at_space(b""), (&b""[..], &b""[..]));
    assert_eq!(split_at_space(b"a  b"), (&b"a"[..], &b" b"[..]));
    assert_eq!(chars_split_at_space("12 é x"), ("12", "é x"));
    assert_eq!(chars_split_at_space("é"), ("é", ""));
    assert_eq!(chars_split_at_space("é "), ("é", ""));
    assert_eq!(chars_split_at_space(""), ("", ""));
    assert_eq!(chars_split_at_space(" "), ("", ""));
}

#[test]
fn numbers() {
    assert_eq!(parse_number("0"), Some(0));
    assert_eq!(parse_number("85"), Some(85));
    assert_eq!(parse_number("+85"), Some(85));
    assert_eq!(parse_number("007"), Some(7));
    assert_eq!(parse_number(""), None);
    assert_eq!(parse_number("+"), None);
    assert_eq!(parse_number("-1"), None);
    assert_eq!(parse_number("1 "), None);
    assert_eq!(parse_number(" 1"), None);
    assert_eq!(parse_number("1x"), None);
    assert_eq!(parse_number("++1"), None);
    assert_eq!(parse_number("٣"), None);
    assert_eq!(parse_number(&usize::MAX.to_string()), Some(usize::MAX));
    assert_eq!(parse_number(&format!("{}0", usize::MAX)), None);
    assert_eq!(parse_number("99999999999999999999999999"), None);
    for text in ["0", "85", "+85", "007", "", "+", "-1", "1x", "18446744073709551616"] {
        assert_eq!(parse_number(text), text.parse::<usize>().ok());
    }
}

#[test]
fn reader_doubles_when_full() {
    let mut cr = CommandReader::new();
    assert_eq!(cr.space(), 50);
    assert_eq!(cr.read(&[b'a'; 49]), Ok(false));
    assert_eq!(cr.space(), 1);
    assert_eq!(cr.read(b"b"), Ok(false));
    assert_eq!(cr.space(), 50);
    assert_eq!(cr.read(&[b'c'; 50]), Ok(false));
    assert_eq!(cr.space(), 100);
    assert_eq!(cr.read(b"\x00x"), Ok(true));
    assert_eq!(cr.space(), 98);
    assert_eq!(cr.get_cmd().unwrap().0.len(), 100);
    assert!(!cr.next_frame());
    assert_eq!(cr.space(), 199);
    assert_eq!(cr.read(b"\x00"), Ok(true));
    assert_eq!(cr.get_cmd(), Ok(("x", "")));
    assert_eq!(cr.space(), 198);
}
