//! The server side: the command reader, the walker that obeys the commands,
//! and the window of accepted paths it fills.

pub mod laws;
pub mod number;
pub mod order;
pub mod walker;
pub mod window;

use crate::pattern::text::utf8_text;
use crate::server::walker::Error;
use vstd::prelude::*;
use vstd::slice::slice_subrange;
use vstd::string::StringSliceAdditionalSpecFns;
use vstd::utf8::{is_char_boundary, valid_utf8};

verus! {

/// The byte that ends a frame.
pub const FRAME_END: u8 = 0;

/// The byte between a command and its argument.
pub const SPACE: u8 = 0x20;

/// How many bytes a new reader has room for.
pub const FIRST_ROOM: usize = 50;

/// The place of the first `byte` in `data`, or the length of `data` if there
/// is none.
pub open spec fn position(data: Seq<u8>, byte: u8) -> int
    decreases data.len(),
{
    if data.len() == 0 || data[0] == byte {
        0
    } else {
        1 + position(data.drop_first(), byte)
    }
}

/// `position` is the one place before which `byte` does not occur and at
/// which it does, or the data ends.
pub proof fn lemma_position(data: Seq<u8>, byte: u8, at: int)
    requires
        0 <= at <= data.len(),
        forall|k: int| 0 <= k < at ==> data[k] != byte,
        at == data.len() || data[at] == byte,
    ensures
        position(data, byte) == at,
    decreases data.len(),
{
    if at > 0 {
        let rest = data.drop_first();
        assert forall|k: int| 0 <= k < at - 1 implies rest[k] != byte by {
            assert(rest[k] == data[k + 1]);
        }
        lemma_position(rest, byte, at - 1);
    }
}

/// The place of the first `byte` in `data`.
fn find_byte(data: &[u8], byte: u8) -> (at: usize)
    ensures
        at == position(data@, byte),
        at <= data@.len(),
        at < data@.len() ==> data@[at as int] == byte,
        forall|k: int| 0 <= k < at ==> data@[k] != byte,
{
    let mut i: usize = 0;
    while i < data.len()
        invariant
            i <= data.len(),
            forall|k: int| 0 <= k < i ==> data@[k] != byte,
        decreases data.len() - i,
    {
        if data[i] == byte {
            proof {
                lemma_position(data@, byte, i as int);
            }
            return i;
        }
        i += 1;
    }
    proof {
        lemma_position(data@, byte, i as int);
    }
    i
}

/// The two parts of a frame: what stands before its first space, and what
/// stands behind that space. Without a space the frame is all first part.
pub open spec fn split_spec(data: Seq<u8>) -> (Seq<u8>, Seq<u8>) {
    let at = position(data, SPACE);
    (
        data.take(at),
        if at < data.len() {
            data.skip(at + 1)
        } else {
            Seq::empty()
        },
    )
}

/// Splits a frame at its first space.
pub fn split_at_space(data: &[u8]) -> (parts: (&[u8], &[u8]))
    ensures
        (parts.0@, parts.1@) == split_spec(data@),
{
    let n: usize = data.len();
    let at = find_byte(data, SPACE);
    let head = slice_subrange(data, 0, at);
    let tail = if at < n {
        slice_subrange(data, at + 1, n)
    } else {
        slice_subrange(data, n, n)
    };
    proof {
        assert(tail@ =~= split_spec(data@).1);
    }
    (head, tail)
}

/// Splits a text at its first space, as [`split_at_space`] splits bytes.
pub fn chars_split_at_space(data: &str) -> (parts: (&str, &str))
    ensures
        (parts.0.spec_bytes(), parts.1.spec_bytes()) == split_spec(data.spec_bytes()),
{
    broadcast use
        vstd::utf8::encode_utf8_valid_utf8,
        vstd::utf8::is_char_boundary_start_end_of_seq,
        vstd::utf8::valid_utf8_split,
    ;

    let bytes = data.as_bytes();
    let at = find_byte(bytes, SPACE);
    if at < bytes.len() {
        proof {
            vstd::utf8::is_char_boundary_iff_not_is_continuation_byte(bytes@, at as int);
            assert(!vstd::utf8::is_continuation_byte(SPACE)) by (bit_vector);
        }
        let halves = data.split_at(at);
        proof {
            let rest = halves.1.spec_bytes();
            assert(rest[0] == SPACE);
            assert(vstd::utf8::is_leading_byte_width_1(SPACE)) by (bit_vector);
            assert(vstd::utf8::length_of_first_scalar(rest) == 1);
            reveal_with_fuel(vstd::utf8::is_char_boundary, 2);
            assert(is_char_boundary(rest, 1));
        }
        let tail = halves.1.split_at(1).1;
        proof {
            assert(tail.spec_bytes() =~= split_spec(data.spec_bytes()).1);
        }
        (halves.0, tail)
    } else {
        let halves = data.split_at(at);
        proof {
            assert(halves.1.spec_bytes() =~= Seq::<u8>::empty());
        }
        halves
    }
}

/// What a command reader holds of its input.
#[verifier::ext_equal]
pub struct ReaderView {
    /// The frame that was read last and can be asked for, without its zero
    /// byte.
    pub frame: Option<Seq<u8>>,
    /// The bytes that came in behind that frame.
    pub pending: Seq<u8>,
}

impl ReaderView {
    /// How many bytes the reader holds: the frame that was read last with
    /// the byte that ends it, and what is pending.
    pub open spec fn held(self) -> nat {
        match self.frame {
            Some(frame) => frame.len() + 1 + self.pending.len(),
            None => self.pending.len(),
        }
    }

    /// What a reader holds once it has looked for a frame in `stream`: the
    /// bytes before the first zero byte are the frame, the bytes behind it
    /// are kept. Without a zero byte there is no frame yet.
    pub open spec fn scan(stream: Seq<u8>) -> ReaderView {
        let at = position(stream, FRAME_END);
        if at < stream.len() {
            ReaderView { frame: Some(stream.take(at)), pending: stream.skip(at + 1) }
        } else {
            ReaderView { frame: None, pending: stream }
        }
    }
}

/// Cuts the input into frames. The reader does not read by itself: whoever
/// owns the input asks for the next frame with `next_frame` and, as long as
/// there is none, hands what the input gives to `read`.
pub struct CommandReader {
    buf: Vec<u8>,
    startp: usize,
    endp: usize,
}

impl View for CommandReader {
    type V = ReaderView;

    closed spec fn view(&self) -> ReaderView {
        ReaderView {
            frame: if self.startp > 0 {
                Some(self.buf@.take(self.startp - 1))
            } else {
                None
            },
            pending: self.buf@.subrange(self.startp as int, self.endp as int),
        }
    }
}

impl CommandReader {
    /// The invariant of a reader: the buffer always has room for more.
    pub closed spec fn wf(&self) -> bool {
        self.startp <= self.endp < self.buf.len()
    }

    /// The size of the buffer. It begins small and doubles whenever the
    /// buffer is full.
    pub closed spec fn capacity(&self) -> nat {
        self.buf.len() as nat
    }

    /// The size of the buffer once `more` bytes were taken in behind what is
    /// pending: twice the size if they fill the buffer, the same size if not.
    pub open spec fn capacity_after(&self, more: nat) -> nat {
        if self@.pending.len() + more == self.capacity() {
            2 * self.capacity()
        } else {
            self.capacity()
        }
    }

    /// Whether the buffer has reached the size beyond which it cannot double.
    pub open spec fn full(&self) -> bool {
        self.capacity() > usize::MAX / 2
    }

    /// How many bytes `read` takes at most in one call: what the buffer has
    /// room for.
    pub open spec fn room(&self) -> nat {
        (self.capacity() - self@.held()) as nat
    }

    /// A reader that holds nothing.
    pub fn new() -> (reader: CommandReader)
        ensures
            reader.wf(),
            reader@ == (ReaderView { frame: None, pending: Seq::empty() }),
            reader.capacity() == FIRST_ROOM,
    {
        let mut buf: Vec<u8> = Vec::new();
        buf.resize(FIRST_ROOM, 0u8);
        let reader = CommandReader { buf, startp: 0, endp: 0 };
        assert(reader@.pending =~= Seq::<u8>::empty());
        reader
    }

    /// How many bytes `read` takes at most in one call: never none.
    pub fn space(&self) -> (room: usize)
        requires
            self.wf(),
        ensures
            room == self.room(),
            room > 0,
    {
        self.buf.len() - self.endp
    }

    /// Drops the frame that was read last and moves what is pending to the
    /// front of the buffer.
    fn compact(&mut self)
        requires
            old(self).wf(),
        ensures
            final(self).wf(),
            final(self).startp == 0,
            final(self)@ == (ReaderView { frame: None, pending: old(self)@.pending }),
            final(self).buf.len() == old(self).buf.len(),
    {
        let shift: usize = self.startp;
        let n: usize = self.endp - self.startp;
        if shift > 0 {
            let mut k: usize = 0;
            while k < n
                invariant
                    k <= n,
                    shift > 0,
                    shift + n == self.endp,
                    self.endp == old(self).endp,
                    self.startp == old(self).startp,
                    self.endp < self.buf.len(),
                    self.buf.len() == old(self).buf.len(),
                    forall|j: int| 0 <= j < k ==> self.buf@[j] == old(self).buf@[shift + j],
                    forall|j: int| k <= j < self.buf.len() ==> self.buf@[j] == old(self).buf@[j],
                decreases n - k,
            {
                let byte = self.buf[shift + k];
                self.buf[k] = byte;
                k += 1;
            }
        }
        self.endp = n;
        self.startp = 0;
        assert(self@.pending =~= old(self)@.pending);
    }

    /// Looks for a frame in what is pending.
    fn scan(&mut self) -> (ready: bool)
        requires
            old(self).wf(),
            old(self).startp == 0,
        ensures
            final(self).wf(),
            final(self)@ == ReaderView::scan(old(self)@.pending),
            ready == final(self)@.frame is Some,
            final(self).buf.len() == old(self).buf.len(),
            final(self).endp == old(self).endp,
    {
        let at = find_byte(slice_subrange(self.buf.as_slice(), 0, self.endp), FRAME_END);
        if at < self.endp {
            self.startp = at + 1;
            proof {
                let stream = old(self)@.pending;
                assert(self@.frame->0 =~= stream.take(at as int));
                assert(self@.pending =~= stream.skip(at + 1));
            }
            true
        } else {
            false
        }
    }

    /// Drops the frame that was read last and looks for the next one in what
    /// is pending. The result says whether there is one.
    pub fn next_frame(&mut self) -> (ready: bool)
        requires
            old(self).wf(),
        ensures
            final(self).wf(),
            final(self)@ == ReaderView::scan(old(self)@.pending),
            ready == final(self)@.frame is Some,
            final(self).capacity() == old(self).capacity(),
    {
        self.compact();
        self.scan()
    }

    /// Takes in what the input gave, drops the frame that was read last, and
    /// looks for a frame. No bytes mean that the input has ended. The result
    /// says whether there is a frame; if not, more must be read.
    pub fn read(&mut self, data: &[u8]) -> (ready: Result<bool, Error>)
        requires
            old(self).wf(),
            data@.len() <= old(self).room(),
        ensures
            final(self).wf(),
            ready is Ok <==> data@.len() > 0 && !old(self).full(),
            match ready {
                Ok(found) => {
                    &&& final(self)@ == ReaderView::scan(old(self)@.pending + data@)
                    &&& found == final(self)@.frame is Some
                    &&& final(self).capacity() == old(self).capacity_after(data@.len())
                },
                Err(err) => {
                    &&& final(self)@ == old(self)@
                    &&& final(self).capacity() == old(self).capacity()
                    &&& err is Eof <==> data@.len() == 0
                    &&& err is ProtocolError <==> data@.len() != 0
                },
            },
    {
        if data.len() == 0 {
            return Err(Error::Eof);
        }
        let len: usize = self.buf.len();
        if len > usize::MAX / 2 {
            return Err(Error::ProtocolError);
        }
        self.compact();
        let ghost kept = self@.pending;
        let mut k: usize = 0;
        while k < data.len()
            invariant
                k <= data.len(),
                self.startp == 0,
                self.endp + (data.len() - k) <= self.buf.len(),
                self.buf.len() == len,
                self.endp == kept.len() + k,
                self.buf@.subrange(0, self.endp as int) == kept + data@.take(k as int),
            decreases data.len() - k,
        {
            let at: usize = self.endp;
            let ghost before = self.buf@;
            self.buf[at] = data[k];
            self.endp = at + 1;
            proof {
                assert(data@.take(k + 1) =~= data@.take(k as int).push(data@[k as int]));
                assert(self.buf@.subrange(0, at as int) =~= before.subrange(0, at as int));
                assert(self.buf@.subrange(0, self.endp as int) =~= before.subrange(
                    0,
                    at as int,
                ).push(data@[k as int]));
                assert(self.buf@.subrange(0, self.endp as int) =~= kept + data@.take(k + 1));
            }
            k += 1;
        }
        proof {
            assert(data@.take(data.len() as int) =~= data@);
        }
        if self.endp == len {
            let ghost before = self.buf@;
            self.buf.resize(len + len, 0u8);
            assert(self.buf@.subrange(0, self.endp as int) =~= before.subrange(
                0,
                self.endp as int,
            ));
        }
        Ok(self.scan())
    }

    /// The command of the frame that was read last, and its argument: what
    /// stands before the first space, and what stands behind it.
    pub fn get_cmd(&self) -> (cmd: Result<(&str, &str), Error>)
        requires
            self.wf(),
        ensures
            match self@.frame {
                None => cmd matches Err(Error::InvalidCommand),
                Some(frame) => {
                    let parts = split_spec(frame);
                    if valid_utf8(parts.0) && valid_utf8(parts.1) {
                        cmd matches Ok(read) && read.0.spec_bytes() == parts.0
                            && read.1.spec_bytes() == parts.1
                    } else {
                        cmd matches Err(Error::Utf8Error)
                    }
                },
            },
    {
        if self.startp == 0 {
            return Err(Error::InvalidCommand);
        }
        let frame = slice_subrange(self.buf.as_slice(), 0, self.startp - 1);
        let parts = split_at_space(frame);
        let name = match utf8_text(parts.0) {
            Some(text) => text,
            None => {
                return Err(Error::Utf8Error);
            },
        };
        let arg = match utf8_text(parts.1) {
            Some(text) => text,
            None => {
                return Err(Error::Utf8Error);
            },
        };
        Ok((name, arg))
    }
}

} // verus!
