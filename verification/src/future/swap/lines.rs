//! Reading up to a byte, and line by line.

use vstd::prelude::*;
use vstd::string::StrSliceExecFns;
use crate::future::future::continues;
use crate::future::swap::buffer_reader::BufferReader;
use crate::future::swap::cursor::{AsBytes, Cursor};
use crate::future::swap::plain::Repeat;
use crate::future::swap::traits::{shown, AsyncBufRead, AsyncRead, Io};
use crate::future::swap::write::tells_given;
use crate::io::error::{Error, ErrorKind};
use crate::task::{Context, Poll};

verus! {

/// `memchr::memchr` gives the place of the first byte that is `needle`, and nothing if there is
/// none.
pub assume_specification[ memchr::memchr ](needle: u8, haystack: &[u8]) -> (r: Option<usize>)
    ensures
        match r {
            Some(i) => {
                &&& i < haystack@.len()
                &&& haystack@[i as int] == needle
                &&& forall|j: int| 0 <= j < i ==> haystack@[j] != needle
            },
            None => forall|j: int| 0 <= j < haystack@.len() ==> haystack@[j] != needle,
        },
;

/// Calls `String::from_utf8`, which makes a string of the bytes exactly if they are valid UTF-8.
#[verifier::external_body]
pub(crate) fn string_from_utf8(bytes: Vec<u8>) -> (r: Option<String>)
    ensures
        match r {
            Some(s) => vstd::utf8::valid_utf8(bytes@) && s@ == vstd::utf8::decode_utf8(bytes@),
            None => !vstd::utf8::valid_utf8(bytes@),
        },
{
    String::from_utf8(bytes).ok()
}

/// Where the first byte is that equals `byte`.
pub open spec fn first(byte: u8, bytes: Seq<u8>) -> Option<nat>
    decreases bytes.len(),
{
    if bytes.len() == 0 {
        None
    } else if bytes[0] == byte {
        Some(0)
    } else {
        match first(byte, bytes.skip(1)) {
            Some(i) => Some(i + 1),
            None => None,
        }
    }
}

proof fn lemma_first(byte: u8, bytes: Seq<u8>, at: Option<usize>)
    requires
        match at {
            Some(i) => {
                &&& i < bytes.len()
                &&& bytes[i as int] == byte
                &&& forall|j: int| 0 <= j < i ==> bytes[j] != byte
            },
            None => forall|j: int| 0 <= j < bytes.len() ==> bytes[j] != byte,
        },
    ensures
        first(byte, bytes) == (match at {
            Some(i) => Some(i as nat),
            None => None::<nat>,
        }),
    decreases bytes.len(),
{
    if bytes.len() > 0 && bytes[0] != byte {
        let rest = bytes.skip(1);
        assert forall|j: int| 0 <= j < rest.len() implies rest[j] == bytes[j + 1] by {}
        lemma_first(
            byte,
            rest,
            match at {
                Some(i) => Some((i - 1) as usize),
                None => None,
            },
        );
    }
}

/// The buffer showed the bytes `got`, which are some and do not hold `byte`, and all of them
/// were consumed.
pub open spec fn passed<R: AsyncBufRead>(
    byte: u8,
    from: R,
    cx: Context,
    to: R,
    after: Context,
    got: Seq<u8>,
) -> bool {
    &&& got.len() > 0
    &&& first(byte, got) is None
    &&& exists|mid: R|
        {
            &&& #[trigger] from.fills(cx, Poll::Ready(Ok(got)), mid, after)
            &&& mid.consumes(got.len(), to)
        }
}

/// The bytes `got` came with `n` buffers that do not hold `byte`.
pub open spec fn passing<R: AsyncBufRead>(
    byte: u8,
    from: R,
    cx: Context,
    n: nat,
    to: R,
    after: Context,
    got: Seq<u8>,
) -> bool
    decreases n,
{
    if n == 0 {
        to == from && after == cx && got == Seq::<u8>::empty()
    } else {
        exists|mid: R, between: Context, last: Seq<u8>|
            {
                let before = got.len() - last.len();
                &&& 0 <= before
                &&& passing(byte, from, cx, (n - 1) as nat, mid, between, got.take(before))
                &&& #[trigger] passed(byte, mid, between, to, after, last)
                &&& got.skip(before) == last
            }
    }
}

/// No more than `limit` buffers without `byte` come in a row.
pub open spec fn comes_within<R: AsyncBufRead>(
    byte: u8,
    reader: R,
    cx: Context,
    limit: nat,
) -> bool {
    forall|n: nat, to: R, after: Context, got: Seq<u8>| #[trigger]
        passing(byte, reader, cx, n, to, after, got) ==> n <= limit
}

/// Reading up to `byte` comes to an end or to a pause: bytes do not come for ever, or they do and
/// the byte comes among them.
pub open spec fn comes<R: AsyncBufRead>(byte: u8, reader: R, cx: Context) -> bool {
    ||| !reader.endless()
    ||| exists|limit: nat| #[trigger] comes_within(byte, reader, cx, limit)
}

/// What reading up to a byte starts with and what it leaves behind.
pub ghost struct Until<R> {
    pub reader: R,
    pub cx: Context,
    pub buf: Seq<u8>,
    /// How many bytes were read since it was begun.
    pub read: nat,
}

/// After `n` buffers without `byte`, when `got` was read, the buffer of `mid` shows `seen`, and
/// that ends it for now.
pub open spec fn stopped<R: AsyncBufRead>(
    byte: u8,
    from: Until<R>,
    n: nat,
    mid: R,
    between: Context,
    got: Seq<u8>,
    seen: Poll<Result<Seq<u8>, Error>>,
    full: R,
    r: Poll<Result<usize, Error>>,
    to: Until<R>,
) -> bool {
    &&& passing(byte, from.reader, from.cx, n, mid, between, got)
    &&& mid.fills(between, seen, full, to.cx)
    &&& match seen {
        Poll::Pending => {
            &&& r is Pending
            &&& to.reader == full
            &&& to.buf == from.buf + got
            &&& to.read == from.read + got.len()
        },
        Poll::Ready(Err(e)) => {
            &&& r == Poll::Ready(Err::<usize, Error>(e))
            &&& to.reader == full
            &&& to.buf == from.buf + got
            &&& to.read == from.read + got.len()
        },
        Poll::Ready(Ok(bytes)) => {
            let used = match first(byte, bytes) {
                Some(i) => i + 1,
                None => 0,
            };
            // The byte is there, or there is nothing more.
            &&& used > 0 || bytes.len() == 0
            &&& r == Poll::Ready(Ok::<usize, Error>((from.read + got.len() + used) as usize))
            &&& full.consumes(used, to.reader)
            &&& to.buf == from.buf + got + bytes.take(used as int)
            &&& to.read == 0
        },
    }
}

/// Reading up to `byte` can give `r` and lead from `from` to `to`.
pub open spec fn reads_until<R: AsyncBufRead>(
    byte: u8,
    from: Until<R>,
    r: Poll<Result<usize, Error>>,
    to: Until<R>,
) -> bool {
    exists|
        n: nat,
        mid: R,
        between: Context,
        got: Seq<u8>,
        seen: Poll<Result<Seq<u8>, Error>>,
        full: R,
    | #[trigger]
        stopped(byte, from, n, mid, between, got, seen, full, r, to)
}

/// Reads up to `byte` or to the end and appends what was read to `buf`. `read` is how many bytes
/// were read since it was begun.
fn read_until_internal<R: AsyncBufRead>(
    reader: &mut R,
    cx: &mut Context,
    byte: u8,
    buf: &mut Vec<u8>,
    read: &mut usize,
) -> (r: Poll<Result<usize, Error>>)
    requires
        old(reader).wf(),
        comes(byte, *old(reader), *old(cx)),
        *old(read) <= old(buf)@.len(),
    ensures
        final(reader).wf(),
        final(reader).endless() == old(reader).endless(),
        *final(read) <= final(buf)@.len(),
        continues(*old(cx), *final(cx)),
        reads_until(
            byte,
            (Until {
                reader: *old(reader),
                cx: *old(cx),
                buf: old(buf)@,
                read: *old(read) as nat,
            }),
            r,
            (Until {
                reader: *final(reader),
                cx: *final(cx),
                buf: final(buf)@,
                read: *final(read) as nat,
            }),
        ),
        r matches Poll::Ready(Ok(n)) ==> n <= final(buf)@.len(),
{
    let ghost from = Until {
        reader: *reader,
        cx: *cx,
        buf: buf@,
        read: *read as nat,
    };
    let ghost mut n: nat = 0;
    let ghost mut got: Seq<u8> = Seq::empty();
    let ghost limit = choose|limit: nat| #[trigger] comes_within(byte, *reader, *cx, limit);
    assert(buf@ =~= from.buf + got);
    loop
        invariant
            reader.wf(),
            reader.endless() == from.reader.endless(),
            from.reader.endless() ==> comes_within(byte, from.reader, from.cx, limit),
            continues(from.cx, *cx),
            passing(byte, from.reader, from.cx, n, *reader, *cx, got),
            buf@ == from.buf + got,
            *read == from.read + got.len(),
            *read <= buf@.len(),
            from == (Until {
                reader: *old(reader),
                cx: *old(cx),
                buf: old(buf)@,
                read: *old(read) as nat,
            }),
        decreases
                (if reader.endless() {
                    (limit - n) as nat
                } else {
                    reader.pace()
                }),
    {
        let ghost mid = *reader;
        let ghost between = *cx;
        let ghost mut bytes: Seq<u8> = Seq::empty();
        let (done, used): (bool, usize) = match reader.poll_fill_buf(cx) {
            Poll::Pending => {
                assert(stopped(
                    byte,
                    from,
                    n,
                    mid,
                    between,
                    got,
                    Poll::Pending,
                    *reader,
                    Poll::Pending,
                    Until { reader: *reader, cx: *cx, buf: buf@, read: *read as nat },
                ));
                return Poll::Pending;
            },
            Poll::Ready(Err(e)) => {
                let r = Poll::Ready(Err(e));
                assert(stopped(
                    byte,
                    from,
                    n,
                    mid,
                    between,
                    got,
                    Poll::Ready(Err(e)),
                    *reader,
                    r,
                    Until { reader: *reader, cx: *cx, buf: buf@, read: *read as nat },
                ));
                return r;
            },
            Poll::Ready(Ok(available)) => {
                let at = memchr::memchr(byte, available);
                assert(available.len() == available@.len());
                proof {
                    lemma_first(byte, available@, at);
                    bytes = available@;
                }
                match at {
                    Some(i) => {
                        let front = vstd::slice::slice_subrange(available, 0, i + 1);
                        assert(front@ =~= available@.take(i + 1));
                        buf.extend_from_slice(front);
                        (true, i + 1)
                    },
                    None => {
                        buf.extend_from_slice(available);
                        (false, available.len())
                    },
                }
            },
        };
        let ghost full = *reader;
        assert(mid.fills(between, Poll::Ready(Ok(bytes)), full, *cx));
        assert(buf.len() == buf@.len());
        reader.consume(used);
        *read = *read + used;
        if done || used == 0 {
            let total: usize = *read;
            *read = 0;
            let r = Poll::Ready(Ok(total));
            proof {
                let taken: nat = match first(byte, bytes) {
                    Some(i) => i + 1,
                    None => 0,
                };
                assert(taken == used);
                assert(buf@ =~= from.buf + got + bytes.take(used as int));
                assert(stopped(
                    byte,
                    from,
                    n,
                    mid,
                    between,
                    got,
                    Poll::Ready(Ok(bytes)),
                    full,
                    r,
                    Until { reader: *reader, cx: *cx, buf: buf@, read: 0 },
                ));
            }
            return r;
        }
        proof {
            assert(passed(byte, mid, between, *reader, *cx, bytes));
            n = n + 1;
            assert(buf@ =~= from.buf + (got + bytes));
            assert((got + bytes).take(got.len() as int) =~= got);
            assert((got + bytes).skip(got.len() as int) =~= bytes);
            got = got + bytes;
            assert(passing(byte, from.reader, from.cx, n, *reader, *cx, got));
        }
    }
}

/// Once the buffer shows something, it shows something again when asked again at once.
pub open spec fn steady<R: AsyncBufRead>(reader: R) -> bool {
    forall|
        cx: Context,
        bytes: Seq<u8>,
        mid: R,
        between: Context,
        seen: Poll<Result<Seq<u8>, Error>>,
        next: R,
        after: Context,
    |
        #[trigger] reader.fills(cx, Poll::Ready(Ok(bytes)), mid, between) && #[trigger] mid.fills(
            between,
            seen,
            next,
            after,
        ) ==> (seen matches Poll::Ready(Ok(_)))
}

/// The buffer was asked and showed `seen`, and if that were bytes it was asked again.
pub open spec fn filled_twice<R: AsyncBufRead>(
    reader: R,
    cx: Context,
    seen: Poll<Result<Seq<u8>, Error>>,
    mid: R,
    between: Context,
    r: Poll<Result<Seq<u8>, Error>>,
    next: R,
    after: Context,
) -> bool {
    &&& reader.fills(cx, seen, mid, between)
    &&& if seen matches Poll::Ready(Ok(_)) {
        mid.fills(between, r, next, after)
    } else {
        r == seen && next == mid && after == between
    }
}

/// Waits until a buffer has something to show.
#[must_use]
#[derive(Debug)]
pub struct FillBuf {
    /// It has shown what there is, or an error.
    pub done: bool,
}

impl FillBuf {
    /// Asks for what is in the buffer of `reader`.
    pub fn poll<'a, R: AsyncBufRead>(&mut self, reader: &'a mut R, cx: &mut Context) -> (r: Poll<
        Result<&'a [u8], Error>,
    >)
        requires
            !old(self).done,
            old(reader).wf(),
            steady(*old(reader)),
        ensures
            final(reader).wf(),
            final(self).done == (r is Ready),
            continues(*old(cx), *final(cx)),
            exists|seen: Poll<Result<Seq<u8>, Error>>, mid: R, between: Context| #[trigger]
                filled_twice(
                    *old(reader),
                    *old(cx),
                    seen,
                    mid,
                    between,
                    shown(r),
                    *final(reader),
                    *final(cx),
                ),
    {
        let ghost mut bytes: Seq<u8> = Seq::empty();
        match reader.poll_fill_buf(cx) {
            Poll::Pending => {
                assert(filled_twice(
                    *old(reader),
                    *old(cx),
                    Poll::Pending,
                    *reader,
                    *cx,
                    Poll::Pending,
                    *reader,
                    *cx,
                ));
                return Poll::Pending;
            },
            Poll::Ready(Err(e)) => {
                assert(filled_twice(
                    *old(reader),
                    *old(cx),
                    Poll::Ready(Err(e)),
                    *reader,
                    *cx,
                    Poll::Ready(Err(e)),
                    *reader,
                    *cx,
                ));
                self.done = true;
                return Poll::Ready(Err(e));
            },
            Poll::Ready(Ok(slice)) => {
                proof {
                    bytes = slice@;
                }
            },
        }
        let ghost mid = *reader;
        let ghost between = *cx;
        assert(old(reader).fills(*old(cx), Poll::Ready(Ok(bytes)), mid, between));
        assert forall|seen: Poll<Result<Seq<u8>, Error>>, next: R, after: Context| #[trigger]
            mid.fills(between, seen, next, after) implies filled_twice(
            *old(reader),
            *old(cx),
            Poll::Ready(Ok(bytes)),
            mid,
            between,
            seen,
            next,
            after,
        ) by {}
        self.done = true;
        reader.poll_fill_buf(cx)
    }
}

/// Reads up to a byte, and that byte with it.
#[must_use]
#[derive(Debug)]
pub struct ReadUntilFuture {
    pub byte: u8,
    pub read: usize,
}

impl ReadUntilFuture {
    /// Asks whether the byte or the end was reached. What was read is appended to `buf`.
    pub fn poll<R: AsyncBufRead>(
        &mut self,
        reader: &mut R,
        cx: &mut Context,
        buf: &mut Vec<u8>,
    ) -> (r: Poll<Result<usize, Error>>)
        requires
            old(reader).wf(),
            comes(old(self).byte, *old(reader), *old(cx)),
            old(self).read <= old(buf)@.len(),
        ensures
            final(reader).wf(),
            final(reader).endless() == old(reader).endless(),
            final(self).byte == old(self).byte,
            final(self).read <= final(buf)@.len(),
            continues(*old(cx), *final(cx)),
            reads_until(
                old(self).byte,
                (Until {
                    reader: *old(reader),
                    cx: *old(cx),
                    buf: old(buf)@,
                    read: old(self).read as nat,
                }),
                r,
                (Until {
                    reader: *final(reader),
                    cx: *final(cx),
                    buf: final(buf)@,
                    read: final(self).read as nat,
                }),
            ),
    {
        read_until_internal(reader, cx, self.byte, buf, &mut self.read)
    }
}

/// The byte that ends a line.
pub const NEWLINE: u8 = 10;

/// Reading a line can give `r` and lead from `from` to `to`, and from the text `text` to
/// `after`. Reading up to the end of the line gave `raw` and led to `mid`.
pub open spec fn line_read<R: AsyncBufRead>(
    from: Until<R>,
    text: Seq<char>,
    raw: Poll<Result<usize, Error>>,
    mid: Until<R>,
    r: Poll<Result<usize, Error>>,
    to: Until<R>,
    after: Seq<char>,
) -> bool {
    &&& reads_until(NEWLINE, from, raw, mid)
    &&& to.reader == mid.reader
    &&& to.cx == mid.cx
    &&& to.read == mid.read
    &&& match raw {
        Poll::Pending => r is Pending && to.buf == mid.buf && after == text,
        Poll::Ready(ret) => {
            &&& to.buf == Seq::<u8>::empty()
            &&& if vstd::utf8::valid_utf8(mid.buf) {
                r == raw && after == vstd::utf8::decode_utf8(mid.buf)
            } else {
                &&& after == text
                &&& r matches Poll::Ready(Err(e)) && (if ret is Err {
                    e == ret->Err_0
                } else {
                    e.says(ErrorKind::InvalidData, "stream did not contain valid UTF-8"@)
                })
            }
        },
    }
}

/// Reading a line can give `r` and lead from `from` to `to`, and from the text `text` to
/// `after`.
pub open spec fn reads_line<R: AsyncBufRead>(
    from: Until<R>,
    text: Seq<char>,
    r: Poll<Result<usize, Error>>,
    to: Until<R>,
    after: Seq<char>,
) -> bool {
    exists|raw: Poll<Result<usize, Error>>, mid: Until<R>| #[trigger]
        line_read(from, text, raw, mid, r, to, after)
}

/// The reader failed in the middle of a line, and `r` says so.
pub open spec fn line_broken_off<R: AsyncBufRead>(
    from: Until<R>,
    r: Poll<Result<usize, Error>>,
) -> bool {
    &&& r matches Poll::Ready(Err(_))
    &&& exists|mid: Until<R>| #[trigger] reads_until(NEWLINE, from, r, mid) && mid.read > 0
}

/// Reads a line, with what ends it, in place of `buf`. `bytes` is what was read of it so far.
fn read_line_internal<R: AsyncBufRead>(
    reader: &mut R,
    cx: &mut Context,
    buf: &mut String,
    bytes: &mut Vec<u8>,
    read: &mut usize,
) -> (r: Poll<Result<usize, Error>>)
    requires
        old(reader).wf(),
        comes(NEWLINE, *old(reader), *old(cx)),
        *old(read) <= old(bytes)@.len(),
    ensures
        final(reader).wf(),
        final(reader).endless() == old(reader).endless(),
        continues(*old(cx), *final(cx)),
        reads_line(
            (Until {
                reader: *old(reader),
                cx: *old(cx),
                buf: old(bytes)@,
                read: *old(read) as nat,
            }),
            old(buf)@,
            r,
            (Until {
                reader: *final(reader),
                cx: *final(cx),
                buf: final(bytes)@,
                read: *final(read) as nat,
            }),
            final(buf)@,
        ),
        *final(read) <= final(bytes)@.len() || line_broken_off(
            (Until {
                reader: *old(reader),
                cx: *old(cx),
                buf: old(bytes)@,
                read: *old(read) as nat,
            }),
            r,
        ),
{
    let ghost from = Until {
        reader: *reader,
        cx: *cx,
        buf: bytes@,
        read: *read as nat,
    };
    let ret = read_until_internal(reader, cx, NEWLINE, bytes, read);
    let ghost mid = Until {
        reader: *reader,
        cx: *cx,
        buf: bytes@,
        read: *read as nat,
    };
    let ghost raw = ret;
    let ret = match ret {
        Poll::Pending => {
            assert(line_read(from, buf@, raw, mid, Poll::Pending, mid, buf@));
            return Poll::Pending;
        },
        Poll::Ready(ret) => ret,
    };
    let mut line: Vec<u8> = Vec::new();
    std::mem::swap(&mut line, bytes);
    let ghost to = Until::<R> { buf: Seq::empty(), ..mid };
    match string_from_utf8(line) {
        Some(s) => {
            let ghost text = buf@;
            *buf = s;
            assert(line_read(from, text, raw, mid, raw, to, s@));
            Poll::Ready(ret)
        },
        None => {
            let r = match ret {
                Ok(_) => Poll::Ready(
                    Err(
                        Error::new(
                            ErrorKind::InvalidData,
                            "stream did not contain valid UTF-8",
                        ),
                    ),
                ),
                Err(e) => Poll::Ready(Err(e)),
            };
            assert(line_read(from, buf@, raw, mid, r, to, buf@));
            r
        },
    }
}

/// Reads a line, with what ends it.
#[must_use]
#[derive(Debug)]
pub struct ReadLineFuture {
    pub bytes: Vec<u8>,
    pub read: usize,
}

impl ReadLineFuture {
    /// Asks whether the line is there, and puts it in place of `buf`.
    pub fn poll<R: AsyncBufRead>(
        &mut self,
        reader: &mut R,
        cx: &mut Context,
        buf: &mut String,
    ) -> (r: Poll<Result<usize, Error>>)
        requires
            old(reader).wf(),
            comes(NEWLINE, *old(reader), *old(cx)),
            old(self).read <= old(self).bytes@.len(),
        ensures
            final(reader).wf(),
            final(reader).endless() == old(reader).endless(),
            continues(*old(cx), *final(cx)),
            reads_line(
                (Until {
                    reader: *old(reader),
                    cx: *old(cx),
                    buf: old(self).bytes@,
                    read: old(self).read as nat,
                }),
                old(buf)@,
                r,
                (Until {
                    reader: *final(reader),
                    cx: *final(cx),
                    buf: final(self).bytes@,
                    read: final(self).read as nat,
                }),
                final(buf)@,
            ),
            final(self).read <= final(self).bytes@.len() || line_broken_off(
                (Until {
                    reader: *old(reader),
                    cx: *old(cx),
                    buf: old(self).bytes@,
                    read: old(self).read as nat,
                }),
                r,
            ),
    {
        read_line_internal(reader, cx, buf, &mut self.bytes, &mut self.read)
    }
}

/// A line without what ends it: a line feed, or a carriage return and a line feed.
pub open spec fn trimmed(line: Seq<char>) -> Seq<char> {
    if line.len() > 0 && line.last() == '\n' {
        let rest = line.drop_last();
        if rest.len() > 0 && rest.last() == '\r' {
            rest.drop_last()
        } else {
            rest
        }
    } else {
        line
    }
}

/// A line without what ends it.
fn trim(line: &String) -> (r: String)
    ensures
        r@ == trimmed(line@),
{
    let text = line.as_str();
    let mut len: usize = text.unicode_len();
    if len > 0 && text.get_char(len - 1) == '\n' {
        len = len - 1;
        if len > 0 && text.get_char(len - 1) == '\r' {
            len = len - 1;
        }
    }
    let front = text.substring_char(0, len);
    assert(front@ =~= trimmed(line@));
    front.to_string()
}

/// The lines of what is read.
#[derive(Debug)]
pub struct Lines<R> {
    pub reader: R,
    pub buf: String,
    pub bytes: Vec<u8>,
    pub read: usize,
}

impl<R: AsyncBufRead> Lines<R> {
    pub open spec fn wf(&self) -> bool {
        &&& self.reader.wf()
        &&& self.read <= self.bytes@.len()
    }

    /// Reading a line gave `raw` and the text `text`, and that is what comes of it.
    pub open spec fn stepped(
        self,
        cx: Context,
        raw: Poll<Result<usize, Error>>,
        text: Seq<char>,
        r: Poll<Option<Result<String, Error>>>,
        next: Self,
        after: Context,
    ) -> bool {
        &&& reads_line(
            Until { reader: self.reader, cx, buf: self.bytes@, read: self.read as nat },
            self.buf@,
            raw,
            Until {
                reader: next.reader,
                cx: after,
                buf: next.bytes@,
                read: next.read as nat,
            },
            text,
        )
        &&& match raw {
            Poll::Pending => r is Pending && next.buf@ == text,
            Poll::Ready(Err(e)) => {
                &&& r == Poll::Ready(Some(Err::<String, Error>(e)))
                &&& next.buf@ == text
            },
            Poll::Ready(Ok(n)) => if n == 0 && text.len() == 0 {
                r == Poll::Ready(None::<Result<String, Error>>) && next.buf@ == text
            } else {
                &&& r matches Poll::Ready(Some(Ok(line))) && line@ == trimmed(text)
                &&& next.buf@ == Seq::<char>::empty()
            },
        }
    }

    /// Asks for the next line, without what ends it.
    pub fn poll_next(&mut self, cx: &mut Context) -> (r: Poll<Option<Result<String, Error>>>)
        requires
            old(self).wf(),
            comes(NEWLINE, old(self).reader, *old(cx)),
        ensures
            exists|raw: Poll<Result<usize, Error>>, text: Seq<char>| #[trigger]
                old(self).stepped(*old(cx), raw, text, r, *final(self), *final(cx)),
            continues(*old(cx), *final(cx)),
            final(self).reader.wf(),
            final(self).reader.endless() == old(self).reader.endless(),
            final(self).wf() || (r matches Poll::Ready(Some(Err(e))) && line_broken_off(
                (Until {
                    reader: old(self).reader,
                    cx: *old(cx),
                    buf: old(self).bytes@,
                    read: old(self).read as nat,
                }),
                Poll::Ready(Err(e)),
            )),
    {
        let raw = read_line_internal(
            &mut self.reader,
            cx,
            &mut self.buf,
            &mut self.bytes,
            &mut self.read,
        );
        let ghost text = self.buf@;
        match raw {
            Poll::Pending => {
                assert(old(self).stepped(
                    *old(cx),
                    Poll::Pending,
                    text,
                    Poll::Pending,
                    *self,
                    *cx,
                ));
                Poll::Pending
            },
            Poll::Ready(Err(e)) => {
                let r = Poll::Ready(Some(Err(e)));
                assert(old(self).stepped(*old(cx), Poll::Ready(Err(e)), text, r, *self, *cx));
                r
            },
            Poll::Ready(Ok(n)) => {
                if n == 0 && self.buf.as_str().unicode_len() == 0 {
                    assert(old(self).stepped(
                        *old(cx),
                        Poll::Ready(Ok(n)),
                        text,
                        Poll::Ready(None),
                        *self,
                        *cx,
                    ));
                    return Poll::Ready(None);
                }
                let line = trim(&self.buf);
                self.buf = String::new();
                let r = Poll::Ready(Some(Ok(line)));
                assert(old(self).stepped(*old(cx), Poll::Ready(Ok(n)), text, r, *self, *cx));
                r
            },
        }
    }
}

/// The parts of what is read between the bytes that equal `delim`.
#[derive(Debug)]
pub struct Split<R> {
    pub reader: R,
    pub buf: Vec<u8>,
    pub read: usize,
    pub delim: u8,
}

/// A part without the byte that ends it.
pub open spec fn part(delim: u8, bytes: Seq<u8>) -> Seq<u8> {
    if bytes.len() > 0 && bytes.last() == delim {
        bytes.drop_last()
    } else {
        bytes
    }
}

impl<R: AsyncBufRead> Split<R> {
    pub open spec fn wf(&self) -> bool {
        &&& self.reader.wf()
        &&& self.read <= self.buf@.len()
    }

    /// Reading up to the byte gave `raw` and the bytes `bytes`, and that is what comes of it.
    pub open spec fn stepped(
        self,
        cx: Context,
        raw: Poll<Result<usize, Error>>,
        bytes: Seq<u8>,
        r: Poll<Option<Result<Vec<u8>, Error>>>,
        next: Self,
        after: Context,
    ) -> bool {
        &&& reads_until(
            self.delim,
            Until { reader: self.reader, cx, buf: self.buf@, read: self.read as nat },
            raw,
            Until { reader: next.reader, cx: after, buf: bytes, read: next.read as nat },
        )
        &&& next.delim == self.delim
        &&& match raw {
            Poll::Pending => r is Pending && next.buf@ == bytes,
            Poll::Ready(Err(e)) => {
                &&& r == Poll::Ready(Some(Err::<Vec<u8>, Error>(e)))
                &&& next.buf@ == bytes
            },
            Poll::Ready(Ok(n)) => if n == 0 && bytes.len() == 0 {
                r == Poll::Ready(None::<Result<Vec<u8>, Error>>) && next.buf@ == bytes
            } else {
                &&& r matches Poll::Ready(Some(Ok(v))) && v@ == part(self.delim, bytes)
                &&& next.buf@ == Seq::<u8>::empty()
            },
        }
    }

    /// Asks for the next part, without the byte that ends it.
    pub fn poll_next(&mut self, cx: &mut Context) -> (r: Poll<Option<Result<Vec<u8>, Error>>>)
        requires
            old(self).wf(),
            comes(old(self).delim, old(self).reader, *old(cx)),
        ensures
            final(self).wf(),
            final(self).reader.endless() == old(self).reader.endless(),
            exists|raw: Poll<Result<usize, Error>>, bytes: Seq<u8>| #[trigger]
                old(self).stepped(*old(cx), raw, bytes, r, *final(self), *final(cx)),
            continues(*old(cx), *final(cx)),
    {
        let raw = read_until_internal(
            &mut self.reader,
            cx,
            self.delim,
            &mut self.buf,
            &mut self.read,
        );
        let ghost bytes = self.buf@;
        match raw {
            Poll::Pending => {
                assert(old(self).stepped(
                    *old(cx),
                    Poll::Pending,
                    bytes,
                    Poll::Pending,
                    *self,
                    *cx,
                ));
                Poll::Pending
            },
            Poll::Ready(Err(e)) => {
                let r = Poll::Ready(Some(Err(e)));
                assert(old(self).stepped(*old(cx), Poll::Ready(Err(e)), bytes, r, *self, *cx));
                r
            },
            Poll::Ready(Ok(n)) => {
                if n == 0 && self.buf.len() == 0 {
                    assert(old(self).stepped(
                        *old(cx),
                        Poll::Ready(Ok(n)),
                        bytes,
                        Poll::Ready(None),
                        *self,
                        *cx,
                    ));
                    return Poll::Ready(None);
                }
                let mut out: Vec<u8> = Vec::new();
                std::mem::swap(&mut out, &mut self.buf);
                let len: usize = out.len();
                if out[len - 1] == self.delim {
                    out.pop();
                }
                assert(out@ =~= part(self.delim, bytes));
                let r = Poll::Ready(Some(Ok(out)));
                assert(old(self).stepped(*old(cx), Poll::Ready(Ok(n)), bytes, r, *self, *cx));
                r
            },
        }
    }
}

proof fn lemma_passing_in_memory<T: AsBytes>(
    byte: u8,
    from: Cursor<T>,
    cx: Context,
    n: nat,
    to: Cursor<T>,
    after: Context,
    got: Seq<u8>,
)
    requires
        passing(byte, from, cx, n, to, after, got),
    ensures
        to.inner == from.inner,
        after == cx,
        to.pos == from.pos + got.len(),
        n == 0 ==> to == from && got.len() == 0,
        n > 0 ==> got == from.rest() && first(byte, got) is None && to.rest().len() == 0,
    decreases n,
{
    if n > 0 {
        let (mid, between, last) = choose|mid: Cursor<T>, between: Context, last: Seq<u8>|
            {
                let before = got.len() - last.len();
                &&& 0 <= before
                &&& passing(byte, from, cx, (n - 1) as nat, mid, between, got.take(before))
                &&& #[trigger] passed(byte, mid, between, to, after, last)
                &&& got.skip(before) == last
            };
        let before = got.len() - last.len();
        lemma_passing_in_memory(byte, from, cx, (n - 1) as nat, mid, between, got.take(before));
        assert(last == mid.rest());
        assert(n == 1);
        assert(got =~= last);
    }
}

/// Of bytes in memory, reading up to a byte gives the bytes to the first one that equals it, and
/// that one, or all there are if there is none.
pub proof fn law_until_in_memory<T: AsBytes>(
    byte: u8,
    from: Until<Cursor<T>>,
    r: Poll<Result<usize, Error>>,
    to: Until<Cursor<T>>,
)
    requires
        reads_until(byte, from, r, to),
        from.read + from.reader.rest().len() <= usize::MAX,
    ensures
        ({
            let rest = from.reader.rest();
            let n = match first(byte, rest) {
                Some(i) => i + 1,
                None => rest.len(),
            };
            &&& r == Poll::Ready(Ok::<usize, Error>((from.read + n) as usize))
            &&& to.buf == from.buf + rest.take(n as int)
            &&& to.read == 0
            &&& to.reader.inner == from.reader.inner
            &&& to.reader.pos == from.reader.pos + n
            &&& to.cx == from.cx
        }),
{
    let (n, mid, between, got, seen, full) = choose|
        n: nat,
        mid: Cursor<T>,
        between: Context,
        got: Seq<u8>,
        seen: Poll<Result<Seq<u8>, Error>>,
        full: Cursor<T>,
    | #[trigger]
        stopped(byte, from, n, mid, between, got, seen, full, r, to);
    lemma_passing_in_memory(byte, from.reader, from.cx, n, mid, between, got);
    let rest = from.reader.rest();
    let bytes = mid.rest();
    assert(seen == Poll::Ready(Ok::<Seq<u8>, Error>(bytes)));
    if n == 0 {
        assert(got =~= Seq::empty());
        assert(from.buf + got =~= from.buf);
        if first(byte, rest) is None {
            assert(rest.take(0) =~= Seq::empty());
        }
    } else {
        assert(bytes =~= Seq::empty());
        assert(first(byte, bytes) is None);
        assert(rest.take(rest.len() as int) =~= rest);
        assert(bytes.take(0) =~= Seq::empty());
        assert(from.buf + got + Seq::empty() =~= from.buf + rest);
    }
}

/// Of what gives one byte again and again no buffer is without it.
proof fn lemma_passing_repeated(
    byte: u8,
    from: BufferReader<Repeat>,
    cx: Context,
    n: nat,
    to: BufferReader<Repeat>,
    after: Context,
    got: Seq<u8>,
)
    requires
        from.inner.byte == byte,
        from.pos >= from.cap,
        passing(byte, from, cx, n, to, after, got),
    ensures
        n == 0,
    decreases n,
{
    if n > 0 {
        let (mid, between, last) = choose|
            mid: BufferReader<Repeat>,
            between: Context,
            last: Seq<u8>,
        |
            {
                let before = got.len() - last.len();
                &&& 0 <= before
                &&& passing(byte, from, cx, (n - 1) as nat, mid, between, got.take(before))
                &&& #[trigger] passed(byte, mid, between, to, after, last)
                &&& got.skip(before) == last
            };
        let before = got.len() - last.len();
        lemma_passing_repeated(byte, from, cx, (n - 1) as nat, mid, between, got.take(before));
        assert(mid == from);
        let full = choose|full: BufferReader<Repeat>|
            {
                &&& #[trigger] from.fills(cx, Poll::Ready(Ok(last)), full, after)
                &&& full.consumes(last.len(), to)
            };
        assert(from.fills(cx, Poll::Ready(Ok(last)), full, after));
        assert(last == full.buf@.take(full.cap as int));
        assert(last[0] == full.buf@[0]);
        assert(first(byte, last) == Some(0nat));
    }
}

/// What gives one byte again and again never ends, and yet reading up to that byte does.
pub proof fn law_repeated_byte_comes(byte: u8, reader: BufferReader<Repeat>, cx: Context)
    requires
        reader.inner.byte == byte,
        reader.held().len() == 0,
        reader.wf(),
    ensures
        reader.endless(),
        comes(byte, reader, cx),
{
    assert(comes_within(byte, reader, cx, 0)) by {
        assert forall|n: nat, to: BufferReader<Repeat>, after: Context, got: Seq<u8>| #[trigger]
            passing(byte, reader, cx, n, to, after, got) implies n <= 0 by {
            lemma_passing_repeated(byte, reader, cx, n, to, after, got);
        }
    }
}

/// The first byte that equals another one equals it, and none before it does; and where there is none,
/// none does.
pub proof fn law_first(byte: u8, bytes: Seq<u8>)
    ensures
        first(byte, bytes) matches Some(i) ==> i < bytes.len() && bytes[i as int] == byte && forall|
            j: int,
        |
            0 <= j < i ==> bytes[j] != byte,
        first(byte, bytes) is None ==> forall|j: int| 0 <= j < bytes.len() ==> bytes[j] != byte,
    decreases bytes.len(),
{
    if bytes.len() > 0 && bytes[0] != byte {
        let rest = bytes.skip(1);
        law_first(byte, rest);
        assert forall|j: int| 0 < j < bytes.len() implies bytes[j] == rest[j - 1] by {}
    }
}

/// `given` tells for a reader with a buffer what was consumed of it so far: showing nothing consumes
/// nothing.
pub open spec fn tells_kept<R: AsyncBufRead>(given: spec_fn(R) -> Seq<u8>) -> bool {
    forall|a: R, cx: Context, seen: Poll<Result<Seq<u8>, Error>>, b: R, after: Context| #[trigger]
        a.fills(cx, seen, b, after) && !(seen matches Poll::Ready(Ok(_))) ==> given(b) == given(a)
}

proof fn lemma_passing_given<R: AsyncBufRead>(
    given: spec_fn(R) -> Seq<u8>,
    byte: u8,
    from: R,
    cx: Context,
    n: nat,
    to: R,
    after: Context,
    got: Seq<u8>,
)
    requires
        tells_given(given),
        passing(byte, from, cx, n, to, after, got),
    ensures
        given(to) == given(from) + got,
        forall|j: int| 0 <= j < got.len() ==> got[j] != byte,
    decreases n,
{
    if n == 0 {
        assert(given(from) + got =~= given(from));
    } else {
        let (mid, between, last) = choose|mid: R, between: Context, last: Seq<u8>|
            {
                let before = got.len() - last.len();
                &&& 0 <= before
                &&& passing(byte, from, cx, (n - 1) as nat, mid, between, got.take(before))
                &&& #[trigger] passed(byte, mid, between, to, after, last)
                &&& got.skip(before) == last
            };
        let before = got.len() - last.len();
        lemma_passing_given(
            given,
            byte,
            from,
            cx,
            (n - 1) as nat,
            mid,
            between,
            got.take(before),
        );
        let full = choose|full: R|
            {
                &&& #[trigger] mid.fills(between, Poll::Ready(Ok(last)), full, after)
                &&& full.consumes(last.len(), to)
            };
        assert(mid.fills(between, Poll::Ready(Ok(last)), full, after));
        assert(full.consumes(last.len(), to));
        assert(last.take(last.len() as int) =~= last);
        assert(given(to) =~= given(from) + got) by {
            assert(got =~= got.take(before) + last);
        }
        law_first(byte, last);
        assert forall|j: int| 0 <= j < got.len() implies got[j] != byte by {
            if j < before {
                assert(got.take(before)[j] == got[j]);
            } else {
                assert(got.skip(before)[j - before] == got[j]);
            }
        }
    }
}

/// However often it has to be asked, what is read up to a byte is what is taken from the reader, in
/// order and without a gap, up to the first byte that equals it and not beyond, or up to the end; what
/// is counted is how much that was since it was begun. `given` tells what was taken from the reader.
pub proof fn law_until<R: AsyncBufRead>(
    given: spec_fn(R) -> Seq<u8>,
    byte: u8,
    from: Until<R>,
    r: Poll<Result<usize, Error>>,
    to: Until<R>,
)
    requires
        tells_given(given),
        tells_kept(given),
        reads_until(byte, from, r, to),
    ensures
        from.buf.is_prefix_of(to.buf),
        given(to.reader) == given(from.reader) + to.buf.skip(from.buf.len() as int),
        // There is none before the last one.
        forall|j: int| from.buf.len() <= j < to.buf.len() - 1 ==> to.buf[j] != byte,
        !(r matches Poll::Ready(Ok(_))) ==> to.read == from.read + (to.buf.len() - from.buf.len())
            && (to.buf.len() > from.buf.len() ==> to.buf.last() != byte),
        r matches Poll::Ready(Ok(n)) ==> to.read == 0 && (from.read + (to.buf.len()
            - from.buf.len()) <= usize::MAX ==> n == from.read + (to.buf.len() - from.buf.len())),
        // Where the byte has not come, there was nothing more.
        r matches Poll::Ready(Ok(_)) ==> (to.buf.len() > from.buf.len() && to.buf.last() == byte)
            || exists|mid: R, between: Context, full: R| #[trigger]
            mid.fills(between, Poll::Ready(Ok(Seq::empty())), full, to.cx),
{
    let (n, mid, between, got, seen, full) = choose|
        n: nat,
        mid: R,
        between: Context,
        got: Seq<u8>,
        seen: Poll<Result<Seq<u8>, Error>>,
        full: R,
    | #[trigger]
        stopped(byte, from, n, mid, between, got, seen, full, r, to);
    lemma_passing_given(given, byte, from.reader, from.cx, n, mid, between, got);
    assert(mid.fills(between, seen, full, to.cx));
    let start = from.buf.len() as int;
    match seen {
        Poll::Ready(Ok(bytes)) => {
            law_first(byte, bytes);
            let used: nat = match first(byte, bytes) {
                Some(i) => i + 1,
                None => 0,
            };
            let more = bytes.take(used as int);
            assert(full.consumes(used, to.reader));
            assert(given(to.reader) == given(mid) + more);
            assert(to.buf.skip(start) =~= got + more);
            assert(given(to.reader) =~= given(from.reader) + (got + more));
            assert(to.buf.take(start) =~= from.buf);
            assert forall|j: int| start <= j < to.buf.len() - 1 implies to.buf[j] != byte by {
                if j - start < got.len() {
                    assert(to.buf[j] == got[j - start]);
                } else {
                    assert(to.buf[j] == bytes[j - start - got.len()]);
                }
            }
            if used > 0 {
                assert(to.buf.last() == bytes[used - 1]);
            } else {
                assert(bytes =~= Seq::empty());
            }
        },
        _ => {
            assert(to.buf.skip(start) =~= got);
            assert(to.buf.take(start) =~= from.buf);
            assert forall|j: int| start <= j < to.buf.len() implies to.buf[j] != byte by {
                assert(to.buf[j] == got[j - start]);
            }
        },
    }
}

/// What ends a line is a line feed, or a carriage return and a line feed: without it a line is what
/// stands before it, and one that has none is whole.
pub proof fn law_trimmed(line: Seq<char>)
    ensures
        !(line.len() > 0 && line.last() == '\r') ==> trimmed(line.push('\n')) == line,
        trimmed(line.push('\r').push('\n')) == line,
        !(line.len() > 0 && line.last() == '\n') ==> trimmed(line) == line,
{
    assert(line.push('\n').drop_last() =~= line);
    assert(line.push('\r').push('\n').drop_last() =~= line.push('\r'));
    assert(line.push('\r').drop_last() =~= line);
}

/// Without the byte that ends it a part is what stands before that, and one that has none is whole.
pub proof fn law_part(delim: u8, bytes: Seq<u8>)
    ensures
        part(delim, bytes.push(delim)) == bytes,
        !(bytes.len() > 0 && bytes.last() == delim) ==> part(delim, bytes) == bytes,
{
    assert(bytes.push(delim).drop_last() =~= bytes);
}

/// A line is told once it has come, as text if it is text; until then what was read of it is kept, and
/// afterwards nothing of it is. Where it is not text, that is an error, unless there was one before.
pub proof fn law_line<R: AsyncBufRead>(
    from: Until<R>,
    text: Seq<char>,
    raw: Poll<Result<usize, Error>>,
    mid: Until<R>,
    r: Poll<Result<usize, Error>>,
    to: Until<R>,
    after: Seq<char>,
)
    requires
        line_read(from, text, raw, mid, r, to, after),
    ensures
        reads_until(10, from, raw, mid),
        to.reader == mid.reader,
        raw is Pending <==> r is Pending,
        raw is Pending ==> to.buf == mid.buf && to.read == mid.read && after == text,
        raw is Ready ==> to.buf.len() == 0,
        raw is Ready && vstd::utf8::valid_utf8(mid.buf) ==> r == raw && after
            == vstd::utf8::decode_utf8(mid.buf),
        raw is Ready && !vstd::utf8::valid_utf8(mid.buf) ==> after == text && (r matches Poll::Ready(
            Err(e),
        ) && (raw matches Poll::Ready(Err(before)) ==> e == before) && (raw matches Poll::Ready(Ok(
            _,
        )) ==> e.kind is InvalidData)),
{
}

/// Line by line all of the text is told: each line without what ends it, an error where there is one,
/// and the end once nothing is left; and nothing of a line that was told is told again.
pub proof fn law_lines<R: AsyncBufRead>(
    lines: Lines<R>,
    cx: Context,
    raw: Poll<Result<usize, Error>>,
    text: Seq<char>,
    r: Poll<Option<Result<String, Error>>>,
    next: Lines<R>,
    after: Context,
    line: Seq<char>,
)
    requires
        lines.stepped(cx, raw, text, r, next, after),
    ensures
        raw is Pending <==> r is Pending,
        raw matches Poll::Ready(Err(e)) ==> r == Poll::Ready(Some(Err::<String, Error>(e))),
        (r matches Poll::Ready(None)) <==> raw == Poll::Ready(Ok::<usize, Error>(0)) && text.len()
            == 0,
        raw matches Poll::Ready(Ok(n)) ==> n > 0 || text.len() > 0 ==> (r matches Poll::Ready(Some(
            Ok(told),
        )) && (text == line.push('\r').push('\n') ==> told@ == line) && (text == line.push('\n') && !(
        line.len() > 0 && line.last() == '\r') ==> told@ == line) && (text == line && !(line.len() > 0
            && line.last() == '\n') ==> told@ == line) && next.buf@.len() == 0),
        !(r matches Poll::Ready(Some(Ok(_)))) ==> next.buf@ == text,
{
    law_trimmed(line);
}

/// Part by part all of the bytes are told: each part without the byte that ends it, an error where
/// there is one, and the end once nothing is left; and nothing of a part that was told is told again.
pub proof fn law_parts<R: AsyncBufRead>(
    split: Split<R>,
    cx: Context,
    raw: Poll<Result<usize, Error>>,
    bytes: Seq<u8>,
    r: Poll<Option<Result<Vec<u8>, Error>>>,
    next: Split<R>,
    after: Context,
    one: Seq<u8>,
)
    requires
        split.stepped(cx, raw, bytes, r, next, after),
    ensures
        raw is Pending <==> r is Pending,
        raw matches Poll::Ready(Err(e)) ==> r == Poll::Ready(Some(Err::<Vec<u8>, Error>(e))),
        (r matches Poll::Ready(None)) <==> raw == Poll::Ready(Ok::<usize, Error>(0)) && bytes.len()
            == 0,
        raw matches Poll::Ready(Ok(n)) ==> n > 0 || bytes.len() > 0 ==> (r matches Poll::Ready(Some(
            Ok(told),
        )) && (bytes == one.push(split.delim) ==> told@ == one) && (bytes == one && !(one.len() > 0
            && one.last() == split.delim) ==> told@ == one) && next.buf@.len() == 0),
        !(r matches Poll::Ready(Some(Ok(_)))) ==> next.buf@ == bytes,
        next.delim == split.delim,
{
    law_part(split.delim, one);
}

/// What is shown of a buffer that was waited for is what the reader shows, or its error.
pub proof fn law_shown<R: AsyncBufRead>(
    reader: R,
    cx: Context,
    seen: Poll<Result<Seq<u8>, Error>>,
    mid: R,
    between: Context,
    r: Poll<Result<Seq<u8>, Error>>,
    next: R,
    after: Context,
)
    requires
        filled_twice(reader, cx, seen, mid, between, r, next, after),
    ensures
        reader.fills(cx, seen, mid, between),
        seen is Pending ==> r is Pending && next == mid,
        seen matches Poll::Ready(Err(e)) ==> r == Poll::Ready(Err::<Seq<u8>, Error>(e)) && next == mid,
        seen matches Poll::Ready(Ok(_)) ==> mid.fills(between, r, next, after),
{
}

} // verus!
