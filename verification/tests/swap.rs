use cynthia::future::swap::adapters::Chain;
use cynthia::future::swap::assert_async::AssertAsync;
use cynthia::future::swap::buffer_reader::BufferReader;
use cynthia::future::swap::buffer_writer::BufferWriter;
use cynthia::future::swap::cursor::{slice_write, Cursor};
use cynthia::future::swap::ext::{
    AsyncBufReadExt, AsyncReadExt, AsyncSeekExt, AsyncWriteExt,
};
use cynthia::future::swap::plain::{empty, repeat, sink, BlockOn};
use cynthia::future::swap::traits::{AsyncBufRead, AsyncRead, AsyncSeek, AsyncWrite, Io};
use cynthia::future::swap::vectored::{
    read_first, write_first, AsyncReadVectored, AsyncWriteVectored, ReadVectored, WriteVectored,
};
use cynthia::future::swap::write::copy;
use cynthia::io::stream::{ByteSeq, Collector, Count, SeekFrom, SliceReader, Write};
use cynthia::io::{Error, ErrorKind};
use cynthia::task::{Context, Poll, Waker};

fn context() -> Context {
    Context::from_waker(Waker { id: 1 })
}

fn cursor(bytes: &[u8]) -> Cursor<Vec<u8>> {
    Cursor::new(bytes.to_vec())
}

fn ready<T>(r: Poll<Result<T, Error>>) -> T {
    match r {
        Poll::Ready(Ok(value)) => value,
        Poll::Ready(Err(e)) => panic!("{:?}", e),
        Poll::Pending => panic!("pending"),
    }
}

fn failed<T>(r: Poll<Result<T, Error>>) -> Error {
    match r {
        Poll::Ready(Err(e)) => e,
        _ => panic!("no error"),
    }
}

/// Gives at most two bytes at a time, and nothing at every other time.
struct Slow {
    bytes: Vec<u8>,
    waits: bool,
}

impl Io for Slow {
    fn wf(&self) -> bool {
        true
    }
}

impl AsyncRead for Slow {
    fn endless(&self) -> bool {
        false
    }

    fn pace(&self) -> Count {
        unreachable!()
    }

    fn reads(
        self,
        _: Context,
        _: ByteSeq,
        _: Poll<Result<usize, Error>>,
        _: Self,
        _: ByteSeq,
        _: Context,
    ) -> bool {
        unreachable!()
    }

    fn poll_read(&mut self, _: &mut Context, buf: &mut [u8]) -> Poll<Result<usize, Error>> {
        self.waits = !self.waits;
        if self.waits {
            return Poll::Pending;
        }
        let n = self.bytes.len().min(2).min(buf.len());
        for (to, from) in buf.iter_mut().zip(self.bytes.drain(..n)) {
            *to = from;
        }
        Poll::Ready(Ok(n))
    }
}

/// Takes at most three bytes at a time, and nothing at every other time.
struct Picky {
    bytes: Vec<u8>,
    waits: bool,
    flushed: bool,
}

impl Io for Picky {
    fn wf(&self) -> bool {
        true
    }
}

impl AsyncWrite for Picky {
    fn stamina(&self) -> Count {
        unreachable!()
    }

    fn patience(&self) -> Count {
        unreachable!()
    }

    fn lemma_patience(&self) {}

    fn writes(
        self,
        _: Context,
        _: ByteSeq,
        _: Poll<Result<usize, Error>>,
        _: Self,
        _: Context,
    ) -> bool {
        unreachable!()
    }

    fn flushes(self, _: Context, _: Poll<Result<(), Error>>, _: Self, _: Context) -> bool {
        unreachable!()
    }

    fn closes(self, _: Context, _: Poll<Result<(), Error>>, _: Self, _: Context) -> bool {
        unreachable!()
    }

    fn poll_write(&mut self, _: &mut Context, buf: &[u8]) -> Poll<Result<usize, Error>> {
        self.waits = !self.waits;
        if self.waits {
            return Poll::Pending;
        }
        let n = buf.len().min(3);
        self.bytes.extend_from_slice(&buf[..n]);
        Poll::Ready(Ok(n))
    }

    fn poll_flush(&mut self, _: &mut Context) -> Poll<Result<(), Error>> {
        self.flushed = true;
        Poll::Ready(Ok(()))
    }

    fn poll_close(&mut self, _: &mut Context) -> Poll<Result<(), Error>> {
        Poll::Ready(Ok(()))
    }
}

fn picky() -> Picky {
    Picky { bytes: Vec::new(), waits: false, flushed: false }
}

/// Takes so many bytes in all.
fn narrow(room: usize) -> AssertAsync<Collector> {
    AssertAsync::new(Collector::new(room))
}

#[test]
fn cursor_reads_from_its_position() {
    let mut cx = context();
    let mut c = cursor(&[1, 2, 3, 4]);
    let mut buf = [0; 3];
    assert_eq!(ready(c.poll_read(&mut cx, &mut buf)), 3);
    assert_eq!(buf, [1, 2, 3]);
    assert_eq!(ready(c.poll_fill_buf(&mut cx)), &[4]);
    c.consume(1);
    assert_eq!(ready(c.poll_read(&mut cx, &mut buf)), 0);
    c.set_position(99);
    assert_eq!(ready(c.poll_read(&mut cx, &mut buf)), 0);
    assert_eq!(c.position(), 99);
    assert_eq!(c.get_ref(), &vec![1, 2, 3, 4]);
    c.get_mut().push(5);
    assert_eq!(c.into_inner(), vec![1, 2, 3, 4, 5]);
}

#[test]
fn cursor_goes_to_a_position() {
    let mut cx = context();
    let mut c = cursor(&[1, 2, 3, 4]);
    assert_eq!(ready(c.poll_seek(&mut cx, SeekFrom::Start(2))), 2);
    assert_eq!(ready(c.poll_seek(&mut cx, SeekFrom::Current(-1))), 1);
    assert_eq!(ready(c.poll_seek(&mut cx, SeekFrom::End(3))), 7);
    let e = failed(c.poll_seek(&mut cx, SeekFrom::Current(-8)));
    assert_eq!(e.kind(), ErrorKind::InvalidInput);
    assert_eq!(e.text, "invalid seek to a negative or overflowing position");
    assert_eq!(c.position(), 7);
    assert!(matches!(c.poll_seek(&mut cx, SeekFrom::End(i64::MIN)), Poll::Ready(Err(_))));
    c.set_position(u64::MAX);
    assert!(matches!(c.poll_seek(&mut cx, SeekFrom::Current(1)), Poll::Ready(Err(_))));
    assert_eq!(ready(c.seek(SeekFrom::Start(3)).poll(&mut c, &mut cx)), 3);
}

#[test]
fn cursor_writes_over_and_behind_the_end() {
    let mut cx = context();
    let mut c = cursor(&[1, 2, 3]);
    c.set_position(2);
    assert_eq!(ready(c.poll_write(&mut cx, &[7, 8])), 2);
    assert_eq!(c.get_ref(), &vec![1, 2, 7, 8]);
    c.set_position(6);
    assert_eq!(ready(c.poll_write(&mut cx, &[9])), 1);
    assert_eq!(c.get_ref(), &vec![1, 2, 7, 8, 0, 0, 9]);
    ready(c.poll_flush(&mut cx));
    ready(c.poll_close(&mut cx));
    let mut bytes = [0; 3];
    let mut pos = 2;
    assert_eq!(slice_write(&mut bytes, &mut pos, &[5, 6]), 1);
    assert_eq!((bytes, pos), ([0, 0, 5], 3));
    assert_eq!(slice_write(&mut bytes, &mut pos, &[5, 6]), 0);
}

#[test]
fn plain_streams() {
    let mut cx = context();
    let mut buf = [1; 3];
    assert_eq!(ready(repeat(9).poll_read(&mut cx, &mut buf)), 3);
    assert_eq!(buf, [9, 9, 9]);
    assert_eq!(ready(empty().poll_read(&mut cx, &mut buf)), 0);
    assert_eq!(ready(empty().poll_fill_buf(&mut cx)), &[]);
    assert_eq!(ready(sink().poll_write(&mut cx, &[1, 2])), 2);
    let mut blocking = BlockOn::new(5);
    *blocking.get_mut() += 1;
    assert_eq!(*blocking.get_ref(), 6);
    assert_eq!(blocking.into_inner(), 6);
}

#[test]
fn stream_that_does_not_block() {
    let mut cx = context();
    let bytes = [1, 2, 3];
    let mut io = AssertAsync::new(SliceReader::new(&bytes));
    let mut buf = [0; 2];
    assert_eq!(ready(io.poll_read(&mut cx, &mut buf)), 2);
    assert_eq!(buf, [1, 2]);
    let mut out = AssertAsync::new(Collector::new(5));
    assert_eq!(ready(out.poll_write(&mut cx, &[4, 5])), 2);
    ready(out.poll_flush(&mut cx));
    ready(out.poll_close(&mut cx));
    assert_eq!(out.get_ref().bytes, vec![4, 5]);
    out.get_mut().bytes.clear();
    assert_eq!(out.into_inner().write(&[1]).ok(), Some(1));
}

#[test]
fn buffered_reader_loses_nothing() {
    let mut cx = context();
    let mut r = BufferReader::with_capacity(3, cursor(&[1, 2, 3, 4, 5, 6, 7]));
    assert_eq!(ready(r.poll_fill_buf(&mut cx)), &[1, 2, 3]);
    r.consume(1);
    assert_eq!(r.buffer(), &[2, 3]);
    let mut buf = [0; 9];
    assert_eq!(ready(r.poll_read(&mut cx, &mut buf)), 2);
    assert_eq!(&buf[..2], &[2, 3]);
    // What does not fit into the buffer goes past it.
    assert_eq!(ready(r.poll_read(&mut cx, &mut buf)), 4);
    assert_eq!(&buf[..4], &[4, 5, 6, 7]);
    assert_eq!(ready(r.poll_read(&mut cx, &mut buf)), 0);
    assert_eq!(r.get_ref().position(), 7);
    r.get_mut().set_position(0);
    assert_eq!(r.into_inner().position(), 0);
}

#[test]
fn buffered_reader_goes_to_a_position() {
    let mut cx = context();
    let mut r = BufferReader::with_capacity(3, cursor(&[1, 2, 3, 4, 5, 6, 7]));
    ready(r.poll_fill_buf(&mut cx));
    r.consume(1);
    assert_eq!(ready(r.poll_seek(&mut cx, SeekFrom::Current(1))), 2);
    assert_eq!(r.buffer(), &[]);
    assert_eq!(ready(r.poll_fill_buf(&mut cx)), &[3, 4, 5]);
    assert_eq!(ready(r.poll_seek(&mut cx, SeekFrom::Start(6))), 6);
    assert_eq!(ready(r.poll_fill_buf(&mut cx)), &[7]);
}

#[test]
fn buffered_writer_writes_when_it_is_full() {
    let mut cx = context();
    let mut w = BufferWriter::with_capacity(4, narrow(100));
    assert_eq!(ready(w.poll_write(&mut cx, &[1, 2, 3])), 3);
    assert_eq!(w.get_ref().get_ref().bytes, vec![]);
    assert_eq!(w.buffer(), &[1, 2, 3]);
    assert_eq!(ready(w.poll_write(&mut cx, &[4, 5])), 2);
    assert_eq!(w.get_ref().get_ref().bytes, vec![1, 2, 3]);
    // What does not fit into the buffer goes past it.
    assert_eq!(ready(w.poll_write(&mut cx, &[6, 7, 8, 9])), 4);
    assert_eq!(w.get_ref().get_ref().bytes, vec![1, 2, 3, 4, 5, 6, 7, 8, 9]);
    assert_eq!(ready(w.poll_write(&mut cx, &[10])), 1);
    ready(w.poll_flush(&mut cx));
    assert_eq!(w.get_ref().get_ref().bytes.len(), 10);
    assert_eq!(ready(w.poll_write(&mut cx, &[11])), 1);
    ready(w.poll_close(&mut cx));
    assert_eq!(w.into_inner().into_inner().bytes.len(), 11);
}

#[test]
fn buffered_writer_that_cannot_write() {
    let mut cx = context();
    let mut w = BufferWriter::with_capacity(4, narrow(1));
    assert_eq!(ready(w.poll_write(&mut cx, &[1, 2, 3])), 3);
    let e = failed(w.poll_flush(&mut cx));
    assert_eq!(e.kind(), ErrorKind::WriteZero);
    assert_eq!(e.text, "Failed to write buffered data");
    assert_eq!(w.buffer(), &[2, 3]);
}

#[test]
fn buffered_writer_goes_to_a_position() {
    let mut cx = context();
    let mut w = BufferWriter::new(cursor(&[]));
    assert_eq!(ready(w.poll_write(&mut cx, &[1, 2, 3])), 3);
    assert_eq!(ready(w.poll_seek(&mut cx, SeekFrom::Start(1))), 1);
    assert_eq!(ready(w.poll_write(&mut cx, &[9])), 1);
    ready(w.poll_flush(&mut cx));
    assert_eq!(w.into_inner().into_inner(), vec![1, 9, 3]);
}

#[test]
fn read_until_a_byte() {
    let mut cx = context();
    let mut r = BufferReader::with_capacity(2, cursor(b"ab,cd,e"));
    let mut buf = Vec::new();
    assert_eq!(ready(r.read_until(b',').poll(&mut r, &mut cx, &mut buf)), 3);
    assert_eq!(buf, b"ab,");
    assert_eq!(ready(r.read_until(b',').poll(&mut r, &mut cx, &mut buf)), 3);
    assert_eq!(buf, b"ab,cd,");
    assert_eq!(ready(r.read_until(b',').poll(&mut r, &mut cx, &mut buf)), 1);
    assert_eq!(ready(r.read_until(b',').poll(&mut r, &mut cx, &mut buf)), 0);
    assert_eq!(buf, b"ab,cd,e");
}

#[test]
fn read_until_goes_on_where_it_stopped() {
    let mut cx = context();
    let mut r = BufferReader::with_capacity(4, Slow { bytes: b"abc,d".to_vec(), waits: false });
    let mut until = r.read_until(b',');
    let mut buf = Vec::new();
    let mut polls = 0;
    let n = loop {
        polls += 1;
        match until.poll(&mut r, &mut cx, &mut buf) {
            Poll::Pending => {}
            r => break ready(r),
        }
    };
    assert_eq!((n, polls), (4, 3));
    assert_eq!(buf, b"abc,");
}

#[test]
fn read_to_the_end_goes_on_where_it_stopped() {
    let mut cx = context();
    let mut r = Slow { bytes: vec![1, 2, 3, 4, 5], waits: false };
    let mut buf = vec![0];
    let mut end = r.read_to_end(&buf);
    let n = loop {
        match end.poll(&mut r, &mut cx, &mut buf) {
            Poll::Pending => {}
            r => break ready(r),
        }
    };
    assert_eq!(n, 5);
    assert_eq!(buf, vec![0, 1, 2, 3, 4, 5]);
}

#[test]
fn read_exactly_goes_on_where_it_stopped() {
    let mut cx = context();
    let mut slow = Slow { bytes: vec![6, 7, 8, 9], waits: false };
    let mut exact = slow.read_exact();
    let mut buf = [0; 3];
    assert!(exact.poll(&mut slow, &mut cx, &mut buf).is_pending());
    assert!(exact.poll(&mut slow, &mut cx, &mut buf).is_pending());
    ready(exact.poll(&mut slow, &mut cx, &mut buf));
    assert_eq!(buf, [6, 7, 8]);
}

#[test]
fn fill_buf_gives_what_is_there() {
    let mut cx = context();
    let mut r = cursor(&[1, 2]);
    assert_eq!(ready(r.fill_buf().poll(&mut r, &mut cx)), &[1, 2]);
}

#[test]
fn read_a_line() {
    let mut cx = context();
    let mut r = cursor("h\u{e9}\nx".as_bytes());
    let mut line = String::new();
    assert_eq!(ready(r.read_line().poll(&mut r, &mut cx, &mut line)), 4);
    assert_eq!(line, "h\u{e9}\n");
    line.clear();
    assert_eq!(ready(r.read_line().poll(&mut r, &mut cx, &mut line)), 1);
    assert_eq!(line, "x");
    let mut bad = cursor(&[0xff, b'\n']);
    line.clear();
    let e = failed(bad.read_line().poll(&mut bad, &mut cx, &mut line));
    assert_eq!(e.kind(), ErrorKind::InvalidData);
    assert_eq!(e.text, "stream did not contain valid UTF-8");
    assert_eq!(line, "");
}

#[test]
fn lines_come_without_their_ends() {
    let mut cx = context();
    let mut lines = cursor(b"a\r\n\nb\rc\nd").lines();
    let mut all = Vec::new();
    while let Poll::Ready(Some(line)) = lines.poll_next(&mut cx) {
        all.push(line.ok().unwrap());
    }
    assert_eq!(all, vec!["a", "", "b\rc", "d"]);
}

#[test]
fn split_at_a_byte() {
    let mut cx = context();
    let mut parts = cursor(b"a,,bc").split(b',');
    let mut all = Vec::new();
    while let Poll::Ready(Some(part)) = parts.poll_next(&mut cx) {
        all.push(part.ok().unwrap());
    }
    assert_eq!(all, vec![b"a".to_vec(), b"".to_vec(), b"bc".to_vec()]);
}

#[test]
fn read_to_the_end() {
    let mut cx = context();
    let bytes: Vec<u8> = (0..100).collect();
    let mut r = cursor(&bytes);
    let mut buf = vec![200];
    let n = ready(r.read_to_end(&buf).poll(&mut r, &mut cx, &mut buf));
    assert_eq!(n, 100);
    assert_eq!(&buf[..1], &[200]);
    assert_eq!(&buf[1..], &bytes[..]);
}

#[test]
fn read_a_string() {
    let mut cx = context();
    let mut r = cursor("h\u{e9}".as_bytes());
    let mut s = String::new();
    assert_eq!(ready(r.read_to_string().poll(&mut r, &mut cx, &mut s)), 3);
    assert_eq!(s, "h\u{e9}");
    let mut bad = cursor(&[0xc3]);
    let e = failed(bad.read_to_string().poll(&mut bad, &mut cx, &mut s));
    assert_eq!(e.kind(), ErrorKind::InvalidData);
    assert_eq!(e.text, "stream did not contain valid UTF-8");
}

#[test]
fn read_exactly() {
    let mut cx = context();
    let mut r = cursor(&[1, 2, 3, 4, 5]);
    let mut buf = [0; 3];
    ready(r.read_exact().poll(&mut r, &mut cx, &mut buf));
    assert_eq!(buf, [1, 2, 3]);
    let e = failed(r.read_exact().poll(&mut r, &mut cx, &mut buf));
    assert_eq!(e.kind(), ErrorKind::UnexpectedEof);
    let mut some = [0; 2];
    let mut c = cursor(&[1]);
    assert_eq!(ready(c.read().poll(&mut c, &mut cx, &mut some)), 1);
}

#[test]
fn take_ends_at_the_limit() {
    let mut cx = context();
    let mut t = cursor(&[1, 2, 3, 4, 5]).take(3);
    let mut buf = [0; 2];
    assert_eq!(ready(t.poll_read(&mut cx, &mut buf)), 2);
    assert_eq!(t.limit(), 1);
    assert_eq!(ready(t.poll_fill_buf(&mut cx)), &[3]);
    t.consume(1);
    assert_eq!(ready(t.poll_read(&mut cx, &mut buf)), 0);
    t.set_limit(1);
    assert_eq!(ready(t.poll_read(&mut cx, &mut buf)), 1);
    assert_eq!(buf[0], 4);
    assert_eq!(t.get_ref().position(), 4);
    t.get_mut().set_position(0);
    assert_eq!(t.into_inner().position(), 0);
}

#[test]
fn bytes_one_by_one() {
    let mut cx = context();
    let mut b = cursor(&[7, 8]).bytes();
    assert!(matches!(b.poll_next(&mut cx), Poll::Ready(Some(Ok(7)))));
    assert!(matches!(b.poll_next(&mut cx), Poll::Ready(Some(Ok(8)))));
    assert!(matches!(b.poll_next(&mut cx), Poll::Ready(None)));
}

#[test]
fn chain_reads_one_after_the_other() {
    let mut cx = context();
    let mut c = cursor(&[1, 2]).chain(cursor(&[3]));
    let mut buf = [0; 9];
    assert_eq!(ready(c.poll_read(&mut cx, &mut buf)), 2);
    assert_eq!(ready(c.poll_read(&mut cx, &mut [])), 0);
    assert_eq!(ready(c.poll_read(&mut cx, &mut buf)), 1);
    assert_eq!(buf[0], 3);
    assert_eq!(ready(c.poll_read(&mut cx, &mut buf)), 0);
    c.get_mut().1.set_position(0);
    assert_eq!(ready(c.poll_fill_buf(&mut cx)), &[3]);
    c.consume(1);
    assert_eq!(c.get_ref().0.position(), 2);
    let (first, second) = c.into_inner();
    assert_eq!((first.position(), second.position()), (2, 1));
}

#[test]
fn write_everything() {
    let mut cx = context();
    let mut w = narrow(100);
    ready(w.write_all().poll(&mut w, &mut cx, &[1, 2, 3, 4, 5, 6, 7]));
    assert_eq!(w.get_ref().bytes, vec![1, 2, 3, 4, 5, 6, 7]);
    assert_eq!(ready(w.write().poll(&mut w, &mut cx, &[8, 9])), 2);
    ready(w.flush().poll(&mut w, &mut cx));
    ready(w.close().poll(&mut w, &mut cx));
    assert_eq!(w.get_ref().bytes.len(), 9);
    let mut full = narrow(2);
    assert_eq!(ready(full.write().poll(&mut full, &mut cx, &[1, 2, 3])), 2);
    let e = failed(full.write_all().poll(&mut full, &mut cx, &[3]));
    assert_eq!(e.kind(), ErrorKind::WriteZero);
}

#[test]
fn write_goes_on_where_it_stopped() {
    let mut cx = context();
    let mut w = picky();
    let mut all = w.write_all();
    let mut polls = 0;
    loop {
        polls += 1;
        match all.poll(&mut w, &mut cx, &[1, 2, 3, 4, 5, 6, 7]) {
            Poll::Pending => {}
            r => break ready(r),
        }
    }
    assert_eq!(polls, 4);
    assert_eq!(w.bytes, vec![1, 2, 3, 4, 5, 6, 7]);
}

#[test]
fn buffered_writer_loses_nothing() {
    let mut cx = context();
    let mut w = BufferWriter::with_capacity(5, picky());
    let mut next: u8 = 0;
    while next < 40 {
        let chunk: Vec<u8> = (next..40).take(4).collect();
        match w.poll_write(&mut cx, &chunk) {
            Poll::Pending => {}
            r => next += ready(r) as u8,
        }
    }
    while w.poll_flush(&mut cx).is_pending() {}
    assert_eq!(w.get_ref().bytes, (0..40).collect::<Vec<u8>>());
    assert!(w.get_ref().flushed);
}

#[test]
fn copy_goes_on_where_it_stopped() {
    let mut cx = context();
    let slow = Slow { bytes: (0..30).collect(), waits: false };
    let mut c = copy(slow, picky());
    let n = loop {
        match c.poll(&mut cx) {
            Poll::Pending => {}
            r => break ready(r),
        }
    };
    assert_eq!(n, 30);
    assert_eq!(c.writer.bytes, (0..30).collect::<Vec<u8>>());
    assert!(c.writer.flushed);
}

#[test]
fn copy_everything() {
    let mut cx = context();
    let bytes: Vec<u8> = (0..50).collect();
    let mut c = copy(cursor(&bytes), narrow(100));
    assert_eq!(ready(c.poll(&mut cx)), 50);
    assert_eq!(c.writer.get_ref().bytes, bytes);
    let mut full = copy(cursor(&bytes), narrow(10));
    assert_eq!(failed(full.poll(&mut cx)).kind(), ErrorKind::WriteZero);
}

#[test]
fn vectored_reads_and_writes() {
    let mut cx = context();
    let mut r = cursor(&[1, 2, 3, 4, 5]);
    let mut bufs = vec![vec![0; 2], vec![], vec![0; 2]];
    assert_eq!(ready(r.read_vectored().poll(&mut r, &mut cx, &mut bufs)), 4);
    assert_eq!(bufs, vec![vec![1, 2], vec![], vec![3, 4]]);
    assert_eq!(ready(r.poll_read_vectored(&mut cx, &mut bufs)), 1);
    assert_eq!(bufs[0], vec![5, 2]);
    let mut buffered = BufferReader::with_capacity(8, cursor(&[1, 2, 3]));
    assert_eq!(ready(buffered.poll_read_vectored(&mut cx, &mut bufs)), 3);
    assert_eq!(bufs, vec![vec![1, 2], vec![], vec![3, 4]]);
    let mut chained: Chain<_, _> = cursor(&[9]).chain(cursor(&[8, 7]));
    assert_eq!(ready(chained.poll_read_vectored(&mut cx, &mut bufs)), 1);
    assert_eq!(ready(chained.poll_read_vectored(&mut cx, &mut bufs)), 2);
    assert_eq!(bufs[0], vec![8, 7]);
    let mut w = narrow(9);
    let out = vec![vec![], vec![4, 5], vec![6]];
    assert_eq!(ready(w.write_vectored().poll(&mut w, &mut cx, &out)), 3);
    assert_eq!(w.get_ref().bytes, vec![4, 5, 6]);
}

#[test]
fn each_writer_writes_buffers_its_own_way() {
    let mut cx = context();
    let out = vec![vec![], vec![4, 5], vec![6, 7]];
    let mut room = [0u8; 3];
    {
        let mut all = Cursor::new(&mut room[..]);
        assert_eq!(ready(all.write_vectored().poll(&mut all, &mut cx, &out)), 3);
        assert_eq!(all.position(), 3);
        assert_eq!(ready(all.poll_write_vectored(&mut cx, &out)), 0);
    }
    assert_eq!(room, [4, 5, 6]);
    let mut first = Cursor::new(Vec::new());
    assert_eq!(ready(first.write_vectored().poll(&mut first, &mut cx, &out)), 2);
    assert_eq!(first.get_ref(), &vec![4, 5]);
    let mut bytes = vec![9u8];
    {
        let mut borrowed = Cursor::new(&mut bytes);
        assert_eq!(ready(borrowed.poll_write_vectored(&mut cx, &out)), 2);
    }
    assert_eq!(bytes, vec![4, 5]);
    assert_eq!(ready(sink().poll_write_vectored(&mut cx, &out)), 2);
    let mut buffered = BufferWriter::with_capacity(8, Cursor::new(Vec::new()));
    assert_eq!(ready(buffered.poll_write_vectored(&mut cx, &out)), 2);
    assert_eq!(buffered.buffer(), &[4, 5]);
    let mut blocking = narrow(3);
    assert_eq!(ready(blocking.poll_write_vectored(&mut cx, &out)), 3);
    assert_eq!(blocking.get_ref().bytes, vec![4, 5, 6]);
    let mut collector = Collector::new(9);
    assert_eq!(collector.write_vectored(&out).unwrap(), 4);
    assert_eq!(collector.bytes, vec![4, 5, 6, 7]);
    let none: Vec<Vec<u8>> = vec![vec![], vec![]];
    assert_eq!(ready(first.poll_write_vectored(&mut cx, &none)), 0);
    assert_eq!(ready(write_first(&mut blocking, &mut cx, &none)), 0);
}

#[test]
fn each_reader_fills_buffers_its_own_way() {
    let mut cx = context();
    let mut bufs = vec![vec![], vec![0; 2], vec![0; 2]];
    let mut limited = cursor(&[1, 2, 3, 4]).take(3);
    assert_eq!(ready(limited.poll_read_vectored(&mut cx, &mut bufs)), 2);
    assert_eq!(bufs, vec![vec![], vec![1, 2], vec![0, 0]]);
    assert_eq!(ready(limited.poll_read_vectored(&mut cx, &mut bufs)), 1);
    assert_eq!(bufs[1], vec![3, 2]);
    assert_eq!(ready(limited.poll_read_vectored(&mut cx, &mut bufs)), 0);
    assert_eq!(ready(empty().poll_read_vectored(&mut cx, &mut bufs)), 0);
    assert_eq!(ready(repeat(7).poll_read_vectored(&mut cx, &mut bufs)), 2);
    assert_eq!(bufs, vec![vec![], vec![7, 7], vec![0, 0]]);
    let data = [1u8, 2, 3];
    let mut blocking = AssertAsync::new(SliceReader::new(&data));
    assert_eq!(ready(blocking.poll_read_vectored(&mut cx, &mut bufs)), 3);
    assert_eq!(bufs, vec![vec![], vec![1, 2], vec![3, 0]]);
    let mut plain = SliceReader::new(&data);
    let mut three = vec![vec![0; 1], vec![0; 1]];
    assert_eq!(plain.read_vectored(&mut three).unwrap(), 2);
    assert_eq!(three, vec![vec![1], vec![2]]);
    let mut none: Vec<Vec<u8>> = vec![];
    assert_eq!(ready(read_first(&mut cursor(&[1]), &mut cx, &mut none)), 0);
}

#[test]
fn cursor_writes_over_what_it_borrows() {
    let mut cx = context();
    let mut fixed = [1u8, 2, 3, 4];
    {
        let mut c = Cursor::new(&mut fixed[..]);
        c.set_position(1);
        assert_eq!(ready(c.poll_write(&mut cx, &[8, 9])), 2);
        assert_eq!(ready(c.poll_write(&mut cx, &[5, 6])), 1);
        assert_eq!(ready(c.poll_write(&mut cx, &[7])), 0);
        c.set_position(99);
        assert_eq!(ready(c.poll_write(&mut cx, &[7])), 0);
        ready(c.poll_flush(&mut cx));
        ready(c.poll_close(&mut cx));
    }
    assert_eq!(fixed, [1, 8, 9, 5]);
    let mut grows = vec![1u8, 2];
    {
        let mut c = Cursor::new(&mut grows);
        c.set_position(1);
        assert_eq!(ready(c.poll_write(&mut cx, &[8, 9])), 2);
        c.set_position(5);
        assert_eq!(ready(c.poll_write(&mut cx, &[7])), 1);
        assert_eq!(c.position(), 6);
    }
    assert_eq!(grows, vec![1, 8, 9, 0, 0, 7]);
}

#[test]
fn lines_go_on_after_one_that_is_no_text() {
    let mut cx = context();
    let mut lines = cursor(b"a\n\xff\xfe\nb\n").lines();
    assert_eq!(poll_line(lines.poll_next(&mut cx)), Some("a".to_string()));
    match lines.poll_next(&mut cx) {
        Poll::Ready(Some(Err(e))) => assert_eq!(e.kind(), ErrorKind::InvalidData),
        _ => panic!("no error"),
    }
    assert_eq!((lines.read, lines.bytes.len()), (0, 0));
    assert_eq!(poll_line(lines.poll_next(&mut cx)), Some("b".to_string()));
    assert_eq!(poll_line(lines.poll_next(&mut cx)), None);
}

fn poll_line(r: Poll<Option<Result<String, Error>>>) -> Option<String> {
    match r {
        Poll::Ready(Some(Ok(line))) => Some(line),
        Poll::Ready(None) => None,
        _ => panic!("no line"),
    }
}

#[test]
fn byte_comes_though_bytes_come_for_ever() {
    let mut cx = context();
    let mut reader = BufferReader::with_capacity(4, repeat(7));
    let mut buf = Vec::new();
    assert_eq!(ready(reader.read_until(7).poll(&mut reader, &mut cx, &mut buf)), 1);
    assert_eq!(buf, vec![7]);
    let mut parts = BufferReader::with_capacity(4, repeat(7)).split(7);
    for _ in 0..5 {
        assert!(matches!(parts.poll_next(&mut cx), Poll::Ready(Some(Ok(p))) if p.is_empty()));
    }
    let mut lines = BufferReader::with_capacity(4, repeat(10)).lines();
    for _ in 0..5 {
        assert_eq!(poll_line(lines.poll_next(&mut cx)), Some(String::new()));
    }
}

#[test]
fn copying_for_ever_ends_where_there_is_no_room() {
    let mut cx = context();
    let mut room = [0u8; 10];
    {
        let mut copying = copy(repeat(3), Cursor::new(&mut room[..]));
        assert_eq!(failed(copying.poll(&mut cx)).kind(), ErrorKind::WriteZero);
        assert_eq!(copying.amt, 10);
    }
    assert_eq!(room, [3; 10]);
}
