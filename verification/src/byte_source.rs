//! A buffered reader of bytes with a push-back of one byte.

use vstd::prelude::*;

verus! {

/// The number of bytes that one read of the underlying stream asks for.
pub const BUFFER_SIZE: usize = 32768;

/// The number of failed reads in a row after which the stream counts as ended.
pub const READ_ATTEMPTS: usize = usize::MAX;

/// What a read of the stream comes to.
#[derive(Clone, Copy, Debug, PartialEq, Eq)]
pub enum Block {
    /// The read failed and is to be tried again.
    Again,
    /// The stream has ended.
    Ended,
    /// The read left this many bytes at the start of the buffer.
    Filled(usize),
}

/// What the answer of a read comes to, for a buffer of `capacity` bytes: a
/// failed read is tried again, a read of no bytes is the end of the stream,
/// and any other read has filled the buffer as far as it says, and no further
/// than the buffer goes.
pub open spec fn block_of(answer: Option<usize>, capacity: usize) -> Block {
    match answer {
        None => Block::Again,
        Some(n) => if n == 0 {
            Block::Ended
        } else if n <= capacity {
            Block::Filled(n)
        } else {
            Block::Filled(capacity)
        },
    }
}

/// What the answer of a read comes to, for a buffer of `capacity` bytes.
pub fn next_block(answer: Option<usize>, capacity: usize) -> (b: Block)
    ensures
        b == block_of(answer, capacity),
{
    match answer {
        None => Block::Again,
        Some(n) => {
            if n == 0 {
                Block::Ended
            } else if n <= capacity {
                Block::Filled(n)
            } else {
                Block::Filled(capacity)
            }
        },
    }
}

/// What a byte source is to its user.
pub struct SourceView {
    /// The byte that was pushed back and comes next, if any.
    pub pending: Option<u8>,
    /// The byte that the last `get` handed out, if it handed one out: the byte
    /// that `unget` pushes back.
    pub last: Option<u8>,
    /// The block of bytes that the last read left, whole.
    pub block: Seq<u8>,
    /// The bytes of the block that are not handed out yet.
    pub window: Seq<u8>,
    /// Every byte of the stream handed out so far, each once, oldest first.
    pub taken: Seq<u8>,
    /// What each read of the stream so far came to, oldest first.
    pub answers: Seq<Block>,
}

/// The reads that a `get` makes when no byte is at hand: failed reads, as many
/// as come, and then the one that decides; or failed reads alone, until the
/// source gives up.
pub open spec fn is_refill(tries: Seq<Block>) -> bool {
    &&& 1 <= tries.len() <= READ_ATTEMPTS
    &&& forall|i: int| 0 <= i < tries.len() - 1 ==> (#[trigger] tries[i]) is Again
    &&& tries.last() is Again ==> tries.len() == READ_ATTEMPTS
}

impl SourceView {
    /// A source from which nothing was read yet.
    pub open spec fn fresh() -> SourceView {
        SourceView {
            pending: None,
            last: None,
            block: seq![],
            window: seq![],
            taken: seq![],
            answers: seq![],
        }
    }

    /// A byte that is pushed back is the byte that was handed out last.
    pub open spec fn wf(self) -> bool {
        self.pending is Some ==> self.last == self.pending
    }

    /// `after` and `r` are the outcome of `get` on `self`, for what the reads
    /// of the stream answer.
    ///
    /// A byte that was pushed back comes first. Then come the bytes of the
    /// block that are not handed out yet, in their order, and no read is
    /// made. With none at hand the stream is read: a failed read is tried
    /// again, a read of no bytes is the end of the stream and gives nothing,
    /// and any other read leaves a new block, whose first byte is handed out.
    pub open spec fn get(self, after: SourceView, r: Option<u8>) -> bool {
        match self.pending {
            Some(byte) => r == Some(byte) && after == (SourceView { pending: None, ..self }),
            None => if self.window.len() > 0 {
                &&& r == Some(self.window[0])
                &&& after == (SourceView {
                    last: r,
                    window: self.window.skip(1),
                    taken: self.taken.push(self.window[0]),
                    ..self
                })
            } else {
                let tries = after.answers.skip(self.answers.len() as int);
                &&& after.pending is None
                &&& self.answers.is_prefix_of(after.answers)
                &&& is_refill(tries)
                &&& match tries.last() {
                    Block::Filled(n) => {
                        &&& after.block.len() == n
                        &&& n > 0
                        &&& r == Some(after.block[0])
                        &&& after.window == after.block.skip(1)
                        &&& after.last == r
                        &&& after.taken == self.taken.push(after.block[0])
                    },
                    _ => {
                        &&& r is None
                        &&& after.block.len() == 0
                        &&& after.window.len() == 0
                        &&& after.last is None
                        &&& after.taken == self.taken
                    },
                }
            },
        }
    }

    /// The source after `unget`: the byte handed out last comes next once more.
    pub open spec fn unget(self) -> SourceView
        recommends
            self.last is Some,
    {
        SourceView { pending: self.last, ..self }
    }
}

/// A `get`, an `unget` and a second `get` hand out the same byte twice, and the
/// second `get` takes nothing from the stream.
pub proof fn lemma_get_unget_get(
    start: SourceView,
    got: SourceView,
    byte: u8,
    again: SourceView,
    r: Option<u8>,
)
    requires
        start.wf(),
        start.get(got, Some(byte)),
        got.unget().get(again, r),
    ensures
        r == Some(byte),
        again == got,
{
}

/// Between `before` and `after` the stream was read, and the last read left no
/// block: the stream has ended, or the source gave up on it.
pub open spec fn ran_dry(before: SourceView, after: SourceView) -> bool {
    &&& before.answers.is_prefix_of(after.answers)
    &&& after.answers.len() > before.answers.len()
    &&& !(after.answers.last() is Filled)
}

/// What every `get` comes to, whatever it reads: nothing is pushed back after
/// it; a byte that it hands out is the byte handed out last, and is taken
/// from the stream unless it was pushed back; nothing is handed out only with
/// no byte at hand and after a read that left no block, and then nothing is
/// taken.
pub proof fn lemma_get_outcome(before: SourceView, after: SourceView, r: Option<u8>)
    requires
        before.wf(),
        before.get(after, r),
    ensures
        after.pending is None,
        after.wf(),
        r matches Some(byte) ==> after.last == r && after.taken == if before.pending is Some {
            before.taken
        } else {
            before.taken.push(byte)
        },
        r is None ==> before.pending is None && before.window.len() == 0 && after.last is None
            && after.window.len() == 0 && after.taken == before.taken,
        r is None ==> ran_dry(before, after),
        before.answers.is_prefix_of(after.answers),
        before.pending matches Some(byte) ==> r == Some(byte),
{
    if before.pending is None && before.window.len() == 0 {
        let tries = after.answers.skip(before.answers.len() as int);
        assert(tries.last() == after.answers.last());
    }
}

/// The bytes of a block come out once each and in their order: after a `get`
/// that handed out a byte with `rest` still to come, as many further calls of
/// `get` as `rest` is long hand out `rest`, and none of them reads the stream.
pub proof fn lemma_window_comes_out(before: SourceView, after: SourceView, r: Option<u8>)
    requires
        before.pending is None,
        before.window.len() > 0,
        before.get(after, r),
    ensures
        r == Some(before.window[0]),
        after.window == before.window.skip(1),
        after.taken == before.taken.push(before.window[0]),
        after.answers == before.answers,
        after.block == before.block,
        after.pending is None,
{
}

/// `std::io::Read::read` on the whole buffer: the number of bytes that the
/// stream put at its start, or nothing where the read failed. The buffer
/// keeps its length.
#[verifier::external_body]
fn read_some<R: std::io::Read>(source: &mut R, buffer: &mut Vec<u8>) -> (r: Option<usize>)
    ensures
        final(buffer)@.len() == old(buffer)@.len(),
{
    match source.read(&mut buffer[..]) {
        Ok(n) => Some(n),
        Err(_) => None,
    }
}

/// Reads the stream once into the whole buffer and notes what the read came to.
fn read_block<R: std::io::Read>(
    source: &mut R,
    buffer: &mut Vec<u8>,
    answers: &mut Ghost<Seq<Block>>,
) -> (block: Block)
    requires
        old(buffer)@.len() > 0,
    ensures
        final(buffer)@.len() == old(buffer)@.len(),
        final(answers)@ == old(answers)@.push(block),
        block matches Block::Filled(n) ==> 0 < n <= old(buffer)@.len(),
{
    let capacity = buffer.len();
    let block = next_block(read_some(source, buffer), capacity);
    proof {
        answers@ = answers@.push(block);
    }
    block
}

/// A reader of single bytes over a stream, which reads ahead in blocks and
/// takes back the byte that it handed out last.
pub struct ByteSource<R> {
    source: R,
    unget_byte: Option<u8>,
    buffer: Vec<u8>,
    i: usize,
    limit: usize,
    taken: Ghost<Seq<u8>>,
    answers: Ghost<Seq<Block>>,
}

impl<R> View for ByteSource<R> {
    type V = SourceView;

    closed spec fn view(&self) -> SourceView {
        SourceView {
            pending: self.unget_byte,
            last: if 0 < self.i <= self.buffer@.len() {
                Some(self.buffer@[self.i - 1])
            } else {
                None
            },
            block: if self.limit <= self.buffer@.len() {
                self.buffer@.take(self.limit as int)
            } else {
                seq![]
            },
            window: if self.i <= self.limit <= self.buffer@.len() {
                self.buffer@.subrange(self.i as int, self.limit as int)
            } else {
                seq![]
            },
            taken: self.taken@,
            answers: self.answers@,
        }
    }
}

impl<R: std::io::Read> ByteSource<R> {
    /// The indices into the buffer are in order, and a byte that is pushed back
    /// is the byte that was handed out last.
    pub closed spec fn wf(&self) -> bool {
        &&& self.i <= self.limit <= self.buffer@.len()
        &&& self.buffer@.len() == BUFFER_SIZE
        &&& self@.wf()
    }

    /// In a well-formed byte source a byte that is pushed back is the byte that
    /// was handed out last.
    pub proof fn lemma_view_wf(&self)
        requires
            self.wf(),
        ensures
            self@.wf(),
    {
    }

    /// A byte source over `source`, from which nothing was read yet.
    pub fn new(source: R) -> (s: Self)
        ensures
            s.wf(),
            s@ == SourceView::fresh(),
    {
        let s = ByteSource {
            source,
            unget_byte: None,
            buffer: vec![0u8; BUFFER_SIZE],
            i: 0,
            limit: 0,
            taken: Ghost(Seq::empty()),
            answers: Ghost(Seq::empty()),
        };
        proof {
            assert(s@.window =~= Seq::<u8>::empty());
            assert(s@.block =~= Seq::<u8>::empty());
        }
        s
    }

    /// Reads the next block from the stream. A failed read is tried again. A
    /// read of no bytes is the end of the stream.
    fn refill(&mut self) -> (found: bool)
        requires
            old(self).wf(),
            old(self).unget_byte is None,
            old(self).i >= old(self).limit,
        ensures
            final(self).wf(),
            final(self).unget_byte is None,
            final(self).taken@ == old(self).taken@,
            final(self).i == 0,
            old(self).answers@.is_prefix_of(final(self).answers@),
            is_refill(final(self).answers@.skip(old(self).answers@.len() as int)),
            found <==> final(self).answers@.last() is Filled,
            found ==> final(self).answers@.last() == Block::Filled(final(self).limit)
                && final(self).limit > 0,
            !found ==> final(self).limit == 0,
    {
        self.i = 0;
        self.limit = 0;
        let ghost before = self.answers@;
        let mut attempts: usize = 0;
        while attempts < READ_ATTEMPTS
            invariant
                self.wf(),
                self.unget_byte is None,
                self.i == 0,
                self.limit == 0,
                self.taken@ == old(self).taken@,
                before == old(self).answers@,
                self.answers@ == before + Seq::new(attempts as nat, |i: int| Block::Again),
            decreases READ_ATTEMPTS - attempts,
        {
            let block = read_block(&mut self.source, &mut self.buffer, &mut self.answers);
            proof {
                let tries = self.answers@.skip(before.len() as int);
                assert(tries =~= Seq::new(attempts as nat, |i: int| Block::Again).push(block));
            }
            attempts = attempts + 1;
            match block {
                Block::Again => {
                    proof {
                        assert(self.answers@ =~= before + Seq::new(
                            attempts as nat,
                            |i: int| Block::Again,
                        ));
                    }
                },
                Block::Ended => {
                    return false;
                },
                Block::Filled(n) => {
                    self.limit = n;
                    return true;
                },
            }
        }
        proof {
            let tries = self.answers@.skip(before.len() as int);
            assert(tries =~= Seq::new(attempts as nat, |i: int| Block::Again));
        }
        false
    }

    /// The next byte: the byte that was pushed back, if there is one, else the
    /// next byte of the stream; nothing when the stream has ended.
    pub fn get(&mut self) -> (r: Option<u8>)
        requires
            old(self).wf(),
        ensures
            final(self).wf(),
            old(self)@.get(final(self)@, r),
    {
        if let Some(byte) = self.unget_byte {
            self.unget_byte = None;
            return Some(byte);
        }
        if self.i >= self.limit {
            proof {
                assert(old(self)@.window =~= Seq::<u8>::empty());
            }
            if !self.refill() {
                proof {
                    assert(self@.window =~= Seq::<u8>::empty());
                    assert(self@.block =~= Seq::<u8>::empty());
                }
                return None;
            }
            let byte = self.buffer[0];
            self.i = 1;
            proof {
                self.taken@ = self.taken@.push(byte);
                assert(self@.window =~= self@.block.skip(1));
            }
            return Some(byte);
        }
        let byte = self.buffer[self.i];
        self.i = self.i + 1;
        proof {
            self.taken@ = self.taken@.push(byte);
            assert(self@.window =~= old(self)@.window.skip(1));
        }
        Some(byte)
    }

    /// Pushes back the byte that the last `get` handed out.
    pub fn unget(&mut self)
        requires
            old(self).wf(),
            old(self)@.last is Some,
        ensures
            final(self).wf(),
            final(self)@ == old(self)@.unget(),
    {
        self.unget_byte = Some(self.buffer[self.i - 1]);
    }
}

} // verus!
