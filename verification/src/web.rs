//! Reading a stream of a browser, which hands out its bytes in chunks of any size.

use vstd::prelude::*;

verus! {

/// What a browser answers to a read, with `E` for a value that it throws.
#[derive(Debug)]
pub enum Answer<E> {
    /// The read failed.
    Failed(E),
    /// The answer does not tell whether the stream has ended.
    NoDone(E),
    /// Whether the stream has ended is told by something other than a boolean.
    DoneNotBoolean,
    /// The stream has ended.
    Done,
    /// The answer has no chunk.
    NoValue(E),
    /// The next chunk.
    Chunk(Vec<u8>),
}

/// Why a stream could not be read.
#[derive(Debug)]
pub enum ReadError<E> {
    /// The browser threw a value.
    Thrown(E),
    /// Whether the stream has ended is told by something other than a boolean.
    DoneNotBoolean,
}

impl<E> ReadError<E> {
    /// What is said to people where the browser threw no value.
    pub fn label(&self) -> (res: Option<&'static str>)
        ensures
            match self {
                ReadError::Thrown(_) => res is None,
                ReadError::DoneNotBoolean => {
                    &&& res matches Some(text)
                    &&& text@ == "done is not a boolean"@
                },
            },
    {
        match self {
            ReadError::Thrown(_) => None,
            ReadError::DoneNotBoolean => Some("done is not a boolean"),
        }
    }
}

/// The smaller of two sizes.
pub open spec fn smaller(a: nat, b: nat) -> nat {
    if a <= b {
        a
    } else {
        b
    }
}

/// The bytes of a stream that have been read but not handed out.
#[derive(Debug)]
pub struct ReceiveBuffer {
    remaining: Vec<u8>,
}

impl View for ReceiveBuffer {
    type V = Seq<u8>;

    /// The bytes that are left to hand out, in order.
    closed spec fn view(&self) -> Seq<u8> {
        self.remaining@
    }
}

impl ReceiveBuffer {
    pub fn new() -> (res: Self)
        ensures
            res@ == Seq::<u8>::empty(),
    {
        ReceiveBuffer { remaining: Vec::new() }
    }

    /// Hands out bytes that are left, as many as there is room for.
    fn read_from_remaining(&mut self, room: usize) -> (res: Vec<u8>)
        ensures
            res@ == old(self)@.take(smaller(old(self)@.len(), room as nat) as int),
            final(self)@ == old(self)@.skip(smaller(old(self)@.len(), room as nat) as int),
    {
        let n: usize = if self.remaining.len() <= room {
            self.remaining.len()
        } else {
            room
        };
        let mut read: Vec<u8> = Vec::new();
        read.extend_from_slice(vstd::slice::slice_subrange(self.remaining.as_slice(), 0, n));
        let mut left: Vec<u8> = Vec::new();
        left.extend_from_slice(
            vstd::slice::slice_subrange(self.remaining.as_slice(), n, self.remaining.len()),
        );
        assert(read@ =~= self.remaining@.take(n as int));
        assert(left@ =~= self.remaining@.skip(n as int));
        self.remaining = left;
        read
    }

    /// Reads without asking the browser, where bytes are left from the last chunk. Where none are,
    /// the browser has to be asked, and its answer goes to `answered`.
    pub fn poll_read(&mut self, room: usize) -> (res: Option<Vec<u8>>)
        ensures
            match res {
                Some(read) => {
                    &&& old(self)@.len() > 0
                    &&& reads(old(self)@, Seq::empty(), room as nat, read@, final(self)@)
                },
                None => old(self)@.len() == 0 && final(self)@ == old(self)@,
            },
    {
        if self.remaining.len() > 0 {
            Some(self.read_from_remaining(room))
        } else {
            None
        }
    }

    /// The browser has answered. At the end of the stream nothing is read.
    pub fn answered<E>(&mut self, answer: Answer<E>, room: usize) -> (res: Result<
        Vec<u8>,
        ReadError<E>,
    >)
        requires
            old(self)@.len() == 0,
        ensures
            match answer {
                Answer::Chunk(chunk) => {
                    &&& res matches Ok(read)
                    &&& reads(old(self)@, chunk@, room as nat, read@, final(self)@)
                },
                Answer::Done => {
                    &&& res matches Ok(read)
                    &&& read@ == Seq::<u8>::empty()
                    &&& final(self)@ == old(self)@
                },
                Answer::Failed(err) => {
                    &&& res == Err::<Vec<u8>, ReadError<E>>(ReadError::Thrown(err))
                    &&& final(self)@ == old(self)@
                },
                Answer::NoDone(err) => {
                    &&& res == Err::<Vec<u8>, ReadError<E>>(ReadError::Thrown(err))
                    &&& final(self)@ == old(self)@
                },
                Answer::NoValue(err) => {
                    &&& res == Err::<Vec<u8>, ReadError<E>>(ReadError::Thrown(err))
                    &&& final(self)@ == old(self)@
                },
                Answer::DoneNotBoolean => {
                    &&& res == Err::<Vec<u8>, ReadError<E>>(ReadError::DoneNotBoolean)
                    &&& final(self)@ == old(self)@
                },
            },
    {
        match answer {
            Answer::Chunk(chunk) => {
                self.remaining = chunk;
                Ok(self.read_from_remaining(room))
            },
            Answer::Done => Ok(Vec::new()),
            Answer::Failed(err) => Err(ReadError::Thrown(err)),
            Answer::NoDone(err) => Err(ReadError::Thrown(err)),
            Answer::NoValue(err) => Err(ReadError::Thrown(err)),
            Answer::DoneNotBoolean => Err(ReadError::DoneNotBoolean),
        }
    }
}

/// A read with room for `room` bytes has handed out `read`: from the bytes `left` that were left, or
/// if there were none from the next chunk, which is `chunk`. Then `after` are left.
pub open spec fn reads(
    left: Seq<u8>,
    chunk: Seq<u8>,
    room: nat,
    read: Seq<u8>,
    after: Seq<u8>,
) -> bool {
    let source = if left.len() > 0 {
        left
    } else {
        chunk
    };
    let n = smaller(source.len(), room) as int;
    read == source.take(n) && after == source.skip(n)
}

/// The bytes of `parts`, one after the other.
pub open spec fn joined(parts: Seq<Seq<u8>>) -> Seq<u8>
    decreases parts.len(),
{
    if parts.len() == 0 {
        Seq::empty()
    } else {
        joined(parts.drop_last()) + parts.last()
    }
}

/// What is read from a stream are the bytes of its chunks, in order, none of them lost and none
/// twice, however much room each read has. What has not been read is left. A read that does not ask
/// the browser has an empty chunk here.
pub proof fn lemma_bytes_in_order(
    lefts: Seq<Seq<u8>>,
    chunks: Seq<Seq<u8>>,
    rooms: Seq<nat>,
    reads_out: Seq<Seq<u8>>,
)
    requires
        lefts.len() == chunks.len() + 1,
        rooms.len() == chunks.len(),
        reads_out.len() == chunks.len(),
        lefts[0].len() == 0,
        forall|i: int|
            0 <= i < chunks.len() ==> reads(
                lefts[i],
                #[trigger] chunks[i],
                rooms[i],
                reads_out[i],
                lefts[i + 1],
            ) && (lefts[i].len() > 0 ==> chunks[i].len() == 0),
    ensures
        joined(reads_out) + lefts.last() == joined(chunks),
    decreases chunks.len(),
{
    let n = chunks.len() as int;
    if n == 0 {
        assert(joined(reads_out) + lefts.last() =~= joined(chunks));
    } else {
        let chunk = chunks[n - 1];
        let before = lefts[n - 1];
        assert(lefts.drop_last().last() == before);
        assert forall|i: int| 0 <= i < chunks.drop_last().len() implies reads(
            lefts.drop_last()[i],
            #[trigger] chunks.drop_last()[i],
            rooms.drop_last()[i],
            reads_out.drop_last()[i],
            lefts.drop_last()[i + 1],
        ) && (lefts.drop_last()[i].len() > 0 ==> chunks.drop_last()[i].len() == 0) by {
            assert(chunks[i] == chunks.drop_last()[i]);
        }
        lemma_bytes_in_order(
            lefts.drop_last(),
            chunks.drop_last(),
            rooms.drop_last(),
            reads_out.drop_last(),
        );
        assert(reads_out.last() + lefts.last() =~= before + chunk);
        assert(joined(reads_out) + lefts.last() =~= joined(reads_out.drop_last()) + (
        reads_out.last() + lefts.last()));
        assert(joined(reads_out.drop_last()) + (before + chunk) =~= (joined(
            reads_out.drop_last(),
        ) + before) + chunk);
    }
}

/// A read hands out the bytes that were left, or if there were none those of the next chunk: all of
/// them if there is room, and else as many as there is room for. What it does not hand out is left.
pub proof fn lemma_reads_what_fits(
    left: Seq<u8>,
    chunk: Seq<u8>,
    room: nat,
    read: Seq<u8>,
    after: Seq<u8>,
)
    requires
        reads(left, chunk, room, read, after),
    ensures
        left.len() > 0 ==> read + after == left,
        left.len() == 0 ==> read + after == chunk,
        read.len() <= room,
        read.len() < room ==> after.len() == 0,
{
    let source = if left.len() > 0 {
        left
    } else {
        chunk
    };
    assert(read + after =~= source);
}

/// The bytes of no parts are none, and the bytes of one part more stand behind those of the others.
pub proof fn lemma_joined_part_by_part(parts: Seq<Seq<u8>>, part: Seq<u8>)
    ensures
        joined(Seq::<Seq<u8>>::empty()).len() == 0,
        joined(parts.push(part)) == joined(parts) + part,
{
    assert(parts.push(part).drop_last() =~= parts);
}

} // verus!
