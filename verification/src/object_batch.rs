//! Objects as `git cat-file --batch` prints them, read in chunks.

use crate::bytes::bytes_equal;
use crate::digest::{
    sha1_finalize, sha1_input, sha1_new, sha1_of, sha1_update, sha256_finalize, sha256_input, sha256_new, sha256_of,
    sha256_update, Sha1Stream, Sha256Stream,
};
use crate::errors::IoErrorKind;
use crate::git_object::{append, NEWLINE};
use crate::hex::{decimal_text, decimal_u64};
use crate::portable_path::SPACE;
use crate::target_objects::TargetObjectExpectation;
use crate::tree_body::{validate_target_object_stream_length, MAX_TARGET_OBJECT_BYTES};
use vstd::prelude::*;
use vstd::slice::slice_subrange;
use vstd::string::*;
use vstd::utf8::encode_utf8;

verus! {

/// Most bytes that are read at once.
pub const TARGET_OBJECT_STREAM_CHUNK_BYTES: usize = 16_384;

/// Why a response is refused.
#[derive(Clone, Copy, Debug, PartialEq, Eq, Structural)]
pub enum BatchReadError {
    /// The response is not the expected one.
    Mismatch,
    /// The response could not be read.
    Io(IoErrorKind),
}

/// The line before the body of an object: its id, its type and its size.
pub open spec fn response_header(oid: Seq<u8>, object_type: Seq<u8>, size: u64) -> Seq<u8> {
    oid + seq![SPACE] + object_type + seq![SPACE] + decimal_text(size as nat) + seq![NEWLINE]
}

/// What the id of an object is taken of before the body.
pub open spec fn hashed_header(object_type: Seq<u8>, size: u64) -> Seq<u8> {
    object_type + seq![SPACE] + decimal_text(size as nat) + seq![0u8]
}

/// A body has the expected digest, and its object has the expected id.
pub open spec fn body_as_expected(body: Seq<u8>, raw_oid: Seq<u8>, expected: TargetObjectExpectation) -> bool {
    &&& body.len() == expected.size
    &&& sha1_of(hashed_header(encode_utf8(expected.object_type@), expected.size) + body) == raw_oid
    &&& sha256_of(body) == expected.sha256@
}

/// What has come in so far is the beginning of the expected response: the header, as many bytes as
/// the object has, and a newline. Once it is whole, the body is the expected one.
pub open spec fn on_track(response: Seq<u8>, header: Seq<u8>, raw_oid: Seq<u8>, expected: TargetObjectExpectation) -> bool {
    let h = header.len() as int;
    let n = response.len() as int;
    if n <= h {
        response == header.subrange(0, n)
    } else if n <= h + expected.size {
        response.subrange(0, h) == header
    } else {
        &&& n == h + expected.size + 1
        &&& response.subrange(0, h) == header
        &&& response[h + expected.size] == NEWLINE
        &&& body_as_expected(response.subrange(h, h + expected.size), raw_oid, expected)
    }
}

/// Hold the next bytes of a stream against those that are expected, and give the place behind them.
pub fn read_exact_match(expected: &[u8], offset: usize, chunk: &[u8]) -> (r: Result<usize, BatchReadError>)
    requires
        offset + chunk@.len() <= expected@.len(),
    ensures
        if chunk@.len() > 0 && chunk@ == expected@.subrange(offset as int, offset + chunk@.len()) {
            r matches Ok(next) && next == offset + chunk@.len()
        } else {
            r matches Err(error) && error == BatchReadError::Mismatch
        },
{
    if chunk.len() == 0 {
        return Err(BatchReadError::Mismatch);
    }
    let length: usize = expected.len();
    assert(offset + chunk@.len() <= length);
    let end: usize = offset + chunk.len();
    if bytes_equal(chunk, slice_subrange(expected, offset, end)) {
        Ok(end)
    } else {
        Err(BatchReadError::Mismatch)
    }
}

/// A response that is read in chunks.
pub struct BatchObjectReading {
    pub header: Vec<u8>,
    pub offset: usize,
    pub remaining: usize,
    pub finished: bool,
    pub raw_oid: [u8; 20],
    pub expected: TargetObjectExpectation,
    pub typed: Sha1Stream,
    pub raw: Sha256Stream,
    /// As much of the body as has come in.
    pub body: Ghost<Seq<u8>>,
}

impl BatchObjectReading {
    /// What has come in so far.
    pub open spec fn response(self) -> Seq<u8> {
        let head = self.header@.subrange(0, self.offset as int) + self.body@;
        if self.finished {
            head.push(NEWLINE)
        } else {
            head
        }
    }

    /// What is counted and hashed is what has come in.
    pub open spec fn wf(self) -> bool {
        &&& self.offset <= self.header@.len()
        &&& self.offset < self.header@.len() ==> self.body@.len() == 0
        &&& self.remaining + self.body@.len() == self.expected.size
        &&& !self.finished ==> sha256_input(self.raw) == self.body@
        &&& !self.finished ==> sha1_input(self.typed) == hashed_header(
            encode_utf8(self.expected.object_type@),
            self.expected.size,
        ) + self.body@
        &&& self.finished ==> self.offset == self.header@.len() && self.remaining == 0
    }

    /// As far as it came, the response is the expected one.
    pub open spec fn on_track(self) -> bool {
        on_track(self.response(), self.header@, self.raw_oid@, self.expected)
    }

    /// Expect the response for an object.
    pub fn begin(oid: &str, raw_oid: [u8; 20], expected: TargetObjectExpectation) -> (r: Result<
        BatchObjectReading,
        BatchReadError,
    >)
        ensures
            if expected.size > MAX_TARGET_OBJECT_BYTES {
                r matches Err(error) && error == BatchReadError::Mismatch
            } else {
                r matches Ok(reading) && reading.wf() && reading.on_track() && reading.response() == Seq::<u8>::empty()
                    && !reading.finished && reading.header@ == response_header(
                    oid.spec_bytes(),
                    encode_utf8(expected.object_type@),
                    expected.size,
                ) && reading.raw_oid == raw_oid && reading.expected == expected
            },
    {
        let remaining = match validate_target_object_stream_length(expected.size) {
            Ok(length) => length,
            Err(_) => {
                return Err(BatchReadError::Mismatch);
            },
        };
        let decimal = decimal_u64(expected.size);
        let mut header: Vec<u8> = Vec::new();
        append(&mut header, oid.as_bytes());
        header.push(SPACE);
        append(&mut header, expected.object_type.as_bytes());
        header.push(SPACE);
        append(&mut header, decimal.as_slice());
        header.push(NEWLINE);
        assert(header@ =~= response_header(oid.spec_bytes(), encode_utf8(expected.object_type@), expected.size));
        let mut hashed: Vec<u8> = Vec::new();
        append(&mut hashed, expected.object_type.as_bytes());
        hashed.push(SPACE);
        append(&mut hashed, decimal.as_slice());
        hashed.push(0);
        assert(hashed@ =~= hashed_header(encode_utf8(expected.object_type@), expected.size));
        let mut typed = sha1_new();
        sha1_update(&mut typed, hashed.as_slice());
        let raw = sha256_new();
        assert(sha1_input(typed) =~= hashed@ + sha256_input(raw));
        let reading = BatchObjectReading { header, offset: 0, remaining, finished: false, raw_oid, expected, typed, raw, body: Ghost(Seq::empty()) };
        assert(reading.response() =~= Seq::<u8>::empty());
        assert(reading.header@.subrange(0, 0) =~= Seq::<u8>::empty());
        Ok(reading)
    }

    /// How many bytes are to be read next at most; none once the response is whole.
    pub open spec fn wanted_bytes(self) -> int {
        let left = if self.offset < self.header@.len() {
            self.header@.len() - self.offset
        } else if self.remaining > 0 {
            self.remaining as int
        } else if self.finished {
            0
        } else {
            1
        };
        if left > TARGET_OBJECT_STREAM_CHUNK_BYTES {
            TARGET_OBJECT_STREAM_CHUNK_BYTES as int
        } else {
            left
        }
    }

    /// How many bytes are to be read next at most; none once the response is whole.
    pub fn wanted(&self) -> (bytes: usize)
        requires
            self.wf(),
        ensures
            bytes == self.wanted_bytes(),
    {
        let left: usize = if self.offset < self.header.len() {
            self.header.len() - self.offset
        } else if self.remaining > 0 {
            self.remaining
        } else if self.finished {
            0
        } else {
            1
        };
        if left > TARGET_OBJECT_STREAM_CHUNK_BYTES {
            TARGET_OBJECT_STREAM_CHUNK_BYTES
        } else {
            left
        }
    }

    /// Take in what a read gave, and say whether the response is whole. A read that gave nothing
    /// means that the response ended too soon. After a failure the response stands where it stood before.
    pub fn take(&mut self, read: Result<&[u8], IoErrorKind>) -> (r: Result<bool, BatchReadError>)
        requires
            old(self).wf(),
            old(self).on_track(),
            !old(self).finished,
            read matches Ok(chunk) ==> chunk@.len() <= old(self).wanted_bytes(),
        ensures
            final(self).header == old(self).header,
            final(self).raw_oid == old(self).raw_oid,
            final(self).expected == old(self).expected,
            r is Err ==> !final(self).finished && final(self).response() == old(self).response() && final(self).offset
                == old(self).offset && final(self).remaining == old(self).remaining && final(self).body == old(self).body,
            match read {
                Err(kind) => r matches Err(error) && error == BatchReadError::Io(kind),
                Ok(chunk) => if chunk@.len() > 0 && on_track(
                    old(self).response() + chunk@,
                    old(self).header@,
                    old(self).raw_oid@,
                    old(self).expected,
                ) {
                    r matches Ok(whole) && final(self).wf() && final(self).on_track() && final(self).response()
                        == old(self).response() + chunk@ && final(self).finished == whole && (whole
                        <==> final(self).response().len() == old(self).header@.len() + old(self).expected.size + 1)
                } else {
                    r matches Err(error) && error == BatchReadError::Mismatch
                },
            },
    {
        let chunk = match read {
            Ok(chunk) => chunk,
            Err(kind) => {
                return Err(BatchReadError::Io(kind));
            },
        };
        let ghost before = self.response();
        let ghost after = before + chunk@;
        let ghost header = self.header@;
        let ghost body = self.body@;
        let ghost size = self.expected.size as int;
        proof {
            assert(before =~= header.subrange(0, self.offset as int) + body);
        }
        if chunk.len() == 0 {
            return Err(BatchReadError::Mismatch);
        }
        if self.offset < self.header.len() {
            proof {
                let end = self.offset + chunk@.len();
                let piece = header.subrange(self.offset as int, end);
                assert(before =~= header.subrange(0, self.offset as int));
                if piece == chunk@ {
                    assert(after =~= header.subrange(0, end));
                } else if after == header.subrange(0, end) {
                    assert(chunk@ =~= after.subrange(self.offset as int, end));
                    assert(piece =~= header.subrange(0, end).subrange(self.offset as int, end));
                }
            }
            self.offset = read_exact_match(self.header.as_slice(), self.offset, chunk)?;
            assert(self.response() =~= after);
            return Ok(false);
        }
        proof {
            assert(header.subrange(0, header.len() as int) =~= header);
            assert(before.subrange(0, header.len() as int) =~= header);
            assert(after.subrange(0, header.len() as int) =~= header);
        }
        if self.remaining > 0 {
            sha1_update(&mut self.typed, chunk);
            sha256_update(&mut self.raw, chunk);
            self.remaining = self.remaining - chunk.len();
            self.body = Ghost(body + chunk@);
            proof {
                assert(sha1_input(self.typed) =~= hashed_header(encode_utf8(self.expected.object_type@), self.expected.size)
                    + self.body@);
                assert(self.response() =~= after);
            }
            return Ok(false);
        }
        proof {
            assert(after.subrange(header.len() as int, header.len() + size) =~= body);
            assert(after[header.len() + size] == chunk@[0]);
        }
        if chunk[0] != NEWLINE {
            return Err(BatchReadError::Mismatch);
        }
        let mut typed = sha1_new();
        let mut raw = sha256_new();
        std::mem::swap(&mut typed, &mut self.typed);
        std::mem::swap(&mut raw, &mut self.raw);
        let oid = sha1_finalize(typed);
        let digest = sha256_finalize(raw);
        if !bytes_equal(oid.as_slice(), self.raw_oid.as_slice()) || !bytes_equal(
            digest.as_slice(),
            self.expected.sha256.as_slice(),
        ) {
            return Err(BatchReadError::Mismatch);
        }
        self.finished = true;
        assert(self.response() =~= after);
        Ok(true)
    }
}

/// A response begins with what is expected for an object.
pub open spec fn proves_object(stream: Seq<u8>, oid: Seq<u8>, raw_oid: Seq<u8>, expected: TargetObjectExpectation) -> bool {
    let header = response_header(oid, encode_utf8(expected.object_type@), expected.size);
    let n = header.len() + expected.size + 1;
    expected.size <= MAX_TARGET_OBJECT_BYTES && stream.len() >= n && on_track(
        stream.subrange(0, n as int),
        header,
        raw_oid,
        expected,
    )
}

/// What begins an expected response is on track.
proof fn beginning_on_track(
    response: Seq<u8>,
    n: int,
    header: Seq<u8>,
    raw_oid: Seq<u8>,
    expected: TargetObjectExpectation,
)
    requires
        0 <= n <= response.len(),
        response.len() == header.len() + expected.size + 1,
        on_track(response, header, raw_oid, expected),
    ensures
        on_track(response.subrange(0, n), header, raw_oid, expected),
{
    let h = header.len() as int;
    let early = response.subrange(0, n);
    assert(response.subrange(0, h) == header);
    if n <= h {
        assert(early =~= header.subrange(0, n)) by {
            assert forall|i: int| 0 <= i < n implies early[i] == header[i] by {
                assert(response.subrange(0, h)[i] == header[i]);
            }
        }
    } else if n < response.len() {
        assert(early.subrange(0, h) =~= header);
    } else {
        assert(early =~= response);
    }
}

/// Read the response for an object from the beginning of a stream, in chunks.
pub fn read_batch_object_proof(
    stream: &[u8],
    expected_oid: &str,
    expected_raw_oid: &[u8; 20],
    expected: TargetObjectExpectation,
) -> (r: Result<(), BatchReadError>)
    ensures
        r == if proves_object(stream@, expected_oid.spec_bytes(), expected_raw_oid@, expected) {
            Ok::<(), BatchReadError>(())
        } else {
            Err(BatchReadError::Mismatch)
        },
{
    let mut reading = BatchObjectReading::begin(expected_oid, *expected_raw_oid, expected)?;
    let ghost header = reading.header@;
    let ghost total = header.len() + expected.size + 1;
    let mut position: usize = 0;
    assert(stream@.subrange(0, 0) =~= Seq::<u8>::empty());
    loop
        invariant
            position <= stream@.len(),
            reading.wf(),
            reading.on_track(),
            !reading.finished,
            reading.header@ == header,
            reading.raw_oid == *expected_raw_oid,
            reading.expected == expected,
            reading.response() == stream@.subrange(0, position as int),
            header == response_header(expected_oid.spec_bytes(), encode_utf8(expected.object_type@), expected.size),
            total == header.len() + expected.size + 1,
            position < total,
            expected.size <= MAX_TARGET_OBJECT_BYTES,
        decreases total - position,
    {
        let wanted = reading.wanted();
        let left: usize = stream.len() - position;
        let count: usize = if wanted < left {
            wanted
        } else {
            left
        };
        let chunk = slice_subrange(stream, position, position + count);
        let ghost next = stream@.subrange(0, position + count);
        proof {
            assert(stream@.subrange(0, position as int) + chunk@ =~= next);
            if proves_object(stream@, expected_oid.spec_bytes(), expected_raw_oid@, expected) {
                let whole = stream@.subrange(0, total as int);
                assert(position + count <= total);
                beginning_on_track(whole, position + count, header, expected_raw_oid@, expected);
                assert(whole.subrange(0, position + count) =~= next);
            }
        }
        let whole = reading.take(Ok(chunk))?;
        if whole {
            assert(next.len() == total);
            return Ok(());
        }
        position = position + count;
    }
}

/// Require a stream to have ended: a last read that gave nothing.
pub fn read_batch_eof(read: Result<&[u8], IoErrorKind>) -> (r: Result<(), BatchReadError>)
    ensures
        r == match read {
            Err(kind) => Err::<(), BatchReadError>(BatchReadError::Io(kind)),
            Ok(chunk) => if chunk@.len() == 0 {
                Ok(())
            } else {
                Err(BatchReadError::Mismatch)
            },
        },
{
    match read {
        Err(kind) => Err(BatchReadError::Io(kind)),
        Ok(chunk) => {
            if chunk.len() == 0 {
                Ok(())
            } else {
                Err(BatchReadError::Mismatch)
            }
        },
    }
}

} // verus!
