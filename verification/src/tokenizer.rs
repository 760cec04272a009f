//! The frame codec: protocol values, their wire form, and the incremental decoder.
//!
//! `spec_encode` says what bytes a frame is written as and `spec_decode` says how
//! a buffer is read; the two are defined independently and
//! `lemma_decode_encode` relates them.
use crate::decimal::{
    int_digits, nat_digits, parse_i64, parse_usize, push_digits, push_int, spec_parse_i64,
    spec_parse_usize,
};
use vstd::prelude::*;
use vstd::slice::slice_to_vec;
use vstd::utf8::{encode_utf8, valid_utf8};

verus! {

/// Carriage return, the first byte of a line break.
pub const CR: u8 = 13;

/// Line feed, the second byte of a line break.
pub const LF: u8 = 10;

/// `*`, which opens an array.
pub const ARRAY_TAG: u8 = 42;

/// `$`, which opens a bulk string or the null bulk string.
pub const BULK_TAG: u8 = 36;

/// `+`, which opens a simple string.
pub const SIMPLE_TAG: u8 = 43;

/// `:`, which opens an integer.
pub const INTEGER_TAG: u8 = 58;

/// One protocol value.
#[derive(Debug, PartialEq, Eq)]
pub enum Resp {
    Array(Vec<Resp>),
    /// A length-prefixed payload of arbitrary bytes.
    BulkString(Vec<u8>),
    /// A line of text; well formed only without CR and LF.
    SimpleString(Vec<u8>),
    Integer(i64),
    NullBulkString,
    /// No reply at all: written as zero bytes, never read from the wire.
    Empty,
}

/// Why a buffer did not yield a frame.
#[derive(Debug, Clone, Copy, PartialEq, Eq)]
pub enum RespError {
    /// The buffer ends before the frame does; more bytes may complete it.
    Incomplete,
    /// The buffer cannot be the start of any frame.
    Malformed,
}

/// The mathematical value of a `Resp`.
pub enum Frame {
    Array(Seq<Frame>),
    BulkString(Seq<u8>),
    SimpleString(Seq<u8>),
    Integer(i64),
    NullBulkString,
    Empty,
}

/// The values of a run of frames, in order.
pub open spec fn frames_of(items: Seq<Resp>) -> Seq<Frame>
    decreases items,
{
    if items.len() == 0 {
        Seq::empty()
    } else {
        frames_of(items.drop_last()).push(items.last()@)
    }
}

impl View for Resp {
    type V = Frame;

    open spec fn view(&self) -> Frame
        decreases self,
    {
        match self {
            Resp::Array(items) => Frame::Array(frames_of(items@)),
            Resp::BulkString(bytes) => Frame::BulkString(bytes@),
            Resp::SimpleString(text) => Frame::SimpleString(text@),
            Resp::Integer(n) => Frame::Integer(*n),
            Resp::NullBulkString => Frame::NullBulkString,
            Resp::Empty => Frame::Empty,
        }
    }
}

/// `frames_of` maps element by element.
pub proof fn lemma_frames_of(items: Seq<Resp>)
    ensures
        frames_of(items).len() == items.len(),
        forall|i: int| 0 <= i < items.len() ==> #[trigger] frames_of(items)[i] == items[i]@,
    decreases items.len(),
{
    if items.len() > 0 {
        let front = items.drop_last();
        lemma_frames_of(front);
        assert(frames_of(items) == frames_of(front).push(items.last()@));
        assert forall|i: int| 0 <= i < items.len() implies #[trigger] frames_of(items)[i]
            == items[i]@ by {
            if i < front.len() {
                assert(frames_of(front)[i] == front[i]@);
            }
        }
    }
}

pub open spec fn crlf() -> Seq<u8> {
    seq![13u8, 10u8]
}

/// Text that may stand in a simple string: no CR and no LF.
pub open spec fn is_text(s: Seq<u8>) -> bool {
    forall|i: int| 0 <= i < s.len() ==> #[trigger] s[i] != 13 && s[i] != 10
}

/// The wire form of a frame.
pub open spec fn spec_encode(f: Frame) -> Seq<u8>
    decreases f,
{
    match f {
        Frame::Array(items) => seq![42u8] + nat_digits(items.len()) + crlf() + spec_encode_all(
            items,
        ),
        Frame::BulkString(bytes) => seq![36u8] + nat_digits(bytes.len()) + crlf() + bytes + crlf(),
        Frame::SimpleString(text) => seq![43u8] + text + crlf(),
        Frame::Integer(n) => seq![58u8] + int_digits(n as int) + crlf(),
        Frame::NullBulkString => seq![36u8, 45u8, 49u8, 13u8, 10u8],
        Frame::Empty => Seq::empty(),
    }
}

/// The wire forms of a run of frames, one after the other.
pub open spec fn spec_encode_all(items: Seq<Frame>) -> Seq<u8>
    decreases items,
{
    if items.len() == 0 {
        Seq::empty()
    } else {
        spec_encode_all(items.drop_last()) + spec_encode(items.last())
    }
}

/// Frames that survive the wire: no `Empty` anywhere, no CR or LF in a simple
/// string, and lengths that fit the machine.
pub open spec fn wf_frame(f: Frame) -> bool
    decreases f,
{
    match f {
        Frame::Array(items) => items.len() <= usize::MAX && forall|i: int|
            0 <= i < items.len() ==> wf_frame(#[trigger] items[i]),
        Frame::BulkString(bytes) => bytes.len() <= usize::MAX,
        Frame::SimpleString(text) => is_text(text),
        Frame::Integer(_) => true,
        Frame::NullBulkString => true,
        Frame::Empty => false,
    }
}

pub open spec fn is_crlf_at(s: Seq<u8>, i: int) -> bool {
    0 <= i && i + 1 < s.len() && s[i] == 13 && s[i + 1] == 10
}

/// `i` is where the first line break of `s` starts.
pub open spec fn is_line_break(s: Seq<u8>, i: int) -> bool {
    is_crlf_at(s, i) && forall|j: int| 0 <= j < i ==> !is_crlf_at(s, j)
}

/// Where the first line break of `s` starts, if it has one.
pub open spec fn line_break(s: Seq<u8>) -> Option<int> {
    if exists|i: int| is_line_break(s, i) {
        Some(choose|i: int| is_line_break(s, i))
    } else {
        None
    }
}

pub proof fn lemma_line_break_unique(s: Seq<u8>, i: int)
    requires
        is_line_break(s, i),
    ensures
        line_break(s) == Some(i),
{
    let k = choose|k: int| is_line_break(s, k);
    if k < i {
        assert(!is_crlf_at(s, k));
    } else if i < k {
        assert(!is_crlf_at(s, i));
    }
}

pub proof fn lemma_line_break_none(s: Seq<u8>)
    requires
        forall|j: int| 0 <= j && j + 1 < s.len() ==> !is_crlf_at(s, j),
    ensures
        line_break(s) is None,
{
    if exists|i: int| is_line_break(s, i) {
        let k = choose|k: int| is_line_break(s, k);
        assert(is_crlf_at(s, k));
    }
}

pub open spec fn is_tag(b: u8) -> bool {
    b == 42 || b == 36 || b == 43 || b == 58
}

/// How a buffer is read: the frame at its front and the number of bytes that
/// frame spans, or why there is none.
pub open spec fn spec_decode(s: Seq<u8>) -> Result<(Frame, int), RespError>
    decreases s.len(), 0nat,
{
    if s.len() == 0 {
        Err(RespError::Incomplete)
    } else if !is_tag(s[0]) {
        Err(RespError::Malformed)
    } else {
        match line_break(s) {
            None => Err(RespError::Incomplete),
            Some(end) => {
                let line = s.subrange(1, end);
                let header = end + 2;
                if s[0] == 43 {
                    if is_text(line) {
                        Ok((Frame::SimpleString(line), header))
                    } else {
                        Err(RespError::Malformed)
                    }
                } else if s[0] == 58 {
                    match spec_parse_i64(line) {
                        Some(n) => Ok((Frame::Integer(n), header)),
                        None => Err(RespError::Malformed),
                    }
                } else if s[0] == 36 {
                    spec_decode_bulk(line, s.skip(header), header)
                } else {
                    match spec_parse_usize(line) {
                        None => Err(RespError::Malformed),
                        Some(count) => {
                            match spec_decode_items(s.skip(header), count as nat) {
                                Ok((items, used)) => Ok((Frame::Array(items), header + used)),
                                Err(e) => Err(e),
                            }
                        },
                    }
                }
            },
        }
    }
}

/// The rest of a `$` frame after its header line: null for the numeral `-1`,
/// else a payload of the announced length and a line break.
pub open spec fn spec_decode_bulk(line: Seq<u8>, body: Seq<u8>, header: int) -> Result<
    (Frame, int),
    RespError,
> {
    if line == seq![45u8, 49u8] {
        Ok((Frame::NullBulkString, header))
    } else {
        match spec_parse_usize(line) {
            None => Err(RespError::Malformed),
            Some(len) => {
                if body.len() < len + 2 {
                    Err(RespError::Incomplete)
                } else if !(body[len as int] == 13 && body[len + 1] == 10) {
                    Err(RespError::Malformed)
                } else {
                    Ok((Frame::BulkString(body.take(len as int)), header + len + 2))
                }
            },
        }
    }
}

/// Reads `count` frames one after the other; the first failure is the result.
/// (A frame always spans at least one byte, see `lemma_decode_span`; the test
/// on `used` only serves termination.)
pub open spec fn spec_decode_items(s: Seq<u8>, count: nat) -> Result<(Seq<Frame>, int), RespError>
    decreases s.len(), count + 1,
{
    if count == 0 {
        Ok((Seq::empty(), 0))
    } else {
        match spec_decode(s) {
            Err(e) => Err(e),
            Ok((first, used)) => {
                if 0 < used <= s.len() {
                    match spec_decode_items(s.skip(used), (count - 1) as nat) {
                        Err(e) => Err(e),
                        Ok((rest, more)) => Ok((seq![first] + rest, used + more)),
                    }
                } else {
                    Err(RespError::Malformed)
                }
            },
        }
    }
}

/// Appending one frame to a run appends its wire form.
pub proof fn lemma_encode_all_push(items: Seq<Frame>, last: Frame)
    ensures
        spec_encode_all(items.push(last)) == spec_encode_all(items) + spec_encode(last),
{
    assert(items.push(last).drop_last() =~= items);
}

/// Appending one value to a run appends its frame.
pub proof fn lemma_frames_of_push(items: Seq<Resp>, last: Resp)
    ensures
        frames_of(items.push(last)) == frames_of(items).push(last@),
{
    assert(items.push(last).drop_last() =~= items);
}

/// `String::from_utf8` of the standard library: the text whose UTF-8 bytes are
/// `bytes`, or nothing where `bytes` is not valid UTF-8.
#[verifier::external_body]
fn string_from_utf8(bytes: Vec<u8>) -> (r: Option<String>)
    ensures
        match r {
            Some(text) => valid_utf8(bytes@) && encode_utf8(text@) == bytes@,
            None => !valid_utf8(bytes@),
        },
{
    match String::from_utf8(bytes) {
        Ok(text) => Some(text),
        Err(_) => None,
    }
}

impl Clone for Resp {
    #[verifier::loop_isolation(false)]
    fn clone(&self) -> (r: Self)
        ensures
            r@ == self@,
        decreases self,
    {
        match self {
            Resp::Array(vector) => {
                let mut items: Vec<Resp> = Vec::new();
                let mut i: usize = 0;
                proof {
                    lemma_frames_of(vector@);
                }
                while i < vector.len()
                    invariant
                        i <= vector@.len(),
                        items@.len() == i,
                        forall|k: int| 0 <= k < i ==> #[trigger] items@[k]@ == vector@[k]@,
                    decreases vector@.len() - i,
                {
                    proof {
                        assert(decreases_to!(vector => vector[i as int]));
                    }
                    items.push(vector[i].clone());
                    i = i + 1;
                }
                proof {
                    lemma_frames_of(items@);
                    assert(frames_of(items@) =~= frames_of(vector@));
                }
                Resp::Array(items)
            },
            Resp::BulkString(bytes) => Resp::BulkString(slice_to_vec(bytes.as_slice())),
            Resp::SimpleString(text) => Resp::SimpleString(slice_to_vec(text.as_slice())),
            Resp::Integer(num) => Resp::Integer(*num),
            Resp::NullBulkString => Resp::NullBulkString,
            Resp::Empty => Resp::Empty,
        }
    }
}

impl Resp {
    /// Appends the wire form of `self` to `out`.
    #[verifier::loop_isolation(false)]
    pub fn encode_into(&self, out: &mut Vec<u8>)
        ensures
            final(out)@ == old(out)@ + spec_encode(self@),
        decreases self,
    {
        let ghost before = out@;
        match self {
            Resp::Array(vector) => {
                out.push(ARRAY_TAG);
                push_digits(vector.len() as u64, out);
                out.push(CR);
                out.push(LF);
                let ghost frames = frames_of(vector@);
                let ghost head = before + seq![42u8] + nat_digits(vector@.len()) + crlf();
                proof {
                    lemma_frames_of(vector@);
                    assert(out@ =~= head);
                    assert(frames.take(0) =~= Seq::<Frame>::empty());
                }
                let mut i: usize = 0;
                while i < vector.len()
                    invariant
                        0 <= i <= vector@.len(),
                        frames == frames_of(vector@),
                        frames.len() == vector@.len(),
                        forall|k: int|
                            0 <= k < vector@.len() ==> #[trigger] frames[k] == vector@[k]@,
                        out@ == head + spec_encode_all(frames.take(i as int)),
                    decreases vector@.len() - i,
                {
                    proof {
                        assert(decreases_to!(vector => vector[i as int]));
                    }
                    vector[i].encode_into(out);
                    proof {
                        lemma_encode_all_push(frames.take(i as int), frames[i as int]);
                        assert(frames.take(i as int).push(frames[i as int]) =~= frames.take(
                            i as int + 1,
                        ));
                        assert(out@ =~= head + spec_encode_all(frames.take(i as int + 1)));
                    }
                    i = i + 1;
                }
                proof {
                    assert(frames.take(i as int) =~= frames);
                    assert(out@ =~= before + spec_encode(self@));
                }
            },
            Resp::BulkString(bytes) => {
                out.push(BULK_TAG);
                push_digits(bytes.len() as u64, out);
                out.push(CR);
                out.push(LF);
                out.extend_from_slice(bytes.as_slice());
                out.push(CR);
                out.push(LF);
                proof {
                    assert(out@ =~= before + spec_encode(self@));
                }
            },
            Resp::SimpleString(text) => {
                out.push(SIMPLE_TAG);
                out.extend_from_slice(text.as_slice());
                out.push(CR);
                out.push(LF);
                proof {
                    assert(out@ =~= before + spec_encode(self@));
                }
            },
            Resp::Integer(num) => {
                out.push(INTEGER_TAG);
                push_int(*num, out);
                out.push(CR);
                out.push(LF);
                proof {
                    assert(out@ =~= before + spec_encode(self@));
                }
            },
            Resp::NullBulkString => {
                out.push(BULK_TAG);
                out.push(45);
                out.push(49);
                out.push(CR);
                out.push(LF);
                proof {
                    assert(out@ =~= before + spec_encode(self@));
                }
            },
            Resp::Empty => {
                proof {
                    assert(out@ =~= before + spec_encode(self@));
                }
            },
        }
    }

    /// The wire form of `self` as text, where it is text: a payload of
    /// arbitrary bytes may make it none.
    pub fn encode_to_string(&self) -> (encoded: Option<String>)
        ensures
            match encoded {
                Some(text) => valid_utf8(spec_encode(self@)) && encode_utf8(text@) == spec_encode(
                    self@,
                ),
                None => !valid_utf8(spec_encode(self@)),
            },
    {
        string_from_utf8(self.encode_to_bytes())
    }

    /// The wire form of `self`.
    pub fn encode_to_bytes(&self) -> (encoded: Vec<u8>)
        ensures
            encoded@ == spec_encode(self@),
    {
        let mut encoded: Vec<u8> = Vec::new();
        self.encode_into(&mut encoded);
        proof {
            assert(encoded@ =~= spec_encode(self@));
        }
        encoded
    }
}

/// Splits `buffer` at its first line break into the tail after the break and
/// the line before it.
pub fn read_next_line(buffer: &[u8]) -> (r: Result<(&[u8], &[u8]), RespError>)
    ensures
        match r {
            Ok((remainder, line)) => {
                &&& line_break(buffer@) == Some(line@.len() as int)
                &&& line@ == buffer@.take(line@.len() as int)
                &&& remainder@ == buffer@.skip(line@.len() as int + 2)
            },
            Err(e) => e == RespError::Incomplete && line_break(buffer@) is None,
        },
{
    let n = buffer.len();
    if n < 2 {
        proof {
            lemma_line_break_none(buffer@);
        }
        return Err(RespError::Incomplete);
    }
    let mut i: usize = 0;
    while i < n - 1
        invariant
            n == buffer@.len(),
            n >= 2,
            i <= n - 1,
            forall|j: int| 0 <= j < i ==> !is_crlf_at(buffer@, j),
        decreases n - i,
    {
        if buffer[i] == CR && buffer[i + 1] == LF {
            proof {
                lemma_line_break_unique(buffer@, i as int);
            }
            let line = &buffer[0..i];
            let remainder = &buffer[i + 2..n];
            return Ok((remainder, line));
        }
        i = i + 1;
    }
    proof {
        lemma_line_break_none(buffer@);
    }
    Err(RespError::Incomplete)
}

/// Whether `line` holds neither CR nor LF.
fn check_text(line: &[u8]) -> (r: bool)
    ensures
        r == is_text(line@),
{
    let mut i: usize = 0;
    while i < line.len()
        invariant
            i <= line@.len(),
            forall|j: int| 0 <= j < i ==> #[trigger] line@[j] != 13 && line@[j] != 10,
        decreases line@.len() - i,
    {
        if line[i] == CR || line[i] == LF {
            return false;
        }
        i = i + 1;
    }
    true
}

/// Reads the frame at the front of `buffer`: the unread tail and the frame, or
/// why there is none.
pub fn tokenize_bytes(buffer: &[u8]) -> (r: Result<(&[u8], Resp), RespError>)
    ensures
        match spec_decode(buffer@) {
            Ok((frame, used)) => {
                &&& r matches Ok((remainder, value))
                &&& value@ == frame
                &&& 0 < used <= buffer@.len()
                &&& remainder@ == buffer@.skip(used)
                &&& remainder@.len() == buffer@.len() - used
            },
            Err(e) => r matches Err(x) && x == e,
        },
    decreases buffer@.len(),
{
    if buffer.len() == 0 {
        return Err(RespError::Incomplete);
    }
    let tag = buffer[0];
    if tag != ARRAY_TAG && tag != BULK_TAG && tag != SIMPLE_TAG && tag != INTEGER_TAG {
        return Err(RespError::Malformed);
    }
    let (body, head) = match read_next_line(buffer) {
        Ok(parts) => parts,
        Err(_) => {
            return Err(RespError::Incomplete);
        },
    };
    let end = head.len();
    proof {
        assert(is_line_break(buffer@, end as int));
    }
    let line = &head[1..end];
    let ghost header = end as int + 2;
    proof {
        assert(line@ =~= buffer@.subrange(1, end as int));
        assert(body@ == buffer@.skip(header));
    }
    if tag == SIMPLE_TAG {
        if check_text(line) {
            Ok((body, Resp::SimpleString(slice_to_vec(line))))
        } else {
            Err(RespError::Malformed)
        }
    } else if tag == INTEGER_TAG {
        match parse_i64(line) {
            Some(n) => Ok((body, Resp::Integer(n))),
            None => Err(RespError::Malformed),
        }
    } else if tag == BULK_TAG {
        if line.len() == 2 && line[0] == 45 && line[1] == 49 {
            proof {
                assert(line@ =~= seq![45u8, 49u8]);
            }
            return Ok((body, Resp::NullBulkString));
        }
        match parse_usize(line) {
            None => Err(RespError::Malformed),
            Some(len) => {
                if body.len() < 2 || body.len() - 2 < len {
                    Err(RespError::Incomplete)
                } else if body[len] != CR || body[len + 1] != LF {
                    Err(RespError::Malformed)
                } else {
                    let payload = &body[0..len];
                    let remainder = &body[len + 2..body.len()];
                    proof {
                        assert(payload@ =~= body@.take(len as int));
                        assert(remainder@ =~= buffer@.skip(header + len + 2));
                    }
                    Ok((remainder, Resp::BulkString(slice_to_vec(payload))))
                }
            },
        }
    } else {
        match parse_usize(line) {
            None => Err(RespError::Malformed),
            Some(count) => {
                let mut items: Vec<Resp> = Vec::new();
                let mut remainder = body;
                let mut i: usize = 0;
                let ghost mut used: int = 0;
                let ghost whole = spec_decode_items(body@, count as nat);
                proof {
                    assert(body@.skip(0) =~= body@);
                }
                while i < count
                    invariant
                        i <= count,
                        whole == spec_decode_items(body@, count as nat),
                        spec_decode(buffer@) == (match whole {
                            Ok((frames, span)) => Ok::<(Frame, int), RespError>(
                                (Frame::Array(frames), header + span),
                            ),
                            Err(e) => Err(e),
                        }),
                        body@ == buffer@.skip(header),
                        header <= buffer@.len(),
                        header >= 3,
                        0 <= used <= body@.len(),
                        remainder@ == body@.skip(used),
                        whole == (match spec_decode_items(
                            remainder@,
                            (count - i) as nat,
                        ) {
                            Ok((rest, more)) => Ok::<(Seq<Frame>, int), RespError>(
                                (frames_of(items@) + rest, used + more),
                            ),
                            Err(e) => Err(e),
                        }),
                    decreases count - i,
                {
                    match tokenize_bytes(remainder) {
                        Err(e) => {
                            proof {
                                assert(spec_decode_items(remainder@, (count - i) as nat) is Err);
                            }
                            return Err(e);
                        },
                        Ok((next, item)) => {
                            proof {
                                let step = spec_decode(remainder@);
                                let first = step->Ok_0.0;
                                let span = step->Ok_0.1;
                                lemma_frames_of_push(items@, item);
                                assert(next@ =~= body@.skip(used + span));
                                match spec_decode_items(next@, (count - i - 1) as nat) {
                                    Ok((rest, more)) => {
                                        assert(frames_of(items@) + (seq![first] + rest)
                                            =~= frames_of(items@).push(first) + rest);
                                    },
                                    Err(e) => {},
                                }
                                used = used + span;
                            }
                            items.push(item);
                            remainder = next;
                            i = i + 1;
                        },
                    }
                }
                proof {
                    assert(frames_of(items@) + Seq::<Frame>::empty() =~= frames_of(items@));
                    assert(remainder@ =~= buffer@.skip(header + used));
                }
                Ok((remainder, Resp::Array(items)))
            },
        }
    }
}

} // verus!
