//! What holds between the wire form and the decoder.
use crate::decimal::{
    int_digits, is_digit, lemma_int_digits_bytes, lemma_nat_digits, lemma_parse_int_digits,
    lemma_parse_nat_digits, nat_digits, spec_parse_i64, spec_parse_usize,
};
use crate::tokenizer::{
    crlf, is_crlf_at, is_line_break, is_tag, lemma_line_break_unique, line_break, spec_decode,
    spec_decode_items, spec_encode, spec_encode_all, wf_frame, Frame, RespError,
};
use vstd::prelude::*;

verus! {

/// A line break that `line_break` reports is one.
pub proof fn lemma_line_break_some(s: Seq<u8>)
    ensures
        line_break(s) matches Some(end) ==> is_line_break(s, end),
{
}

/// Behind a tag and a line without CR, the first line break is the one that
/// ends the line.
pub proof fn lemma_header_line(tag: u8, line: Seq<u8>, tail: Seq<u8>)
    requires
        tag != 13,
        forall|i: int| 0 <= i < line.len() ==> line[i] != 13,
    ensures
        ({
            let s = seq![tag] + line + crlf() + tail;
            &&& line_break(s) == Some(1 + line.len() as int)
            &&& s.subrange(1, 1 + line.len() as int) == line
            &&& s.skip(line.len() as int + 3) == tail
            &&& s[0] == tag
            &&& s.len() == line.len() + 3 + tail.len()
        }),
{
    let s = seq![tag] + line + crlf() + tail;
    let end = 1 + line.len() as int;
    assert(s[end] == 13 && s[end + 1] == 10);
    assert forall|j: int| 0 <= j < end implies !is_crlf_at(s, j) by {
        if j > 0 {
            assert(s[j] == line[j - 1]);
        }
    }
    lemma_line_break_unique(s, end);
    assert(s.subrange(1, end) =~= line);
    assert(s.skip(line.len() as int + 3) =~= tail);
}

/// A frame that is read spans at least a tag and a line break and at most the
/// buffer, and it is well formed; a run of frames that is read has the length
/// asked for.
pub proof fn lemma_decode_span(s: Seq<u8>)
    ensures
        spec_decode(s) matches Ok((frame, used)) ==> 3 <= used <= s.len() && wf_frame(frame),
    decreases s.len(), 0nat,
{
    if s.len() > 0 && is_tag(s[0]) {
        match line_break(s) {
            None => {},
            Some(end) => {
                lemma_line_break_some(s);
                assert(is_crlf_at(s, end));
                assert(end >= 1);
                if s[0] == 42 {
                    match spec_parse_usize(s.subrange(1, end)) {
                        None => {},
                        Some(count) => {
                            lemma_decode_items_span(s.skip(end + 2), count as nat);
                        },
                    }
                }
            },
        }
    }
}

pub proof fn lemma_decode_items_span(s: Seq<u8>, count: nat)
    ensures
        spec_decode_items(s, count) matches Ok((items, used)) ==> {
            &&& 0 <= used <= s.len()
            &&& items.len() == count
            &&& forall|i: int| 0 <= i < items.len() ==> wf_frame(#[trigger] items[i])
        },
    decreases s.len(), count + 1,
{
    if count > 0 {
        lemma_decode_span(s);
        match spec_decode(s) {
            Err(e) => {},
            Ok((first, used)) => {
                lemma_decode_items_span(s.skip(used), (count - 1) as nat);
                match spec_decode_items(s.skip(used), (count - 1) as nat) {
                    Err(e) => {},
                    Ok((rest, more)) => {
                        let items = seq![first] + rest;
                        assert forall|i: int| 0 <= i < items.len() implies wf_frame(
                            #[trigger] items[i],
                        ) by {
                            if i > 0 {
                                assert(items[i] == rest[i - 1]);
                            }
                        }
                    },
                }
            },
        }
    }
}

/// The wire form of a run starts with the wire form of its first frame.
pub proof fn lemma_encode_all_front(items: Seq<Frame>)
    requires
        items.len() > 0,
    ensures
        spec_encode_all(items) == spec_encode(items[0]) + spec_encode_all(items.skip(1)),
    decreases items.len(),
{
    let front = items.drop_last();
    if items.len() == 1 {
        assert(front =~= Seq::<Frame>::empty());
        assert(items.skip(1) =~= Seq::<Frame>::empty());
        assert(spec_encode_all(items) =~= spec_encode(items[0]) + spec_encode_all(items.skip(1)));
    } else {
        lemma_encode_all_front(front);
        assert(items.skip(1).drop_last() =~= front.skip(1));
        assert(items.skip(1).last() == items.last());
        assert(front[0] == items[0]);
        assert(spec_encode_all(items) =~= spec_encode(items[0]) + spec_encode_all(items.skip(1)));
    }
}

/// A well-formed frame is written as at least three bytes.
pub proof fn lemma_encode_len(f: Frame)
    requires
        wf_frame(f),
    ensures
        spec_encode(f).len() >= 3,
{
    match f {
        Frame::Array(items) => {
            lemma_nat_digits(items.len());
        },
        Frame::BulkString(bytes) => {
            lemma_nat_digits(bytes.len());
        },
        Frame::SimpleString(text) => {},
        Frame::Integer(n) => {
            if n < 0 {
                lemma_nat_digits((-n) as nat);
            } else {
                lemma_nat_digits(n as nat);
            }
        },
        Frame::NullBulkString => {},
        Frame::Empty => {},
    }
}

/// Reading what was written gives the frame back and leaves exactly what
/// followed it: for every well-formed frame `f` and every `suffix`, the decoder
/// on `encode(f) ++ suffix` yields `f` and spans `encode(f)`.
pub proof fn lemma_decode_encode(f: Frame, suffix: Seq<u8>)
    requires
        wf_frame(f),
    ensures
        spec_decode(spec_encode(f) + suffix) == Ok::<(Frame, int), RespError>(
            (f, spec_encode(f).len() as int),
        ),
    decreases f,
{
    let s = spec_encode(f) + suffix;
    match f {
        Frame::Array(items) => {
            let line = nat_digits(items.len());
            let tail = spec_encode_all(items) + suffix;
            lemma_nat_digits(items.len());
            lemma_parse_nat_digits(items.len());
            lemma_header_line(42, line, tail);
            assert(s =~= seq![42u8] + line + crlf() + tail);
            assert(spec_parse_usize(line) == Some(items.len() as usize));
            lemma_decode_encode_all(items, suffix);
        },
        Frame::BulkString(bytes) => {
            let line = nat_digits(bytes.len());
            let tail = bytes + crlf() + suffix;
            lemma_nat_digits(bytes.len());
            lemma_parse_nat_digits(bytes.len());
            lemma_header_line(36, line, tail);
            assert(s =~= seq![36u8] + line + crlf() + tail);
            assert(is_digit(line[0]));
            assert(line != seq![45u8, 49u8]);
            assert(spec_parse_usize(line) == Some(bytes.len() as usize));
            assert(tail.take(bytes.len() as int) =~= bytes);
            assert(tail[bytes.len() as int] == 13 && tail[bytes.len() as int + 1] == 10);
        },
        Frame::SimpleString(text) => {
            lemma_header_line(43, text, suffix);
            assert(s =~= seq![43u8] + text + crlf() + suffix);
        },
        Frame::Integer(n) => {
            let line = int_digits(n as int);
            assert forall|i: int| 0 <= i < line.len() implies line[i] != 13 by {
                lemma_int_digits_bytes(n as int, i);
            }
            lemma_header_line(58, line, suffix);
            lemma_parse_int_digits(n as int);
            assert(s =~= seq![58u8] + line + crlf() + suffix);
            assert(spec_parse_i64(line) == Some(n));
        },
        Frame::NullBulkString => {
            let line = seq![45u8, 49u8];
            lemma_header_line(36, line, suffix);
            assert(s =~= seq![36u8] + line + crlf() + suffix);
        },
        Frame::Empty => {},
    }
}

/// Reading a run of written frames gives the run back.
pub proof fn lemma_decode_encode_all(items: Seq<Frame>, suffix: Seq<u8>)
    requires
        forall|i: int| 0 <= i < items.len() ==> wf_frame(#[trigger] items[i]),
    ensures
        spec_decode_items(spec_encode_all(items) + suffix, items.len()) == Ok::<
            (Seq<Frame>, int),
            RespError,
        >((items, spec_encode_all(items).len() as int)),
    decreases items,
{
    if items.len() == 0 {
        assert(items =~= Seq::<Frame>::empty());
    } else {
        let first = items[0];
        let rest = items.skip(1);
        let s = spec_encode_all(items) + suffix;
        let tail = spec_encode_all(rest) + suffix;
        lemma_encode_all_front(items);
        assert(s =~= spec_encode(first) + tail);
        assert(wf_frame(first));
        lemma_encode_len(first);
        lemma_decode_encode(first, tail);
        assert(s.skip(spec_encode(first).len() as int) =~= tail);
        assert forall|i: int| 0 <= i < rest.len() implies wf_frame(#[trigger] rest[i]) by {
            assert(rest[i] == items[i + 1]);
        }
        lemma_decode_encode_all(rest, suffix);
        assert(seq![first] + rest =~= items);
    }
}

/// Reading exactly what was written leaves nothing over.
pub proof fn lemma_decode_encode_exact(f: Frame)
    requires
        wf_frame(f),
    ensures
        spec_decode(spec_encode(f)) == Ok::<(Frame, int), RespError>(
            (f, spec_encode(f).len() as int),
        ),
        spec_encode(f).skip(spec_encode(f).len() as int) == Seq::<u8>::empty(),
{
    lemma_decode_encode(f, Seq::empty());
    assert(spec_encode(f) + Seq::<u8>::empty() =~= spec_encode(f));
    assert(spec_encode(f).skip(spec_encode(f).len() as int) =~= Seq::<u8>::empty());
}

/// What was read can be written and read again: where a buffer yields a
/// frame, the wire form of that frame followed by any `suffix` yields the same
/// frame and leaves exactly `suffix`.
pub proof fn lemma_decode_again(s: Seq<u8>, suffix: Seq<u8>)
    ensures
        spec_decode(s) matches Ok((frame, used)) ==> {
            &&& 0 < used <= s.len()
            &&& s.skip(used).len() == s.len() - used
            &&& spec_decode(spec_encode(frame) + suffix) == Ok::<(Frame, int), RespError>(
                (frame, spec_encode(frame).len() as int),
            )
            &&& (spec_encode(frame) + suffix).skip(spec_encode(frame).len() as int) == suffix
        },
{
    if let Ok((frame, used)) = spec_decode(s) {
        lemma_decode_span(s);
        lemma_decode_encode(frame, suffix);
        assert((spec_encode(frame) + suffix).skip(spec_encode(frame).len() as int) =~= suffix);
    }
}

/// The first line break of a buffer is also the first line break of every
/// buffer that agrees with it up to and including that break.
pub proof fn lemma_line_break_agrees(s: Seq<u8>, other: Seq<u8>, end: int)
    requires
        line_break(s) == Some(end),
        other.len() >= end + 2,
        forall|i: int| 0 <= i < end + 2 ==> other[i] == s[i],
    ensures
        line_break(other) == Some(end),
        other.subrange(1, end) == s.subrange(1, end) || end < 1,
{
    lemma_line_break_some(s);
    assert(is_crlf_at(other, end));
    assert forall|j: int| 0 <= j < end implies !is_crlf_at(other, j) by {
        assert(!is_crlf_at(s, j));
    }
    lemma_line_break_unique(other, end);
    if end >= 1 {
        assert(other.subrange(1, end) =~= s.subrange(1, end));
    }
}

/// A buffer that stops before the end of its first line break has none.
pub proof fn lemma_line_break_cut(s: Seq<u8>, m: int)
    requires
        line_break(s) matches Some(end) && 0 <= m < end + 2,
    ensures
        line_break(s.take(m)) is None,
{
    lemma_line_break_some(s);
    let end = line_break(s)->Some_0;
    let cut = s.take(m);
    if exists|i: int| is_line_break(cut, i) {
        let i = choose|i: int| is_line_break(cut, i);
        assert(is_crlf_at(cut, i));
        assert(is_crlf_at(s, i));
        assert(i < end);
    }
}

/// What is read depends on nothing behind the frame: where a buffer yields a
/// frame, the bytes that the frame spans yield the same frame whatever
/// follows them.
pub proof fn lemma_decode_prefix(s: Seq<u8>, t: Seq<u8>)
    ensures
        spec_decode(s) matches Ok((frame, used)) ==> spec_decode(s.take(used) + t) == spec_decode(
            s,
        ),
    decreases s.len(), 0nat,
{
    if let Ok((frame, used)) = spec_decode(s) {
        lemma_decode_span(s);
        lemma_line_break_some(s);
        let end = line_break(s)->Some_0;
        let header = end + 2;
        let other = s.take(used) + t;
        let line = s.subrange(1, end);
        let body = s.skip(header);
        assert(end >= 1);
        if s[0] == 36 && line != seq![45u8, 49u8] {
            let len = spec_parse_usize(line)->Some_0;
            assert(used == header + len + 2);
            lemma_line_break_agrees(s, other, end);
            assert(other.skip(header).take(len as int) =~= body.take(len as int));
            assert(other.skip(header)[len as int] == body[len as int]);
            assert(other.skip(header)[len as int + 1] == body[len as int + 1]);
        } else if s[0] == 42 {
            let count = spec_parse_usize(line)->Some_0;
            lemma_decode_items_span(body, count as nat);
            let span = spec_decode_items(body, count as nat)->Ok_0.1;
            assert(used == header + span);
            lemma_line_break_agrees(s, other, end);
            lemma_decode_items_prefix(body, count as nat, t);
            assert(other.skip(header) =~= body.take(span) + t);
        } else {
            assert(used == header);
            lemma_line_break_agrees(s, other, end);
        }
    }
}

pub proof fn lemma_decode_items_prefix(s: Seq<u8>, count: nat, t: Seq<u8>)
    ensures
        spec_decode_items(s, count) matches Ok((items, used)) ==> spec_decode_items(
            s.take(used) + t,
            count,
        ) == spec_decode_items(s, count),
    decreases s.len(), count + 1,
{
    if let Ok((items, used)) = spec_decode_items(s, count) {
        if count > 0 {
            lemma_decode_span(s);
            let span = spec_decode(s)->Ok_0.1;
            let rest = s.skip(span);
            lemma_decode_items_span(rest, (count - 1) as nat);
            let more = spec_decode_items(rest, (count - 1) as nat)->Ok_0.1;
            assert(used == span + more);
            let other = s.take(used) + t;
            let behind = s.take(used).skip(span) + t;
            lemma_decode_prefix(s, behind);
            assert(s.take(span) + behind =~= other);
            lemma_decode_items_prefix(rest, (count - 1) as nat, t);
            assert(other.skip(span) =~= rest.take(more) + t);
        } else {
            assert(s.take(0) + t =~= t);
        }
    }
}

/// No less than the whole frame will do: where a buffer yields a frame, every
/// shorter beginning of the bytes that the frame spans is incomplete.
pub proof fn lemma_decode_minimal(s: Seq<u8>, m: int)
    requires
        spec_decode(s) matches Ok((frame, used)) && 0 <= m < used,
    ensures
        spec_decode(s.take(m)) == Err::<(Frame, int), RespError>(RespError::Incomplete),
    decreases s.len(), 0nat,
{
    lemma_decode_span(s);
    lemma_line_break_some(s);
    let used = spec_decode(s)->Ok_0.1;
    let end = line_break(s)->Some_0;
    let header = end + 2;
    let cut = s.take(m);
    let line = s.subrange(1, end);
    let body = s.skip(header);
    assert(end >= 1);
    if m == 0 {
    } else if m < header {
        lemma_line_break_cut(s, m);
    } else {
        lemma_line_break_agrees(s, cut, end);
        if s[0] == 36 && line != seq![45u8, 49u8] {
        } else if s[0] == 42 {
            let count = spec_parse_usize(line)->Some_0;
            lemma_decode_items_span(body, count as nat);
            lemma_decode_items_minimal(body, count as nat, m - header);
            assert(cut.skip(header) =~= body.take(m - header));
        } else {
            assert(used == header);
        }
    }
}

pub proof fn lemma_decode_items_minimal(s: Seq<u8>, count: nat, m: int)
    requires
        spec_decode_items(s, count) matches Ok((items, used)) && 0 <= m < used,
    ensures
        spec_decode_items(s.take(m), count) == Err::<(Seq<Frame>, int), RespError>(
            RespError::Incomplete,
        ),
    decreases s.len(), count + 1,
{
    lemma_decode_span(s);
    let span = spec_decode(s)->Ok_0.1;
    let rest = s.skip(span);
    lemma_decode_items_span(rest, (count - 1) as nat);
    let cut = s.take(m);
    if m < span {
        lemma_decode_minimal(s, m);
    } else {
        lemma_decode_prefix(s, cut.skip(span));
        assert(s.take(span) + cut.skip(span) =~= cut);
        lemma_decode_items_minimal(rest, (count - 1) as nat, m - span);
        assert(cut.skip(span) =~= rest.take(m - span));
    }
}

} // verus!
