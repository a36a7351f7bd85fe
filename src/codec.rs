use vstd::prelude::*;
use vstd::slice::slice_to_vec;
use vstd::utf8::*;

use crate::decimal::{decimal, decimal_digits, lemma_decimal_digits, parse_unsigned, unsigned_at_most};
use crate::text::utf8_text;

verus! {

/// The line break of the wire format.
pub open spec fn crlf() -> Seq<u8> {
    seq![13u8, 10u8]
}

/// A header line: a type marker, a decimal number and a line break.
pub open spec fn header(marker: u8, n: nat) -> Seq<u8> {
    seq![marker] + decimal(n) + crlf()
}

/// One length-prefixed element: `$<len>\r\n<bytes>\r\n`.
pub open spec fn bulk(b: Seq<u8>) -> Seq<u8> {
    header(36u8, b.len()) + b + crlf()
}

/// The elements of an array, one after the other.
pub open spec fn bulk_elements(ts: Seq<Seq<u8>>) -> Seq<u8>
    decreases ts.len(),
{
    if ts.len() == 0 {
        Seq::empty()
    } else {
        bulk_elements(ts.drop_last()) + bulk(ts.last())
    }
}

/// An array of bulk strings: `*<n>\r\n` followed by the `n` elements.
pub open spec fn array_frame(ts: Seq<Seq<u8>>) -> Seq<u8> {
    header(42u8, ts.len()) + bulk_elements(ts)
}

/// The pieces of `b` between single spaces, as `str::split(" ")` cuts them: `k` spaces
/// give `k + 1` pieces, some of which may be empty.
pub open spec fn split_spaces(b: Seq<u8>) -> Seq<Seq<u8>>
    decreases b.len(),
{
    if b.len() == 0 {
        seq![Seq::empty()]
    } else {
        let init = split_spaces(b.drop_last());
        if b.last() == 32u8 {
            init.push(Seq::empty())
        } else {
            init.update(init.len() - 1, init.last().push(b.last()))
        }
    }
}

/// The request frame for a command text: the text cut at single spaces, sent as an array
/// of bulk strings.
pub open spec fn request_frame(text: Seq<char>) -> Seq<u8> {
    array_frame(split_spaces(encode_utf8(text)))
}

/// The five shapes of a reply on the wire.
pub enum ResponseType {
    /// `+<text>\r\n`
    SimpleString(String),
    /// `$<len>\r\n<text>\r\n`, or `$-1\r\n` when absent
    BulkString(Option<String>),
    /// `-<text>\r\n`
    SimpleError(String),
    /// `$<len>\r\n<bytes>`, with no line break after the bytes
    RdbFile(Vec<u8>),
    /// The text cut at single spaces, as an array of bulk strings
    RESPArray(String),
}

/// The bytes that a reply is written as.
pub open spec fn response_bytes(r: ResponseType) -> Seq<u8> {
    match r {
        ResponseType::SimpleString(s) => seq![43u8] + encode_utf8(s@) + crlf(),
        ResponseType::BulkString(Some(s)) => bulk(encode_utf8(s@)),
        ResponseType::BulkString(None) => seq![36u8, 45u8, 49u8, 13u8, 10u8],
        ResponseType::SimpleError(s) => seq![45u8] + encode_utf8(s@) + crlf(),
        ResponseType::RdbFile(p) => header(36u8, p@.len()) + p@,
        ResponseType::RESPArray(s) => request_frame(s@),
    }
}

fn put_slice(buf: &mut Vec<u8>, s: &[u8])
    ensures
        final(buf)@ == old(buf)@ + s@,
{
    let mut i: usize = 0;
    while i < s.len()
        invariant
            i <= s@.len(),
            buf@ == old(buf)@ + s@.take(i as int),
        decreases s.len() - i,
    {
        buf.push(s[i]);
        i = i + 1;
        assert(buf@ =~= old(buf)@ + s@.take(i as int));
    }
    assert(s@.take(i as int) =~= s@);
}

fn put_crlf(buf: &mut Vec<u8>)
    ensures
        final(buf)@ == old(buf)@ + crlf(),
{
    buf.push(13u8);
    buf.push(10u8);
    assert(buf@ =~= old(buf)@ + crlf());
}

fn put_header(buf: &mut Vec<u8>, marker: u8, n: usize)
    ensures
        final(buf)@ == old(buf)@ + header(marker, n as nat),
{
    let digits = decimal_digits(n as u64);
    buf.push(marker);
    put_slice(buf, digits.as_slice());
    put_crlf(buf);
    assert(buf@ =~= old(buf)@ + header(marker, n as nat));
}

fn put_bulk(buf: &mut Vec<u8>, b: &[u8])
    ensures
        final(buf)@ == old(buf)@ + bulk(b@),
{
    put_header(buf, 36u8, b.len());
    put_slice(buf, b);
    put_crlf(buf);
    assert(buf@ =~= old(buf)@ + bulk(b@));
}

/// Cuts `b` at single spaces.
pub fn split_spaces_of(b: &[u8]) -> (r: Vec<Vec<u8>>)
    ensures
        r@.map_values(|v: Vec<u8>| v@) == split_spaces(b@),
{
    let mut pieces: Vec<Vec<u8>> = Vec::new();
    let mut cur: Vec<u8> = Vec::new();
    let mut i: usize = 0;
    assert(b@.take(0) == Seq::<u8>::empty());
    while i < b.len()
        invariant
            i <= b@.len(),
            pieces@.map_values(|v: Vec<u8>| v@).push(cur@) == split_spaces(b@.take(i as int)),
        decreases b.len() - i,
    {
        let ghost before = pieces@.map_values(|v: Vec<u8>| v@).push(cur@);
        assert(b@.take(i + 1).drop_last() == b@.take(i as int));
        if b[i] == 32u8 {
            pieces.push(cur);
            cur = Vec::new();
            assert(pieces@.map_values(|v: Vec<u8>| v@).push(cur@) == before.push(Seq::empty()));
        } else {
            cur.push(b[i]);
            assert(pieces@.map_values(|v: Vec<u8>| v@).push(cur@) == before.update(
                before.len() - 1,
                before.last().push(b[i as int]),
            ));
        }
        i = i + 1;
    }
    assert(b@.take(i as int) == b@);
    pieces.push(cur);
    assert(pieces@.map_values(|v: Vec<u8>| v@) == split_spaces(b@));
    pieces
}

/// Writes `tokens` as an array of bulk strings.
pub fn encode_array(tokens: &Vec<Vec<u8>>) -> (r: Vec<u8>)
    ensures
        r@ == array_frame(tokens@.map_values(|v: Vec<u8>| v@)),
{
    let ghost ts = tokens@.map_values(|v: Vec<u8>| v@);
    let mut buf: Vec<u8> = Vec::new();
    put_header(&mut buf, 42u8, tokens.len());
    let mut i: usize = 0;
    assert(ts.take(0) == Seq::<Seq<u8>>::empty());
    while i < tokens.len()
        invariant
            i <= tokens@.len(),
            ts == tokens@.map_values(|v: Vec<u8>| v@),
            buf@ == header(42u8, ts.len()) + bulk_elements(ts.take(i as int)),
        decreases tokens.len() - i,
    {
        proof {
            assert(ts.take(i + 1).drop_last() == ts.take(i as int));
            assert(ts[i as int] == tokens[i as int]@);
        }
        put_bulk(&mut buf, tokens[i].as_slice());
        i = i + 1;
        assert(buf@ == header(42u8, ts.len()) + bulk_elements(ts.take(i as int)));
    }
    assert(ts.take(i as int) == ts);
    buf
}

/// Writes a command text as a request: an array of the text's pieces between single spaces.
pub fn encode_request(content: &str) -> (r: Vec<u8>)
    ensures
        r@ == request_frame(content@),
{
    let tokens = split_spaces_of(content.as_bytes());
    encode_array(&tokens)
}

/// Writes a reply in its wire form.
pub fn encode_response(response: &ResponseType) -> (r: Vec<u8>)
    ensures
        r@ == response_bytes(*response),
{
    match response {
        ResponseType::SimpleString(content) => {
            let mut buf: Vec<u8> = Vec::new();
            buf.push(43u8);
            put_slice(&mut buf, content.as_str().as_bytes());
            put_crlf(&mut buf);
            assert(buf@ == response_bytes(*response));
            buf
        },
        ResponseType::BulkString(Some(content)) => {
            let mut buf: Vec<u8> = Vec::new();
            put_bulk(&mut buf, content.as_str().as_bytes());
            assert(buf@ == response_bytes(*response));
            buf
        },
        ResponseType::BulkString(None) => {
            let mut buf: Vec<u8> = Vec::new();
            buf.push(36u8);
            buf.push(45u8);
            buf.push(49u8);
            put_crlf(&mut buf);
            assert(buf@ == response_bytes(*response));
            buf
        },
        ResponseType::SimpleError(content) => {
            let mut buf: Vec<u8> = Vec::new();
            buf.push(45u8);
            put_slice(&mut buf, content.as_str().as_bytes());
            put_crlf(&mut buf);
            assert(buf@ == response_bytes(*response));
            buf
        },
        ResponseType::RdbFile(payload) => {
            let mut buf: Vec<u8> = Vec::new();
            put_header(&mut buf, 36u8, payload.len());
            put_slice(&mut buf, payload.as_slice());
            assert(buf@ == response_bytes(*response));
            buf
        },
        ResponseType::RESPArray(content) => encode_request(content.as_str()),
    }
}

/// What the start of a byte buffer holds, read as one frame.
pub enum Decoding<T> {
    /// A whole frame: what it carries and the number of bytes it takes
    Frame(T, int),
    /// A frame that has begun and is not complete yet
    NeedMore,
    /// Bytes that no frame starts with
    Malformed,
}

/// The first line break at or after `from`.
pub open spec fn find_crlf(b: Seq<u8>, from: int) -> Option<int>
    decreases b.len() - from,
{
    if from < 0 || from + 1 >= b.len() {
        None
    } else if b[from] == 13u8 && b[from + 1] == 10u8 {
        Some(from)
    } else {
        find_crlf(b, from + 1)
    }
}

/// Where a frame starts: after one blank line, if the buffer begins with one.
pub open spec fn frame_start(b: Seq<u8>) -> int {
    if b.len() >= 2 && b[0] == 13u8 && b[1] == 10u8 {
        2
    } else {
        0
    }
}

/// A header line `<marker><n>`, with `n` an unsigned number that fits in a `usize`.
pub open spec fn length_line(line: Seq<u8>, marker: u8) -> Option<nat> {
    if line.len() > 0 && line[0] == marker {
        unsigned_at_most(line.drop_first(), usize::MAX as nat)
    } else {
        None
    }
}

/// The bulk string element that starts at `pos`, decoded as UTF-8 text.
pub open spec fn element_at(b: Seq<u8>, pos: int) -> Decoding<Seq<char>> {
    match find_crlf(b, pos) {
        None => Decoding::NeedMore,
        Some(e) => match length_line(b.subrange(pos, e), 36u8) {
            None => Decoding::Malformed,
            Some(len) => {
                let start = e + 2;
                if b.len() < start + len + 2 {
                    Decoding::NeedMore
                } else if b.subrange(start + len, start + len + 2) != crlf() {
                    Decoding::Malformed
                } else if !valid_utf8(b.subrange(start, start + len)) {
                    Decoding::Malformed
                } else {
                    Decoding::Frame(decode_utf8(b.subrange(start, start + len)), start + len + 2)
                }
            },
        },
    }
}

/// `k` elements, one after the other, from `pos` on.
pub open spec fn elements_from(b: Seq<u8>, pos: int, k: nat) -> Decoding<Seq<Seq<char>>>
    decreases k,
{
    if k == 0 {
        Decoding::Frame(Seq::empty(), pos)
    } else {
        match element_at(b, pos) {
            Decoding::Frame(t, next) => match elements_from(b, next, (k - 1) as nat) {
                Decoding::Frame(ts, end) => Decoding::Frame(seq![t] + ts, end),
                Decoding::NeedMore => Decoding::NeedMore,
                Decoding::Malformed => Decoding::Malformed,
            },
            Decoding::NeedMore => Decoding::NeedMore,
            Decoding::Malformed => Decoding::Malformed,
        }
    }
}

/// A request at the start of `b`: at most one blank line, then `*<n>\r\n` and `n` bulk
/// string elements.
pub open spec fn request_outcome(b: Seq<u8>) -> Decoding<Seq<Seq<char>>> {
    let start = frame_start(b);
    match find_crlf(b, start) {
        None => Decoding::NeedMore,
        Some(e) => match length_line(b.subrange(start, e), 42u8) {
            None => Decoding::Malformed,
            Some(n) => elements_from(b, e + 2, n),
        },
    }
}

/// The result of reading a request from the start of a buffer.
pub enum RequestDecode {
    /// The request's tokens and the number of bytes it took
    Complete(Vec<String>, usize),
    /// The request has begun and is not complete yet
    Incomplete,
    /// The bytes do not form a request
    Invalid,
}

impl View for RequestDecode {
    type V = Decoding<Seq<Seq<char>>>;

    open spec fn view(&self) -> Decoding<Seq<Seq<char>>> {
        match self {
            RequestDecode::Complete(ts, n) => Decoding::Frame(
                ts@.map_values(|s: String| s@),
                *n as int,
            ),
            RequestDecode::Incomplete => Decoding::NeedMore,
            RequestDecode::Invalid => Decoding::Malformed,
        }
    }
}

fn find_line_end(b: &[u8], from: usize) -> (r: Option<usize>)
    ensures
        r is None ==> find_crlf(b@, from as int) is None,
        r matches Some(e) ==> find_crlf(b@, from as int) == Some(e as int) && from <= e && e + 2
            <= b@.len(),
{
    let mut i: usize = from;
    while i < b.len() && i + 1 < b.len()
        invariant
            from <= i,
            find_crlf(b@, from as int) == find_crlf(b@, i as int),
        decreases b.len() - i,
    {
        if b[i] == 13u8 && b[i + 1] == 10u8 {
            return Some(i);
        }
        i = i + 1;
    }
    None
}

fn read_length_line(b: &[u8], from: usize, end: usize, marker: u8) -> (r: Option<usize>)
    requires
        from <= end <= b@.len(),
    ensures
        r is None ==> length_line(b@.subrange(from as int, end as int), marker) is None,
        r matches Some(n) ==> length_line(b@.subrange(from as int, end as int), marker) == Some(
            n as nat,
        ),
{
    let ghost line = b@.subrange(from as int, end as int);
    if from == end || b[from] != marker {
        return None;
    }
    let digits = &b[from + 1..end];
    assert(digits@ == line.drop_first());
    match parse_unsigned(digits) {
        Some(v) => {
            if v > usize::MAX as u64 {
                None
            } else {
                Some(v as usize)
            }
        },
        None => None,
    }
}

enum ElementDecode {
    Token(String, usize),
    Incomplete,
    Invalid,
}

fn decode_element(b: &[u8], pos: usize) -> (r: ElementDecode)
    ensures
        match (r, element_at(b@, pos as int)) {
            (ElementDecode::Token(t, next), Decoding::Frame(ct, cnext)) => t@ == ct && next
                == cnext,
            (ElementDecode::Incomplete, Decoding::NeedMore) => true,
            (ElementDecode::Invalid, Decoding::Malformed) => true,
            _ => false,
        },
        r matches ElementDecode::Token(_, next) ==> pos < next <= b@.len(),
{
    let blen = b.len();
    let found = find_line_end(b, pos);
    if found.is_none() {
        return ElementDecode::Incomplete;
    }
    let e = found.unwrap();
    let len = match read_length_line(b, pos, e, 36u8) {
        Some(len) => len,
        None => {
            return ElementDecode::Invalid;
        },
    };
    let start: usize = e + 2;
    if len > blen - start || blen - start - len < 2 {
        return ElementDecode::Incomplete;
    }
    let stop = start + len;
    if b[stop] != 13u8 || b[stop + 1] != 10u8 {
        assert(b@.subrange(stop as int, stop + 2)[0] == b@[stop as int]);
        assert(b@.subrange(stop as int, stop + 2)[1] == b@[stop + 1]);
        return ElementDecode::Invalid;
    }
    assert(b@.subrange(stop as int, stop + 2) == crlf());
    let bytes = slice_to_vec(&b[start..stop]);
    match utf8_text(bytes) {
        Some(t) => ElementDecode::Token(t, stop + 2),
        None => ElementDecode::Invalid,
    }
}

/// Reads one request from the start of `b`: at most one leading blank line, then
/// `*<n>\r\n` and `n` elements `$<len>\r\n<len bytes>\r\n`, each valid UTF-8.
pub fn decode_request(b: &[u8]) -> (r: RequestDecode)
    ensures
        r@ == request_outcome(b@),
        r matches RequestDecode::Complete(_, n) ==> n <= b@.len(),
{
    let start: usize = if b.len() >= 2 && b[0] == 13u8 && b[1] == 10u8 {
        2
    } else {
        0
    };
    let e = match find_line_end(b, start) {
        Some(e) => e,
        None => {
            return RequestDecode::Incomplete;
        },
    };
    let n = match read_length_line(b, start, e, 42u8) {
        Some(n) => n,
        None => {
            return RequestDecode::Invalid;
        },
    };
    let ghost first = e + 2;
    let mut tokens: Vec<String> = Vec::new();
    let mut pos: usize = e + 2;
    let mut i: usize = 0;
    while i < n
        invariant
            i <= n,
            pos <= b@.len(),
            request_outcome(b@) == elements_from(b@, first, n as nat),
            elements_from(b@, first, n as nat) == prefixed(
                tokens@.map_values(|s: String| s@),
                elements_from(b@, pos as int, (n - i) as nat),
            ),
        decreases n - i,
    {
        let ghost acc = tokens@.map_values(|s: String| s@);
        match decode_element(b, pos) {
            ElementDecode::Token(t, next) => {
                let ghost rest = elements_from(b@, next as int, (n - i - 1) as nat);
                assert(elements_from(b@, pos as int, (n - i) as nat) == prefixed(seq![t@], rest));
                tokens.push(t);
                assert(tokens@.map_values(|s: String| s@) == acc.push(t@));
                proof { lemma_prefixed_push(acc, t@, rest); }
                pos = next;
            },
            ElementDecode::Incomplete => {
                return RequestDecode::Incomplete;
            },
            ElementDecode::Invalid => {
                return RequestDecode::Invalid;
            },
        }
        i = i + 1;
    }
    assert(elements_from(b@, pos as int, 0) == Decoding::Frame(Seq::<Seq<char>>::empty(), pos as int));
    assert(tokens@.map_values(|s: String| s@) + Seq::<Seq<char>>::empty() == tokens@.map_values(|s: String| s@));
    RequestDecode::Complete(tokens, pos)
}

/// `d` with `acc` put in front of the tokens it carries.
pub open spec fn prefixed(acc: Seq<Seq<char>>, d: Decoding<Seq<Seq<char>>>) -> Decoding<Seq<Seq<char>>> {
    match d {
        Decoding::Frame(ts, end) => Decoding::Frame(acc + ts, end),
        Decoding::NeedMore => Decoding::NeedMore,
        Decoding::Malformed => Decoding::Malformed,
    }
}

proof fn lemma_prefixed_push(acc: Seq<Seq<char>>, t: Seq<char>, d: Decoding<Seq<Seq<char>>>)
    ensures
        prefixed(acc, prefixed(seq![t], d)) == prefixed(acc.push(t), d),
{
    if let Decoding::Frame(ts, end) = d {
        assert(acc + (seq![t] + ts) == acc.push(t) + ts);
    }
}

/// A reply as a client reads it: the text of a simple string or error, or the bytes of a
/// length-prefixed payload.
pub enum Reply {
    Text(String),
    Payload(Vec<u8>),
}

/// The value of a [`Reply`].
pub enum ReplyModel {
    Text(Seq<char>),
    Payload(Seq<u8>),
}

impl View for Reply {
    type V = ReplyModel;

    open spec fn view(&self) -> ReplyModel {
        match self {
            Reply::Text(s) => ReplyModel::Text(s@),
            Reply::Payload(p) => ReplyModel::Payload(p@),
        }
    }
}

/// A reply at the start of `b`: at most one blank line, then either `+<text>\r\n` or
/// `-<text>\r\n` (valid UTF-8), or `$<len>\r\n` followed by exactly `len` bytes, with no
/// line break read after them.
pub open spec fn response_outcome(b: Seq<u8>) -> Decoding<ReplyModel> {
    let start = frame_start(b);
    match find_crlf(b, start) {
        None => Decoding::NeedMore,
        Some(e) => {
            let line = b.subrange(start, e);
            if line.len() > 0 && (line[0] == 43u8 || line[0] == 45u8) {
                if valid_utf8(line.drop_first()) {
                    Decoding::Frame(ReplyModel::Text(decode_utf8(line.drop_first())), e + 2)
                } else {
                    Decoding::Malformed
                }
            } else {
                match length_line(line, 36u8) {
                    None => Decoding::Malformed,
                    Some(len) => if b.len() < e + 2 + len {
                        Decoding::NeedMore
                    } else {
                        Decoding::Frame(
                            ReplyModel::Payload(b.subrange(e + 2, e + 2 + len)),
                            e + 2 + len,
                        )
                    },
                }
            }
        },
    }
}

/// The result of reading a reply from the start of a buffer.
pub enum ResponseDecode {
    /// The reply and the number of bytes it took
    Complete(Reply, usize),
    /// The reply has begun and is not complete yet
    Incomplete,
    /// The bytes do not form a reply of a supported kind
    Invalid,
}

impl View for ResponseDecode {
    type V = Decoding<ReplyModel>;

    open spec fn view(&self) -> Decoding<ReplyModel> {
        match self {
            ResponseDecode::Complete(r, n) => Decoding::Frame(r@, *n as int),
            ResponseDecode::Incomplete => Decoding::NeedMore,
            ResponseDecode::Invalid => Decoding::Malformed,
        }
    }
}

/// Reads one reply from the start of `b`, as [`response_outcome`] describes it.
pub fn decode_response(b: &[u8]) -> (r: ResponseDecode)
    ensures
        r@ == response_outcome(b@),
        r matches ResponseDecode::Complete(_, n) ==> n <= b@.len(),
{
    let blen = b.len();
    let start: usize = if b.len() >= 2 && b[0] == 13u8 && b[1] == 10u8 {
        2
    } else {
        0
    };
    let found = find_line_end(b, start);
    if found.is_none() {
        return ResponseDecode::Incomplete;
    }
    let e = found.unwrap();
    let ghost line = b@.subrange(start as int, e as int);
    if e > start && (b[start] == 43u8 || b[start] == 45u8) {
        let text = slice_to_vec(&b[start + 1..e]);
        assert(text@ == line.drop_first());
        return match utf8_text(text) {
            Some(t) => ResponseDecode::Complete(Reply::Text(t), e + 2),
            None => ResponseDecode::Invalid,
        };
    }
    let len = match read_length_line(b, start, e, 36u8) {
        Some(len) => len,
        None => {
            return ResponseDecode::Invalid;
        },
    };
    let from: usize = e + 2;
    if len > blen - from {
        return ResponseDecode::Incomplete;
    }
    let payload = slice_to_vec(&b[from..from + len]);
    ResponseDecode::Complete(Reply::Payload(payload), from + len)
}

/// Whether `b` holds no space byte.
pub open spec fn no_space_byte(b: Seq<u8>) -> bool {
    forall|i: int| 0 <= i < b.len() ==> #[trigger] b[i] != 32u8
}

pub proof fn lemma_split_no_space(x: Seq<u8>)
    requires
        no_space_byte(x),
    ensures
        split_spaces(x) == seq![x],
    decreases x.len(),
{
    if x.len() > 0 {
        lemma_split_no_space(x.drop_last());
        assert(x.drop_last().push(x.last()) =~= x);
        assert(x.last() != 32u8);
        assert(seq![x.drop_last()].update(0, x.drop_last().push(x.last())) =~= seq![x]);
    } else {
        assert(x == Seq::<u8>::empty());
    }
}

pub proof fn lemma_split_after_space(x: Seq<u8>, y: Seq<u8>)
    requires
        no_space_byte(y),
    ensures
        split_spaces(x + seq![32u8] + y) == split_spaces(x).push(y),
    decreases y.len(),
{
    let b = x + seq![32u8] + y;
    if y.len() == 0 {
        assert(b.drop_last() =~= x);
        assert(b.last() == 32u8);
        assert(y =~= Seq::<u8>::empty());
    } else {
        lemma_split_after_space(x, y.drop_last());
        assert(b.drop_last() == x + seq![32u8] + y.drop_last());
        assert(b.last() == y.last());
        assert(y.drop_last().push(y.last()) =~= y);
        assert(y.last() != 32u8);
        let init = split_spaces(x).push(y.drop_last());
        assert(init.update(init.len() - 1, init.last().push(y.last())) =~= split_spaces(x).push(y));
    }
}

/// The UTF-8 bytes of each token.
pub open spec fn utf8_tokens(ts: Seq<Seq<char>>) -> Seq<Seq<u8>> {
    ts.map_values(|t: Seq<char>| encode_utf8(t))
}

proof fn lemma_subrange_split(b: Seq<u8>, pos: int, x: Seq<u8>, y: Seq<u8>)
    requires
        0 <= pos,
        pos + x.len() + y.len() <= b.len(),
        b.subrange(pos, pos + x.len() + y.len()) == x + y,
    ensures
        b.subrange(pos, pos + x.len()) == x,
        b.subrange(pos + x.len(), pos + x.len() + y.len()) == y,
{
    assert forall|i: int| 0 <= i < x.len() implies b.subrange(pos, pos + x.len())[i] == x[i] by {
        assert(b.subrange(pos, pos + x.len() + y.len())[i] == (x + y)[i]);
    }
    assert forall|i: int| 0 <= i < y.len() implies b.subrange(
        pos + x.len(),
        pos + x.len() + y.len(),
    )[i] == y[i] by {
        assert(b.subrange(pos, pos + x.len() + y.len())[x.len() + i] == (x + y)[x.len() + i]);
        assert((x + y)[x.len() + i] == y[i]);
    }
    assert(b.subrange(pos, pos + x.len()) =~= x);
    assert(b.subrange(pos + x.len(), pos + x.len() + y.len()) =~= y);
}

proof fn lemma_find_crlf_skip(b: Seq<u8>, i: int, j: int)
    requires
        0 <= i <= j,
        j + 1 < b.len(),
        forall|k: int| i <= k < j ==> b[k] != 13u8,
    ensures
        find_crlf(b, i) == find_crlf(b, j),
    decreases j - i,
{
    if i < j {
        lemma_find_crlf_skip(b, i + 1, j);
    }
}

proof fn lemma_header_line(b: Seq<u8>, pos: int, marker: u8, n: nat)
    requires
        0 <= pos,
        pos + header(marker, n).len() <= b.len(),
        b.subrange(pos, pos + header(marker, n).len()) == header(marker, n),
        marker != 13u8,
        marker != 43u8,
        n <= usize::MAX,
    ensures
        find_crlf(b, pos) == Some(pos + 1 + decimal(n).len()),
        length_line(b.subrange(pos, pos + 1 + decimal(n).len()), marker) == Some(n),
        header(marker, n).len() == decimal(n).len() + 3,
{
    let h = header(marker, n);
    let d = decimal(n);
    let e = pos + 1 + d.len();
    lemma_decimal_digits(n);
    assert(h.len() == d.len() + 3);
    assert forall|k: int| pos <= k < e implies b[k] != 13u8 by {
        assert(b[k] == b.subrange(pos, pos + h.len())[k - pos]);
        if k > pos {
            assert(h[k - pos] == d[k - pos - 1]);
        }
    }
    assert(b[e] == b.subrange(pos, pos + h.len())[e - pos]);
    assert(b[e + 1] == b.subrange(pos, pos + h.len())[e + 1 - pos]);
    lemma_find_crlf_skip(b, pos, e);
    let line = b.subrange(pos, e);
    assert(line =~= seq![marker] + d) by {
        assert forall|k: int| 0 <= k < line.len() implies line[k] == (seq![marker] + d)[k] by {
            assert(line[k] == b.subrange(pos, pos + h.len())[k]);
        }
    }
    assert(line.drop_first() =~= d);
}

proof fn lemma_bulk_elements_cons(t: Seq<u8>, ts: Seq<Seq<u8>>)
    ensures
        bulk_elements(seq![t] + ts) == bulk(t) + bulk_elements(ts),
    decreases ts.len(),
{
    if ts.len() == 0 {
        assert(seq![t] + ts == seq![t]);
        assert(seq![t].drop_last() == Seq::<Seq<u8>>::empty());
        assert(seq![t].last() == t);
        assert(bulk_elements(Seq::<Seq<u8>>::empty()) == Seq::<u8>::empty());
        assert(bulk_elements(seq![t]) == Seq::<u8>::empty() + bulk(t));
        assert(bulk(t) + Seq::<u8>::empty() == bulk(t));
    } else {
        lemma_bulk_elements_cons(t, ts.drop_last());
        assert((seq![t] + ts).drop_last() == seq![t] + ts.drop_last());
        assert((seq![t] + ts).last() == ts.last());
        assert(bulk(t) + bulk_elements(ts.drop_last()) + bulk(ts.last()) == bulk(t) + (
        bulk_elements(ts.drop_last()) + bulk(ts.last())));
    }
}

proof fn lemma_element_decodes(b: Seq<u8>, pos: int, t: Seq<char>)
    requires
        0 <= pos,
        pos + bulk(encode_utf8(t)).len() <= b.len(),
        b.subrange(pos, pos + bulk(encode_utf8(t)).len()) == bulk(encode_utf8(t)),
        encode_utf8(t).len() <= usize::MAX,
    ensures
        element_at(b, pos) == Decoding::Frame(t, pos + bulk(encode_utf8(t)).len()),
{
    let c = encode_utf8(t);
    let h = header(36u8, c.len());
    lemma_subrange_split(b, pos, h + c, crlf());
    lemma_subrange_split(b, pos, h, c);
    lemma_header_line(b, pos, 36u8, c.len());
    let start = pos + h.len();
    vstd::utf8::encode_utf8_valid_utf8(t);
    vstd::utf8::encode_utf8_decode_utf8(t);
}

proof fn lemma_elements_decode(b: Seq<u8>, pos: int, ts: Seq<Seq<char>>)
    requires
        0 <= pos,
        pos + bulk_elements(utf8_tokens(ts)).len() <= b.len(),
        b.subrange(pos, pos + bulk_elements(utf8_tokens(ts)).len()) == bulk_elements(
            utf8_tokens(ts),
        ),
        forall|i: int| 0 <= i < ts.len() ==> (#[trigger] encode_utf8(ts[i])).len() <= usize::MAX,
    ensures
        elements_from(b, pos, ts.len()) == Decoding::Frame(
            ts,
            pos + bulk_elements(utf8_tokens(ts)).len(),
        ),
    decreases ts.len(),
{
    if ts.len() == 0 {
        assert(utf8_tokens(ts) == Seq::<Seq<u8>>::empty());
        assert(ts == Seq::<Seq<char>>::empty());
    } else {
        let t = ts[0];
        let tail = ts.drop_first();
        assert(utf8_tokens(ts) == seq![encode_utf8(t)] + utf8_tokens(tail));
        lemma_bulk_elements_cons(encode_utf8(t), utf8_tokens(tail));
        let x = bulk(encode_utf8(t));
        let y = bulk_elements(utf8_tokens(tail));
        lemma_subrange_split(b, pos, x, y);
        assert(encode_utf8(ts[0]).len() <= usize::MAX);
        lemma_element_decodes(b, pos, t);
        assert forall|i: int| 0 <= i < tail.len() implies (#[trigger] encode_utf8(
            tail[i],
        )).len() <= usize::MAX by {
            assert(tail[i] == ts[i + 1]);
        }
        lemma_elements_decode(b, pos + x.len(), tail);
        assert(seq![t] + tail == ts);
    }
}

/// Decoding an encoded request gives back its tokens: a request frame built from any
/// tokens (whose lengths fit in a `usize`), followed by any bytes, reads as exactly those
/// tokens, and the read takes exactly the frame's bytes.
pub proof fn lemma_request_round_trip(ts: Seq<Seq<char>>, rest: Seq<u8>)
    requires
        ts.len() <= usize::MAX,
        forall|i: int| 0 <= i < ts.len() ==> (#[trigger] encode_utf8(ts[i])).len() <= usize::MAX,
    ensures
        request_outcome(array_frame(utf8_tokens(ts)) + rest) == Decoding::Frame(
            ts,
            array_frame(utf8_tokens(ts)).len() as int,
        ),
{
    let bs = utf8_tokens(ts);
    let h = header(42u8, ts.len());
    let els = bulk_elements(bs);
    let b = array_frame(bs) + rest;
    assert(bs.len() == ts.len());
    assert(b.subrange(0, (h.len() + els.len()) as int) == h + els);
    lemma_subrange_split(b, 0, h, els);
    lemma_header_line(b, 0, 42u8, ts.len());
    assert(b[0] == 42u8);
    assert(frame_start(b) == 0);
    lemma_elements_decode(b, h.len() as int, ts);
}

} // verus!
