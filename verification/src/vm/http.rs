//! One HTTP/1.1 request and its response, over a connection that stays open.
//!
//! The response is framed by its header block and the `Content-Length` it announces: the reader
//! asks for no byte beyond that, since the peer keeps the connection open and there is no end of
//! file to wait for.

use crate::text::{
    chars_of, decimal_text, parse_unsigned, split_line, split_word, trim_chars,
};
#[allow(unused_imports)]
use crate::text::{
    decimal, decimal_reads_back, is_digit, lemma_decimal, lemma_encode_concat, lemma_first_line,
    lemma_first_word, lemma_trim_number, lines, lines_are_split, trim_keeps_the_inside, parsed_unsigned, trim, white_space, words, words_are_split,
};
use crate::vm::error::VmError;
use crate::vm::json::{is_null, null_value, value_from_slice, value_or_null, value_text};
#[allow(unused_imports)]
use crate::vm::json::{json_of, json_text, parsed_json, Json};
use serde_json::Value;
use vstd::prelude::*;
use vstd::slice::{slice_subrange, slice_to_vec};
use vstd::string::StringExecFns;
#[allow(unused_imports)]
use vstd::utf8::{
    decode_utf8, encode_scalar, encode_utf8, encode_utf8_decode_utf8, encode_utf8_valid_utf8,
    is_ascii_chars_encode_utf8, valid_utf8,
};

verus! {

/// Whether an empty line follows directly on the line before it: the bytes at `i` are a carriage
/// return, a line feed, a carriage return and a line feed.
pub open spec fn blank_line_at(s: Seq<u8>, i: int) -> bool {
    &&& 0 <= i <= s.len() - 4
    &&& s[i] == 13
    &&& s[i + 1] == 10
    &&& s[i + 2] == 13
    &&& s[i + 3] == 10
}

pub open spec fn header_end_from(s: Seq<u8>, i: int) -> Option<int>
    decreases s.len() - i,
{
    if i > s.len() - 4 {
        None
    } else if blank_line_at(s, i) {
        Some(i)
    } else {
        header_end_from(s, i + 1)
    }
}

/// The length of the header block: where the first blank line is.
pub open spec fn header_end(s: Seq<u8>) -> Option<int> {
    header_end_from(s, 0)
}

/// The status that a header block announces: the second word of its first line, or 0 where that
/// is no number of 16 bits.
pub open spec fn announced_status(text: Seq<char>) -> nat {
    let ls = lines(text);
    let ws = words(if ls.len() > 0 { ls[0] } else { seq![] });
    if ws.len() > 1 {
        match parsed_unsigned(ws[1], u16::MAX as nat) {
            Some(status) => status,
            None => 0,
        }
    } else {
        0
    }
}

/// `c`, in lower case if it is an ASCII letter.
pub open spec fn ascii_lower(c: char) -> char {
    if 'A' <= c <= 'Z' {
        (c as u32 + 32) as char
    } else {
        c
    }
}

/// Whether a line is the field `Content-Length`, in any case.
pub open spec fn is_length_field(line: Seq<char>) -> bool {
    &&& line.len() >= "content-length:"@.len()
    &&& forall|i: int|
        0 <= i < "content-length:"@.len() ==> ascii_lower(#[trigger] line[i])
            == "content-length:"@[i]
}

/// The first field `Content-Length` among the lines of a header block.
pub open spec fn length_field(ls: Seq<Seq<char>>) -> Option<Seq<char>>
    decreases ls.len(),
{
    if ls.len() == 0 {
        None
    } else if is_length_field(ls[0]) {
        Some(ls[0])
    } else {
        length_field(ls.drop_first())
    }
}

/// The number of bytes that a header block announces for the body: 0 where it announces none, or
/// nothing that is a number.
pub open spec fn announced_length(text: Seq<char>) -> nat {
    match length_field(lines(text)) {
        Some(line) => match parsed_unsigned(
            trim(line.skip("content-length:"@.len() as int)),
            usize::MAX as nat,
        ) {
            Some(length) => length,
            None => 0,
        },
        None => 0,
    }
}

/// The first blank line from `i` on is one, and no blank line lies before it.
proof fn lemma_header_end_from(s: Seq<u8>, i: int)
    requires
        0 <= i,
    ensures
        match header_end_from(s, i) {
            Some(h) => {
                &&& i <= h
                &&& blank_line_at(s, h)
                &&& forall|j: int| i <= j < h ==> !blank_line_at(s, j)
            },
            None => forall|j: int| i <= j ==> !blank_line_at(s, j),
        },
    decreases s.len() - i,
{
    if i <= s.len() - 4 && !blank_line_at(s, i) {
        lemma_header_end_from(s, i + 1);
    }
}

/// Where the first blank line from `i` on is.
proof fn lemma_header_end_at(s: Seq<u8>, i: int, h: int)
    requires
        0 <= i <= h,
        blank_line_at(s, h),
        forall|j: int| i <= j < h ==> !blank_line_at(s, j),
    ensures
        header_end_from(s, i) == Some(h),
    decreases h - i,
{
    if i < h {
        assert(!blank_line_at(s, i));
        lemma_header_end_at(s, i + 1, h);
    }
}

/// Bytes that follow do not move the end of the header block.
proof fn lemma_header_end_stays(s: Seq<u8>, t: Seq<u8>)
    requires
        header_end(s) is Some,
    ensures
        header_end(s + t) == header_end(s),
        0 <= header_end(s)->0 <= s.len() - 4,
        (s + t).take(header_end(s)->0) == s.take(header_end(s)->0),
{
    lemma_header_end_from(s, 0);
    let h = header_end(s)->0;
    assert(blank_line_at(s + t, h));
    assert forall|j: int| 0 <= j < h implies !blank_line_at(s + t, j) by {
        assert(!blank_line_at(s, j));
    }
    lemma_header_end_at(s + t, 0, h);
    assert((s + t).take(h) =~= s.take(h));
}

/// What a header block announces.
pub struct Head {
    pub status: u16,
    pub content_length: usize,
}

/// Finds the end of the header block.
pub fn find_header_end(s: &[u8]) -> (end: Option<usize>)
    ensures
        match end {
            Some(h) => header_end(s@) == Some(h as int),
            None => header_end(s@) is None,
        },
{
    let mut i: usize = 0;
    while i < s.len() && s.len() - i >= 4
        invariant
            i <= s@.len(),
            header_end(s@) == header_end_from(s@, i as int),
        decreases s.len() - i,
    {
        if s[i] == 13 && s[i + 1] == 10 && s[i + 2] == 13 && s[i + 3] == 10 {
            return Some(i);
        }
        i = i + 1;
    }
    None
}

/// The value of a line that is the field `Content-Length`.
fn length_value(line: &[char]) -> (value: Option<&[char]>)
    ensures
        match value {
            Some(v) => is_length_field(line@) && v@ == line@.skip("content-length:"@.len() as int),
            None => !is_length_field(line@),
        },
{
    let name = chars_of("content-length:");
    if line.len() < name.len() {
        return None;
    }
    let mut i: usize = 0;
    while i < name.len()
        invariant
            name@ == "content-length:"@,
            i <= name@.len() <= line@.len(),
            forall|j: int| 0 <= j < i ==> ascii_lower(#[trigger] line@[j]) == name@[j],
        decreases name.len() - i,
    {
        let c: char = line[i];
        let lower: char = if 'A' <= c && c <= 'Z' { ((c as u8) + 32) as char } else { c };
        assert(lower == ascii_lower(line@[i as int]));
        if lower != name[i] {
            return None;
        }
        i = i + 1;
    }
    assert(line@.subrange(name@.len() as int, line@.len() as int) =~= line@.skip(
        name@.len() as int,
    ));
    Some(slice_subrange(line, name.len(), line.len()))
}

/// Reads the status from the text of a header block.
fn read_status(text: &[char]) -> (status: u16)
    ensures
        status == announced_status(text@),
{
    let first = match split_line(text) {
        Some((line, _)) => line,
        None => text,
    };
    proof {
        if lines(text@).len() == 0 {
            assert(text@.len() == 0);
            assert(text@ =~= seq![]);
        }
    }
    assert(first@ == if lines(text@).len() > 0 { lines(text@)[0] } else { seq![] });
    if let Some((_, rest)) = split_word(first) {
        if let Some((word, _)) = split_word(rest) {
            assert(words(first@)[1] == word@);
            return match parse_unsigned(word, u16::MAX as u64) {
                Some(status) => status as u16,
                None => 0,
            };
        }
    }
    0
}

/// Reads the length of the body from the text of a header block.
fn read_content_length(text: &[char]) -> (length: usize)
    ensures
        length == announced_length(text@),
{
    let mut rest = text;
    loop
        invariant
            length_field(lines(text@)) == length_field(lines(rest@)),
        decreases rest@.len(),
    {
        match split_line(rest) {
            Some((line, after)) => {
                assert(lines(rest@)[0] == line@);
                if let Some(value) = length_value(line) {
                    return match parse_unsigned(trim_chars(value), usize::MAX as u64) {
                        Some(length) => length as usize,
                        None => 0,
                    };
                }
                assert(lines(rest@).drop_first() =~= lines(after@));
                rest = after;
            },
            None => {
                return 0;
            },
        }
    }
}

/// Reads the text of a header block.
pub fn parse_head(text: &str) -> (head: Head)
    ensures
        head.status == announced_status(text@),
        head.content_length == announced_length(text@),
{
    let chars = chars_of(text);
    let status: u16 = read_status(chars.as_slice());
    let content_length: usize = read_content_length(chars.as_slice());
    Head { status, content_length }
}

/// What is sent as the body for a document: nothing for the null document.
pub open spec fn body_text(json: Json) -> Seq<char> {
    if json is Null {
        seq![]
    } else {
        json_text(json)
    }
}

/// The text of a request.
pub open spec fn request_text(method: Seq<char>, path: Seq<char>, body: Seq<char>) -> Seq<char> {
    request_head(method, path, encode_utf8(body).len()) + "\r\n\r\n"@ + body
}

/// The header block of a request with a body of `length` bytes.
pub open spec fn request_head(method: Seq<char>, path: Seq<char>, length: nat) -> Seq<char> {
    method + " "@ + path + " HTTP/1.1"@ + "\r\n"@ + "Host: localhost"@ + "\r\n"@
        + "Content-Type: application/json"@ + "\r\n"@ + "Content-Length:"@ + " "@ + decimal(length)
}

/// Writes a request with a body that is given as text.
pub fn write_request(method: &str, path: &str, body: &str) -> (request: Vec<u8>)
    ensures
        request@ == encode_utf8(request_text(method@, path@, body@)),
{
    let mut text = method.to_owned();
    text.append(" ");
    text.append(path);
    text.append(" HTTP/1.1");
    text.append("\r\n");
    text.append("Host: localhost");
    text.append("\r\n");
    text.append("Content-Type: application/json");
    text.append("\r\n");
    text.append("Content-Length:");
    text.append(" ");
    text.append(decimal_text(body.as_bytes().len() as u64).as_str());
    text.append("\r\n\r\n");
    text.append(body);
    slice_to_vec(text.as_str().as_bytes())
}

/// Writes a request with a JSON document for its body.
pub fn http_request(method: &str, path: &str, body: &Value) -> (request: Vec<u8>)
    ensures
        request@ == encode_utf8(request_text(method@, path@, body_text(json_of(*body)))),
{
    let text = if is_null(body) { String::new() } else { value_text(body) };
    write_request(method, path, text.as_str())
}

/// The text that a byte string reads as when every ill-formed part of it is replaced.
pub uninterp spec fn lossy_text(bytes: Seq<u8>) -> Seq<char>;

/// `String::from_utf8_lossy`: bytes that are UTF-8 are decoded; of others only that the text
/// depends on the bytes alone.
#[verifier::external_body]
fn decode_lossy(bytes: &[u8]) -> (text: String)
    ensures
        text@ == lossy_text(bytes@),
        valid_utf8(bytes@) ==> text@ == decode_utf8(bytes@),
{
    String::from_utf8_lossy(bytes).into_owned()
}

/// The text of a header block: its bytes decoded from UTF-8, with what is ill-formed replaced.
pub open spec fn header_text(bytes: Seq<u8>) -> Seq<char> {
    if valid_utf8(bytes) {
        decode_utf8(bytes)
    } else {
        lossy_text(bytes)
    }
}

/// What the bytes received so far amount to.
pub ghost enum Outcome {
    /// More bytes are needed.
    More,
    /// The connection ended before the header block did.
    NoHeaders,
    /// The header block announces a body that no buffer can hold.
    Oversized,
    /// The response is there.
    Complete { status: nat, body: Seq<u8> },
}

/// What `received` amounts to, where `ended` says that nothing will follow.
pub open spec fn outcome(received: Seq<u8>, ended: bool) -> Outcome {
    match header_end(received) {
        None => if ended {
            Outcome::NoHeaders
        } else {
            Outcome::More
        },
        Some(h) => {
            let text = header_text(received.take(h));
            let end = h + 4 + announced_length(text);
            if end > usize::MAX {
                Outcome::Oversized
            } else if received.len() >= end {
                Outcome::Complete {
                    status: announced_status(text),
                    body: received.subrange(h + 4, end),
                }
            } else if ended {
                Outcome::Complete { status: announced_status(text), body: received.skip(h + 4) }
            } else {
                Outcome::More
            }
        },
    }
}

/// The document in the body of a response: null where the body is empty or no JSON.
pub open spec fn reply_json(body: Seq<u8>) -> Json {
    if body.len() == 0 {
        Json::Null
    } else {
        match parsed_json(body) {
            Some(json) => json,
            None => Json::Null,
        }
    }
}

/// A response.
pub struct Reply {
    pub status: u16,
    pub body: Value,
}

/// Where the parts of a response lie in the bytes received.
struct Frame {
    status: u16,
    body_start: usize,
    body_end: usize,
}

impl Frame {
    /// The response in `buf`, with as much of its body as is there.
    fn reply(&self, buf: &[u8]) -> (reply: Reply)
        requires
            self.body_start <= buf@.len(),
            self.body_start <= self.body_end,
        ensures
            reply.status == self.status,
            json_of(reply.body) == reply_json(
                if self.body_end <= buf@.len() {
                    buf@.subrange(self.body_start as int, self.body_end as int)
                } else {
                    buf@.skip(self.body_start as int)
                },
            ),
    {
        let end: usize = if self.body_end <= buf.len() { self.body_end } else { buf.len() };
        assert(buf@.subrange(self.body_start as int, buf@.len() as int) =~= buf@.skip(
            self.body_start as int,
        ));
        let body = read_body(slice_subrange(buf, self.body_start, end));
        Reply { status: self.status, body }
    }
}

/// A response that is being received.
pub struct ResponseReader {
    buf: Vec<u8>,
    frame: Option<Frame>,
}

/// What to do after a read.
pub enum Progress {
    /// Read again, and hand the bytes to this reader.
    More(ResponseReader),
    /// The response is there.
    Done(Reply),
    /// There will be no response.
    Failed(VmError),
    /// The header block announces a body that no buffer can hold.
    Oversized,
}

/// Reads the document in the body of a response.
fn read_body(body: &[u8]) -> (value: Value)
    ensures
        json_of(value) == reply_json(body@),
{
    if body.len() == 0 {
        null_value()
    } else {
        value_or_null(value_from_slice(body))
    }
}

impl ResponseReader {
    /// The bytes received so far.
    pub closed spec fn received(self) -> Seq<u8> {
        self.buf@
    }

    #[verifier::type_invariant]
    spec fn inv(self) -> bool {
        match self.frame {
            None => header_end(self.buf@) is None,
            Some(frame) => {
                &&& header_end(self.buf@) matches Some(h)
                &&& frame.body_start == h + 4
                &&& frame.status == announced_status(header_text(self.buf@.take(h)))
                &&& frame.body_end == h + 4 + announced_length(header_text(self.buf@.take(h)))
            },
        }
    }

    /// A reader that has received nothing.
    pub fn new() -> (reader: Self)
        ensures
            reader.received().len() == 0,
    {
        ResponseReader { buf: Vec::new(), frame: None }
    }

    /// Takes in the bytes of one read; a read of no bytes is the end of the connection.
    pub fn on_read(self, chunk: &[u8]) -> (progress: Progress)
        ensures
            match outcome(self.received() + chunk@, chunk@.len() == 0) {
                Outcome::More => progress matches Progress::More(reader) && reader.received()
                    == self.received() + chunk@,
                Outcome::NoHeaders => progress matches Progress::Failed(VmError::Timeout(what))
                    && what@ == "HTTP response headers"@,
                Outcome::Oversized => progress is Oversized,
                Outcome::Complete { status, body } => progress matches Progress::Done(reply)
                    && reply.status == status && json_of(reply.body) == reply_json(body),
            },
    {
        proof {
            use_type_invariant(&self);
        }
        let ghost received = self.received() + chunk@;
        let mut buf = self.buf;
        let known = self.frame;
        proof {
            if known is Some {
                lemma_header_end_stays(self.received(), chunk@);
            }
        }
        if chunk.len() == 0 {
            assert(received =~= buf@);
            return match known {
                Some(frame) => Progress::Done(frame.reply(buf.as_slice())),
                None => Progress::Failed(VmError::Timeout("HTTP response headers")),
            };
        }
        buf.extend_from_slice(chunk);
        assert(buf@ =~= received);
        let frame = match known {
            Some(frame) => frame,
            None => match find_header_end(buf.as_slice()) {
                None => {
                    return Progress::More(ResponseReader { buf, frame: None });
                },
                Some(h) => {
                    proof {
                        lemma_header_end_from(buf@, 0);
                        assert(buf@.subrange(0, h as int) =~= buf@.take(h as int));
                        assert(h + 4 <= buf.len());
                    }
                    let text = decode_lossy(slice_subrange(buf.as_slice(), 0, h));
                    let head = parse_head(text.as_str());
                    match (h + 4).checked_add(head.content_length) {
                        Some(end) => Frame {
                            status: head.status,
                            body_start: h + 4,
                            body_end: end,
                        },
                        None => {
                            return Progress::Oversized;
                        },
                    }
                },
            },
        };
        if buf.len() < frame.body_end {
            return Progress::More(ResponseReader { buf, frame: Some(frame) });
        }
        Progress::Done(frame.reply(buf.as_slice()))
    }
}

/// What a reader makes of a series of reads, given what it received before: the first of them
/// that decides, decides.
pub open spec fn read_all(received: Seq<u8>, reads: Seq<Seq<u8>>) -> Outcome
    decreases reads.len(),
{
    if reads.len() == 0 {
        Outcome::More
    } else {
        let now = outcome(received + reads[0], reads[0].len() == 0);
        if now is More {
            read_all(received + reads[0], reads.drop_first())
        } else {
            now
        }
    }
}

/// Once a response is there, or is known never to come, nothing that follows changes it: bytes
/// behind the announced body do not belong to it.
pub proof fn decided_stays_decided(received: Seq<u8>, more: Seq<u8>, ended: bool)
    requires
        !(outcome(received, false) is More),
    ensures
        outcome(received + more, ended) == outcome(received, false),
{
    lemma_header_end_stays(received, more);
    let h = header_end(received)->0;
    let end = h + 4 + announced_length(header_text(received.take(h)));
    if received.len() >= end {
        assert((received + more).subrange(h + 4, end) =~= received.subrange(h + 4, end));
    }
}

/// How the bytes of a response are cut into reads makes no difference.
pub proof fn reads_do_not_matter(reads: Seq<Seq<u8>>)
    requires
        forall|i: int| 0 <= i < reads.len() ==> #[trigger] reads[i].len() > 0,
    ensures
        read_all(seq![], reads) == outcome(reads.flatten(), false),
        read_all(seq![], reads.push(seq![])) == outcome(reads.flatten(), true),
{
    assert(Seq::<u8>::empty() + reads.flatten() =~= reads.flatten());
    lemma_reads(seq![], reads);
}

proof fn lemma_reads(received: Seq<u8>, reads: Seq<Seq<u8>>)
    requires
        outcome(received, false) is More,
        forall|i: int| 0 <= i < reads.len() ==> #[trigger] reads[i].len() > 0,
    ensures
        read_all(received, reads) == outcome(received + reads.flatten(), false),
        read_all(received, reads.push(seq![])) == outcome(received + reads.flatten(), true),
    decreases reads.len(),
{
    reveal_with_fuel(read_all, 2);
    let ended = reads.push(seq![]);
    if reads.len() == 0 {
        assert(received + reads.flatten() =~= received);
        assert(ended[0] =~= seq![]);
        assert(received + ended[0] =~= received);
    } else {
        let first = reads[0];
        let rest = reads.drop_first();
        let now = received + first;
        assert(first.len() > 0);
        assert(reads.flatten() == first + rest.flatten());
        assert(received + reads.flatten() =~= now + rest.flatten());
        assert(ended[0] == first);
        assert(ended.drop_first() =~= rest.push(seq![]));
        assert forall|i: int| 0 <= i < rest.len() implies #[trigger] rest[i].len() > 0 by {
            assert(reads[i + 1].len() > 0);
        }
        if outcome(now, false) is More {
            lemma_reads(now, rest);
        } else {
            decided_stays_decided(now, rest.flatten(), false);
            decided_stays_decided(now, rest.flatten(), true);
        }
    }
}

/// A reader asks for more bytes exactly as long as the header block or the announced body is
/// incomplete, so it never waits for a byte behind the body.
pub proof fn reads_no_further_than_the_body(stream: Seq<u8>, n: int)
    requires
        0 <= n <= stream.len(),
        header_end(stream) matches Some(h) && h + 4 + announced_length(header_text(stream.take(h)))
            <= usize::MAX,
    ensures
        outcome(stream.take(n), false) is More <==> n < header_end(stream)->0 + 4
            + announced_length(header_text(stream.take(header_end(stream)->0))),
{
    lemma_header_end_from(stream, 0);
    let h = header_end(stream)->0;
    let part = stream.take(n);
    lemma_header_end_from(part, 0);
    if n >= h + 4 {
        assert(blank_line_at(part, h));
        assert forall|j: int| 0 <= j < h implies !blank_line_at(part, j) by {
            assert(!blank_line_at(stream, j));
        }
        lemma_header_end_at(part, 0, h);
        assert(part.take(h) =~= stream.take(h));
    } else if header_end(part) is Some {
        let p = header_end(part)->0;
        assert(blank_line_at(stream, p));
    }
}

/// Whether a text stays on one line.
pub open spec fn is_one_line(s: Seq<char>) -> bool {
    forall|i: int| 0 <= i < s.len() ==> #[trigger] s[i] != '\n'
}

/// The first line of a response.
pub open spec fn status_line(status: nat, reason: Seq<char>) -> Seq<char> {
    "HTTP/1.1"@ + " "@ + (decimal(status) + " "@ + reason)
}

/// The line that announces a body of `length` bytes.
pub open spec fn length_line(length: nat) -> Seq<char> {
    "Content-Length:"@ + (" "@ + decimal(length))
}

/// The header block of a response with a status line and a `Content-Length`.
pub open spec fn response_head(status: nat, reason: Seq<char>, length: nat) -> Seq<char> {
    status_line(status, reason) + "\r\n"@ + length_line(length)
}

proof fn lemma_status_line(status: nat, reason: Seq<char>)
    requires
        is_one_line(reason),
    ensures
        is_one_line(status_line(status, reason)),
{
    reveal_strlit("HTTP/1.1");
    reveal_strlit(" ");
    let digits = decimal(status);
    let line = status_line(status, reason);
    lemma_decimal(status);
    assert forall|i: int| 0 <= i < line.len() implies #[trigger] line[i] != '\n' by {
        if 9 <= i < 9 + digits.len() {
            assert(line[i] == digits[i - 9]);
            assert(is_digit(digits[i - 9]));
        } else if i > 9 + digits.len() {
            assert(line[i] == reason[i - 10 - digits.len()]);
        }
    }
}

/// The line that announces a length is a field `Content-Length`, and the length reads back from
/// it.
proof fn lemma_length_line(length: nat)
    requires
        length <= usize::MAX,
    ensures
        is_one_line(length_line(length)),
        is_length_field(length_line(length)),
        parsed_unsigned(
            trim(length_line(length).skip("content-length:"@.len() as int)),
            usize::MAX as nat,
        ) == Some(length),
{
    reveal_strlit(" ");
    reveal_strlit("Content-Length:");
    reveal_strlit("content-length:");
    let digits = decimal(length);
    let line = length_line(length);
    lemma_decimal(length);
    assert forall|i: int| 0 <= i < line.len() implies #[trigger] line[i] != '\n' by {
        if i >= 16 {
            assert(line[i] == digits[i - 16]);
            assert(is_digit(digits[i - 16]));
        }
    }
    assert(line.skip("content-length:"@.len() as int) =~= " "@ + digits);
    lemma_trim_number(" "@, length, seq![]);
    assert(" "@ + digits + seq![] =~= " "@ + digits);
    decimal_reads_back(length, usize::MAX as nat);
}

/// The status and the length in a header block read back as they were written.
pub proof fn head_reads_back(status: nat, reason: Seq<char>, length: nat)
    requires
        status <= u16::MAX,
        length <= usize::MAX,
        is_one_line(reason),
    ensures
        announced_status(response_head(status, reason, length)) == status,
        announced_length(response_head(status, reason, length)) == length,
{
    reveal_strlit("HTTP/1.1");
    reveal_strlit(" ");
    reveal_strlit("content-length:");
    let digits = decimal(status);
    let after = digits + " "@ + reason;
    let first = status_line(status, reason);
    let field = length_line(length);
    let text = response_head(status, reason, length);
    lemma_decimal(status);
    assert forall|i: int| 0 <= i < digits.len() implies !white_space(#[trigger] digits[i]) by {
        assert(is_digit(digits[i]));
    }
    lemma_status_line(status, reason);
    lemma_length_line(length);
    lemma_first_line(first, field);
    lemma_first_line(field, seq![]);
    assert(lines(text) =~= seq![first, field]);
    lemma_first_word("HTTP/1.1"@, after);
    lemma_first_word(digits, reason);
    assert(words(first)[1] == digits);
    decimal_reads_back(status, u16::MAX as nat);
    assert(!is_length_field(first)) by {
        assert(ascii_lower(first[0]) == 'h');
    }
    reveal_with_fuel(length_field, 3);
    assert(lines(text).drop_first()[0] == field);
}

/// A response reads back as it was written: the bytes of a header block with its status and the
/// length of its body, a blank line and the body, whatever follows.
pub proof fn response_reads_back(
    status: nat,
    reason: Seq<char>,
    body: Seq<u8>,
    more: Seq<u8>,
)
    requires
        status <= u16::MAX,
        is_one_line(reason),
        encode_utf8(response_head(status, reason, body.len())).len() + 4 + body.len() <= usize::MAX,
    ensures
        outcome(
            encode_utf8(response_head(status, reason, body.len())) + encode_utf8("\r\n\r\n"@) + body
                + more,
            false,
        ) == (Outcome::Complete { status, body }),
{
    reveal_strlit("Content-Length:");
    let length = body.len();
    let first = status_line(status, reason);
    let field = length_line(length);
    lemma_status_line(status, reason);
    lemma_length_line(length);
    let text = response_head(status, reason, length);
    let head = encode_utf8(text);
    lemma_encode_ends();
    lemma_encode_line(first);
    lemma_encode_line(field);
    lemma_encode_concat(first + "\r\n"@, field);
    lemma_encode_concat(first, "\r\n"@);
    let crlf = seq![13u8, 10u8];
    let blank = seq![13u8, 10u8, 13u8, 10u8];
    let rest = encode_utf8(field) + blank + (body + more);
    let stream = head + blank + body + more;
    assert(stream =~= encode_utf8(first) + crlf + rest);
    lemma_header_end_here(encode_utf8(field), body + more);
    lemma_header_end_behind(encode_utf8(first), rest);
    let h = head.len() as int;
    assert(header_end(stream) == Some(h));
    assert(stream.take(h) =~= head);
    encode_utf8_valid_utf8(text);
    encode_utf8_decode_utf8(text);
    head_reads_back(status, reason, length);
    assert(stream.subrange(h + 4, h + 4 + length) =~= body);
}

/// The bytes of a character are those of a line end only if it is one.
proof fn lemma_encode_char(c: char)
    ensures
        encode_scalar(c as u32).len() > 0,
        forall|i: int|
            0 <= i < encode_scalar(c as u32).len() && #[trigger] encode_scalar(c as u32)[i] == 10 ==> c
                == '\n',
        encode_scalar(c as u32)[0] == 13 ==> c == '\r',
{
    let v = c as u32;
    assert(v <= 0x7f ==> (v & 0x7f) as u8 == v) by (bit_vector);
    let lead_2 = ((v >> 6) & 0x1f) as u8;
    let lead_3 = ((v >> 12) & 0x0f) as u8;
    let lead_4 = ((v >> 18) & 0x7) as u8;
    assert(0xc0u8 | lead_2 >= 0x80) by (bit_vector);
    assert(0xe0u8 | lead_3 >= 0x80) by (bit_vector);
    assert(0xf0u8 | lead_4 >= 0x80) by (bit_vector);
    let last = (v & 0x3f) as u8;
    let second = ((v >> 6) & 0x3f) as u8;
    let third = ((v >> 12) & 0x3f) as u8;
    assert(0x80u8 | last >= 0x80) by (bit_vector);
    assert(0x80u8 | second >= 0x80) by (bit_vector);
    assert(0x80u8 | third >= 0x80) by (bit_vector);
}

/// The bytes of a line hold no line feed.
proof fn lemma_encode_line(s: Seq<char>)
    requires
        is_one_line(s),
    ensures
        forall|i: int| 0 <= i < encode_utf8(s).len() ==> #[trigger] encode_utf8(s)[i] != 10,
        s.len() > 0 && s[0] != '\r' ==> encode_utf8(s).len() > 0 && encode_utf8(s)[0] != 13,
    decreases s.len(),
{
    if s.len() > 0 {
        let first = encode_scalar(s[0] as u32);
        let rest = s.drop_first();
        lemma_encode_char(s[0]);
        assert forall|i: int| 0 <= i < rest.len() implies #[trigger] rest[i] != '\n' by {
            assert(rest[i] == s[i + 1]);
        }
        lemma_encode_line(rest);
        assert forall|i: int| 0 <= i < encode_utf8(s).len() implies #[trigger] encode_utf8(s)[i]
            != 10 by {
            if i < first.len() {
                assert(encode_utf8(s)[i] == first[i]);
            } else {
                assert(encode_utf8(s)[i] == encode_utf8(rest)[i - first.len()]);
            }
        }
    }
}

/// A header block goes on behind a line that another line follows.
proof fn lemma_header_end_behind(line: Seq<u8>, rest: Seq<u8>)
    requires
        forall|i: int| 0 <= i < line.len() ==> #[trigger] line[i] != 10,
        !(rest[0] == 13 && rest[1] == 10),
        header_end(rest) is Some,
    ensures
        header_end(line + seq![13u8, 10u8] + rest) == Some(line.len() + 2 + header_end(rest)->0),
{
    let s = line + seq![13u8, 10u8] + rest;
    let n = line.len() as int + 2;
    lemma_header_end_from(rest, 0);
    let h = header_end(rest)->0;
    assert(blank_line_at(s, n + h));
    assert forall|j: int| 0 <= j < n + h implies !blank_line_at(s, j) by {
        if j >= n {
            assert(!blank_line_at(rest, j - n));
        } else if j + 1 < line.len() {
            assert(s[j + 1] == line[j + 1]);
        } else {
            assert(s[n] == rest[0]);
            assert(s[n + 1] == rest[1]);
        }
    }
    lemma_header_end_at(s, 0, n + h);
}

/// A header block ends behind a line that nothing follows.
proof fn lemma_header_end_here(line: Seq<u8>, rest: Seq<u8>)
    requires
        forall|i: int| 0 <= i < line.len() ==> #[trigger] line[i] != 10,
    ensures
        header_end(line + seq![13u8, 10u8, 13u8, 10u8] + rest) == Some(line.len() as int),
{
    let s = line + seq![13u8, 10u8, 13u8, 10u8] + rest;
    assert forall|j: int| 0 <= j < line.len() implies !blank_line_at(s, j) by {
        if j + 1 < line.len() {
            assert(s[j + 1] == line[j + 1]);
        }
    }
    lemma_header_end_at(s, 0, line.len() as int);
}

/// A request is framed as a response is: its header block ends where the first blank line is, the
/// body is all that follows, and the header block announces its length in bytes.
pub proof fn request_is_framed(method: Seq<char>, path: Seq<char>, body: Seq<char>)
    requires
        is_one_line(method),
        !is_length_field(method),
        is_one_line(path),
        encode_utf8(body).len() <= usize::MAX,
    ensures
        ({
            let request = encode_utf8(request_text(method, path, body));
            let head = request_head(method, path, encode_utf8(body).len());
            let h = encode_utf8(head).len() as int;
            &&& header_end(request) == Some(h)
            &&& request.take(h) == encode_utf8(head)
            &&& request.skip(h + 4) == encode_utf8(body)
            &&& header_text(request.take(h)) == head
            &&& announced_length(head) == encode_utf8(body).len()
        }),
{
    reveal_strlit(" ");
    reveal_strlit(" HTTP/1.1");
    reveal_strlit("\r\n");
    reveal_strlit("\r\n\r\n");
    reveal_strlit("Host: localhost");
    reveal_strlit("Content-Type: application/json");
    reveal_strlit("Content-Length:");
    reveal_strlit("content-length:");
    let length = encode_utf8(body).len();
    let l1 = method + " "@ + path + " HTTP/1.1"@;
    let l2 = "Host: localhost"@;
    let l3 = "Content-Type: application/json"@;
    let l4 = length_line(length);
    let head = request_head(method, path, length);
    assert forall|i: int| 0 <= i < l1.len() implies #[trigger] l1[i] != '\n' by {
        if i < method.len() {
            assert(l1[i] == method[i]);
        } else if method.len() < i < method.len() + 1 + path.len() {
            assert(l1[i] == path[i - method.len() - 1]);
        }
    }
    lemma_length_line(length);
    let t4 = l4;
    let t3 = l3 + "\r\n"@ + t4;
    let t2 = l2 + "\r\n"@ + t3;
    assert(head =~= l1 + "\r\n"@ + t2);

    lemma_first_line(l1, t2);
    lemma_first_line(l2, t3);
    lemma_first_line(l3, t4);
    lemma_first_line(l4, seq![]);
    assert(lines(head) =~= seq![l1, l2, l3, l4]);
    assert(!is_length_field(l2)) by {
        assert(ascii_lower(l2[0]) == 'h');
    }
    assert(!is_length_field(l3)) by {
        assert(ascii_lower(l3[8]) == 't');
    }
    assert(!is_length_field(l1)) by {
        let n = method.len() as int;
        assert(l1[n] == ' ');
        if is_length_field(l1) {
            if n < "content-length:"@.len() {
                assert(ascii_lower(l1[n]) == ' ');
            } else {
                assert forall|i: int| 0 <= i < "content-length:"@.len() implies ascii_lower(
                    #[trigger] method[i],
                ) == "content-length:"@[i] by {
                    assert(l1[i] == method[i]);
                }
            }
        }
    }
    assert(length_field(lines(head)) == Some(l4)) by {
        reveal_with_fuel(length_field, 5);
        let ls = lines(head);
        assert(ls.drop_first()[0] == l2);
        assert(ls.drop_first().drop_first()[0] == l3);
        assert(ls.drop_first().drop_first().drop_first()[0] == l4);
    }

    let crlf = seq![13u8, 10u8];
    lemma_encode_line(l1);
    lemma_encode_line(l2);
    lemma_encode_line(l3);
    lemma_encode_line(l4);
    lemma_encode_ends();
    let b = encode_utf8(body);
    let blank = seq![13u8, 10u8, 13u8, 10u8];
    let e4 = encode_utf8(l4) + blank + b;
    let e3 = encode_utf8(l3) + crlf + e4;
    let e2 = encode_utf8(l2) + crlf + e3;
    let e1 = encode_utf8(l1) + crlf + e2;
    lemma_encode_concat(head + "\r\n\r\n"@, body);
    lemma_encode_concat(head, "\r\n\r\n"@);
    lemma_encode_concat(l1 + "\r\n"@, t2);
    lemma_encode_concat(l1, "\r\n"@);
    lemma_encode_concat(l2 + "\r\n"@, t3);
    lemma_encode_concat(l2, "\r\n"@);
    lemma_encode_concat(l3 + "\r\n"@, t4);
    lemma_encode_concat(l3, "\r\n"@);
    let request = encode_utf8(request_text(method, path, body));
    assert(request =~= encode_utf8(head) + blank + b);
    assert(request =~= e1);
    lemma_header_end_here(encode_utf8(l4), b);
    lemma_header_end_behind(encode_utf8(l3), e4);
    lemma_header_end_behind(encode_utf8(l2), e3);
    lemma_header_end_behind(encode_utf8(l1), e2);
    let h = encode_utf8(head).len() as int;
    assert(request.take(h) =~= encode_utf8(head));
    assert(request.skip(h + 4) =~= b);
    encode_utf8_valid_utf8(head);
    encode_utf8_decode_utf8(head);
}

proof fn lemma_encode_ends()
    ensures
        encode_utf8("\r\n"@) == seq![13u8, 10u8],
        encode_utf8("\r\n\r\n"@) == seq![13u8, 10u8, 13u8, 10u8],
{
    reveal_strlit("\r\n");
    reveal_strlit("\r\n\r\n");
    is_ascii_chars_encode_utf8("\r\n"@);
    is_ascii_chars_encode_utf8("\r\n\r\n"@);
    let two = "\r\n"@;
    let four = "\r\n\r\n"@;
    assert(two[0] as u8 == 13 && two[1] as u8 == 10);
    assert(four[0] as u8 == 13 && four[1] as u8 == 10 && four[2] as u8 == 13 && four[3] as u8 == 10);
    assert(encode_utf8(two) =~= seq![13u8, 10u8]);
    assert(encode_utf8(four) =~= seq![13u8, 10u8, 13u8, 10u8]);
}

/// Lines, each with its end but for the last.
pub open spec fn head_of(ls: Seq<Seq<char>>) -> Seq<char>
    decreases ls.len(),
{
    if ls.len() == 0 {
        seq![]
    } else if ls.len() == 1 {
        ls[0]
    } else {
        ls[0] + "\r\n"@ + head_of(ls.drop_first())
    }
}

/// Whether lines can make up a header block: none of them holds a line feed, and none but the
/// first is empty.
pub open spec fn are_header_lines(ls: Seq<Seq<char>>) -> bool {
    &&& ls.len() > 0
    &&& forall|i: int| 0 <= i < ls.len() ==> is_one_line(#[trigger] ls[i])
    &&& forall|i: int| 1 <= i < ls.len() ==> (#[trigger] ls[i]).len() > 0
}

/// Whether a line starts with the name of the field `Content-Length`, each letter in either case.
pub open spec fn names_length(line: Seq<char>) -> bool {
    &&& line.len() >= 15
    &&& forall|i: int|
        0 <= i < 15 ==> #[trigger] line[i] == "content-length:"@[i] || line[i]
            == "CONTENT-LENGTH:"@[i]
}

proof fn lemma_header_lines_rest(ls: Seq<Seq<char>>)
    requires
        are_header_lines(ls),
        ls.len() > 1,
    ensures
        are_header_lines(ls.drop_first()),
        ls.drop_first()[0].len() > 0,
{
    let rest = ls.drop_first();
    assert forall|i: int| 0 <= i < rest.len() implies is_one_line(#[trigger] rest[i])
        && rest[i].len() > 0 by {
        assert(rest[i] == ls[i + 1]);
    }
}

/// The lines of a header block are those that it was made of.
pub proof fn header_lines_read_back(ls: Seq<Seq<char>>)
    requires
        are_header_lines(ls),
        ls[0].len() > 0,
    ensures
        lines(head_of(ls)) == ls,
    decreases ls.len(),
{
    reveal_with_fuel(head_of, 2);
    reveal_strlit("\r\n");
    assert("\r\n"@ =~= seq!['\r', '\n']);
    let rest = ls.drop_first();
    if ls.len() == 1 {
        lines_are_split(ls[0], seq![]);
        assert(lines(head_of(ls)) =~= ls);
    } else {
        lemma_header_lines_rest(ls);
        header_lines_read_back(rest);
        lines_are_split(ls[0], head_of(rest));
        assert(seq![ls[0]] + rest =~= ls);
    }
}

proof fn lemma_lower(c: char, low: char, up: char)
    requires
        ('a' <= low <= 'z' && up as int + 32 == low as int) || (low == up && low < 'A'),
    ensures
        ascii_lower(c) == low <==> c == low || c == up,
{
    if 'A' <= c <= 'Z' {
        assert(ascii_lower(c) as int == c as int + 32);
    }
}

/// A line is the field `Content-Length` exactly if it starts with that name, in any case.
pub proof fn length_is_named_in_any_case(line: Seq<char>)
    ensures
        is_length_field(line) <==> names_length(line),
{
    reveal_strlit("content-length:");
    reveal_strlit("CONTENT-LENGTH:");
    let low = "content-length:"@;
    let up = "CONTENT-LENGTH:"@;
    assert(low.len() == 15);
    assert forall|i: int| 0 <= i < 15 implies (ascii_lower(#[trigger] line[i]) == low[i] <==> (
    line[i] == low[i] || line[i] == up[i])) by {
        assert(i == 0 || i == 1 || i == 2 || i == 3 || i == 4 || i == 5 || i == 6 || i == 7 || i
            == 8 || i == 9 || i == 10 || i == 11 || i == 12 || i == 13 || i == 14);
        lemma_lower(line[i], low[i], up[i]);
    }
}

proof fn lemma_length_field_at(ls: Seq<Seq<char>>, i: int)
    requires
        0 <= i <= ls.len(),
        forall|j: int| 0 <= j < i ==> !is_length_field(#[trigger] ls[j]),
        i < ls.len() ==> is_length_field(ls[i]),
    ensures
        length_field(ls) == if i < ls.len() {
            Some(ls[i])
        } else {
            None
        },
    decreases i,
{
    if i > 0 {
        let rest = ls.drop_first();
        assert(!is_length_field(ls[0]));
        assert forall|j: int| 0 <= j < i - 1 implies !is_length_field(#[trigger] rest[j]) by {
            assert(rest[j] == ls[j + 1]);
        }
        lemma_length_field_at(rest, i - 1);
    }
}

/// The length of the body is what the first `Content-Length` says, wherever among the lines of the
/// header block it stands: the number behind the name, with any white space around it, and 0 where
/// that is no number or where no line has the name.
pub proof fn length_is_read_wherever_it_stands(
    ls: Seq<Seq<char>>,
    i: int,
    before: Seq<char>,
    value: Seq<char>,
    after: Seq<char>,
)
    requires
        are_header_lines(ls),
        ls[0].len() > 0,
        0 <= i <= ls.len(),
        forall|j: int| 0 <= j < i ==> !names_length(#[trigger] ls[j]),
        i < ls.len() ==> names_length(ls[i]) && ls[i].skip(15) == before + value + after,
        forall|j: int| 0 <= j < before.len() ==> white_space(#[trigger] before[j]),
        forall|j: int| 0 <= j < after.len() ==> white_space(#[trigger] after[j]),
        value.len() > 0 ==> !white_space(value[0]) && !white_space(value.last()),
    ensures
        i == ls.len() ==> announced_length(head_of(ls)) == 0,
        i < ls.len() && parsed_unsigned(value, usize::MAX as nat) is None ==> announced_length(
            head_of(ls),
        ) == 0,
        i < ls.len() ==> (parsed_unsigned(value, usize::MAX as nat) matches Some(n)
            ==> announced_length(head_of(ls)) == n),
        i < ls.len() ==> (forall|n: nat|
            n <= usize::MAX && value == #[trigger] decimal(n) ==> announced_length(head_of(ls))
                == n),
{
    reveal_strlit("content-length:");
    header_lines_read_back(ls);
    assert forall|j: int| 0 <= j < i implies !is_length_field(#[trigger] ls[j]) by {
        length_is_named_in_any_case(ls[j]);
    }
    if i < ls.len() {
        length_is_named_in_any_case(ls[i]);
        trim_keeps_the_inside(before, value, after);
        assert forall|n: nat|
            n <= usize::MAX && value == #[trigger] decimal(n) implies announced_length(head_of(ls))
            == n by {
            decimal_reads_back(n, usize::MAX as nat);
            lemma_length_field_at(ls, i);
        }
    }
    lemma_length_field_at(ls, i);
}

/// The status is the second word of the first line, whatever stands behind it and on the other
/// lines, and 0 where that is no number or where there is no second word.
pub proof fn status_is_the_second_word(
    ls: Seq<Seq<char>>,
    version: Seq<char>,
    between: Seq<char>,
    word: Seq<char>,
    tail: Seq<char>,
)
    requires
        are_header_lines(ls),
        ls[0] == version + between + word + tail,
        version.len() > 0,
        forall|i: int| 0 <= i < version.len() ==> !white_space(#[trigger] version[i]),
        forall|i: int| 0 <= i < between.len() ==> white_space(#[trigger] between[i]),
        forall|i: int| 0 <= i < word.len() ==> !white_space(#[trigger] word[i]),
        word.len() > 0 ==> between.len() > 0,
        word.len() == 0 ==> tail.len() == 0,
        tail.len() > 0 ==> white_space(tail[0]),
    ensures
        word.len() == 0 ==> announced_status(head_of(ls)) == 0,
        parsed_unsigned(word, u16::MAX as nat) is None ==> announced_status(head_of(ls)) == 0,
        parsed_unsigned(word, u16::MAX as nat) matches Some(n) ==> announced_status(head_of(ls))
            == n,
        forall|n: nat|
            n <= u16::MAX && word == #[trigger] decimal(n) ==> announced_status(head_of(ls)) == n,
{
    header_lines_read_back(ls);
    let first = ls[0];
    let none = Seq::<char>::empty();
    if between.len() == 0 {
        assert(first =~= none + version);
        words_are_split(none, version, ' ', none);
    } else {
        let c = between[0];
        let gap = between.drop_first();
        assert forall|i: int| 0 <= i < gap.len() implies white_space(#[trigger] gap[i]) by {
            assert(gap[i] == between[i + 1]);
        }
        let rest = gap + word + tail;
        assert(first =~= none + version + seq![c] + rest);
        words_are_split(none, version, c, rest);
        if word.len() == 0 {
            assert(rest =~= gap);
            words_are_split(gap, version, c, none);
        } else if tail.len() == 0 {
            assert(rest =~= gap + word);
            words_are_split(gap, word, c, none);
            assert(words(first)[1] == word);
        } else {
            assert(rest =~= gap + word + seq![tail[0]] + tail.drop_first());
            words_are_split(gap, word, tail[0], tail.drop_first());
            assert(words(first)[1] == word);
        }
    }
    assert forall|n: nat| n <= u16::MAX && word == #[trigger] decimal(n) implies announced_status(
        head_of(ls),
    ) == n by {
        decimal_reads_back(n, u16::MAX as nat);
    }
}

/// The header block is read as UTF-8 where it is.
pub proof fn header_text_is_decoded(text: Seq<char>)
    ensures
        header_text(encode_utf8(text)) == text,
{
    encode_utf8_valid_utf8(text);
    encode_utf8_decode_utf8(text);
}

/// What a response comes to depends on its first blank line: the header block lies before it, and
/// of what follows as much is the body as the header block announces, or all of it where the
/// connection ends too early.
pub proof fn response_is_cut_at_the_blank_line(
    head: Seq<u8>,
    block: Seq<u8>,
    rest: Seq<u8>,
    ended: bool,
)
    requires
        block == head + seq![13u8, 10u8, 13u8, 10u8],
        forall|i: int|
            0 <= i < head.len() ==> #[trigger] block.subrange(i, i + 4) != seq![
                13u8,
                10u8,
                13u8,
                10u8,
            ],
    ensures
        ({
            let text = header_text(head);
            let n = announced_length(text);
            let status = announced_status(text);
            let o = outcome(block + rest, ended);
            if head.len() + 4 + n > usize::MAX {
                o is Oversized
            } else if n <= rest.len() {
                o == Outcome::Complete { status, body: rest.take(n as int) }
            } else if ended {
                o == Outcome::Complete { status, body: rest }
            } else {
                o is More
            }
        }),
{
    let blank = seq![13u8, 10u8, 13u8, 10u8];
    let s = block + rest;
    let h = head.len() as int;
    assert forall|j: int| 0 <= j < h implies !blank_line_at(s, j) by {
        if blank_line_at(s, j) {
            assert(block.subrange(j, j + 4) =~= blank);
        }
    }
    assert(blank_line_at(s, h));
    lemma_header_end_at(s, 0, h);
    assert(s.take(h) =~= head);
    let n = announced_length(header_text(head)) as int;
    assert(s.skip(h + 4) =~= rest);
    if n <= rest.len() {
        assert(s.subrange(h + 4, h + 4 + n) =~= rest.take(n));
    }
}

/// Without a blank line there is no response: more bytes are asked for, and the connection that
/// ends has brought none.
pub proof fn no_response_without_a_blank_line(received: Seq<u8>)
    requires
        forall|i: int|
            0 <= i <= received.len() - 4 ==> #[trigger] received.subrange(i, i + 4) != seq![
                13u8,
                10u8,
                13u8,
                10u8,
            ],
    ensures
        outcome(received, false) is More,
        outcome(received, true) is NoHeaders,
{
    lemma_header_end_from(received, 0);
    if header_end(received) is Some {
        let h = header_end(received)->0;
        assert(received.subrange(h, h + 4) =~= seq![13u8, 10u8, 13u8, 10u8]);
    }
}

/// The bytes of header lines hold no blank line before the one that ends them.
proof fn lemma_header_lines_end(ls: Seq<Seq<char>>, rest: Seq<u8>)
    requires
        are_header_lines(ls),
    ensures
        header_end(encode_utf8(head_of(ls)) + seq![13u8, 10u8, 13u8, 10u8] + rest) == Some(
            encode_utf8(head_of(ls)).len() as int,
        ),
    decreases ls.len(),
{
    reveal_with_fuel(head_of, 2);
    let blank = seq![13u8, 10u8, 13u8, 10u8];
    let crlf = seq![13u8, 10u8];
    lemma_encode_line(ls[0]);
    if ls.len() == 1 {
        lemma_header_end_here(encode_utf8(ls[0]), rest);
    } else {
        let more = ls.drop_first();
        let line = ls[1];
        lemma_header_lines_rest(ls);
        lemma_header_lines_end(more, rest);
        lemma_encode_ends();
        lemma_encode_concat(ls[0] + "\r\n"@, head_of(more));
        lemma_encode_concat(ls[0], "\r\n"@);
        let tail = encode_utf8(head_of(more)) + blank + rest;
        assert(more[0] == line);
        lemma_encode_line(line);
        lemma_encode_char(line[0]);
        let l = encode_utf8(line);
        assert(l.len() > 0);
        assert(!(tail[0] == 13 && tail[1] == 10)) by {
            if more.len() > 1 {
                lemma_encode_concat(line + "\r\n"@, head_of(more.drop_first()));
                lemma_encode_concat(line, "\r\n"@);
                assert(tail =~= l + crlf + (encode_utf8(head_of(more.drop_first())) + blank
                    + rest));
            } else {
                assert(tail =~= l + blank + rest);
            }
            if l.len() > 1 {
                assert(tail[1] == l[1]);
            } else {
                assert(tail[1] == 13);
            }
        }
        lemma_header_end_behind(encode_utf8(ls[0]), tail);
        assert(encode_utf8(head_of(ls)) + blank + rest =~= encode_utf8(ls[0]) + crlf + tail);
    }
}

/// A response reads back as it was written with any lines around its `Content-Length`, that field
/// written in any case, and any reason behind its status.
pub proof fn response_reads_back_among_other_fields(
    ls: Seq<Seq<char>>,
    version: Seq<char>,
    status: nat,
    tail: Seq<char>,
    k: int,
    before: Seq<char>,
    after: Seq<char>,
    body: Seq<u8>,
    more: Seq<u8>,
)
    requires
        are_header_lines(ls),
        ls[0] == version + seq![' '] + decimal(status) + tail,
        status <= u16::MAX,
        version.len() > 0,
        forall|i: int| 0 <= i < version.len() ==> !white_space(#[trigger] version[i]),
        tail.len() > 0 ==> white_space(tail[0]),
        0 <= k < ls.len(),
        forall|j: int| 0 <= j < k ==> !names_length(#[trigger] ls[j]),
        names_length(ls[k]),
        ls[k].skip(15) == before + decimal(body.len()) + after,
        forall|j: int| 0 <= j < before.len() ==> white_space(#[trigger] before[j]),
        forall|j: int| 0 <= j < after.len() ==> white_space(#[trigger] after[j]),
        encode_utf8(head_of(ls)).len() + 4 + body.len() <= usize::MAX,
    ensures
        outcome(
            encode_utf8(head_of(ls)) + seq![13u8, 10u8, 13u8, 10u8] + body + more,
            false,
        ) == (Outcome::Complete { status, body }),
        forall|n: int|
            0 <= n < body.len() ==> outcome(
                encode_utf8(head_of(ls)) + seq![13u8, 10u8, 13u8, 10u8] + #[trigger] body.take(n),
                true,
            ) == (Outcome::Complete { status, body: body.take(n) }),
{
    let head = encode_utf8(head_of(ls));
    let blank = seq![13u8, 10u8, 13u8, 10u8];
    let length = decimal(body.len());
    let digits = decimal(status);
    lemma_decimal(status);
    lemma_decimal(body.len());
    assert forall|i: int| 0 <= i < digits.len() implies !white_space(#[trigger] digits[i]) by {
        assert(is_digit(digits[i]));
    }
    assert(is_digit(length[0]) && is_digit(length[length.len() - 1]));
    status_is_the_second_word(ls, version, seq![' '], digits, tail);
    length_is_read_wherever_it_stands(ls, k, before, length, after);
    header_text_is_decoded(head_of(ls));
    lemma_header_lines_end(ls, seq![]);
    let block = head + blank;
    assert(block + Seq::<u8>::empty() =~= block);
    lemma_header_end_from(block, 0);
    assert forall|i: int| 0 <= i < head.len() implies #[trigger] block.subrange(i, i + 4)
        != blank by {
        let w = block.subrange(i, i + 4);
        assert(!blank_line_at(block, i));
        if w == blank {
            assert(w[0] == block[i] && w[1] == block[i + 1] && w[2] == block[i + 2] && w[3]
                == block[i + 3]);
        }
    }
    response_is_cut_at_the_blank_line(head, block, body + more, false);
    assert((body + more).take(body.len() as int) =~= body);
    assert(block + body + more =~= block + (body + more));
    assert forall|n: int| 0 <= n < body.len() implies outcome(
        block + #[trigger] body.take(n),
        true,
    ) == (Outcome::Complete { status, body: body.take(n) }) by {
        response_is_cut_at_the_blank_line(head, block, body.take(n), true);
    }
}

/// The document of a reply is what its body spells out, and null where it spells nothing out.
pub proof fn reply_holds_what_the_body_spells(body: Seq<u8>)
    ensures
        body.len() == 0 ==> reply_json(body) is Null,
        body.len() > 0 && parsed_json(body) is None ==> reply_json(body) is Null,
        body.len() > 0 ==> (parsed_json(body) matches Some(json) ==> reply_json(body) == json),
{
}

/// A document is sent as its text, and the null document as nothing at all.
pub proof fn document_is_sent_as_its_text(json: Json)
    ensures
        json is Null ==> body_text(json).len() == 0,
        !(json is Null) ==> body_text(json) == json_text(json),
{
}

/// A request names its method and its path on the first line, and the host, the kind of its body
/// and the length of it on lines of their own.
pub proof fn request_says_what_is_asked(method: Seq<char>, path: Seq<char>, length: nat)
    requires
        is_one_line(method),
        is_one_line(path),
    ensures
        lines(request_head(method, path, length)) == seq![
            method + seq![' '] + path + " HTTP/1.1"@,
            "Host: localhost"@,
            "Content-Type: application/json"@,
            "Content-Length: "@ + decimal(length),
        ],
        method.len() > 0 && path.len() > 0 && (forall|i: int|
            0 <= i < method.len() ==> !white_space(#[trigger] method[i])) && (forall|i: int|
            0 <= i < path.len() ==> !white_space(#[trigger] path[i])) ==> words(
            method + seq![' '] + path + " HTTP/1.1"@,
        ) == seq![method, path, "HTTP/1.1"@],
{
    reveal_strlit(" ");
    reveal_strlit(" HTTP/1.1");
    reveal_strlit("HTTP/1.1");
    reveal_strlit("\r\n");
    reveal_strlit("Host: localhost");
    reveal_strlit("Content-Type: application/json");
    reveal_strlit("Content-Length:");
    reveal_strlit("Content-Length: ");
    let l1 = method + seq![' '] + path + " HTTP/1.1"@;
    let l2 = "Host: localhost"@;
    let l3 = "Content-Type: application/json"@;
    let l4 = "Content-Length: "@ + decimal(length);
    lemma_decimal(length);
    assert forall|i: int| 0 <= i < l1.len() implies #[trigger] l1[i] != '\n' by {
        if i < method.len() {
            assert(l1[i] == method[i]);
        } else if method.len() < i < method.len() + 1 + path.len() {
            assert(l1[i] == path[i - method.len() - 1]);
        }
    }
    assert forall|i: int| 0 <= i < l4.len() implies #[trigger] l4[i] != '\n' by {
        if i >= 16 {
            assert(l4[i] == decimal(length)[i - 16]);
            assert(is_digit(decimal(length)[i - 16]));
        }
    }
    let ls = seq![l1, l2, l3, l4];
    assert(is_one_line(l1) && is_one_line(l2) && is_one_line(l3) && is_one_line(l4));
    assert(are_header_lines(ls));
    header_lines_read_back(ls);
    assert(request_head(method, path, length) =~= head_of(ls)) by {
        reveal_with_fuel(head_of, 5);
        assert(ls.drop_first() =~= seq![l2, l3, l4]);
        assert(ls.drop_first().drop_first() =~= seq![l3, l4]);
        assert(ls.drop_first().drop_first().drop_first() =~= seq![l4]);
    }
    if method.len() > 0 && path.len() > 0 && (forall|i: int|
        0 <= i < method.len() ==> !white_space(#[trigger] method[i])) && (forall|i: int|
        0 <= i < path.len() ==> !white_space(#[trigger] path[i])) {
        let none = Seq::<char>::empty();
        let after = path + seq![' '] + "HTTP/1.1"@;
        assert(l1 =~= none + method + seq![' '] + after);
        words_are_split(none, method, ' ', after);
        assert(after =~= none + path + seq![' '] + "HTTP/1.1"@);
        words_are_split(none, path, ' ', "HTTP/1.1"@);
        assert(none + "HTTP/1.1"@ =~= "HTTP/1.1"@);
        words_are_split(none, "HTTP/1.1"@, ' ', none);
        assert(words(l1) =~= seq![method, path, "HTTP/1.1"@]);
    }
}

} // verus!
