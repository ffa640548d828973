//! Just enough HTTP/1.1 for agents and collectors: reading request heads,
//! building responses, and reading them back.
use vstd::prelude::*;

use vstd::string::StrSliceExecFns;
use vstd::utf8::{
    decode_utf8, encode_utf8, encode_utf8_decode_utf8, encode_utf8_valid_utf8, valid_utf8,
};

use crate::args::token_text;
use crate::bytes::utf8_text;
use crate::bytes::utf8_complaint;
use crate::text::{
    chars_of, find_char, find_text, has_prefix, push_dec, same, split_lines, split_words, text_of, trim,
};
use crate::text::{
    begins, concat_assoc, dec, find, find_seq, is_digit, lemma_dec, lemma_find_is, lemma_find_seq,
    lemma_find_seq_is, lemma_trimmed_is_kept, lemma_words_cons, lines, occurs_at, texts, trimmed, white,
    without_cr, words,
};

verus! {

/// Most bytes of a request head that are read.
pub const MAX_HEADER_BYTES: usize = 8192;

/// Most bytes of one read.
pub const CHUNK_BYTES: usize = 1024;

/// Default cap for concurrent connection handlers of a server.
pub const MAX_INFLIGHT: usize = 16;

// ── Connection budget ────────────────────────────────────────────────────────

/// Leave to handle one connection.
#[derive(Debug)]
pub struct Permit {
    _private: (),
}

/// Grants a permit if fewer than `max` slots were taken when the counter of
/// taken slots was raised; `taken` is what the counter showed before.
pub fn try_acquire(taken: usize, max: usize) -> (r: Option<Permit>)
    ensures
        r is Some <==> taken < max,
{
    if taken >= max {
        None
    } else {
        Some(Permit { _private: () })
    }
}

/// The counter of slots, shared by any number of acceptors: the permits that are
/// out, and the arrivals that were turned away and have not lowered the counter
/// again.
pub struct Slots {
    pub granted: nat,
    pub leaving: nat,
}

/// What can happen to the counter, one step at a time.
pub enum SlotStep {
    /// An acceptor raises the counter and looks at what it showed before.
    Arrive,
    /// One that was turned away lowers it again.
    Leave,
    /// A permit is given back.
    Release,
}

impl Slots {
    /// What the counter shows.
    pub open spec fn counter(self) -> nat {
        self.granted + self.leaving
    }

    /// The slots after a step.
    pub open spec fn after(self, step: SlotStep, max: nat) -> Slots {
        match step {
            SlotStep::Arrive => if self.counter() < max {
                Slots { granted: self.granted + 1, leaving: self.leaving }
            } else {
                Slots { granted: self.granted, leaving: self.leaving + 1 }
            },
            SlotStep::Leave => if self.leaving > 0 {
                Slots { granted: self.granted, leaving: (self.leaving - 1) as nat }
            } else {
                self
            },
            SlotStep::Release => if self.granted > 0 {
                Slots { granted: (self.granted - 1) as nat, leaving: self.leaving }
            } else {
                self
            },
        }
    }

    /// The slots after the first `n` steps, from none taken.
    pub open spec fn run(steps: Seq<SlotStep>, n: int, max: nat) -> Slots
        decreases n,
    {
        if n <= 0 {
            Slots { granted: 0, leaving: 0 }
        } else {
            Slots::run(steps, n - 1, max).after(steps[n - 1], max)
        }
    }
}

/// However arrivals and departures interleave, no more than `max` permits are
/// out at a time.
pub proof fn permits_never_exceed_the_cap(steps: Seq<SlotStep>, n: int, max: nat)
    ensures
        Slots::run(steps, n, max).granted <= max,
    decreases n,
{
    if n > 0 {
        permits_never_exceed_the_cap(steps, n - 1, max);
    }
}

// ── Request heads ────────────────────────────────────────────────────────────

/// The blank line that ends a head.
pub open spec fn blank_line() -> Seq<u8> {
    seq![13u8, 10u8, 13u8, 10u8]
}

/// Whether a blank line stands in `s`.
pub open spec fn has_blank_line(s: Seq<u8>) -> bool {
    exists|i: int| #[trigger] occurs_at(s, i, blank_line())
}

/// What is read of a head from the reads `chunks` on from index `k`, behind
/// `buf`: until a blank line was seen, a read gave nothing, or the cap is reached.
pub open spec fn head_from(buf: Seq<u8>, chunks: Seq<Vec<u8>>, k: int) -> Seq<u8>
    decreases chunks.len() - k,
{
    if buf.len() >= MAX_HEADER_BYTES || k >= chunks.len() || chunks[k]@.len() == 0 {
        buf
    } else if has_blank_line(buf + chunks[k]@) {
        buf + chunks[k]@
    } else {
        head_from(buf + chunks[k]@, chunks, k + 1)
    }
}

/// A request head in the making.
pub struct RequestHead {
    buf: Vec<u8>,
    ended: bool,
}

impl View for RequestHead {
    type V = Seq<u8>;

    closed spec fn view(&self) -> Seq<u8> {
        self.buf@
    }
}

fn seen_blank_line(v: &Vec<u8>) -> (r: bool)
    ensures
        r == has_blank_line(v@),
{
    let mut i: usize = 0;
    while i < v.len() && v.len() - i >= 4
        invariant
            i <= v.len(),
            forall|k: int| 0 <= k < i ==> !occurs_at(v@, k, blank_line()),
        decreases v.len() - i,
    {
        if v[i] == 13 && v[i + 1] == 10 && v[i + 2] == 13 && v[i + 3] == 10 {
            assert(v@.subrange(i as int, i + 4) =~= blank_line());
            assert(occurs_at(v@, i as int, blank_line()));
            return true;
        }
        proof {
            if occurs_at(v@, i as int, blank_line()) {
                let w = v@.subrange(i as int, i + 4);
                assert(w[0] == 13 && w[1] == 10 && w[2] == 13 && w[3] == 10);
                assert(false);
            }
        }
        i += 1;
    }
    false
}

impl RequestHead {
    /// Whether no further read is needed.
    pub closed spec fn done(&self) -> bool {
        self.ended || self.buf@.len() >= MAX_HEADER_BYTES
    }

    /// Nothing read yet.
    pub fn new() -> (r: Self)
        ensures
            r@ == Seq::<u8>::empty(),
            !r.done(),
    {
        RequestHead { buf: Vec::new(), ended: false }
    }

    /// Whether a further read is needed.
    pub fn wants_more(&self) -> (r: bool)
        ensures
            r == !self.done(),
            r ==> self@.len() < MAX_HEADER_BYTES,
    {
        !self.ended && self.buf.len() < MAX_HEADER_BYTES
    }

    /// Takes in a read. An empty one ends the head.
    pub fn feed(&mut self, chunk: &[u8])
        requires
            !old(self).done(),
            chunk@.len() <= CHUNK_BYTES,
        ensures
            final(self)@ == old(self)@ + chunk@,
            final(self).done() == (chunk@.len() == 0 || has_blank_line(old(self)@ + chunk@) || (old(
                self,
            )@ + chunk@).len() >= MAX_HEADER_BYTES),
    {
        let ghost before = self.buf@;
        let mut i: usize = 0;
        while i < chunk.len()
            invariant
                i <= chunk.len(),
                self.buf@ == before + chunk@.take(i as int),
                !self.ended,
            decreases chunk.len() - i,
        {
            self.buf.push(chunk[i]);
            i += 1;
            assert(chunk@.take(i as int) == chunk@.take(i - 1).push(chunk@[i - 1]));
        }
        assert(chunk@.take(i as int) == chunk@);
        if chunk.len() == 0 || seen_blank_line(&self.buf) {
            self.ended = true;
        }
    }

    /// What was read.
    pub fn into_bytes(self) -> (r: Vec<u8>)
        ensures
            r@ == self@,
    {
        self.buf
    }
}

/// The head of a request that arrives in the given reads.
pub fn read_request_head(chunks: &Vec<Vec<u8>>) -> (r: Vec<u8>)
    requires
        forall|k: int| 0 <= k < chunks@.len() ==> (#[trigger] chunks@[k])@.len() <= CHUNK_BYTES,
    ensures
        r@ == head_from(Seq::empty(), chunks@, 0),
{
    let mut head = RequestHead::new();
    let mut k: usize = 0;
    while k < chunks.len() && head.wants_more()
        invariant
            k <= chunks.len(),
            forall|j: int| 0 <= j < chunks@.len() ==> (#[trigger] chunks@[j])@.len() <= CHUNK_BYTES,
            if head.done() {
                head@ == head_from(Seq::empty(), chunks@, 0)
            } else {
                head_from(head@, chunks@, k as int) == head_from(Seq::empty(), chunks@, 0)
            },
        decreases chunks.len() - k,
    {
        assert(chunks@[k as int]@.len() <= CHUNK_BYTES);
        let ghost before = head@;
        head.feed(chunks[k].as_slice());
        k += 1;
        proof {
            reveal_with_fuel(head_from, 2);
            let c = chunks@[k - 1]@;
            if c.len() == 0 {
                assert(before + c == before);
            }
        }
    }
    head.into_bytes()
}

/// The path in the first line of a request: what stands between its first and
/// its second space.
pub open spec fn path_in(buf: Seq<u8>) -> Option<Seq<char>> {
    let line = buf.take(find(buf, 0, 13u8));
    if !valid_utf8(line) {
        None
    } else {
        let text = decode_utf8(line);
        let j = find(text, 0, ' ');
        if j >= text.len() {
            None
        } else {
            Some(text.subrange(j + 1, find(text, j + 1, ' ')))
        }
    }
}

fn first_cr(buf: &[u8]) -> (r: usize)
    ensures
        r == find(buf@, 0, 13u8),
        r <= buf@.len(),
{
    let mut i: usize = 0;
    while i < buf.len() && buf[i] != 13
        invariant
            i <= buf.len(),
            find(buf@, 0, 13u8) == find(buf@, i as int, 13u8),
        decreases buf.len() - i,
    {
        i += 1;
    }
    i
}

/// The path of a request, or `None` if its first line is malformed.
pub fn extract_path(buf: &[u8]) -> (r: Option<String>)
    ensures
        match (r, path_in(buf@)) {
            (Some(p), Some(q)) => p@ == q,
            (None, None) => true,
            _ => false,
        },
{
    let end: usize = first_cr(buf);
    let line = vstd::slice::slice_subrange(buf, 0, end);
    assert(buf@.subrange(0, end as int) == buf@.take(end as int));
    match utf8_text(line) {
        Err(_) => None,
        Ok(s) => {
            proof {
                encode_utf8_decode_utf8(s@);
            }
            let v = chars_of(s);
            let j: usize = find_char(&v, 0, ' ');
            if j == v.len() {
                return None;
            }
            let k: usize = find_char(&v, j + 1, ' ');
            Some(text_of(&v, j + 1, k))
        },
    }
}

// ── Bearer tokens ────────────────────────────────────────────────────────────

/// An ASCII letter in lower case; any other character as it is.
pub open spec fn lower(c: char) -> char {
    if 'A' <= c <= 'Z' {
        (c as u32 + 32) as char
    } else {
        c
    }
}

/// Whether two texts differ at most in the case of ASCII letters.
pub open spec fn same_but_for_case(a: Seq<char>, b: Seq<char>) -> bool {
    &&& a.len() == b.len()
    &&& forall|k: int| 0 <= k < a.len() ==> lower(#[trigger] a[k]) == lower(b[k])
}

/// An ASCII letter in lower case; any other character as it is.
pub fn to_lower(c: char) -> (r: char)
    ensures
        r == lower(c),
{
    if 'A' <= c && c <= 'Z' {
        (c as u8 + 32) as char
    } else {
        c
    }
}

/// Whether two texts differ at most in the case of ASCII letters.
pub fn equal_ignoring_case(a: &str, b: &str) -> (r: bool)
    ensures
        r == same_but_for_case(a@, b@),
{
    let x = chars_of(a);
    let y = chars_of(b);
    if x.len() != y.len() {
        return false;
    }
    let mut i: usize = 0;
    while i < x.len()
        invariant
            x@ == a@,
            y@ == b@,
            x.len() == y.len(),
            i <= x.len(),
            forall|k: int| 0 <= k < i ==> lower(#[trigger] a@[k]) == lower(b@[k]),
        decreases x.len() - i,
    {
        if to_lower(x[i]) != to_lower(y[i]) {
            assert(lower(a@[i as int]) != lower(b@[i as int]));
            return false;
        }
        i += 1;
    }
    true
}

/// The end of the line that starts at `i`: where the next line break stands, or
/// the end of the text.
pub open spec fn line_end(text: Seq<char>, i: int) -> int {
    match find_seq(text, i, "\r\n"@) {
        Some(j) => j,
        None => text.len() as int,
    }
}

/// The token of a header value of the scheme `Bearer`.
pub open spec fn token_of(value: Seq<char>) -> Option<Seq<char>> {
    let v = trimmed(value);
    if begins(v, "Bearer "@) {
        Some(trimmed(v.skip(7)))
    } else {
        None
    }
}

/// The token of the first header named `Authorization` among the lines from `i`
/// up to an empty one. A line without a colon is no header.
pub open spec fn bearer_from(text: Seq<char>, i: int) -> Option<Seq<char>>
    decreases text.len() - i,
{
    if !(0 <= i <= text.len()) {
        None
    } else {
        let e = line_end(text, i);
        let line = text.subrange(i, e);
        let colon = find(line, 0, ':');
        let next = e + 2;
        proof {
            lemma_find_seq(text, i, "\r\n"@);
            reveal_strlit("\r\n");
        }
        if line.len() == 0 {
            None
        } else if colon < line.len() && same_but_for_case(line.take(colon), "authorization"@) {
            token_of(line.skip(colon + 1))
        } else if next <= text.len() {
            bearer_from(text, next)
        } else {
            None
        }
    }
}

/// The bearer token of a request.
pub open spec fn bearer_in(buf: Seq<u8>) -> Option<Seq<char>> {
    if valid_utf8(buf) {
        bearer_from(decode_utf8(buf), 0)
    } else {
        None
    }
}

fn token_in(value: &str) -> (r: Option<String>)
    ensures
        match (r, token_of(value@)) {
            (Some(a), Some(b)) => a@ == b,
            (None, None) => true,
            _ => false,
        },
{
    let v = trim(value);
    if has_prefix(&v, "Bearer ") {
        proof {
            reveal_strlit("Bearer ");
        }
        let c = chars_of(&v);
        let rest = text_of(&c, 7, c.len());
        assert(c@.subrange(7, c@.len() as int) == v@.skip(7));
        Some(trim(&rest))
    } else {
        None
    }
}

/// The bearer token in the `Authorization` header of a request. The name of the
/// header is told in any case, and white space around the token is dropped.
pub fn extract_bearer(buf: &[u8]) -> (r: Option<String>)
    ensures
        match (r, bearer_in(buf@)) {
            (Some(a), Some(b)) => a@ == b,
            (None, None) => true,
            _ => false,
        },
{
    match utf8_text(buf) {
        Err(_) => None,
        Ok(s) => {
            proof {
                encode_utf8_decode_utf8(s@);
                reveal_strlit("\r\n");
            }
            let v = chars_of(s);
            let crlf = chars_of("\r\n");
            let mut i: usize = 0;
            loop
                invariant
                    v@ == s@,
                    crlf@ == "\r\n"@,
                    crlf@.len() == 2,
                    i <= v.len(),
                    bearer_in(buf@) == bearer_from(s@, i as int),
                decreases v.len() - i,
            {
                let found = find_text(&v, i, &crlf);
                proof {
                    lemma_find_seq(v@, i as int, "\r\n"@);
                }
                let e: usize = match found {
                    Some(j) => j,
                    None => v.len(),
                };
                assert(e == line_end(s@, i as int));
                if e == i {
                    return None;
                }
                let line = text_of(&v, i, e);
                let lv = chars_of(&line);
                let colon: usize = find_char(&lv, 0, ':');
                if colon < lv.len() {
                    let name = text_of(&lv, 0, colon);
                    assert(name@ == line@.take(colon as int));
                    if equal_ignoring_case(&name, "authorization") {
                        let value = text_of(&lv, colon + 1, lv.len());
                        assert(value@ == line@.skip(colon + 1));
                        return token_in(&value);
                    }
                }
                match found {
                    None => {
                        return None;
                    },
                    Some(j) => {
                        i = j + 2;
                    },
                }
            }
        },
    }
}

/// Whether the presented token is the required one. Every byte of both is looked
/// at, however they differ.
pub fn constant_time_eq(presented: Option<&str>, required: &str) -> (r: bool)
    ensures
        r == (presented matches Some(p) && p@ == required@),
{
    match presented {
        None => false,
        Some(p) => {
            let a = p.as_bytes();
            let b = required.as_bytes();
            let mut diff: u8 = if a.len() == b.len() {
                0
            } else {
                1
            };
            let mut i: usize = 0;
            while i < b.len()
                invariant
                    i <= b.len(),
                    diff == 0 <==> (a.len() == b.len() && forall|k: int|
                        0 <= k < i && k < a@.len() ==> a@[k] == b@[k]),
                decreases b.len() - i,
            {
                let byte: u8 = if i < a.len() {
                    a[i]
                } else {
                    0
                };
                let other: u8 = b[i];
                let next: u8 = diff | (byte ^ other);
                assert(next == 0 <==> diff == 0 && byte == other) by (bit_vector)
                    requires
                        next == diff | (byte ^ other),
                ;
                diff = next;
                i += 1;
            }
            proof {
                if diff == 0 {
                    assert(a@ =~= b@);
                }
                encode_utf8_decode_utf8(p@);
                encode_utf8_decode_utf8(required@);
            }
            diff == 0
        },
    }
}

// ── Responses ────────────────────────────────────────────────────────────────

/// The head of a response, without the blank line that ends it.
pub open spec fn response_head(status: Seq<char>, content_type: Seq<char>, length: nat) -> Seq<char> {
    "HTTP/1.1 "@ + status + "\r\nContent-Type: "@ + content_type + "\r\nContent-Length: "@ + dec(
        length,
    ) + "\r\nConnection: close\r\nAccess-Control-Allow-Origin: *"@
}

/// A full response.
pub open spec fn response_text(status: Seq<char>, content_type: Seq<char>, body: Seq<char>) -> Seq<
    char,
> {
    response_head(status, content_type, encode_utf8(body).len()) + "\r\n\r\n"@ + body
}

/// A full HTTP/1.1 response with `Connection: close` and permissive CORS.
pub fn http_response(status: &str, content_type: &str, body: &str) -> (r: Vec<u8>)
    ensures
        r@ == encode_utf8(response_text(status@, content_type@, body@)),
{
    let mut out: String = "HTTP/1.1 ".to_string();
    out.append(status);
    out.append("\r\nContent-Type: ");
    out.append(content_type);
    out.append("\r\nContent-Length: ");
    push_dec(&mut out, body.as_bytes().len() as u64);
    out.append("\r\nConnection: close\r\nAccess-Control-Allow-Origin: *");
    out.append("\r\n\r\n");
    out.append(body);
    out.as_str().as_bytes_vec()
}

/// The request that a collector sends to an agent.
pub open spec fn request_text(target: Seq<char>, auth: Option<Seq<char>>) -> Seq<char> {
    "GET /json HTTP/1.1\r\nHost: "@ + target
        + "\r\nUser-Agent: power-monitor-collect/0.1\r\nConnection: close\r\n"@ + (match auth {
        Some(token) => "Authorization: Bearer "@ + token + "\r\n"@,
        None => Seq::empty(),
    }) + "\r\n"@
}

/// The request that a collector sends to an agent.
pub fn build_request(target: &str, auth: Option<&str>) -> (r: String)
    ensures
        r@ == request_text(target@, token_text(auth)),
{
    broadcast use concat_assoc;

    let mut out: String = "GET /json HTTP/1.1\r\nHost: ".to_string();
    out.append(target);
    out.append("\r\nUser-Agent: power-monitor-collect/0.1\r\nConnection: close\r\n");
    match auth {
        Some(token) => {
            out.append("Authorization: Bearer ");
            out.append(token);
            out.append("\r\n");
        },
        None => {
            assert(out@ + Seq::<char>::empty() == out@);
        },
    }
    out.append("\r\n");
    out
}

/// Why a response could not be used.
#[derive(Debug, Clone, PartialEq, Eq)]
pub enum ResponseError {
    /// It is not UTF-8; what is wrong with it.
    NotUtf8(String),
    /// No blank line ends its head.
    Malformed,
    /// Its status is not 200; the status line.
    Status(String),
}

impl ResponseError {
    /// The error in words, for the agent at `target`.
    pub open spec fn text(self, target: Seq<char>) -> Seq<char> {
        match self {
            ResponseError::NotUtf8(e) => "utf8 "@ + target + ": "@ + e@,
            ResponseError::Malformed => "malformed response from "@ + target,
            ResponseError::Status(line) => target + ": "@ + line@,
        }
    }

    /// The error in words, for the agent at `target`.
    pub fn message(&self, target: &str) -> (r: String)
        ensures
            r@ == self.text(target@),
    {
        let mut out: String = String::new();
        match self {
            ResponseError::NotUtf8(e) => {
                out.append("utf8 ");
                assert(out@ == "utf8 "@);
                out.append(target);
                out.append(": ");
                out.append(e);
            },
            ResponseError::Malformed => {
                out.append("malformed response from ");
                assert(out@ == "malformed response from "@);
                out.append(target);
            },
            ResponseError::Status(line) => {
                out.append(target);
                assert(out@ == target@);
                out.append(": ");
                out.append(line);
            },
        }
        out
    }
}

/// The first line of a text; empty if it has none.
pub open spec fn first_line(s: Seq<char>) -> Seq<char> {
    if lines(s).len() > 0 {
        lines(s)[0]
    } else {
        Seq::empty()
    }
}

/// Whether the second word of a status line is 200.
pub open spec fn is_ok(line: Seq<char>) -> bool {
    words(line).len() > 1 && words(line)[1] == "200"@
}

/// What a response holds: its body, or its status line if the status is not 200,
/// or nothing if no blank line ends its head.
pub open spec fn body_of(text: Seq<char>) -> Option<Result<Seq<char>, Seq<char>>> {
    match find_seq(text, 0, "\r\n\r\n"@) {
        None => None,
        Some(j) => {
            let line = first_line(text.take(j));
            if is_ok(line) {
                Some(Ok(text.skip(j + 4)))
            } else {
                Some(Err(line))
            }
        },
    }
}

/// The body of a response with the status 200.
pub fn parse_response(raw: &[u8]) -> (r: Result<String, ResponseError>)
    ensures
        match r {
            Ok(body) => valid_utf8(raw@) && body_of(decode_utf8(raw@)) == Some(
                Ok::<Seq<char>, Seq<char>>(body@),
            ),
            Err(ResponseError::NotUtf8(e)) => !valid_utf8(raw@) && e@ == utf8_complaint(raw@),
            Err(ResponseError::Malformed) => valid_utf8(raw@) && body_of(decode_utf8(raw@)) is None,
            Err(ResponseError::Status(line)) => valid_utf8(raw@) && body_of(decode_utf8(raw@))
                == Some(Err::<Seq<char>, Seq<char>>(line@)),
        },
{
    match utf8_text(raw) {
        Err(e) => Err(ResponseError::NotUtf8(e)),
        Ok(s) => {
            proof {
                encode_utf8_decode_utf8(s@);
                reveal_strlit("\r\n\r\n");
            }
            let v = chars_of(s);
            let gap = chars_of("\r\n\r\n");
            match find_text(&v, 0, &gap) {
                None => Err(ResponseError::Malformed),
                Some(j) => {
                    let head = text_of(&v, 0, j);
                    assert(head@ == s@.take(j as int));
                    let all = split_lines(&head);
                    let line: String = if all.len() > 0 {
                        assert(texts(all@)[0] == all@[0]@);
                        all[0].clone()
                    } else {
                        String::new()
                    };
                    assert(line@ == first_line(head@));
                    let parts = split_words(&line);
                    if parts.len() > 1 && same(&parts[1], "200") {
                        assert(texts(parts@)[1] == parts@[1]@);
                        let body = text_of(&v, j + 4, v.len());
                        assert(body@ == s@.skip(j + 4));
                        Ok(body)
                    } else {
                        assert(parts.len() > 1 ==> texts(parts@)[1] == parts@[1]@);
                        Err(ResponseError::Status(line))
                    }
                },
            }
        },
    }
}

// ── What is sent is read back ────────────────────────────────────────────────

/// Whether every carriage return is followed, one further on, by something that
/// is none: then no blank line stands there.
spec fn calm(s: Seq<char>) -> bool {
    forall|k: int|
        0 <= k < s.len() && #[trigger] s[k] == '\r' ==> k + 2 < s.len() && s[k + 2] != '\r'
}

proof fn lemma_calm_concat(a: Seq<char>, b: Seq<char>)
    requires
        calm(a),
        calm(b),
    ensures
        calm(a + b),
{
    assert forall|k: int| 0 <= k < (a + b).len() && #[trigger] (a + b)[k] == '\r' implies k + 2 < (a
        + b).len() && (a + b)[k + 2] != '\r' by {
        if k < a.len() {
            assert(a[k] == '\r');
            assert((a + b)[k + 2] == a[k + 2]);
        } else {
            assert(b[k - a.len()] == '\r');
            assert((a + b)[k + 2] == b[k - a.len() + 2]);
        }
    }
}

/// Whether a text stands on one line.
pub open spec fn one_line(s: Seq<char>) -> bool {
    !s.contains('\r') && !s.contains('\n')
}

proof fn lemma_one_line_calm(s: Seq<char>)
    requires
        !s.contains('\r'),
    ensures
        calm(s),
{
    assert forall|k: int| 0 <= k < s.len() implies #[trigger] s[k] != '\r' by {
        assert(s.contains(s[k]));
    }
}

proof fn lemma_head_calm(status: Seq<char>, content_type: Seq<char>, length: nat)
    requires
        one_line(status),
        one_line(content_type),
    ensures
        calm(response_head(status, content_type, length)),
{
    reveal_strlit("HTTP/1.1 ");
    reveal_strlit("\r\nContent-Type: ");
    reveal_strlit("\r\nContent-Length: ");
    reveal_strlit("\r\nConnection: close\r\nAccess-Control-Allow-Origin: *");
    lemma_dec(length);
    assert forall|k: int| 0 <= k < dec(length).len() implies #[trigger] dec(length)[k] != '\r' by {
        assert(is_digit(dec(length)[k]));
    }
    lemma_one_line_calm(status);
    lemma_one_line_calm(content_type);
    let a1 = "HTTP/1.1 "@ + status;
    let a2 = a1 + "\r\nContent-Type: "@;
    let a3 = a2 + content_type;
    let a4 = a3 + "\r\nContent-Length: "@;
    let a5 = a4 + dec(length);
    assert(calm("HTTP/1.1 "@));
    lemma_calm_concat("HTTP/1.1 "@, status);
    assert(calm("\r\nContent-Type: "@));
    lemma_calm_concat(a1, "\r\nContent-Type: "@);
    lemma_calm_concat(a2, content_type);
    assert(calm("\r\nContent-Length: "@));
    lemma_calm_concat(a3, "\r\nContent-Length: "@);
    lemma_calm_concat(a4, dec(length));
    assert(calm("\r\nConnection: close\r\nAccess-Control-Allow-Origin: *"@));
    lemma_calm_concat(a5, "\r\nConnection: close\r\nAccess-Control-Allow-Origin: *"@);
}

/// The first blank line is the one behind a calm head.
proof fn lemma_gap_found(head: Seq<char>, body: Seq<char>)
    requires
        calm(head),
    ensures
        find_seq(head + "\r\n\r\n"@ + body, 0, "\r\n\r\n"@) == Some(head.len() as int),
{
    reveal_strlit("\r\n\r\n");
    let gap = "\r\n\r\n"@;
    let s = head + gap + body;
    assert(s.subrange(head.len() as int, head.len() as int + 4) == gap);
    assert forall|k: int| 0 <= k < head.len() implies !occurs_at(s, k, gap) by {
        if occurs_at(s, k, gap) {
            let w = s.subrange(k, k + 4);
            assert(w[0] == '\r' && w[2] == '\r');
            assert(s[k] == head[k]);
            assert(head[k] == '\r');
            assert(s[k + 2] == head[k + 2]);
            assert(w[2] == s[k + 2]);
            assert(false);
        }
    }
    lemma_find_seq_is(s, 0, gap, head.len() as int);
}

proof fn lemma_first_line(line: Seq<char>, rest: Seq<char>)
    requires
        one_line(line),
    ensures
        first_line(line + "\r\n"@ + rest) == line,
{
    reveal_strlit("\r\n");
    let s = line + "\r\n"@ + rest;
    let j = line.len() as int + 1;
    assert(s[j] == '\n');
    assert forall|k: int| 0 <= k < j implies s[k] != '\n' by {
        if k < line.len() {
            assert(s[k] == line[k]);
            assert(line.contains(line[k]));
        }
    }
    lemma_find_is(s, 0, '\n', j);
    assert(s.take(j).last() == '\r');
    assert(without_cr(s.take(j)) == line);
}

proof fn lemma_concat_one_line(a: Seq<char>, b: Seq<char>)
    requires
        one_line(a),
        one_line(b),
    ensures
        one_line(a + b),
{
    assert forall|k: int| 0 <= k < (a + b).len() implies (a + b)[k] != '\r' && (a + b)[k] != '\n' by {
        if k < a.len() {
            assert(a.contains(a[k]));
        } else {
            assert(b.contains(b[k - a.len()]));
        }
    }
}

/// A response is read back as what it was built from: with the status code 200 as
/// its body, and with any other code as its status line.
pub proof fn responses_are_read_back(
    code: Seq<char>,
    reason: Seq<char>,
    content_type: Seq<char>,
    body: Seq<char>,
)
    requires
        code.len() > 0,
        forall|k: int| 0 <= k < code.len() ==> !white(#[trigger] code[k]),
        one_line(reason),
        one_line(content_type),
    ensures
        ({
            let status = code + " "@ + reason;
            let sent = encode_utf8(response_text(status, content_type, body));
            &&& valid_utf8(sent)
            &&& body_of(decode_utf8(sent)) == Some(
                if code == "200"@ {
                    Ok::<Seq<char>, Seq<char>>(body)
                } else {
                    Err("HTTP/1.1 "@ + status)
                },
            )
        }),
{
    reveal_strlit(" ");
    let status = code + " "@ + reason;
    let text = response_text(status, content_type, body);
    encode_utf8_valid_utf8(text);
    encode_utf8_decode_utf8(text);
    let n = encode_utf8(body).len();
    let head = response_head(status, content_type, n);
    assert forall|k: int| 0 <= k < code.len() implies code[k] != '\r' && code[k] != '\n' by {
        assert(!white(code[k]));
    }
    assert(one_line(code));
    assert(one_line(" "@));
    lemma_concat_one_line(code, " "@);
    lemma_concat_one_line(code + " "@, reason);
    lemma_head_calm(status, content_type, n);
    lemma_gap_found(head, body);
    assert(text.take(head.len() as int) =~= head);
    reveal_strlit("\r\n\r\n");
    assert(text.skip(head.len() as int + 4) =~= body);
    reveal_strlit("HTTP/1.1 ");
    reveal_strlit("\r\n");
    reveal_strlit("\r\nContent-Type: ");
    reveal_strlit("Content-Type: ");
    let line = "HTTP/1.1 "@ + status;
    assert(one_line("HTTP/1.1 "@));
    lemma_concat_one_line("HTTP/1.1 "@, status);
    let rest = "Content-Type: "@ + content_type + "\r\nContent-Length: "@ + dec(n)
        + "\r\nConnection: close\r\nAccess-Control-Allow-Origin: *"@;
    assert("\r\nContent-Type: "@ =~= "\r\n"@ + "Content-Type: "@);
    assert(head == line + "\r\n"@ + rest) by {
        broadcast use concat_assoc;

    }
    lemma_first_line(line, rest);
    let version = "HTTP/1.1"@;
    reveal_strlit("HTTP/1.1");
    assert(line =~= version + seq![' '] + (code + seq![' '] + reason));
    lemma_words_cons(version, ' ', code + seq![' '] + reason);
    lemma_words_cons(code, ' ', reason);
    assert(words(line)[1] == code);
}

proof fn lemma_encode_concat(a: Seq<char>, b: Seq<char>)
    ensures
        encode_utf8(a + b) == encode_utf8(a) + encode_utf8(b),
    decreases a.len(),
{
    if a.len() == 0 {
        assert(a + b == b);
        assert(encode_utf8(a) + encode_utf8(b) == encode_utf8(b));
    } else {
        lemma_encode_concat(a.drop_first(), b);
        assert((a + b).drop_first() == a.drop_first() + b);
        assert((a + b)[0] == a[0]);
        broadcast use concat_assoc;

    }
}

/// A line that is no `Authorization` header is passed over.
proof fn lemma_bearer_step(text: Seq<char>, i: int, line: Seq<char>, rest: Seq<char>)
    requires
        0 <= i <= text.len(),
        text.skip(i) == line + "\r\n"@ + rest,
        one_line(line),
        line.len() > 0,
        ({
            let colon = find(line, 0, ':');
            colon == line.len() || colon != 13
        }),
    ensures
        bearer_from(text, i) == bearer_from(text, i + line.len() + 2),
        text.skip(i + line.len() + 2) == rest,
        i + line.len() + 2 <= text.len(),
{
    lemma_line(text, i, line, rest);
    reveal_strlit("authorization");
    crate::text::lemma_find(line, 0, ':');
}

proof fn lemma_line(text: Seq<char>, i: int, line: Seq<char>, rest: Seq<char>)
    requires
        0 <= i <= text.len(),
        text.skip(i) == line + "\r\n"@ + rest,
        one_line(line),
    ensures
        line_end(text, i) == i + line.len(),
        text.subrange(i, i + line.len()) == line,
        text.skip(i + line.len() + 2) == rest,
        i + line.len() + 2 + rest.len() == text.len(),
{
    reveal_strlit("\r\n");
    let t = line + "\r\n"@ + rest;
    assert(t.len() == text.len() - i);
    assert forall|k: int| i <= k < text.len() implies #[trigger] text[k] == t[k - i] by {
        assert(text.skip(i)[k - i] == text[k]);
    }
    let e = i + line.len();
    assert(text.subrange(i, e) =~= line);
    assert(text.subrange(e, e + 2) =~= "\r\n"@);
    assert(text.skip(e + 2) =~= rest);
    assert forall|k: int| i <= k < e implies !occurs_at(text, k, "\r\n"@) by {
        if occurs_at(text, k, "\r\n"@) {
            assert(text.subrange(k, k + 2)[0] == '\r');
            assert(text[k] == line[k - i]);
            assert(line.contains(line[k - i]));
        }
    }
    lemma_find_seq_is(text, i, "\r\n"@, e);
}

/// The token behind a `Bearer` header is read from it.
proof fn lemma_bearer_line(text: Seq<char>, i: int, token: Seq<char>, rest: Seq<char>)
    requires
        0 <= i <= text.len(),
        text.skip(i) == "Authorization: Bearer "@ + token + "\r\n"@ + rest,
        one_line(token),
        token.len() > 0,
        !white(token[0]),
        !white(token.last()),
    ensures
        bearer_from(text, i) == Some(token),
{
    reveal_strlit("Authorization: Bearer ");
    reveal_strlit("authorization");
    reveal_strlit("Bearer ");
    let line = "Authorization: Bearer "@ + token;
    assert(one_line("Authorization: Bearer "@));
    lemma_concat_one_line("Authorization: Bearer "@, token);
    lemma_line(text, i, line, rest);
    lemma_find_is(line, 0, ':', 13);
    let name = line.take(13);
    assert(same_but_for_case(name, "authorization"@)) by {
        assert forall|k: int| 0 <= k < 13 implies lower(#[trigger] name[k]) == lower("authorization"@[k]) by {
            assert(name[k] == "Authorization: Bearer "@[k]);
            if k == 0 {
                assert(lower('A') == 'a');
                assert(lower('a') == 'a');
            }
        }
    }
    let value = line.skip(14);
    let inner = "Bearer "@ + token;
    assert(value =~= seq![' '] + inner);
    assert(trimmed(value) == inner) by {
        assert(value[0] == ' ' && value[1] == inner[0]);
        assert(inner[0] == 'B');
        assert(crate::text::skip_white(value, 1) == 1);
        assert(crate::text::skip_white(value, 0) == 1);
        assert(value.last() == token.last());
        assert(crate::text::back_over_white(value, value.len() as int) == value.len());
        assert(value.subrange(1, value.len() as int) =~= inner);
    }
    assert(inner.subrange(0, 7) =~= "Bearer "@);
    assert(inner.skip(7) =~= token);
    lemma_trimmed_is_kept(token);
}

/// An agent reads from a collector's request the path `/json`, and the token that
/// the collector was given.
pub proof fn requests_carry_path_and_token(target: Seq<char>, token: Seq<char>)
    requires
        one_line(target),
        one_line(token),
        token.len() > 0,
        !white(token[0]),
        !white(token.last()),
    ensures
        path_in(encode_utf8(request_text(target, Some(token)))) == Some("/json"@),
        bearer_in(encode_utf8(request_text(target, Some(token)))) == Some(token),
{
    let text = request_text(target, Some(token));
    encode_utf8_valid_utf8(text);
    encode_utf8_decode_utf8(text);
    requests_ask_for_json(target, Some(token));
    reveal_strlit("GET /json HTTP/1.1");
    reveal_strlit("GET /json HTTP/1.1\r\nHost: ");
    reveal_strlit("Host: ");
    reveal_strlit("\r\n");
    reveal_strlit("User-Agent: power-monitor-collect/0.1");
    reveal_strlit("Connection: close");
    reveal_strlit("\r\nUser-Agent: power-monitor-collect/0.1\r\nConnection: close\r\n");
    let crlf = "\r\n"@;
    let l1 = "GET /json HTTP/1.1"@;
    let l2 = "Host: "@ + target;
    let l3 = "User-Agent: power-monitor-collect/0.1"@;
    let l4 = "Connection: close"@;
    let r5 = "Authorization: Bearer "@ + token + crlf + crlf;
    let r4 = l4 + crlf + r5;
    let r3 = l3 + crlf + r4;
    let r2 = l2 + crlf + r3;
    assert("GET /json HTTP/1.1\r\nHost: "@ =~= l1 + crlf + "Host: "@);
    assert("\r\nUser-Agent: power-monitor-collect/0.1\r\nConnection: close\r\n"@ =~= crlf + l3 + crlf
        + l4 + crlf);
    assert(text == l1 + crlf + r2) by {
        broadcast use concat_assoc;

    }
    assert(text.skip(0) == text);
    lemma_no_colon(l1);
    lemma_bearer_step(text, 0, l1, r2);
    let i2 = l1.len() + 2;
    lemma_find_is(l2, 0, ':', 4);
    assert(one_line("Host: "@));
    lemma_concat_one_line("Host: "@, target);
    lemma_bearer_step(text, i2 as int, l2, r3);
    let i3 = i2 + l2.len() + 2;
    lemma_find_is(l3, 0, ':', 10);
    lemma_bearer_step(text, i3 as int, l3, r4);
    let i4 = i3 + l3.len() + 2;
    lemma_find_is(l4, 0, ':', 10);
    lemma_bearer_step(text, i4 as int, l4, r5);
    let i5 = i4 + l4.len() + 2;
    lemma_bearer_line(text, i5 as int, token, crlf);
}

proof fn lemma_no_colon(s: Seq<char>)
    requires
        !s.contains(':'),
    ensures
        find(s, 0, ':') == s.len(),
{
    assert forall|k: int| 0 <= k < s.len() implies s[k] != ':' by {
        assert(s.contains(s[k]));
    }
    lemma_find_is(s, 0, ':', s.len() as int);
}

/// Any request of a collector asks for `/json`.
pub proof fn requests_ask_for_json(target: Seq<char>, auth: Option<Seq<char>>)
    ensures
        path_in(encode_utf8(request_text(target, auth))) == Some("/json"@),
{
    let text = request_text(target, auth);
    let l1 = "GET /json HTTP/1.1"@;
    reveal_strlit("GET /json HTTP/1.1");
    reveal_strlit("GET /json HTTP/1.1\r\nHost: ");
    reveal_strlit("/json");
    let rest = text.skip(18);
    assert(text.take(18) =~= l1);
    assert(text =~= l1 + rest);
    assert(rest[0] == '\r');
    lemma_encode_concat(l1, rest);
    assert(rest =~= seq!['\r'] + rest.skip(1));
    lemma_encode_concat(seq!['\r'], rest.skip(1));
    assert(vstd::utf8::is_ascii_chars(l1));
    vstd::utf8::is_ascii_chars_encode_utf8(l1);
    assert(vstd::utf8::is_ascii_chars(seq!['\r']));
    vstd::utf8::is_ascii_chars_encode_utf8(seq!['\r']);
    let bytes = encode_utf8(text);
    assert(bytes.len() >= 19);
    assert(bytes[18] == 13u8);
    assert forall|k: int| 0 <= k < 18 implies bytes[k] != 13u8 by {
        assert(bytes[k] == l1[k] as u8);
    }
    lemma_find_is(bytes, 0, 13u8, 18);
    assert(bytes.take(18) =~= encode_utf8(l1));
    encode_utf8_valid_utf8(l1);
    encode_utf8_decode_utf8(l1);
    lemma_find_is(l1, 0, ' ', 3);
    lemma_find_is(l1, 4, ' ', 9);
    assert(l1.subrange(4, 9) =~= "/json"@);
}

/// Headers are passed over up to the first that is named `Authorization`, in whatever
/// case its letters are; its value decides.
pub proof fn headers_go_by_name_in_any_case(
    text: Seq<char>,
    i: int,
    name: Seq<char>,
    value: Seq<char>,
    rest: Seq<char>,
)
    requires
        0 <= i <= text.len(),
        text.skip(i) == name + ":"@ + value + "\r\n"@ + rest,
        one_line(name),
        one_line(value),
        !name.contains(':'),
    ensures
        same_but_for_case(name, "Authorization"@) ==> bearer_from(text, i) == token_of(value),
        !same_but_for_case(name, "Authorization"@) ==> bearer_from(text, i) == bearer_from(
            text,
            i + name.len() + 1 + value.len() + 2,
        ),
{
    reveal_strlit(":");
    reveal_strlit("authorization");
    reveal_strlit("Authorization");
    let line = name + ":"@ + value;
    lemma_concat_one_line(name, ":"@);
    lemma_concat_one_line(name + ":"@, value);
    lemma_line(text, i, line, rest);
    assert forall|k: int| 0 <= k < name.len() implies name[k] != ':' by {
        assert(name.contains(name[k]));
    }
    lemma_find_is(line, 0, ':', name.len() as int);
    assert(line.take(name.len() as int) =~= name);
    assert(line.skip(name.len() as int + 1) =~= value);
    let (a, b) = ("authorization"@, "Authorization"@);
    assert(same_but_for_case(b, a)) by {
        assert forall|k: int| 0 <= k < b.len() implies lower(#[trigger] b[k]) == lower(a[k]) by {
            assert(k == 0 || b[k] == a[k]);
        }
    }
    assert(same_but_for_case(name, a) <==> same_but_for_case(name, b)) by {
        assert forall|k: int| 0 <= k < b.len() implies lower(#[trigger] b[k]) == lower(a[k]) by {}
    }
}

/// A blank line ends the headers.
pub proof fn blank_lines_end_the_headers(text: Seq<char>, i: int, rest: Seq<char>)
    requires
        0 <= i <= text.len(),
        text.skip(i) == "\r\n"@ + rest,
    ensures
        bearer_from(text, i) is None,
{
    let none = Seq::<char>::empty();
    assert(none + "\r\n"@ + rest =~= "\r\n"@ + rest);
    lemma_line(text, i, none, rest);
}

/// A letter and its counterpart in the other case are the same but for case, and other
/// characters are the same as themselves alone.
pub proof fn letters_have_two_cases(a: char, b: char)
    requires
        a <= '\x7f',
        b <= '\x7f',
    ensures
        lower(a) == lower(b) <==> a == b || ('A' <= a <= 'Z' && b as int == a as int + 32) || ('A' <= b
            <= 'Z' && a as int == b as int + 32),
{
    crate::text::char_range(a);
    crate::text::char_range(b);
}

/// A response tells its status in its first line, and in a line of its own how many bytes
/// its body has; its body comes last, behind a blank line.
pub proof fn responses_tell_their_length(status: Seq<char>, content_type: Seq<char>, body: Seq<char>)
    ensures
        exists|before: Seq<char>, after: Seq<char>|
            response_text(status, content_type, body) == #[trigger] (("HTTP/1.1 "@ + status + "\r\n"@
                + before + "\r\nContent-Length: "@ + dec(encode_utf8(body).len()) + "\r\n"@) + (after
                + "\r\n\r\n"@ + body)),
{
    let before = "Content-Type: "@ + content_type;
    let after = "Connection: close\r\nAccess-Control-Allow-Origin: *"@;
    reveal_strlit("\r\n");
    reveal_strlit("Content-Type: ");
    reveal_strlit("\r\nContent-Type: ");
    reveal_strlit("Connection: close\r\nAccess-Control-Allow-Origin: *");
    reveal_strlit("\r\nConnection: close\r\nAccess-Control-Allow-Origin: *");
    assert("\r\nContent-Type: "@ =~= "\r\n"@ + "Content-Type: "@);
    assert("\r\nConnection: close\r\nAccess-Control-Allow-Origin: *"@ =~= "\r\n"@ + after);
    assert(response_text(status, content_type, body) == ("HTTP/1.1 "@ + status + "\r\n"@ + before
        + "\r\nContent-Length: "@ + dec(encode_utf8(body).len()) + "\r\n"@) + (after + "\r\n\r\n"@
        + body)) by {
        broadcast use concat_assoc;

    }
}

/// The reads from index `a` up to index `b`, one behind the other.
pub open spec fn joined_reads(chunks: Seq<Vec<u8>>, a: int, b: int) -> Seq<u8>
    decreases b - a,
{
    if b <= a {
        Seq::empty()
    } else {
        joined_reads(chunks, a, b - 1) + chunks[b - 1]@
    }
}

proof fn lemma_joined_first(chunks: Seq<Vec<u8>>, a: int, b: int)
    requires
        a < b,
    ensures
        joined_reads(chunks, a, b) == chunks[a]@ + joined_reads(chunks, a + 1, b),
    decreases b - a,
{
    if a + 1 < b {
        lemma_joined_first(chunks, a, b - 1);
        assert(joined_reads(chunks, a, b) =~= chunks[a]@ + joined_reads(chunks, a + 1, b));
    } else {
        assert(joined_reads(chunks, a, a) =~= Seq::<u8>::empty());
        assert(joined_reads(chunks, a, b) =~= chunks[a]@ + joined_reads(chunks, a + 1, b));
    }
}

/// A head is what the first reads hold together. Reading ends where a blank line is seen
/// or 8192 bytes are there, and not before, unless nothing more comes: `j` reads are
/// taken.
pub proof fn heads_end_at_the_blank_line(buf: Seq<u8>, chunks: Seq<Vec<u8>>, k: int) -> (j: int)
    requires
        0 <= k <= chunks.len(),
        buf.len() < 8192,
    ensures
        k <= j <= chunks.len(),
        head_from(buf, chunks, k) == buf + joined_reads(chunks, k, j),
        forall|i: int|
            k < i < j ==> !has_blank_line(buf + #[trigger] joined_reads(chunks, k, i)) && (buf
                + joined_reads(chunks, k, i)).len() < 8192,
        j == chunks.len() || chunks[j]@.len() == 0 || head_from(buf, chunks, k).len() >= 8192 || (j > k
            && has_blank_line(head_from(buf, chunks, k))),
    decreases chunks.len() - k,
{
    assert(buf + joined_reads(chunks, k, k) =~= buf);
    if k >= chunks.len() || chunks[k]@.len() == 0 {
        k
    } else {
        let next = buf + chunks[k]@;
        lemma_joined_first(chunks, k, k + 1);
        assert(next + Seq::<u8>::empty() =~= next);
        assert(buf + joined_reads(chunks, k, k + 1) =~= next);
        if has_blank_line(next) || next.len() >= 8192 {
            reveal_with_fuel(head_from, 2);
            k + 1
        } else {
            let j = heads_end_at_the_blank_line(next, chunks, k + 1);
            assert forall|i: int| k < i <= j implies buf + #[trigger] joined_reads(chunks, k, i)
                == next + joined_reads(chunks, k + 1, i) by {
                lemma_joined_first(chunks, k, i);
                assert(buf + (chunks[k]@ + joined_reads(chunks, k + 1, i)) =~= next + joined_reads(
                    chunks,
                    k + 1,
                    i,
                ));
            }
            assert forall|i: int| k < i < j implies !has_blank_line(
                buf + #[trigger] joined_reads(chunks, k, i),
            ) && (buf + joined_reads(chunks, k, i)).len() < 8192 by {
                if i > k + 1 {
                    assert(!has_blank_line(next + joined_reads(chunks, k + 1, i)));
                }
            }
            j
        }
    }
}

} // verus!
