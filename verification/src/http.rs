//! HTTP as far as the server speaks it: requests that come in byte by byte,
//! and replies.

use vstd::prelude::*;
use vstd::utf8::{decode_utf8, encode_utf8, is_ascii_chars, valid_utf8};

use crate::numeral::{decimal, law_decimal_reads_back, law_numbers_are_read_from_digits, parse_usize, push_decimal, usize_value};
use crate::text::{
    chars_of, copy, find_from, first, join, law_pieces_join_to_the_text, law_run_without_white_space_is_a_word,
    law_splitting_undoes_joining, law_words_are_parted_by_white_space, lemma_first_from, occurs_at, rows, same, split, split_on,
    split_words, string_of, trim_chars, trimmed, white, words,
};
use crate::unicode::{
    ascii_lowercase, ascii_uppercase, lossy_of, lowercase, lowercase_of, uppercase, uppercase_of, utf8_lossy,
};

verus! {

// Header fields.

/// The header fields of a request. A later field replaces an earlier one of
/// the same name.
pub struct Headers {
    pub entries: Vec<(String, String)>,
}

/// The fields by name, after all of them were taken in one by one.
pub open spec fn fields(entries: Seq<(String, String)>) -> Map<Seq<char>, Seq<char>>
    decreases entries.len(),
{
    if entries.len() == 0 {
        Map::empty()
    } else {
        fields(entries.drop_last()).insert(entries.last().0@, entries.last().1@)
    }
}

impl View for Headers {
    type V = Map<Seq<char>, Seq<char>>;

    open spec fn view(&self) -> Map<Seq<char>, Seq<char>> {
        fields(self.entries@)
    }
}

/// The value of a field, if there is one.
pub open spec fn field(h: Map<Seq<char>, Seq<char>>, name: Seq<char>) -> Option<Seq<char>> {
    if h.contains_key(name) {
        Some(h[name])
    } else {
        None
    }
}

impl Headers {
    /// No fields.
    pub fn new() -> (h: Headers)
        ensures
            h@ == Map::<Seq<char>, Seq<char>>::empty(),
    {
        Headers { entries: Vec::new() }
    }

    /// Takes in a field.
    pub fn insert(&mut self, name: String, value: String)
        ensures
            final(self)@ == old(self)@.insert(name@, value@),
    {
        let ghost before = self.entries@;
        self.entries.push((name, value));
        proof {
            assert(self.entries@.drop_last() =~= before);
        }
    }

    /// The value of a field.
    pub fn get(&self, name: &str) -> (r: Option<&String>)
        ensures
            match r {
                Some(v) => field(self@, name@) == Some(v@),
                None => field(self@, name@) is None,
            },
    {
        let mut n: usize = self.entries.len();
        proof {
            assert(self.entries@.take(n as int) =~= self.entries@);
        }
        while n > 0
            invariant
                n <= self.entries@.len(),
                field(self@, name@) == field(fields(self.entries@.take(n as int)), name@),
            decreases n,
        {
            proof {
                let t = self.entries@.take(n as int);
                assert(t.drop_last() =~= self.entries@.take(n - 1));
                assert(t.last() == self.entries@[n - 1]);
            }
            if same(&self.entries[n - 1].0, name) {
                return Some(&self.entries[n - 1].1);
            }
            n = n - 1;
        }
        None
    }
}

// Request heads.

/// The request line and the header fields.
pub struct Head {
    pub method: String,
    pub target: String,
    pub headers: Headers,
}

/// The word at an index, or else another text.
pub open spec fn word_or(w: Seq<Seq<char>>, i: int, other: Seq<char>) -> Seq<char> {
    if 0 <= i < w.len() {
        w[i]
    } else {
        other
    }
}

/// The lines of a head.
pub open spec fn head_lines(head: Seq<char>) -> Seq<Seq<char>> {
    split_on(head, "\r\n"@)
}

/// The first word of a head.
pub open spec fn method_word(head: Seq<char>) -> Seq<char> {
    word_or(words(head_lines(head)[0]), 0, ""@)
}

/// The method of a request: the first word, in upper case.
pub open spec fn method_of(head: Seq<char>) -> Seq<char> {
    uppercase_of(method_word(head))
}

/// The target of a request: the second word, or the root.
pub open spec fn target_of(head: Seq<char>) -> Seq<char> {
    word_or(words(head_lines(head)[0]), 1, "/"@)
}

/// The fields with one more header line, if it has a colon: the name before it
/// in lower case, the value after it, both without white space around them.
pub open spec fn with_line(h: Map<Seq<char>, Seq<char>>, line: Seq<char>) -> Map<Seq<char>, Seq<char>> {
    match first(line, ":"@) {
        Some(i) => h.insert(lowercase_of(trimmed(line.take(i))), trimmed(line.skip(i + 1))),
        None => h,
    }
}

/// The fields with the header lines up to the first empty one.
pub open spec fn with_lines(
    h: Map<Seq<char>, Seq<char>>,
    lines: Seq<Seq<char>>,
) -> Map<Seq<char>, Seq<char>>
    decreases lines.len(),
{
    if lines.len() == 0 || lines[0].len() == 0 {
        h
    } else {
        with_lines(with_line(h, lines[0]), lines.skip(1))
    }
}

/// The header fields of a request.
pub open spec fn headers_of(head: Seq<char>) -> Map<Seq<char>, Seq<char>> {
    with_lines(Map::empty(), head_lines(head).skip(1))
}

/// The name of the field in a header line is ASCII, if the line has a field.
pub open spec fn ascii_name(line: Seq<char>) -> bool {
    first(line, ":"@) matches Some(i) ==> is_ascii_chars(trimmed(line.take(i)))
}

/// The names of the fields in the header lines up to the first empty one are
/// ASCII.
pub open spec fn ascii_names(lines: Seq<Seq<char>>) -> bool
    decreases lines.len(),
{
    lines.len() == 0 || lines[0].len() == 0 || (ascii_name(lines[0]) && ascii_names(lines.skip(1)))
}

/// The fields with one more header line, whose field has an ASCII name.
pub open spec fn with_ascii_line(
    h: Map<Seq<char>, Seq<char>>,
    line: Seq<char>,
) -> Map<Seq<char>, Seq<char>> {
    match first(line, ":"@) {
        Some(i) => h.insert(ascii_lowercase(trimmed(line.take(i))), trimmed(line.skip(i + 1))),
        None => h,
    }
}

/// The fields with the header lines up to the first empty one, whose fields have
/// ASCII names.
pub open spec fn with_ascii_lines(
    h: Map<Seq<char>, Seq<char>>,
    lines: Seq<Seq<char>>,
) -> Map<Seq<char>, Seq<char>>
    decreases lines.len(),
{
    if lines.len() == 0 || lines[0].len() == 0 {
        h
    } else {
        with_ascii_lines(with_ascii_line(h, lines[0]), lines.skip(1))
    }
}

/// What is read from the text of a head. ASCII letters lose their case in the
/// method and in the names of the fields.
pub open spec fn head_read(
    text: Seq<char>,
    method: Seq<char>,
    target: Seq<char>,
    headers: Map<Seq<char>, Seq<char>>,
) -> bool {
    let lines = head_lines(text).skip(1);
    &&& method == method_of(text)
    &&& target == target_of(text)
    &&& headers == headers_of(text)
    &&& is_ascii_chars(method_word(text)) ==> method == ascii_uppercase(method_word(text))
    &&& ascii_names(lines) ==> headers == with_ascii_lines(Map::empty(), lines)
}

fn take_line(h: &mut Headers, line: &[char])
    ensures
        final(h)@ == with_line(old(h)@, line@),
        ascii_name(line@) ==> final(h)@ == with_ascii_line(old(h)@, line@),
{
    let colon = chars_of(":");
    proof {
        reveal_strlit(":");
    }
    let n: usize = line.len();
    match find_from(line, &colon, 0) {
        Some(i) => {
            let name = copy(line, 0, i);
            let value = copy(line, i + 1, n);
            proof {
                assert(name@ =~= line@.take(i as int));
                assert(value@ =~= line@.skip(i + 1));
            }
            let name = string_of(&trim_chars(&name));
            h.insert(lowercase(&name), string_of(&trim_chars(&value)));
        },
        None => {},
    }
}

fn word_at(w: &Vec<Vec<char>>, i: usize, other: &str) -> (s: String)
    ensures
        s@ == word_or(rows(w@), i as int, other@),
{
    if i < w.len() {
        string_of(&w[i])
    } else {
        other.to_string()
    }
}

/// Reads the head of a request.
pub fn parse_head(head: &str) -> (r: Head)
    ensures
        head_read(head@, r.method@, r.target@, r.headers@),
{
    let v = chars_of(head);
    let end = chars_of("\r\n");
    proof {
        reveal_strlit("\r\n");
    }
    let lines = split(&v, &end);
    let ghost all = rows(lines@);
    let w = split_words(&lines[0]);
    let method = uppercase(&word_at(&w, 0, ""));
    let target = word_at(&w, 1, "/");
    let mut headers = Headers::new();
    let mut i: usize = 1;
    while i < lines.len()
        invariant_except_break
            all == rows(lines@),
            all == head_lines(head@),
            1 <= i <= lines@.len(),
            with_lines(headers@, all.skip(i as int)) == headers_of(head@),
            ascii_names(all.skip(1)) ==> ascii_names(all.skip(i as int)) && with_ascii_lines(
                headers@,
                all.skip(i as int),
            ) == with_ascii_lines(Map::empty(), all.skip(1)),
        ensures
            headers@ == headers_of(head@),
            ascii_names(all.skip(1)) ==> headers@ == with_ascii_lines(Map::empty(), all.skip(1)),
        decreases lines@.len() - i,
    {
        proof {
            assert(all.skip(i as int)[0] == lines@[i as int]@);
            assert(all.skip(i as int).skip(1) =~= all.skip(i + 1));
        }
        if lines[i].len() == 0 {
            break;
        }
        take_line(&mut headers, &lines[i]);
        i = i + 1;
    }
    Head { method, target, headers }
}

/// The most bytes that a body may have.
pub const BODY_LIMIT: usize = 65536;

/// The most bytes that a head may have before one more is read.
pub const HEAD_LIMIT: usize = 65536;

/// How many bytes of body a request announces, as far as they are read: none
/// where it does not say, or says it in a way that cannot be read.
pub open spec fn body_size(h: Map<Seq<char>, Seq<char>>) -> usize {
    match field(h, "content-length"@) {
        Some(v) => match usize_value(v) {
            Some(n) => if n <= BODY_LIMIT {
                n
            } else {
                BODY_LIMIT
            },
            None => 0,
        },
        None => 0,
    }
}

/// How many bytes of body to read.
pub fn announced(h: &Headers) -> (n: usize)
    ensures
        n == body_size(h@),
{
    match h.get("content-length") {
        Some(v) => match parse_usize(v) {
            Some(n) => if n <= BODY_LIMIT {
                n
            } else {
                BODY_LIMIT
            },
            None => 0,
        },
        None => 0,
    }
}

// Reading a request.

/// A request.
pub struct Request {
    pub method: String,
    pub target: String,
    pub headers: Headers,
    pub body: Vec<u8>,
}

impl Request {
    /// The request is the one with these bytes as its head and as its body.
    pub open spec fn read_from(&self, head: Seq<u8>, body: Seq<u8>) -> bool {
        &&& head_read(lossy_of(head), self.method@, self.target@, self.headers@)
        &&& valid_utf8(head) ==> lossy_of(head) == decode_utf8(head)
        &&& self.body@ == body
    }
}

enum State {
    Reading(Vec<u8>),
    Body { head: Head, bytes: Ghost<Seq<u8>>, want: usize, got: Vec<u8> },
    Complete { request: Request, bytes: Ghost<Seq<u8>> },
    Dropped,
}

/// The reading of a request.
pub struct HttpReader {
    state: State,
}

/// How far the reading of a request is.
pub enum ReaderView {
    /// These bytes of the head have come.
    Reading(Seq<u8>),
    /// The head is complete, and the body has still to come; these bytes of it
    /// have.
    Body { head: Seq<u8>, got: Seq<u8> },
    /// The request is complete.
    Complete { head: Seq<u8>, body: Seq<u8> },
    /// The connection is given up.
    Dropped,
}

/// What to do next to read a request.
#[derive(Debug, PartialEq, Eq)]
pub enum Wanted {
    /// Read one byte.
    OneByte,
    /// Read some bytes, at most so many.
    UpTo(usize),
    /// Nothing: the request is complete, or the connection is given up.
    Nothing,
}

/// What an attempt to read came to.
#[derive(Debug)]
pub enum Arrival {
    /// These bytes came.
    Bytes(Vec<u8>),
    /// The other side has closed its end.
    Closed,
    /// Nothing came yet. `overdue` says whether the time for the request is
    /// over.
    NotYet { overdue: bool },
    /// The connection failed.
    Broken,
}

/// What an attempt to read came to, as a mathematical value.
pub enum ArrivalView {
    Bytes(Seq<u8>),
    Closed,
    NotYet { overdue: bool },
    Broken,
}

impl View for Arrival {
    type V = ArrivalView;

    open spec fn view(&self) -> ArrivalView {
        match self {
            Arrival::Bytes(b) => ArrivalView::Bytes(b@),
            Arrival::Closed => ArrivalView::Closed,
            Arrival::NotYet { overdue } => ArrivalView::NotYet { overdue: *overdue },
            Arrival::Broken => ArrivalView::Broken,
        }
    }
}

/// The bytes end with the empty line that ends a head.
pub open spec fn ends_head(b: Seq<u8>) -> bool {
    b.len() >= 4 && b.subrange(b.len() - 4, b.len() as int) == seq![13u8, 10u8, 13u8, 10u8]
}

/// No beginning of the bytes is a complete head, nor are they all.
pub open spec fn head_unfinished(b: Seq<u8>) -> bool {
    forall|n: int| 0 <= n <= b.len() ==> !ends_head(#[trigger] b.take(n))
}

fn at_head_end(b: &Vec<u8>) -> (r: bool)
    ensures
        r == ends_head(b@),
{
    let n: usize = b.len();
    if n < 4 {
        return false;
    }
    proof {
        let t = b@.subrange(n - 4, n as int);
        assert(t[0] == b@[n - 4] && t[1] == b@[n - 3] && t[2] == b@[n - 2] && t[3] == b@[n - 1]);
        if b@[n - 4] == 13 && b@[n - 3] == 10 && b@[n - 2] == 13 && b@[n - 1] == 10 {
            assert(t =~= seq![13u8, 10u8, 13u8, 10u8]);
        }
    }
    b[n - 4] == 13 && b[n - 3] == 10 && b[n - 2] == 13 && b[n - 1] == 10
}

/// The bytes are those of a head: they end with an empty line, for the first
/// time, and are not too many.
pub open spec fn is_head(b: Seq<u8>) -> bool {
    ends_head(b) && head_unfinished(b.drop_last()) && b.len() <= HEAD_LIMIT + 1
}

/// How many bytes of body the bytes of a head announce, as far as they are read.
pub open spec fn announced_by(head: Seq<u8>) -> usize {
    body_size(headers_of(lossy_of(head)))
}

impl ReaderView {
    /// The state is one that can come about.
    pub open spec fn wf(self) -> bool {
        match self {
            ReaderView::Reading(b) => head_unfinished(b) && b.len() <= HEAD_LIMIT + 1,
            ReaderView::Body { head, got } => is_head(head) && got.len() < announced_by(head),
            ReaderView::Complete { head, body } => is_head(head) && body.len() <= announced_by(head),
            ReaderView::Dropped => true,
        }
    }

    /// What to read next. While the head is read, a request whose time is
    /// over, or whose head has grown too long, is given up.
    pub open spec fn wanted(self, overdue: bool) -> Wanted {
        match self {
            ReaderView::Reading(b) => if overdue || b.len() > HEAD_LIMIT {
                Wanted::Nothing
            } else {
                Wanted::OneByte
            },
            ReaderView::Body { head, got } => Wanted::UpTo((announced_by(head) - got.len()) as usize),
            _ => Wanted::Nothing,
        }
    }

    /// What came is no more than what was wanted.
    pub open spec fn fits(self, a: ArrivalView) -> bool {
        match self {
            ReaderView::Reading(b) => b.len() <= HEAD_LIMIT && (a matches ArrivalView::Bytes(x)
                ==> x.len() == 1),
            ReaderView::Body { head, got } => a matches ArrivalView::Bytes(x) ==> x.len()
                <= announced_by(head) - got.len(),
            _ => !(a is Bytes),
        }
    }

    /// The state after what came. The head ends with the first empty line. The
    /// body ends when as much has come as was announced, or when no more will
    /// come in time.
    pub open spec fn after(self, a: ArrivalView) -> ReaderView {
        match self {
            ReaderView::Reading(b) => match a {
                ArrivalView::Bytes(x) => if !ends_head(b + x) {
                    ReaderView::Reading(b + x)
                } else if announced_by(b + x) == 0 {
                    ReaderView::Complete { head: b + x, body: Seq::empty() }
                } else {
                    ReaderView::Body { head: b + x, got: Seq::empty() }
                },
                ArrivalView::Broken => ReaderView::Dropped,
                _ => self,
            },
            ReaderView::Body { head, got } => match a {
                ArrivalView::Bytes(x) => if got.len() + x.len() == announced_by(head) {
                    ReaderView::Complete { head, body: got + x }
                } else {
                    ReaderView::Body { head, got: got + x }
                },
                ArrivalView::NotYet { overdue } => if overdue {
                    ReaderView::Complete { head, body: got }
                } else {
                    self
                },
                _ => ReaderView::Complete { head, body: got },
            },
            _ => self,
        }
    }
}

impl View for HttpReader {
    type V = ReaderView;

    closed spec fn view(&self) -> ReaderView {
        match self.state {
            State::Reading(buf) => ReaderView::Reading(buf@),
            State::Body { head, bytes, want, got } => ReaderView::Body { head: bytes@, got: got@ },
            State::Complete { request, bytes } => ReaderView::Complete {
                head: bytes@,
                body: request.body@,
            },
            State::Dropped => ReaderView::Dropped,
        }
    }
}

impl HttpReader {
    /// The state is one that can come about, and what was read of the head is
    /// what the head says.
    pub closed spec fn wf(&self) -> bool {
        &&& self@.wf()
        &&& match self.state {
            State::Body { head, bytes, want, got } => {
                &&& head_read(lossy_of(bytes@), head.method@, head.target@, head.headers@)
                &&& valid_utf8(bytes@) ==> lossy_of(bytes@) == decode_utf8(bytes@)
                &&& want == announced_by(bytes@)
            },
            State::Complete { request, bytes } => request.read_from(bytes@, request.body@),
            _ => true,
        }
    }

    /// A connection on which nothing has come.
    pub fn new() -> (r: HttpReader)
        ensures
            r.wf(),
            r@ == ReaderView::Reading(Seq::empty()),
    {
        HttpReader { state: State::Reading(Vec::new()) }
    }

    /// What to read next. While the head is read, a request whose time is
    /// over, or whose head has grown too long, is given up.
    pub fn wants(&self, overdue: bool) -> (w: Wanted)
        requires
            self.wf(),
        ensures
            w == self@.wanted(overdue),
    {
        match &self.state {
            State::Reading(buf) => if overdue || buf.len() > HEAD_LIMIT {
                Wanted::Nothing
            } else {
                Wanted::OneByte
            },
            State::Body { head: _, bytes: _, want, got } => Wanted::UpTo(*want - got.len()),
            State::Complete { .. } => Wanted::Nothing,
            State::Dropped => Wanted::Nothing,
        }
    }

    /// The request, if it is complete.
    pub fn into_request(self) -> (r: Option<Request>)
        requires
            self.wf(),
        ensures
            match self@ {
                ReaderView::Complete { head, body } => r matches Some(q) && q.read_from(head, body),
                _ => r is None,
            },
    {
        match self.state {
            State::Complete { request, bytes: _ } => Some(request),
            _ => None,
        }
    }

    /// Takes what came. The head ends with the first empty line. The body ends
    /// when as much has come as was announced, or when no more will come in
    /// time.
    pub fn read_http(self, arrival: Arrival) -> (r: HttpReader)
        requires
            self.wf(),
            self@.fits(arrival@),
        ensures
            r.wf(),
            r@.wf(),
            r@ == self@.after(arrival@),
    {
        match self.state {
            State::Reading(buf) => {
                let mut buf = buf;
                match arrival {
                    Arrival::Bytes(b) => {
                        let ghost before = buf@;
                        buf.push(b[0]);
                        proof {
                            assert(buf@ =~= before + b@);
                            assert(buf@.drop_last() =~= before);
                        }
                        if at_head_end(&buf) {
                            let text = utf8_lossy(&buf);
                            let head = parse_head(&text);
                            let want = announced(&head.headers);
                            if want == 0 {
                                return HttpReader {
                                    state: State::Complete {
                                        request: Request {
                                            method: head.method,
                                            target: head.target,
                                            headers: head.headers,
                                            body: Vec::new(),
                                        },
                                        bytes: Ghost(buf@),
                                    },
                                };
                            }
                            return HttpReader {
                                state: State::Body { head, bytes: Ghost(buf@), want, got: Vec::new() },
                            };
                        }
                        proof {
                            assert forall|n: int| 0 <= n <= buf@.len() implies !ends_head(
                                #[trigger] buf@.take(n),
                            ) by {
                                if n < buf@.len() {
                                    assert(buf@.take(n) =~= before.take(n));
                                } else {
                                    assert(buf@.take(n) =~= buf@);
                                }
                            }
                        }
                        HttpReader { state: State::Reading(buf) }
                    },
                    Arrival::Broken => HttpReader { state: State::Dropped },
                    _ => HttpReader { state: State::Reading(buf) },
                }
            },
            State::Body { head, bytes, want, got } => {
                let mut got = got;
                let last: bool = match arrival {
                    Arrival::Bytes(b) => {
                        let mut b = b;
                        got.append(&mut b);
                        got.len() == want
                    },
                    Arrival::NotYet { overdue } => overdue,
                    Arrival::Closed => true,
                    Arrival::Broken => true,
                };
                if last {
                    HttpReader {
                        state: State::Complete {
                            request: Request {
                                method: head.method,
                                target: head.target,
                                headers: head.headers,
                                body: got,
                            },
                            bytes,
                        },
                    }
                } else {
                    HttpReader { state: State::Body { head, bytes, want, got } }
                }
            },
            other => HttpReader { state: other },
        }
    }
}

// The stream as a whole.

/// The least length from `n` on at which the bytes so far end a head.
pub open spec fn head_end_from(stream: Seq<u8>, n: int) -> Option<int>
    decreases stream.len() - n + 1,
{
    if n > stream.len() {
        None
    } else if ends_head(stream.take(n)) {
        Some(n)
    } else {
        head_end_from(stream, n + 1)
    }
}

/// Where the head of a stream ends: after its first empty line.
pub open spec fn head_end(stream: Seq<u8>) -> Option<int> {
    head_end_from(stream, 0)
}

proof fn lemma_head_end_from(stream: Seq<u8>, n: int)
    requires
        0 <= n,
    ensures
        match head_end_from(stream, n) {
            Some(e) => n <= e <= stream.len() && ends_head(stream.take(e)) && forall|k: int|
                n <= k < e ==> !ends_head(#[trigger] stream.take(k)),
            None => forall|k: int| n <= k <= stream.len() ==> !ends_head(#[trigger] stream.take(k)),
        },
    decreases stream.len() - n + 1,
{
    if n <= stream.len() && !ends_head(stream.take(n)) {
        lemma_head_end_from(stream, n + 1);
    }
}

/// More bytes do not move the end of a head that is there.
proof fn lemma_head_end_stays(s: Seq<u8>, x: Seq<u8>)
    requires
        head_end(s) is Some,
    ensures
        head_end(s + x) == head_end(s),
{
    let m = s + x;
    let e = head_end(s)->0;
    lemma_head_end_from(s, 0);
    lemma_head_end_from(m, 0);
    assert(m.take(e) =~= s.take(e));
    assert forall|k: int| 0 <= k < e implies !ends_head(#[trigger] m.take(k)) by {
        assert(m.take(k) =~= s.take(k));
    }
}

/// One more byte ends a head exactly if the bytes with it end with an empty
/// line.
proof fn lemma_head_end_grows(s: Seq<u8>, x: Seq<u8>)
    requires
        head_end(s) is None,
        x.len() == 1,
    ensures
        head_end(s + x) == (if ends_head(s + x) {
            Some((s.len() + 1) as int)
        } else {
            None
        }),
{
    let m = s + x;
    lemma_head_end_from(s, 0);
    lemma_head_end_from(m, 0);
    assert(m.take(m.len() as int) =~= m);
    assert forall|k: int| 0 <= k < m.len() implies !ends_head(#[trigger] m.take(k)) by {
        assert(m.take(k) =~= s.take(k));
    }
}

/// How far the reading is when these bytes have come: the head goes to the end
/// of the first empty line, and the body has the bytes after it, up to as many
/// as the head announces.
pub open spec fn reading_of(stream: Seq<u8>) -> ReaderView {
    match head_end(stream) {
        None => ReaderView::Reading(stream),
        Some(n) => {
            let head = stream.take(n);
            let rest = stream.skip(n);
            if rest.len() < announced_by(head) {
                ReaderView::Body { head, got: rest }
            } else {
                ReaderView::Complete { head, body: rest.take(announced_by(head) as int) }
            }
        },
    }
}

/// The state after all that came, from the first byte on.
pub open spec fn reading_after(arrivals: Seq<ArrivalView>) -> ReaderView
    decreases arrivals.len(),
{
    if arrivals.len() == 0 {
        ReaderView::Reading(Seq::empty())
    } else {
        reading_after(arrivals.drop_last()).after(arrivals.last())
    }
}

/// The bytes of all that came, in order.
pub open spec fn stream_of(arrivals: Seq<ArrivalView>) -> Seq<u8>
    decreases arrivals.len(),
{
    if arrivals.len() == 0 {
        Seq::empty()
    } else {
        stream_of(arrivals.drop_last()) + (match arrivals.last() {
            ArrivalView::Bytes(x) => x,
            _ => Seq::empty(),
        })
    }
}

/// Bytes came, or nothing came yet, in time; and what came was never more than
/// what was wanted.
pub open spec fn orderly(arrivals: Seq<ArrivalView>) -> bool
    decreases arrivals.len(),
{
    arrivals.len() == 0 || {
        &&& orderly(arrivals.drop_last())
        &&& reading_after(arrivals.drop_last()).fits(arrivals.last())
        &&& arrivals.last() is Bytes || arrivals.last() == (ArrivalView::NotYet { overdue: false })
    }
}

/// However the bytes of a connection are cut into pieces and delayed, what is
/// read of them is the same: the head up to the first empty line, and the bytes
/// after it that the head announces.
pub proof fn law_request_is_that_of_the_stream(arrivals: Seq<ArrivalView>)
    requires
        orderly(arrivals),
    ensures
        reading_after(arrivals) == reading_of(stream_of(arrivals)),
    decreases arrivals.len(),
{
    if arrivals.len() == 0 {
        let none = Seq::<u8>::empty();
        lemma_head_end_from(none, 0);
        assert(head_end(none) is None);
    } else {
        let rest = arrivals.drop_last();
        let s = stream_of(rest);
        law_request_is_that_of_the_stream(rest);
        match arrivals.last() {
            ArrivalView::Bytes(x) => {
                let m = s + x;
                lemma_head_end_from(s, 0);
                match head_end(s) {
                    None => {
                        lemma_head_end_grows(s, x);
                        if ends_head(m) {
                            assert(m.take(m.len() as int) =~= m);
                            assert(m.skip(m.len() as int) =~= Seq::empty());
                            assert(m.skip(m.len() as int).take(0) =~= Seq::empty());
                        }
                    },
                    Some(n) => {
                        lemma_head_end_stays(s, x);
                        assert(m.take(n) =~= s.take(n));
                        assert(m.skip(n) =~= s.skip(n) + x);
                        let all = s.skip(n) + x;
                        assert(all.take(all.len() as int) =~= all);
                    },
                }
            },
            _ => {
                assert(s + Seq::<u8>::empty() =~= s);
            },
        }
    }
}

/// A connection that ends, fails or runs out of time while the body comes gives
/// a request with the part of the body that has come. One that fails while the
/// head comes gives none.
pub proof fn law_broken_off_stream(arrivals: Seq<ArrivalView>, last: ArrivalView)
    requires
        orderly(arrivals),
        last is Closed || last is Broken || last == (ArrivalView::NotYet { overdue: true }),
    ensures
        ({
            let stream = stream_of(arrivals);
            match head_end(stream) {
                Some(n) => stream.len() - n < announced_by(stream.take(n)) ==> reading_after(arrivals).after(
                    last,
                ) == (ReaderView::Complete { head: stream.take(n), body: stream.skip(n) }),
                None => reading_after(arrivals).after(last) == (if last is Broken {
                    ReaderView::Dropped
                } else {
                    ReaderView::Reading(stream)
                }),
            }
        }),
{
    law_request_is_that_of_the_stream(arrivals);
    lemma_head_end_from(stream_of(arrivals), 0);
}

// Replies.

/// A reply.
#[derive(Debug, PartialEq, Eq)]
pub struct Response {
    pub code: u16,
    pub text: String,
    pub ctype: String,
    pub body: String,
}

/// The head of a reply.
pub open spec fn response_head(r: Response) -> Seq<char> {
    "HTTP/1.1 "@ + decimal(r.code as nat) + " "@ + r.text@ + "\r\nContent-Type: "@ + r.ctype@
        + "\r\nContent-Length: "@ + decimal(encode_utf8(r.body@).len())
        + "\r\nConnection: close\r\n\r\n"@
}

/// Writes a reply: its head, which gives the size of the body in bytes, and
/// then the body.
pub fn http_resp(r: &Response) -> (s: String)
    ensures
        s@ == response_head(*r) + r.body@,
{
    let mut s: String = "HTTP/1.1 ".to_string();
    push_decimal(&mut s, r.code as u64);
    s.append(" ");
    s.append(&r.text);
    s.append("\r\nContent-Type: ");
    s.append(&r.ctype);
    s.append("\r\nContent-Length: ");
    push_decimal(&mut s, r.body.as_str().as_bytes().len() as u64);
    s.append("\r\nConnection: close\r\n\r\n");
    s.append(&r.body);
    s
}

// Targets and tokens.

/// The path of a target: what stands before the question mark.
pub open spec fn path_of(target: Seq<char>) -> Seq<char> {
    match first(target, "?"@) {
        Some(i) => target.take(i),
        None => target,
    }
}

/// The query of a target: what stands after the question mark.
pub open spec fn query_of(target: Seq<char>) -> Option<Seq<char>> {
    match first(target, "?"@) {
        Some(i) => Some(target.skip(i + 1)),
        None => None,
    }
}

/// The query has the token among its parameters.
pub open spec fn token_in_query(query: Seq<char>, token: Seq<char>) -> bool {
    split_on(query, "&"@).contains("token="@ + token)
}

/// The request carries the token, in its header field or in its query.
pub open spec fn is_authed(target: Seq<char>, h: Map<Seq<char>, Seq<char>>, token: Seq<char>) -> bool {
    ||| field(h, "x-token"@) == Some(token)
    ||| query_of(target) matches Some(q) && token_in_query(q, token)
}

/// Splits a target into its path and its query.
pub fn split_target(target: &str) -> (r: (String, Option<String>))
    ensures
        r.0@ == path_of(target@),
        match r.1 {
            Some(q) => query_of(target@) == Some(q@),
            None => query_of(target@) is None,
        },
{
    let v = chars_of(target);
    let mark = chars_of("?");
    let n: usize = v.len();
    proof {
        reveal_strlit("?");
    }
    match find_from(&v, &mark, 0) {
        Some(i) => {
            let path = copy(&v, 0, i);
            let query = copy(&v, i + 1, n);
            proof {
                assert(path@ =~= target@.take(i as int));
                assert(query@ =~= target@.skip(i + 1));
            }
            (string_of(&path), Some(string_of(&query)))
        },
        None => (target.to_string(), None),
    }
}

fn query_has_token(query: &str, token: &str) -> (r: bool)
    ensures
        r == token_in_query(query@, token@),
{
    let v = chars_of(query);
    let amp = chars_of("&");
    proof {
        reveal_strlit("&");
    }
    let parts = split(&v, &amp);
    let mut wanted: String = "token=".to_string();
    wanted.append(token);
    let ghost all = rows(parts@);
    let mut i: usize = 0;
    while i < parts.len()
        invariant
            i <= parts@.len(),
            all == rows(parts@),
            all == split_on(query@, "&"@),
            wanted@ == "token="@ + token@,
            forall|k: int| 0 <= k < i ==> #[trigger] all[k] != wanted@,
        decreases parts@.len() - i,
    {
        proof {
            assert(all[i as int] == parts@[i as int]@);
        }
        if same(&string_of(&parts[i]), &wanted) {
            return true;
        }
        i = i + 1;
    }
    false
}

/// Whether a request carries the token: in the field `X-Token`, or as the
/// parameter `token` of its query.
pub fn authed(target: &str, headers: &Headers, token: &str) -> (r: bool)
    ensures
        r == is_authed(target@, headers@, token@),
{
    match headers.get("x-token") {
        Some(v) => {
            if same(v, token) {
                return true;
            }
        },
        None => {},
    }
    match split_target(target).1 {
        Some(q) => query_has_token(&q, token),
        None => false,
    }
}

/// The token that stands in the query of a target, after a path without a
/// question mark, is found there, if it holds no ampersand.
pub proof fn law_token_in_the_query_is_found(
    path: Seq<char>,
    token: Seq<char>,
    h: Map<Seq<char>, Seq<char>>,
)
    requires
        !path.contains('?'),
        !token.contains('&'),
    ensures
        is_authed(path + "?token="@ + token, h, token),
        path_of(path + "?token="@ + token) == path,
{
    reveal_strlit("?token=");
    reveal_strlit("token=");
    reveal_strlit("?");
    reveal_strlit("&");
    let t = path + "?token="@ + token;
    let n = path.len() as int;
    lemma_first_from(t, "?"@, 0);
    assert(t.subrange(n, n + 1) =~= "?"@);
    assert(occurs_at(t, "?"@, n));
    assert forall|j: int| 0 <= j < n implies !occurs_at(t, "?"@, j) by {
        if occurs_at(t, "?"@, j) {
            assert(t.subrange(j, j + 1)[0] == '?');
            assert(path[j] == '?');
            assert(path.contains('?'));
        }
    }
    assert(first(t, "?"@) == Some(n));
    assert(t.take(n) =~= path);
    let q = t.skip(n + 1);
    assert(q =~= "token="@ + token);
    lemma_first_from(q, "&"@, 0);
    assert forall|j: int| 0 <= j implies !occurs_at(q, "&"@, j) by {
        if occurs_at(q, "&"@, j) {
            assert(q.subrange(j, j + 1)[0] == '&');
            assert(q[j] == '&');
            if j >= 6 {
                assert(token[j - 6] == '&');
                assert(token.contains('&'));
            }
        }
    }
    assert(split_on(q, "&"@) =~= seq![q]);
    assert(split_on(q, "&"@)[0] == q);
}

// What is read of a head.

/// The lines of a head, with CR LF between each two, give the whole head back.
pub proof fn law_lines_join_to_the_head(head: Seq<char>)
    ensures
        join(head_lines(head), "\r\n"@) == head,
{
    reveal_strlit("\r\n");
    law_pieces_join_to_the_text(head, "\r\n"@);
}

/// The text of a head: a request line, any number of header lines, and an empty
/// line, each with CR LF behind it.
pub open spec fn head_text(request_line: Seq<char>, lines: Seq<Seq<char>>) -> Seq<char> {
    join(seq![request_line] + lines + seq![Seq::empty(), Seq::empty()], "\r\n"@)
}

/// A line of a head, which has no carriage return in it.
pub open spec fn one_line(s: Seq<char>) -> bool {
    !s.contains('\r')
}

/// The first colon of the line stands at this place.
pub open spec fn colon_at(line: Seq<char>, k: int) -> bool {
    &&& 0 <= k < line.len()
    &&& line[k] == ':'
    &&& forall|q: int| 0 <= q < k ==> #[trigger] line[q] != ':'
}

proof fn lemma_colon(line: Seq<char>, k: int)
    requires
        colon_at(line, k),
    ensures
        first(line, ":"@) == Some(k),
{
    reveal_strlit(":");
    lemma_first_from(line, ":"@, 0);
    assert(line.subrange(k, k + 1) =~= ":"@);
    assert(occurs_at(line, ":"@, k));
    let i = first(line, ":"@)->0;
    assert(first(line, ":"@) is Some && 0 <= i <= k);
    if i < k {
        assert(line.subrange(i, i + 1)[0] == ':');
        assert(line[i] == ':');
    }
}

proof fn lemma_first_colon(line: Seq<char>)
    ensures
        first(line, ":"@) matches Some(k) ==> colon_at(line, k),
{
    reveal_strlit(":");
    lemma_first_from(line, ":"@, 0);
    if let Some(k) = first(line, ":"@) {
        assert(line.subrange(k, k + 1)[0] == ':');
        assert forall|q: int| 0 <= q < k implies #[trigger] line[q] != ':' by {
            if line[q] == ':' {
                assert(line.subrange(q, q + 1) =~= ":"@);
                assert(occurs_at(line, ":"@, q));
            }
        }
    }
}

proof fn lemma_head_lines(request_line: Seq<char>, lines: Seq<Seq<char>>)
    requires
        one_line(request_line),
        forall|i: int| 0 <= i < lines.len() ==> one_line(#[trigger] lines[i]),
    ensures
        head_lines(head_text(request_line, lines)) == seq![request_line] + lines + seq![
            Seq::empty(),
            Seq::empty(),
        ],
{
    reveal_strlit("\r\n");
    let all = seq![request_line] + lines + seq![Seq::<char>::empty(), Seq::empty()];
    assert forall|i: int| 0 <= i < all.len() implies !(#[trigger] all[i]).contains("\r\n"@[0]) by {
        if 1 <= i <= lines.len() {
            assert(all[i] == lines[i - 1]);
            assert(one_line(lines[i - 1]));
        }
    }
    law_splitting_undoes_joining(all, "\r\n"@);
}

proof fn lemma_field_kept(h: Map<Seq<char>, Seq<char>>, lines: Seq<Seq<char>>, key: Seq<char>)
    requires
        h.contains_key(key),
        forall|j: int, m: int|
            0 <= j < lines.len() && #[trigger] colon_at(lines[j], m) ==> lowercase_of(
                trimmed(lines[j].take(m)),
            ) != key,
    ensures
        with_lines(h, lines).contains_key(key),
        with_lines(h, lines)[key] == h[key],
    decreases lines.len(),
{
    if lines.len() > 0 && lines[0].len() > 0 {
        let more = lines.skip(1);
        lemma_first_colon(lines[0]);
        assert forall|j: int, m: int|
            0 <= j < more.len() && #[trigger] colon_at(more[j], m) implies lowercase_of(
            trimmed(more[j].take(m)),
        ) != key by {
            assert(more[j] == lines[j + 1]);
            assert(colon_at(lines[j + 1], m));
        }
        lemma_field_kept(with_line(h, lines[0]), more, key);
    }
}

proof fn lemma_field_read(h: Map<Seq<char>, Seq<char>>, lines: Seq<Seq<char>>, i: int, k: int)
    requires
        0 <= i < lines.len(),
        colon_at(lines[i], k),
        forall|j: int| 0 <= j < i ==> (#[trigger] lines[j]).len() > 0,
        forall|j: int, m: int|
            i < j < lines.len() && #[trigger] colon_at(lines[j], m) ==> lowercase_of(
                trimmed(lines[j].take(m)),
            ) != lowercase_of(trimmed(lines[i].take(k))),
    ensures
        ({
            let key = lowercase_of(trimmed(lines[i].take(k)));
            with_lines(h, lines).contains_key(key) && with_lines(h, lines)[key] == trimmed(lines[i].skip(k + 1))
        }),
    decreases lines.len(),
{
    let more = lines.skip(1);
    let key = lowercase_of(trimmed(lines[i].take(k)));
    if i == 0 {
        lemma_colon(lines[0], k);
        assert forall|j: int, m: int|
            0 <= j < more.len() && #[trigger] colon_at(more[j], m) implies lowercase_of(
            trimmed(more[j].take(m)),
        ) != key by {
            assert(more[j] == lines[j + 1]);
            assert(colon_at(lines[j + 1], m));
        }
        lemma_field_kept(with_line(h, lines[0]), more, key);
    } else {
        assert(lines[0].len() > 0);
        assert(more[i - 1] == lines[i]);
        assert forall|j: int| 0 <= j < i - 1 implies (#[trigger] more[j]).len() > 0 by {
            assert(more[j] == lines[j + 1]);
        }
        assert forall|j: int, m: int|
            i - 1 < j < more.len() && #[trigger] colon_at(more[j], m) implies lowercase_of(
            trimmed(more[j].take(m)),
        ) != lowercase_of(trimmed(more[i - 1].take(k))) by {
            assert(more[j] == lines[j + 1]);
            assert(colon_at(lines[j + 1], m));
        }
        lemma_field_read(with_line(h, lines[0]), more, i - 1, k);
    }
}

/// Every header line before the empty one is read, however many there are: its
/// name, in lower case, is a field, and the field has the value of the last
/// line with that name.
pub proof fn law_every_header_line_is_read(request_line: Seq<char>, lines: Seq<Seq<char>>, i: int, k: int)
    requires
        one_line(request_line),
        forall|j: int| 0 <= j < lines.len() ==> one_line(#[trigger] lines[j]) && lines[j].len() > 0,
        0 <= i < lines.len(),
        colon_at(lines[i], k),
        forall|j: int, m: int|
            i < j < lines.len() && #[trigger] colon_at(lines[j], m) ==> lowercase_of(
                trimmed(lines[j].take(m)),
            ) != lowercase_of(trimmed(lines[i].take(k))),
    ensures
        ({
            let read = headers_of(head_text(request_line, lines));
            let key = lowercase_of(trimmed(lines[i].take(k)));
            read.contains_key(key) && read[key] == trimmed(lines[i].skip(k + 1))
        }),
{
    lemma_head_lines(request_line, lines);
    let empty = seq![Seq::<char>::empty(), Seq::empty()];
    let all = seq![request_line] + lines + empty;
    let rest = lines + empty;
    assert(all.skip(1) =~= rest);
    assert(rest[i] == lines[i]);
    assert forall|j: int| 0 <= j < i implies (#[trigger] rest[j]).len() > 0 by {
        assert(rest[j] == lines[j]);
        assert(one_line(lines[j]));
    }
    assert forall|j: int, m: int|
        i < j < rest.len() && #[trigger] colon_at(rest[j], m) implies lowercase_of(trimmed(rest[j].take(m)))
        != lowercase_of(trimmed(rest[i].take(k))) by {
        if j < lines.len() {
            assert(rest[j] == lines[j]);
            assert(colon_at(lines[j], m));
        }
    }
    lemma_field_read(Map::empty(), rest, i, k);
}

proof fn lemma_fields_come_from_lines(h: Map<Seq<char>, Seq<char>>, lines: Seq<Seq<char>>, key: Seq<char>)
    requires
        with_lines(h, lines).contains_key(key),
        !h.contains_key(key),
    ensures
        exists|j: int, m: int|
            0 <= j < lines.len() && #[trigger] colon_at(lines[j], m) && lowercase_of(trimmed(lines[j].take(m)))
                == key,
    decreases lines.len(),
{
    if lines.len() > 0 && lines[0].len() > 0 {
        let more = lines.skip(1);
        lemma_first_colon(lines[0]);
        if with_line(h, lines[0]).contains_key(key) {
            let m = first(lines[0], ":"@)->0;
            assert(colon_at(lines[0], m));
        } else {
            lemma_fields_come_from_lines(with_line(h, lines[0]), more, key);
            let (j, m) = choose|j: int, m: int|
                0 <= j < more.len() && #[trigger] colon_at(more[j], m) && lowercase_of(
                    trimmed(more[j].take(m)),
                ) == key;
            assert(more[j] == lines[j + 1]);
            assert(colon_at(lines[j + 1], m));
        }
    }
}

/// There are no fields but those of the header lines.
pub proof fn law_fields_come_from_header_lines(request_line: Seq<char>, lines: Seq<Seq<char>>, key: Seq<char>)
    requires
        one_line(request_line),
        forall|j: int| 0 <= j < lines.len() ==> one_line(#[trigger] lines[j]),
        headers_of(head_text(request_line, lines)).contains_key(key),
    ensures
        exists|j: int, m: int|
            0 <= j < lines.len() && #[trigger] colon_at(lines[j], m) && lowercase_of(trimmed(lines[j].take(m)))
                == key,
{
    lemma_head_lines(request_line, lines);
    let empty = seq![Seq::<char>::empty(), Seq::empty()];
    let all = seq![request_line] + lines + empty;
    let rest = lines + empty;
    assert(all.skip(1) =~= rest);
    lemma_fields_come_from_lines(Map::empty(), rest, key);
    let (j, m) = choose|j: int, m: int|
        0 <= j < rest.len() && #[trigger] colon_at(rest[j], m) && lowercase_of(trimmed(rest[j].take(m))) == key;
    assert(rest[j] == lines[j]);
    assert(colon_at(lines[j], m));
}

/// A run of characters without white space, and with at least one.
pub open spec fn solid(w: Seq<char>) -> bool {
    w.len() > 0 && forall|i: int| 0 <= i < w.len() ==> !white(#[trigger] w[i])
}

/// The method and the target are the first two words of the request line, and
/// the header lines do not matter to them.
pub proof fn law_request_line_is_read(
    method: Seq<char>,
    target: Seq<char>,
    version: Seq<char>,
    lines: Seq<Seq<char>>,
)
    requires
        solid(method),
        solid(target),
        solid(version),
        forall|j: int| 0 <= j < lines.len() ==> one_line(#[trigger] lines[j]),
    ensures
        ({
            let text = head_text(method + seq![' '] + target + seq![' '] + version, lines);
            method_of(text) == uppercase_of(method) && target_of(text) == target
        }),
{
    let line = method + seq![' '] + target + seq![' '] + version;
    assert(white('\r'));
    assert(!line.contains('\r')) by {
        if line.contains('\r') {
            let i = choose|i: int| 0 <= i < line.len() && line[i] == '\r';
            let m = method.len() as int;
            let t = target.len() as int;
            if i < m {
                assert(!white(method[i]));
            } else if m < i < m + 1 + t {
                assert(!white(target[i - m - 1]));
            } else if i > m + 1 + t {
                assert(!white(version[i - m - t - 2]));
            }
        }
    }
    lemma_head_lines(line, lines);
    law_words_are_parted_by_white_space(method + seq![' '] + target, ' ', version);
    law_words_are_parted_by_white_space(method, ' ', target);
    law_run_without_white_space_is_a_word(method);
    law_run_without_white_space_is_a_word(target);
    law_run_without_white_space_is_a_word(version);
    let all = seq![line] + lines + seq![Seq::<char>::empty(), Seq::empty()];
    assert(all[0] == line);
    assert(words(line) == seq![method] + seq![target] + seq![version]);
    assert(words(line)[0] == method && words(line)[1] == target);
}

/// A body is as long as the field `content-length` says, up to 65536 bytes, and
/// there is none where there is no such field.
pub proof fn law_body_is_as_long_as_announced(h: Map<Seq<char>, Seq<char>>, n: usize)
    ensures
        h.contains_key("content-length"@) && h["content-length"@] == decimal(n as nat) ==> body_size(h) == (if n
            <= 65536 {
            n
        } else {
            65536
        }),
        !h.contains_key("content-length"@) ==> body_size(h) == 0,
{
    law_decimal_reads_back(n);
}

/// The bytes of a head end where CR LF CR LF stands for the first time, and
/// nowhere else.
pub proof fn law_head_ends_with_the_first_empty_line(stream: Seq<u8>, n: int)
    ensures
        head_end(stream) == Some(n) <==> {
            &&& 4 <= n <= stream.len()
            &&& stream[n - 4] == 13 && stream[n - 3] == 10 && stream[n - 2] == 13 && stream[n - 1] == 10
            &&& forall|k: int|
                4 <= k < n ==> !(#[trigger] stream[k - 1] == 10 && stream[k - 2] == 13 && stream[k - 3] == 10
                    && stream[k - 4] == 13)
        },
{
    lemma_head_end_from(stream, 0);
    assert forall|k: int| 0 <= k <= stream.len() implies (#[trigger] ends_head(stream.take(k)) <==> k >= 4
        && stream[k - 4] == 13 && stream[k - 3] == 10 && stream[k - 2] == 13 && stream[k - 1] == 10) by {
        lemma_ends_head(stream, k);
    }
    let literal = {
        &&& 4 <= n <= stream.len()
        &&& stream[n - 4] == 13 && stream[n - 3] == 10 && stream[n - 2] == 13 && stream[n - 1] == 10
        &&& forall|k: int|
            4 <= k < n ==> !(#[trigger] stream[k - 1] == 10 && stream[k - 2] == 13 && stream[k - 3] == 10
                && stream[k - 4] == 13)
    };
    if head_end(stream) == Some(n) {
        assert(ends_head(stream.take(n)));
        assert forall|k: int| 4 <= k < n implies !(#[trigger] stream[k - 1] == 10 && stream[k - 2] == 13 && stream[k
            - 3] == 10 && stream[k - 4] == 13) by {
            assert(!ends_head(stream.take(k)));
        }
    }
    if literal {
        assert(ends_head(stream.take(n)));
        assert(head_end(stream) is Some);
        let e = head_end(stream)->0;
        assert(ends_head(stream.take(e)));
        if e < n {
            assert(stream[e - 1] == 10);
        }
    }
}

proof fn lemma_ends_head(stream: Seq<u8>, k: int)
    requires
        0 <= k <= stream.len(),
    ensures
        ends_head(stream.take(k)) <==> k >= 4 && stream[k - 4] == 13 && stream[k - 3] == 10 && stream[k - 2] == 13
            && stream[k - 1] == 10,
{
    let b = stream.take(k);
    if k >= 4 {
        let t = b.subrange(k - 4, k);
        assert(t[0] == stream[k - 4] && t[1] == stream[k - 3] && t[2] == stream[k - 2] && t[3] == stream[k - 1]);
        if stream[k - 4] == 13 && stream[k - 3] == 10 && stream[k - 2] == 13 && stream[k - 1] == 10 {
            assert(t =~= seq![13u8, 10u8, 13u8, 10u8]);
        }
    }
}

/// A head and the bytes that it announces, one behind the other, are read as a
/// request with that head and that body, however they come. With fewer bytes
/// the request is not complete.
pub proof fn law_announced_bytes_are_the_body(arrivals: Seq<ArrivalView>, head: Seq<u8>, body: Seq<u8>)
    requires
        orderly(arrivals),
        stream_of(arrivals) == head + body,
        head_end(head) == Some(head.len() as int),
    ensures
        body.len() == announced_by(head) ==> reading_after(arrivals) == (ReaderView::Complete { head, body }),
        body.len() < announced_by(head) ==> reading_after(arrivals) == (ReaderView::Body { head, got: body }),
{
    let s = head + body;
    law_request_is_that_of_the_stream(arrivals);
    lemma_head_end_stays(head, body);
    assert(s.take(head.len() as int) =~= head);
    assert(s.skip(head.len() as int) =~= body);
    assert(body.take(body.len() as int) =~= body);
}

/// A head of up to 65536 bytes is read on, byte by byte, while there is time;
/// a longer one is given up, and one whose time is over too. Of a body no more
/// is read than is still to come.
pub proof fn law_what_is_read_next(b: Seq<u8>, head: Seq<u8>, got: Seq<u8>)
    requires
        got.len() <= announced_by(head),
    ensures
        ReaderView::Reading(b).wanted(true) == Wanted::Nothing,
        ReaderView::Reading(b).wanted(false) == (if b.len() <= 65536 {
            Wanted::OneByte
        } else {
            Wanted::Nothing
        }),
        (ReaderView::Body { head, got }).wanted(true) == Wanted::UpTo((announced_by(head) - got.len()) as usize),
        (ReaderView::Body { head, got }).wanted(false) == (ReaderView::Body { head, got }).wanted(true),
        (ReaderView::Complete { head, body: got }).wanted(false) == Wanted::Nothing,
        ReaderView::Dropped.wanted(false) == Wanted::Nothing,
{
}

// What is written of a reply, and what a target holds.

/// The head of a reply has these five lines, the last of them empty, each with
/// CR LF behind it; the size of the body is that of its bytes.
pub proof fn law_lines_of_a_reply(r: Response)
    ensures
        response_head(r) == join(
            seq![
                "HTTP/1.1 "@ + decimal(r.code as nat) + " "@ + r.text@,
                "Content-Type: "@ + r.ctype@,
                "Content-Length: "@ + decimal(encode_utf8(r.body@).len()),
                "Connection: close"@,
                Seq::empty(),
                Seq::empty(),
            ],
            "\r\n"@,
        ),
{
    reveal_strlit("\r\n");
    reveal_strlit("\r\nContent-Type: ");
    reveal_strlit("Content-Type: ");
    reveal_strlit("\r\nContent-Length: ");
    reveal_strlit("Content-Length: ");
    reveal_strlit("\r\nConnection: close\r\n\r\n");
    reveal_strlit("Connection: close");
    let e = "\r\n"@;
    let l0 = "HTTP/1.1 "@ + decimal(r.code as nat) + " "@ + r.text@;
    let l1 = "Content-Type: "@ + r.ctype@;
    let l2 = "Content-Length: "@ + decimal(encode_utf8(r.body@).len());
    let l3 = "Connection: close"@;
    let none = Seq::<char>::empty();
    let p5 = seq![none];
    let p4 = seq![none, none];
    let p3 = seq![l3, none, none];
    let p2 = seq![l2, l3, none, none];
    let p1 = seq![l1, l2, l3, none, none];
    let p0 = seq![l0, l1, l2, l3, none, none];
    assert(p4.skip(1) =~= p5);
    assert(p3.skip(1) =~= p4);
    assert(p2.skip(1) =~= p3);
    assert(p1.skip(1) =~= p2);
    assert(p0.skip(1) =~= p1);
    assert("\r\nContent-Type: "@ =~= e + "Content-Type: "@);
    assert("\r\nContent-Length: "@ =~= e + "Content-Length: "@);
    assert("\r\nConnection: close\r\n\r\n"@ =~= e + l3 + e + e);
    assert(join(p5, e) == none);
    assert(join(p4, e) == none + e + join(p4.skip(1), e));
    assert(none + e + none =~= e);
    assert(join(p4, e) =~= e);
    assert(join(p3, e) =~= l3 + e + e);
    assert(join(p2, e) =~= l2 + e + (l3 + e + e));
    assert(join(p1, e) =~= l1 + e + (l2 + e + (l3 + e + e)));
    assert(join(p0, e) =~= l0 + e + (l1 + e + (l2 + e + (l3 + e + e))));
    assert(response_head(r) =~= join(p0, e));
}

proof fn lemma_first_char(s: Seq<char>, p: Seq<char>, c: char)
    requires
        p == seq![c],
    ensures
        match first(s, p) {
            Some(i) => 0 <= i < s.len() && s[i] == c && forall|j: int| 0 <= j < i ==> #[trigger] s[j] != c,
            None => !s.contains(c),
        },
{
    lemma_first_from(s, p, 0);
    match first(s, p) {
        Some(i) => {
            assert(s.subrange(i, i + 1)[0] == c);
            assert forall|j: int| 0 <= j < i implies #[trigger] s[j] != c by {
                if s[j] == c {
                    assert(s.subrange(j, j + 1) =~= p);
                    assert(occurs_at(s, p, j));
                }
            }
        },
        None => {
            if s.contains(c) {
                let j = choose|j: int| 0 <= j < s.len() && s[j] == c;
                assert(s.subrange(j, j + 1) =~= p);
                assert(occurs_at(s, p, j));
            }
        },
    }
}

/// The path of a target is what stands before its first question mark, and the
/// query what stands after it. Without a question mark all of it is the path.
pub proof fn law_question_mark_parts_a_target(path: Seq<char>, query: Seq<char>)
    requires
        !path.contains('?'),
    ensures
        path_of(path + seq!['?'] + query) == path,
        query_of(path + seq!['?'] + query) == Some(query),
        path_of(path) == path,
        query_of(path) is None,
{
    reveal_strlit("?");
    assert("?"@ =~= seq!['?']);
    let t = path + seq!['?'] + query;
    let n = path.len() as int;
    lemma_first_char(t, "?"@, '?');
    lemma_first_char(path, "?"@, '?');
    assert(t[n] == '?');
    assert(t.contains('?'));
    let i = first(t, "?"@)->0;
    assert(i == n) by {
        if i < n {
            assert(path[i] == '?');
        }
    }
    assert(t.take(n) =~= path);
    assert(t.skip(n + 1) =~= query);
}

/// A request carries the token exactly if its field `x-token` is the token or
/// one of the parameters of its query is `token=` and the token.
pub proof fn law_token_is_in_the_field_or_among_the_parameters(
    path: Seq<char>,
    params: Seq<Seq<char>>,
    h: Map<Seq<char>, Seq<char>>,
    token: Seq<char>,
)
    requires
        !path.contains('?'),
        params.len() > 0,
        forall|i: int| 0 <= i < params.len() ==> !(#[trigger] params[i]).contains('&'),
    ensures
        is_authed(path + seq!['?'] + join(params, "&"@), h, token) <==> (h.contains_key("x-token"@)
            && h["x-token"@] == token) || params.contains("token="@ + token),
        is_authed(path, h, token) <==> h.contains_key("x-token"@) && h["x-token"@] == token,
{
    reveal_strlit("&");
    law_question_mark_parts_a_target(path, join(params, "&"@));
    law_splitting_undoes_joining(params, "&"@);
}

/// A head announces what its field `content-length` says.
pub proof fn law_head_announces_its_content_length(head: Seq<u8>, n: usize)
    requires
        headers_of(lossy_of(head)).contains_key("content-length"@),
        headers_of(lossy_of(head))["content-length"@] == decimal(n as nat),
    ensures
        announced_by(head) == (if n <= 65536 {
            n
        } else {
            65536
        }),
{
    law_body_is_as_long_as_announced(headers_of(lossy_of(head)), n);
}

/// A request line with nothing behind its method asks for `/`, and one with
/// nothing at all has no method either.
pub proof fn law_what_is_missing_in_a_request_line(method: Seq<char>, lines: Seq<Seq<char>>)
    requires
        method.len() == 0 || solid(method),
        forall|j: int| 0 <= j < lines.len() ==> one_line(#[trigger] lines[j]),
    ensures
        target_of(head_text(method, lines)) == seq!['/'],
        method_of(head_text(method, lines)) == uppercase_of(method),
{
    assert(white('\r'));
    assert(!method.contains('\r')) by {
        if method.contains('\r') {
            let i = choose|i: int| 0 <= i < method.len() && method[i] == '\r';
            assert(!white(method[i]));
        }
    }
    lemma_head_lines(method, lines);
    law_run_without_white_space_is_a_word(method);
    let all = seq![method] + lines + seq![Seq::<char>::empty(), Seq::empty()];
    assert(all[0] == method);
    reveal_strlit("/");
    reveal_strlit("");
    assert("/"@ =~= seq!['/']);
    if method.len() == 0 {
        assert(""@ =~= method);
    }
}

/// There is no body where `content-length` is not a number: where it is empty, or
/// has a character that is no digit, but for a plus sign in front.
pub proof fn law_no_body_without_a_number(h: Map<Seq<char>, Seq<char>>, i: int)
    requires
        h.contains_key("content-length"@),
    ensures
        h["content-length"@].len() == 0 ==> body_size(h) == 0,
        0 <= i < h["content-length"@].len() && !('0' <= h["content-length"@][i] <= '9') && !(i == 0
            && h["content-length"@][0] == '+') ==> body_size(h) == 0,
{
    let v = h["content-length"@];
    if usize_value(v) is Some {
        law_numbers_are_read_from_digits(v);
    }
}

/// What a request that was read holds: its method in upper case, its target and
/// its fields as its head has them, and the body that came.
pub proof fn law_parts_of_a_request(r: Request, head: Seq<u8>, body: Seq<u8>)
    requires
        r.read_from(head, body),
    ensures
        r.body@ == body,
        r.method@ == method_of(lossy_of(head)),
        r.target@ == target_of(lossy_of(head)),
        r.headers@ == headers_of(lossy_of(head)),
        valid_utf8(head) ==> r.target@ == target_of(decode_utf8(head)) && r.headers@ == headers_of(decode_utf8(head)),
{
}

/// A field that is set has the value that was set last, and the others keep
/// theirs.
pub proof fn law_field_that_is_set(entries: Seq<(String, String)>, e: (String, String), name: Seq<char>)
    ensures
        field(fields(entries.push(e)), e.0@) == Some(e.1@),
        name != e.0@ ==> field(fields(entries.push(e)), name) == field(fields(entries), name),
        field(fields(Seq::empty()), name) is None,
{
    assert(entries.push(e).drop_last() =~= entries);
}

} // verus!
