use vstd::prelude::*;
use vstd::string::*;
use vstd::utf8::*;

use crate::bytes::{
    colon_index, decimal, find_colon, is_space, lemma_colon_index_concat, lemma_decimal_digits, lemma_parse_decimal,
    lemma_trim_padded, lemma_trim_unpadded, parse_usize, parse_usize_at, push_decimal, trim, trim_bounds, trim_end,
    trim_start,
};

verus! {

/// Why a framed message could not be read.
#[derive(Clone, Copy, Debug, PartialEq, Eq, Structural)]
pub enum FrameError {
    /// A header line is not of the form `Name: Value`, its value does not
    /// parse, or `Content-Length` is missing.
    HeaderParseError,
    /// A header line names a field other than `Content-Length` and `Content-Type`.
    UnexpectedHeaderField,
    /// The content is not valid UTF-8.
    ContentDecodeError,
    /// The input ends before the header section or the content is complete.
    Truncated,
}

/// A message of the base protocol: its header fields and its content.
#[derive(Debug)]
pub struct RawMessage {
    pub content_length: usize,
    pub content_type: String,
    pub content: String,
}

/// What the header lines read so far have set: the content length, the raw
/// content type, and whether any field was seen.
pub struct HeaderModel {
    pub content_length: Option<usize>,
    pub content_type: Seq<u8>,
    pub read_any: bool,
}

pub open spec fn crlf() -> Seq<u8> {
    seq![13u8, 10u8]
}

/// The bytes of `Content-Length`.
pub open spec fn content_length_name() -> Seq<u8> {
    seq![67u8, 111, 110, 116, 101, 110, 116, 45, 76, 101, 110, 103, 116, 104]
}

/// The bytes of `Content-Type`.
pub open spec fn content_type_name() -> Seq<u8> {
    seq![67u8, 111, 110, 116, 101, 110, 116, 45, 84, 121, 112, 101]
}

/// A line that holds nothing but white space.
pub open spec fn is_blank(line: Seq<u8>) -> bool {
    trim(line).len() == 0
}

/// The effect of one header line on `m`: the new model, and whether the line
/// ends the header section (a blank line after at least one field).
pub open spec fn header_step(m: HeaderModel, line: Seq<u8>) -> Result<(HeaderModel, bool), FrameError> {
    if is_blank(line) {
        Ok((m, m.read_any))
    } else {
        let c = colon_index(line);
        if c >= line.len() {
            Err(FrameError::HeaderParseError)
        } else {
            let name = trim(line.take(c));
            let value = trim(line.skip(c + 1));
            if name == content_length_name() {
                match parse_usize(value) {
                    Some(n) => Ok(
                        (HeaderModel { content_length: Some(n), content_type: m.content_type, read_any: true }, false),
                    ),
                    None => Err(FrameError::HeaderParseError),
                }
            } else if name == content_type_name() {
                Ok((HeaderModel { content_length: m.content_length, content_type: value, read_any: true }, false))
            } else {
                Err(FrameError::UnexpectedHeaderField)
            }
        }
    }
}

/// The index of the first line feed in `s`, or the length of `s` if there is none.
pub open spec fn newline_index(s: Seq<u8>) -> int
    decreases s.len(),
{
    if s.len() == 0 {
        0
    } else if s[0] == 10 {
        0
    } else {
        1 + newline_index(s.skip(1))
    }
}

/// The header lines of `s` from `pos` on, taken in by `header_step` starting
/// from `m`: the model at the end of the header section and the index just
/// past it.
pub open spec fn read_headers(m: HeaderModel, s: Seq<u8>, pos: int) -> Result<(HeaderModel, int), FrameError>
    decreases s.len() - pos,
{
    if pos < 0 || pos >= s.len() {
        Err(FrameError::Truncated)
    } else {
        let e = pos + newline_index(s.skip(pos));
        if e < pos || e >= s.len() {
            Err(FrameError::Truncated)
        } else {
            match header_step(m, s.subrange(pos, e + 1)) {
                Err(x) => Err(x),
                Ok((m2, done)) => if done {
                    Ok((m2, e + 1))
                } else {
                    read_headers(m2, s, e + 1)
                },
            }
        }
    }
}

pub open spec fn no_headers() -> HeaderModel {
    HeaderModel { content_length: None, content_type: Seq::empty(), read_any: false }
}

/// The framed message at the start of `s`: its content length, the raw bytes
/// of its content type and of its content.
pub open spec fn read_frame(s: Seq<u8>) -> Result<(usize, Seq<u8>, Seq<u8>), FrameError> {
    match read_headers(no_headers(), s, 0) {
        Err(e) => Err(e),
        Ok((m, p)) => match m.content_length {
            None => Err(FrameError::HeaderParseError),
            Some(n) => if p < 0 || p + n > s.len() {
                Err(FrameError::Truncated)
            } else {
                Ok((n, m.content_type, s.subrange(p, p + n)))
            },
        },
    }
}

/// The header line `Content-Length: N` with its line break.
pub open spec fn length_line(n: usize) -> Seq<u8> {
    content_length_name() + seq![58u8, 32u8] + decimal(n as nat) + crlf()
}

/// The header line `Content-Type: T` with its line break, for the bytes `t`.
pub open spec fn type_line(t: Seq<u8>) -> Seq<u8> {
    content_type_name() + seq![58u8, 32u8] + t + crlf()
}

/// The bytes that frame a message with these fields: a `Content-Length`
/// line, a `Content-Type` line where the type is not empty, a blank line and
/// the content.
pub open spec fn framed(n: usize, content_type: Seq<char>, content: Seq<char>) -> Seq<u8> {
    let types = if content_type.len() > 0 {
        type_line(encode_utf8(content_type))
    } else {
        Seq::empty()
    };
    length_line(n) + types + crlf() + encode_utf8(content)
}

/// Writing a message that was read reproduces its content exactly: the
/// framed bytes end with the content bytes of the input, and the length
/// written is their number.
pub proof fn lemma_content_round_trip(input: Seq<u8>, n: usize, ct: Seq<u8>, body: Seq<u8>)
    requires
        read_frame(input) == Ok::<(usize, Seq<u8>, Seq<u8>), FrameError>((n, ct, body)),
        valid_utf8(ct),
        valid_utf8(body),
    ensures
        body.len() == n,
        ({
            let out = framed(n, decode_utf8(ct), decode_utf8(body));
            out.skip(out.len() - body.len()) == body
        }),
{
    decode_utf8_encode_utf8(body);
    let out = framed(n, decode_utf8(ct), decode_utf8(body));
    assert(out.skip(out.len() - body.len()) =~= body);
}

proof fn lemma_newline_index_concat(a: Seq<u8>, b: Seq<u8>)
    requires
        forall|i: int| 0 <= i < a.len() ==> a[i] != 10,
    ensures
        newline_index(a + b) == a.len() + newline_index(b),
    decreases a.len(),
{
    if a.len() > 0 {
        assert((a + b).skip(1) =~= a.skip(1) + b);
        lemma_newline_index_concat(a.skip(1), b);
    } else {
        assert(a + b =~= b);
    }
}

/// Reading the header section at `pos`, where `line` (ended by its only line
/// feed) stands, is taking in `line` and going on after it.
proof fn lemma_read_line(m: HeaderModel, s: Seq<u8>, pos: int, line: Seq<u8>)
    requires
        0 <= pos,
        pos + line.len() <= s.len(),
        s.subrange(pos, pos + line.len()) == line,
        line.len() >= 1,
        line.last() == 10,
        forall|i: int| 0 <= i < line.len() - 1 ==> line[i] != 10,
    ensures
        read_headers(m, s, pos) == match header_step(m, line) {
            Err(x) => Err(x),
            Ok((m2, done)) => if done {
                Ok((m2, pos + line.len()))
            } else {
                read_headers(m2, s, pos + line.len())
            },
        },
{
    let k = line.len() - 1;
    assert(s.skip(pos) =~= line.drop_last() + s.skip(pos + k));
    lemma_newline_index_concat(line.drop_last(), s.skip(pos + k));
    assert(s.skip(pos + k)[0] == 10);
    assert(s.subrange(pos, pos + k + 1) == line);
}

/// What `header_step` makes of a line `name: value` followed by CR LF, where
/// `name` holds no colon and neither `name` nor `value` has white space at
/// its ends.
proof fn lemma_field_line(name: Seq<u8>, value: Seq<u8>)
    requires
        name.len() > 0,
        !is_space(name[0]),
        !is_space(name.last()),
        forall|i: int| 0 <= i < name.len() ==> name[i] != 58,
        value.len() > 0,
        !is_space(value[0]),
        !is_space(value.last()),
    ensures
        ({
            let line = name + seq![58u8, 32u8] + value + crlf();
            &&& !is_blank(line)
            &&& colon_index(line) == name.len()
            &&& trim(line.take(name.len() as int)) == name
            &&& trim(line.skip(name.len() as int + 1)) == value
        }),
{
    let line = name + seq![58u8, 32u8] + value + crlf();
    let rest = seq![58u8, 32u8] + value + crlf();
    assert(line =~= name + rest);
    lemma_colon_index_concat(name, rest);
    assert(line.take(name.len() as int) =~= name);
    lemma_trim_unpadded(name);
    assert(line.skip(name.len() as int + 1) =~= seq![32u8] + value + seq![13u8, 10u8]);
    lemma_trim_padded(value);
    assert(trim_start(line) == line);
    assert(rest[0] == 58);
    assert(colon_index(rest) == 0);
    let body = name + seq![58u8, 32u8] + value;
    assert(line =~= body + seq![13u8, 10u8]);
    assert(line.drop_last() =~= body + seq![13u8]);
    assert((body + seq![13u8]).drop_last() =~= body);
    assert(trim_end(line) == trim_end(body + seq![13u8]));
    assert(trim_end(body + seq![13u8]) == trim_end(body));
    assert(body.last() == value.last());
    assert(trim_end(body) == body);
    assert(trim(line) == body);
}

/// A field line has its only line feed at its end.
proof fn lemma_field_line_feed(name: Seq<u8>, value: Seq<u8>)
    requires
        forall|i: int| 0 <= i < name.len() ==> name[i] != 10,
        forall|i: int| 0 <= i < value.len() ==> value[i] != 10,
    ensures
        ({
            let line = name + seq![58u8, 32u8] + value + crlf();
            &&& line.last() == 10
            &&& forall|i: int| 0 <= i < line.len() - 1 ==> line[i] != 10
        }),
{
    let line = name + seq![58u8, 32u8] + value + crlf();
    assert forall|i: int| 0 <= i < line.len() - 1 implies line[i] != 10 by {
        if i < name.len() {
            assert(line[i] == name[i]);
        } else if i >= name.len() + 2 && i < name.len() + 2 + value.len() {
            assert(line[i] == value[i - name.len() - 2]);
        }
    }
}

/// The `Content-Length` line of `n` sets the length to `n`.
proof fn lemma_length_line(m: HeaderModel, n: usize)
    ensures
        header_step(m, length_line(n)) == Ok::<(HeaderModel, bool), FrameError>(
            (HeaderModel { content_length: Some(n), content_type: m.content_type, read_any: true }, false),
        ),
        length_line(n).last() == 10,
        forall|i: int| 0 <= i < length_line(n).len() - 1 ==> length_line(n)[i] != 10,
{
    let dn = decimal(n as nat);
    lemma_decimal_digits(n as nat);
    lemma_parse_decimal(n);
    assert(48 <= dn[0] <= 57);
    assert(48 <= dn.last() <= 57);
    lemma_field_line(content_length_name(), dn);
    assert forall|i: int| 0 <= i < dn.len() implies dn[i] != 10 by {
        assert(48 <= dn[i] <= 57);
    }
    lemma_field_line_feed(content_length_name(), dn);
}

/// The `Content-Type` line of `t` sets the content type to `t`.
proof fn lemma_type_line(m: HeaderModel, t: Seq<u8>)
    requires
        t.len() > 0,
        !is_space(t[0]),
        !is_space(t.last()),
        forall|i: int| 0 <= i < t.len() ==> t[i] != 10,
    ensures
        header_step(m, type_line(t)) == Ok::<(HeaderModel, bool), FrameError>(
            (HeaderModel { content_length: m.content_length, content_type: t, read_any: true }, false),
        ),
        type_line(t).last() == 10,
        forall|i: int| 0 <= i < type_line(t).len() - 1 ==> type_line(t)[i] != 10,
{
    lemma_field_line(content_type_name(), t);
    lemma_field_line_feed(content_type_name(), t);
    assert(content_type_name().len() != content_length_name().len());
}

/// A blank line ends the header section once a field was seen.
proof fn lemma_blank_line(m: HeaderModel)
    ensures
        header_step(m, crlf()) == Ok::<(HeaderModel, bool), FrameError>((m, m.read_any)),
{
    assert(crlf().skip(1) =~= seq![10u8]);
    assert(seq![10u8].skip(1) =~= Seq::<u8>::empty());
    assert(trim_start(seq![10u8]) == trim_start(Seq::<u8>::empty()));
    assert(trim_start(crlf()) =~= Seq::<u8>::empty());
    assert(is_blank(crlf()));
}

/// The content type may be framed and read back: it is empty, or it is not
/// padded with white space and holds no line feed.
pub open spec fn content_type_fits(ct: Seq<char>) -> bool {
    let b = encode_utf8(ct);
    ct.len() == 0 || (b.len() > 0 && !is_space(b[0]) && !is_space(b.last()) && forall|i: int|
        0 <= i < b.len() ==> b[i] != 10)
}

/// Reading what `write` frames gives back the length, the content type and
/// the content it was made of, where the length is the content's number of
/// bytes and the content type can stand on a header line.
pub proof fn lemma_read_of_write(n: usize, ct: Seq<char>, content: Seq<char>)
    requires
        encode_utf8(content).len() == n,
        content_type_fits(ct),
    ensures
        read_frame(framed(n, ct, content)) == Ok::<(usize, Seq<u8>, Seq<u8>), FrameError>(
            (n, encode_utf8(ct), encode_utf8(content)),
        ),
        valid_utf8(encode_utf8(ct)),
        decode_utf8(encode_utf8(ct)) == ct,
        valid_utf8(encode_utf8(content)),
        decode_utf8(encode_utf8(content)) == content,
{
    encode_utf8_valid_utf8(ct);
    encode_utf8_decode_utf8(ct);
    encode_utf8_valid_utf8(content);
    encode_utf8_decode_utf8(content);
    let s = framed(n, ct, content);
    let body = encode_utf8(content);
    let l1 = length_line(n);
    lemma_length_line(no_headers(), n);
    assert(s.subrange(0, l1.len() as int) =~= l1);
    lemma_read_line(no_headers(), s, 0, l1);
    let m1 = HeaderModel { content_length: Some(n), content_type: Seq::empty(), read_any: true };
    let p1 = l1.len() as int;
    if ct.len() > 0 {
        let v = encode_utf8(ct);
        let l2 = type_line(v);
        lemma_type_line(m1, v);
        assert(s =~= l1 + l2 + crlf() + body);
        assert(s.subrange(p1, p1 + l2.len()) =~= l2);
        lemma_read_line(m1, s, p1, l2);
        let m2 = HeaderModel { content_length: Some(n), content_type: v, read_any: true };
        let p2 = p1 + l2.len();
        assert(s.subrange(p2, p2 + 2) =~= crlf());
        lemma_blank_line(m2);
        lemma_read_line(m2, s, p2, crlf());
        assert(s.subrange(p2 + 2, p2 + 2 + n) =~= body);
    } else {
        assert(encode_utf8(ct) =~= Seq::<u8>::empty());
        assert(s =~= l1 + crlf() + body);
        assert(s.subrange(p1, p1 + 2) =~= crlf());
        lemma_blank_line(m1);
        lemma_read_line(m1, s, p1, crlf());
        assert(s.subrange(p1 + 2, p1 + 2 + n) =~= body);
    }
}

/// Relies on `String::from_utf8`: it succeeds exactly on valid UTF-8, and the
/// string then holds the characters that the bytes encode.
#[verifier::external_body]
fn string_from_utf8(b: Vec<u8>) -> (r: Option<String>)
    ensures
        r is Some <==> valid_utf8(b@),
        r matches Some(s) ==> s@ == decode_utf8(b@),
{
    String::from_utf8(b).ok()
}

/// Reads header fields one line at a time, each line with its line break.
pub struct HeaderReader {
    pub content_length: Option<usize>,
    pub content_type: Vec<u8>,
    pub read_any: bool,
}

impl HeaderReader {
    pub open spec fn model(&self) -> HeaderModel {
        HeaderModel {
            content_length: self.content_length,
            content_type: self.content_type@,
            read_any: self.read_any,
        }
    }

    /// A reader that has seen no line.
    pub fn new() -> (r: HeaderReader)
        ensures
            r.model() == (HeaderModel { content_length: None, content_type: Seq::empty(), read_any: false }),
    {
        HeaderReader { content_length: None, content_type: Vec::new(), read_any: false }
    }

    /// The message made of the fields read and of `content`, which should be
    /// the `Content-Length` bytes that follow the header section.
    pub fn finish(&self, content: Vec<u8>) -> (r: Result<RawMessage, FrameError>)
        ensures
            match self.content_length {
                None => r == Err::<RawMessage, FrameError>(FrameError::HeaderParseError),
                Some(n) => if content@.len() != n {
                    r == Err::<RawMessage, FrameError>(FrameError::Truncated)
                } else if !valid_utf8(self.content_type@) {
                    r == Err::<RawMessage, FrameError>(FrameError::HeaderParseError)
                } else if !valid_utf8(content@) {
                    r == Err::<RawMessage, FrameError>(FrameError::ContentDecodeError)
                } else {
                    r matches Ok(m) && m.content_length == n && m.content_type@ == decode_utf8(
                        self.content_type@,
                    ) && m.content@ == decode_utf8(content@)
                },
            },
    {
        let n = match self.content_length {
            None => {
                return Err(FrameError::HeaderParseError);
            },
            Some(n) => n,
        };
        if content.len() != n {
            return Err(FrameError::Truncated);
        }
        let mut ct: Vec<u8> = Vec::new();
        push_range(&mut ct, self.content_type.as_slice(), 0, self.content_type.len());
        assert(ct@ =~= self.content_type@);
        let content_type = match string_from_utf8(ct) {
            None => {
                return Err(FrameError::HeaderParseError);
            },
            Some(t) => t,
        };
        match string_from_utf8(content) {
            None => Err(FrameError::ContentDecodeError),
            Some(text) => Ok(RawMessage { content_length: n, content_type, content: text }),
        }
    }

    /// Takes in one header line; `Ok(true)` means the header section is over.
    pub fn feed_line(&mut self, line: &[u8]) -> (r: Result<bool, FrameError>)
        ensures
            match header_step(old(self).model(), line@) {
                Ok((m, done)) => r == Ok::<bool, FrameError>(done) && final(self).model() == m,
                Err(e) => r == Err::<bool, FrameError>(e),
            },
    {
        let (a, b) = trim_bounds(line, 0, line.len());
        assert(line@.subrange(0, line@.len() as int) =~= line@);
        if a == b {
            return Ok(self.read_any);
        }
        let c = find_colon(line);
        if c >= line.len() {
            return Err(FrameError::HeaderParseError);
        }
        let (na, nb) = trim_bounds(line, 0, c);
        let (va, vb) = trim_bounds(line, c + 1, line.len());
        assert(line@.subrange(0, c as int) =~= line@.take(c as int));
        assert(line@.subrange(c + 1, line@.len() as int) =~= line@.skip(c + 1));
        let length_field = content_length_bytes();
        let ctype_field = content_type_bytes();
        if eq_range(line, na, nb, &length_field) {
            match parse_usize_at(line, va, vb) {
                Some(n) => {
                    self.content_length = Some(n);
                    self.read_any = true;
                    Ok(false)
                },
                None => Err(FrameError::HeaderParseError),
            }
        } else if eq_range(line, na, nb, &ctype_field) {
            let mut v: Vec<u8> = Vec::new();
            push_range(&mut v, line, va, vb);
            assert(v@ =~= line@.subrange(va as int, vb as int));
            self.content_type = v;
            self.read_any = true;
            Ok(false)
        } else {
            Err(FrameError::UnexpectedHeaderField)
        }
    }
}

impl RawMessage {
    /// Reads the framed message at the start of `input`: header lines up to a
    /// blank line, then `Content-Length` bytes of UTF-8 content. A blank line
    /// before any field is skipped.
    pub fn read(input: &[u8]) -> (r: Result<RawMessage, FrameError>)
        ensures
            match read_frame(input@) {
                Err(e) => r == Err::<RawMessage, FrameError>(e),
                Ok((n, ct, body)) => if !valid_utf8(ct) {
                    r == Err::<RawMessage, FrameError>(FrameError::HeaderParseError)
                } else if !valid_utf8(body) {
                    r == Err::<RawMessage, FrameError>(FrameError::ContentDecodeError)
                } else {
                    r matches Ok(m) && m.content_length == n && m.content_type@ == decode_utf8(ct)
                        && m.content@ == decode_utf8(body)
                },
            },
    {
        let mut reader = HeaderReader::new();
        let mut pos: usize = 0;
        let ghost s = input@;
        loop
            invariant_except_break
                read_headers(no_headers(), s, 0) == read_headers(reader.model(), s, pos as int),
            invariant
                s == input@,
                pos <= s.len(),
            ensures
                read_headers(no_headers(), s, 0) == Ok::<(HeaderModel, int), FrameError>((reader.model(), pos as int)),
            decreases s.len() - pos,
        {
            if pos >= input.len() {
                return Err(FrameError::Truncated);
            }
            let mut e = pos;
            assert(s.skip(pos as int).skip(0) =~= s.skip(pos as int));
            while e < input.len() && input[e] != 10
                invariant
                    pos <= e <= s.len(),
                    s == input@,
                    newline_index(s.skip(pos as int)) == (e - pos) + newline_index(s.skip(e as int)),
                decreases s.len() - e,
            {
                assert(s.skip(e as int).skip(1) =~= s.skip(e + 1));
                e = e + 1;
            }
            if e >= input.len() {
                return Err(FrameError::Truncated);
            }
            assert(newline_index(s.skip(e as int)) == 0);
            let mut line: Vec<u8> = Vec::new();
            push_range(&mut line, input, pos, e + 1);
            assert(line@ =~= s.subrange(pos as int, e + 1));
            let ghost before = reader.model();
            assert(e as int == pos + newline_index(s.skip(pos as int)));
            match reader.feed_line(line.as_slice()) {
                Err(x) => {
                    return Err(x);
                },
                Ok(done) => {
                    pos = e + 1;
                    if done {
                        break;
                    }
                },
            }
        }
        let n = match reader.content_length {
            None => {
                return Err(FrameError::HeaderParseError);
            },
            Some(n) => n,
        };
        if n > input.len() - pos {
            return Err(FrameError::Truncated);
        }
        let mut body: Vec<u8> = Vec::new();
        push_range(&mut body, input, pos, pos + n);
        assert(body@ =~= s.subrange(pos as int, pos + n));
        reader.finish(body)
    }

    /// A message with `content` and no content type; its length is the number
    /// of bytes that encode `content`.
    pub fn from(content: String) -> (r: RawMessage)
        ensures
            r.content@ == content@,
            r.content_type@.len() == 0,
            r.content_length == encode_utf8(content@).len(),
    {
        let n = content.as_str().as_bytes().len();
        RawMessage { content_length: n, content_type: String::new(), content }
    }

    /// The bytes that frame this message: `Content-Length: N`, then
    /// `Content-Type: T` where `T` is not empty, each line ended by CR LF,
    /// then a blank line and the content, with nothing after it.
    pub fn write(&self) -> (r: Vec<u8>)
        ensures
            r@ == framed(self.content_length, self.content_type@, self.content@),
    {
        let mut out = content_length_bytes();
        out.push(58);
        out.push(32);
        push_decimal(self.content_length, &mut out);
        out.push(13);
        out.push(10);
        let ghost length_line = out@;
        if !self.content_type.as_str().is_empty() {
            let t = content_type_bytes();
            push_range(&mut out, t.as_slice(), 0, t.len());
            out.push(58);
            out.push(32);
            let tb = self.content_type.as_str().as_bytes();
            push_range(&mut out, tb, 0, tb.len());
            out.push(13);
            out.push(10);
            assert(t@.subrange(0, t@.len() as int) =~= t@);
            assert(tb@.subrange(0, tb@.len() as int) =~= tb@);
        }
        out.push(13);
        out.push(10);
        let cb = self.content.as_str().as_bytes();
        push_range(&mut out, cb, 0, cb.len());
        assert(cb@.subrange(0, cb@.len() as int) =~= cb@);
        assert(out@ =~= framed(self.content_length, self.content_type@, self.content@));
        out
    }
}

fn content_length_bytes() -> (r: Vec<u8>)
    ensures
        r@ == content_length_name(),
{
    let r = vec![67u8, 111, 110, 116, 101, 110, 116, 45, 76, 101, 110, 103, 116, 104];
    assert(r@ =~= content_length_name());
    r
}

fn content_type_bytes() -> (r: Vec<u8>)
    ensures
        r@ == content_type_name(),
{
    let r = vec![67u8, 111, 110, 116, 101, 110, 116, 45, 84, 121, 112, 101];
    assert(r@ =~= content_type_name());
    r
}

/// Whether `s[a..b]` equals `t`.
fn eq_range(s: &[u8], a: usize, b: usize, t: &Vec<u8>) -> (r: bool)
    requires
        a <= b <= s@.len(),
    ensures
        r == (s@.subrange(a as int, b as int) == t@),
{
    if b - a != t.len() {
        return false;
    }
    let mut i: usize = 0;
    while i < t.len()
        invariant
            a <= b <= s@.len(),
            b - a == t@.len(),
            i <= t@.len(),
            forall|j: int| 0 <= j < i ==> s@[a + j] == t@[j],
        decreases t@.len() - i,
    {
        if s[a + i] != t[i] {
            assert(s@.subrange(a as int, b as int)[i as int] != t@[i as int]);
            return false;
        }
        i = i + 1;
    }
    assert(s@.subrange(a as int, b as int) =~= t@);
    true
}

/// Appends `s[a..b]` to `out`.
fn push_range(out: &mut Vec<u8>, s: &[u8], a: usize, b: usize)
    requires
        a <= b <= s@.len(),
    ensures
        final(out)@ == old(out)@ + s@.subrange(a as int, b as int),
{
    let mut i = a;
    while i < b
        invariant
            a <= i <= b <= s@.len(),
            out@ == old(out)@ + s@.subrange(a as int, i as int),
        decreases b - i,
    {
        out.push(s[i]);
        assert(out@ =~= old(out)@ + s@.subrange(a as int, i + 1));
        i = i + 1;
    }
}

} // verus!
