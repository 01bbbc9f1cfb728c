//! The language-server transport: JSON-RPC messages framed with a
//! `Content-Length` header over the child process's standard streams.

use vstd::prelude::*;
use vstd::utf8::encode_utf8;
use crate::json::{
    Json, JsonV, model_fields, dec_digits, push_digits, digits_value, is_ws, is_digit,
    spec_skip_ws, spec_write, write_json, lemma_model_fields_index, pow10, lemma_pow10_mono,
};
use crate::session::spec_find_newline_end;
use crate::protocol::{obj_get, get_str, get_opt_str, obj_lookup, field_str, field_opt_str};

verus! {

// ---------------------------------------------------------------------------
// Framing
// ---------------------------------------------------------------------------
/// The header name every frame carries.
pub open spec fn header_name_bytes() -> Seq<u8> {
    encode_utf8("Content-Length: "@)
}

/// The framed form of a message body: the length header, a blank line, the
/// body.
pub open spec fn spec_frame(content: Seq<u8>) -> Seq<u8> {
    header_name_bytes() + dec_digits(content.len()) + seq![0x0du8, 0x0au8, 0x0du8, 0x0au8]
        + content
}

/// Frames a message body for the server's input.
pub fn write_message(content: &[u8]) -> (out: Vec<u8>)
    ensures
        out@ == spec_frame(content@),
{
    let mut out: Vec<u8> = Vec::new();
    let header: &[u8] = "Content-Length: ".as_bytes();
    let mut k: usize = 0;
    while k < header.len()
        invariant
            k <= header@.len(),
            header@ == header_name_bytes(),
            out@ == header@.take(k as int),
        decreases header@.len() - k,
    {
        out.push(header[k]);
        assert(out@ =~= header@.take(k as int + 1));
        k = k + 1;
    }
    assert(out@ =~= header_name_bytes());
    push_digits(content.len() as u64, &mut out);
    out.push(0x0d);
    out.push(0x0a);
    out.push(0x0d);
    out.push(0x0a);
    let mut t: usize = 0;
    while t < content.len()
        invariant
            t <= content@.len(),
            out@ == header_name_bytes() + dec_digits(content@.len())
                + seq![0x0du8, 0x0au8, 0x0du8, 0x0au8] + content@.take(t as int),
        decreases content@.len() - t,
    {
        out.push(content[t]);
        assert(out@ =~= header_name_bytes() + dec_digits(content@.len())
            + seq![0x0du8, 0x0au8, 0x0du8, 0x0au8] + content@.take(t as int + 1));
        t = t + 1;
    }
    assert(out@ =~= spec_frame(content@));
    out
}

/// A header line's reading: not a length header, a malformed length, or the
/// length it names.
pub enum HeaderLineV {
    NotLength,
    BadLength,
    Length(int),
}

/// Position after the trailing whitespace run ending at `j`.
pub open spec fn spec_rskip_ws(s: Seq<u8>, j: int) -> int
    decreases j,
{
    if 0 < j <= s.len() && is_ws(s[j - 1]) {
        spec_rskip_ws(s, j - 1)
    } else {
        j
    }
}

/// The line with surrounding whitespace removed.
pub open spec fn trim_bytes(line: Seq<u8>) -> Seq<u8> {
    let a = spec_skip_ws(line, 0);
    let b = spec_rskip_ws(line, line.len() as int);
    if a <= b {
        line.subrange(a, b)
    } else {
        Seq::empty()
    }
}

/// Reads one header line: after trimming, a line naming `Content-Length`
/// must carry decimal digits that fit the machine's sizes; other lines are
/// passed over.
pub open spec fn spec_header_clen(line: Seq<u8>) -> HeaderLineV {
    let t = trim_bytes(line);
    let name = encode_utf8("Content-Length:"@);
    if t.len() >= name.len() && t.take(name.len() as int) == name {
        let rest = t.skip(name.len() as int);
        let v = trim_bytes(rest);
        if 1 <= v.len() <= 19 && (forall|k: int| 0 <= k < v.len() ==> is_digit(#[trigger] v[k]))
            && digits_value(v, 0, v.len() as int) <= usize::MAX {
            HeaderLineV::Length(digits_value(v, 0, v.len() as int))
        } else {
            HeaderLineV::BadLength
        }
    } else {
        HeaderLineV::NotLength
    }
}

/// The state of a header scan.
pub enum HeaderScanV {
    Incomplete,
    Malformed,
    Done { body_start: int, clen: Option<int> },
}

/// Scans header lines from `i`: a blank line ends the headers; every
/// `Content-Length` line, the last winning, names the body's length.
pub open spec fn spec_scan_headers(s: Seq<u8>, i: int, clen: Option<int>) -> HeaderScanV
    decreases s.len() - i,
{
    match spec_find_newline_end(s, i) {
        None => HeaderScanV::Incomplete,
        Some(e0) => {
            let e = if i < e0 <= s.len() {
                e0
            } else {
                i + 1
            };
            let line = s.subrange(i, e);
            if line.len() == 1 || (line.len() == 2 && line[0] == 0x0d) {
                HeaderScanV::Done { body_start: e, clen }
            } else {
                match spec_header_clen(line) {
                    HeaderLineV::NotLength => spec_scan_headers(s, e, clen),
                    HeaderLineV::BadLength => HeaderScanV::Malformed,
                    HeaderLineV::Length(n) => spec_scan_headers(s, e, Some(n)),
                }
            }
        },
    }
}

/// The reading of a whole frame from the start of a buffer.
pub enum FrameReadV {
    /// More bytes must arrive first.
    Incomplete,
    /// The headers cannot be read; the stream is beyond recovery.
    Malformed,
    /// A complete frame: its body, and how many bytes it consumed.
    Frame { body: Seq<u8>, consumed: int },
}

/// Reads one frame from the start of the buffer: headers up to a blank
/// line, then exactly the named number of body bytes. Headers without a
/// length are malformed.
pub open spec fn spec_read_frame(s: Seq<u8>) -> FrameReadV {
    match spec_scan_headers(s, 0, None) {
        HeaderScanV::Incomplete => FrameReadV::Incomplete,
        HeaderScanV::Malformed => FrameReadV::Malformed,
        HeaderScanV::Done { body_start, clen } => match clen {
            None => FrameReadV::Malformed,
            Some(n) => if body_start + n <= s.len() {
                FrameReadV::Frame { body: s.subrange(body_start, body_start + n), consumed: body_start + n }
            } else {
                FrameReadV::Incomplete
            },
        },
    }
}

/// A header line's executable reading.
pub enum HeaderLine {
    NotLength,
    BadLength,
    Length(usize),
}

/// What the executable frame reader found.
pub enum FrameRead {
    Incomplete,
    Malformed,
    Frame { body: Vec<u8>, consumed: usize },
}

/// Reads a header line's meaning.
#[verifier::loop_isolation(false)]
#[verifier::rlimit(100)]
fn classify_header_line(line: &[u8]) -> (r: HeaderLine)
    ensures
        match r {
            HeaderLine::NotLength => spec_header_clen(line@) == HeaderLineV::NotLength,
            HeaderLine::BadLength => spec_header_clen(line@) == HeaderLineV::BadLength,
            HeaderLine::Length(n) => spec_header_clen(line@) == HeaderLineV::Length(n as int),
        },
{
    let mut a: usize = 0;
    while a < line.len() && (line[a] == 0x20 || line[a] == 0x09 || line[a] == 0x0a || line[a]
        == 0x0d)
        invariant
            a <= line@.len(),
            spec_skip_ws(line@, 0) == spec_skip_ws(line@, a as int),
        decreases line@.len() - a,
    {
        a = a + 1;
    }
    assert(a as int == spec_skip_ws(line@, 0));
    let mut b: usize = line.len();
    while b > a && (line[b - 1] == 0x20 || line[b - 1] == 0x09 || line[b - 1] == 0x0a || line[b
        - 1] == 0x0d)
        invariant
            a <= b <= line@.len(),
            spec_rskip_ws(line@, line@.len() as int) == spec_rskip_ws(line@, b as int),
        decreases b,
    {
        b = b - 1;
    }
    proof {
        if b > a {
            assert(spec_rskip_ws(line@, b as int) == b as int);
        } else {
            assert(b == a);
            if spec_rskip_ws(line@, b as int) != b as int {
                lemma_rskip_ws_bounds(line@, b as int);
            }
        }
    }
    let ghost t = trim_bytes(line@);
    proof {
        if spec_rskip_ws(line@, line@.len() as int) < a as int {
            lemma_rskip_ws_ge_skip_ws(line@);
        }
        assert(t =~= line@.subrange(a as int, b as int));
    }
    let name: &[u8] = "Content-Length:".as_bytes();
    if b - a < name.len() {
        assert(t.len() < encode_utf8("Content-Length:"@).len());
        return HeaderLine::NotLength;
    }
    let mut k: usize = 0;
    while k < name.len()
        invariant
            k <= name@.len(),
            name@ == encode_utf8("Content-Length:"@),
            a + name@.len() <= b <= line@.len(),
            t == line@.subrange(a as int, b as int),
            forall|u: int| 0 <= u < k ==> t[u] == name@[u],
        decreases name@.len() - k,
    {
        if line[a + k] != name[k] {
            assert(t[k as int] != name@[k as int]);
            assert(t.take(name@.len() as int) != name@) by {
                assert(t.take(name@.len() as int)[k as int] != name@[k as int]);
            }
            return HeaderLine::NotLength;
        }
        assert(t[k as int] == name@[k as int]);
        k = k + 1;
    }
    assert(t.take(name@.len() as int) =~= name@);
    // the value: digits after the header name, whitespace trimmed
    let ghost rest = t.skip(name@.len() as int);
    let mut a2: usize = a + name.len();
    while a2 < b && (line[a2] == 0x20 || line[a2] == 0x09 || line[a2] == 0x0a || line[a2] == 0x0d)
        invariant
            a + name@.len() <= a2 <= b,
            b <= line@.len(),
            t == line@.subrange(a as int, b as int),
            rest == t.skip(name@.len() as int),
            spec_skip_ws(rest, 0) == spec_skip_ws(rest, a2 - a - name@.len()),
        decreases b - a2,
    {
        proof {
            assert(rest[a2 - a - name@.len()] == line@[a2 as int]);
        }
        a2 = a2 + 1;
    }
    proof {
        if a2 < b {
            assert(rest[a2 - a - name@.len()] == line@[a2 as int]);
        }
        assert(spec_skip_ws(rest, 0) == a2 - a - name@.len());
    }
    let ghost v = trim_bytes(rest);
    proof {
        // the rest has no trailing whitespace: the whole line's trim removed it
        assert(spec_rskip_ws(rest, rest.len() as int) == rest.len()) by {
            if rest.len() > 0 {
                assert(rest[rest.len() - 1] == t[t.len() - 1]);
                assert(t[t.len() - 1] == line@[b - 1]);
                if b as int == spec_rskip_ws(line@, line@.len() as int) {
                    lemma_rskip_no_ws_before(line@, line@.len() as int);
                }
            }
        }
        assert(v =~= rest.subrange(spec_skip_ws(rest, 0), rest.len() as int));
        assert(v =~= line@.subrange(a2 as int, b as int));
    }
    if a2 == b {
        assert(v.len() == 0);
        return HeaderLine::BadLength;
    }
    if b - a2 > 19 {
        return HeaderLine::BadLength;
    }
    let mut value: u64 = 0;
    let mut p: usize = a2;
    while p < b
        invariant
            a2 <= p <= b <= line@.len(),
            b - a2 <= 19,
            v == line@.subrange(a2 as int, b as int),
            forall|u: int| a2 <= u < p ==> is_digit(#[trigger] line@[u]),
            value as int == digits_value(v, 0, p - a2),
            value < pow10((p - a2) as nat),
        decreases b - p,
    {
        let d = line[p];
        if !(0x30 <= d && d <= 0x39) {
            assert(v[p - a2] == line@[p as int]);
            assert(!is_digit(v[p - a2]));
            return HeaderLine::BadLength;
        }
        proof {
            lemma_pow10_mono(((p - a2) as nat), 18nat);
            assert(pow10(18) == 1000000000000000000int) by {
                reveal_with_fuel(pow10, 19);
            }
            assert(v[p - a2] == line@[p as int]);
            assert(digits_value(v, 0, p + 1 - a2) == digits_value(v, 0, p - a2) * 10 + (v[p - a2]
                - 0x30));
        }
        value = value * 10 + ((d - 0x30) as u64);
        p = p + 1;
    }
    if value > usize::MAX as u64 {
        return HeaderLine::BadLength;
    }
    proof {
        assert(forall|k2: int| 0 <= k2 < v.len() ==> is_digit(#[trigger] v[k2]));
    }
    HeaderLine::Length(value as usize)
}

proof fn lemma_rskip_ws_bounds(s: Seq<u8>, j: int)
    requires
        0 <= j <= s.len(),
    ensures
        0 <= spec_rskip_ws(s, j) <= j,
    decreases j,
{
    if 0 < j && is_ws(s[j - 1]) {
        lemma_rskip_ws_bounds(s, j - 1);
    }
}

/// Trimming from the right never passes the leading whitespace run: the
/// byte right before the left-trim point, if any, is whitespace, so a right
/// scan stops at or after it.
proof fn lemma_rskip_ws_ge_skip_ws(s: Seq<u8>)
    ensures
        spec_rskip_ws(s, s.len() as int) >= spec_skip_ws(s, 0) || spec_rskip_ws(
            s,
            s.len() as int,
        ) == 0,
    decreases s.len(),
{
    lemma_skip_ws_prefix(s, 0);
    lemma_rskip_stops(s, s.len() as int, spec_skip_ws(s, 0));
}

/// Everything before the left-trim point is whitespace.
proof fn lemma_skip_ws_prefix(s: Seq<u8>, i: int)
    requires
        0 <= i <= s.len(),
    ensures
        forall|t: int| i <= t < spec_skip_ws(s, i) ==> is_ws(#[trigger] s[t]),
        i <= spec_skip_ws(s, i) <= s.len(),
    decreases s.len() - i,
{
    if i < s.len() && is_ws(s[i]) {
        lemma_skip_ws_prefix(s, i + 1);
    }
}

proof fn lemma_rskip_stops(s: Seq<u8>, j: int, a: int)
    requires
        0 <= j <= s.len(),
        0 <= a,
        forall|t: int| 0 <= t < a ==> is_ws(#[trigger] s[t]),
    ensures
        spec_rskip_ws(s, j) >= a || spec_rskip_ws(s, j) == 0,
    decreases j,
{
    if 0 < j && is_ws(s[j - 1]) {
        lemma_rskip_stops(s, j - 1, a);
    } else {
        if j < a {
        }
    }
}

/// Nothing before the right-trim point down to any earlier position is
/// whitespace at the boundary: the byte right before the stop is not
/// whitespace (when the stop is positive).
proof fn lemma_rskip_no_ws_before(s: Seq<u8>, j: int)
    requires
        0 <= j <= s.len(),
    ensures
        spec_rskip_ws(s, j) > 0 ==> !is_ws(s[spec_rskip_ws(s, j) - 1]),
    decreases j,
{
    if 0 < j && is_ws(s[j - 1]) {
        lemma_rskip_no_ws_before(s, j - 1);
    }
}

/// Reads one frame from the start of the buffer.
#[verifier::loop_isolation(false)]
#[verifier::rlimit(100)]
pub fn read_frame(buf: &[u8]) -> (r: FrameRead)
    ensures
        match (r, spec_read_frame(buf@)) {
            (FrameRead::Incomplete, FrameReadV::Incomplete) => true,
            (FrameRead::Malformed, FrameReadV::Malformed) => true,
            (FrameRead::Frame { body, consumed }, FrameReadV::Frame {
                body: sbody,
                consumed: sconsumed,
            }) => body@ == sbody && consumed as int == sconsumed,
            _ => false,
        },
{
    let mut i: usize = 0;
    let mut clen: Option<usize> = None;
    loop
        invariant
            i <= buf@.len(),
            spec_scan_headers(buf@, 0, None) == spec_scan_headers(
                buf@,
                i as int,
                match clen {
                    Some(n) => Some(n as int),
                    None => None,
                },
            ),
        decreases buf@.len() - i,
    {
        // find the end of the current line
        let mut e: usize = i;
        while e < buf.len() && buf[e] != 0x0a
            invariant
                i <= e <= buf@.len(),
                spec_find_newline_end(buf@, i as int) == spec_find_newline_end(buf@, e as int),
            decreases buf@.len() - e,
        {
            e = e + 1;
        }
        if e >= buf.len() {
            assert(spec_find_newline_end(buf@, i as int) is None);
            return FrameRead::Incomplete;
        }
        assert(spec_find_newline_end(buf@, i as int) == Some(e + 1int));
        let le = e + 1;
        let ghost line = buf@.subrange(i as int, le as int);
        if le - i == 1 || (le - i == 2 && buf[i] == 0x0d) {
            // blank line: headers end here
            let n = match clen {
                Some(n) => n,
                None => {
                    return FrameRead::Malformed;
                },
            };
            if buf.len() - le < n {
                return FrameRead::Incomplete;
            }
            let mut body: Vec<u8> = Vec::new();
            let mut t: usize = le;
            while t < le + n
                invariant
                    le <= t <= le + n,
                    le + n <= buf@.len(),
                    body@ == buf@.subrange(le as int, t as int),
                decreases le + n - t,
            {
                body.push(buf[t]);
                assert(body@ =~= buf@.subrange(le as int, t as int + 1));
                t = t + 1;
            }
            return FrameRead::Frame { body, consumed: le + n };
        }
        // an ordinary header line
        let mut line_vec: Vec<u8> = Vec::new();
        let mut t: usize = i;
        while t < le
            invariant
                i <= t <= le <= buf@.len(),
                line_vec@ == buf@.subrange(i as int, t as int),
            decreases le - t,
        {
            line_vec.push(buf[t]);
            assert(line_vec@ =~= buf@.subrange(i as int, t as int + 1));
            t = t + 1;
        }
        assert(line_vec@ == line);
        match classify_header_line(line_vec.as_slice()) {
            HeaderLine::NotLength => {
            },
            HeaderLine::BadLength => {
                return FrameRead::Malformed;
            },
            HeaderLine::Length(n) => {
                clen = Some(n);
            },
        }
        i = le;
    }
}

// ---------------------------------------------------------------------------
// JSON-RPC messages
// ---------------------------------------------------------------------------
/// A request the broker sends: it expects a correlated response.
pub struct Request {
    pub id: u64,
    pub method: String,
    pub params: Option<Json>,
}

/// Model of a request.
pub struct RequestV {
    pub id: u64,
    pub method: Seq<char>,
    pub params: Option<JsonV>,
}

/// Model of an optional JSON value.
pub open spec fn opt_json_view(o: Option<Json>) -> Option<JsonV> {
    match o {
        Some(j) => Some(j.model()),
        None => None,
    }
}

impl View for Request {
    type V = RequestV;

    open spec fn view(&self) -> RequestV {
        RequestV { id: self.id, method: self.method@, params: opt_json_view(self.params) }
    }
}

/// A notification the broker sends: no response will come.
pub struct Notification {
    pub method: String,
    pub params: Option<Json>,
}

/// Model of a notification.
pub struct NotificationV {
    pub method: Seq<char>,
    pub params: Option<JsonV>,
}

impl View for Notification {
    type V = NotificationV;

    open spec fn view(&self) -> NotificationV {
        NotificationV { method: self.method@, params: opt_json_view(self.params) }
    }
}

/// JSON form of a request: version, id, method, and the params when there
/// are any.
pub open spec fn spec_encode_request(r: RequestV) -> JsonV {
    JsonV::Obj(
        seq![
            ("jsonrpc"@, JsonV::Str("2.0"@)),
            ("id"@, JsonV::Int(r.id as int)),
            ("method"@, JsonV::Str(r.method)),
        ] + match r.params {
            Some(p) => seq![("params"@, p)],
            None => Seq::empty(),
        },
    )
}

/// JSON form of a notification: as a request, but with no id.
pub open spec fn spec_encode_notification(n: NotificationV) -> JsonV {
    JsonV::Obj(
        seq![("jsonrpc"@, JsonV::Str("2.0"@)), ("method"@, JsonV::Str(n.method))] + match n.params {
            Some(p) => seq![("params"@, p)],
            None => Seq::empty(),
        },
    )
}

impl Request {
    /// A request for the given call, under the given correlation id.
    pub fn new(id: u64, method: String, params: Option<Json>) -> (r: Request)
        ensures
            r@ == (RequestV { id, method: method@, params: opt_json_view(params) }),
    {
        Request { id, method, params }
    }

    /// This request's JSON form. Ids stay within the signed range the wire's
    /// integers carry.
    pub fn to_json(self) -> (j: Json)
        requires
            self.id <= 0x7fff_ffff_ffff_ffff,
        ensures
            j.model() == spec_encode_request(self@),
    {
        let ghost m = self@;
        let mut fields: Vec<(String, Json)> = vec![
            (String::from_str("jsonrpc"), Json::Str(String::from_str("2.0"))),
            (String::from_str("id"), Json::Int(self.id as i64)),
            (String::from_str("method"), Json::Str(self.method)),
        ];
        match self.params {
            Some(p) => {
                fields.push((String::from_str("params"), p));
            },
            None => {},
        }
        proof {
            lemma_model_fields_index(fields@);
            assert(model_fields(fields@) =~= spec_encode_request(m)->Obj_0);
        }
        Json::Obj(fields)
    }

    /// The framed wire bytes of this request.
    pub fn to_frame(self) -> (out: Vec<u8>)
        requires
            self.id <= 0x7fff_ffff_ffff_ffff,
        ensures
            out@ == spec_frame(spec_write(spec_encode_request(self@))),
    {
        let j = self.to_json();
        let body = write_json(&j);
        write_message(body.as_slice())
    }
}

impl Notification {
    /// A notification for the given call.
    pub fn new(method: String, params: Option<Json>) -> (r: Notification)
        ensures
            r@ == (NotificationV { method: method@, params: opt_json_view(params) }),
    {
        Notification { method, params }
    }

    /// This notification's JSON form.
    pub fn to_json(self) -> (j: Json)
        ensures
            j.model() == spec_encode_notification(self@),
    {
        let ghost m = self@;
        let mut fields: Vec<(String, Json)> = vec![
            (String::from_str("jsonrpc"), Json::Str(String::from_str("2.0"))),
            (String::from_str("method"), Json::Str(self.method)),
        ];
        match self.params {
            Some(p) => {
                fields.push((String::from_str("params"), p));
            },
            None => {},
        }
        proof {
            lemma_model_fields_index(fields@);
            assert(model_fields(fields@) =~= spec_encode_notification(m)->Obj_0);
        }
        Json::Obj(fields)
    }

    /// The framed wire bytes of this notification.
    pub fn to_frame(self) -> (out: Vec<u8>)
        ensures
            out@ == spec_frame(spec_write(spec_encode_notification(self@))),
    {
        let j = self.to_json();
        let body = write_json(&j);
        write_message(body.as_slice())
    }
}

/// The error member of a failed response.
pub struct ResponseError {
    pub code: i32,
    pub message: String,
    pub data: Option<Json>,
}

/// Model of a response error.
pub struct ResponseErrorV {
    pub code: i32,
    pub message: Seq<char>,
    pub data: Option<JsonV>,
}

impl View for ResponseError {
    type V = ResponseErrorV;

    open spec fn view(&self) -> ResponseErrorV {
        ResponseErrorV { code: self.code, message: self.message@, data: opt_json_view(self.data) }
    }
}

/// A response to one of the broker's requests.
pub struct Response {
    pub jsonrpc: String,
    pub id: Option<u64>,
    pub result: Option<Json>,
    pub error: Option<ResponseError>,
}

/// A message arriving from the server: a response, a notification, or a
/// server-initiated request, told apart by which members are present.
pub struct IncomingMessage {
    pub jsonrpc: String,
    pub id: Option<u64>,
    pub method: Option<String>,
    pub params: Option<Json>,
    pub result: Option<Json>,
    pub error: Option<ResponseError>,
}

/// Model of an incoming message.
pub struct IncomingMessageV {
    pub jsonrpc: Seq<char>,
    pub id: Option<u64>,
    pub method: Option<Seq<char>>,
    pub params: Option<JsonV>,
    pub result: Option<JsonV>,
    pub error: Option<ResponseErrorV>,
}

/// Model of an optional string.
pub open spec fn opt_string_view(o: Option<String>) -> Option<Seq<char>> {
    match o {
        Some(s) => Some(s@),
        None => None,
    }
}

/// Model of an optional error.
pub open spec fn opt_error_view(o: Option<ResponseError>) -> Option<ResponseErrorV> {
    match o {
        Some(e) => Some(e@),
        None => None,
    }
}

impl View for IncomingMessage {
    type V = IncomingMessageV;

    open spec fn view(&self) -> IncomingMessageV {
        IncomingMessageV {
            jsonrpc: self.jsonrpc@,
            id: self.id,
            method: opt_string_view(self.method),
            params: opt_json_view(self.params),
            result: opt_json_view(self.result),
            error: opt_error_view(self.error),
        }
    }
}

/// Model of a response.
pub struct ResponseV {
    pub jsonrpc: Seq<char>,
    pub id: Option<u64>,
    pub result: Option<JsonV>,
    pub error: Option<ResponseErrorV>,
}

impl View for Response {
    type V = ResponseV;

    open spec fn view(&self) -> ResponseV {
        ResponseV {
            jsonrpc: self.jsonrpc@,
            id: self.id,
            result: opt_json_view(self.result),
            error: opt_error_view(self.error),
        }
    }
}

/// An optional id member: a non-negative integer, null, or absent.
pub open spec fn field_opt_u64(fields: Seq<(Seq<char>, JsonV)>, key: Seq<char>) -> Option<
    Option<u64>,
> {
    match obj_lookup(fields, key) {
        Some(JsonV::Int(n)) => if 0 <= n <= 0x7fff_ffff_ffff_ffff {
            Some(Some(n as u64))
        } else {
            None
        },
        Some(JsonV::Null) => Some(None),
        None => Some(None),
        _ => None,
    }
}

/// A required 32-bit signed member.
pub open spec fn field_i32(fields: Seq<(Seq<char>, JsonV)>, key: Seq<char>) -> Option<i32> {
    match obj_lookup(fields, key) {
        Some(JsonV::Int(n)) => if i32::MIN <= n <= i32::MAX {
            Some(n as i32)
        } else {
            None
        },
        _ => None,
    }
}

/// An optional member carried through verbatim: null and absence read as
/// none.
pub open spec fn field_opt_json(fields: Seq<(Seq<char>, JsonV)>, key: Seq<char>) -> Option<JsonV> {
    match obj_lookup(fields, key) {
        Some(JsonV::Null) => None,
        Some(v) => Some(v),
        None => None,
    }
}

/// Reads a response error object.
pub open spec fn spec_decode_error(v: JsonV) -> Option<ResponseErrorV> {
    match v {
        JsonV::Obj(p) => match (field_i32(p, "code"@), field_str(p, "message"@)) {
            (Some(code), Some(message)) => Some(
                ResponseErrorV { code, message, data: field_opt_json(p, "data"@) },
            ),
            _ => None,
        },
        _ => None,
    }
}

/// Reads one message from the server: the version string must be present,
/// every other member may be absent.
pub open spec fn spec_decode_incoming(v: JsonV) -> Option<IncomingMessageV> {
    match v {
        JsonV::Obj(fields) => match (field_str(fields, "jsonrpc"@), field_opt_u64(
            fields,
            "id"@,
        ), field_opt_str(fields, "method"@)) {
            (Some(jsonrpc), Some(id), Some(method)) => {
                match obj_lookup(fields, "error"@) {
                    Some(JsonV::Null) => Some(
                        IncomingMessageV {
                            jsonrpc,
                            id,
                            method,
                            params: field_opt_json(fields, "params"@),
                            result: field_opt_json(fields, "result"@),
                            error: None,
                        },
                    ),
                    Some(e) => match spec_decode_error(e) {
                        Some(err) => Some(
                            IncomingMessageV {
                                jsonrpc,
                                id,
                                method,
                                params: field_opt_json(fields, "params"@),
                                result: field_opt_json(fields, "result"@),
                                error: Some(err),
                            },
                        ),
                        None => None,
                    },
                    None => Some(
                        IncomingMessageV {
                            jsonrpc,
                            id,
                            method,
                            params: field_opt_json(fields, "params"@),
                            result: field_opt_json(fields, "result"@),
                            error: None,
                        },
                    ),
                }
            },
            _ => None,
        },
        _ => None,
    }
}

/// An optional member, copied out.
pub(crate) fn get_opt_json(fields: &Vec<(String, Json)>, key: &String) -> (r: Option<Json>)
    ensures
        opt_json_view(r) == field_opt_json(model_fields(fields@), key@),
{
    match obj_get(fields, key) {
        Some(Json::Null) => None,
        Some(v) => Some(v.duplicate()),
        None => None,
    }
}

/// An optional id member.
fn get_opt_u64(fields: &Vec<(String, Json)>, key: &String) -> (r: Option<Option<u64>>)
    ensures
        match r {
            Some(o) => field_opt_u64(model_fields(fields@), key@) == Some(o),
            None => field_opt_u64(model_fields(fields@), key@) is None,
        },
{
    match obj_get(fields, key) {
        Some(Json::Int(n)) => {
            if 0 <= *n {
                Some(Some(*n as u64))
            } else {
                None
            }
        },
        Some(Json::Null) => Some(None),
        None => Some(None),
        _ => None,
    }
}

/// A required 32-bit signed member.
fn get_i32(fields: &Vec<(String, Json)>, key: &String) -> (r: Option<i32>)
    ensures
        match r {
            Some(n) => field_i32(model_fields(fields@), key@) == Some(n),
            None => field_i32(model_fields(fields@), key@) is None,
        },
{
    match obj_get(fields, key) {
        Some(Json::Int(n)) => {
            if -0x8000_0000i64 <= *n && *n <= 0x7fff_ffffi64 {
                Some(*n as i32)
            } else {
                None
            }
        },
        _ => None,
    }
}

impl ResponseError {
    /// Reads a response error object.
    pub fn from_json(j: &Json) -> (r: Option<ResponseError>)
        ensures
            match r {
                Some(e) => spec_decode_error(j.model()) == Some(e@),
                None => spec_decode_error(j.model()) is None,
            },
    {
        match j {
            Json::Obj(p) => {
                let code = get_i32(p, &String::from_str("code"));
                let message = get_str(p, &String::from_str("message"));
                match (code, message) {
                    (Some(code), Some(message)) => Some(
                        ResponseError { code, message, data: get_opt_json(p, &String::from_str("data")) },
                    ),
                    _ => None,
                }
            },
            _ => None,
        }
    }
}

impl IncomingMessage {
    /// Reads one message from the server.
    pub fn from_json(j: &Json) -> (r: Option<IncomingMessage>)
        ensures
            match r {
                Some(m) => spec_decode_incoming(j.model()) == Some(m@),
                None => spec_decode_incoming(j.model()) is None,
            },
    {
        let fields = match j {
            Json::Obj(fields) => fields,
            _ => {
                return None;
            },
        };
        let jsonrpc = match get_str(fields, &String::from_str("jsonrpc")) {
            Some(s) => s,
            None => {
                return None;
            },
        };
        let id = match get_opt_u64(fields, &String::from_str("id")) {
            Some(o) => o,
            None => {
                return None;
            },
        };
        let method = match get_opt_str(fields, &String::from_str("method")) {
            Some(o) => o,
            None => {
                return None;
            },
        };
        let error: Option<ResponseError> = match obj_get(fields, &String::from_str("error")) {
            Some(Json::Null) => None,
            Some(e) => match ResponseError::from_json(e) {
                Some(err) => Some(err),
                None => {
                    return None;
                },
            },
            None => None,
        };
        Some(
            IncomingMessage {
                jsonrpc,
                id,
                method,
                params: get_opt_json(fields, &String::from_str("params")),
                result: get_opt_json(fields, &String::from_str("result")),
                error,
            },
        )
    }

    /// Whether this is a response: it carries an id and no method.
    pub fn is_response(&self) -> (r: bool)
        ensures
            r == (self@.id is Some && self@.method is None),
    {
        self.id.is_some() && self.method.is_none()
    }

    /// Whether this is a notification: it carries a method and no id.
    pub fn is_notification(&self) -> (r: bool)
        ensures
            r == (self@.method is Some && self@.id is None),
    {
        self.method.is_some() && self.id.is_none()
    }

    /// This message as a response, when it is one.
    pub fn into_response(self) -> (r: Option<Response>)
        ensures
            match r {
                Some(resp) => self@.id is Some && self@.method is None && resp@ == (ResponseV {
                    jsonrpc: self@.jsonrpc,
                    id: self@.id,
                    result: self@.result,
                    error: self@.error,
                }),
                None => !(self@.id is Some && self@.method is None),
            },
    {
        if self.id.is_some() && self.method.is_none() {
            Some(
                Response {
                    jsonrpc: self.jsonrpc,
                    id: self.id,
                    result: self.result,
                    error: self.error,
                },
            )
        } else {
            None
        }
    }
}

} // verus!
