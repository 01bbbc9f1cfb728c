//! JSON values restricted to integer numbers, with a byte-level writer and
//! parser proved inverse to each other on written output.

use vstd::prelude::*;
use vstd::utf8::*;

verus! {

broadcast use vstd::std_specs::vec::axiom_vec_index_decreases, vstd::std_specs::vec::axiom_vec_decreases_to_view, vstd::seq::axiom_seq_index_decreases, vstd::seq::axiom_seq_subrange_decreases;

/// An executable JSON value. Numbers are 64-bit integers: every quantity on
/// the daemon and language-server wires is integral.
#[derive(Debug)]
pub enum Json {
    Null,
    Bool(bool),
    Int(i64),
    Str(String),
    Arr(Vec<Json>),
    Obj(Vec<(String, Json)>),
}

/// The mathematical model of a JSON value.
pub enum JsonV {
    Null,
    Bool(bool),
    Int(int),
    Str(Seq<char>),
    Arr(Seq<JsonV>),
    Obj(Seq<(Seq<char>, JsonV)>),
}

impl Json {
    /// The model of this value: every field abstracted to its view.
    pub open spec fn model(self) -> JsonV
        decreases self,
    {
        match self {
            Json::Null => JsonV::Null,
            Json::Bool(b) => JsonV::Bool(b),
            Json::Int(n) => JsonV::Int(n as int),
            Json::Str(s) => JsonV::Str(s@),
            Json::Arr(items) => JsonV::Arr(model_items(items@)),
            Json::Obj(fields) => JsonV::Obj(model_fields(fields@)),
        }
    }
}

/// The models of a sequence of values, in order.
pub open spec fn model_items(items: Seq<Json>) -> Seq<JsonV>
    decreases items,
{
    if items.len() == 0 {
        Seq::empty()
    } else {
        model_items(items.drop_last()).push(items.last().model())
    }
}

/// The models of a sequence of object fields, in order.
pub open spec fn model_fields(fields: Seq<(String, Json)>) -> Seq<(Seq<char>, JsonV)>
    decreases fields,
{
    if fields.len() == 0 {
        Seq::empty()
    } else {
        model_fields(fields.drop_last()).push((fields.last().0@, fields.last().1.model()))
    }
}

pub proof fn lemma_model_items_index(items: Seq<Json>)
    ensures
        model_items(items).len() == items.len(),
        forall|i: int| 0 <= i < items.len() ==> model_items(items)[i] == items[i].model(),
    decreases items.len(),
{
    if items.len() > 0 {
        lemma_model_items_index(items.drop_last());
    }
}

pub proof fn lemma_model_fields_index(fields: Seq<(String, Json)>)
    ensures
        model_fields(fields).len() == fields.len(),
        forall|i: int| 0 <= i < fields.len() ==> model_fields(fields)[i] == (
            fields[i].0@,
            fields[i].1.model(),
        ),
    decreases fields.len(),
{
    if fields.len() > 0 {
        lemma_model_fields_index(fields.drop_last());
    }
}

/// A well-formed model value: every number fits in 64 signed bits, as every
/// executable value's model does.
pub open spec fn wf_json(v: JsonV) -> bool
    decreases v,
{
    match v {
        JsonV::Null => true,
        JsonV::Bool(_) => true,
        JsonV::Int(n) => i64::MIN <= n <= i64::MAX,
        JsonV::Str(_) => true,
        JsonV::Arr(items) => forall|i: int| 0 <= i < items.len() ==> wf_json(#[trigger] items[i]),
        JsonV::Obj(fields) => forall|i: int|
            0 <= i < fields.len() ==> wf_json(#[trigger] fields[i].1),
    }
}

pub proof fn lemma_model_wf(j: Json)
    ensures
        wf_json(j.model()),
    decreases j,
{
    match j {
        Json::Arr(items) => {
            lemma_model_items_index(items@);
            assert forall|i: int| 0 <= i < items@.len() implies wf_json(
                #[trigger] model_items(items@)[i],
            ) by {
                lemma_model_wf(items@[i]);
            }
        },
        Json::Obj(fields) => {
            lemma_model_fields_index(fields@);
            assert forall|i: int| 0 <= i < fields@.len() implies wf_json(
                #[trigger] model_fields(fields@)[i].1,
            ) by {
                lemma_model_wf(fields@[i].1);
            }
        },
        _ => {},
    }
}

// ---------------------------------------------------------------------------
// Writing
// ---------------------------------------------------------------------------
/// Decimal digits of `n`, most significant first.
pub open spec fn dec_digits(n: nat) -> Seq<u8>
    decreases n,
{
    if n < 10 {
        seq![(0x30 + n) as u8]
    } else {
        dec_digits(n / 10).push((0x30 + n % 10) as u8)
    }
}

/// The written form of an integer: an optional minus sign and decimal digits.
pub open spec fn spec_write_int(n: int) -> Seq<u8> {
    if n < 0 {
        seq![0x2du8] + dec_digits((-n) as nat)
    } else {
        dec_digits(n as nat)
    }
}

/// Hexadecimal digit for a value below 16, lower case.
pub open spec fn hex_digit(v: u8) -> u8 {
    if v < 10 {
        (0x30 + v) as u8
    } else {
        (0x57 + v) as u8
    }
}

/// The escape sequence a byte is written as inside a string literal. Quotes,
/// backslashes and control bytes are escaped; everything else stands as is.
pub open spec fn escape_byte(b: u8) -> Seq<u8> {
    if b == 0x22 {
        seq![0x5cu8, 0x22u8]
    } else if b == 0x5c {
        seq![0x5cu8, 0x5cu8]
    } else if b == 0x08 {
        seq![0x5cu8, 0x62u8]
    } else if b == 0x0c {
        seq![0x5cu8, 0x66u8]
    } else if b == 0x0a {
        seq![0x5cu8, 0x6eu8]
    } else if b == 0x0d {
        seq![0x5cu8, 0x72u8]
    } else if b == 0x09 {
        seq![0x5cu8, 0x74u8]
    } else if b < 0x20 {
        seq![0x5cu8, 0x75u8, 0x30u8, 0x30u8, hex_digit(b / 16), hex_digit(b % 16)]
    } else {
        seq![b]
    }
}

/// Escaped form of a whole byte sequence.
pub open spec fn escape_bytes(s: Seq<u8>) -> Seq<u8>
    decreases s,
{
    if s.len() == 0 {
        Seq::empty()
    } else {
        escape_byte(s.first()) + escape_bytes(s.drop_first())
    }
}

pub proof fn lemma_escape_bytes_snoc(s: Seq<u8>, b: u8)
    ensures
        escape_bytes(s.push(b)) == escape_bytes(s) + escape_byte(b),
    decreases s.len(),
{
    if s.len() == 0 {
        assert(s.push(b).len() == 1);
        assert(s.push(b).first() == b);
        assert(s.push(b).drop_first() =~= Seq::<u8>::empty());
        assert(escape_bytes(s.push(b)) =~= escape_byte(b) + escape_bytes(Seq::<u8>::empty()));
        assert(escape_byte(b) + escape_bytes(Seq::<u8>::empty()) =~= escape_byte(b));
        assert(escape_bytes(s) + escape_byte(b) =~= escape_byte(b));
    } else {
        assert(s.push(b).drop_first() =~= s.drop_first().push(b));
        lemma_escape_bytes_snoc(s.drop_first(), b);
        assert(escape_bytes(s.push(b)) =~= escape_bytes(s) + escape_byte(b));
    }
}

/// The written form of a string: quotes around the escaped UTF-8 encoding.
pub open spec fn spec_write_string(s: Seq<char>) -> Seq<u8> {
    seq![0x22u8] + escape_bytes(encode_utf8(s)) + seq![0x22u8]
}

/// The written form of a JSON value: no whitespace, fields in stored order.
pub open spec fn spec_write(v: JsonV) -> Seq<u8>
    decreases v,
{
    match v {
        JsonV::Null => seq![0x6eu8, 0x75u8, 0x6cu8, 0x6cu8],
        JsonV::Bool(b) => if b {
            seq![0x74u8, 0x72u8, 0x75u8, 0x65u8]
        } else {
            seq![0x66u8, 0x61u8, 0x6cu8, 0x73u8, 0x65u8]
        },
        JsonV::Int(n) => spec_write_int(n),
        JsonV::Str(s) => spec_write_string(s),
        JsonV::Arr(items) => seq![0x5bu8] + spec_write_items(items) + seq![0x5du8],
        JsonV::Obj(fields) => seq![0x7bu8] + spec_write_fields(fields) + seq![0x7du8],
    }
}

/// Comma-separated written items of an array.
pub open spec fn spec_write_items(items: Seq<JsonV>) -> Seq<u8>
    decreases items,
{
    if items.len() == 0 {
        Seq::empty()
    } else if items.len() == 1 {
        spec_write(items[0])
    } else {
        spec_write_items(items.drop_last()) + seq![0x2cu8] + spec_write(items.last())
    }
}

/// Comma-separated written fields of an object: quoted key, colon, value.
pub open spec fn spec_write_fields(fields: Seq<(Seq<char>, JsonV)>) -> Seq<u8>
    decreases fields,
{
    if fields.len() == 0 {
        Seq::empty()
    } else if fields.len() == 1 {
        spec_write_field(fields[0])
    } else {
        spec_write_fields(fields.drop_last()) + seq![0x2cu8] + spec_write_field(fields.last())
    }
}

/// One written object field.
pub open spec fn spec_write_field(field: (Seq<char>, JsonV)) -> Seq<u8>
    decreases field,
{
    spec_write_string(field.0) + seq![0x3au8] + spec_write(field.1)
}

/// Pushes the decimal digits of `n`, most significant first.
pub(crate) fn push_digits(n: u64, out: &mut Vec<u8>)
    ensures
        final(out)@ == old(out)@ + dec_digits(n as nat),
    decreases n,
{
    if n < 10 {
        out.push(0x30 + n as u8);
    } else {
        push_digits(n / 10, out);
        out.push(0x30 + (n % 10) as u8);
    }
    assert(out@ =~= old(out)@ + dec_digits(n as nat));
}

/// Pushes the written form of an integer.
fn push_int(n: i64, out: &mut Vec<u8>)
    ensures
        final(out)@ == old(out)@ + spec_write_int(n as int),
{
    if n < 0 {
        out.push(0x2d);
        let mag: u64 = if n == i64::MIN {
            0x8000_0000_0000_0000u64
        } else {
            (-n) as u64
        };
        assert(mag as nat == (-(n as int)) as nat);
        push_digits(mag, out);
        assert(out@ =~= old(out)@ + spec_write_int(n as int));
    } else {
        push_digits(n as u64, out);
    }
}

/// Pushes the escaped, quoted form of a string.
fn push_string(s: &str, out: &mut Vec<u8>)
    ensures
        final(out)@ == old(out)@ + spec_write_string(s@),
{
    out.push(0x22);
    let bytes: &[u8] = s.as_bytes();
    let ghost all = bytes@;
    let mut k: usize = 0;
    while k < bytes.len()
        invariant
            k <= bytes.len(),
            bytes@ == all,
            out@ == old(out)@ + seq![0x22u8] + escape_bytes(all.take(k as int)),
        decreases bytes.len() - k,
    {
        let b = bytes[k];
        proof {
            lemma_escape_bytes_snoc(all.take(k as int), b);
            assert(all.take(k as int).push(b) =~= all.take(k as int + 1));
        }
        if b == 0x22 {
            out.push(0x5c);
            out.push(0x22);
        } else if b == 0x5c {
            out.push(0x5c);
            out.push(0x5c);
        } else if b == 0x08 {
            out.push(0x5c);
            out.push(0x62);
        } else if b == 0x0c {
            out.push(0x5c);
            out.push(0x66);
        } else if b == 0x0a {
            out.push(0x5c);
            out.push(0x6e);
        } else if b == 0x0d {
            out.push(0x5c);
            out.push(0x72);
        } else if b == 0x09 {
            out.push(0x5c);
            out.push(0x74);
        } else if b < 0x20 {
            out.push(0x5c);
            out.push(0x75);
            out.push(0x30);
            out.push(0x30);
            let hi = b / 16;
            let lo = b % 16;
            out.push(if hi < 10 { 0x30 + hi } else { 0x57 + hi });
            out.push(if lo < 10 { 0x30 + lo } else { 0x57 + lo });
        } else {
            out.push(b);
        }
        assert(out@ =~= old(out)@ + seq![0x22u8] + escape_bytes(all.take(k as int + 1)));
        k = k + 1;
    }
    assert(all.take(bytes@.len() as int) =~= all);
    out.push(0x22);
    assert(out@ =~= old(out)@ + spec_write_string(s@));
}

/// Pushes the written form of a value.
#[verifier::loop_isolation(false)]
fn push_value(j: &Json, out: &mut Vec<u8>)
    ensures
        final(out)@ == old(out)@ + spec_write(j.model()),
    decreases j,
{
    match j {
        Json::Null => {
            out.push(0x6e);
            out.push(0x75);
            out.push(0x6c);
            out.push(0x6c);
            assert(out@ =~= old(out)@ + spec_write(j.model()));
        },
        Json::Bool(b) => {
            if *b {
                out.push(0x74);
                out.push(0x72);
                out.push(0x75);
                out.push(0x65);
            } else {
                out.push(0x66);
                out.push(0x61);
                out.push(0x6c);
                out.push(0x73);
                out.push(0x65);
            }
            assert(out@ =~= old(out)@ + spec_write(j.model()));
        },
        Json::Int(n) => {
            push_int(*n, out);
        },
        Json::Str(s) => {
            push_string(s.as_str(), out);
        },
        Json::Arr(items) => {
            out.push(0x5b);
            let ghost m = model_items(items@);
            proof {
                lemma_model_items_index(items@);
            }
            let mut k: usize = 0;
            while k < items.len()
                invariant
                    k <= items.len(),
                    m == model_items(items@),
                    m.len() == items@.len(),
                    forall|i: int| 0 <= i < items@.len() ==> m[i] == items@[i].model(),
                    out@ == old(out)@ + seq![0x5bu8] + spec_write_items(m.take(k as int)),
                decreases items.len() - k,
            {
                if k > 0 {
                    out.push(0x2c);
                }
                push_value(&items[k], out);
                proof {
                    let pre = m.take(k as int);
                    let post = m.take(k as int + 1);
                    assert(post.drop_last() =~= pre);
                    assert(post.last() == m[k as int]);
                    if k == 0 {
                        assert(post.len() == 1);
                        assert(post[0] == m[0]);
                    }
                    assert(out@ =~= old(out)@ + seq![0x5bu8] + spec_write_items(post));
                }
                k = k + 1;
            }
            assert(m.take(items@.len() as int) =~= m);
            out.push(0x5d);
            assert(out@ =~= old(out)@ + spec_write(j.model()));
        },
        Json::Obj(fields) => {
            out.push(0x7b);
            let ghost m = model_fields(fields@);
            proof {
                lemma_model_fields_index(fields@);
            }
            let mut k: usize = 0;
            while k < fields.len()
                invariant
                    k <= fields.len(),
                    m == model_fields(fields@),
                    m.len() == fields@.len(),
                    forall|i: int| 0 <= i < fields@.len() ==> m[i] == (
                        fields@[i].0@,
                        fields@[i].1.model(),
                    ),
                    out@ == old(out)@ + seq![0x7bu8] + spec_write_fields(m.take(k as int)),
                decreases fields.len() - k,
            {
                if k > 0 {
                    out.push(0x2c);
                }
                push_string(fields[k].0.as_str(), out);
                out.push(0x3a);
                push_value(&fields[k].1, out);
                proof {
                    let pre = m.take(k as int);
                    let post = m.take(k as int + 1);
                    assert(post.drop_last() =~= pre);
                    assert(post.last() == m[k as int]);
                    if k == 0 {
                        assert(post.len() == 1);
                        assert(post[0] == m[0]);
                    }
                    assert(spec_write_field(m[k as int]) =~= spec_write_string(
                        fields@[k as int].0@,
                    ) + seq![0x3au8] + spec_write(fields@[k as int].1.model()));
                    assert(out@ =~= old(out)@ + seq![0x7bu8] + spec_write_fields(post));
                }
                k = k + 1;
            }
            assert(m.take(fields@.len() as int) =~= m);
            out.push(0x7d);
            assert(out@ =~= old(out)@ + spec_write(j.model()));
        },
    }
}

/// Writes a value as compact JSON bytes.
pub fn write_json(j: &Json) -> (out: Vec<u8>)
    ensures
        out@ == spec_write(j.model()),
{
    let mut out: Vec<u8> = Vec::new();
    push_value(j, &mut out);
    out
}

// ---------------------------------------------------------------------------
// Parsing, specification level
// ---------------------------------------------------------------------------
/// JSON insignificant whitespace.
pub open spec fn is_ws(b: u8) -> bool {
    b == 0x20 || b == 0x09 || b == 0x0a || b == 0x0d
}

/// A decimal digit byte.
pub open spec fn is_digit(b: u8) -> bool {
    0x30 <= b <= 0x39
}

/// First position at or after `i` holding no whitespace.
pub open spec fn spec_skip_ws(s: Seq<u8>, i: int) -> int
    decreases s.len() - i,
{
    if 0 <= i < s.len() && is_ws(s[i]) {
        spec_skip_ws(s, i + 1)
    } else {
        i
    }
}

pub proof fn lemma_skip_ws_bounds(s: Seq<u8>, i: int)
    requires
        0 <= i <= s.len(),
    ensures
        i <= spec_skip_ws(s, i) <= s.len(),
        spec_skip_ws(s, i) < s.len() ==> !is_ws(s[spec_skip_ws(s, i)]),
    decreases s.len() - i,
{
    if i < s.len() && is_ws(s[i]) {
        lemma_skip_ws_bounds(s, i + 1);
    }
}

/// First position at or after `i` holding no digit.
pub open spec fn digit_run_end(s: Seq<u8>, i: int) -> int
    decreases s.len() - i,
{
    if 0 <= i < s.len() && is_digit(s[i]) {
        digit_run_end(s, i + 1)
    } else {
        i
    }
}

pub proof fn lemma_digit_run_bounds(s: Seq<u8>, i: int)
    requires
        0 <= i <= s.len(),
    ensures
        i <= digit_run_end(s, i) <= s.len(),
        forall|k: int| i <= k < digit_run_end(s, i) ==> is_digit(#[trigger] s[k]),
        digit_run_end(s, i) < s.len() ==> !is_digit(s[digit_run_end(s, i)]),
    decreases s.len() - i,
{
    if i < s.len() && is_digit(s[i]) {
        lemma_digit_run_bounds(s, i + 1);
    }
}

/// Value of the digits of `s` between `i` and `j`, most significant first.
pub open spec fn digits_value(s: Seq<u8>, i: int, j: int) -> int
    decreases j - i,
{
    if i < j {
        digits_value(s, i, j - 1) * 10 + (s[j - 1] - 0x30)
    } else {
        0
    }
}

/// Parses an integer at `i`: an optional minus sign and a digit run, which
/// must not be followed by a fraction or exponent and must fit in an `i64`.
/// A run of more than 19 digits is rejected; every value in range has at
/// most 19.
pub open spec fn spec_parse_int(s: Seq<u8>, i: int) -> Option<(JsonV, int)> {
    let neg = 0 <= i < s.len() && s[i] == 0x2d;
    let d0: int = if neg {
        i + 1
    } else {
        i
    };
    let j = digit_run_end(s, d0);
    if j == d0 {
        None
    } else if j - d0 > 19 {
        None
    } else if j < s.len() && (s[j] == 0x2e || s[j] == 0x65 || s[j] == 0x45) {
        None
    } else {
        let mag = digits_value(s, d0, j);
        let n: int = if neg {
            -mag
        } else {
            mag
        };
        if i64::MIN <= n <= i64::MAX {
            Some((JsonV::Int(n), j))
        } else {
            None
        }
    }
}

/// Value of a hexadecimal digit byte, if it is one.
pub open spec fn hex_val(b: u8) -> Option<u8> {
    if 0x30 <= b <= 0x39 {
        Some((b - 0x30) as u8)
    } else if 0x61 <= b <= 0x66 {
        Some((b - 0x57) as u8)
    } else if 0x41 <= b <= 0x46 {
        Some((b - 0x37) as u8)
    } else {
        None
    }
}

/// The byte a two-character escape stands for, if the second character is a
/// valid simple escape.
pub open spec fn unescape_simple(e: u8) -> Option<u8> {
    if e == 0x22 {
        Some(0x22u8)
    } else if e == 0x5c {
        Some(0x5cu8)
    } else if e == 0x2f {
        Some(0x2fu8)
    } else if e == 0x62 {
        Some(0x08u8)
    } else if e == 0x66 {
        Some(0x0cu8)
    } else if e == 0x6e {
        Some(0x0au8)
    } else if e == 0x72 {
        Some(0x0du8)
    } else if e == 0x74 {
        Some(0x09u8)
    } else {
        None
    }
}

/// The value named by the four hex digits of a `\u` escape, if they are
/// four hex digits.
pub open spec fn hex_quad(s: Seq<u8>, i: int) -> Option<u32> {
    if i + 4 <= s.len() && hex_val(s[i]) is Some && hex_val(s[i + 1]) is Some && hex_val(
        s[i + 2],
    ) is Some && hex_val(s[i + 3]) is Some {
        Some(
            (hex_val(s[i]).unwrap() * 0x1000 + hex_val(s[i + 1]).unwrap() * 0x100 + hex_val(
                s[i + 2],
            ).unwrap() * 0x10 + hex_val(s[i + 3]).unwrap()) as u32,
        )
    } else {
        None
    }
}

/// The supplementary scalar a surrogate pair names.
pub open spec fn combine_surrogates(hi: u32, lo: u32) -> u32
    recommends
        0xd800 <= hi <= 0xdbff,
        0xdc00 <= lo <= 0xdfff,
{
    (0x10000 + (hi - 0xd800) * 0x400 + (lo - 0xdc00)) as u32
}

/// Scans a string body from `i` (just after the opening quote) to its closing
/// quote. Yields the unescaped bytes and the position after the quote.
pub open spec fn spec_scan_string(s: Seq<u8>, i: int) -> Option<(Seq<u8>, int)>
    decreases s.len() - i,
{
    if !(0 <= i < s.len()) {
        None
    } else {
        let b = s[i];
        if b == 0x22 {
            Some((Seq::empty(), i + 1))
        } else if b == 0x5c {
            if i + 1 < s.len() {
                let e = s[i + 1];
                if e == 0x75 {
                    match hex_quad(s, i + 2) {
                        Some(v) => if v < 0xd800 || v > 0xdfff {
                            match spec_scan_string(s, i + 6) {
                                Some(rest) => Some((encode_scalar(v) + rest.0, rest.1)),
                                None => None,
                            }
                        } else if v <= 0xdbff {
                            // a high surrogate: the low half must follow as
                            // one more escape, and the pair names one scalar
                            if i + 8 <= s.len() && s[i + 6] == 0x5c && s[i + 7] == 0x75 {
                                match hex_quad(s, i + 8) {
                                    Some(w) => if 0xdc00 <= w <= 0xdfff {
                                        match spec_scan_string(s, i + 12) {
                                            Some(rest) => Some(
                                                (
                                                    encode_scalar(combine_surrogates(v, w))
                                                        + rest.0,
                                                    rest.1,
                                                ),
                                            ),
                                            None => None,
                                        }
                                    } else {
                                        None
                                    },
                                    None => None,
                                }
                            } else {
                                None
                            }
                        } else {
                            None
                        },
                        None => None,
                    }
                } else {
                    match unescape_simple(e) {
                        Some(u) => match spec_scan_string(s, i + 2) {
                            Some(rest) => Some((seq![u] + rest.0, rest.1)),
                            None => None,
                        },
                        None => None,
                    }
                }
            } else {
                None
            }
        } else if b < 0x20 {
            None
        } else {
            match spec_scan_string(s, i + 1) {
                Some(rest) => Some((seq![b] + rest.0, rest.1)),
                None => None,
            }
        }
    }
}

pub proof fn lemma_scan_string_bounds(s: Seq<u8>, i: int)
    requires
        0 <= i,
    ensures
        spec_scan_string(s, i) matches Some(r) ==> i < r.1 <= s.len(),
    decreases s.len() - i,
{
    if 0 <= i < s.len() {
        let b = s[i];
        if b == 0x5c && i + 1 < s.len() {
            if s[i + 1] == 0x75 {
                match hex_quad(s, i + 2) {
                    Some(v) => {
                        if v < 0xd800 || v > 0xdfff {
                            lemma_scan_string_bounds(s, i + 6);
                        } else if v <= 0xdbff && i + 8 <= s.len() && s[i + 6] == 0x5c && s[i + 7]
                            == 0x75 {
                            if hex_quad(s, i + 8) is Some {
                                lemma_scan_string_bounds(s, i + 12);
                            }
                        }
                    },
                    None => {},
                }
            } else {
                lemma_scan_string_bounds(s, i + 2);
            }
        } else if b != 0x22 {
            lemma_scan_string_bounds(s, i + 1);
        }
    }
}

/// Parses a string literal at `i`, which must hold the opening quote. Yields
/// the decoded characters: the unescaped bytes must be valid UTF-8.
pub open spec fn spec_parse_string(s: Seq<u8>, i: int) -> Option<(Seq<char>, int)> {
    if 0 <= i < s.len() && s[i] == 0x22 {
        match spec_scan_string(s, i + 1) {
            Some(r) => if valid_utf8(r.0) {
                Some((decode_utf8(r.0), r.1))
            } else {
                None
            },
            None => None,
        }
    } else {
        None
    }
}

/// Parses one JSON value at `i`, after optional whitespace. `fuel` bounds the
/// recursion; parsing never needs more than the remaining length plus two.
pub open spec fn spec_parse_value(s: Seq<u8>, i: int, fuel: nat) -> Option<(JsonV, int)>
    decreases fuel, 2int,
{
    if fuel == 0 {
        None
    } else {
        let j = spec_skip_ws(s, i);
        if !(0 <= j < s.len()) {
            None
        } else {
            let b = s[j];
            if b == 0x7b {
                spec_parse_obj_rest(s, j + 1, (fuel - 1) as nat)
            } else if b == 0x5b {
                spec_parse_arr_rest(s, j + 1, (fuel - 1) as nat)
            } else if b == 0x22 {
                match spec_parse_string(s, j) {
                    Some(r) => Some((JsonV::Str(r.0), r.1)),
                    None => None,
                }
            } else if b == 0x6e {
                if s.len() - j >= 4 && s[j + 1] == 0x75 && s[j + 2] == 0x6c && s[j + 3] == 0x6c {
                    Some((JsonV::Null, j + 4))
                } else {
                    None
                }
            } else if b == 0x74 {
                if s.len() - j >= 4 && s[j + 1] == 0x72 && s[j + 2] == 0x75 && s[j + 3] == 0x65 {
                    Some((JsonV::Bool(true), j + 4))
                } else {
                    None
                }
            } else if b == 0x66 {
                if j + 5 <= s.len() && s[j + 1] == 0x61 && s[j + 2] == 0x6c && s[j + 3] == 0x73
                    && s[j + 4] == 0x65 {
                    Some((JsonV::Bool(false), j + 5))
                } else {
                    None
                }
            } else if b == 0x2d || is_digit(b) {
                spec_parse_int(s, j)
            } else {
                None
            }
        }
    }
}

/// Parses the remainder of an array after its opening bracket.
pub open spec fn spec_parse_arr_rest(s: Seq<u8>, i: int, fuel: nat) -> Option<(JsonV, int)>
    decreases fuel, 1int,
{
    let j = spec_skip_ws(s, i);
    if 0 <= j < s.len() && s[j] == 0x5d {
        Some((JsonV::Arr(Seq::empty()), j + 1))
    } else {
        spec_parse_arr_items(s, i, Seq::empty(), fuel)
    }
}

/// Parses the items of a non-empty array, accumulating those already read.
pub open spec fn spec_parse_arr_items(s: Seq<u8>, i: int, acc: Seq<JsonV>, fuel: nat) -> Option<
    (JsonV, int),
>
    decreases fuel, 0int,
{
    if fuel == 0 {
        None
    } else {
        match spec_parse_value(s, i, (fuel - 1) as nat) {
            None => None,
            Some(r) => {
                let j = spec_skip_ws(s, r.1);
                if 0 <= j < s.len() && s[j] == 0x2c {
                    spec_parse_arr_items(s, j + 1, acc.push(r.0), (fuel - 1) as nat)
                } else if 0 <= j < s.len() && s[j] == 0x5d {
                    Some((JsonV::Arr(acc.push(r.0)), j + 1))
                } else {
                    None
                }
            },
        }
    }
}

/// Parses the remainder of an object after its opening brace.
pub open spec fn spec_parse_obj_rest(s: Seq<u8>, i: int, fuel: nat) -> Option<(JsonV, int)>
    decreases fuel, 1int,
{
    let j = spec_skip_ws(s, i);
    if 0 <= j < s.len() && s[j] == 0x7d {
        Some((JsonV::Obj(Seq::empty()), j + 1))
    } else {
        spec_parse_obj_fields(s, i, Seq::empty(), fuel)
    }
}

/// Parses the fields of a non-empty object, accumulating those already read.
pub open spec fn spec_parse_obj_fields(
    s: Seq<u8>,
    i: int,
    acc: Seq<(Seq<char>, JsonV)>,
    fuel: nat,
) -> Option<(JsonV, int)>
    decreases fuel, 0int,
{
    if fuel == 0 {
        None
    } else {
        let j = spec_skip_ws(s, i);
        match spec_parse_string(s, j) {
            None => None,
            Some(key) => {
                let j2 = spec_skip_ws(s, key.1);
                if !(0 <= j2 < s.len() && s[j2] == 0x3a) {
                    None
                } else {
                    match spec_parse_value(s, j2 + 1, (fuel - 1) as nat) {
                        None => None,
                        Some(val) => {
                            let j3 = spec_skip_ws(s, val.1);
                            if 0 <= j3 < s.len() && s[j3] == 0x2c {
                                spec_parse_obj_fields(
                                    s,
                                    j3 + 1,
                                    acc.push((key.0, val.0)),
                                    (fuel - 1) as nat,
                                )
                            } else if 0 <= j3 < s.len() && s[j3] == 0x7d {
                                Some((JsonV::Obj(acc.push((key.0, val.0))), j3 + 1))
                            } else {
                                None
                            }
                        },
                    }
                }
            },
        }
    }
}

pub proof fn lemma_parse_value_bounds(s: Seq<u8>, i: int, fuel: nat)
    requires
        0 <= i <= s.len(),
    ensures
        spec_parse_value(s, i, fuel) matches Some(r) ==> i < r.1 <= s.len(),
    decreases fuel, 2int,
{
    if fuel > 0 {
        let j = spec_skip_ws(s, i);
        lemma_skip_ws_bounds(s, i);
        if 0 <= j < s.len() {
            let b = s[j];
            if b == 0x7b {
                lemma_parse_obj_rest_bounds(s, j + 1, (fuel - 1) as nat);
            } else if b == 0x5b {
                lemma_parse_arr_rest_bounds(s, j + 1, (fuel - 1) as nat);
            } else if b == 0x22 {
                lemma_scan_string_bounds(s, j + 1);
            } else if b == 0x2d || is_digit(b) {
                let d0: int = if b == 0x2d {
                    j + 1
                } else {
                    j
                };
                lemma_digit_run_bounds(s, d0);
            }
        }
    }
}

pub proof fn lemma_parse_arr_rest_bounds(s: Seq<u8>, i: int, fuel: nat)
    requires
        0 <= i <= s.len(),
    ensures
        spec_parse_arr_rest(s, i, fuel) matches Some(r) ==> i < r.1 <= s.len(),
    decreases fuel, 1int,
{
    lemma_skip_ws_bounds(s, i);
    lemma_parse_arr_items_bounds(s, i, Seq::empty(), fuel);
}

pub proof fn lemma_parse_arr_items_bounds(s: Seq<u8>, i: int, acc: Seq<JsonV>, fuel: nat)
    requires
        0 <= i <= s.len(),
    ensures
        spec_parse_arr_items(s, i, acc, fuel) matches Some(r) ==> i < r.1 <= s.len(),
    decreases fuel, 0int,
{
    if fuel > 0 {
        lemma_parse_value_bounds(s, i, (fuel - 1) as nat);
        match spec_parse_value(s, i, (fuel - 1) as nat) {
            Some(r) => {
                lemma_skip_ws_bounds(s, r.1);
                let j = spec_skip_ws(s, r.1);
                if 0 <= j < s.len() && s[j] == 0x2c {
                    lemma_parse_arr_items_bounds(s, j + 1, acc.push(r.0), (fuel - 1) as nat);
                }
            },
            None => {},
        }
    }
}

pub proof fn lemma_parse_obj_rest_bounds(s: Seq<u8>, i: int, fuel: nat)
    requires
        0 <= i <= s.len(),
    ensures
        spec_parse_obj_rest(s, i, fuel) matches Some(r) ==> i < r.1 <= s.len(),
    decreases fuel, 1int,
{
    lemma_skip_ws_bounds(s, i);
    lemma_parse_obj_fields_bounds(s, i, Seq::empty(), fuel);
}

pub proof fn lemma_parse_obj_fields_bounds(
    s: Seq<u8>,
    i: int,
    acc: Seq<(Seq<char>, JsonV)>,
    fuel: nat,
)
    requires
        0 <= i <= s.len(),
    ensures
        spec_parse_obj_fields(s, i, acc, fuel) matches Some(r) ==> i < r.1 <= s.len(),
    decreases fuel, 0int,
{
    if fuel > 0 {
        let j = spec_skip_ws(s, i);
        lemma_skip_ws_bounds(s, i);
        if 0 <= j < s.len() && s[j] == 0x22 {
            lemma_scan_string_bounds(s, j + 1);
        }
        match spec_parse_string(s, j) {
            Some(key) => {
                let j2 = spec_skip_ws(s, key.1);
                lemma_skip_ws_bounds(s, key.1);
                if 0 <= j2 < s.len() && s[j2] == 0x3a {
                    lemma_parse_value_bounds(s, j2 + 1, (fuel - 1) as nat);
                    match spec_parse_value(s, j2 + 1, (fuel - 1) as nat) {
                        Some(val) => {
                            let j3 = spec_skip_ws(s, val.1);
                            lemma_skip_ws_bounds(s, val.1);
                            if 0 <= j3 < s.len() && s[j3] == 0x2c {
                                lemma_parse_obj_fields_bounds(
                                    s,
                                    j3 + 1,
                                    acc.push((key.0, val.0)),
                                    (fuel - 1) as nat,
                                );
                            }
                        },
                        None => {},
                    }
                }
            },
            None => {},
        }
    }
}

/// Parses a whole byte sequence as one JSON value: one value, surrounded by
/// nothing but whitespace. The fuel of twice the length plus two covers any
/// parse that can succeed.
pub open spec fn spec_parse_json(s: Seq<u8>) -> Option<JsonV> {
    match spec_parse_value(s, 0, (2 * s.len() + 2) as nat) {
        Some(r) => if spec_skip_ws(s, r.1) == s.len() {
            Some(r.0)
        } else {
            None
        },
        None => None,
    }
}

// ---------------------------------------------------------------------------
// Parsing, executable level
// ---------------------------------------------------------------------------
/// Agreement of an executable parse result with a specification-level one.
pub open spec fn value_result_matches(r: Option<(Json, usize)>, sr: Option<(JsonV, int)>) -> bool {
    match sr {
        Some(rr) => r matches Some(p) && p.0.model() == rr.0 && p.1 as int == rr.1,
        None => r is None,
    }
}

/// Relies on String::from_utf8: it returns the decoded string exactly when
/// the bytes are valid UTF-8, and an error otherwise.
#[verifier::external_body]
fn bytes_to_string(v: Vec<u8>) -> (r: Option<String>)
    ensures
        match r {
            Some(t) => valid_utf8(v@) && t@ == decode_utf8(v@),
            None => !valid_utf8(v@),
        },
{
    match String::from_utf8(v) {
        Ok(s) => Some(s),
        Err(_) => None,
    }
}

/// Advances past whitespace.
fn skip_ws(s: &[u8], i: usize) -> (j: usize)
    requires
        i <= s@.len(),
    ensures
        j as int == spec_skip_ws(s@, i as int),
        i <= j <= s@.len(),
{
    let mut j: usize = i;
    while j < s.len() && (s[j] == 0x20 || s[j] == 0x09 || s[j] == 0x0a || s[j] == 0x0d)
        invariant
            i <= j <= s@.len(),
            spec_skip_ws(s@, i as int) == spec_skip_ws(s@, j as int),
        decreases s@.len() - j,
    {
        j = j + 1;
    }
    j
}

/// Powers of ten.
pub open spec fn pow10(n: nat) -> int
    decreases n,
{
    if n == 0 {
        1
    } else {
        10 * pow10((n - 1) as nat)
    }
}

pub proof fn lemma_pow10_mono(a: nat, b: nat)
    requires
        a <= b,
    ensures
        pow10(a) <= pow10(b),
        pow10(a) >= 1,
    decreases b,
{
    if b > 0 {
        if a == b {
            lemma_pow10_mono((b - 1) as nat, (b - 1) as nat);
        } else {
            lemma_pow10_mono(a, (b - 1) as nat);
        }
    }
}

pub proof fn lemma_digits_value_bound(s: Seq<u8>, i: int, j: int)
    requires
        i <= j,
        forall|k: int| i <= k < j ==> is_digit(#[trigger] s[k]),
    ensures
        0 <= digits_value(s, i, j) < pow10((j - i) as nat),
    decreases j - i,
{
    if i < j {
        lemma_digits_value_bound(s, i, j - 1);
    }
}

/// Parses an integer at `i`.
fn parse_int(s: &[u8], i: usize) -> (r: Option<(i64, usize)>)
    requires
        i <= s@.len(),
    ensures
        match (r, spec_parse_int(s@, i as int)) {
            (Some(p), Some(rr)) => rr.0 == JsonV::Int(p.0 as int) && p.1 as int == rr.1,
            (None, None) => true,
            _ => false,
        },
{
    let neg = i < s.len() && s[i] == 0x2d;
    let d0: usize = if neg {
        i + 1
    } else {
        i
    };
    let mut jend: usize = d0;
    while jend < s.len() && 0x30 <= s[jend] && s[jend] <= 0x39
        invariant
            d0 <= jend <= s@.len(),
            digit_run_end(s@, d0 as int) == digit_run_end(s@, jend as int),
            forall|k: int| d0 <= k < jend ==> is_digit(#[trigger] s@[k]),
        decreases s@.len() - jend,
    {
        jend = jend + 1;
    }
    assert(jend as int == digit_run_end(s@, d0 as int));
    if jend == d0 {
        return None;
    }
    if jend - d0 > 19 {
        return None;
    }
    if jend < s.len() && (s[jend] == 0x2e || s[jend] == 0x65 || s[jend] == 0x45) {
        return None;
    }
    let mut mag: u64 = 0;
    let mut k: usize = d0;
    while k < jend
        invariant
            d0 <= k <= jend <= s@.len(),
            jend - d0 <= 19,
            forall|t: int| d0 <= t < jend ==> is_digit(#[trigger] s@[t]),
            mag as int == digits_value(s@, d0 as int, k as int),
            mag < pow10((k - d0) as nat),
        decreases jend - k,
    {
        let d = s[k] - 0x30;
        proof {
            lemma_pow10_mono(((k - d0) as nat), 18nat);
            assert(pow10(18) == 1000000000000000000int) by {
                reveal_with_fuel(pow10, 19);
            }
        }
        mag = mag * 10 + (d as u64);
        k = k + 1;
    }
    let n: i64 = if neg {
        if mag > 0x8000_0000_0000_0000u64 {
            return None;
        }
        if mag == 0x8000_0000_0000_0000u64 {
            i64::MIN
        } else {
            -(mag as i64)
        }
    } else {
        if mag > 0x7fff_ffff_ffff_ffffu64 {
            return None;
        }
        mag as i64
    };
    Some((n, jend))
}

/// Maps a hexadecimal digit byte to its value.
fn hexv(b: u8) -> (r: Option<u8>)
    ensures
        r == hex_val(b),
{
    if 0x30 <= b && b <= 0x39 {
        Some(b - 0x30)
    } else if 0x61 <= b && b <= 0x66 {
        Some(b - 0x57)
    } else if 0x41 <= b && b <= 0x46 {
        Some(b - 0x37)
    } else {
        None
    }
}

/// Scans a string body from just after the opening quote, unescaping it.
#[verifier::rlimit(100)]
fn scan_string(s: &[u8], start: usize) -> (r: Option<(Vec<u8>, usize)>)
    requires
        start <= s@.len(),
    ensures
        match (r, spec_scan_string(s@, start as int)) {
            (Some(p), Some(rr)) => p.0@ == rr.0 && p.1 as int == rr.1,
            (None, None) => true,
            _ => false,
        },
{
    let mut acc: Vec<u8> = Vec::new();
    let mut cur: usize = start;
    loop
        invariant
            start <= cur <= s@.len(),
            spec_scan_string(s@, start as int) is Some <==> spec_scan_string(
                s@,
                cur as int,
            ) is Some,
            spec_scan_string(s@, cur as int) matches Some(rr) ==> spec_scan_string(
                s@,
                start as int,
            ) matches Some(r0) && r0.1 == rr.1 && r0.0 == acc@ + rr.0,
        decreases s@.len() - cur,
    {
        if cur >= s.len() {
            return None;
        }
        let b = s[cur];
        if b == 0x22 {
            proof {
                assert(spec_scan_string(s@, cur as int) == Some((Seq::<u8>::empty(), cur + 1int)));
                assert(acc@ + Seq::<u8>::empty() =~= acc@);
            }
            return Some((acc, cur + 1));
        } else if b == 0x5c {
            if cur + 1 >= s.len() {
                return None;
            }
            let e = s[cur + 1];
            if e == 0x75 {
                if s.len() - cur < 6 {
                    assert(hex_quad(s@, cur + 2int) is None);
                    return None;
                }
                let h1 = match hexv(s[cur + 2]) {
                    Some(h) => h,
                    None => {
                        return None;
                    },
                };
                let h2 = match hexv(s[cur + 3]) {
                    Some(h) => h,
                    None => {
                        return None;
                    },
                };
                let h3 = match hexv(s[cur + 4]) {
                    Some(h) => h,
                    None => {
                        return None;
                    },
                };
                let h4 = match hexv(s[cur + 5]) {
                    Some(h) => h,
                    None => {
                        return None;
                    },
                };
                let v: u32 = (h1 as u32) * 0x1000 + (h2 as u32) * 0x100 + (h3 as u32) * 0x10 + (
                h4 as u32);
                assert(hex_quad(s@, cur + 2int) == Some(v));
                if v < 0xd800 || v > 0xdfff {
                    let ghost pre = acc@;
                    if v <= 0x7f {
                        acc.push((v & 0x7f) as u8);
                    } else if v <= 0x7ff {
                        acc.push(0xc0u8 | ((v >> 6u32) & 0x1f) as u8);
                        acc.push(0x80u8 | (v & 0x3f) as u8);
                    } else {
                        acc.push(0xe0u8 | ((v >> 12u32) & 0x0f) as u8);
                        acc.push(0x80u8 | ((v >> 6u32) & 0x3f) as u8);
                        acc.push(0x80u8 | (v & 0x3f) as u8);
                    }
                    proof {
                        assert(acc@ =~= pre + encode_scalar(v));
                        lemma_scan_step(
                            s@,
                            start as int,
                            cur as int,
                            pre,
                            encode_scalar(v),
                            cur + 6,
                        );
                    }
                    cur = cur + 6;
                } else if v <= 0xdbff {
                    // a high surrogate: read the low half of the pair
                    if s.len() - cur < 8 {
                        return None;
                    }
                    if !(s[cur + 6] == 0x5c && s[cur + 7] == 0x75) {
                        return None;
                    }
                    if s.len() - cur < 12 {
                        assert(hex_quad(s@, cur + 8int) is None);
                        return None;
                    }
                    let g1 = match hexv(s[cur + 8]) {
                        Some(h) => h,
                        None => {
                            return None;
                        },
                    };
                    let g2 = match hexv(s[cur + 9]) {
                        Some(h) => h,
                        None => {
                            return None;
                        },
                    };
                    let g3 = match hexv(s[cur + 10]) {
                        Some(h) => h,
                        None => {
                            return None;
                        },
                    };
                    let g4 = match hexv(s[cur + 11]) {
                        Some(h) => h,
                        None => {
                            return None;
                        },
                    };
                    let w: u32 = (g1 as u32) * 0x1000 + (g2 as u32) * 0x100 + (g3 as u32) * 0x10
                        + (g4 as u32);
                    assert(hex_quad(s@, cur + 8int) == Some(w));
                    if !(0xdc00 <= w && w <= 0xdfff) {
                        return None;
                    }
                    let scalar: u32 = 0x10000 + (v - 0xd800) * 0x400 + (w - 0xdc00);
                    assert(scalar == combine_surrogates(v, w));
                    let ghost pre = acc@;
                    acc.push(0xf0u8 | ((scalar >> 18u32) & 0x07) as u8);
                    acc.push(0x80u8 | ((scalar >> 12u32) & 0x3f) as u8);
                    acc.push(0x80u8 | ((scalar >> 6u32) & 0x3f) as u8);
                    acc.push(0x80u8 | (scalar & 0x3f) as u8);
                    proof {
                        assert(acc@ =~= pre + encode_scalar(scalar));
                        lemma_scan_step(
                            s@,
                            start as int,
                            cur as int,
                            pre,
                            encode_scalar(scalar),
                            cur + 12,
                        );
                    }
                    cur = cur + 12;
                } else {
                    // a lone low surrogate names no scalar
                    return None;
                }
            } else {
                let u: u8 = if e == 0x22 {
                    0x22
                } else if e == 0x5c {
                    0x5c
                } else if e == 0x2f {
                    0x2f
                } else if e == 0x62 {
                    0x08
                } else if e == 0x66 {
                    0x0c
                } else if e == 0x6e {
                    0x0a
                } else if e == 0x72 {
                    0x0d
                } else if e == 0x74 {
                    0x09
                } else {
                    return None;
                };
                let ghost pre = acc@;
                acc.push(u);
                proof {
                    assert(acc@ =~= pre + seq![u]);
                    lemma_scan_step(s@, start as int, cur as int, pre, seq![u], cur + 2);
                }
                cur = cur + 2;
            }
        } else if b < 0x20 {
            return None;
        } else {
            let ghost pre = acc@;
            acc.push(b);
            proof {
                assert(acc@ =~= pre + seq![b]);
                lemma_scan_step(s@, start as int, cur as int, pre, seq![b], cur + 1);
            }
            cur = cur + 1;
        }
    }
}

/// One unescaping step: scanning from `cur` yields `piece` and continues at
/// `next`, so an accumulator that took `piece` keeps the loop relation.
proof fn lemma_scan_step(s: Seq<u8>, start: int, cur: int, pre: Seq<u8>, piece: Seq<u8>, next: int)
    requires
        spec_scan_string(s, cur) == (match spec_scan_string(s, next) {
            Some(rr) => Some::<(Seq<u8>, int)>((piece + rr.0, rr.1)),
            None => None::<(Seq<u8>, int)>,
        }),
        spec_scan_string(s, start) is Some <==> spec_scan_string(s, cur) is Some,
        spec_scan_string(s, cur) matches Some(rr) ==> spec_scan_string(s, start) matches Some(r0)
            && r0.1 == rr.1 && r0.0 == pre + rr.0,
    ensures
        spec_scan_string(s, start) is Some <==> spec_scan_string(s, next) is Some,
        spec_scan_string(s, next) matches Some(rr) ==> spec_scan_string(s, start) matches Some(r0)
            && r0.1 == rr.1 && r0.0 == (pre + piece) + rr.0,
{
    match spec_scan_string(s, next) {
        Some(rr) => {
            assert(pre + (piece + rr.0) =~= (pre + piece) + rr.0);
        },
        None => {},
    }
}

/// Parses a string literal whose opening quote stands at `i`.
fn parse_string_at(s: &[u8], i: usize) -> (r: Option<(String, usize)>)
    requires
        i <= s@.len(),
    ensures
        match (r, spec_parse_string(s@, i as int)) {
            (Some(p), Some(rr)) => p.0@ == rr.0 && p.1 as int == rr.1,
            (None, None) => true,
            _ => false,
        },
        r matches Some(p) ==> i < p.1 <= s@.len(),
{
    proof {
        lemma_scan_string_bounds(s@, i + 1int);
    }
    if i < s.len() && s[i] == 0x22 {
        match scan_string(s, i + 1) {
            Some(p) => match bytes_to_string(p.0) {
                Some(st) => Some((st, p.1)),
                None => None,
            },
            None => None,
        }
    } else {
        None
    }
}

/// Parses one JSON value at `i`; `fuel` bounds the nesting as in the
/// specification parser.
#[verifier::rlimit(100)]
fn parse_value(s: &[u8], i: usize, fuel: usize) -> (r: Option<(Json, usize)>)
    requires
        i <= s@.len(),
    ensures
        value_result_matches(r, spec_parse_value(s@, i as int, fuel as nat)),
    decreases fuel,
{
    if fuel == 0 {
        return None;
    }
    let j = skip_ws(s, i);
    if j >= s.len() {
        return None;
    }
    let b = s[j];
    if b == 0x7b {
        // object
        let j2 = skip_ws(s, j + 1);
        if j2 < s.len() && s[j2] == 0x7d {
            assert(model_fields(Seq::<(String, Json)>::empty()) =~= Seq::<(
                Seq<char>,
                JsonV,
            )>::empty());
            return Some((Json::Obj(Vec::new()), j2 + 1));
        }
        let ghost target = spec_parse_obj_rest(s@, j + 1int, (fuel - 1) as nat);
        let mut fields: Vec<(String, Json)> = Vec::new();
        let mut cur: usize = j + 1;
        let mut f: usize = fuel - 1;
        proof {
            assert(model_fields(fields@) =~= Seq::<(Seq<char>, JsonV)>::empty());
        }
        loop
            invariant
                cur <= s@.len(),
                f < fuel,
                target == spec_parse_obj_fields(s@, cur as int, model_fields(fields@), f as nat),
                target == spec_parse_value(s@, i as int, fuel as nat),
            decreases f,
        {
            if f == 0 {
                return None;
            }
            let jk = skip_ws(s, cur);
            let key = match parse_string_at(s, jk) {
                Some(p) => p,
                None => {
                    return None;
                },
            };
            let j2k = skip_ws(s, key.1);
            if !(j2k < s.len() && s[j2k] == 0x3a) {
                return None;
            }
            let val = match parse_value(s, j2k + 1, f - 1) {
                Some(p) => p,
                None => {
                    proof {
                        lemma_parse_value_bounds(s@, j2k + 1int, (f - 1) as nat);
                    }
                    return None;
                },
            };
            proof {
                lemma_parse_value_bounds(s@, j2k + 1int, (f - 1) as nat);
            }
            let j3 = skip_ws(s, val.1);
            let ghost pre = fields@;
            if j3 < s.len() && s[j3] == 0x2c {
                fields.push((key.0, val.0));
                proof {
                    assert(fields@.drop_last() =~= pre);
                    assert(model_fields(fields@) =~= model_fields(pre).push(
                        (key.0@, val.0.model()),
                    ));
                }
                cur = j3 + 1;
                f = f - 1;
            } else if j3 < s.len() && s[j3] == 0x7d {
                fields.push((key.0, val.0));
                proof {
                    assert(fields@.drop_last() =~= pre);
                    assert(model_fields(fields@) =~= model_fields(pre).push(
                        (key.0@, val.0.model()),
                    ));
                }
                return Some((Json::Obj(fields), j3 + 1));
            } else {
                return None;
            }
        }
    } else if b == 0x5b {
        // array
        let j2 = skip_ws(s, j + 1);
        if j2 < s.len() && s[j2] == 0x5d {
            assert(model_items(Seq::<Json>::empty()) =~= Seq::<JsonV>::empty());
            return Some((Json::Arr(Vec::new()), j2 + 1));
        }
        let ghost target = spec_parse_arr_rest(s@, j + 1int, (fuel - 1) as nat);
        let mut items: Vec<Json> = Vec::new();
        let mut cur: usize = j + 1;
        let mut f: usize = fuel - 1;
        proof {
            assert(model_items(items@) =~= Seq::<JsonV>::empty());
        }
        loop
            invariant
                cur <= s@.len(),
                f < fuel,
                target == spec_parse_arr_items(s@, cur as int, model_items(items@), f as nat),
                target == spec_parse_value(s@, i as int, fuel as nat),
            decreases f,
        {
            if f == 0 {
                return None;
            }
            let item = match parse_value(s, cur, f - 1) {
                Some(p) => p,
                None => {
                    proof {
                        lemma_parse_value_bounds(s@, cur as int, (f - 1) as nat);
                    }
                    return None;
                },
            };
            proof {
                lemma_parse_value_bounds(s@, cur as int, (f - 1) as nat);
            }
            let j3 = skip_ws(s, item.1);
            let ghost pre = items@;
            if j3 < s.len() && s[j3] == 0x2c {
                items.push(item.0);
                proof {
                    assert(items@.drop_last() =~= pre);
                    assert(model_items(items@) =~= model_items(pre).push(item.0.model()));
                }
                cur = j3 + 1;
                f = f - 1;
            } else if j3 < s.len() && s[j3] == 0x5d {
                items.push(item.0);
                proof {
                    assert(items@.drop_last() =~= pre);
                    assert(model_items(items@) =~= model_items(pre).push(item.0.model()));
                }
                return Some((Json::Arr(items), j3 + 1));
            } else {
                return None;
            }
        }
    } else if b == 0x22 {
        match parse_string_at(s, j) {
            Some(p) => Some((Json::Str(p.0), p.1)),
            None => None,
        }
    } else if b == 0x6e {
        if s.len() - j >= 4 && s[j + 1] == 0x75 && s[j + 2] == 0x6c && s[j + 3] == 0x6c {
            Some((Json::Null, j + 4))
        } else {
            None
        }
    } else if b == 0x74 {
        if s.len() - j >= 4 && s[j + 1] == 0x72 && s[j + 2] == 0x75 && s[j + 3] == 0x65 {
            Some((Json::Bool(true), j + 4))
        } else {
            None
        }
    } else if b == 0x66 {
        if s.len() - j >= 5 && s[j + 1] == 0x61 && s[j + 2] == 0x6c && s[j + 3] == 0x73 && s[j + 4]
            == 0x65 {
            Some((Json::Bool(false), j + 5))
        } else {
            None
        }
    } else if b == 0x2d || (0x30 <= b && b <= 0x39) {
        match parse_int(s, j) {
            Some(p) => Some((Json::Int(p.0), p.1)),
            None => None,
        }
    } else {
        None
    }
}

/// Parses a whole byte sequence as one JSON value.
pub fn parse_json(s: &[u8]) -> (r: Option<Json>)
    requires
        2 * s@.len() + 2 <= usize::MAX,
    ensures
        match (r, spec_parse_json(s@)) {
            (Some(j), Some(v)) => j.model() == v,
            (None, None) => true,
            _ => false,
        },
{
    let fuel: usize = 2 * s.len() + 2;
    match parse_value(s, 0, fuel) {
        Some(p) => {
            proof {
                lemma_parse_value_bounds(s@, 0, fuel as nat);
            }
            let e = skip_ws(s, p.1);
            if e == s.len() {
                Some(p.0)
            } else {
                None
            }
        },
        None => None,
    }
}

// ---------------------------------------------------------------------------
// The parser inverts the writer
// ---------------------------------------------------------------------------
/// Pointwise reading of a subrange equality.
proof fn lemma_subrange_index(s: Seq<u8>, i: int, w: Seq<u8>)
    requires
        0 <= i,
        i + w.len() <= s.len(),
        s.subrange(i, i + w.len()) == w,
    ensures
        forall|k: int| 0 <= k < w.len() ==> s[i + k] == #[trigger] w[k],
{
    assert forall|k: int| 0 <= k < w.len() implies s[i + k] == #[trigger] w[k] by {
        assert(w[k] == s.subrange(i, i + w.len() as int)[k]);
    }
}

/// Splitting a subrange equality over a concatenation.
proof fn lemma_subrange_split(s: Seq<u8>, i: int, a: Seq<u8>, b: Seq<u8>)
    requires
        0 <= i,
        i + a.len() + b.len() <= s.len(),
        s.subrange(i, i + a.len() + b.len()) == a + b,
    ensures
        s.subrange(i, i + a.len()) == a,
        s.subrange(i + a.len(), i + a.len() + b.len()) == b,
{
    lemma_subrange_index(s, i, a + b);
    assert forall|k: int| 0 <= k < a.len() implies s.subrange(i, i + a.len() as int)[k] == a[k] by {
        assert(s[i + k] == (a + b)[k]);
        assert((a + b)[k] == a[k]);
    }
    assert(s.subrange(i, i + a.len()) =~= a);
    assert forall|k: int|
        0 <= k < b.len() implies s.subrange(i + a.len(), i + a.len() + b.len() as int)[k]
        == b[k] by {
        assert(s[i + a.len() + k] == (a + b)[a.len() + k]);
        assert((a + b)[a.len() + k] == b[k]);
    }
    assert(s.subrange(i + a.len(), i + a.len() + b.len()) =~= b);
}

proof fn lemma_dec_digits_props(m: nat)
    ensures
        dec_digits(m).len() >= 1,
        forall|k: int| 0 <= k < dec_digits(m).len() ==> is_digit(#[trigger] dec_digits(m)[k]),
        m < pow10(dec_digits(m).len() as nat),
        dec_digits(m).len() > 1 ==> pow10((dec_digits(m).len() - 1) as nat) <= m,
    decreases m,
{
    if m < 10 {
        assert(pow10(1nat) == 10) by {
            reveal_with_fuel(pow10, 2);
        }
    } else {
        lemma_dec_digits_props(m / 10);
        let w = dec_digits(m);
        let w0 = dec_digits(m / 10);
        assert(w == w0.push((0x30 + m % 10) as u8));
        assert(forall|k: int| 0 <= k < w0.len() ==> w[k] == w0[k]);
        assert(m == (m / 10) * 10 + m % 10);
        assert(m / 10 < pow10(w0.len() as nat));
        assert(m < pow10(w0.len() as nat) * 10);
        assert(pow10((w0.len() + 1) as nat) == 10 * pow10(w0.len() as nat));
        if w0.len() > 1 {
            assert(pow10((w0.len() - 1) as nat) <= m / 10);
            assert(pow10(w0.len() as nat) == 10 * pow10((w0.len() - 1) as nat));
            assert(10 * (m / 10) <= m);
        } else {
            assert(pow10(1nat) == 10) by {
                reveal_with_fuel(pow10, 2);
            }
        }
    }
}

proof fn lemma_digit_run_exact(s: Seq<u8>, i: int, j: int)
    requires
        0 <= i <= j <= s.len(),
        forall|k: int| i <= k < j ==> is_digit(#[trigger] s[k]),
        j == s.len() || !is_digit(s[j]),
    ensures
        digit_run_end(s, i) == j,
    decreases j - i,
{
    if i < j {
        lemma_digit_run_exact(s, i + 1, j);
    }
}

proof fn lemma_digits_value_of_dec(m: nat, s: Seq<u8>, i: int)
    requires
        0 <= i,
        i + dec_digits(m).len() <= s.len(),
        s.subrange(i, i + dec_digits(m).len()) == dec_digits(m),
    ensures
        digits_value(s, i, i + dec_digits(m).len()) == m,
    decreases m,
{
    let w = dec_digits(m);
    let j = i + w.len();
    assert(s[j - 1] == w[w.len() - 1]);
    if m < 10 {
        assert(digits_value(s, i, i) == 0);
    } else {
        let w0 = dec_digits(m / 10);
        assert(w == w0.push((0x30 + m % 10) as u8));
        assert(s.subrange(i, i + w0.len() as int) =~= w0);
        lemma_digits_value_of_dec(m / 10, s, i);
        assert(s[j - 1] == (0x30 + m % 10) as u8);
        assert(digits_value(s, i, j) == digits_value(s, i, j - 1) * 10 + (s[j - 1] - 0x30));
        assert(m == (m / 10) * 10 + m % 10);
    }
}

proof fn lemma_parse_int_inverts(n: int, s: Seq<u8>, i: int)
    requires
        i64::MIN <= n <= i64::MAX,
        0 <= i,
        i + spec_write_int(n).len() <= s.len(),
        s.subrange(i, i + spec_write_int(n).len()) == spec_write_int(n),
        i + spec_write_int(n).len() == s.len() || !(is_digit(s[i + spec_write_int(n).len()]) || s[i
            + spec_write_int(n).len()] == 0x2e || s[i + spec_write_int(n).len()] == 0x65 || s[i
            + spec_write_int(n).len()] == 0x45),
    ensures
        spec_parse_int(s, i) == Some((JsonV::Int(n), i + spec_write_int(n).len())),
{
    let w = spec_write_int(n);
    let end = i + w.len();
    let mag: nat = if n < 0 {
        (-n) as nat
    } else {
        n as nat
    };
    let wd = dec_digits(mag);
    lemma_dec_digits_props(mag);
    assert(pow10(19) == 10000000000000000000int) by {
        reveal_with_fuel(pow10, 20);
    }
    if wd.len() > 19 {
        lemma_pow10_mono(19nat, (wd.len() - 1) as nat);
        assert(pow10((wd.len() - 1) as nat) <= mag);
        assert(false);
    }
    let d0: int = if n < 0 {
        i + 1
    } else {
        i
    };
    if n < 0 {
        assert(w == seq![0x2du8] + wd);
        lemma_subrange_split(s, i, seq![0x2du8], wd);
        lemma_subrange_index(s, i, seq![0x2du8]);
        assert(s[i + 0] == seq![0x2du8][0]);
        assert(s[i] == 0x2d);
    } else {
        assert(w == wd);
    }
    assert(s.subrange(d0, d0 + wd.len()) == wd);
    lemma_subrange_index(s, d0, wd);
    assert forall|k: int| d0 <= k < end implies is_digit(#[trigger] s[k]) by {
        assert(s[d0 + (k - d0)] == wd[k - d0]);
    }
    lemma_digit_run_exact(s, d0, end);
    lemma_digits_value_of_dec(mag, s, d0);
    if n >= 0 {
        assert(s[d0 + 0] == wd[0]);
        assert(is_digit(s[i]));
        assert(s[i] != 0x2d);
    }
}

proof fn lemma_hex_val_of_hex_digit(x: u8)
    requires
        x < 16,
    ensures
        hex_val(hex_digit(x)) == Some(x),
{
}

proof fn lemma_scan_escaped(w: Seq<u8>, s: Seq<u8>, i: int)
    requires
        0 <= i,
        i + escape_bytes(w).len() + 1 <= s.len(),
        s.subrange(i, i + escape_bytes(w).len()) == escape_bytes(w),
        s[i + escape_bytes(w).len()] == 0x22,
    ensures
        spec_scan_string(s, i) == Some((w, i + escape_bytes(w).len() + 1)),
    decreases w.len(),
{
    let ew = escape_bytes(w);
    let qpos = i + ew.len();
    if w.len() == 0 {
        assert(s[i] == 0x22);
    } else {
        let b = w.first();
        let eb = escape_byte(b);
        let rest = escape_bytes(w.drop_first());
        assert(ew == eb + rest);
        lemma_subrange_split(s, i, eb, rest);
        lemma_subrange_index(s, i, eb);
        lemma_scan_escaped(w.drop_first(), s, i + eb.len());
        if b == 0x22 || b == 0x5c || b == 0x08 || b == 0x0c || b == 0x0a || b == 0x0d || b
            == 0x09 {
            assert(s[i + 0] == eb[0] && s[i + 1] == eb[1]);
            assert(s[i] == 0x5c);
            assert(unescape_simple(s[i + 1]) == Some(b));
            assert(seq![b] + w.drop_first() =~= w);
        } else if b < 0x20 {
            assert(s[i + 0] == eb[0] && s[i + 1] == eb[1] && s[i + 2] == eb[2] && s[i + 3] == eb[3]
                && s[i + 4] == eb[4] && s[i + 5] == eb[5]);
            assert(s[i] == 0x5c && s[i + 1] == 0x75);
            assert(s[i + 2] == 0x30 && s[i + 3] == 0x30);
            assert(s[i + 4] == hex_digit(b / 16) && s[i + 5] == hex_digit(b % 16));
            lemma_hex_val_of_hex_digit(b / 16);
            lemma_hex_val_of_hex_digit(b % 16);
            let v = ((b / 16) * 0x10 + (b % 16)) as u32;
            assert(v == b as u32);
            assert(hex_quad(s, i + 2) == Some(v));
            assert(v < 0xd800);
            assert(v & 0x7f == v) by (bit_vector)
                requires
                    v < 0x20,
            ;
            assert(encode_scalar(v) =~= seq![b]);
            assert(seq![b] + w.drop_first() =~= w);
        } else {
            assert(s[i + 0] == eb[0]);
            assert(s[i] == b);
            assert(s[i] != 0x22 && s[i] != 0x5c && !(s[i] < 0x20));
            assert(seq![b] + w.drop_first() =~= w);
        }
    }
}

/// Written items decomposed from the front rather than the back.
proof fn lemma_write_items_first(items: Seq<JsonV>)
    requires
        items.len() >= 1,
    ensures
        spec_write_items(items) == spec_write(items[0]) + (if items.len() > 1 {
            seq![0x2cu8] + spec_write_items(items.drop_first())
        } else {
            Seq::<u8>::empty()
        }),
    decreases items.len(),
{
    if items.len() == 1 {
        assert(spec_write_items(items) == spec_write(items[0]));
        assert(spec_write(items[0]) + Seq::<u8>::empty() =~= spec_write(items[0]));
    } else if items.len() == 2 {
        let dl = items.drop_last();
        let df = items.drop_first();
        assert(dl.len() == 1 && df.len() == 1);
        assert(dl[0] == items[0] && df[0] == items[1]);
        assert(spec_write_items(dl) == spec_write(items[0]));
        assert(spec_write_items(df) == spec_write(items[1]));
        assert(items.last() == items[1]);
        assert(spec_write_items(items) == spec_write_items(dl) + seq![0x2cu8] + spec_write(
            items.last(),
        ));
        assert(spec_write_items(items) =~= spec_write(items[0]) + (seq![0x2cu8]
            + spec_write_items(df)));
    } else {
        let dl = items.drop_last();
        let df = items.drop_first();
        lemma_write_items_first(dl);
        assert(dl[0] == items[0]);
        assert(df.drop_last() =~= dl.drop_first());
        assert(df.last() == items.last());
        assert(df.len() >= 2);
        assert(spec_write_items(df) == spec_write_items(df.drop_last()) + seq![0x2cu8]
            + spec_write(df.last()));
        assert(spec_write_items(items) == spec_write_items(dl) + seq![0x2cu8] + spec_write(
            items.last(),
        ));
        assert(spec_write_items(dl) == spec_write(items[0]) + (seq![0x2cu8] + spec_write_items(
            dl.drop_first(),
        )));
        assert(spec_write_items(items) =~= spec_write(items[0]) + (seq![0x2cu8]
            + spec_write_items(df)));
    }
}

/// Written fields decomposed from the front rather than the back.
proof fn lemma_write_fields_first(fields: Seq<(Seq<char>, JsonV)>)
    requires
        fields.len() >= 1,
    ensures
        spec_write_fields(fields) == spec_write_field(fields[0]) + (if fields.len() > 1 {
            seq![0x2cu8] + spec_write_fields(fields.drop_first())
        } else {
            Seq::<u8>::empty()
        }),
    decreases fields.len(),
{
    if fields.len() == 1 {
        assert(spec_write_fields(fields) == spec_write_field(fields[0]));
        assert(spec_write_field(fields[0]) + Seq::<u8>::empty() =~= spec_write_field(fields[0]));
    } else if fields.len() == 2 {
        let dl = fields.drop_last();
        let df = fields.drop_first();
        assert(dl.len() == 1 && df.len() == 1);
        assert(dl[0] == fields[0] && df[0] == fields[1]);
        assert(spec_write_fields(dl) == spec_write_field(fields[0]));
        assert(spec_write_fields(df) == spec_write_field(fields[1]));
        assert(fields.last() == fields[1]);
        assert(spec_write_fields(fields) == spec_write_fields(dl) + seq![0x2cu8]
            + spec_write_field(fields.last()));
        assert(spec_write_fields(fields) =~= spec_write_field(fields[0]) + (seq![0x2cu8]
            + spec_write_fields(df)));
    } else {
        let dl = fields.drop_last();
        let df = fields.drop_first();
        lemma_write_fields_first(dl);
        assert(dl[0] == fields[0]);
        assert(df.drop_last() =~= dl.drop_first());
        assert(df.last() == fields.last());
        assert(df.len() >= 2);
        assert(spec_write_fields(df) == spec_write_fields(df.drop_last()) + seq![0x2cu8]
            + spec_write_field(df.last()));
        assert(spec_write_fields(fields) == spec_write_fields(dl) + seq![0x2cu8]
            + spec_write_field(fields.last()));
        assert(spec_write_fields(dl) == spec_write_field(fields[0]) + (seq![0x2cu8]
            + spec_write_fields(dl.drop_first())));
        assert(spec_write_fields(fields) =~= spec_write_field(fields[0]) + (seq![0x2cu8]
            + spec_write_fields(df)));
    }
}

/// The first byte a value is written as: never whitespace, and it names the
/// branch the parser takes.
proof fn lemma_write_first(v: JsonV)
    ensures
        spec_write(v).len() >= 1,
        !is_ws(spec_write(v)[0]),
        match v {
            JsonV::Null => spec_write(v)[0] == 0x6e,
            JsonV::Bool(b) => spec_write(v)[0] == if b {
                0x74u8
            } else {
                0x66u8
            },
            JsonV::Int(_) => spec_write(v)[0] == 0x2d || is_digit(spec_write(v)[0]),
            JsonV::Str(_) => spec_write(v)[0] == 0x22,
            JsonV::Arr(_) => spec_write(v)[0] == 0x5b,
            JsonV::Obj(_) => spec_write(v)[0] == 0x7b,
        },
{
    match v {
        JsonV::Int(n) => {
            let mag: nat = if n < 0 {
                (-n) as nat
            } else {
                n as nat
            };
            lemma_dec_digits_props(mag);
            if n < 0 {
                assert(spec_write(v) == seq![0x2du8] + dec_digits(mag));
                assert(spec_write(v)[0] == 0x2d);
            } else {
                assert(spec_write(v)[0] == dec_digits(mag)[0]);
            }
        },
        JsonV::Str(sc) => {
            assert(spec_write(v)[0] == 0x22);
        },
        JsonV::Arr(items) => {
            assert(spec_write(v)[0] == 0x5b);
        },
        JsonV::Obj(fields) => {
            assert(spec_write(v)[0] == 0x7b);
        },
        _ => {},
    }
}

proof fn lemma_parse_string_inverts(sc: Seq<char>, s: Seq<u8>, i: int)
    requires
        0 <= i,
        i + spec_write_string(sc).len() <= s.len(),
        s.subrange(i, i + spec_write_string(sc).len()) == spec_write_string(sc),
    ensures
        spec_parse_string(s, i) == Some((sc, i + spec_write_string(sc).len())),
{
    let w = spec_write_string(sc);
    let e = escape_bytes(encode_utf8(sc));
    let end = i + w.len();
    assert(w =~= seq![0x22u8] + (e + seq![0x22u8]));
    lemma_subrange_split(s, i, seq![0x22u8], e + seq![0x22u8]);
    lemma_subrange_index(s, i, seq![0x22u8]);
    assert(s[i + 0] == seq![0x22u8][0]);
    lemma_subrange_split(s, i + 1, e, seq![0x22u8]);
    lemma_subrange_index(s, i + 1 + e.len(), seq![0x22u8]);
    assert(s[i + 1 + e.len() + 0] == seq![0x22u8][0]);
    assert(s[end - 1] == 0x22);
    lemma_scan_escaped(encode_utf8(sc), s, i + 1);
    encode_utf8_valid_utf8(sc);
    encode_utf8_decode_utf8(sc);
}

/// The parser returns exactly the value whose written form stands at `i`.
#[verifier::spinoff_prover]
#[verifier::rlimit(100)]
proof fn lemma_parse_value_inverts(v: JsonV, s: Seq<u8>, i: int, fuel: nat)
    requires
        wf_json(v),
        0 <= i,
        i + spec_write(v).len() <= s.len(),
        s.subrange(i, i + spec_write(v).len()) == spec_write(v),
        v is Int ==> i + spec_write(v).len() == s.len() || !(is_digit(s[i + spec_write(v).len()])
            || s[i + spec_write(v).len()] == 0x2e || s[i + spec_write(v).len()] == 0x65 || s[i
            + spec_write(v).len()] == 0x45),
        fuel >= 2 * (s.len() - i) + 2,
    ensures
        spec_parse_value(s, i, fuel) == Some((v, i + spec_write(v).len())),
    decreases v,
{
    let w = spec_write(v);
    let end = i + w.len();
    lemma_write_first(v);
    lemma_subrange_index(s, i, w);
    assert(s[i + 0] == w[0]);
    assert(!is_ws(s[i]));
    assert(spec_skip_ws(s, i) == i);
    match v {
        JsonV::Null => {
            assert(s[i + 1] == w[1] && s[i + 2] == w[2] && s[i + 3] == w[3]);
            assert(spec_parse_value(s, i, fuel) == Some((v, i + spec_write(v).len())));
        },
        JsonV::Bool(b) => {
            if b {
                assert(s[i + 1] == w[1] && s[i + 2] == w[2] && s[i + 3] == w[3]);
            } else {
                assert(s[i + 1] == w[1] && s[i + 2] == w[2] && s[i + 3] == w[3] && s[i + 4]
                    == w[4]);
            }
            assert(spec_parse_value(s, i, fuel) == Some((v, i + spec_write(v).len())));
        },
        JsonV::Int(n) => {
            lemma_parse_int_inverts(n, s, i);
            assert(spec_parse_value(s, i, fuel) == Some((v, i + spec_write(v).len())));
        },
        JsonV::Str(sc) => {
            lemma_parse_string_inverts(sc, s, i);
            assert(spec_parse_value(s, i, fuel) == Some((v, i + spec_write(v).len())));
        },
        JsonV::Arr(items) => {
            let wi = spec_write_items(items);
            assert(w =~= seq![0x5bu8] + (wi + seq![0x5du8]));
            lemma_subrange_split(s, i, seq![0x5bu8], wi + seq![0x5du8]);
            lemma_subrange_split(s, i + 1, wi, seq![0x5du8]);
            lemma_subrange_index(s, i + 1 + wi.len(), seq![0x5du8]);
            assert(s[i + 1 + wi.len() + 0] == seq![0x5du8][0]);
            assert(s[end - 1] == 0x5d);
            if items.len() == 0 {
                assert(items =~= Seq::<JsonV>::empty());
                assert(wi.len() == 0);
                assert(s[i + 1] == 0x5d);
                assert(spec_skip_ws(s, i + 1) == i + 1);
                assert(spec_parse_arr_rest(s, i + 1, (fuel - 1) as nat) == Some(
                    (JsonV::Arr(Seq::<JsonV>::empty()), i + 2),
                ));
            } else {
                lemma_write_items_first(items);
                lemma_write_first(items[0]);
                lemma_subrange_index(s, i + 1, wi);
                assert(s[i + 1 + 0] == wi[0]);
                assert(wi[0] == spec_write(items[0])[0]);
                assert(!is_ws(s[i + 1]) && s[i + 1] != 0x5d);
                assert(spec_skip_ws(s, i + 1) == i + 1);
                lemma_arr_items_inverts(items, Seq::<JsonV>::empty(), s, i + 1, (fuel - 1) as nat);
                assert(Seq::<JsonV>::empty() + items =~= items);
            }
            assert(spec_parse_value(s, i, fuel) == Some((v, i + spec_write(v).len())));
        },
        JsonV::Obj(fields) => {
            let wi = spec_write_fields(fields);
            assert(w =~= seq![0x7bu8] + (wi + seq![0x7du8]));
            lemma_subrange_split(s, i, seq![0x7bu8], wi + seq![0x7du8]);
            lemma_subrange_split(s, i + 1, wi, seq![0x7du8]);
            lemma_subrange_index(s, i + 1 + wi.len(), seq![0x7du8]);
            assert(s[i + 1 + wi.len() + 0] == seq![0x7du8][0]);
            assert(s[end - 1] == 0x7d);
            if fields.len() == 0 {
                assert(fields =~= Seq::<(Seq<char>, JsonV)>::empty());
                assert(wi.len() == 0);
                assert(s[i + 1] == 0x7d);
                assert(spec_skip_ws(s, i + 1) == i + 1);
                assert(spec_parse_obj_rest(s, i + 1, (fuel - 1) as nat) == Some(
                    (JsonV::Obj(Seq::<(Seq<char>, JsonV)>::empty()), i + 2),
                ));
            } else {
                lemma_write_fields_first(fields);
                lemma_subrange_index(s, i + 1, wi);
                assert(s[i + 1 + 0] == wi[0]);
                assert(wi[0] == spec_write_field(fields[0])[0]);
                assert(spec_write_field(fields[0])[0] == spec_write_string(fields[0].0)[0]);
                assert(spec_write_string(fields[0].0)[0] == 0x22);
                assert(!is_ws(s[i + 1]) && s[i + 1] != 0x7d);
                assert(spec_skip_ws(s, i + 1) == i + 1);
                lemma_obj_fields_inverts(
                    fields,
                    Seq::<(Seq<char>, JsonV)>::empty(),
                    s,
                    i + 1,
                    (fuel - 1) as nat,
                );
                assert(Seq::<(Seq<char>, JsonV)>::empty() + fields =~= fields);
            }
            assert(spec_parse_value(s, i, fuel) == Some((v, i + spec_write(v).len())));
        },
    }
}

/// The item parser consumes exactly the written remaining items and the
/// closing bracket, appending their values to the accumulator.
proof fn lemma_arr_items_inverts(
    rem: Seq<JsonV>,
    acc: Seq<JsonV>,
    s: Seq<u8>,
    i: int,
    fuel: nat,
)
    requires
        rem.len() >= 1,
        forall|k: int| 0 <= k < rem.len() ==> wf_json(#[trigger] rem[k]),
        0 <= i,
        i + spec_write_items(rem).len() + 1 <= s.len(),
        s.subrange(i, i + spec_write_items(rem).len()) == spec_write_items(rem),
        s[i + spec_write_items(rem).len()] == 0x5d,
        fuel >= 2 * (s.len() - i) + 3,
    ensures
        spec_parse_arr_items(s, i, acc, fuel) == Some(
            (JsonV::Arr(acc + rem), i + spec_write_items(rem).len() + 1),
        ),
    decreases rem,
{
    let wi = spec_write_items(rem);
    let w0 = spec_write(rem[0]);
    lemma_write_items_first(rem);
    assert(rem[0] == rem[0]);
    if rem.len() == 1 {
        assert(wi =~= w0);
        lemma_parse_value_inverts(rem[0], s, i, (fuel - 1) as nat);
        assert(s[i + w0.len()] == 0x5d);
        assert(!is_ws(s[i + w0.len()]));
        assert(spec_skip_ws(s, i + w0.len()) == i + w0.len());
        assert(acc.push(rem[0]) =~= acc + rem);
    } else {
        let wrest = spec_write_items(rem.drop_first());
        assert(wi =~= w0 + (seq![0x2cu8] + wrest));
        lemma_subrange_split(s, i, w0, seq![0x2cu8] + wrest);
        lemma_subrange_split(s, i + w0.len(), seq![0x2cu8], wrest);
        lemma_subrange_index(s, i + w0.len(), seq![0x2cu8]);
        assert(s[i + w0.len() + 0] == seq![0x2cu8][0]);
        assert(s[i + w0.len()] == 0x2c);
        lemma_parse_value_inverts(rem[0], s, i, (fuel - 1) as nat);
        assert(!is_ws(s[i + w0.len()]));
        assert(spec_skip_ws(s, i + w0.len()) == i + w0.len());
        assert forall|k: int| 0 <= k < rem.drop_first().len() implies wf_json(
            #[trigger] rem.drop_first()[k],
        ) by {
            assert(rem.drop_first()[k] == rem[k + 1]);
        }
        assert((i + w0.len() + 1) + wrest.len() == i + wi.len());
        lemma_arr_items_inverts(
            rem.drop_first(),
            acc.push(rem[0]),
            s,
            i + w0.len() + 1,
            (fuel - 1) as nat,
        );
        assert(acc.push(rem[0]) + rem.drop_first() =~= acc + rem);
    }
}

/// The field parser consumes exactly the written remaining fields and the
/// closing brace, appending them to the accumulator.
proof fn lemma_obj_fields_inverts(
    rem: Seq<(Seq<char>, JsonV)>,
    acc: Seq<(Seq<char>, JsonV)>,
    s: Seq<u8>,
    i: int,
    fuel: nat,
)
    requires
        rem.len() >= 1,
        forall|k: int| 0 <= k < rem.len() ==> wf_json(#[trigger] rem[k].1),
        0 <= i,
        i + spec_write_fields(rem).len() + 1 <= s.len(),
        s.subrange(i, i + spec_write_fields(rem).len()) == spec_write_fields(rem),
        s[i + spec_write_fields(rem).len()] == 0x7d,
        fuel >= 2 * (s.len() - i) + 3,
    ensures
        spec_parse_obj_fields(s, i, acc, fuel) == Some(
            (JsonV::Obj(acc + rem), i + spec_write_fields(rem).len() + 1),
        ),
    decreases rem,
{
    let wi = spec_write_fields(rem);
    let wf0 = spec_write_field(rem[0]);
    let wkey = spec_write_string(rem[0].0);
    let wval = spec_write(rem[0].1);
    lemma_write_fields_first(rem);
    assert(wf0 =~= wkey + (seq![0x3au8] + wval));
    if rem.len() == 1 {
        assert(wi =~= wf0);
        lemma_subrange_split(s, i, wkey, seq![0x3au8] + wval);
        lemma_subrange_split(s, i + wkey.len(), seq![0x3au8], wval);
        lemma_subrange_index(s, i + wkey.len(), seq![0x3au8]);
        assert(s[i + wkey.len() + 0] == seq![0x3au8][0]);
        assert(s[i + wkey.len()] == 0x3a);
        lemma_parse_string_inverts(rem[0].0, s, i);
        lemma_subrange_index(s, i, wkey);
        assert(s[i + 0] == wkey[0]);
        assert(s[i] == 0x22);
        assert(!is_ws(s[i]));
        assert(spec_skip_ws(s, i) == i);
        assert(!is_ws(s[i + wkey.len()]));
        assert(spec_skip_ws(s, i + wkey.len()) == i + wkey.len());
        let vstart = i + wkey.len() + 1;
        assert(s.subrange(vstart, vstart + wval.len()) == wval);
        assert(vstart + wval.len() == i + wi.len());
        assert(s[i + wi.len()] == 0x7d);
        lemma_parse_value_inverts(rem[0].1, s, vstart, (fuel - 1) as nat);
        assert(!is_ws(s[vstart + wval.len()]));
        assert(spec_skip_ws(s, vstart + wval.len()) == vstart + wval.len());
        assert(acc.push((rem[0].0, rem[0].1)) =~= acc + rem);
    } else {
        let wrest = spec_write_fields(rem.drop_first());
        assert(wi =~= wf0 + (seq![0x2cu8] + wrest));
        lemma_subrange_split(s, i, wf0, seq![0x2cu8] + wrest);
        lemma_subrange_split(s, i + wf0.len(), seq![0x2cu8], wrest);
        lemma_subrange_index(s, i + wf0.len(), seq![0x2cu8]);
        assert(s[i + wf0.len() + 0] == seq![0x2cu8][0]);
        assert(s[i + wf0.len()] == 0x2c);
        lemma_subrange_split(s, i, wkey, seq![0x3au8] + wval);
        lemma_subrange_split(s, i + wkey.len(), seq![0x3au8], wval);
        lemma_subrange_index(s, i + wkey.len(), seq![0x3au8]);
        assert(s[i + wkey.len() + 0] == seq![0x3au8][0]);
        assert(s[i + wkey.len()] == 0x3a);
        lemma_parse_string_inverts(rem[0].0, s, i);
        lemma_subrange_index(s, i, wkey);
        assert(s[i + 0] == wkey[0]);
        assert(s[i] == 0x22);
        assert(spec_skip_ws(s, i) == i);
        assert(spec_skip_ws(s, i + wkey.len()) == i + wkey.len());
        let vstart = i + wkey.len() + 1;
        assert(s.subrange(vstart, vstart + wval.len()) == wval);
        assert(s[vstart + wval.len()] == 0x2c);
        lemma_parse_value_inverts(rem[0].1, s, vstart, (fuel - 1) as nat);
        assert(spec_skip_ws(s, vstart + wval.len()) == vstart + wval.len());
        assert forall|k: int| 0 <= k < rem.drop_first().len() implies wf_json(
            #[trigger] rem.drop_first()[k].1,
        ) by {
            assert(rem.drop_first()[k] == rem[k + 1]);
        }
        assert((i + wf0.len() + 1) + wrest.len() == i + wi.len());
        lemma_obj_fields_inverts(
            rem.drop_first(),
            acc.push((rem[0].0, rem[0].1)),
            s,
            i + wf0.len() + 1,
            (fuel - 1) as nat,
        );
        assert(acc.push((rem[0].0, rem[0].1)) + rem.drop_first() =~= acc + rem);
    }
}

/// Round trip: parsing a written well-formed value yields that value.
pub proof fn lemma_write_parse_round_trip(v: JsonV)
    requires
        wf_json(v),
    ensures
        spec_parse_json(spec_write(v)) == Some(v),
{
    let s = spec_write(v);
    assert(s.subrange(0, s.len() as int) =~= s);
    lemma_parse_value_inverts(v, s, 0, (2 * s.len() + 2) as nat);
}

/// Round trip of a whole line: a written value followed by a newline parses
/// back to that value.
pub proof fn lemma_write_parse_round_trip_line(v: JsonV)
    requires
        wf_json(v),
    ensures
        spec_parse_json(spec_write(v) + seq![0x0au8]) == Some(v),
{
    let w = spec_write(v);
    let s = w + seq![0x0au8];
    assert(s.subrange(0, w.len() as int) =~= w);
    assert(s[w.len() as int] == 0x0a);
    lemma_parse_value_inverts(v, s, 0, (2 * s.len() + 2) as nat);
    assert(spec_skip_ws(s, s.len() as int) == s.len());
    assert(spec_skip_ws(s, w.len() as int) == spec_skip_ws(s, w.len() + 1int));
    assert(spec_skip_ws(s, w.len() as int) == s.len());
}

impl Json {
    /// A structurally equal copy.
    #[verifier::loop_isolation(false)]
    pub fn duplicate(&self) -> (r: Json)
        ensures
            r.model() == self.model(),
        decreases self,
    {
        match self {
            Json::Null => Json::Null,
            Json::Bool(b) => Json::Bool(*b),
            Json::Int(n) => Json::Int(*n),
            Json::Str(s) => Json::Str(s.clone()),
            Json::Arr(items) => {
                let mut out: Vec<Json> = Vec::new();
                let mut k: usize = 0;
                while k < items.len()
                    invariant
                        k <= items@.len(),
                        model_items(out@) == model_items(items@).take(k as int),
                    decreases items@.len() - k,
                {
                    let ghost pre = out@;
                    out.push(items[k].duplicate());
                    proof {
                        lemma_model_items_index(items@);
                        assert(out@.drop_last() =~= pre);
                        assert(model_items(out@) =~= model_items(items@).take(k as int + 1));
                    }
                    k = k + 1;
                }
                proof {
                    lemma_model_items_index(items@);
                    assert(model_items(items@).take(items@.len() as int) =~= model_items(items@));
                }
                Json::Arr(out)
            },
            Json::Obj(fields) => {
                let mut out: Vec<(String, Json)> = Vec::new();
                let mut k: usize = 0;
                while k < fields.len()
                    invariant
                        k <= fields@.len(),
                        model_fields(out@) == model_fields(fields@).take(k as int),
                    decreases fields@.len() - k,
                {
                    let ghost pre = out@;
                    out.push((fields[k].0.clone(), fields[k].1.duplicate()));
                    proof {
                        lemma_model_fields_index(fields@);
                        assert(out@.drop_last() =~= pre);
                        assert(model_fields(out@) =~= model_fields(fields@).take(k as int + 1));
                    }
                    k = k + 1;
                }
                proof {
                    lemma_model_fields_index(fields@);
                    assert(model_fields(fields@).take(fields@.len() as int) =~= model_fields(
                        fields@,
                    ));
                }
                Json::Obj(out)
            },
        }
    }
}

} // verus!
