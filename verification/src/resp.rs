//! The wire codec: the protocol message type, its byte-level encoding, and
//! the decoder. The framing is line-oriented: simple strings `+<text>\r\n`,
//! bulk strings `$<len>\r\n<bytes>\r\n`, the null bulk string `$-1\r\n`,
//! arrays `*<count>\r\n<elements>`, and the binary payload `$<len>\r\n<bytes>`
//! with no trailing terminator. Textual content is ASCII; the decoder rejects
//! bytes outside ASCII in string content.

use crate::text::{
    all_digit_bytes, ascii_bytes, ascii_str, bytes_of_chars, chars_of_bytes, dec_digits, dec_val,
    dec_value, dec_value_of, is_digit_byte, lemma_dec_digits_wf, lemma_digits_are_ascii,
    u128_to_dec,
};
use vstd::prelude::*;
use vstd::string::StrSliceExecFns;
use vstd::string::StringExecFns;
use vstd::utf8::is_ascii_chars;

verus! {

broadcast use vstd::string::is_ascii_spec_bytes, vstd::std_specs::vec::group_vec_axioms;

/// A protocol message.
#[derive(Debug, PartialEq)]
pub enum RESP {
    SimpleString(String),
    BulkStrings(String),
    NullBulkStrings,
    Array(Vec<RESP>),
    Rdb(Vec<u8>),
}

/// The mathematical model of a message: text as character sequences, arrays
/// as sequences of models.
pub enum RespV {
    Simple(Seq<char>),
    Bulk(Seq<char>),
    Null,
    Arr(Seq<RespV>),
    Rdb(Seq<u8>),
}

pub open spec fn resp_view(m: RESP) -> RespV
    decreases m,
{
    match m {
        RESP::SimpleString(s) => RespV::Simple(s@),
        RESP::BulkStrings(s) => RespV::Bulk(s@),
        RESP::NullBulkStrings => RespV::Null,
        RESP::Array(a) => RespV::Arr(resp_seq_view(a@)),
        RESP::Rdb(b) => RespV::Rdb(b@),
    }
}

/// The models of a sequence of messages, element by element.
pub open spec fn resp_seq_view(a: Seq<RESP>) -> Seq<RespV>
    decreases a,
{
    if a.len() == 0 {
        Seq::empty()
    } else {
        seq![resp_view(a[0])] + resp_seq_view(a.drop_first())
    }
}

pub proof fn lemma_resp_seq_view_index(a: Seq<RESP>)
    ensures
        resp_seq_view(a).len() == a.len(),
        forall|i: int|
            #![trigger resp_seq_view(a)[i]]
            #![trigger a[i]]
            0 <= i < a.len() ==> resp_seq_view(a)[i] == resp_view(a[i]),
    decreases a,
{
    if a.len() > 0 {
        lemma_resp_seq_view_index(a.drop_first());
        assert forall|i: int| 0 <= i < a.len() implies resp_seq_view(a)[i] == resp_view(
            #[trigger] a[i],
        ) by {
            if i > 0 {
                assert(resp_seq_view(a)[i] == resp_seq_view(a.drop_first())[i - 1]);
                assert(a.drop_first()[i - 1] == a[i]);
            }
        }
    }
}

impl View for RESP {
    type V = RespV;

    open spec fn view(&self) -> RespV {
        resp_view(*self)
    }
}

impl DeepView for RESP {
    type V = RespV;

    open spec fn deep_view(&self) -> RespV {
        resp_view(*self)
    }
}

/// Every piece of text in the message is ASCII, so the message has a byte
/// encoding.
pub open spec fn encodable(m: RespV) -> bool
    decreases m,
{
    match m {
        RespV::Simple(s) => is_ascii_chars(s),
        RespV::Bulk(s) => is_ascii_chars(s),
        RespV::Null => true,
        RespV::Arr(a) => forall|i: int| 0 <= i < a.len() ==> encodable(#[trigger] a[i]),
        RespV::Rdb(_) => true,
    }
}

/// The message holds no binary payload, so it has a purely textual encoding.
pub open spec fn rdb_free(m: RespV) -> bool
    decreases m,
{
    match m {
        RespV::Arr(a) => forall|i: int| 0 <= i < a.len() ==> rdb_free(#[trigger] a[i]),
        RespV::Rdb(_) => false,
        _ => true,
    }
}

pub open spec fn no_cr(s: Seq<char>) -> bool {
    forall|i: int| 0 <= i < s.len() ==> #[trigger] s[i] != '\r'
}

/// A message the codec round-trips: ASCII text, no binary payload, and no
/// carriage return inside simple-string content (the encoding could not frame
/// one).
pub open spec fn wf_text(m: RespV) -> bool
    decreases m,
{
    match m {
        RespV::Simple(s) => is_ascii_chars(s) && no_cr(s),
        RespV::Bulk(s) => is_ascii_chars(s),
        RespV::Null => true,
        RespV::Arr(a) => forall|i: int| 0 <= i < a.len() ==> wf_text(#[trigger] a[i]),
        RespV::Rdb(_) => false,
    }
}

pub proof fn lemma_wf_text_encodable(m: RespV)
    requires
        wf_text(m),
    ensures
        encodable(m),
        rdb_free(m),
    decreases m,
{
    match m {
        RespV::Arr(a) => {
            assert(RespV::Arr(a)->Arr_0 == a);
            assert forall|i: int| 0 <= i < a.len() implies encodable(#[trigger] a[i]) && rdb_free(
                a[i],
            ) by {
                assert(wf_text(a[i]));
                lemma_wf_text_encodable(a[i]);
            }
        },
        _ => {},
    }
}

pub open spec fn crlf() -> Seq<u8> {
    seq![13u8, 10u8]
}

/// The byte encoding of a message, exactly as it goes on the wire.
pub open spec fn encode_resp(m: RespV) -> Seq<u8>
    decreases m,
{
    match m {
        RespV::Simple(s) => seq![43u8] + bytes_of_chars(s) + crlf(),
        RespV::Bulk(s) => seq![36u8] + dec_digits(s.len()) + crlf() + bytes_of_chars(s) + crlf(),
        RespV::Null => seq![36u8, 45u8, 49u8, 13u8, 10u8],
        RespV::Arr(a) => seq![42u8] + dec_digits(a.len()) + crlf() + encode_seq(a),
        RespV::Rdb(b) => seq![36u8] + dec_digits(b.len()) + crlf() + b,
    }
}

/// The concatenated encodings of a sequence of messages.
pub open spec fn encode_seq(a: Seq<RespV>) -> Seq<u8>
    decreases a,
{
    if a.len() == 0 {
        Seq::empty()
    } else {
        encode_resp(a[0]) + encode_seq(a.drop_first())
    }
}

pub proof fn lemma_encode_seq_push(a: Seq<RespV>, x: RespV)
    ensures
        encode_seq(a.push(x)) == encode_seq(a) + encode_resp(x),
    decreases a,
{
    let p = a.push(x);
    if a.len() == 0 {
        assert(p[0] == x);
        assert(p.drop_first() =~= Seq::<RespV>::empty());
        assert(encode_seq(p.drop_first()).len() == 0);
        assert(encode_seq(p) == encode_resp(x) + encode_seq(p.drop_first()));
        assert(encode_seq(a).len() == 0);
        assert(encode_seq(p) =~= encode_seq(a) + encode_resp(x));
    } else {
        assert(p.drop_first() =~= a.drop_first().push(x));
        lemma_encode_seq_push(a.drop_first(), x);
        assert(p[0] == a[0]);
        assert(encode_seq(p) == encode_resp(a[0]) + encode_seq(a.drop_first().push(x)));
        assert(encode_seq(p) =~= encode_seq(a) + encode_resp(x));
    }
}

impl RESP {
    /// Appends the encoding of `m` to `out`.
    fn encode_into(m: &RESP, out: &mut Vec<u8>)
        requires
            encodable(m@),
        ensures
            final(out)@ == old(out)@ + encode_resp(m@),
        decreases *m,
    {
        broadcast use vstd::std_specs::vec::group_vec_axioms;

        match m {
            RESP::SimpleString(s) => {
                out.push(43);
                let ss = s.as_str();
                let mut b = ss.as_bytes_vec();
                proof {
                    vstd::string::is_ascii_spec_bytes(ss);
                    assert(b@ =~= bytes_of_chars(s@));
                }
                out.append(&mut b);
                out.push(13);
                out.push(10);
                proof {
                    assert(out@ =~= old(out)@ + encode_resp(m@));
                }
            },
            RESP::BulkStrings(s) => {
                out.push(36);
                let ss = s.as_str();
                let mut b = ss.as_bytes_vec();
                proof {
                    vstd::string::is_ascii_spec_bytes(ss);
                    assert(b@ =~= bytes_of_chars(s@));
                }
                let mut d = u128_to_dec(b.len() as u128);
                out.append(&mut d);
                out.push(13);
                out.push(10);
                out.append(&mut b);
                out.push(13);
                out.push(10);
                proof {
                    assert(out@ =~= old(out)@ + encode_resp(m@));
                }
            },
            RESP::NullBulkStrings => {
                out.push(36);
                out.push(45);
                out.push(49);
                out.push(13);
                out.push(10);
                proof {
                    assert(out@ =~= old(out)@ + encode_resp(m@));
                }
            },
            RESP::Array(a) => {
                let ghost av = resp_seq_view(a@);
                proof {
                    lemma_resp_seq_view_index(a@);
                    assert(m@ == RespV::Arr(av));
                    assert(encodable(RespV::Arr(av)));
                    assert(RespV::Arr(av)->Arr_0 == av);
                    assert(forall|j: int| 0 <= j < av.len() ==> encodable(#[trigger] av[j]));
                }
                out.push(42);
                let mut d = u128_to_dec(a.len() as u128);
                out.append(&mut d);
                out.push(13);
                out.push(10);
                proof {
                    assert(out@ =~= old(out)@ + seq![42u8] + dec_digits(av.len()) + crlf());
                }
                let ghost header = out@;
                let mut i: usize = 0;
                while i < a.len()
                    invariant
                        encodable(m@),
                        m is Array,
                        m->Array_0 == *a,
                        m@ == RespV::Arr(av),
                        av == resp_seq_view(a@),
                        av.len() == a@.len(),
                        forall|j: int| 0 <= j < a@.len() ==> av[j] == resp_view(#[trigger] a@[j]),
                        forall|j: int| 0 <= j < av.len() ==> encodable(#[trigger] av[j]),
                        0 <= i <= a@.len(),
                        out@ == header + encode_seq(av.take(i as int)),
                    decreases a@.len() - i,
                {
                    assert(a@[i as int]@ == av[i as int]);
                    assert(encodable(av[i as int]));
                    proof {
                        assert(decreases_to!(*m => m->Array_0));
                        vstd::std_specs::vec::axiom_vec_index_decreases(*a, i as int);
                        assert(decreases_to!(*m => a@[i as int]));
                    }
                    Self::encode_into(&a[i], out);
                    proof {
                        lemma_encode_seq_push(av.take(i as int), av[i as int]);
                        assert(av.take(i as int).push(av[i as int]) =~= av.take(i + 1));
                    }
                    i += 1;
                }
                proof {
                    assert(av.take(a@.len() as int) =~= av);
                    assert(out@ =~= old(out)@ + encode_resp(m@));
                }
            },
            RESP::Rdb(b) => {
                out.push(36);
                let mut d = u128_to_dec(b.len() as u128);
                out.append(&mut d);
                out.push(13);
                out.push(10);
                let mut c = vstd::slice::slice_to_vec(b.as_slice());
                out.append(&mut c);
                proof {
                    assert(out@ =~= old(out)@ + encode_resp(m@));
                }
            },
        }
    }

    /// Reads one message from `data` at `pos`: the message and the index just
    /// after it.
    #[verifier::rlimit(100)]
    fn parse_at(data: &[u8], pos: usize) -> (r: Result<(RESP, usize), ProtocolError>)
        requires
            pos <= data@.len(),
        ensures
            match r {
                Ok(p) => pos < p.1 <= data@.len() && decode_resp(data@.skip(pos as int)) == Ok::<
                    (RespV, int),
                    ProtocolError,
                >((p.0@, p.1 - pos as int)),
                Err(e) => decode_resp(data@.skip(pos as int)) == Err::<
                    (RespV, int),
                    ProtocolError,
                >(e),
            },
        decreases data@.len() - pos,
    {
        let ghost s = data@.skip(pos as int);
        let len = data.len();
        if pos == len {
            assert(s.len() == 0);
            return Err(ProtocolError::Truncated);
        }
        let tag = data[pos];
        assert(tag == s[0]);
        let ghost t = s.skip(1);
        proof {
            assert(t =~= data@.skip(pos as int + 1));
        }
        if tag == 43 {
            match Self::find_line_end_at(data, pos) {
                Some(i) => {
                    let ghost i0 = (i - pos - 1) as nat;
                    proof {
                        assert(t.take(i0 as int) =~= data@.subrange(pos as int + 1, i as int));
                    }
                    if all_ascii_range(data, pos + 1, i) {
                        let content = ascii_content(data, pos + 1, i);
                        Ok((RESP::SimpleString(content), i + 2))
                    } else {
                        Err(ProtocolError::NonAscii)
                    }
                },
                None => Err(ProtocolError::MissingTerminator),
            }
        } else if tag == 36 {
            match Self::find_line_end_at(data, pos) {
                Some(i) => {
                    let ghost i0 = (i - pos - 1) as nat;
                    let ghost tok = t.take(i0 as int);
                    proof {
                        assert(tok =~= data@.subrange(pos as int + 1, i as int));
                    }
                    if i - (pos + 1) == 2 && data[pos + 1] == 45 && data[pos + 2] == 49 {
                        proof {
                            assert(tok =~= seq![45u8, 49u8]);
                        }
                        Ok((RESP::NullBulkStrings, i + 2))
                    } else {
                        proof {
                            assert(tok != seq![45u8, 49u8]) by {
                                if tok == seq![45u8, 49u8] {
                                    assert(tok.len() == 2);
                                    assert(data@[pos as int + 1] == tok[0]);
                                    assert(data@[pos as int + 2] == tok[1]);
                                }
                            }
                        }
                        match dec_value_of(data, pos + 1, i) {
                            Some(n) => {
                                let content_start = i + 2;
                                let rest_len = len - content_start;
                                let ghost rest = t.skip(i0 as int + 2);
                                proof {
                                    assert(rest =~= data@.skip(content_start as int));
                                }
                                if rest_len < 2 || n > (rest_len - 2) as u128 {
                                    assert(n as nat + 2 > rest.len());
                                    Err(ProtocolError::LengthMismatch)
                                } else {
                                    let n_us = n as usize;
                                    let cend = content_start + n_us;
                                    proof {
                                        assert(rest[n as int] == data@[cend as int]);
                                        assert(rest[n as int + 1] == data@[cend as int + 1]);
                                    }
                                    if data[cend] != 13 || data[cend + 1] != 10 {
                                        Err(ProtocolError::LengthMismatch)
                                    } else {
                                        proof {
                                            assert(rest.take(n as int) =~= data@.subrange(
                                                content_start as int,
                                                cend as int,
                                            ));
                                        }
                                        if all_ascii_range(data, content_start, cend) {
                                            let content = ascii_content(data, content_start, cend);
                                            Ok((RESP::BulkStrings(content), cend + 2))
                                        } else {
                                            Err(ProtocolError::NonAscii)
                                        }
                                    }
                                }
                            },
                            None => {
                                if all_digits_range(data, pos + 1, i) {
                                    proof {
                                        assert(dec_value(tok) == Some(dec_val(tok)));
                                        assert(dec_val(tok) > u128::MAX);
                                        assert(t.skip(i0 as int + 2).len() <= data@.len());
                                    }
                                    Err(ProtocolError::LengthMismatch)
                                } else {
                                    Err(ProtocolError::BadLength)
                                }
                            },
                        }
                    }
                },
                None => Err(ProtocolError::MissingTerminator),
            }
        } else if tag == 42 {
            match Self::find_line_end_at(data, pos) {
                Some(i) => {
                    let ghost i0 = (i - pos - 1) as nat;
                    let ghost tok = t.take(i0 as int);
                    proof {
                        assert(tok =~= data@.subrange(pos as int + 1, i as int));
                    }
                    let count = dec_value_of(data, pos + 1, i);
                    let n_exec: u128;
                    let ghost n_spec: nat;
                    match count {
                        Some(v) => {
                            n_exec = v;
                            proof {
                                n_spec = v as nat;
                            }
                        },
                        None => {
                            if all_digits_range(data, pos + 1, i) {
                                n_exec = u128::MAX;
                                proof {
                                    n_spec = dec_val(tok);
                                    assert(dec_value(tok) == Some(n_spec));
                                    assert(n_spec > u128::MAX);
                                }
                            } else {
                                return Err(ProtocolError::BadLength);
                            }
                        },
                    }
                    let hdr_end = i + 2;
                    let ghost t0 = data@.skip(hdr_end as int);
                    proof {
                        assert(t0 =~= t.skip(i0 as int + 2));
                    }
                    let mut elems: Vec<RESP> = Vec::new();
                    let mut cur: usize = hdr_end;
                    let mut k: u128 = 0;
                    while k < n_exec
                        invariant
                            pos < hdr_end <= cur <= data@.len(),
                            hdr_end == pos + i0 + 3,
                            t0 == data@.skip(hdr_end as int),
                            s == data@.skip(pos as int),
                            match decode_elems(t0, n_spec) {
                                Ok(p) => decode_resp(s) == Ok::<(RespV, int), ProtocolError>(
                                    (RespV::Arr(p.0), 1 + i0 + 2 + p.1),
                                ),
                                Err(e) => decode_resp(s) == Err::<(RespV, int), ProtocolError>(e),
                            },
                            k as nat <= n_spec,
                            k as nat <= cur - hdr_end,
                            n_spec == n_exec as nat || (n_spec > u128::MAX
                                && n_exec == u128::MAX),
                            elems@.len() == k as nat,
                            match decode_elems(data@.skip(cur as int), (n_spec - k) as nat) {
                                Ok(p) => decode_elems(t0, n_spec) == Ok::<
                                    (Seq<RespV>, int),
                                    ProtocolError,
                                >(
                                    (resp_seq_view(elems@) + p.0, (cur - hdr_end) + p.1),
                                ),
                                Err(e) => decode_elems(t0, n_spec) == Err::<
                                    (Seq<RespV>, int),
                                    ProtocolError,
                                >(e),
                            },
                        decreases n_exec - k,
                    {
                        let ghost rem = (n_spec - k) as nat;
                        assert(rem > 0);
                        match Self::parse_at(data, cur) {
                            Ok(pair) => {
                                let (m, end) = pair;
                                proof {
                                    let scur = data@.skip(cur as int);
                                    assert(scur.skip(end - cur) =~= data@.skip(end as int));
                                    lemma_resp_seq_view_push(elems@, m);
                                    match decode_elems(data@.skip(end as int), (rem - 1) as nat) {
                                        Ok(p2) => {
                                            assert(decode_elems(scur, rem) == Ok::<
                                                (Seq<RespV>, int),
                                                ProtocolError,
                                            >((seq![m@] + p2.0, (end - cur) + p2.1)));
                                            assert(resp_seq_view(elems@) + (seq![m@] + p2.0)
                                                =~= resp_seq_view(elems@.push(m)) + p2.0);
                                        },
                                        Err(_) => {},
                                    }
                                }
                                elems.push(m);
                                cur = end;
                            },
                            Err(e) => {
                                proof {
                                    assert(decode_elems(data@.skip(cur as int), rem) == Err::<
                                        (Seq<RespV>, int),
                                        ProtocolError,
                                    >(e));
                                }
                                return Err(e);
                            },
                        }
                        k += 1;
                    }
                    proof {
                        assert(cur - hdr_end <= data@.len());
                        assert(n_spec == k as nat);
                        assert(decode_elems(data@.skip(cur as int), 0) == Ok::<
                            (Seq<RespV>, int),
                            ProtocolError,
                        >((Seq::empty(), 0)));
                        assert(resp_seq_view(elems@) + Seq::<RespV>::empty() =~= resp_seq_view(
                            elems@,
                        ));
                        assert(decode_elems(t0, n_spec) == Ok::<(Seq<RespV>, int), ProtocolError>(
                            (resp_seq_view(elems@), (cur - hdr_end) as int),
                        ));
                    }
                    Ok((RESP::Array(elems), cur))
                },
                None => Err(ProtocolError::MissingTerminator),
            }
        } else {
            Err(ProtocolError::UnknownType)
        }
    }

    /// The line terminator search, phrased over the suffix that begins one
    /// byte past `pos` (past the type tag).
    fn find_line_end_at(data: &[u8], pos: usize) -> (r: Option<usize>)
        requires
            pos < data@.len(),
        ensures
            match r {
                Some(i) => pos + 1 <= i && i + 1 < data@.len() && line_end(
                    data@.skip(pos as int).skip(1),
                ) == Some((i - pos - 1) as nat),
                None => line_end(data@.skip(pos as int).skip(1)) is None,
            },
    {
        let len = data.len();
        assert(pos < len);
        let r = find_line_end(data, pos + 1);
        proof {
            assert(data@.skip(pos as int).skip(1) =~= data@.skip(pos as int + 1));
        }
        r
    }

    /// Decodes one message from the start of `data`; bytes past the message
    /// are ignored.
    pub fn from_bytes(data: &[u8]) -> (r: Result<RESP, ProtocolError>)
        ensures
            match r {
                Ok(m) => decode_resp(data@) is Ok && decode_resp(data@)->Ok_0.0 == m@,
                Err(e) => decode_resp(data@) == Err::<(RespV, int), ProtocolError>(e),
            },
    {
        proof {
            assert(data@.skip(0) =~= data@);
        }
        match Self::parse_at(data, 0) {
            Ok(pair) => Ok(pair.0),
            Err(e) => Err(e),
        }
    }

    /// The exact wire bytes of the message.
    pub fn as_bytes(self) -> (r: Vec<u8>)
        requires
            encodable(self@),
        ensures
            r@ == encode_resp(self@),
    {
        let mut out: Vec<u8> = Vec::new();
        Self::encode_into(&self, &mut out);
        out
    }

    /// The wire encoding of a purely textual message, as a string.
    pub fn to_string(self) -> (r: String)
        requires
            encodable(self@),
            rdb_free(self@),
        ensures
            r@ == chars_of_bytes(encode_resp(self@)),
    {
        let ghost v = self@;
        let mut out: Vec<u8> = Vec::new();
        Self::encode_into(&self, &mut out);
        proof {
            lemma_encode_ascii(v);
        }
        let s = ascii_str(out.as_slice());
        String::from_str(s)
    }

    pub fn simple_string(s: &str) -> (r: Self)
        ensures
            r@ == RespV::Simple(s@),
    {
        Self::SimpleString(s.to_owned())
    }

    pub fn bulk_strings(s: &str) -> (r: Self)
        ensures
            r@ == RespV::Bulk(s@),
    {
        Self::BulkStrings(s.to_owned())
    }
}

/// A textual message encodes to ASCII bytes alone.
pub proof fn lemma_encode_ascii(m: RespV)
    requires
        encodable(m),
        rdb_free(m),
    ensures
        ascii_bytes(encode_resp(m)),
    decreases m,
{
    match m {
        RespV::Simple(s) => {
            lemma_dec_digits_wf(s.len());
            assert forall|i: int| 0 <= i < encode_resp(m).len() implies #[trigger] encode_resp(
                m,
            )[i] < 128 by {
                let e = encode_resp(m);
                if 1 <= i < 1 + s.len() {
                    assert(e[i] == bytes_of_chars(s)[i - 1]);
                    assert(s[i - 1] <= '\u{7f}');
                }
            }
        },
        RespV::Bulk(s) => {
            lemma_dec_digits_wf(s.len());
            lemma_digits_are_ascii(dec_digits(s.len()));
            assert forall|i: int| 0 <= i < encode_resp(m).len() implies #[trigger] encode_resp(
                m,
            )[i] < 128 by {
                let e = encode_resp(m);
                let d = dec_digits(s.len());
                if 1 <= i < 1 + d.len() {
                    assert(e[i] == d[i - 1]);
                } else if 1 + d.len() + 2 <= i < 1 + d.len() + 2 + s.len() {
                    assert(e[i] == bytes_of_chars(s)[i - 1 - d.len() - 2]);
                    assert(s[i - 1 - d.len() - 2] <= '\u{7f}');
                }
            }
        },
        RespV::Null => {
            assert forall|i: int| 0 <= i < encode_resp(m).len() implies #[trigger] encode_resp(
                m,
            )[i] < 128 by {}
        },
        RespV::Arr(a) => {
            lemma_dec_digits_wf(a.len());
            lemma_digits_are_ascii(dec_digits(a.len()));
            lemma_encode_seq_ascii(a);
            assert forall|i: int| 0 <= i < encode_resp(m).len() implies #[trigger] encode_resp(
                m,
            )[i] < 128 by {
                let e = encode_resp(m);
                let d = dec_digits(a.len());
                if 1 <= i < 1 + d.len() {
                    assert(e[i] == d[i - 1]);
                } else if i >= 1 + d.len() + 2 {
                    assert(e[i] == encode_seq(a)[i - 1 - d.len() - 2]);
                }
            }
        },
        RespV::Rdb(_) => {},
    }
}

/// Why a byte sequence is not a well-formed message.
#[derive(Debug, PartialEq, Eq, Clone, Copy)]
pub enum ProtocolError {
    /// The input is empty where a message was expected.
    Truncated,
    /// The one-byte type tag is not `+`, `$` or `*`.
    UnknownType,
    /// A CRLF line terminator is missing.
    MissingTerminator,
    /// A length or count token is not a decimal number the machine can hold.
    BadLength,
    /// A declared length does not match the actual payload.
    LengthMismatch,
    /// String content holds a byte outside ASCII.
    NonAscii,
}

/// The index of the first carriage return in `s`.
pub open spec fn find_cr(s: Seq<u8>) -> Option<nat>
    decreases s.len(),
{
    if s.len() == 0 {
        None
    } else if s[0] == 13 {
        Some(0 as nat)
    } else {
        match find_cr(s.drop_first()) {
            Some(i) => Some((i + 1) as nat),
            None => None,
        }
    }
}

pub proof fn lemma_find_cr(s: Seq<u8>)
    ensures
        match find_cr(s) {
            Some(i) => i < s.len() && s[i as int] == 13 && (forall|j: int|
                0 <= j < i ==> s[j] != 13),
            None => forall|j: int| 0 <= j < s.len() ==> s[j] != 13,
        },
    decreases s.len(),
{
    if s.len() > 0 && s[0] != 13 {
        let d = s.drop_first();
        lemma_find_cr(d);
        match find_cr(d) {
            Some(i) => {
                assert(s[i as int + 1] == d[i as int]);
                assert forall|j: int| 0 <= j < i + 1 implies s[j] != 13 by {
                    if j > 0 {
                        assert(s[j] == d[j - 1]);
                    }
                }
            },
            None => {
                assert forall|j: int| 0 <= j < s.len() implies s[j] != 13 by {
                    if j > 0 {
                        assert(s[j] == d[j - 1]);
                    }
                }
            },
        }
    }
}

pub proof fn lemma_find_cr_at(s: Seq<u8>, i: int)
    requires
        0 <= i < s.len(),
        s[i] == 13,
        forall|j: int| 0 <= j < i ==> s[j] != 13,
    ensures
        find_cr(s) == Some(i as nat),
    decreases i,
{
    if i > 0 {
        let d = s.drop_first();
        assert(d[i - 1] == s[i]);
        assert forall|j: int| 0 <= j < i - 1 implies d[j] != 13 by {
            assert(d[j] == s[j + 1]);
        }
        lemma_find_cr_at(d, i - 1);
    }
}

/// The index of the carriage return of the first CRLF-terminated line of `s`.
pub open spec fn line_end(s: Seq<u8>) -> Option<nat> {
    match find_cr(s) {
        Some(i) => if i + 1 < s.len() && s[i as int + 1] == 10 {
            Some(i)
        } else {
            None
        },
        None => None,
    }
}

/// Reads one message from the start of `s`: the message's model and how many
/// bytes it occupies, or why `s` holds no message.
pub open spec fn decode_resp(s: Seq<u8>) -> Result<(RespV, int), ProtocolError>
    decreases s.len(), 0int,
{
    if s.len() == 0 {
        Err(ProtocolError::Truncated)
    } else {
        let t = s.skip(1);
        if s[0] == 43 {
            match line_end(t) {
                Some(i) => if ascii_bytes(t.take(i as int)) {
                    Ok((RespV::Simple(chars_of_bytes(t.take(i as int))), 1 + i as int + 2))
                } else {
                    Err(ProtocolError::NonAscii)
                },
                None => Err(ProtocolError::MissingTerminator),
            }
        } else if s[0] == 36 {
            match line_end(t) {
                Some(i) => {
                    let tok = t.take(i as int);
                    if tok == seq![45u8, 49u8] {
                        Ok((RespV::Null, 1 + i as int + 2))
                    } else {
                        match dec_value(tok) {
                            Some(n) => {
                                let rest = t.skip(i as int + 2);
                                if n + 2 > rest.len() {
                                    Err(ProtocolError::LengthMismatch)
                                } else if rest[n as int] != 13 || rest[n as int + 1] != 10 {
                                    Err(ProtocolError::LengthMismatch)
                                } else if ascii_bytes(rest.take(n as int)) {
                                    Ok(
                                        (
                                            RespV::Bulk(chars_of_bytes(rest.take(n as int))),
                                            1 + i as int + 2 + n + 2,
                                        ),
                                    )
                                } else {
                                    Err(ProtocolError::NonAscii)
                                }
                            },
                            None => Err(ProtocolError::BadLength),
                        }
                    }
                },
                None => Err(ProtocolError::MissingTerminator),
            }
        } else if s[0] == 42 {
            match line_end(t) {
                Some(i) => match dec_value(t.take(i as int)) {
                    Some(n) => match decode_elems(t.skip(i as int + 2), n) {
                        Ok((elems, c)) => Ok((RespV::Arr(elems), 1 + i as int + 2 + c)),
                        Err(e) => Err(e),
                    },
                    None => Err(ProtocolError::BadLength),
                },
                None => Err(ProtocolError::MissingTerminator),
            }
        } else {
            Err(ProtocolError::UnknownType)
        }
    }
}

/// Reads `n` consecutive messages from the start of `s`.
pub open spec fn decode_elems(s: Seq<u8>, n: nat) -> Result<(Seq<RespV>, int), ProtocolError>
    decreases s.len(), n + 1,
{
    if n == 0 {
        Ok((Seq::empty(), 0))
    } else {
        match decode_resp(s) {
            Ok((m, c)) => if 0 <= c <= s.len() {
                match decode_elems(s.skip(c), (n - 1) as nat) {
                    Ok((rest, c2)) => Ok((seq![m] + rest, c + c2)),
                    Err(e) => Err(e),
                }
            } else {
                Err(ProtocolError::LengthMismatch)
            },
            Err(e) => Err(e),
        }
    }
}

pub proof fn lemma_resp_seq_view_push(a: Seq<RESP>, x: RESP)
    ensures
        resp_seq_view(a.push(x)) == resp_seq_view(a) + seq![resp_view(x)],
    decreases a,
{
    let p = a.push(x);
    if a.len() == 0 {
        assert(p[0] == x);
        assert(p.drop_first() =~= Seq::<RESP>::empty());
        assert(resp_seq_view(p.drop_first()).len() == 0);
        assert(resp_seq_view(p) =~= resp_seq_view(a) + seq![resp_view(x)]);
    } else {
        assert(p.drop_first() =~= a.drop_first().push(x));
        lemma_resp_seq_view_push(a.drop_first(), x);
        assert(p[0] == a[0]);
        assert(resp_seq_view(p) == seq![resp_view(a[0])] + resp_seq_view(a.drop_first().push(x)));
        assert(resp_seq_view(p) =~= resp_seq_view(a) + seq![resp_view(x)]);
    }
}

/// Finds the CRLF that ends the line beginning at `start`: the index of its
/// carriage return, or `None` when the line is unterminated.
fn find_line_end(data: &[u8], start: usize) -> (r: Option<usize>)
    requires
        start <= data@.len(),
    ensures
        match r {
            Some(i) => start <= i && i + 1 < data@.len() && line_end(data@.skip(start as int))
                == Some((i - start) as nat),
            None => line_end(data@.skip(start as int)) is None,
        },
{
    let ghost sub = data@.skip(start as int);
    let len = data.len();
    let mut k = start;
    while k < len
        invariant
            start <= k <= len,
            len == data@.len(),
            sub == data@.skip(start as int),
            forall|j: int| start <= j < k ==> data@[j] != 13,
        decreases len - k,
    {
        if data[k] == 13 {
            proof {
                assert forall|j: int| 0 <= j < k - start implies sub[j] != 13 by {
                    assert(sub[j] == data@[j + start]);
                }
                assert(sub[k - start] == data@[k as int]);
                lemma_find_cr_at(sub, k - start);
            }
            if k + 1 < len {
                let nb = data[k + 1];
                proof {
                    assert(sub[k + 1 - start] == data@[k as int + 1]);
                }
                if nb == 10 {
                    return Some(k);
                } else {
                    return None;
                }
            } else {
                return None;
            }
        }
        k += 1;
    }
    proof {
        assert forall|j: int| 0 <= j < sub.len() implies sub[j] != 13 by {
            assert(sub[j] == data@[j + start]);
        }
        lemma_find_cr(sub);
        if find_cr(sub) is Some {
            let i = find_cr(sub)->0;
            assert(sub[i as int] == 13);
        }
    }
    None
}

/// Whether every byte of `data[start..end]` is ASCII.
fn all_ascii_range(data: &[u8], start: usize, end: usize) -> (r: bool)
    requires
        start <= end <= data@.len(),
    ensures
        r == ascii_bytes(data@.subrange(start as int, end as int)),
{
    let ghost sub = data@.subrange(start as int, end as int);
    let mut k = start;
    while k < end
        invariant
            start <= k <= end <= data@.len(),
            sub == data@.subrange(start as int, end as int),
            forall|j: int| start <= j < k ==> data@[j] < 128,
        decreases end - k,
    {
        if data[k] >= 128 {
            proof {
                assert(sub[k - start] == data@[k as int]);
            }
            return false;
        }
        k += 1;
    }
    proof {
        assert forall|j: int| 0 <= j < sub.len() implies #[trigger] sub[j] < 128 by {
            assert(sub[j] == data@[j + start]);
        }
    }
    true
}

/// Whether `data[start..end]` is a non-empty run of decimal digits.
fn all_digits_range(data: &[u8], start: usize, end: usize) -> (r: bool)
    requires
        start <= end <= data@.len(),
    ensures
        r == (start < end && all_digit_bytes(data@.subrange(start as int, end as int))),
{
    let ghost sub = data@.subrange(start as int, end as int);
    if start == end {
        return false;
    }
    let mut k = start;
    while k < end
        invariant
            start <= k <= end <= data@.len(),
            sub == data@.subrange(start as int, end as int),
            forall|j: int| start <= j < k ==> is_digit_byte(#[trigger] data@[j]),
        decreases end - k,
    {
        let b = data[k];
        if b < 48 || b > 57 {
            proof {
                assert(sub[k - start] == data@[k as int]);
            }
            return false;
        }
        k += 1;
    }
    proof {
        assert forall|j: int| 0 <= j < sub.len() implies is_digit_byte(#[trigger] sub[j]) by {
            assert(sub[j] == data@[j + start]);
        }
    }
    true
}

/// Reads the ASCII content `data[start..end]` into an owned string.
fn ascii_content(data: &[u8], start: usize, end: usize) -> (r: String)
    requires
        start <= end <= data@.len(),
        ascii_bytes(data@.subrange(start as int, end as int)),
    ensures
        r@ == chars_of_bytes(data@.subrange(start as int, end as int)),
{
    let cs = vstd::slice::slice_subrange(data, start, end);
    let st = ascii_str(cs);
    String::from_str(st)
}

/// A CRLF-terminated line of CR-free payload decodes back to the payload.
proof fn lemma_line(p: Seq<u8>, r2: Seq<u8>)
    requires
        forall|j: int| 0 <= j < p.len() ==> p[j] != 13,
    ensures
        line_end(p + crlf() + r2) == Some(p.len()),
        (p + crlf() + r2).take(p.len() as int) == p,
        (p + crlf() + r2).skip(p.len() as int + 2) == r2,
{
    let t = p + crlf() + r2;
    assert(t[p.len() as int] == 13);
    assert(t[p.len() as int + 1] == 10);
    assert forall|j: int| 0 <= j < p.len() implies t[j] != 13 by {
        assert(t[j] == p[j]);
    }
    lemma_find_cr_at(t, p.len() as int);
    assert(t.take(p.len() as int) =~= p);
    assert(t.skip(p.len() as int + 2) =~= r2);
}

/// CR-free ASCII text stays CR-free as bytes.
proof fn lemma_no_cr_bytes(s: Seq<char>)
    requires
        is_ascii_chars(s),
        no_cr(s),
    ensures
        forall|j: int| 0 <= j < bytes_of_chars(s).len() ==> #[trigger] bytes_of_chars(s)[j] != 13,
{
    assert forall|j: int| 0 <= j < bytes_of_chars(s).len() implies #[trigger] bytes_of_chars(
        s,
    )[j] != 13 by {
        assert(bytes_of_chars(s)[j] == s[j] as u8);
        assert(s[j] != '\r');
        assert(s[j] <= '\u{7f}');
    }
}

/// Decoding an encoding: reading bytes that begin with the encoding of a
/// well-formed textual message yields that message, consuming exactly the
/// encoding, whatever follows it.
pub proof fn lemma_decode_encode(m: RespV, rest: Seq<u8>)
    requires
        wf_text(m),
    ensures
        decode_resp(encode_resp(m) + rest) == Ok::<(RespV, int), ProtocolError>(
            (m, encode_resp(m).len() as int),
        ),
    decreases m,
{
    let e = encode_resp(m);
    let s = e + rest;
    match m {
        RespV::Simple(c) => {
            let p = bytes_of_chars(c);
            crate::text::lemma_chars_bytes_inverse(c);
            lemma_no_cr_bytes(c);
            let t = s.skip(1);
            assert(t =~= p + crlf() + rest);
            lemma_line(p, rest);
            assert(s[0] == 43);
            assert(decode_resp(s) == Ok::<(RespV, int), ProtocolError>(
                (RespV::Simple(chars_of_bytes(p)), 1 + p.len() as int + 2),
            ));
        },
        RespV::Bulk(c) => {
            let p = bytes_of_chars(c);
            let d = dec_digits(c.len());
            crate::text::lemma_chars_bytes_inverse(c);
            crate::text::lemma_dec_roundtrip(c.len());
            lemma_dec_digits_wf(c.len());
            assert forall|j: int| 0 <= j < d.len() implies d[j] != 13 by {
                assert(is_digit_byte(d[j]));
            }
            let t = s.skip(1);
            assert(t =~= d + crlf() + (p + crlf() + rest));
            lemma_line(d, p + crlf() + rest);
            assert(s[0] == 36);
            assert(d != seq![45u8, 49u8]) by {
                if d == seq![45u8, 49u8] {
                    assert(is_digit_byte(d[0]));
                }
            }
            let rest2 = t.skip(d.len() as int + 2);
            assert(rest2 == p + crlf() + rest);
            assert(p.len() == c.len());
            assert(rest2[c.len() as int] == 13);
            assert(rest2[c.len() as int + 1] == 10);
            assert(rest2.take(c.len() as int) =~= p);
            assert(decode_resp(s) == Ok::<(RespV, int), ProtocolError>(
                (RespV::Bulk(chars_of_bytes(p)), 1 + d.len() as int + 2 + c.len() as int + 2),
            ));
        },
        RespV::Null => {
            assert(s[0] == 36);
            let t = s.skip(1);
            assert(t =~= seq![45u8, 49u8] + crlf() + rest);
            lemma_line(seq![45u8, 49u8], rest);
            assert(t.take(2) == seq![45u8, 49u8]);
            assert(decode_resp(s) == Ok::<(RespV, int), ProtocolError>((RespV::Null, 5)));
        },
        RespV::Arr(a) => {
            let d = dec_digits(a.len());
            crate::text::lemma_dec_roundtrip(a.len());
            lemma_dec_digits_wf(a.len());
            assert forall|j: int| 0 <= j < d.len() implies d[j] != 13 by {
                assert(is_digit_byte(d[j]));
            }
            let t = s.skip(1);
            assert(t =~= d + crlf() + (encode_seq(a) + rest));
            lemma_line(d, encode_seq(a) + rest);
            assert(s[0] == 42);
            assert(RespV::Arr(a)->Arr_0 == a);
            assert(decreases_to!(m => m->Arr_0));
            lemma_decode_encode_seq(a, rest);
            assert(t.skip(d.len() as int + 2) == encode_seq(a) + rest);
            assert(decode_resp(s) == Ok::<(RespV, int), ProtocolError>(
                (RespV::Arr(a), 1 + d.len() as int + 2 + encode_seq(a).len() as int),
            ));
        },
        RespV::Rdb(_) => {
            assert(false);
        },
    }
}

/// Reading `a.len()` messages from the concatenated encodings of `a` yields
/// `a` itself, consuming exactly those encodings.
pub proof fn lemma_decode_encode_seq(a: Seq<RespV>, rest: Seq<u8>)
    requires
        forall|i: int| 0 <= i < a.len() ==> wf_text(#[trigger] a[i]),
    ensures
        decode_elems(encode_seq(a) + rest, a.len()) == Ok::<(Seq<RespV>, int), ProtocolError>(
            (a, encode_seq(a).len() as int),
        ),
    decreases a,
{
    let s = encode_seq(a) + rest;
    if a.len() == 0 {
        assert(s =~= rest);
        assert(a =~= Seq::<RespV>::empty());
        assert(decode_elems(s, 0) == Ok::<(Seq<RespV>, int), ProtocolError>((Seq::empty(), 0)));
    } else {
        let e0 = encode_resp(a[0]);
        let tail = encode_seq(a.drop_first());
        assert(s =~= e0 + (tail + rest));
        lemma_decode_encode(a[0], tail + rest);
        assert(decode_resp(s) == Ok::<(RespV, int), ProtocolError>((a[0], e0.len() as int)));
        assert(0 <= e0.len() <= s.len());
        assert(s.skip(e0.len() as int) =~= tail + rest);
        lemma_decode_encode_seq(a.drop_first(), rest);
        assert(seq![a[0]] + a.drop_first() =~= a);
        assert(encode_seq(a).len() == e0.len() + tail.len());
    }
}

/// Round trip: every well-formed textual message can be encoded (it is
/// ASCII and free of binary payloads), and decoding its encoding yields the
/// message itself, consuming exactly the encoding.
pub proof fn lemma_round_trip(m: RespV)
    requires
        wf_text(m),
    ensures
        encodable(m),
        rdb_free(m),
        decode_resp(encode_resp(m)) == Ok::<(RespV, int), ProtocolError>(
            (m, encode_resp(m).len() as int),
        ),
{
    lemma_wf_text_encodable(m);
    lemma_decode_encode(m, Seq::empty());
    assert(encode_resp(m) + Seq::<u8>::empty() =~= encode_resp(m));
}

proof fn lemma_encode_seq_ascii(a: Seq<RespV>)
    requires
        forall|i: int| 0 <= i < a.len() ==> encodable(#[trigger] a[i]),
        forall|i: int| 0 <= i < a.len() ==> rdb_free(#[trigger] a[i]),
    ensures
        ascii_bytes(encode_seq(a)),
    decreases a,
{
    if a.len() > 0 {
        lemma_encode_ascii(a[0]);
        lemma_encode_seq_ascii(a.drop_first());
        assert forall|i: int| 0 <= i < encode_seq(a).len() implies #[trigger] encode_seq(a)[i]
            < 128 by {
            let e0 = encode_resp(a[0]);
            if i >= e0.len() {
                assert(encode_seq(a)[i] == encode_seq(a.drop_first())[i - e0.len()]);
            }
        }
    }
}

} // verus!
