//! The export file formats.
//!
//! A pack export is one line of JSON, a line feed, and the base64 text of a
//! git pack.  An lfs export is one line of JSON followed, for each object, by
//! a line feed, the object's id, `:` and the base64 text of its content.

use vstd::prelude::*;
use vstd::utf8::*;
use base64::Engine;
use base64::prelude::BASE64_STANDARD;

verus! {

/// The text that the base64 crate's standard engine makes of some bytes.
pub uninterp spec fn base64_encoding(data: Seq<u8>) -> Seq<char>;

/// What the base64 crate's standard engine decodes from some bytes, `None`
/// when it rejects them.
pub uninterp spec fn base64_decoding(text: Seq<u8>) -> Option<Seq<u8>>;

/// A character of the standard base64 alphabet (RFC 4648), or the padding `=`.
pub open spec fn is_base64_char(c: char) -> bool {
    ('A' <= c <= 'Z') || ('a' <= c <= 'z') || ('0' <= c <= '9') || c == '+' || c == '/' || c == '='
}

/// `Engine::encode` of `BASE64_STANDARD` (base64 crate).  The contract names
/// the result, and states what the crate documents of it: the text uses the
/// standard alphabet with `=` padding, and the standard engine decodes it
/// back to the same bytes.
#[verifier::external_body]
pub(crate) fn base64_encode(data: &[u8]) -> (res: String)
    ensures
        res@ == base64_encoding(data@),
        forall|i: int| 0 <= i < res@.len() ==> is_base64_char(#[trigger] res@[i]),
        base64_decoding(encode_utf8(res@)) == Some(data@),
{
    BASE64_STANDARD.encode(data)
}

/// `Engine::decode` of `BASE64_STANDARD` (base64 crate): the decoded bytes,
/// or `None` where the crate returns an error.
#[verifier::external_body]
pub(crate) fn base64_decode(text: &[u8]) -> (res: Option<Vec<u8>>)
    ensures
        res matches Some(v) ==> base64_decoding(text@) == Some(v@),
        res is None ==> base64_decoding(text@) is None,
{
    match BASE64_STANDARD.decode(text) {
        Ok(v) => Some(v),
        Err(_) => None,
    }
}

} // verus!

verus! {

// ---------------------------------------------------------------------------
// Bytes and line feeds
// ---------------------------------------------------------------------------

/// The line feed byte.
pub open spec fn lf() -> u8 {
    10u8
}

/// No line feed in the bytes.
pub open spec fn no_lf(d: Seq<u8>) -> bool {
    forall|i: int| 0 <= i < d.len() ==> #[trigger] d[i] != lf()
}

/// No line feed in the text.
pub open spec fn no_newline(s: Seq<char>) -> bool {
    forall|i: int| 0 <= i < s.len() ==> #[trigger] s[i] != '\n'
}

/// The position of the first line feed.
pub open spec fn first_lf(d: Seq<u8>) -> Option<int>
    decreases d.len(),
{
    if d.len() == 0 {
        None
    } else if d[0] == lf() {
        Some(0)
    } else {
        match first_lf(d.drop_first()) {
            Some(i) => Some(i + 1),
            None => None,
        }
    }
}

/// The bytes with every line feed removed.
pub open spec fn drop_lf(d: Seq<u8>) -> Seq<u8>
    decreases d.len(),
{
    if d.len() == 0 {
        d
    } else if d.last() == lf() {
        drop_lf(d.drop_last())
    } else {
        drop_lf(d.drop_last()).push(d.last())
    }
}

pub proof fn lemma_first_lf(d: Seq<u8>)
    ensures
        first_lf(d) matches Some(i) ==> 0 <= i < d.len() && d[i] == lf() && no_lf(d.take(i)),
        first_lf(d) is None ==> no_lf(d),
    decreases d.len(),
{
    if d.len() > 0 && d[0] != lf() {
        lemma_first_lf(d.drop_first());
        if let Some(i) = first_lf(d) {
            assert forall|k: int| 0 <= k < i implies #[trigger] d.take(i)[k] != lf() by {
                if k > 0 {
                    assert(d.take(i)[k] == d.drop_first().take(i - 1)[k - 1]);
                }
            }
        } else {
            assert forall|k: int| 0 <= k < d.len() implies #[trigger] d[k] != lf() by {
                if k > 0 {
                    assert(d[k] == d.drop_first()[k - 1]);
                }
            }
        }
    }
}

pub proof fn lemma_first_lf_unique(d: Seq<u8>, i: int)
    requires
        0 <= i < d.len(),
        d[i] == lf(),
        no_lf(d.take(i)),
    ensures
        first_lf(d) == Some(i),
    decreases d.len(),
{
    if i > 0 {
        assert(d[0] == d.take(i)[0]);
        assert(d.drop_first().take(i - 1) =~= d.take(i).drop_first());
        assert forall|k: int| 0 <= k < i - 1 implies #[trigger] d.drop_first().take(i - 1)[k] != lf() by {
            assert(d.drop_first().take(i - 1)[k] == d.take(i)[k + 1]);
        }
        lemma_first_lf_unique(d.drop_first(), i - 1);
    }
}

pub proof fn lemma_drop_lf_free(d: Seq<u8>)
    requires
        no_lf(d),
    ensures
        drop_lf(d) == d,
    decreases d.len(),
{
    if d.len() > 0 {
        assert(no_lf(d.drop_last())) by {
            assert forall|k: int| 0 <= k < d.drop_last().len() implies #[trigger] d.drop_last()[k] != lf() by {
                assert(d.drop_last()[k] == d[k]);
            }
        }
        lemma_drop_lf_free(d.drop_last());
        assert(d.last() == d[d.len() - 1]);
        assert(d.drop_last().push(d.last()) =~= d);
    }
}

proof fn lemma_scalar_has_no_lf(c: char)
    requires
        c != '\n',
    ensures
        no_lf(encode_scalar(c as u32)),
{
    let v = c as u32;
    char_is_scalar(c);
    let e = encode_scalar(v);
    if has_width_1_encoding(v) {
        assert(v != 10u32);
        assert((v & 0x7F) as u8 != 10u8) by (bit_vector)
            requires
                v <= 0x7F,
                v != 10u32,
        ;
    } else if has_width_2_encoding(v) {
        assert((0xC0 | ((v >> 6) & 0x1F) as u8) != 10u8) by (bit_vector);
        assert((0x80 | (v & 0x3F) as u8) != 10u8) by (bit_vector);
    } else if has_width_3_encoding(v) {
        assert((0xE0 | ((v >> 12) & 0x0F) as u8) != 10u8) by (bit_vector);
        assert((0x80 | ((v >> 6) & 0x3F) as u8) != 10u8) by (bit_vector);
        assert((0x80 | (v & 0x3F) as u8) != 10u8) by (bit_vector);
    } else {
        assert((0xF0 | ((v >> 18) & 0x7) as u8) != 10u8) by (bit_vector);
        assert((0x80 | ((v >> 12) & 0x3F) as u8) != 10u8) by (bit_vector);
        assert((0x80 | ((v >> 6) & 0x3F) as u8) != 10u8) by (bit_vector);
        assert((0x80 | (v & 0x3F) as u8) != 10u8) by (bit_vector);
    }
}

proof fn lemma_no_lf_concat(a: Seq<u8>, b: Seq<u8>)
    requires
        no_lf(a),
        no_lf(b),
    ensures
        no_lf(a + b),
{
    assert forall|i: int| 0 <= i < (a + b).len() implies #[trigger] (a + b)[i] != lf() by {
        if i < a.len() {
            assert((a + b)[i] == a[i]);
        } else {
            assert((a + b)[i] == b[i - a.len()]);
        }
    }
}

/// Text without a line feed encodes to bytes without a line feed (UTF-8 uses
/// the byte 10 only for the character `\n`).
pub proof fn lemma_encode_no_lf(s: Seq<char>)
    requires
        no_newline(s),
    ensures
        no_lf(encode_utf8(s)),
    decreases s.len(),
{
    if s.len() > 0 {
        assert(no_newline(s.drop_first())) by {
            assert forall|k: int| 0 <= k < s.drop_first().len() implies #[trigger] s.drop_first()[k] != '\n' by {
                assert(s.drop_first()[k] == s[k + 1]);
            }
        }
        lemma_encode_no_lf(s.drop_first());
        lemma_scalar_has_no_lf(s[0]);
        lemma_no_lf_concat(encode_scalar(s[0] as u32), encode_utf8(s.drop_first()));
    }
}

/// Base64 text holds no line feed.
pub proof fn lemma_base64_no_newline(s: Seq<char>)
    requires
        forall|i: int| 0 <= i < s.len() ==> is_base64_char(#[trigger] s[i]),
    ensures
        no_newline(s),
{
    assert forall|i: int| 0 <= i < s.len() implies #[trigger] s[i] != '\n' by {
        assert(is_base64_char(s[i]));
    }
}

// ---------------------------------------------------------------------------
// Pack exports
// ---------------------------------------------------------------------------

/// The JSON part of a pack export: the bytes before the first line feed.
pub open spec fn json_part(d: Seq<u8>) -> Seq<u8> {
    match first_lf(d) {
        Some(i) => d.take(i),
        None => d,
    }
}

/// The pack part of a pack export: the bytes after the first line feed, with
/// any further line feeds left out.
pub open spec fn pack_part(d: Seq<u8>) -> Seq<u8> {
    match first_lf(d) {
        Some(i) => drop_lf(d.skip(i + 1)),
        None => Seq::empty(),
    }
}

/// The text of a pack export: the JSON, a line feed, and the encoded pack.
pub open spec fn pack_export_text(json: Seq<char>, pack: Seq<char>) -> Seq<char> {
    json + seq!['\n'] + pack
}

/// The text written for a pack export.
pub fn export_text(json: &str, pack: &str) -> (res: String)
    ensures
        res@ == pack_export_text(json@, pack@),
{
    let mut res = crate::text::to_owned(json);
    crate::text::push_char(&mut res, '\n');
    res.append(pack);
    res
}

/// Splits a pack export into its JSON and its pack.
pub fn split_import(data: &Vec<u8>) -> (res: (Vec<u8>, Vec<u8>))
    ensures
        res.0@ == json_part(data@),
        res.1@ == pack_part(data@),
{
    let mut json_bit: Vec<u8> = Vec::new();
    let mut pack_bit: Vec<u8> = Vec::new();
    let mut found = false;
    let ghost mut at: int = 0;
    let mut k: usize = 0;
    while k < data.len()
        invariant
            k <= data.len(),
            !found ==> no_lf(data@.take(k as int)) && json_bit@ == data@.take(k as int)
                && pack_bit@.len() == 0,
            found ==> 0 <= at < k && data@[at] == lf() && no_lf(data@.take(at)) && json_bit@
                == data@.take(at) && pack_bit@ == drop_lf(data@.subrange(at + 1, k as int)),
        decreases data.len() - k,
    {
        let bit = data[k];
        if bit == 10 {
            if !found {
                proof {
                    at = k as int;
                }
            } else {
                proof {
                    let s = data@.subrange(at + 1, k + 1);
                    assert(s.drop_last() =~= data@.subrange(at + 1, k as int));
                }
            }
            found = true;
        } else if !found {
            json_bit.push(bit);
            proof {
                assert(data@.take(k + 1) =~= data@.take(k as int).push(bit));
                assert forall|i: int| 0 <= i < k + 1 implies #[trigger] data@.take(k + 1)[i] != lf() by {
                    if i < k {
                        assert(data@.take(k + 1)[i] == data@.take(k as int)[i]);
                    }
                }
            }
        } else {
            pack_bit.push(bit);
            proof {
                let s = data@.subrange(at + 1, k + 1);
                assert(s.drop_last() =~= data@.subrange(at + 1, k as int));
            }
        }
        k += 1;
    }
    proof {
        assert(data@.take(data@.len() as int) =~= data@);
        if found {
            lemma_first_lf_unique(data@, at);
            assert(data@.subrange(at + 1, data@.len() as int) =~= data@.skip(at + 1));
        } else {
            lemma_first_lf(data@);
            if first_lf(data@) is Some {
                let i = first_lf(data@)->0;
                assert(data@.take(data@.len() as int)[i] == data@[i]);
            }
        }
    }
    (json_bit, pack_bit)
}

/// A pack export gives back what it was made of: splitting the bytes of
/// `json`, a line feed and the base64 text of a pack yields the JSON's bytes
/// and the text's bytes, provided the JSON is one line.
pub proof fn law_pack_export_roundtrip(json: Seq<char>, pack: Seq<char>)
    requires
        no_newline(json),
        no_newline(pack),
    ensures
        json_part(encode_utf8(pack_export_text(json, pack))) == encode_utf8(json),
        pack_part(encode_utf8(pack_export_text(json, pack))) == encode_utf8(pack),
{
    let t = pack_export_text(json, pack);
    crate::text::lemma_encode_utf8_concat(json + seq!['\n'], pack);
    crate::text::lemma_encode_utf8_concat(json, seq!['\n']);
    let nl = encode_utf8(seq!['\n']);
    assert(seq!['\n'].drop_first() =~= Seq::<char>::empty());
    assert(nl =~= seq![lf()]) by {
        assert(encode_utf8(seq!['\n']) == encode_scalar('\n' as u32) + encode_utf8(Seq::<char>::empty()));
        assert(('\n' as u32) == 10u32);
        assert((10u32 & 0x7F) as u8 == 10u8) by (bit_vector);
        assert(encode_scalar(10u32) =~= seq![10u8]);
        assert(encode_utf8(Seq::<char>::empty()) =~= Seq::<u8>::empty());
    }
    let ej = encode_utf8(json);
    let ep = encode_utf8(pack);
    let d = encode_utf8(t);
    assert(d =~= ej + seq![lf()] + ep);
    lemma_encode_no_lf(json);
    lemma_encode_no_lf(pack);
    assert(d.take(ej.len() as int) =~= ej);
    assert(d[ej.len() as int] == lf());
    lemma_first_lf_unique(d, ej.len() as int);
    assert(d.skip(ej.len() + 1 as int) =~= ep);
    lemma_drop_lf_free(ep);
}

/// The pack, decoded from the pack part of an export; `None` where the
/// base64 crate rejects it.
pub fn decode_pack(pack: &Vec<u8>) -> (res: Option<Vec<u8>>)
    ensures
        res matches Some(v) ==> base64_decoding(pack@) == Some(v@),
        res is None ==> base64_decoding(pack@) is None,
{
    base64_decode(pack.as_slice())
}

/// The import carries a pack to unpack: its pack part is longer than four
/// bytes.
pub fn has_pack(pack: &Vec<u8>) -> (res: bool)
    ensures
        res == (pack@.len() > 4),
{
    pack.len() > 4
}


// ---------------------------------------------------------------------------
// Lfs exports
// ---------------------------------------------------------------------------

/// The byte `:` that ends an object's id in an lfs export.
pub open spec fn colon() -> u8 {
    58u8
}

/// No byte `b` in the bytes.
pub open spec fn avoids(d: Seq<u8>, b: u8) -> bool {
    forall|i: int| 0 <= i < d.len() ==> #[trigger] d[i] != b
}

/// No character `c` in the text.
pub open spec fn lacks(s: Seq<char>, c: char) -> bool {
    forall|i: int| 0 <= i < s.len() ==> #[trigger] s[i] != c
}

proof fn lemma_scalar_avoids(c: char, b: u8)
    requires
        b < 128,
        (c as u32) != (b as u32),
    ensures
        avoids(encode_scalar(c as u32), b),
{
    let v = c as u32;
    char_is_scalar(c);
    if has_width_1_encoding(v) {
        assert((v & 0x7F) as u8 != b) by (bit_vector)
            requires
                v <= 0x7F,
                v != b as u32,
        ;
    } else if has_width_2_encoding(v) {
        assert((0xC0 | ((v >> 6) & 0x1F) as u8) != b) by (bit_vector)
            requires
                b < 128,
        ;
        assert((0x80 | (v & 0x3F) as u8) != b) by (bit_vector)
            requires
                b < 128,
        ;
    } else if has_width_3_encoding(v) {
        assert((0xE0 | ((v >> 12) & 0x0F) as u8) != b) by (bit_vector)
            requires
                b < 128,
        ;
        assert((0x80 | ((v >> 6) & 0x3F) as u8) != b) by (bit_vector)
            requires
                b < 128,
        ;
        assert((0x80 | (v & 0x3F) as u8) != b) by (bit_vector)
            requires
                b < 128,
        ;
    } else {
        assert((0xF0 | ((v >> 18) & 0x7) as u8) != b) by (bit_vector)
            requires
                b < 128,
        ;
        assert((0x80 | ((v >> 12) & 0x3F) as u8) != b) by (bit_vector)
            requires
                b < 128,
        ;
        assert((0x80 | ((v >> 6) & 0x3F) as u8) != b) by (bit_vector)
            requires
                b < 128,
        ;
        assert((0x80 | (v & 0x3F) as u8) != b) by (bit_vector)
            requires
                b < 128,
        ;
    }
}

/// Text without an ASCII character encodes to bytes without its byte (UTF-8
/// uses the bytes below 128 only for those characters).
pub proof fn lemma_encode_avoids(s: Seq<char>, c: char)
    requires
        (c as u32) < 128,
        lacks(s, c),
    ensures
        avoids(encode_utf8(s), c as u8),
    decreases s.len(),
{
    if s.len() > 0 {
        assert(lacks(s.drop_first(), c)) by {
            assert forall|k: int| 0 <= k < s.drop_first().len() implies #[trigger] s.drop_first()[k] != c by {
                assert(s.drop_first()[k] == s[k + 1]);
            }
        }
        lemma_encode_avoids(s.drop_first(), c);
        assert(s[0] != c);
        vstd::utf8::char_u32_cast(s[0], s[0] as u32);
        vstd::utf8::char_u32_cast(c, c as u32);
        lemma_scalar_avoids(s[0], c as u8);
        let a = encode_scalar(s[0] as u32);
        let b = encode_utf8(s.drop_first());
        assert forall|i: int| 0 <= i < (a + b).len() implies #[trigger] (a + b)[i] != c as u8 by {
            if i < a.len() {
                assert((a + b)[i] == a[i]);
            } else {
                assert((a + b)[i] == b[i - a.len()]);
            }
        }
    }
}

/// The bytes that follow the JSON of an lfs export for one object: a line
/// feed, the object's id, `:`, and the base64 text of its content.
pub open spec fn record_bytes(id: Seq<char>, text: Seq<char>) -> Seq<u8> {
    seq![lf()] + encode_utf8(id) + seq![colon()] + encode_utf8(text)
}

fn push_bytes(dst: &mut Vec<u8>, src: &[u8])
    ensures
        final(dst)@ == old(dst)@ + src@,
{
    let ghost d0 = dst@;
    let mut i: usize = 0;
    while i < src.len()
        invariant
            i <= src.len(),
            dst@ == d0 + src@.take(i as int),
        decreases src.len() - i,
    {
        dst.push(src[i]);
        proof {
            assert(src@.take(i + 1) =~= src@.take(i as int).push(src@[i as int]));
        }
        i += 1;
    }
    proof {
        assert(src@.take(src@.len() as int) =~= src@);
    }
}

/// The bytes written for one object of an lfs export (see [`record_bytes`]),
/// its content encoded with the base64 crate.
pub fn lfs_record(id: &str, data: &[u8]) -> (res: Vec<u8>)
    ensures
        res@ == record_bytes(id@, base64_encoding(data@)),
{
    let text = base64_encode(data);
    let mut res: Vec<u8> = Vec::new();
    res.push(10u8);
    push_bytes(&mut res, id.as_bytes());
    res.push(58u8);
    push_bytes(&mut res, text.as_str().as_bytes());
    proof {
        assert(res@ =~= record_bytes(id@, base64_encoding(data@)));
    }
    res
}

/// The base64 text of a pack, as a pack export carries it.
pub fn encode_pack(pack: &Vec<u8>) -> (res: String)
    ensures
        res@ == base64_encoding(pack@),
        no_newline(res@),
        base64_decoding(encode_utf8(res@)) == Some(pack@),
{
    let res = base64_encode(pack.as_slice());
    proof {
        lemma_base64_no_newline(res@);
    }
    res
}

/// Where reading an lfs export stands: still in the JSON line, or in the
/// records, reading an id or (after its `:`) its encoded content, and the
/// records finished so far.
pub struct ReadState {
    pub json: bool,
    pub is_data: bool,
    pub id: Seq<u8>,
    pub enc: Seq<u8>,
    pub out: Seq<(Seq<u8>, Seq<u8>)>,
}

/// Reading starts in the JSON line, with nothing read.
pub open spec fn read_start() -> ReadState {
    ReadState { json: true, is_data: false, id: Seq::empty(), enc: Seq::empty(), out: Seq::empty() }
}

/// One byte read: a line feed ends the JSON or the record under way and
/// starts a new record; in a record, the bytes before the first `:` are the
/// id and the rest is the encoded content; the JSON's bytes are skipped.
pub open spec fn read_step(s: ReadState, b: u8) -> ReadState {
    if b == lf() {
        ReadState {
            json: false,
            is_data: false,
            id: if s.json { s.id } else { Seq::empty() },
            enc: if s.json { s.enc } else { Seq::empty() },
            out: if s.json { s.out } else { s.out.push((s.id, s.enc)) },
        }
    } else if s.json {
        s
    } else if !s.is_data {
        if b == colon() {
            ReadState { is_data: true, ..s }
        } else {
            ReadState { id: s.id.push(b), ..s }
        }
    } else {
        ReadState { enc: s.enc.push(b), ..s }
    }
}

/// The state after reading `d` from state `s`.
pub open spec fn read_from(s: ReadState, d: Seq<u8>) -> ReadState
    decreases d.len(),
{
    if d.len() == 0 {
        s
    } else {
        read_step(read_from(s, d.drop_last()), d.last())
    }
}

/// The records read from an lfs export: (id, encoded content) of each, the
/// one under way at the end included.
pub open spec fn records_of(d: Seq<u8>) -> Seq<(Seq<u8>, Seq<u8>)> {
    let s = read_from(read_start(), d);
    s.out.push((s.id, s.enc))
}

/// Pairs of byte vectors as values.
pub open spec fn byte_pairs(v: Seq<(Vec<u8>, Vec<u8>)>) -> Seq<(Seq<u8>, Seq<u8>)> {
    v.map_values(|p: (Vec<u8>, Vec<u8>)| (p.0@, p.1@))
}

/// Reads the records of an lfs export (see [`records_of`]).
pub fn extract_records(data: &Vec<u8>) -> (res: Vec<(Vec<u8>, Vec<u8>)>)
    ensures
        byte_pairs(res@) == records_of(data@),
{
    let mut json = true;
    let mut is_data = false;
    let mut id: Vec<u8> = Vec::new();
    let mut enc: Vec<u8> = Vec::new();
    let mut out: Vec<(Vec<u8>, Vec<u8>)> = Vec::new();
    let mut k: usize = 0;
    proof {
        assert(byte_pairs(out@) =~= Seq::<(Seq<u8>, Seq<u8>)>::empty());
        assert(data@.take(0) =~= Seq::<u8>::empty());
        assert(id@ =~= Seq::<u8>::empty());
        assert(enc@ =~= Seq::<u8>::empty());
    }
    while k < data.len()
        invariant
            k <= data.len(),
            read_from(read_start(), data@.take(k as int)) == (ReadState {
                json,
                is_data,
                id: id@,
                enc: enc@,
                out: byte_pairs(out@),
            }),
        decreases data.len() - k,
    {
        proof {
            assert(data@.take(k + 1).drop_last() =~= data@.take(k as int));
            assert(data@.take(k + 1).last() == data@[k as int]);
        }
        let bit = data[k];
        if bit == 10 {
            if !json {
                let ghost o = byte_pairs(out@);
                let ghost e = (id@, enc@);
                out.push((id, enc));
                id = Vec::new();
                enc = Vec::new();
                proof {
                    assert(byte_pairs(out@) =~= o.push(e));
                    assert(id@ =~= Seq::<u8>::empty());
                    assert(enc@ =~= Seq::<u8>::empty());
                }
            }
            json = false;
            is_data = false;
        } else if !json {
            if !is_data {
                if bit != 58 {
                    id.push(bit);
                } else {
                    is_data = true;
                }
            } else {
                enc.push(bit);
            }
        }
        k += 1;
    }
    proof {
        assert(data@.take(data@.len() as int) =~= data@);
    }
    let ghost o = byte_pairs(out@);
    let ghost e = (id@, enc@);
    out.push((id, enc));
    proof {
        assert(byte_pairs(out@) =~= o.push(e));
    }
    out
}

/// The bytes of an lfs export: the JSON, then a record for each object.
pub open spec fn lfs_export_bytes(json: Seq<u8>, recs: Seq<(Seq<char>, Seq<char>)>) -> Seq<u8>
    decreases recs.len(),
{
    if recs.len() == 0 {
        json
    } else {
        lfs_export_bytes(json, recs.drop_last()) + record_bytes(recs.last().0, recs.last().1)
    }
}

/// The id and text of each record, as bytes.
pub open spec fn record_fields(recs: Seq<(Seq<char>, Seq<char>)>) -> Seq<(Seq<u8>, Seq<u8>)> {
    recs.map_values(|r: (Seq<char>, Seq<char>)| (encode_utf8(r.0), encode_utf8(r.1)))
}

proof fn lemma_read_concat(s: ReadState, a: Seq<u8>, b: Seq<u8>)
    ensures
        read_from(s, a + b) == read_from(read_from(s, a), b),
    decreases b.len(),
{
    if b.len() == 0 {
        assert(a + b =~= a);
    } else {
        assert((a + b).drop_last() =~= a + b.drop_last());
        assert((a + b).last() == b.last());
        lemma_read_concat(s, a, b.drop_last());
    }
}

proof fn lemma_read_json(s: ReadState, d: Seq<u8>)
    requires
        s.json,
        no_lf(d),
    ensures
        read_from(s, d) == s,
    decreases d.len(),
{
    if d.len() > 0 {
        assert(no_lf(d.drop_last())) by {
            assert forall|k: int| 0 <= k < d.drop_last().len() implies #[trigger] d.drop_last()[k] != lf() by {
                assert(d.drop_last()[k] == d[k]);
            }
        }
        lemma_read_json(s, d.drop_last());
        assert(d.last() == d[d.len() - 1]);
    }
}

proof fn lemma_read_id(s: ReadState, d: Seq<u8>)
    requires
        !s.json,
        !s.is_data,
        no_lf(d),
        avoids(d, colon()),
    ensures
        read_from(s, d) == (ReadState { id: s.id + d, ..s }),
    decreases d.len(),
{
    if d.len() == 0 {
        assert(s.id + d =~= s.id);
    } else {
        assert(no_lf(d.drop_last()) && avoids(d.drop_last(), colon())) by {
            assert forall|k: int| 0 <= k < d.drop_last().len() implies #[trigger] d.drop_last()[k] != lf() && d.drop_last()[k] != colon() by {
                assert(d.drop_last()[k] == d[k]);
            }
        }
        lemma_read_id(s, d.drop_last());
        assert(d.last() == d[d.len() - 1]);
        assert((s.id + d.drop_last()).push(d.last()) =~= s.id + d);
    }
}

proof fn lemma_read_enc(s: ReadState, d: Seq<u8>)
    requires
        !s.json,
        s.is_data,
        no_lf(d),
    ensures
        read_from(s, d) == (ReadState { enc: s.enc + d, ..s }),
    decreases d.len(),
{
    if d.len() == 0 {
        assert(s.enc + d =~= s.enc);
    } else {
        assert(no_lf(d.drop_last())) by {
            assert forall|k: int| 0 <= k < d.drop_last().len() implies #[trigger] d.drop_last()[k] != lf() by {
                assert(d.drop_last()[k] == d[k]);
            }
        }
        lemma_read_enc(s, d.drop_last());
        assert(d.last() == d[d.len() - 1]);
        assert((s.enc + d.drop_last()).push(d.last()) =~= s.enc + d);
    }
}

proof fn lemma_read_one(s: ReadState, b: u8)
    ensures
        read_from(s, seq![b]) == read_step(s, b),
{
    let d = seq![b];
    assert(d.drop_last() =~= Seq::<u8>::empty());
    assert(read_from(s, d.drop_last()) == s);
    assert(d.last() == b);
}

/// Reading one record from a state after the JSON or after another record.
proof fn lemma_read_record(s: ReadState, id: Seq<char>, text: Seq<char>)
    requires
        s.json ==> s.id.len() == 0 && s.enc.len() == 0,
        no_newline(id),
        lacks(id, ':'),
        no_newline(text),
    ensures
        read_from(s, record_bytes(id, text)) == (ReadState {
            json: false,
            is_data: true,
            id: encode_utf8(id),
            enc: encode_utf8(text),
            out: if s.json { s.out } else { s.out.push((s.id, s.enc)) },
        }),
{
    let ei = encode_utf8(id);
    let et = encode_utf8(text);
    lemma_encode_no_lf(id);
    lemma_encode_no_lf(text);
    lemma_encode_avoids(id, ':');
    assert((':' as u32) == 58u32);
    let t0 = read_step(s, lf());
    lemma_read_one(s, lf());
    lemma_read_concat(s, seq![lf()], ei);
    lemma_read_id(t0, ei);
    let t1 = ReadState { id: t0.id + ei, ..t0 };
    assert(t0.id + ei =~= ei) by {
        if s.json {
            assert(t0.id == s.id);
        }
    }
    lemma_read_concat(s, seq![lf()] + ei, seq![colon()]);
    lemma_read_one(t1, colon());
    let t2 = ReadState { is_data: true, ..t1 };
    lemma_read_concat(s, seq![lf()] + ei + seq![colon()], et);
    lemma_read_enc(t2, et);
    assert(t2.enc + et =~= et) by {
        if s.json {
            assert(t0.enc == s.enc);
        }
    }
}

/// An lfs export gives back what it was made of: reading its bytes yields,
/// for each object in order, the bytes of its id and of its encoded
/// content, provided the JSON is one line, there is at least one object,
/// and no id holds a line feed or a `:` and no content text a line feed.
pub proof fn law_lfs_export_roundtrip(json: Seq<u8>, recs: Seq<(Seq<char>, Seq<char>)>)
    requires
        no_lf(json),
        recs.len() > 0,
        forall|i: int| 0 <= i < recs.len() ==> no_newline(#[trigger] recs[i].0) && lacks(recs[i].0, ':')
            && no_newline(recs[i].1),
    ensures
        records_of(lfs_export_bytes(json, recs)) == record_fields(recs),
{
    lemma_read_json(read_start(), json);
    lemma_read_records(json, recs);
    let s = read_from(read_start(), lfs_export_bytes(json, recs));
    assert(s.out.push((s.id, s.enc)) =~= record_fields(recs));
}

proof fn lemma_read_records(json: Seq<u8>, recs: Seq<(Seq<char>, Seq<char>)>)
    requires
        no_lf(json),
        recs.len() > 0,
        read_from(read_start(), json) == read_start(),
        forall|i: int| 0 <= i < recs.len() ==> no_newline(#[trigger] recs[i].0) && lacks(recs[i].0, ':')
            && no_newline(recs[i].1),
    ensures
        read_from(read_start(), lfs_export_bytes(json, recs)) == (ReadState {
            json: false,
            is_data: true,
            id: encode_utf8(recs.last().0),
            enc: encode_utf8(recs.last().1),
            out: record_fields(recs.drop_last()),
        }),
    decreases recs.len(),
{
    let last = recs.last();
    assert(last == recs[recs.len() - 1]);
    let before = lfs_export_bytes(json, recs.drop_last());
    lemma_read_concat(read_start(), before, record_bytes(last.0, last.1));
    if recs.len() == 1 {
        assert(recs.drop_last().len() == 0);
        assert(before == json);
        lemma_read_record(read_start(), last.0, last.1);
        assert(record_fields(recs.drop_last()) =~= Seq::<(Seq<u8>, Seq<u8>)>::empty());
    } else {
        let r = recs.drop_last();
        assert forall|i: int| 0 <= i < r.len() implies no_newline(#[trigger] r[i].0) && lacks(r[i].0, ':')
            && no_newline(r[i].1) by {
            assert(r[i] == recs[i]);
        }
        lemma_read_records(json, r);
        let s = read_from(read_start(), before);
        lemma_read_record(s, last.0, last.1);
        assert(r.last() == recs[recs.len() - 2]);
        assert(record_fields(r.drop_last()).push((encode_utf8(r.last().0), encode_utf8(r.last().1))) =~= record_fields(r));
    }
}

/// The two folders of an object's file under the lfs object store: its
/// first two characters, then the next two.
pub fn object_dirs(name: &str) -> (res: (String, String))
    ensures
        res.0@ == crate::text::spec_substring(name@, 0, 2),
        res.1@ == crate::text::spec_substring(name@, 2, 4),
{
    (crate::text::substring(name, 0, 2), crate::text::substring(name, 2, 4))
}

/// The JSON line of an lfs export: the bytes before its first line feed,
/// or all of them when it has none.
pub fn json_line(data: &Vec<u8>) -> (res: Vec<u8>)
    ensures
        res@ == json_part(data@),
{
    let (json, _) = split_import(data);
    json
}

proof fn lemma_json_part_found(x: Seq<u8>, y: Seq<u8>)
    requires
        first_lf(x) is Some,
    ensures
        first_lf(x + y) is Some,
        json_part(x + y) == json_part(x),
{
    lemma_first_lf(x);
    let i = first_lf(x)->0;
    assert((x + y)[i] == x[i]);
    assert((x + y).take(i) =~= x.take(i));
    lemma_first_lf_unique(x + y, i);
}

/// The JSON of an lfs export with at least one object is its first line.
pub proof fn law_lfs_json_line(json: Seq<u8>, recs: Seq<(Seq<char>, Seq<char>)>)
    requires
        no_lf(json),
        recs.len() > 0,
    ensures
        first_lf(lfs_export_bytes(json, recs)) is Some,
        json_part(lfs_export_bytes(json, recs)) == json,
    decreases recs.len(),
{
    let rest = lfs_export_bytes(json, recs.drop_last());
    let r = record_bytes(recs.last().0, recs.last().1);
    if recs.len() == 1 {
        assert(rest == json);
        assert(r[0] == lf());
        assert((json + r)[json.len() as int] == lf());
        assert((json + r).take(json.len() as int) =~= json);
        lemma_first_lf_unique(json + r, json.len() as int);
    } else {
        law_lfs_json_line(json, recs.drop_last());
        lemma_json_part_found(rest, r);
        lemma_first_lf(rest);
        lemma_first_lf(rest + r);
        let i = first_lf(rest)->0;
        assert((rest + r)[i] == rest[i]);
        assert((rest + r).take(i) =~= rest.take(i));
        lemma_first_lf_unique(rest + r, i);
    }
}


/// The (id, base64 text) records of objects.
pub open spec fn encoded_records(ids: Seq<Seq<char>>, datas: Seq<Seq<u8>>) -> Seq<(Seq<char>, Seq<char>)> {
    Seq::new(ids.len(), |i: int| (ids[i], base64_encoding(datas[i])))
}

/// An object written into an lfs export comes back from it: reading the
/// export's bytes yields, for each object in order, the bytes of its id and a
/// text that the base64 crate decodes to the object's content.  It holds for
/// contents whose base64 text is one line and decodes back, which the crate
/// gives for every text it makes (see `base64_encode`), for ids without a
/// line feed or `:`, a one-line JSON, and at least one object.
pub proof fn law_lfs_object_roundtrip(json: Seq<u8>, ids: Seq<Seq<char>>, datas: Seq<Seq<u8>>)
    requires
        no_lf(json),
        ids.len() > 0,
        ids.len() == datas.len(),
        forall|i: int| 0 <= i < ids.len() ==> no_newline(#[trigger] ids[i]) && lacks(ids[i], ':'),
        forall|i: int|
            0 <= i < datas.len() ==> no_newline(#[trigger] base64_encoding(datas[i])) && base64_decoding(
                encode_utf8(base64_encoding(datas[i])),
            ) == Some(datas[i]),
    ensures
        records_of(lfs_export_bytes(json, encoded_records(ids, datas))).len() == ids.len(),
        forall|i: int|
            0 <= i < ids.len() ==> (#[trigger] records_of(lfs_export_bytes(json, encoded_records(ids, datas)))[i]).0
                == encode_utf8(ids[i]) && base64_decoding(
                records_of(lfs_export_bytes(json, encoded_records(ids, datas)))[i].1,
            ) == Some(datas[i]),
{
    let recs = encoded_records(ids, datas);
    assert forall|i: int| 0 <= i < recs.len() implies no_newline(#[trigger] recs[i].0) && lacks(recs[i].0, ':')
        && no_newline(recs[i].1) by {
        assert(recs[i] == (ids[i], base64_encoding(datas[i])));
        assert(no_newline(ids[i]));
        assert(no_newline(base64_encoding(datas[i])));
    }
    law_lfs_export_roundtrip(json, recs);
    assert forall|i: int| 0 <= i < ids.len() implies (#[trigger] records_of(lfs_export_bytes(json, recs))[i]).0
        == encode_utf8(ids[i]) && base64_decoding(records_of(lfs_export_bytes(json, recs))[i].1) == Some(datas[i]) by {
        assert(record_fields(recs)[i] == (encode_utf8(recs[i].0), encode_utf8(recs[i].1)));
        assert(recs[i] == (ids[i], base64_encoding(datas[i])));
        assert(no_newline(base64_encoding(datas[i])));
    }
}
} // verus!
