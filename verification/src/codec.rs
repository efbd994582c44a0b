//! Reversible, URL-safe codec for access-token records.
//!
//! A token record is never stored server-side: it is serialized to a
//! canonical byte form (every variable-length field carries an 8-byte
//! little-endian length prefix), wrapped in URL-safe base64, and handed to
//! the client as one opaque query-string value. Decoding is the strict
//! inverse: every record this crate encodes decodes back to an equal record,
//! and anything else is rejected as [`crate::CoreError::TokenDecodeFailed`].

use base64::Engine;
use vstd::bytes::*;
use vstd::prelude::*;
use vstd::slice::*;

use crate::errors::CoreError;

verus! {

/// Error type of base64's decoder, carried through the decode wrapper.
#[verifier::external_type_specification]
#[verifier::external_body]
pub struct ExDecodeError(base64::DecodeError);

/// The URL-safe base64 text of a byte sequence, as base64's `URL_SAFE`
/// engine writes it.
pub uninterp spec fn b64_of(b: Seq<u8>) -> Seq<char>;

/// Relies on base64's `Engine::encode` with the `URL_SAFE` engine: the text
/// it returns depends on the input bytes alone. The length bound keeps the
/// engine's internal output-size arithmetic from overflowing.
#[verifier::external_body]
fn b64_encode(b: &Vec<u8>) -> (r: String)
    requires
        b@.len() < 0x40000000,
    ensures
        r@ == b64_of(b@),
{
    base64::engine::general_purpose::URL_SAFE.encode(b.as_slice())
}

/// Relies on base64's `Engine::decode` with the `URL_SAFE` engine, which
/// requires canonical padding and rejects nonzero trailing bits: it accepts
/// exactly the texts `encode` produces and returns the bytes encoded.
#[verifier::external_body]
fn b64_decode(s: &str) -> (r: Result<Vec<u8>, base64::DecodeError>)
    ensures
        match r {
            Ok(d) => s@ == b64_of(d@) && forall|b: Seq<u8>| s@ == b64_of(b) ==> d@ == b,
            Err(_) => forall|b: Seq<u8>| s@ != b64_of(b),
        },
{
    base64::engine::general_purpose::URL_SAFE.decode(s.as_bytes())
}

/// Access-token record as the provider issues it: the token itself, an
/// optional refresh token, its lifetime, and the granted scopes. Textual
/// fields are carried as their raw bytes; the record is opaque to the rest
/// of the system.
#[derive(Debug, Clone, PartialEq, Eq)]
pub struct TokenRecord {
    pub access_token: Vec<u8>,
    pub refresh_token: Option<Vec<u8>>,
    pub expires_in_seconds: u64,
    pub scopes: Vec<Vec<u8>>,
}

/// Mathematical shape of a token record.
pub ghost struct TokenView {
    pub access_token: Seq<u8>,
    pub refresh_token: Option<Seq<u8>>,
    pub expires_in_seconds: u64,
    pub scopes: Seq<Seq<u8>>,
}

/// The view of an optional byte string.
pub open spec fn opt_view(o: Option<Vec<u8>>) -> Option<Seq<u8>> {
    match o {
        Option::None => Option::None,
        Option::Some(b) => Option::Some(b@),
    }
}

/// The view of a list of byte strings.
pub open spec fn scopes_view(v: Vec<Vec<u8>>) -> Seq<Seq<u8>> {
    Seq::new(v@.len(), |i: int| v@[i]@)
}

impl View for TokenRecord {
    type V = TokenView;

    open spec fn view(&self) -> TokenView {
        TokenView {
            access_token: self.access_token@,
            refresh_token: opt_view(self.refresh_token),
            expires_in_seconds: self.expires_in_seconds,
            scopes: scopes_view(self.scopes),
        }
    }
}

/// Whether every length of the record fits an 8-byte prefix. Every record
/// held in memory satisfies this.
pub open spec fn valid_token_view(t: TokenView) -> bool {
    &&& t.access_token.len() < 0x10000000000000000
    &&& (t.refresh_token matches Option::Some(b) ==> b.len() < 0x10000000000000000)
    &&& t.scopes.len() < 0x10000000000000000
    &&& forall|i: int| 0 <= i < t.scopes.len() ==> t.scopes[i].len() < 0x10000000000000000
}

/// A length-prefixed byte string: 8-byte little-endian length, then the bytes.
pub open spec fn spec_ser_chunk(b: Seq<u8>) -> Seq<u8> {
    spec_u64_to_le_bytes(b.len() as u64) + b
}

/// An optional byte string: a tag byte, then the chunk when present.
pub open spec fn spec_ser_opt(o: Option<Seq<u8>>) -> Seq<u8> {
    match o {
        Option::None => seq![0u8],
        Option::Some(b) => seq![1u8] + spec_ser_chunk(b),
    }
}

/// A list of byte strings, one chunk after another.
pub open spec fn spec_ser_list(l: Seq<Seq<u8>>) -> Seq<u8>
    decreases l.len(),
{
    if l.len() == 0 {
        Seq::empty()
    } else {
        spec_ser_chunk(l[0]) + spec_ser_list(l.drop_first())
    }
}

/// The canonical byte form of a token record.
pub open spec fn spec_ser_token(t: TokenView) -> Seq<u8> {
    spec_ser_chunk(t.access_token) + spec_ser_opt(t.refresh_token) + spec_u64_to_le_bytes(
        t.expires_in_seconds,
    ) + spec_u64_to_le_bytes(t.scopes.len() as u64) + spec_ser_list(t.scopes)
}

/// Reads an 8-byte little-endian integer; yields it and the rest.
pub open spec fn spec_parse_u64(s: Seq<u8>) -> Option<(u64, Seq<u8>)> {
    if s.len() >= 8 {
        Option::Some((spec_u64_from_le_bytes(s.take(8)), s.skip(8)))
    } else {
        Option::None
    }
}

/// Reads a length-prefixed byte string; yields it and the rest.
pub open spec fn spec_parse_chunk(s: Seq<u8>) -> Option<(Seq<u8>, Seq<u8>)> {
    match spec_parse_u64(s) {
        Option::None => Option::None,
        Option::Some((n, r)) => if r.len() >= n as int {
            Option::Some((r.take(n as int), r.skip(n as int)))
        } else {
            Option::None
        },
    }
}

/// Reads an optional byte string; any tag but 0 and 1 is rejected.
pub open spec fn spec_parse_opt(s: Seq<u8>) -> Option<(Option<Seq<u8>>, Seq<u8>)> {
    if s.len() < 1 {
        Option::None
    } else if s[0] == 0 {
        Option::Some((Option::None, s.skip(1)))
    } else if s[0] == 1 {
        match spec_parse_chunk(s.skip(1)) {
            Option::None => Option::None,
            Option::Some((b, r)) => Option::Some((Option::Some(b), r)),
        }
    } else {
        Option::None
    }
}

/// Reads `n` length-prefixed byte strings; yields them and the rest.
pub open spec fn spec_parse_list(s: Seq<u8>, n: nat) -> Option<(Seq<Seq<u8>>, Seq<u8>)>
    decreases n,
{
    if n == 0 {
        Option::Some((Seq::empty(), s))
    } else {
        match spec_parse_chunk(s) {
            Option::None => Option::None,
            Option::Some((b, r)) => match spec_parse_list(r, (n - 1) as nat) {
                Option::None => Option::None,
                Option::Some((l, r2)) => Option::Some((seq![b] + l, r2)),
            },
        }
    }
}

/// Reads a whole token record; trailing bytes are rejected.
pub open spec fn spec_parse_token(s: Seq<u8>) -> Option<TokenView> {
    match spec_parse_chunk(s) {
        Option::None => Option::None,
        Option::Some((access, r1)) => match spec_parse_opt(r1) {
            Option::None => Option::None,
            Option::Some((refresh, r2)) => match spec_parse_u64(r2) {
                Option::None => Option::None,
                Option::Some((expires, r3)) => match spec_parse_u64(r3) {
                    Option::None => Option::None,
                    Option::Some((count, r4)) => match spec_parse_list(r4, count as nat) {
                        Option::None => Option::None,
                        Option::Some((scopes, r5)) => if r5.len() == 0 {
                            Option::Some(
                                TokenView {
                                    access_token: access,
                                    refresh_token: refresh,
                                    expires_in_seconds: expires,
                                    scopes,
                                },
                            )
                        } else {
                            Option::None
                        },
                    },
                },
            },
        },
    }
}

proof fn lemma_parse_ser_u64(x: u64, rest: Seq<u8>)
    ensures
        spec_parse_u64(spec_u64_to_le_bytes(x) + rest) == Option::Some((x, rest)),
{
    lemma_auto_spec_u64_to_from_le_bytes();
    let a = spec_u64_to_le_bytes(x);
    let s = a + rest;
    assert(s.take(8) =~= a);
    assert(s.skip(8) =~= rest);
}

proof fn lemma_parse_ser_chunk(b: Seq<u8>, rest: Seq<u8>)
    requires
        b.len() < 0x10000000000000000,
    ensures
        spec_parse_chunk(spec_ser_chunk(b) + rest) == Option::Some((b, rest)),
{
    lemma_auto_spec_u64_to_from_le_bytes();
    let n = b.len() as u64;
    lemma_parse_ser_u64(n, b + rest);
    assert(spec_ser_chunk(b) + rest =~= spec_u64_to_le_bytes(n) + (b + rest));
    assert((b + rest).take(n as int) =~= b);
    assert((b + rest).skip(n as int) =~= rest);
}

proof fn lemma_parse_ser_opt(o: Option<Seq<u8>>, rest: Seq<u8>)
    requires
        o matches Option::Some(b) ==> b.len() < 0x10000000000000000,
    ensures
        spec_parse_opt(spec_ser_opt(o) + rest) == Option::Some((o, rest)),
{
    match o {
        Option::None => {
            let s = spec_ser_opt(o) + rest;
            assert(s[0] == 0);
            assert(s.skip(1) =~= rest);
        },
        Option::Some(b) => {
            let s = spec_ser_opt(o) + rest;
            assert(s[0] == 1);
            assert(s.skip(1) =~= spec_ser_chunk(b) + rest);
            lemma_parse_ser_chunk(b, rest);
        },
    }
}

proof fn lemma_parse_ser_list(l: Seq<Seq<u8>>, rest: Seq<u8>)
    requires
        forall|i: int| 0 <= i < l.len() ==> l[i].len() < 0x10000000000000000,
    ensures
        spec_parse_list(spec_ser_list(l) + rest, l.len()) == Option::Some((l, rest)),
    decreases l.len(),
{
    if l.len() == 0 {
        assert(spec_ser_list(l) + rest =~= rest);
        assert(l =~= Seq::<Seq<u8>>::empty());
    } else {
        let tail = l.drop_first();
        lemma_parse_ser_chunk(l[0], spec_ser_list(tail) + rest);
        assert(spec_ser_list(l) + rest =~= spec_ser_chunk(l[0]) + (spec_ser_list(tail) + rest));
        lemma_parse_ser_list(tail, rest);
        assert(seq![l[0]] + tail =~= l);
    }
}

/// Law: the codec is a strict two-way inverse. Parsing the canonical byte
/// form of any token record yields that record back.
pub proof fn lemma_parse_ser_token(t: TokenView)
    requires
        valid_token_view(t),
    ensures
        spec_parse_token(spec_ser_token(t)) == Option::Some(t),
{
    let s_acc = spec_ser_chunk(t.access_token);
    let s_ref = spec_ser_opt(t.refresh_token);
    let s_exp = spec_u64_to_le_bytes(t.expires_in_seconds);
    let s_cnt = spec_u64_to_le_bytes(t.scopes.len() as u64);
    let s_list = spec_ser_list(t.scopes);
    let s = spec_ser_token(t);
    assert(s =~= s_acc + (s_ref + (s_exp + (s_cnt + s_list))));
    lemma_parse_ser_chunk(t.access_token, s_ref + (s_exp + (s_cnt + s_list)));
    lemma_parse_ser_opt(t.refresh_token, s_exp + (s_cnt + s_list));
    lemma_parse_ser_u64(t.expires_in_seconds, s_cnt + s_list);
    lemma_parse_ser_u64(t.scopes.len() as u64, s_list);
    lemma_parse_ser_list(t.scopes, Seq::<u8>::empty());
    assert(s_list + Seq::<u8>::empty() =~= s_list);
    assert((t.scopes.len() as u64) as nat == t.scopes.len());
}

proof fn lemma_ser_list_snoc(l: Seq<Seq<u8>>, e: Seq<u8>)
    ensures
        spec_ser_list(l.push(e)) == spec_ser_list(l) + spec_ser_chunk(e),
    decreases l.len(),
{
    if l.len() == 0 {
        assert(l.push(e)[0] == e);
        assert(l.push(e).drop_first() =~= Seq::<Seq<u8>>::empty());
        assert(spec_ser_list(l.push(e).drop_first()) == Seq::<u8>::empty());
        assert(spec_ser_list(l.push(e)) == spec_ser_chunk(e) + Seq::<u8>::empty());
        assert(spec_ser_chunk(e) + Seq::<u8>::empty() =~= spec_ser_chunk(e));
        assert(spec_ser_list(l) + spec_ser_chunk(e) =~= spec_ser_chunk(e));
    } else {
        assert(l.push(e).drop_first() =~= l.drop_first().push(e));
        lemma_ser_list_snoc(l.drop_first(), e);
        assert(l.push(e)[0] == l[0]);
        assert(spec_ser_chunk(l[0]) + (spec_ser_list(l.drop_first()) + spec_ser_chunk(e)) =~= (
        spec_ser_chunk(l[0]) + spec_ser_list(l.drop_first())) + spec_ser_chunk(e));
    }
}

fn push_u64(out: &mut Vec<u8>, x: u64)
    ensures
        final(out)@ == old(out)@ + spec_u64_to_le_bytes(x),
{
    let mut bs = u64_to_le_bytes(x);
    out.append(&mut bs);
}

fn push_chunk(out: &mut Vec<u8>, b: &Vec<u8>)
    ensures
        final(out)@ == old(out)@ + spec_ser_chunk(b@),
{
    push_u64(out, b.len() as u64);
    let mut copy = slice_to_vec(b.as_slice());
    out.append(&mut copy);
    proof {
        assert((old(out)@ + spec_u64_to_le_bytes(b@.len() as u64)) + b@ =~= old(out)@
            + spec_ser_chunk(b@));
    }
}

/// The canonical byte form of `t`, as [`spec_ser_token`] gives it.
pub fn serialize_token(t: &TokenRecord) -> (r: Vec<u8>)
    ensures
        r@ == spec_ser_token(t@),
{
    let mut out: Vec<u8> = Vec::new();
    push_chunk(&mut out, &t.access_token);
    match &t.refresh_token {
        Option::None => {
            out.push(0u8);
            proof {
                assert(out@ =~= spec_ser_chunk(t@.access_token) + spec_ser_opt(t@.refresh_token));
            }
        },
        Option::Some(b) => {
            out.push(1u8);
            push_chunk(&mut out, b);
            proof {
                assert(out@ =~= spec_ser_chunk(t@.access_token) + spec_ser_opt(t@.refresh_token));
            }
        },
    }
    push_u64(&mut out, t.expires_in_seconds);
    push_u64(&mut out, t.scopes.len() as u64);
    let ghost prefix = out@;
    proof {
        assert(prefix =~= spec_ser_chunk(t@.access_token) + spec_ser_opt(t@.refresh_token)
            + spec_u64_to_le_bytes(t@.expires_in_seconds) + spec_u64_to_le_bytes(
            t@.scopes.len() as u64,
        ));
        assert(scopes_view(t.scopes).take(0) =~= Seq::<Seq<u8>>::empty());
        assert(out@ =~= prefix + spec_ser_list(scopes_view(t.scopes).take(0)));
    }
    let n = t.scopes.len();
    let mut i: usize = 0;
    while i < n
        invariant
            n == t.scopes@.len(),
            i <= n,
            out@ == prefix + spec_ser_list(scopes_view(t.scopes).take(i as int)),
        decreases n - i,
    {
        push_chunk(&mut out, &t.scopes[i]);
        proof {
            let sv = scopes_view(t.scopes);
            lemma_ser_list_snoc(sv.take(i as int), sv[i as int]);
            assert(sv.take(i as int).push(sv[i as int]) =~= sv.take(i as int + 1));
            assert((prefix + spec_ser_list(sv.take(i as int))) + spec_ser_chunk(t.scopes@[i as int]@)
                =~= prefix + spec_ser_list(sv.take(i as int + 1)));
        }
        i = i + 1;
    }
    proof {
        assert(scopes_view(t.scopes).take(n as int) =~= scopes_view(t.scopes));
        assert(out@ =~= spec_ser_token(t@));
    }
    out
}

fn read_u64(data: &Vec<u8>, pos: usize) -> (r: Option<(u64, usize)>)
    requires
        pos <= data@.len(),
    ensures
        match r {
            Option::Some((x, pos2)) => pos < pos2 <= data@.len() && spec_parse_u64(
                data@.skip(pos as int),
            ) == Option::Some((x, data@.skip(pos2 as int))),
            Option::None => spec_parse_u64(data@.skip(pos as int)) is None,
        },
{
    if data.len() - pos >= 8 {
        let sl = slice_subrange(data.as_slice(), pos, pos + 8);
        let x = u64_from_le_bytes(sl);
        proof {
            assert(data@.skip(pos as int).take(8) =~= data@.subrange(pos as int, pos as int + 8));
            assert(data@.skip(pos as int).skip(8) =~= data@.skip(pos as int + 8));
        }
        Option::Some((x, pos + 8))
    } else {
        Option::None
    }
}

fn read_chunk(data: &Vec<u8>, pos: usize) -> (r: Option<(Vec<u8>, usize)>)
    requires
        pos <= data@.len(),
    ensures
        match r {
            Option::Some((b, pos2)) => pos <= pos2 <= data@.len() && spec_parse_chunk(
                data@.skip(pos as int),
            ) == Option::Some((b@, data@.skip(pos2 as int))),
            Option::None => spec_parse_chunk(data@.skip(pos as int)) is None,
        },
{
    match read_u64(data, pos) {
        Option::None => Option::None,
        Option::Some((n, pos1)) => {
            let rem: usize = data.len() - pos1;
            if n <= rem as u64 {
                let nn = n as usize;
                let sl = slice_subrange(data.as_slice(), pos1, pos1 + nn);
                let b = slice_to_vec(sl);
                proof {
                    let s1 = data@.skip(pos1 as int);
                    assert(s1.len() >= n as int);
                    assert(s1.take(n as int) =~= data@.subrange(pos1 as int, pos1 as int + n as int));
                    assert(s1.skip(n as int) =~= data@.skip(pos1 as int + n as int));
                }
                Option::Some((b, pos1 + nn))
            } else {
                proof {
                    assert(data@.skip(pos1 as int).len() < n as int);
                }
                Option::None
            }
        },
    }
}

fn read_opt(data: &Vec<u8>, pos: usize) -> (r: Option<(Option<Vec<u8>>, usize)>)
    requires
        pos <= data@.len(),
    ensures
        match r {
            Option::Some((o, pos2)) => pos <= pos2 <= data@.len() && spec_parse_opt(
                data@.skip(pos as int),
            ) == Option::Some((opt_view(o), data@.skip(pos2 as int))),
            Option::None => spec_parse_opt(data@.skip(pos as int)) is None,
        },
{
    if pos < data.len() {
        let tag = data[pos];
        proof {
            assert(data@.skip(pos as int)[0] == data@[pos as int]);
            assert(data@.skip(pos as int).skip(1) =~= data@.skip(pos as int + 1));
        }
        if tag == 0 {
            Option::Some((Option::None, pos + 1))
        } else if tag == 1 {
            match read_chunk(data, pos + 1) {
                Option::None => Option::None,
                Option::Some((b, pos2)) => Option::Some((Option::Some(b), pos2)),
            }
        } else {
            Option::None
        }
    } else {
        Option::None
    }
}

/// Reads a token record back from its canonical byte form; `None` exactly
/// when the bytes are not the canonical form of any record.
pub fn parse_token(data: &Vec<u8>) -> (r: Option<TokenRecord>)
    ensures
        match r {
            Option::Some(t) => spec_parse_token(data@) == Option::Some(t@),
            Option::None => spec_parse_token(data@) is None,
        },
{
    proof {
        assert(data@.skip(0) =~= data@);
    }
    let step1 = read_chunk(data, 0);
    match step1 {
        Option::None => Option::None,
        Option::Some((access, pos1)) => {
            let step2 = read_opt(data, pos1);
            match step2 {
                Option::None => Option::None,
                Option::Some((refresh, pos2)) => {
                    let step3 = read_u64(data, pos2);
                    match step3 {
                        Option::None => Option::None,
                        Option::Some((expires, pos3)) => {
                            let step4 = read_u64(data, pos3);
                            match step4 {
                                Option::None => Option::None,
                                Option::Some((count, pos4)) => parse_scopes(
                                    data,
                                    pos4,
                                    count,
                                    access,
                                    refresh,
                                    expires,
                                ),
                            }
                        },
                    }
                },
            }
        },
    }
}

fn parse_scopes(
    data: &Vec<u8>,
    pos4: usize,
    count: u64,
    access: Vec<u8>,
    refresh: Option<Vec<u8>>,
    expires: u64,
) -> (r: Option<TokenRecord>)
    requires
        pos4 <= data@.len(),
    ensures
        match r {
            Option::Some(t) => spec_parse_list(data@.skip(pos4 as int), count as nat)
                matches Option::Some(pair) && pair.1.len() == 0 && t@ == (TokenView {
                access_token: access@,
                refresh_token: opt_view(refresh),
                expires_in_seconds: expires,
                scopes: pair.0,
            }),
            Option::None => match spec_parse_list(data@.skip(pos4 as int), count as nat) {
                Option::None => true,
                Option::Some(pair) => pair.1.len() != 0,
            },
        },
{
    let mut scopes: Vec<Vec<u8>> = Vec::new();
    let mut i: u64 = 0;
    let mut pos = pos4;
    proof {
        assert(scopes_view(scopes) =~= Seq::<Seq<u8>>::empty());
    }
    while i < count
        invariant
            i <= count,
            pos <= data@.len(),
            spec_parse_list(data@.skip(pos4 as int), count as nat) == (match spec_parse_list(
                data@.skip(pos as int),
                (count - i) as nat,
            ) {
                Option::None => Option::None,
                Option::Some(pair) => Option::Some(
                    (scopes_view(scopes) + pair.0, pair.1),
                ),
            }),
        decreases count - i,
    {
        let step = read_chunk(data, pos);
        match step {
            Option::None => {
                return Option::None;
            },
            Option::Some((b, p)) => {
                proof {
                    assert(scopes_view(scopes).push(b@) =~= Seq::new(
                        scopes@.len() + 1,
                        |j: int|
                            if j < scopes@.len() {
                                scopes@[j]@
                            } else {
                                b@
                            },
                    ));
                }
                let ghost old_scopes = scopes;
                scopes.push(b);
                proof {
                    assert(scopes_view(scopes) =~= scopes_view(old_scopes).push(b@));
                    assert forall|l: Seq<Seq<u8>>|
                        true implies #[trigger] (scopes_view(old_scopes) + (seq![b@] + l))
                        == scopes_view(scopes) + l by {
                        assert(scopes_view(old_scopes) + (seq![b@] + l) =~= scopes_view(
                            old_scopes,
                        ).push(b@) + l);
                    }
                }
                pos = p;
                i = i + 1;
            },
        }
    }
    if pos == data.len() {
        proof {
            assert(data@.skip(pos as int).len() == 0);
            assert(scopes_view(scopes) + Seq::<Seq<u8>>::empty() =~= scopes_view(scopes));
        }
        Option::Some(
            TokenRecord { access_token: access, refresh_token: refresh, expires_in_seconds: expires, scopes },
        )
    } else {
        proof {
            assert(data@.skip(pos as int).len() != 0);
        }
        Option::None
    }
}

/// Encodes a token record as one opaque, URL-safe string. `None` exactly
/// when the record's byte form is too large for the base64 engine, which no
/// token a provider issues comes near.
pub fn encode_token(t: &TokenRecord) -> (r: Option<String>)
    ensures
        r is Some <==> spec_ser_token(t@).len() < 0x40000000,
        r matches Some(s) ==> s@ == b64_of(spec_ser_token(t@)),
{
    let bytes = serialize_token(t);
    if bytes.len() < 0x40000000 {
        Option::Some(b64_encode(&bytes))
    } else {
        Option::None
    }
}

/// Decodes an opaque token string back into the record it encodes. Fails
/// with [`CoreError::TokenDecodeFailed`] exactly when the string is not the
/// encoding of any record; in particular, every string
/// [`encode_token`] produces decodes back to an equal record.
pub fn decode_token(s: &str) -> (r: Result<TokenRecord, CoreError>)
    ensures
        r matches Ok(t) ==> exists|d: Seq<u8>|
            s@ == b64_of(d) && spec_parse_token(d) == Option::Some(t@),
        forall|tv: TokenView|
            valid_token_view(tv) && s@ == b64_of(spec_ser_token(tv)) ==> (r matches Ok(t) && t@
                == tv),
        r is Err <==> !(exists|d: Seq<u8>| s@ == b64_of(d) && spec_parse_token(d) is Some),
        r matches Err(e) ==> e == CoreError::TokenDecodeFailed,
{
    let decoded = b64_decode(s);
    match decoded {
        Result::Err(_) => {
            proof {
                assert forall|d: Seq<u8>| s@ == b64_of(d) implies false by {
                }
            }
            Result::Err(CoreError::TokenDecodeFailed)
        },
        Result::Ok(bytes) => {
            let parsed = parse_token(&bytes);
            match parsed {
                Option::None => {
                    proof {
                        assert forall|tv: TokenView|
                            valid_token_view(tv) && s@ == b64_of(spec_ser_token(tv)) implies
                        false by {
                            assert(bytes@ == spec_ser_token(tv));
                            lemma_parse_ser_token(tv);
                        }
                        assert forall|d: Seq<u8>|
                            s@ == b64_of(d) && spec_parse_token(d) is Some implies false by {
                            assert(bytes@ == d);
                        }
                    }
                    Result::Err(CoreError::TokenDecodeFailed)
                },
                Option::Some(t) => {
                    proof {
                        assert(s@ == b64_of(bytes@) && spec_parse_token(bytes@) == Option::Some(
                            t@,
                        ));
                        assert forall|tv: TokenView|
                            valid_token_view(tv) && s@ == b64_of(spec_ser_token(tv)) implies t@
                            == tv by {
                            assert(bytes@ == spec_ser_token(tv));
                            lemma_parse_ser_token(tv);
                        }
                    }
                    Result::Ok(t)
                },
            }
        },
    }
}

/// Every token record held in memory has a valid view: each of its lengths
/// fits the 8-byte prefix of the canonical form.
pub proof fn lemma_token_record_valid(t: &TokenRecord)
    ensures
        valid_token_view(t@),
{
    vstd::std_specs::vec::axiom_spec_len(&t.access_token);
    match t.refresh_token {
        Option::None => {
        },
        Option::Some(b) => {
            vstd::std_specs::vec::axiom_spec_len(&b);
        },
    }
    vstd::std_specs::vec::axiom_spec_len(&t.scopes);
    assert forall|i: int| 0 <= i < t@.scopes.len() implies t@.scopes[i].len()
        < 0x10000000000000000 by {
        vstd::std_specs::vec::axiom_spec_len(&t.scopes@[i]);
    }
}

} // verus!
