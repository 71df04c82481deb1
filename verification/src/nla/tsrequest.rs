//! CredSSP `TSRequest` and `TSCredentials` DER (de)serialization (MS-CSSP).
//!
//! CredSSP wraps the SPNEGO/NTLM/Kerberos token exchange (`negoTokens`), then
//! carries the public-key authentication blob (`pubKeyAuth`) and finally the
//! encrypted credentials (`authInfo`). The module uses EXPLICIT tagging, so
//! each `[n]` field is a constructed context tag wrapping the base type.
//!
//! ```text
//! TSRequest ::= SEQUENCE {
//!     version    [0] INTEGER,
//!     negoTokens [1] NegoData OPTIONAL,
//!     authInfo   [2] OCTET STRING OPTIONAL,
//!     pubKeyAuth [3] OCTET STRING OPTIONAL,
//!     errorCode  [4] INTEGER OPTIONAL,
//!     clientNonce[5] OCTET STRING OPTIONAL
//! }
//! NegoData ::= SEQUENCE OF SEQUENCE { negoToken [0] OCTET STRING }
//! ```
use vstd::prelude::*;
use crate::asn1::Asn1Error;
use crate::asn1::der::{TAG_INTEGER, TAG_OCTET_STRING, TAG_SEQUENCE, spec_tlv, spec_context_tag,
    spec_integer_value, spec_expect, spec_read_element, spec_read_u32, spec_encode_length, context, context_tag,
    integer, octet_string, sequence, expect, read_element, read_u32, lemma_tlv_roundtrip,
    lemma_integer_roundtrip};
use crate::bytes::push_all;
use crate::text::{utf16_encode, units_le, encode_utf16, push_units_le};

verus! {

/// CredSSP protocol version advertised (what current Windows speaks).
pub const CREDSSP_VERSION: u32 = 6;

/// A CredSSP `TSRequest`, parsed from the wire or built to send.
#[derive(Debug, Clone, Default, PartialEq, Eq)]
pub struct TsRequest {
    pub version: u32,
    /// SPNEGO/NTLM/Kerberos tokens (usually one per round trip).
    pub nego_tokens: Vec<Vec<u8>>,
    /// Encrypted `TSCredentials` (sent last).
    pub auth_info: Option<Vec<u8>>,
    /// Public-key authentication blob (binding to the TLS channel).
    pub pub_key_auth: Option<Vec<u8>>,
    /// Error code from the server.
    pub error_code: Option<u32>,
    /// Client nonce used in the public-key hash.
    pub client_nonce: Option<[u8; 32]>,
}

/// A `TSRequest` as values.
pub struct TsRequestModel {
    pub version: u32,
    pub nego_tokens: Seq<Seq<u8>>,
    pub auth_info: Option<Seq<u8>>,
    pub pub_key_auth: Option<Seq<u8>>,
    pub error_code: Option<u32>,
    pub client_nonce: Option<Seq<u8>>,
}

pub open spec fn opt_bytes(o: Option<Vec<u8>>) -> Option<Seq<u8>> {
    match o {
        Some(v) => Some(v@),
        None => None,
    }
}

pub open spec fn opt_nonce(o: Option<[u8; 32]>) -> Option<Seq<u8>> {
    match o {
        Some(a) => Some(a@),
        None => None,
    }
}

pub open spec fn tokens_view(t: Seq<Vec<u8>>) -> Seq<Seq<u8>> {
    t.map_values(|v: Vec<u8>| v@)
}

impl View for TsRequest {
    type V = TsRequestModel;

    open spec fn view(&self) -> TsRequestModel {
        TsRequestModel {
            version: self.version,
            nego_tokens: tokens_view(self.nego_tokens@),
            auth_info: opt_bytes(self.auth_info),
            pub_key_auth: opt_bytes(self.pub_key_auth),
            error_code: self.error_code,
            client_nonce: opt_nonce(self.client_nonce),
        }
    }
}

/// The request a parse starts from: version 0 and nothing else.
pub open spec fn empty_model() -> TsRequestModel {
    TsRequestModel {
        version: 0,
        nego_tokens: Seq::empty(),
        auth_info: None,
        pub_key_auth: None,
        error_code: None,
        client_nonce: None,
    }
}

/// `[k] OCTET STRING` when present.
pub open spec fn octets_field(k: u8, o: Option<Seq<u8>>) -> Seq<u8> {
    match o {
        Some(b) => spec_tlv(spec_context_tag(k), spec_tlv(TAG_OCTET_STRING, b)),
        None => Seq::empty(),
    }
}

/// `SEQUENCE { negoToken [0] OCTET STRING }`.
pub open spec fn token_item(t: Seq<u8>) -> Seq<u8> {
    spec_tlv(TAG_SEQUENCE, spec_tlv(spec_context_tag(0), spec_tlv(TAG_OCTET_STRING, t)))
}

/// The `NegoData` items, in order.
pub open spec fn token_items(ts: Seq<Seq<u8>>) -> Seq<u8>
    decreases ts.len(),
{
    if ts.len() == 0 {
        Seq::empty()
    } else {
        token_items(ts.drop_last()) + token_item(ts.last())
    }
}

/// The fields of a `TSRequest`, in order, each present one encoded.
pub open spec fn spec_ts_body(m: TsRequestModel) -> Seq<u8> {
    spec_tlv(spec_context_tag(0), spec_tlv(TAG_INTEGER, spec_integer_value(m.version)))
        + (if m.nego_tokens.len() > 0 {
        spec_tlv(spec_context_tag(1), spec_tlv(TAG_SEQUENCE, token_items(m.nego_tokens)))
    } else {
        Seq::empty()
    }) + octets_field(2, m.auth_info) + octets_field(3, m.pub_key_auth) + (match m.error_code {
        Some(c) => spec_tlv(spec_context_tag(4), spec_tlv(TAG_INTEGER, spec_integer_value(c))),
        None => Seq::empty(),
    }) + octets_field(5, m.client_nonce)
}

/// The DER of a `TSRequest`.
pub open spec fn spec_ts_to_der(m: TsRequestModel) -> Seq<u8> {
    spec_tlv(TAG_SEQUENCE, spec_ts_body(m))
}

/// Reading the `NegoData` items of `items`, appending each token to `acc`.
pub open spec fn spec_tokens(items: Seq<u8>, acc: Seq<Seq<u8>>) -> Result<Seq<Seq<u8>>, Asn1Error>
    decreases items.len(),
{
    if items.len() == 0 {
        Ok(acc)
    } else {
        match spec_expect(items, TAG_SEQUENCE) {
            Err(e) => Err(e),
            Ok((one, n)) => match spec_expect(one, spec_context_tag(0)) {
                Err(e) => Err(e),
                Ok((tok, _)) => match spec_expect(tok, TAG_OCTET_STRING) {
                    Err(e) => Err(e),
                    Ok((oct, _)) => if 0 < n <= items.len() {
                        spec_tokens(items.skip(n as int), acc.push(oct))
                    } else {
                        Err(Asn1Error::UnexpectedEof)
                    },
                },
            },
        }
    }
}

/// One field of a `TSRequest`, by its tag; unknown tags are skipped.
pub open spec fn spec_field(tag: u8, value: Seq<u8>, acc: TsRequestModel) -> Result<TsRequestModel, Asn1Error> {
    if tag == spec_context_tag(0) {
        match spec_expect(value, TAG_INTEGER) {
            Err(e) => Err(e),
            Ok((iv, _)) => match spec_read_u32(iv) {
                Err(e) => Err(e),
                Ok(v) => Ok(TsRequestModel { version: v, ..acc }),
            },
        }
    } else if tag == spec_context_tag(1) {
        match spec_expect(value, TAG_SEQUENCE) {
            Err(e) => Err(e),
            Ok((items, _)) => match spec_tokens(items, acc.nego_tokens) {
                Err(e) => Err(e),
                Ok(t) => Ok(TsRequestModel { nego_tokens: t, ..acc }),
            },
        }
    } else if tag == spec_context_tag(2) {
        match spec_expect(value, TAG_OCTET_STRING) {
            Err(e) => Err(e),
            Ok((b, _)) => Ok(TsRequestModel { auth_info: Some(b), ..acc }),
        }
    } else if tag == spec_context_tag(3) {
        match spec_expect(value, TAG_OCTET_STRING) {
            Err(e) => Err(e),
            Ok((b, _)) => Ok(TsRequestModel { pub_key_auth: Some(b), ..acc }),
        }
    } else if tag == spec_context_tag(4) {
        match spec_expect(value, TAG_INTEGER) {
            Err(e) => Err(e),
            Ok((iv, _)) => match spec_read_u32(iv) {
                Err(e) => Err(e),
                Ok(v) => Ok(TsRequestModel { error_code: Some(v), ..acc }),
            },
        }
    } else if tag == spec_context_tag(5) {
        match spec_expect(value, TAG_OCTET_STRING) {
            Err(e) => Err(e),
            Ok((b, _)) => if b.len() == 32 {
                Ok(TsRequestModel { client_nonce: Some(b), ..acc })
            } else {
                Ok(acc)
            },
        }
    } else {
        Ok(acc)
    }
}

/// Reading all fields of `f` into `acc`.
pub open spec fn spec_fields(f: Seq<u8>, acc: TsRequestModel) -> Result<TsRequestModel, Asn1Error>
    decreases f.len(),
{
    if f.len() == 0 {
        Ok(acc)
    } else {
        match spec_read_element(f) {
            Err(e) => Err(e),
            Ok((tag, value, n)) => match spec_field(tag, value, acc) {
                Err(e) => Err(e),
                Ok(a2) => if 0 < n <= f.len() {
                    spec_fields(f.skip(n as int), a2)
                } else {
                    Err(Asn1Error::UnexpectedEof)
                },
            },
        }
    }
}

/// Parsing a `TSRequest`.
pub open spec fn spec_ts_from_der(input: Seq<u8>) -> Result<TsRequestModel, Asn1Error> {
    match spec_expect(input, TAG_SEQUENCE) {
        Err(e) => Err(e),
        Ok((body, _)) => spec_fields(body, empty_model()),
    }
}

/// A successful read consumes at least the tag and at most the input.
pub proof fn lemma_read_element_consumes(s: Seq<u8>)
    ensures
        spec_read_element(s) matches Ok((_, v, n)) ==> 0 < n <= s.len() && v.len() < n,
{
}

/// `[k] OCTET STRING { b }`.
fn octets_element(k: u8, b: &[u8]) -> (r: Vec<u8>)
    ensures
        r@ == spec_tlv(spec_context_tag(k), spec_tlv(TAG_OCTET_STRING, b@)),
{
    let inner = octet_string(b);
    context(k, inner.as_slice())
}

/// `[k] INTEGER { v }`.
fn integer_element(k: u8, v: u32) -> (r: Vec<u8>)
    ensures
        r@ == spec_tlv(spec_context_tag(k), spec_tlv(TAG_INTEGER, spec_integer_value(v))),
{
    let inner = integer(v);
    context(k, inner.as_slice())
}

/// Read the `NegoData` items of `items`, appending each token.
fn read_tokens(items: &[u8], tokens: &mut Vec<Vec<u8>>) -> (r: Result<(), Asn1Error>)
    ensures
        match spec_tokens(items@, tokens_view(old(tokens)@)) {
            Ok(t) => r is Ok && tokens_view(final(tokens)@) == t,
            Err(e) => r == Err::<(), Asn1Error>(e),
        },
{
    let mut rest = items;
    let ghost goal = spec_tokens(items@, tokens_view(tokens@));
    while rest.len() > 0
        invariant
            goal == spec_tokens(items@, tokens_view(old(tokens)@)),
            goal == spec_tokens(rest@, tokens_view(tokens@)),
        decreases rest@.len(),
    {
        let ghost cur = rest@;
        let ghost before = tokens_view(tokens@);
        proof {
            lemma_read_element_consumes(cur);
        }
        let mut one = match expect(&mut rest, TAG_SEQUENCE) {
            Ok(x) => x,
            Err(e) => return Err(e),
        };
        let mut tok = match expect(&mut one, context_tag(0)) {
            Ok(x) => x,
            Err(e) => return Err(e),
        };
        let oct = match expect(&mut tok, TAG_OCTET_STRING) {
            Ok(x) => x,
            Err(e) => return Err(e),
        };
        tokens.push(crate::bytes::to_vec(oct));
        assert(tokens_view(tokens@) =~= before.push(oct@));
    }
    Ok(())
}

/// Read one field into `req`.
fn read_field(tag: u8, value: &[u8], req: &mut TsRequest) -> (r: Result<(), Asn1Error>)
    ensures
        match spec_field(tag, value@, old(req)@) {
            Ok(m) => r is Ok && final(req)@ == m,
            Err(e) => r == Err::<(), Asn1Error>(e),
        },
{
    let ghost acc = req@;
    let mut inner = value;
    if tag == context_tag(0) {
        let iv = match expect(&mut inner, TAG_INTEGER) {
            Ok(x) => x,
            Err(e) => return Err(e),
        };
        let v = match read_u32(iv) {
            Ok(v) => v,
            Err(e) => return Err(e),
        };
        req.version = v;
        Ok(())
    } else if tag == context_tag(1) {
        let items = match expect(&mut inner, TAG_SEQUENCE) {
            Ok(x) => x,
            Err(e) => return Err(e),
        };
        read_tokens(items, &mut req.nego_tokens)
    } else if tag == context_tag(2) {
        let b = match expect(&mut inner, TAG_OCTET_STRING) {
            Ok(x) => x,
            Err(e) => return Err(e),
        };
        req.auth_info = Some(crate::bytes::to_vec(b));
        Ok(())
    } else if tag == context_tag(3) {
        let b = match expect(&mut inner, TAG_OCTET_STRING) {
            Ok(x) => x,
            Err(e) => return Err(e),
        };
        req.pub_key_auth = Some(crate::bytes::to_vec(b));
        Ok(())
    } else if tag == context_tag(4) {
        let iv = match expect(&mut inner, TAG_INTEGER) {
            Ok(x) => x,
            Err(e) => return Err(e),
        };
        let v = match read_u32(iv) {
            Ok(v) => v,
            Err(e) => return Err(e),
        };
        req.error_code = Some(v);
        Ok(())
    } else if tag == context_tag(5) {
        let b = match expect(&mut inner, TAG_OCTET_STRING) {
            Ok(x) => x,
            Err(e) => return Err(e),
        };
        if b.len() == 32 {
            let mut nonce = [0u8; 32];
            let mut i: usize = 0;
            while i < 32
                invariant
                    i <= 32,
                    b@.len() == 32,
                    nonce@.len() == 32,
                    forall|k: int| 0 <= k < i ==> nonce@[k] == b@[k],
                decreases 32 - i,
            {
                nonce[i] = b[i];
                i = i + 1;
            }
            assert(nonce@ =~= b@);
            req.client_nonce = Some(nonce);
        }
        Ok(())
    } else {
        Ok(())
    }
}

impl TsRequest {
    /// A request carrying a single negotiation token.
    pub fn with_nego_token(token: Vec<u8>) -> (r: Self)
        ensures
            r@ == (TsRequestModel { version: CREDSSP_VERSION, nego_tokens: seq![token@], ..empty_model() }),
    {
        let mut tokens: Vec<Vec<u8>> = Vec::new();
        let ghost t = token@;
        tokens.push(token);
        let r = TsRequest {
            version: CREDSSP_VERSION,
            nego_tokens: tokens,
            auth_info: None,
            pub_key_auth: None,
            error_code: None,
            client_nonce: None,
        };
        assert(r@.nego_tokens =~= seq![t]);
        r
    }

    /// Serialize to DER.
    pub fn to_der(&self) -> (r: Vec<u8>)
        ensures
            r@ == spec_ts_to_der(self@),
    {
        let mut body: Vec<u8> = Vec::new();
        let v = integer_element(0, self.version);
        push_all(&mut body, v.as_slice());
        if self.nego_tokens.len() > 0 {
            let mut items: Vec<u8> = Vec::new();
            let mut i: usize = 0;
            while i < self.nego_tokens.len()
                invariant
                    i <= self.nego_tokens@.len(),
                    items@ == token_items(tokens_view(self.nego_tokens@).take(i as int)),
                decreases self.nego_tokens@.len() - i,
            {
                let o = octet_string(self.nego_tokens[i].as_slice());
                let c = context(0, o.as_slice());
                let q = sequence(c.as_slice());
                push_all(&mut items, q.as_slice());
                proof {
                    let tv = tokens_view(self.nego_tokens@);
                    assert(tv.take(i as int + 1).drop_last() =~= tv.take(i as int));
                }
                i = i + 1;
            }
            assert(tokens_view(self.nego_tokens@).take(i as int) =~= tokens_view(self.nego_tokens@));
            let sq = sequence(items.as_slice());
            let c1 = context(1, sq.as_slice());
            push_all(&mut body, c1.as_slice());
        }
        if let Some(auth) = &self.auth_info {
            let f = octets_element(2, auth.as_slice());
            push_all(&mut body, f.as_slice());
        }
        if let Some(pk) = &self.pub_key_auth {
            let f = octets_element(3, pk.as_slice());
            push_all(&mut body, f.as_slice());
        }
        if let Some(code) = self.error_code {
            let f = integer_element(4, code);
            push_all(&mut body, f.as_slice());
        }
        if let Some(nonce) = &self.client_nonce {
            let f = octets_element(5, nonce.as_slice());
            push_all(&mut body, f.as_slice());
        }
        assert(body@ =~= spec_ts_body(self@));
        sequence(body.as_slice())
    }

    /// Parse from DER. Unknown fields are skipped; a client nonce of another
    /// length than 32 bytes is ignored.
    pub fn from_der(input: &[u8]) -> (r: Result<Self, Asn1Error>)
        ensures
            match spec_ts_from_der(input@) {
                Ok(m) => r matches Ok(q) && q@ == m,
                Err(e) => r is Err && r == Err::<Self, Asn1Error>(e),
            },
    {
        let mut cur = input;
        let body = match expect(&mut cur, TAG_SEQUENCE) {
            Ok(b) => b,
            Err(e) => return Err(e),
        };
        let mut fields = body;
        let mut req = TsRequest {
            version: 0,
            nego_tokens: Vec::new(),
            auth_info: None,
            pub_key_auth: None,
            error_code: None,
            client_nonce: None,
        };
        assert(req@.nego_tokens =~= Seq::<Seq<u8>>::empty());
        let ghost goal = spec_fields(body@, empty_model());
        assert(goal == spec_ts_from_der(input@));
        while fields.len() > 0
            invariant
                goal == spec_ts_from_der(input@),
                goal == spec_fields(fields@, req@),
            decreases fields@.len(),
        {
            let ghost f = fields@;
            proof {
                lemma_read_element_consumes(f);
            }
            let (tag, value) = match read_element(&mut fields) {
                Ok(x) => x,
                Err(e) => return Err(e),
            };
            match read_field(tag, value, &mut req) {
                Ok(()) => {},
                Err(e) => return Err(e),
            }
        }
        Ok(req)
    }
}

proof fn lemma_tlv_len(tag: u8, v: Seq<u8>)
    ensures
        spec_tlv(tag, v).len() >= v.len() + 2,
{
}

/// A TLV followed by anything reads back as its tag and value, and what is
/// left after it is what followed.
proof fn lemma_read_tlv(tag: u8, v: Seq<u8>, rest: Seq<u8>)
    requires
        v.len() <= usize::MAX,
    ensures
        spec_read_element(spec_tlv(tag, v) + rest) == Ok::<(u8, Seq<u8>, nat), Asn1Error>((tag, v, spec_tlv(tag, v).len())),
        spec_expect(spec_tlv(tag, v) + rest, tag) == Ok::<(Seq<u8>, nat), Asn1Error>((v, spec_tlv(tag, v).len())),
        (spec_tlv(tag, v) + rest).skip(spec_tlv(tag, v).len() as int) == rest,
{
    lemma_tlv_roundtrip(tag, v, rest);
    assert((spec_tlv(tag, v) + rest).skip(spec_tlv(tag, v).len() as int) =~= rest);
}

/// A whole TLV read with its own tag gives its value.
proof fn lemma_expect_whole(tag: u8, v: Seq<u8>)
    requires
        v.len() <= usize::MAX,
    ensures
        spec_expect(spec_tlv(tag, v), tag) == Ok::<(Seq<u8>, nat), Asn1Error>((v, spec_tlv(tag, v).len())),
{
    lemma_read_tlv(tag, v, Seq::empty());
    assert(spec_tlv(tag, v) + Seq::<u8>::empty() =~= spec_tlv(tag, v));
}

proof fn lemma_token_items_front(ts: Seq<Seq<u8>>)
    requires
        ts.len() > 0,
    ensures
        token_items(ts) == token_item(ts[0]) + token_items(ts.skip(1)),
    decreases ts.len(),
{
    if ts.len() == 1 {
        assert(ts.drop_last() =~= Seq::<Seq<u8>>::empty());
        assert(ts.skip(1) =~= Seq::<Seq<u8>>::empty());
        assert(token_items(ts) =~= token_item(ts[0]) + token_items(ts.skip(1)));
    } else {
        let d = ts.drop_last();
        lemma_token_items_front(d);
        assert(ts.skip(1).drop_last() =~= d.skip(1));
        assert(token_items(ts) =~= token_item(ts[0]) + token_items(ts.skip(1)));
    }
}

proof fn lemma_token_items_len(ts: Seq<Seq<u8>>, i: int)
    requires
        0 <= i < ts.len(),
    ensures
        token_items(ts).len() >= ts[i].len(),
    decreases ts.len(),
{
    if i < ts.len() - 1 {
        lemma_token_items_len(ts.drop_last(), i);
    } else {
        lemma_tlv_len(TAG_OCTET_STRING, ts[i]);
        lemma_tlv_len(spec_context_tag(0), spec_tlv(TAG_OCTET_STRING, ts[i]));
    }
}

/// One `NegoData` item read from the front of the items.
proof fn lemma_tokens_step(t0: Seq<u8>, rest: Seq<u8>, acc: Seq<Seq<u8>>)
    requires
        token_item(t0).len() <= usize::MAX,
    ensures
        spec_tokens(token_item(t0) + rest, acc) == spec_tokens(rest, acc.push(t0)),
{
    let oct = spec_tlv(TAG_OCTET_STRING, t0);
    let ctx = spec_tlv(spec_context_tag(0), oct);
    lemma_tlv_len(TAG_SEQUENCE, ctx);
    lemma_tlv_len(spec_context_tag(0), oct);
    lemma_tlv_len(TAG_OCTET_STRING, t0);
    lemma_read_tlv(TAG_SEQUENCE, ctx, rest);
    lemma_expect_whole(spec_context_tag(0), oct);
    lemma_expect_whole(TAG_OCTET_STRING, t0);
}

/// The `NegoData` items of `ts` read back as `ts`.
#[verifier::spinoff_prover]
#[verifier::rlimit(40)]
proof fn lemma_tokens_roundtrip(ts: Seq<Seq<u8>>, acc: Seq<Seq<u8>>)
    requires
        token_items(ts).len() <= usize::MAX,
    ensures
        spec_tokens(token_items(ts), acc) == Ok::<Seq<Seq<u8>>, Asn1Error>(acc + ts),
    decreases ts.len(),
{
    if ts.len() == 0 {
        assert(acc + ts =~= acc);
    } else {
        lemma_token_items_front(ts);
        lemma_tokens_step(ts[0], token_items(ts.skip(1)), acc);
        lemma_tokens_roundtrip(ts.skip(1), acc.push(ts[0]));
        assert(acc.push(ts[0]) + ts.skip(1) =~= acc + ts);
    }
}

/// Reading a field TLV followed by more fields: the field, then the rest.
proof fn lemma_fields_step(tag: u8, v: Seq<u8>, rest: Seq<u8>, acc: TsRequestModel, a2: TsRequestModel)
    requires
        v.len() <= usize::MAX,
        spec_field(tag, v, acc) == Ok::<TsRequestModel, Asn1Error>(a2),
    ensures
        spec_fields(spec_tlv(tag, v) + rest, acc) == spec_fields(rest, a2),
{
    lemma_read_tlv(tag, v, rest);
    lemma_tlv_len(tag, v);
}

proof fn lemma_field_version(v: u32, acc: TsRequestModel)
    ensures
        spec_field(spec_context_tag(0), spec_tlv(TAG_INTEGER, spec_integer_value(v)), acc)
            == Ok::<TsRequestModel, Asn1Error>(TsRequestModel { version: v, ..acc }),
{
    lemma_integer_roundtrip(v);
    lemma_expect_whole(TAG_INTEGER, spec_integer_value(v));
}

proof fn lemma_field_error(v: u32, acc: TsRequestModel)
    ensures
        spec_field(spec_context_tag(4), spec_tlv(TAG_INTEGER, spec_integer_value(v)), acc)
            == Ok::<TsRequestModel, Asn1Error>(TsRequestModel { error_code: Some(v), ..acc }),
{
    lemma_integer_roundtrip(v);
    lemma_expect_whole(TAG_INTEGER, spec_integer_value(v));
}

proof fn lemma_field_tokens(ts: Seq<Seq<u8>>, acc: TsRequestModel)
    requires
        spec_tlv(TAG_SEQUENCE, token_items(ts)).len() <= usize::MAX,
    ensures
        spec_field(spec_context_tag(1), spec_tlv(TAG_SEQUENCE, token_items(ts)), acc)
            == Ok::<TsRequestModel, Asn1Error>(TsRequestModel { nego_tokens: acc.nego_tokens + ts, ..acc }),
{
    lemma_tlv_len(TAG_SEQUENCE, token_items(ts));
    lemma_expect_whole(TAG_SEQUENCE, token_items(ts));
    lemma_tokens_roundtrip(ts, acc.nego_tokens);
}

proof fn lemma_field_octets(k: u8, b: Seq<u8>, acc: TsRequestModel)
    requires
        k == 2 || k == 3 || (k == 5 && b.len() == 32),
        b.len() <= usize::MAX,
    ensures
        spec_field(spec_context_tag(k), spec_tlv(TAG_OCTET_STRING, b), acc) == Ok::<TsRequestModel, Asn1Error>(
            if k == 2 {
                TsRequestModel { auth_info: Some(b), ..acc }
            } else if k == 3 {
                TsRequestModel { pub_key_auth: Some(b), ..acc }
            } else {
                TsRequestModel { client_nonce: Some(b), ..acc }
            },
        ),
{
    lemma_expect_whole(TAG_OCTET_STRING, b);
}

/// An optional `[k] OCTET STRING` field followed by more fields.
proof fn lemma_octets_field_step(k: u8, o: Option<Seq<u8>>, rest: Seq<u8>, acc: TsRequestModel)
    requires
        k == 2 || k == 3 || k == 5,
        k == 5 ==> (o matches Some(b) ==> b.len() == 32),
        octets_field(k, o).len() <= usize::MAX,
        k == 2 ==> acc.auth_info is None,
        k == 3 ==> acc.pub_key_auth is None,
        k == 5 ==> acc.client_nonce is None,
    ensures
        spec_fields(octets_field(k, o) + rest, acc) == spec_fields(
            rest,
            if k == 2 {
                TsRequestModel { auth_info: o, ..acc }
            } else if k == 3 {
                TsRequestModel { pub_key_auth: o, ..acc }
            } else {
                TsRequestModel { client_nonce: o, ..acc }
            },
        ),
{
    if let Some(b) = o {
        lemma_tlv_len(spec_context_tag(k), spec_tlv(TAG_OCTET_STRING, b));
        lemma_tlv_len(TAG_OCTET_STRING, b);
        lemma_field_octets(k, b, acc);
        let a2 = if k == 2 {
            TsRequestModel { auth_info: o, ..acc }
        } else if k == 3 {
            TsRequestModel { pub_key_auth: o, ..acc }
        } else {
            TsRequestModel { client_nonce: o, ..acc }
        };
        lemma_fields_step(spec_context_tag(k), spec_tlv(TAG_OCTET_STRING, b), rest, acc, a2);
    } else {
        assert(octets_field(k, o) + rest =~= rest);
    }
}

/// The optional error-code field followed by more fields.
proof fn lemma_error_field_step(c: Option<u32>, rest: Seq<u8>, acc: TsRequestModel)
    requires
        acc.error_code is None,
    ensures
        spec_fields(
            (match c {
                Some(v) => spec_tlv(spec_context_tag(4), spec_tlv(TAG_INTEGER, spec_integer_value(v))),
                None => Seq::empty(),
            }) + rest,
            acc,
        ) == spec_fields(rest, TsRequestModel { error_code: c, ..acc }),
{
    if let Some(v) = c {
        let cv = spec_integer_value(v);
        lemma_integer_roundtrip(v);
        lemma_field_error(v, acc);
        lemma_fields_step(spec_context_tag(4), spec_tlv(TAG_INTEGER, cv), rest, acc, TsRequestModel { error_code: c, ..acc });
    } else {
        assert(Seq::<u8>::empty() + rest =~= rest);
    }
}

/// The token field (present when there are tokens) followed by more fields.
proof fn lemma_tokens_field_step(ts: Seq<Seq<u8>>, rest: Seq<u8>, acc: TsRequestModel)
    requires
        acc.nego_tokens.len() == 0,
        spec_tlv(spec_context_tag(1), spec_tlv(TAG_SEQUENCE, token_items(ts))).len() <= usize::MAX,
    ensures
        spec_fields(
            (if ts.len() > 0 {
                spec_tlv(spec_context_tag(1), spec_tlv(TAG_SEQUENCE, token_items(ts)))
            } else {
                Seq::empty()
            }) + rest,
            acc,
        ) == spec_fields(rest, TsRequestModel { nego_tokens: ts, ..acc }),
{
    if ts.len() > 0 {
        let items = token_items(ts);
        lemma_tlv_len(spec_context_tag(1), spec_tlv(TAG_SEQUENCE, items));
        lemma_field_tokens(ts, acc);
        assert(acc.nego_tokens + ts =~= ts);
        lemma_fields_step(spec_context_tag(1), spec_tlv(TAG_SEQUENCE, items), rest, acc, TsRequestModel { nego_tokens: ts, ..acc });
    } else {
        assert(Seq::<u8>::empty() + rest =~= rest);
        assert(ts =~= acc.nego_tokens);
    }
}

/// The fields after the version parse back.
proof fn lemma_ts_tail(m: TsRequestModel, a1: TsRequestModel)
    requires
        a1 == (TsRequestModel { version: m.version, ..empty_model() }),
        spec_ts_to_der(m).len() <= usize::MAX,
        m.client_nonce matches Some(n) ==> n.len() == 32,
    ensures
        spec_fields(
            (if m.nego_tokens.len() > 0 {
                spec_tlv(spec_context_tag(1), spec_tlv(TAG_SEQUENCE, token_items(m.nego_tokens)))
            } else {
                Seq::empty()
            }) + (octets_field(2, m.auth_info) + (octets_field(3, m.pub_key_auth) + ((match m.error_code {
                Some(c) => spec_tlv(spec_context_tag(4), spec_tlv(TAG_INTEGER, spec_integer_value(c))),
                None => Seq::empty(),
            }) + octets_field(5, m.client_nonce)))),
            a1,
        ) == Ok::<TsRequestModel, Asn1Error>(m),
{
    let body = spec_ts_body(m);
    let items = token_items(m.nego_tokens);
    let c1 = if m.nego_tokens.len() > 0 {
        spec_tlv(spec_context_tag(1), spec_tlv(TAG_SEQUENCE, items))
    } else {
        Seq::empty()
    };
    let c2 = octets_field(2, m.auth_info);
    let c3 = octets_field(3, m.pub_key_auth);
    let c4 = match m.error_code {
        Some(c) => spec_tlv(spec_context_tag(4), spec_tlv(TAG_INTEGER, spec_integer_value(c))),
        None => Seq::empty(),
    };
    let c5 = octets_field(5, m.client_nonce);
    lemma_tlv_len(TAG_SEQUENCE, body);
    assert(body.len() >= c1.len() + c2.len() + c3.len() + c4.len() + c5.len());
    if m.nego_tokens.len() > 0 {
        assert(spec_tlv(spec_context_tag(1), spec_tlv(TAG_SEQUENCE, items)).len() <= usize::MAX);
    } else {
        assert(items =~= Seq::<u8>::empty());
    }
    lemma_tokens_field_step(m.nego_tokens, c2 + (c3 + (c4 + c5)), a1);
    let a2 = TsRequestModel { nego_tokens: m.nego_tokens, ..a1 };
    lemma_octets_field_step(2, m.auth_info, c3 + (c4 + c5), a2);
    let a3 = TsRequestModel { auth_info: m.auth_info, ..a2 };
    lemma_octets_field_step(3, m.pub_key_auth, c4 + c5, a3);
    let a4 = TsRequestModel { pub_key_auth: m.pub_key_auth, ..a3 };
    lemma_error_field_step(m.error_code, c5, a4);
    let a5 = TsRequestModel { error_code: m.error_code, ..a4 };
    lemma_octets_field_step(5, m.client_nonce, Seq::empty(), a5);
    assert(c5 + Seq::<u8>::empty() =~= c5);
    let a6 = TsRequestModel { client_nonce: m.client_nonce, ..a5 };
    assert(a6 == m);
}

/// A request's DER parses back to the same request (given the encoding fits
/// in memory and a client nonce has its 32 bytes).
#[verifier::spinoff_prover]
#[verifier::rlimit(80)]
pub proof fn lemma_ts_request_roundtrip(m: TsRequestModel)
    requires
        spec_ts_to_der(m).len() <= usize::MAX,
        m.client_nonce matches Some(n) ==> n.len() == 32,
    ensures
        spec_ts_from_der(spec_ts_to_der(m)) == Ok::<TsRequestModel, Asn1Error>(m),
{
    let body = spec_ts_body(m);
    lemma_tlv_len(TAG_SEQUENCE, body);
    lemma_expect_whole(TAG_SEQUENCE, body);
    let iv = spec_integer_value(m.version);
    let c0 = spec_tlv(spec_context_tag(0), spec_tlv(TAG_INTEGER, iv));
    let c1 = if m.nego_tokens.len() > 0 {
        spec_tlv(spec_context_tag(1), spec_tlv(TAG_SEQUENCE, token_items(m.nego_tokens)))
    } else {
        Seq::empty()
    };
    let tail = c1 + (octets_field(2, m.auth_info) + (octets_field(3, m.pub_key_auth) + ((match m.error_code {
        Some(c) => spec_tlv(spec_context_tag(4), spec_tlv(TAG_INTEGER, spec_integer_value(c))),
        None => Seq::empty(),
    }) + octets_field(5, m.client_nonce))));
    assert(body =~= c0 + tail);
    let a1 = TsRequestModel { version: m.version, ..empty_model() };
    lemma_tlv_len(spec_context_tag(0), spec_tlv(TAG_INTEGER, iv));
    lemma_field_version(m.version, empty_model());
    lemma_fields_step(spec_context_tag(0), spec_tlv(TAG_INTEGER, iv), tail, empty_model(), a1);
    lemma_ts_tail(m, a1);
}

/// UTF-16LE bytes of a string.
pub open spec fn spec_utf16le(s: Seq<char>) -> Seq<u8> {
    units_le(utf16_encode(s))
}

/// The DER of a `TSCredentials` carrying `TSPasswordCreds` (credType 1):
/// `SEQUENCE { [0] INTEGER 1, [1] OCTET STRING { SEQUENCE { [0] domain,
/// [1] user, [2] password } } }`, each name as a UTF-16LE OCTET STRING.
pub open spec fn spec_password_credentials(domain: Seq<char>, username: Seq<char>, password: Seq<char>) -> Seq<u8> {
    let ts_password = spec_tlv(
        TAG_SEQUENCE,
        spec_tlv(spec_context_tag(0), spec_tlv(TAG_OCTET_STRING, spec_utf16le(domain))) + spec_tlv(
            spec_context_tag(1),
            spec_tlv(TAG_OCTET_STRING, spec_utf16le(username)),
        ) + spec_tlv(spec_context_tag(2), spec_tlv(TAG_OCTET_STRING, spec_utf16le(password))),
    );
    spec_tlv(
        TAG_SEQUENCE,
        spec_tlv(spec_context_tag(0), spec_tlv(TAG_INTEGER, spec_integer_value(1)))
            + spec_tlv(spec_context_tag(1), spec_tlv(TAG_OCTET_STRING, ts_password)),
    )
}

/// UTF-16LE bytes of `s`.
fn utf16le(s: &str) -> (r: Vec<u8>)
    ensures
        r@ == spec_utf16le(s@),
{
    let units = encode_utf16(s);
    let mut v: Vec<u8> = Vec::new();
    push_units_le(&mut v, units.as_slice());
    assert(v@ =~= spec_utf16le(s@));
    v
}

/// Build the DER of a `TSCredentials` carrying `TSPasswordCreds`: the
/// plaintext the caller encrypts and places in `TSRequest.authInfo`.
pub fn password_credentials_der(domain: &str, username: &str, password: &str) -> (r: Vec<u8>)
    ensures
        r@ == spec_password_credentials(domain@, username@, password@),
{
    let d = utf16le(domain);
    let u = utf16le(username);
    let p = utf16le(password);
    let mut inner: Vec<u8> = Vec::new();
    let f0 = octets_element(0, d.as_slice());
    let f1 = octets_element(1, u.as_slice());
    let f2 = octets_element(2, p.as_slice());
    push_all(&mut inner, f0.as_slice());
    push_all(&mut inner, f1.as_slice());
    push_all(&mut inner, f2.as_slice());
    let ts_password = sequence(inner.as_slice());
    let mut outer: Vec<u8> = Vec::new();
    let t = integer_element(0, 1);
    let c = octets_element(1, ts_password.as_slice());
    push_all(&mut outer, t.as_slice());
    push_all(&mut outer, c.as_slice());
    sequence(outer.as_slice())
}

} // verus!
