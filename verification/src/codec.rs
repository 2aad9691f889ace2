//! The frame codec: every wire frame is a JSON envelope `{"type", "data"}`,
//! serialized compactly and compressed with raw deflate. Inbound frames are
//! decompressed and parsed back; malformed input is reported, never dropped
//! silently here (the session layer decides to ignore it).
use vstd::prelude::*;

use crate::json::{
    ser, sp_json, wf, wf_pairs, Json, Jv, lemma_json_round_trip, lemma_jv_pairs,
    lemma_jv_pairs_push, json_to_bytes, parse_json,
};

verus! {

/// What deflate compression at the default level produces for given bytes.
pub uninterp spec fn deflate_of(data: Seq<u8>) -> Seq<u8>;

/// Relies on flate2's `DeflateEncoder`: compresses bytes with raw deflate at
/// the default level; the result depends on the input bytes alone. Writing
/// into a `Vec` cannot fail.
#[verifier::external_body]
fn deflate_bytes(data: &[u8]) -> (r: Vec<u8>)
    ensures
        r@ == deflate_of(data@),
{
    let mut encoder = flate2::write::DeflateEncoder::new(
        Vec::new(),
        flate2::Compression::default(),
    );
    std::io::Write::write_all(&mut encoder, data).unwrap();
    encoder.finish().unwrap()
}

/// Relies on flate2's `DeflateDecoder`: raw deflate is lossless, so decoding
/// what the encoder produced returns the original bytes; on other inputs the
/// decoder may fail, and nothing more is assumed of it.
#[verifier::external_body]
fn inflate_bytes(data: &[u8]) -> (r: Option<Vec<u8>>)
    ensures
        match r {
            Some(out) => forall|x: Seq<u8>| data@ == deflate_of(x) ==> out@ == x,
            None => forall|x: Seq<u8>| data@ != deflate_of(x),
        },
{
    let mut decoder = flate2::write::DeflateDecoder::new(Vec::new());
    if std::io::Write::write_all(&mut decoder, data).is_err() {
        return None;
    }
    decoder.finish().ok()
}

// ------------------------------------------------------------------
// The frame envelope
// ------------------------------------------------------------------
/// The bytes of the envelope key `"type"`.
pub open spec fn key_type() -> Seq<u8> {
    seq![0x74u8, 0x79u8, 0x70u8, 0x65u8]
}

/// The bytes of the envelope key `"data"`.
pub open spec fn key_data() -> Seq<u8> {
    seq![0x64u8, 0x61u8, 0x74u8, 0x61u8]
}

/// The envelope `{"type": kind, "data": data}` as a document model.
pub open spec fn envelope_jv(kind: Seq<u8>, data: Jv) -> Jv {
    Jv::Obj(seq![(key_type(), Jv::Str(kind)), (key_data(), data)])
}

/// The first value stored under `key`, if any.
pub open spec fn find_key(pairs: Seq<(Seq<u8>, Jv)>, key: Seq<u8>) -> Option<Jv>
    decreases pairs.len(),
{
    if pairs.len() == 0 {
        None
    } else if pairs[0].0 == key {
        Some(pairs[0].1)
    } else {
        find_key(pairs.drop_first(), key)
    }
}

/// The kind and data of a document that is a well-shaped envelope.
pub open spec fn frame_of(v: Jv) -> Option<(Seq<u8>, Jv)> {
    match v {
        Jv::Obj(pairs) => match (find_key(pairs, key_type()), find_key(pairs, key_data())) {
            (Some(Jv::Str(kind)), Some(data)) => Some((kind, data)),
            _ => None,
        },
        _ => None,
    }
}

/// One parsed inbound frame.
pub struct InEvent {
    pub kind: Vec<u8>,
    pub data: Json,
}

/// Why an inbound frame was rejected: the bytes did not decompress, or they
/// decompressed to something that is not a well-shaped envelope.
pub enum FrameError {
    Malformed,
    InvalidPayload,
}

/// The bytes of the envelope key `"type"`.
fn key_type_bytes() -> (r: Vec<u8>)
    ensures
        r@ == key_type(),
{
    let mut k: Vec<u8> = Vec::new();
    k.push(0x74);
    k.push(0x79);
    k.push(0x70);
    k.push(0x65);
    proof {
        assert(k@ =~= key_type());
    }
    k
}

/// The bytes of the envelope key `"data"`.
fn key_data_bytes() -> (r: Vec<u8>)
    ensures
        r@ == key_data(),
{
    let mut k: Vec<u8> = Vec::new();
    k.push(0x64);
    k.push(0x61);
    k.push(0x74);
    k.push(0x61);
    proof {
        assert(k@ =~= key_data());
    }
    k
}

/// Whether two byte strings hold the same bytes.
pub fn bytes_eq(a: &[u8], b: &[u8]) -> (r: bool)
    ensures
        r == (a@ == b@),
{
    if a.len() != b.len() {
        proof {
            assert(a@.len() != b@.len());
        }
        return false;
    }
    let n = a.len();
    let mut i: usize = 0;
    while i < n
        invariant
            n == a@.len() && n == b@.len(),
            i <= n,
            forall|k: int| 0 <= k < i ==> a@[k] == b@[k],
        decreases n - i,
    {
        if a[i] != b[i] {
            return false;
        }
        i = i + 1;
    }
    proof {
        assert(a@ =~= b@);
    }
    true
}

/// Appending a pair extends a key search from the back: the first occurrence
/// in the longer list is the one in the prefix, or else the new pair.
pub proof fn lemma_find_key_push(pairs: Seq<(Seq<u8>, Jv)>, p: (Seq<u8>, Jv), key: Seq<u8>)
    ensures
        find_key(pairs.push(p), key) == if find_key(pairs, key) is Some {
            find_key(pairs, key)
        } else if p.0 == key {
            Some(p.1)
        } else {
            None
        },
    decreases pairs.len(),
{
    if pairs.len() == 0 {
        assert(pairs.push(p).len() == 1);
        assert(pairs.push(p)[0] == p);
        assert(pairs.push(p).drop_first() =~= Seq::<(Seq<u8>, Jv)>::empty());
        assert(find_key(pairs.push(p).drop_first(), key) is None);
        assert(find_key(pairs, key) is None);
    } else {
        assert(pairs.push(p)[0] == pairs[0]);
        assert(pairs.push(p).drop_first() =~= pairs.drop_first().push(p));
        lemma_find_key_push(pairs.drop_first(), p, key);
        if pairs[0].0 == key {
            assert(find_key(pairs.push(p), key) == Some(pairs[0].1));
            assert(find_key(pairs, key) == Some(pairs[0].1));
        } else {
            assert(find_key(pairs.push(p), key) == find_key(pairs.drop_first().push(p), key));
            assert(find_key(pairs, key) == find_key(pairs.drop_first(), key));
        }
    }
}

/// Takes the first values stored under two keys out of an object, consuming
/// it.
#[verifier::loop_isolation(false)]
pub fn take_two(pairs: Vec<(Vec<u8>, Json)>, key_a: &Vec<u8>, key_b: &Vec<u8>) -> (r: (
    Option<Json>,
    Option<Json>,
))
    requires
        key_a@ != key_b@,
    ensures
        match r.0 {
            Some(v) => find_key(Json::jv_pairs(pairs@), key_a@) == Some(v.jv()),
            None => find_key(Json::jv_pairs(pairs@), key_a@) is None,
        },
        match r.1 {
            Some(v) => find_key(Json::jv_pairs(pairs@), key_b@) == Some(v.jv()),
            None => find_key(Json::jv_pairs(pairs@), key_b@) is None,
        },
{
    let ghost full = Json::jv_pairs(pairs@);
    let mut rem = pairs;
    let mut found_a: Option<Json> = None;
    let mut found_b: Option<Json> = None;
    proof {
        lemma_jv_pairs(rem@);
    }
    loop
        invariant
            find_key(full, key_a@) == (if find_key(Json::jv_pairs(rem@), key_a@) is Some {
                find_key(Json::jv_pairs(rem@), key_a@)
            } else {
                match found_a {
                    Some(v) => Some(v.jv()),
                    None => None,
                }
            }),
            find_key(full, key_b@) == (if find_key(Json::jv_pairs(rem@), key_b@) is Some {
                find_key(Json::jv_pairs(rem@), key_b@)
            } else {
                match found_b {
                    Some(v) => Some(v.jv()),
                    None => None,
                }
            }),
        decreases rem@.len(),
    {
        let prev = Ghost(rem@);
        match rem.pop() {
            None => {
                proof {
                    assert(rem@.len() == 0);
                    assert(Json::jv_pairs(rem@) =~= Seq::<(Seq<u8>, Jv)>::empty());
                }
                return (found_a, found_b);
            },
            Some((k, v)) => {
                proof {
                    assert(prev@ =~= rem@.push((k, v)));
                    lemma_jv_pairs_push(rem@, k, v);
                    lemma_find_key_push(Json::jv_pairs(rem@), (k@, v.jv()), key_a@);
                    lemma_find_key_push(Json::jv_pairs(rem@), (k@, v.jv()), key_b@);
                }
                let hit_a = bytes_eq(k.as_slice(), key_a.as_slice());
                let hit_b = bytes_eq(k.as_slice(), key_b.as_slice());
                if hit_a {
                    found_a = Some(v);
                } else if hit_b {
                    found_b = Some(v);
                }
            },
        }
    }
}


/// Takes the first value stored under one key out of an object, consuming it.
#[verifier::loop_isolation(false)]
pub fn take_one(pairs: Vec<(Vec<u8>, Json)>, key: &Vec<u8>) -> (r: Option<Json>)
    ensures
        match r {
            Some(v) => find_key(Json::jv_pairs(pairs@), key@) == Some(v.jv()),
            None => find_key(Json::jv_pairs(pairs@), key@) is None,
        },
{
    let ghost full = Json::jv_pairs(pairs@);
    let mut rem = pairs;
    let mut found: Option<Json> = None;
    loop
        invariant
            find_key(full, key@) == (if find_key(Json::jv_pairs(rem@), key@) is Some {
                find_key(Json::jv_pairs(rem@), key@)
            } else {
                match found {
                    Some(v) => Some(v.jv()),
                    None => None,
                }
            }),
        decreases rem@.len(),
    {
        let prev = Ghost(rem@);
        match rem.pop() {
            None => {
                proof {
                    assert(Json::jv_pairs(rem@) =~= Seq::<(Seq<u8>, Jv)>::empty());
                }
                return found;
            },
            Some((k, v)) => {
                proof {
                    assert(prev@ =~= rem@.push((k, v)));
                    lemma_jv_pairs_push(rem@, k, v);
                    lemma_find_key_push(Json::jv_pairs(rem@), (k@, v.jv()), key@);
                }
                if bytes_eq(k.as_slice(), key.as_slice()) {
                    found = Some(v);
                }
            },
        }
    }
}

/// Takes the first values stored under three distinct keys out of an
/// object, consuming it.
#[verifier::loop_isolation(false)]
pub fn take_three(pairs: Vec<(Vec<u8>, Json)>, key_a: &Vec<u8>, key_b: &Vec<u8>, key_c: &Vec<u8>)
    -> (r: (Option<Json>, Option<Json>, Option<Json>))
    requires
        key_a@ != key_b@,
        key_a@ != key_c@,
        key_b@ != key_c@,
    ensures
        match r.0 {
            Some(v) => find_key(Json::jv_pairs(pairs@), key_a@) == Some(v.jv()),
            None => find_key(Json::jv_pairs(pairs@), key_a@) is None,
        },
        match r.1 {
            Some(v) => find_key(Json::jv_pairs(pairs@), key_b@) == Some(v.jv()),
            None => find_key(Json::jv_pairs(pairs@), key_b@) is None,
        },
        match r.2 {
            Some(v) => find_key(Json::jv_pairs(pairs@), key_c@) == Some(v.jv()),
            None => find_key(Json::jv_pairs(pairs@), key_c@) is None,
        },
{
    let ghost full = Json::jv_pairs(pairs@);
    let mut rem = pairs;
    let mut found_a: Option<Json> = None;
    let mut found_b: Option<Json> = None;
    let mut found_c: Option<Json> = None;
    loop
        invariant
            find_key(full, key_a@) == (if find_key(Json::jv_pairs(rem@), key_a@) is Some {
                find_key(Json::jv_pairs(rem@), key_a@)
            } else {
                match found_a {
                    Some(v) => Some(v.jv()),
                    None => None,
                }
            }),
            find_key(full, key_b@) == (if find_key(Json::jv_pairs(rem@), key_b@) is Some {
                find_key(Json::jv_pairs(rem@), key_b@)
            } else {
                match found_b {
                    Some(v) => Some(v.jv()),
                    None => None,
                }
            }),
            find_key(full, key_c@) == (if find_key(Json::jv_pairs(rem@), key_c@) is Some {
                find_key(Json::jv_pairs(rem@), key_c@)
            } else {
                match found_c {
                    Some(v) => Some(v.jv()),
                    None => None,
                }
            }),
        decreases rem@.len(),
    {
        let prev = Ghost(rem@);
        match rem.pop() {
            None => {
                proof {
                    assert(Json::jv_pairs(rem@) =~= Seq::<(Seq<u8>, Jv)>::empty());
                }
                return (found_a, found_b, found_c);
            },
            Some((k, v)) => {
                proof {
                    assert(prev@ =~= rem@.push((k, v)));
                    lemma_jv_pairs_push(rem@, k, v);
                    lemma_find_key_push(Json::jv_pairs(rem@), (k@, v.jv()), key_a@);
                    lemma_find_key_push(Json::jv_pairs(rem@), (k@, v.jv()), key_b@);
                    lemma_find_key_push(Json::jv_pairs(rem@), (k@, v.jv()), key_c@);
                }
                let hit_a = bytes_eq(k.as_slice(), key_a.as_slice());
                let hit_b = bytes_eq(k.as_slice(), key_b.as_slice());
                let hit_c = bytes_eq(k.as_slice(), key_c.as_slice());
                if hit_a {
                    found_a = Some(v);
                } else if hit_b {
                    found_b = Some(v);
                } else if hit_c {
                    found_c = Some(v);
                }
            },
        }
    }
}

// ------------------------------------------------------------------
// Compression and decompression of whole frames
// ------------------------------------------------------------------
/// Builds the serialized envelope `{"type": kind, "data": data}`.
pub fn payload(kind: Vec<u8>, data: Json) -> (r: Vec<u8>)
    ensures
        r@ == ser(envelope_jv(kind@, data.jv())),
{
    let ghost gkind = kind@;
    let ghost gdata = data.jv();
    let mut obj: Vec<(Vec<u8>, Json)> = Vec::new();
    obj.push((key_type_bytes(), Json::Str(kind)));
    obj.push((key_data_bytes(), data));
    let doc = Json::Obj(obj);
    proof {
        lemma_jv_pairs(doc->Obj_0@);
        assert(Json::jv_pairs(doc->Obj_0@) =~= seq![
            (key_type(), Jv::Str(gkind)),
            (key_data(), gdata),
        ]);
    }
    json_to_bytes(&doc)
}

/// Compresses one outbound frame.
pub fn compress_frame(kind: Vec<u8>, data: Json) -> (r: Vec<u8>)
    ensures
        r@ == deflate_of(ser(envelope_jv(kind@, data.jv()))),
{
    let text = payload(kind, data);
    deflate_bytes(text.as_slice())
}

/// Decompresses and parses one inbound frame. Whatever the decompressed
/// bytes are, the result classifies them exactly; bytes that decompress to
/// nothing well-shaped are `InvalidPayload`, bytes that do not decompress
/// are `Malformed`.
pub fn decompress(msg: &[u8]) -> (r: Result<InEvent, FrameError>)
    ensures
        forall|x: Seq<u8>| msg@ == deflate_of(x) ==> (match sp_json(x) {
            Some(v) => match frame_of(v) {
                Some((k, d)) => r matches Ok(ev) && ev.kind@ == k && ev.data.jv() == d,
                None => r == Err::<InEvent, FrameError>(FrameError::InvalidPayload),
            },
            None => r == Err::<InEvent, FrameError>(FrameError::InvalidPayload),
        }),
{
    let inflated = match inflate_bytes(msg) {
        Some(b) => b,
        None => {
            return Err(FrameError::Malformed);
        },
    };
    let parsed = match parse_json(inflated.as_slice()) {
        Some(v) => v,
        None => {
            return Err(FrameError::InvalidPayload);
        },
    };
    match parsed {
        Json::Obj(pairs) => {
            let kt = key_type_bytes();
            let kd = key_data_bytes();
            let (tv, dv) = take_two(pairs, &kt, &kd);
            match (tv, dv) {
                (Some(Json::Str(kind)), Some(data)) => Ok(InEvent { kind, data }),
                _ => Err(FrameError::InvalidPayload),
            }
        },
        _ => Err(FrameError::InvalidPayload),
    }
}

/// Round trip: the serialized envelope of any well-formed data parses back
/// to exactly the same kind and data, so a compressed frame always decodes
/// to what was framed.
pub proof fn lemma_frame_round_trip(kind: Seq<u8>, data: Jv)
    requires
        wf(data),
    ensures
        sp_json(ser(envelope_jv(kind, data))) == Some(envelope_jv(kind, data)),
        frame_of(envelope_jv(kind, data)) == Some((kind, data)),
{
    let env = envelope_jv(kind, data);
    let pairs = seq![(key_type(), Jv::Str(kind)), (key_data(), data)];
    assert(wf_pairs(pairs)) by {
        assert(pairs[0].1 == Jv::Str(kind));
        assert(pairs[1].1 == data);
        assert(forall|i: int| 0 <= i < 2 ==> wf(#[trigger] pairs[i].1));
    }
    assert(wf(env));
    lemma_json_round_trip(env);
    assert(pairs[0] == (key_type(), Jv::Str(kind)));
    assert(pairs[1] == (key_data(), data));
    assert(pairs.drop_first() =~= seq![(key_data(), data)]);
    assert(pairs.drop_first().drop_first() =~= Seq::<(Seq<u8>, Jv)>::empty());
    assert(find_key(pairs, key_type()) == Some(Jv::Str(kind)));
    assert(key_type()[0] == 0x74 && key_data()[0] == 0x64);
    assert(key_data() != key_type());
    let rest1 = pairs.drop_first();
    assert(rest1[0] == (key_data(), data));
    assert(find_key(pairs, key_data()) == find_key(rest1, key_data()));
    assert(find_key(rest1, key_data()) == Some(data));
}


// ------------------------------------------------------------------
// Zlib-wrapped documents (used by the login request body)
// ------------------------------------------------------------------
/// What zlib decompression yields for given bytes, if it succeeds.
pub uninterp spec fn zlib_plain_of(data: Seq<u8>) -> Option<Seq<u8>>;

/// Relies on flate2's `ZlibDecoder`: whether decompression succeeds, and
/// what it yields, depend on the input bytes alone.
#[verifier::external_body]
fn inflate_zlib(data: &[u8]) -> (r: Option<Vec<u8>>)
    ensures
        match r {
            Some(out) => zlib_plain_of(data@) == Some(out@),
            None => zlib_plain_of(data@) is None,
        },
{
    let mut decoder = flate2::write::ZlibDecoder::new(Vec::new());
    if std::io::Write::write_all(&mut decoder, data).is_err() {
        return None;
    }
    decoder.finish().ok()
}

/// Why a zlib-wrapped document was rejected.
pub enum DecodeError {
    Compression,
    Payload,
}

/// Decompresses a zlib-wrapped request body and parses the document in it.
pub fn decode_zlib_json(body: &[u8]) -> (r: Result<Json, DecodeError>)
    ensures
        match r {
            Ok(v) => zlib_plain_of(body@) matches Some(x) && sp_json(x) == Some(v.jv()) && wf(
                v.jv(),
            ),
            Err(DecodeError::Compression) => zlib_plain_of(body@) is None,
            Err(DecodeError::Payload) => zlib_plain_of(body@) matches Some(x) && sp_json(x)
                is None,
        },
{
    let plain = match inflate_zlib(body) {
        Some(b) => b,
        None => {
            return Err(DecodeError::Compression);
        },
    };
    match parse_json(plain.as_slice()) {
        Some(v) => Ok(v),
        None => Err(DecodeError::Payload),
    }
}

} // verus!
