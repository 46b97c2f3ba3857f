use vstd::prelude::*;

use crate::crypto::{hmac_sha256, hmac_sha256_of, signature_matches};
use crate::text::{
    hex_decode, parse_u64_bytes, spec_all_digits_bytes, spec_all_hex, spec_dec_val_bytes,
    spec_hex_decode,
};

verus! {

// ---------------------------------------------------------------------
// The signature header: comma-separated "key=value" items, among them a
// timestamp under "t" and one or more hex signatures under "v1". The
// verifier reads the first "t" item and the first "v1" item.
// ---------------------------------------------------------------------

/// `s` split at every `sep`: the separators vanish, empty pieces stay.
pub open spec fn spec_split(s: Seq<u8>, sep: u8) -> Seq<Seq<u8>>
    decreases s.len(),
{
    if s.len() == 0 {
        seq![Seq::<u8>::empty()]
    } else if s[0] == sep {
        seq![Seq::<u8>::empty()] + spec_split(s.drop_first(), sep)
    } else {
        let r = spec_split(s.drop_first(), sep);
        seq![seq![s[0]] + r[0]] + r.drop_first()
    }
}

/// A split has at least one piece.
pub proof fn lemma_split_nonempty(s: Seq<u8>, sep: u8)
    ensures
        spec_split(s, sep).len() >= 1,
    decreases s.len(),
{
    if s.len() > 0 && s[0] != sep {
        lemma_split_nonempty(s.drop_first(), sep);
    }
}

/// A string with no separator is one piece.
proof fn lemma_split_no_sep(s: Seq<u8>, sep: u8)
    requires
        forall|j: int| 0 <= j < s.len() ==> s[j] != sep,
    ensures
        spec_split(s, sep) == seq![s],
    decreases s.len(),
{
    if s.len() == 0 {
        assert(spec_split(s, sep) =~~= seq![s]);
    } else {
        assert(forall|j: int| 0 <= j < s.drop_first().len() ==> s.drop_first()[j] == s[j + 1]);
        lemma_split_no_sep(s.drop_first(), sep);
        let r = spec_split(s.drop_first(), sep);
        assert(r[0] == s.drop_first());
        assert(seq![s[0]] + r[0] =~= s);
        assert(r.drop_first() =~= Seq::<Seq<u8>>::empty());
        assert(spec_split(s, sep) =~= seq![s]);
    }
}

/// Splitting at the first separator: the part before it is the first
/// piece, and the rest splits on its own.
proof fn lemma_split_at_first(s: Seq<u8>, sep: u8, i: int)
    requires
        0 <= i < s.len(),
        s[i] == sep,
        forall|j: int| 0 <= j < i ==> s[j] != sep,
    ensures
        spec_split(s, sep) == seq![s.take(i)] + spec_split(s.subrange(i + 1, s.len() as int), sep),
    decreases i,
{
    if i == 0 {
        assert(s.take(0) =~= Seq::<u8>::empty());
        assert(s.subrange(1, s.len() as int) =~= s.drop_first());
        assert(spec_split(s, sep) =~= seq![s.take(0)] + spec_split(
            s.subrange(1, s.len() as int),
            sep,
        ));
    } else {
        let t = s.drop_first();
        assert(forall|j: int| 0 <= j < t.len() ==> t[j] == s[j + 1]);
        lemma_split_at_first(t, sep, i - 1);
        let r = spec_split(t, sep);
        assert(r == seq![t.take(i - 1)] + spec_split(t.subrange(i as int, t.len() as int), sep));
        lemma_split_nonempty(t.subrange(i as int, t.len() as int), sep);
        assert(r[0] == t.take(i - 1));
        assert(seq![s[0]] + r[0] =~= s.take(i));
        assert(r.drop_first() =~= spec_split(t.subrange(i as int, t.len() as int), sep));
        assert(t.subrange(i as int, t.len() as int) =~= s.subrange(i + 1, s.len() as int));
        assert(spec_split(s, sep) =~= seq![s.take(i)] + spec_split(
            s.subrange(i + 1, s.len() as int),
            sep,
        ));
    }
}

/// The value of the first piece that begins with `key`, with the key cut
/// off; `None` when no piece begins with `key`.
pub open spec fn spec_seg_value(seg: Seq<u8>, key: Seq<u8>) -> Option<Seq<u8>> {
    if seg.len() >= key.len() && seg.take(key.len() as int) == key {
        Some(seg.skip(key.len() as int))
    } else {
        None
    }
}

/// The first piece of `segs` that carries `key`, read through
/// `spec_seg_value`.
pub open spec fn spec_first_value(segs: Seq<Seq<u8>>, key: Seq<u8>) -> Option<Seq<u8>>
    decreases segs.len(),
{
    if segs.len() == 0 {
        None
    } else {
        match spec_seg_value(segs[0], key) {
            Some(v) => Some(v),
            None => spec_first_value(segs.drop_first(), key),
        }
    }
}

/// The ASCII bytes of "t=".
pub open spec fn spec_key_t() -> Seq<u8> {
    seq![0x74u8, 0x3du8]
}

/// The ASCII bytes of "v1=".
pub open spec fn spec_key_v1() -> Seq<u8> {
    seq![0x76u8, 0x31u8, 0x3du8]
}

/// Every value carried under `key`, in header order, keys cut off. The
/// provider sends several "v1" items while its signing secret rotates,
/// and each is a candidate signature.
pub open spec fn spec_all_values(segs: Seq<Seq<u8>>, key: Seq<u8>) -> Seq<Seq<u8>>
    decreases segs.len(),
{
    if segs.len() == 0 {
        Seq::empty()
    } else {
        match spec_seg_value(segs[0], key) {
            Some(v) => seq![v] + spec_all_values(segs.drop_first(), key),
            None => spec_all_values(segs.drop_first(), key),
        }
    }
}

/// Is every candidate signature an even-length hex string?
pub open spec fn spec_sigs_hex(sigs: Seq<Seq<u8>>) -> bool {
    forall|i: int|
        0 <= i < sigs.len() ==> (#[trigger] sigs[i]).len() % 2 == 0 && spec_all_hex(sigs[i])
}

/// What a signature header carries: the timestamp (its value and its raw
/// digits) and every decoded candidate signature, in order. `None` when
/// the header lacks a "t" item or any "v1" item, the timestamp is not a
/// number that fits in 64 bits, or a candidate is not an even-length hex
/// string.
pub open spec fn spec_header_parse(h: Seq<u8>) -> Option<(u64, Seq<u8>, Seq<Seq<u8>>)> {
    let segs = spec_split(h, 0x2cu8);
    match spec_first_value(segs, spec_key_t()) {
        None => None,
        Some(traw) => {
            let sigs = spec_all_values(segs, spec_key_v1());
            if traw.len() > 0 && spec_all_digits_bytes(traw) && spec_dec_val_bytes(traw)
                <= u64::MAX && sigs.len() > 0 && spec_sigs_hex(sigs) {
                Some(
                    (
                        spec_dec_val_bytes(traw) as u64,
                        traw,
                        sigs.map(|_i: int, v: Seq<u8>| spec_hex_decode(v)),
                    ),
                )
            } else {
                None
            }
        },
    }
}

/// What the provider signs: the raw timestamp digits, a dot, and the raw
/// request body.
pub open spec fn spec_signed_payload(traw: Seq<u8>, payload: Seq<u8>) -> Seq<u8> {
    traw + seq![0x2eu8] + payload
}

/// Is `now` within `tolerance` seconds of `t`, in either direction?
pub open spec fn spec_timestamp_fresh(t: u64, now: u64, tolerance: u64) -> bool {
    if now >= t {
        now - t <= tolerance
    } else {
        t - now <= tolerance
    }
}

/// Does the header authenticate the payload under `secret` at time `now`?
/// It must parse, some candidate signature must be the HMAC-SHA-256 tag
/// of the signed payload under `secret` (any one suffices, so a secret
/// rotation's extra signatures do no harm), and its timestamp must be
/// fresh.
pub open spec fn spec_signature_valid(
    payload: Seq<u8>,
    header: Seq<u8>,
    secret: Seq<u8>,
    now: u64,
    tolerance: u64,
) -> bool {
    match spec_header_parse(header) {
        None => false,
        Some((t, traw, sigs)) => {
            &&& exists|i: int|
                0 <= i < sigs.len() && sigs[i] == hmac_sha256_of(
                    secret,
                    spec_signed_payload(traw, payload),
                )
            &&& spec_timestamp_fresh(t, now, tolerance)
        },
    }
}

/// The first position of `sep` in `s`, if any.
fn index_of(s: &[u8], sep: u8) -> (r: Option<usize>)
    ensures
        match r {
            Some(i) => i < s@.len() && s@[i as int] == sep && forall|j: int|
                0 <= j < i ==> s@[j] != sep,
            None => forall|j: int| 0 <= j < s@.len() ==> s@[j] != sep,
        },
{
    let n = s.len();
    for i in 0..n
        invariant
            n == s@.len(),
            forall|j: int| 0 <= j < i ==> s@[j] != sep,
    {
        if s[i] == sep {
            return Some(i);
        }
    }
    None
}

/// `s` split at every `sep`.
fn split_bytes(s: &[u8], sep: u8) -> (r: Vec<Vec<u8>>)
    ensures
        r@.len() == spec_split(s@, sep).len(),
        forall|i: int| 0 <= i < r@.len() ==> (#[trigger] r@[i])@ == spec_split(s@, sep)[i],
    decreases s@.len(),
{
    let n = s.len();
    match index_of(s, sep) {
        None => {
            proof {
                lemma_split_no_sep(s@, sep);
            }
            let mut r: Vec<Vec<u8>> = Vec::new();
            r.push(vstd::slice::slice_to_vec(s));
            r
        },
        Some(i) => {
            let head = vstd::slice::slice_to_vec(vstd::slice::slice_subrange(s, 0, i));
            let rest = vstd::slice::slice_subrange(s, i + 1, n);
            let mut tail = split_bytes(rest, sep);
            let mut r: Vec<Vec<u8>> = Vec::new();
            r.push(head);
            r.append(&mut tail);
            proof {
                lemma_split_at_first(s@, sep, i as int);
                assert(head@ == s@.take(i as int));
            }
            r
        },
    }
}

/// The value of `seg` under `key`, when `seg` begins with `key`.
fn seg_value(seg: &Vec<u8>, key: &[u8]) -> (r: Option<Vec<u8>>)
    ensures
        match r {
            Some(v) => spec_seg_value(seg@, key@) == Some(v@),
            None => spec_seg_value(seg@, key@) is None,
        },
{
    let m = key.len();
    if seg.len() < m {
        return None;
    }
    for j in 0..m
        invariant
            m == key@.len(),
            m <= seg@.len(),
            forall|k: int| 0 <= k < j ==> seg@[k] == key@[k],
    {
        if seg[j] != key[j] {
            assert(seg@.take(m as int)[j as int] != key@[j as int]);
            return None;
        }
    }
    assert(seg@.take(m as int) =~= key@);
    let v = vstd::slice::slice_subrange(seg.as_slice(), m, seg.len());
    Some(vstd::slice::slice_to_vec(v))
}

/// The value of the first piece of `segs` that carries `key`.
fn first_value(segs: &Vec<Vec<u8>>, key: &[u8]) -> (r: Option<Vec<u8>>)
    ensures
        match r {
            Some(v) => spec_first_value(segs@.map(|_i: int, s: Vec<u8>| s@), key@) == Some(v@),
            None => spec_first_value(segs@.map(|_i: int, s: Vec<u8>| s@), key@) is None,
        },
{
    let ghost models = segs@.map(|_i: int, s: Vec<u8>| s@);
    proof {
        assert(models.skip(0) =~= models);
    }
    let n = segs.len();
    for i in 0..n
        invariant
            n == segs@.len(),
            models == segs@.map(|_i: int, s: Vec<u8>| s@),
            forall|j: int| 0 <= j < i ==> spec_seg_value(models[j], key@) is None,
            spec_first_value(models, key@) == spec_first_value(
                models.skip(i as int),
                key@,
            ),
    {
        proof {
            assert(models.skip(i as int)[0] == models[i as int]);
            assert(models.skip(i as int).drop_first() =~= models.skip(i + 1));
        }
        match seg_value(&segs[i], key) {
            Some(v) => {
                return Some(v);
            },
            None => {},
        }
    }
    proof {
        assert(models.skip(n as int) =~= Seq::<Seq<u8>>::empty());
    }
    None
}

/// One more piece contributes its value exactly when it carries the key.
proof fn lemma_all_values_push(segs: Seq<Seq<u8>>, x: Seq<u8>, key: Seq<u8>)
    ensures
        spec_all_values(segs.push(x), key) == (match spec_seg_value(x, key) {
            Some(v) => spec_all_values(segs, key).push(v),
            None => spec_all_values(segs, key),
        }),
    decreases segs.len(),
{
    assert(spec_all_values(Seq::<Seq<u8>>::empty(), key) =~= Seq::<Seq<u8>>::empty());
    if segs.len() == 0 {
        assert(segs.push(x)[0] == x);
        assert(segs.push(x).drop_first() =~= Seq::<Seq<u8>>::empty());
        match spec_seg_value(x, key) {
            Some(v) => {
                assert(spec_all_values(segs.push(x), key) =~= seq![v]);
                assert(spec_all_values(segs, key).push(v) =~= seq![v]);
            },
            None => {
                assert(spec_all_values(segs.push(x), key) =~= Seq::<Seq<u8>>::empty());
            },
        }
    } else {
        assert(segs.push(x)[0] == segs[0]);
        assert(segs.push(x).drop_first() =~= segs.drop_first().push(x));
        lemma_all_values_push(segs.drop_first(), x, key);
        match spec_seg_value(x, key) {
            Some(v) => {
                match spec_seg_value(segs[0], key) {
                    Some(w) => {
                        assert(spec_all_values(segs.push(x), key) =~= seq![w] + spec_all_values(
                            segs.drop_first(),
                            key,
                        ).push(v));
                        assert(spec_all_values(segs, key).push(v) =~= seq![w] + spec_all_values(
                            segs.drop_first(),
                            key,
                        ).push(v));
                    },
                    None => {
                        assert(spec_all_values(segs.push(x), key) =~= spec_all_values(
                            segs.drop_first(),
                            key,
                        ).push(v));
                    },
                }
            },
            None => {},
        }
    }
}

/// Every value carried under `key`, in header order.
fn all_values(segs: &Vec<Vec<u8>>, key: &[u8]) -> (r: Vec<Vec<u8>>)
    ensures
        r@.map(|_i: int, v: Vec<u8>| v@) == spec_all_values(
            segs@.map(|_i: int, s: Vec<u8>| s@),
            key@,
        ),
{
    let ghost models = segs@.map(|_i: int, s: Vec<u8>| s@);
    let mut r: Vec<Vec<u8>> = Vec::new();
    let n = segs.len();
    proof {
        assert(models.take(0) =~= Seq::<Seq<u8>>::empty());
        assert(r@.map(|_i: int, v: Vec<u8>| v@) =~= spec_all_values(models.take(0), key@));
    }
    for i in 0..n
        invariant
            n == segs@.len(),
            models == segs@.map(|_i: int, s: Vec<u8>| s@),
            r@.map(|_i: int, v: Vec<u8>| v@) == spec_all_values(models.take(i as int), key@),
    {
        proof {
            assert(models.take(i + 1) =~= models.take(i as int).push(models[i as int]));
            lemma_all_values_push(models.take(i as int), models[i as int], key@);
        }
        match seg_value(&segs[i], key) {
            Some(v) => {
                let ghost before = r@.map(|_i: int, v: Vec<u8>| v@);
                r.push(v);
                proof {
                    assert(r@.map(|_i: int, v: Vec<u8>| v@) =~= before.push(r@.last()@));
                }
            },
            None => {},
        }
    }
    proof {
        assert(models.take(n as int) =~= models);
    }
    r
}

/// A parsed signature header: the timestamp as a number and as the raw
/// digits the provider signed over, and every decoded candidate
/// signature, in header order.
pub struct ParsedSignature {
    pub timestamp: u64,
    pub timestamp_raw: Vec<u8>,
    pub signatures: Vec<Vec<u8>>,
}

/// Reads the signature header. Succeeds exactly when the header carries a
/// numeric "t" item and at least one "v1" item, every "v1" an even-length
/// hex string.
pub fn parse_signature_header(header: &[u8]) -> (r: Option<ParsedSignature>)
    ensures
        match r {
            Some(p) => spec_header_parse(header@) == Some(
                (p.timestamp, p.timestamp_raw@, p.signatures@.map(|_i: int, v: Vec<u8>| v@)),
            ),
            None => spec_header_parse(header@) is None,
        },
{
    let segs = split_bytes(header, 0x2c);
    proof {
        assert(segs@.map(|_i: int, s: Vec<u8>| s@) =~= spec_split(header@, 0x2c));
        assert(seq![0x74u8, 0x3du8] =~= spec_key_t());
        assert(seq![0x76u8, 0x31u8, 0x3du8] =~= spec_key_v1());
    }
    let key_t: [u8; 2] = [0x74, 0x3d];
    let key_v1: [u8; 3] = [0x76, 0x31, 0x3d];
    proof {
        assert(key_t@ =~= spec_key_t());
        assert(key_v1@ =~= spec_key_v1());
    }
    let traw = match first_value(&segs, key_t.as_slice()) {
        None => {
            return None;
        },
        Some(v) => v,
    };
    let timestamp = match parse_u64_bytes(traw.as_slice()) {
        None => {
            return None;
        },
        Some(t) => t,
    };
    let sig_hexes = all_values(&segs, key_v1.as_slice());
    let ghost sig_models = spec_all_values(
        segs@.map(|_i: int, s: Vec<u8>| s@),
        spec_key_v1(),
    );
    if sig_hexes.len() == 0 {
        return None;
    }
    let mut signatures: Vec<Vec<u8>> = Vec::new();
    let m = sig_hexes.len();
    proof {
        assert(signatures@.map(|_i: int, v: Vec<u8>| v@) =~= sig_models.take(0).map(
            |_i: int, v: Seq<u8>| spec_hex_decode(v),
        ));
    }
    for k in 0..m
        invariant
            m == sig_hexes@.len(),
            m > 0,
            sig_models == sig_hexes@.map(|_i: int, v: Vec<u8>| v@),
            sig_models == spec_all_values(spec_split(header@, 0x2cu8), spec_key_v1()),
            spec_first_value(spec_split(header@, 0x2cu8), spec_key_t()) == Some(traw@),
            traw@.len() > 0,
            spec_all_digits_bytes(traw@),
            spec_dec_val_bytes(traw@) <= u64::MAX,
            timestamp == spec_dec_val_bytes(traw@),
            forall|j: int|
                0 <= j < k ==> (#[trigger] sig_models[j]).len() % 2 == 0 && crate::text::spec_all_hex(
                    sig_models[j],
                ),
            signatures@.map(|_i: int, v: Vec<u8>| v@) == sig_models.take(k as int).map(
                |_i: int, v: Seq<u8>| spec_hex_decode(v),
            ),
    {
        proof {
            assert(sig_hexes@[k as int]@ == sig_models[k as int]);
        }
        match hex_decode(sig_hexes[k].as_slice()) {
            None => {
                proof {
                    assert(!(sig_models[k as int].len() % 2 == 0 && crate::text::spec_all_hex(
                        sig_models[k as int],
                    )));
                    assert(!spec_sigs_hex(sig_models)) by {
                        if spec_sigs_hex(sig_models) {
                            assert((sig_models[k as int]).len() % 2 == 0 && crate::text::spec_all_hex(
                                sig_models[k as int],
                            ));
                        }
                    }
                }
                return None;
            },
            Some(sig) => {
                let ghost sig_g = sig@;
                let ghost before = signatures@.map(|_i: int, v: Vec<u8>| v@);
                signatures.push(sig);
                proof {
                    assert(sig_g == spec_hex_decode(sig_models[k as int]));
                    assert(sig_models.take(k + 1) =~= sig_models.take(k as int).push(
                        sig_models[k as int],
                    ));
                    assert(signatures@.map(|_i: int, v: Vec<u8>| v@) =~= before.push(sig_g));
                    assert(signatures@.map(|_i: int, v: Vec<u8>| v@) =~= sig_models.take(
                        k + 1,
                    ).map(|_i: int, v: Seq<u8>| spec_hex_decode(v)));
                }
            },
        }
    }
    proof {
        assert(sig_models.take(m as int) =~= sig_models);
        assert(spec_sigs_hex(sig_models));
    }
    Some(ParsedSignature { timestamp, timestamp_raw: traw, signatures })
}

/// Verifies a webhook payload against its signature header, the shared
/// secret, and the clock: recomputes the HMAC-SHA-256 tag of the signed
/// payload, compares it with every candidate signature the header
/// carries (a rotation sends several; any match suffices), and checks
/// the timestamp against the tolerance. True exactly when the header
/// authenticates the payload.
pub fn verify_signature(
    payload: &[u8],
    header: &[u8],
    secret: &[u8],
    now: u64,
    tolerance: u64,
) -> (r: bool)
    ensures
        r == spec_signature_valid(payload@, header@, secret@, now, tolerance),
{
    let parsed = match parse_signature_header(header) {
        None => {
            return false;
        },
        Some(p) => p,
    };
    let fresh = if now >= parsed.timestamp {
        now - parsed.timestamp <= tolerance
    } else {
        parsed.timestamp - now <= tolerance
    };
    if !fresh {
        return false;
    }
    let mut signed: Vec<u8> = Vec::new();
    signed.extend_from_slice(parsed.timestamp_raw.as_slice());
    signed.push(0x2e);
    signed.extend_from_slice(payload);
    proof {
        assert(signed@ =~= spec_signed_payload(parsed.timestamp_raw@, payload@));
    }
    let tag = hmac_sha256(secret, signed.as_slice());
    let ghost sig_models = parsed.signatures@.map(|_i: int, v: Vec<u8>| v@);
    let m = parsed.signatures.len();
    for k in 0..m
        invariant
            m == parsed.signatures@.len(),
            sig_models == parsed.signatures@.map(|_i: int, v: Vec<u8>| v@),
            spec_header_parse(header@) == Some(
                (parsed.timestamp, parsed.timestamp_raw@, sig_models),
            ),
            spec_timestamp_fresh(parsed.timestamp, now, tolerance),
            tag@ == hmac_sha256_of(secret@, spec_signed_payload(parsed.timestamp_raw@, payload@)),
            forall|j: int| 0 <= j < k ==> (#[trigger] sig_models[j]) != tag@,
    {
        if signature_matches(tag.as_slice(), parsed.signatures[k].as_slice()) {
            proof {
                let parsed_spec = spec_header_parse(header@);
                let t = parsed_spec.unwrap().0;
                let traw = parsed_spec.unwrap().1;
                let sigs = parsed_spec.unwrap().2;
                assert(sigs == sig_models && t == parsed.timestamp && traw
                    == parsed.timestamp_raw@);
                assert(sigs[k as int] == hmac_sha256_of(
                    secret@,
                    spec_signed_payload(traw, payload@),
                ));
                assert(exists|i: int|
                    0 <= i < sigs.len() && sigs[i] == hmac_sha256_of(
                        secret@,
                        spec_signed_payload(traw, payload@),
                    ));
                assert(spec_timestamp_fresh(t, now, tolerance));
                assert(spec_signature_valid(payload@, header@, secret@, now, tolerance));
            }
            return true;
        }
    }
    false
}


// ---------------------------------------------------------------------
// Routing a webhook: verify, filter for completed checkouts, extract the
// customer fields, and fulfil.
// ---------------------------------------------------------------------

/// A provider event as plain values, after the surrounding JSON envelope
/// has been taken apart. Absent fields stay absent here; whether they may
/// be absent is this module's decision, not the parser's.
pub struct ParsedEvent {
    pub event_type: String,
    pub session_id: String,
    pub customer_name: Option<String>,
    pub customer_email: Option<String>,
    pub line1: Option<String>,
    pub line2: Option<String>,
    pub city: Option<String>,
    pub state: Option<String>,
    pub postal_code: Option<String>,
    pub amount_total: Option<u64>,
}

/// Why a webhook was not acted on.
#[derive(Clone, Copy, Debug, PartialEq, Eq, Structural)]
pub enum WebhookError {
    /// The signature did not authenticate the payload. Nothing happened,
    /// whatever the payload said.
    VerificationError,
    /// A field fulfillment needs — customer, address, total, or the
    /// pending cart under the session id — is missing or unreadable.
    MalformedPayload,
    /// The session was fulfilled before; nothing happened this time.
    DuplicateFulfillment,
    /// The order table's id space is exhausted; nothing was persisted.
    PersistenceError,
}

/// The shipping line an event carries: its first line, then its second,
/// with nothing between.
pub open spec fn spec_event_full_line(ev: ParsedEvent) -> Seq<char> {
    (match ev.line1 {
        Some(l) => l@,
        None => Seq::<char>::empty(),
    }) + (match ev.line2 {
        Some(l) => l@,
        None => Seq::<char>::empty(),
    })
}

/// A street line split at its first space: the house number (which must
/// be a decimal number fitting `u32`) and the street after the space.
/// Callers split the trimmed line, so surrounding whitespace never
/// reaches this split.
pub open spec fn spec_house_number(full: Seq<char>) -> Option<(u32, Seq<char>)> {
    match crate::text::spec_find(full, seq![' '], 0) {
        None => None,
        Some(p) => {
            let digits = full.take(p);
            if digits.len() > 0 && crate::text::spec_all_digits_chars(digits)
                && crate::text::spec_dec_val_chars(digits) <= u32::MAX {
                Some(
                    (
                        crate::text::spec_dec_val_chars(digits) as u32,
                        full.skip(p + 1),
                    ),
                )
            } else {
                None
            }
        },
    }
}

/// Is `s` a zipcode the shop can read: a decimal number fitting `u32`?
pub open spec fn spec_postal_ok(s: Seq<char>) -> bool {
    s.len() > 0 && crate::text::spec_all_digits_chars(s)
        && crate::text::spec_dec_val_chars(s) <= u32::MAX
}

/// Does the event carry everything fulfillment needs? Missing fields are
/// refused outright, never papered over with placeholder values: the
/// order is financially significant, so failure must be explicit.
pub open spec fn spec_event_wellformed(ev: ParsedEvent) -> bool {
    &&& ev.customer_name is Some
    &&& ev.customer_email is Some
    &&& ev.amount_total is Some
    &&& ev.line1 is Some
    &&& ev.city is Some
    &&& ev.state is Some
    &&& ev.postal_code is Some
    &&& spec_house_number(crate::text::spec_trim(spec_event_full_line(ev))) is Some
    &&& spec_postal_ok(ev.postal_code.unwrap()@)
}

/// Is `addr` the address the event describes, field by field?
pub open spec fn spec_event_address(ev: ParsedEvent, addr: crate::address::Address) -> bool {
    &&& addr.name@ == ev.customer_name.unwrap()@
    &&& addr.number == spec_house_number(
        crate::text::spec_trim(spec_event_full_line(ev)),
    ).unwrap().0
    &&& addr.street@ == spec_house_number(
        crate::text::spec_trim(spec_event_full_line(ev)),
    ).unwrap().1
    &&& addr.city@ == ev.city.unwrap()@
    &&& addr.state@ == ev.state.unwrap()@
    &&& addr.zipcode == crate::text::spec_dec_val_chars(ev.postal_code.unwrap()@)
}

/// Is this the one event the shop acts on, a completed checkout session?
pub open spec fn spec_event_completed(ev: ParsedEvent) -> bool {
    ev.event_type@ == "checkout.session.completed"@
}

/// Builds the shipping address from the event's fields: the street line
/// is split at its first space into a numeric house number and the
/// street, and the zipcode must be a number. The combined line is
/// trimmed of surrounding whitespace before the split, so stray spaces
/// around a provider-supplied line do not spoil a paid order. Succeeds
/// exactly when both parse; nothing is replaced by a placeholder.
pub fn make_address(
    name: &String,
    line1: &String,
    line2: &Option<String>,
    city: &String,
    state: &String,
    postal_code: &String,
) -> (r: Option<crate::address::Address>)
    ensures
        ({
            let line = crate::text::spec_trim(
                line1@ + (match *line2 {
                    Some(l) => l@,
                    None => Seq::<char>::empty(),
                }),
            );
            match r {
                Some(addr) => {
                    &&& spec_house_number(line) is Some
                    &&& spec_postal_ok(postal_code@)
                    &&& addr.name@ == name@
                    &&& addr.order == 0
                    &&& addr.number == spec_house_number(line).unwrap().0
                    &&& addr.street@ == spec_house_number(line).unwrap().1
                    &&& addr.city@ == city@
                    &&& addr.state@ == state@
                    &&& addr.zipcode == crate::text::spec_dec_val_chars(postal_code@)
                },
                None => spec_house_number(line) is None || !spec_postal_ok(postal_code@),
            }
        }),
{
    proof {
        reveal_strlit(" ");
        assert(" "@ =~= seq![' ']);
    }
    let full: String = match line2 {
        None => {
            let f = line1.clone();
            proof {
                assert(f@ =~= line1@ + Seq::<char>::empty());
            }
            f
        },
        Some(l2) => line1.clone().concat(l2.as_str()),
    };
    let fs = crate::text::trim(full.as_str());
    let n = fs.unicode_len();
    let p = match crate::text::find_from(fs, " ", 0) {
        None => {
            return None;
        },
        Some(p) => p,
    };
    let digits = fs.substring_char(0, p);
    let number = match crate::text::parse_u32_str(digits) {
        None => {
            return None;
        },
        Some(v) => v,
    };
    let street = fs.substring_char(p + 1, n).to_owned();
    let zipcode = match crate::text::parse_u32_str(postal_code.as_str()) {
        None => {
            return None;
        },
        Some(v) => v,
    };
    Some(
        crate::address::Address {
            name: name.clone(),
            order: 0,
            number,
            street,
            city: city.clone(),
            state: state.clone(),
            zipcode,
        },
    )
}

/// Is the event a completed checkout session?
fn event_is_completed(ev: &ParsedEvent) -> (r: bool)
    ensures
        r == spec_event_completed(*ev),
{
    let completed: String = "checkout.session.completed".to_owned();
    ev.event_type.eq(&completed)
}

/// Handles one webhook delivery, failing closed. The signature is checked
/// against the raw body before anything else; an unverifiable delivery
/// changes nothing, whatever its payload says. The caller must hand in
/// `event` as the parse of that same `body` — the signature covers the
/// bytes, so an event parsed from anything else would be acting on
/// unauthenticated data. A verified event of any other type is ignored.
/// A verified completion is refused explicitly when a required field is
/// missing or no pending checkout matches, is a no-op when the session
/// was fulfilled before, and otherwise fulfils the order and answers its
/// id.
pub fn verify_and_route(
    shop: &mut crate::shop::Shop,
    body: &[u8],
    sig_header: &[u8],
    secret: &[u8],
    now: u64,
    tolerance: u64,
    event: &ParsedEvent,
) -> (r: Result<Option<u32>, WebhookError>)
    requires
        old(shop).wf(),
    ensures
        final(shop).wf(),
        !spec_signature_valid(body@, sig_header@, secret@, now, tolerance) ==> r == Result::<
            Option<u32>,
            WebhookError,
        >::Err(WebhookError::VerificationError) && final(shop)@ == old(shop)@,
        match r {
            Err(WebhookError::VerificationError) => {
                &&& !spec_signature_valid(body@, sig_header@, secret@, now, tolerance)
                &&& final(shop)@ == old(shop)@
            },
            Ok(None) => {
                &&& spec_signature_valid(body@, sig_header@, secret@, now, tolerance)
                &&& !spec_event_completed(*event)
                &&& final(shop)@ == old(shop)@
            },
            Err(WebhookError::MalformedPayload) => {
                &&& spec_signature_valid(body@, sig_header@, secret@, now, tolerance)
                &&& spec_event_completed(*event)
                &&& (!spec_event_wellformed(*event) || (!old(shop)@.fulfilled.contains(
                    event.session_id@,
                ) && crate::shop::spec_find_pending(old(shop)@.pending, event.session_id@) is None))
                &&& final(shop)@ == old(shop)@
            },
            Err(WebhookError::DuplicateFulfillment) => {
                &&& spec_signature_valid(body@, sig_header@, secret@, now, tolerance)
                &&& spec_event_completed(*event)
                &&& spec_event_wellformed(*event)
                &&& old(shop)@.fulfilled.contains(event.session_id@)
                &&& final(shop)@ == old(shop)@
            },
            Err(WebhookError::PersistenceError) => {
                &&& spec_signature_valid(body@, sig_header@, secret@, now, tolerance)
                &&& spec_event_completed(*event)
                &&& spec_event_wellformed(*event)
                &&& old(shop)@.orders_next == u32::MAX
                &&& final(shop)@ == old(shop)@
            },
            Ok(Some(order_id)) => {
                &&& spec_signature_valid(body@, sig_header@, secret@, now, tolerance)
                &&& spec_event_completed(*event)
                &&& spec_event_wellformed(*event)
                &&& exists|addr: crate::address::Address|
                    spec_event_address(*event, addr) && crate::shop::spec_fulfill_rel(
                        old(shop)@,
                        final(shop)@,
                        event.session_id@,
                        event.customer_name.unwrap()@,
                        event.customer_email.unwrap()@,
                        event.amount_total.unwrap(),
                        addr,
                        Ok(order_id),
                    )
            },
        },
{
    if !verify_signature(body, sig_header, secret, now, tolerance) {
        return Err(WebhookError::VerificationError);
    }
    if !event_is_completed(event) {
        return Ok(None);
    }
    let name = match &event.customer_name {
        None => {
            return Err(WebhookError::MalformedPayload);
        },
        Some(n) => n,
    };
    let email = match &event.customer_email {
        None => {
            return Err(WebhookError::MalformedPayload);
        },
        Some(e) => e,
    };
    let total = match &event.amount_total {
        None => {
            return Err(WebhookError::MalformedPayload);
        },
        Some(t) => *t,
    };
    let line1 = match &event.line1 {
        None => {
            return Err(WebhookError::MalformedPayload);
        },
        Some(l) => l,
    };
    let city = match &event.city {
        None => {
            return Err(WebhookError::MalformedPayload);
        },
        Some(c) => c,
    };
    let state = match &event.state {
        None => {
            return Err(WebhookError::MalformedPayload);
        },
        Some(st) => st,
    };
    let postal_code = match &event.postal_code {
        None => {
            return Err(WebhookError::MalformedPayload);
        },
        Some(z) => z,
    };
    let addr = match make_address(name, line1, &event.line2, city, state, postal_code) {
        None => {
            return Err(WebhookError::MalformedPayload);
        },
        Some(a) => a,
    };
    let ghost addr_g = addr;
    match shop.fulfill(&event.session_id, name.clone(), email.clone(), total, addr) {
        Ok(order_id) => {
            proof {
                assert(spec_event_address(*event, addr_g));
            }
            Ok(Some(order_id))
        },
        Err(crate::shop::FulfillmentError::DuplicateFulfillment) => Err(
            WebhookError::DuplicateFulfillment,
        ),
        Err(crate::shop::FulfillmentError::MissingSession) => Err(WebhookError::MalformedPayload),
        Err(crate::shop::FulfillmentError::PersistenceError) => Err(WebhookError::PersistenceError),
    }
}


/// The HTTP status a webhook delivery is answered with, chosen so the
/// provider's retry behavior is the right one. A signature failure or a
/// malformed payload will never become valid, so both are definitive
/// client errors; a duplicate means the work is already done, so it is a
/// success and retries stop; only a persistence failure is worth a
/// redelivery, so only it is answered as a server error.
pub open spec fn spec_response_status(r: Result<Option<u32>, WebhookError>) -> u16 {
    match r {
        Ok(_) => 200,
        Err(WebhookError::VerificationError) => 400,
        Err(WebhookError::MalformedPayload) => 400,
        Err(WebhookError::DuplicateFulfillment) => 200,
        Err(WebhookError::PersistenceError) => 500,
    }
}

/// The HTTP status to answer a webhook delivery with.
pub fn response_status(r: &Result<Option<u32>, WebhookError>) -> (status: u16)
    ensures
        status == spec_response_status(*r),
{
    match r {
        Ok(_) => 200,
        Err(WebhookError::VerificationError) => 400,
        Err(WebhookError::MalformedPayload) => 400,
        Err(WebhookError::DuplicateFulfillment) => 200,
        Err(WebhookError::PersistenceError) => 500,
    }
}

} // verus!
