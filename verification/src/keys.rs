//! User keys and the order-preserving byte encoding used by the engine.
//!
//! A raw key is an arbitrary byte string. Internally the engine and the
//! region directory order keys by an encoded form: the raw bytes are cut
//! into groups of eight, every full group is followed by a continuation
//! marker, and the final (possibly empty) group is zero-padded to eight
//! bytes and followed by a marker recording how many bytes were real.
//! Decoding the encoded form gives the raw bytes back exactly.

use vstd::prelude::*;

verus! {

/// Number of payload bytes in one encoded group.
pub const ENC_GROUP_SIZE: usize = 8;

/// Marker that follows a full group when more groups come after it.
pub const ENC_MARKER_FULL: u8 = 255;

/// Marker of a terminal group holding no real bytes; a terminal group
/// holding `r` real bytes carries marker `247 + r`.
pub const ENC_MARKER_EMPTY: u8 = 247;

/// Strict bytewise lexicographic order on byte strings.
pub open spec fn lex_lt(a: Seq<u8>, b: Seq<u8>) -> bool
    decreases a.len(),
{
    if b.len() == 0 {
        false
    } else if a.len() == 0 {
        true
    } else if a[0] < b[0] {
        true
    } else if a[0] > b[0] {
        false
    } else {
        lex_lt(a.drop_first(), b.drop_first())
    }
}

/// Reflexive bytewise lexicographic order.
pub open spec fn lex_le(a: Seq<u8>, b: Seq<u8>) -> bool {
    a == b || lex_lt(a, b)
}

/// Exactly one of `a < b`, `a == b`, `b < a` holds.
pub proof fn lemma_lex_trichotomy(a: Seq<u8>, b: Seq<u8>)
    ensures
        lex_lt(a, b) || lex_lt(b, a) || a == b,
        lex_lt(a, b) ==> !lex_lt(b, a) && a != b,
        decreases a.len(),
{
    if a.len() == 0 || b.len() == 0 {
        if a.len() == 0 && b.len() == 0 {
            assert(a =~= b);
        }
    } else if a[0] == b[0] {
        lemma_lex_trichotomy(a.drop_first(), b.drop_first());
        if a.drop_first() == b.drop_first() {
            assert forall|j: int| 0 <= j < a.len() implies a[j] == b[j] by {
                if j >= 1 {
                    assert(a[j] == a.drop_first()[j - 1]);
                    assert(b[j] == b.drop_first()[j - 1]);
                }
            }
            assert(a =~= b);
        }
    }
}

/// Compares two byte strings in lexicographic order.
pub fn key_lt(a: &Vec<u8>, b: &Vec<u8>) -> (r: bool)
    ensures
        r == lex_lt(a@, b@),
{
    let mut i: usize = 0;
    proof {
        assert(a@.skip(0) =~= a@);
        assert(b@.skip(0) =~= b@);
    }
    loop
        invariant
            i <= a.len(),
            i <= b.len(),
            lex_lt(a@, b@) == lex_lt(a@.skip(i as int), b@.skip(i as int)),
        decreases a.len() - i,
    {
        if i == b.len() {
            return false;
        }
        if i == a.len() {
            return true;
        }
        let x = a[i];
        let y = b[i];
        proof {
            assert(a@.skip(i as int)[0] == a@[i as int]);
            assert(b@.skip(i as int)[0] == b@[i as int]);
        }
        if x < y {
            return true;
        }
        if x > y {
            return false;
        }
        proof {
            assert(a@.skip(i as int).drop_first() =~= a@.skip(i as int + 1));
            assert(b@.skip(i as int).drop_first() =~= b@.skip(i as int + 1));
        }
        i = i + 1;
    }
}

/// Compares two byte strings in reflexive lexicographic order.
pub fn key_le(a: &Vec<u8>, b: &Vec<u8>) -> (r: bool)
    ensures
        r == lex_le(a@, b@),
{
    let lt = key_lt(b, a);
    proof {
        lemma_lex_trichotomy(a@, b@);
        if a@ == b@ {
            assert(a@ =~= b@);
        }
    }
    !lt
}

/// The encoded form of a raw key: groups of eight bytes, each full group
/// followed by the continuation marker, and a terminal zero-padded group
/// whose marker records its number of real bytes.
pub open spec fn encoded(raw: Seq<u8>) -> Seq<u8>
    decreases raw.len(),
{
    if raw.len() < 8 {
        raw + Seq::new((8 - raw.len()) as nat, |j: int| 0u8) + seq![(247 + raw.len()) as u8]
    } else {
        raw.take(8) + seq![255u8] + encoded(raw.skip(8))
    }
}

/// The raw key recovered from an encoded byte string, or `None` where the
/// bytes are not a valid encoding.
pub open spec fn decoded(enc: Seq<u8>) -> Option<Seq<u8>>
    decreases enc.len(),
{
    if enc.len() < 9 {
        None
    } else if enc[8] == 255 {
        match decoded(enc.skip(9)) {
            Some(rest) => Some(enc.take(8) + rest),
            None => None,
        }
    } else if enc[8] < 247 || enc.len() != 9 {
        None
    } else {
        let datalen = enc[8] - 247;
        if forall|j: int| datalen <= j < 8 ==> enc[j] == 0 {
            Some(enc.take(datalen as int))
        } else {
            None
        }
    }
}

/// Law: decoding an encoded key yields the raw key back, for every byte
/// string used as a user key.
pub proof fn lemma_encode_roundtrip(raw: Seq<u8>)
    ensures
        decoded(encoded(raw)) == Some(raw),
    decreases raw.len(),
{
    let e = encoded(raw);
    if raw.len() < 8 {
        assert(e.len() == 9);
        assert(e[8] == 247 + raw.len());
        assert(forall|j: int| raw.len() <= j < 8 ==> e[j] == 0);
        assert(e.take(raw.len() as int) =~= raw);
    } else {
        lemma_encode_roundtrip(raw.skip(8));
        assert(e[8] == 255);
        assert(e.skip(9) =~= encoded(raw.skip(8)));
        assert(e.take(8) + raw.skip(8) =~= raw);
    }
}

/// Encodes a raw key into its order-preserving engine form.
pub fn encode_bytes(raw: &Vec<u8>) -> (r: Vec<u8>)
    ensures
        r@ == encoded(raw@),
{
    let mut out: Vec<u8> = Vec::new();
    let mut i: usize = 0;
    proof {
        assert(raw@.skip(0) =~= raw@);
    }
    while raw.len() - i >= ENC_GROUP_SIZE
        invariant
            i <= raw.len(),
            encoded(raw@) == out@ + encoded(raw@.skip(i as int)),
        decreases raw.len() - i,
    {
        let ghost out0 = out@;
        let mut j: usize = 0;
        while j < 8
            invariant
                j <= 8,
                i + 8 <= raw.len(),
                out@ == out0 + raw@.subrange(i as int, i as int + j as int),
            decreases 8 - j,
        {
            out.push(raw[i + j]);
            proof {
                assert(out@ =~= out0 + raw@.subrange(i as int, i as int + j as int + 1));
            }
            j = j + 1;
        }
        out.push(ENC_MARKER_FULL);
        proof {
            assert(raw@.skip(i as int).take(8) =~= raw@.subrange(i as int, i as int + 8));
            assert(raw@.skip(i as int).skip(8) =~= raw@.skip(i as int + 8));
            assert(out@ =~= out0 + raw@.skip(i as int).take(8) + seq![255u8]);
            assert(encoded(raw@) == out@ + encoded(raw@.skip(i as int + 8)));
        }
        i = i + 8;
    }
    let rem = raw.len() - i;
    let ghost out1 = out@;
    let mut j: usize = 0;
    while j < rem
        invariant
            j <= rem,
            rem == raw.len() - i,
            i + rem <= raw.len(),
            out@ == out1 + raw@.subrange(i as int, i as int + j as int),
        decreases rem - j,
    {
        out.push(raw[i + j]);
        proof {
            assert(out@ =~= out1 + raw@.subrange(i as int, i as int + j as int + 1));
        }
        j = j + 1;
    }
    let ghost out2 = out@;
    let mut p: usize = 0;
    while p < 8 - rem
        invariant
            rem < 8,
            p <= 8 - rem,
            out@ == out2 + Seq::new(p as nat, |k: int| 0u8),
        decreases 8 - rem - p,
    {
        out.push(0);
        proof {
            assert(out@ =~= out2 + Seq::new((p + 1) as nat, |k: int| 0u8));
        }
        p = p + 1;
    }
    out.push(ENC_MARKER_EMPTY + rem as u8);
    proof {
        assert(raw@.skip(i as int) =~= raw@.subrange(i as int, i as int + rem as int));
        assert(out@ =~= out1 + (raw@.skip(i as int) + Seq::new((8 - rem) as nat, |k: int| 0u8)
            + seq![(247 + raw@.skip(i as int).len()) as u8]));
        assert(out@ =~= out1 + encoded(raw@.skip(i as int)));
    }
    out
}

/// Decodes an engine-encoded key back into its raw bytes; `None` where the
/// bytes are not a valid encoding.
pub fn decode_bytes(enc: &Vec<u8>) -> (r: Option<Vec<u8>>)
    ensures
        r is Some <==> decoded(enc@) is Some,
        r matches Some(v) ==> Some(v@) == decoded(enc@),
{
    let mut out: Vec<u8> = Vec::new();
    let mut i: usize = 0;
    proof {
        assert(enc@.skip(0) =~= enc@);
    }
    loop
        invariant
            i <= enc.len(),
            decoded(enc@) == match decoded(enc@.skip(i as int)) {
                Some(rest) => Some(out@ + rest),
                None => None::<Seq<u8>>,
            },
        decreases enc.len() - i,
    {
        let ghost tail = enc@.skip(i as int);
        if enc.len() - i < 9 {
            return None;
        }
        proof {
            assert(forall|k: int| 0 <= k < tail.len() ==> tail[k] == enc@[i as int + k]);
        }
        let marker = enc[i + 8];
        if marker == ENC_MARKER_FULL {
            let ghost out0 = out@;
            let mut j: usize = 0;
            while j < 8
                invariant
                    j <= 8,
                    i + 9 <= enc.len(),
                    out@ == out0 + enc@.subrange(i as int, i as int + j as int),
                decreases 8 - j,
            {
                out.push(enc[i + j]);
                proof {
                    assert(out@ =~= out0 + enc@.subrange(i as int, i as int + j as int + 1));
                }
                j = j + 1;
            }
            proof {
                assert(tail.skip(9) =~= enc@.skip(i as int + 9));
                assert(tail.take(8) =~= enc@.subrange(i as int, i as int + 8));
                assert(decoded(tail) == match decoded(tail.skip(9)) {
                    Some(rest) => Some(tail.take(8) + rest),
                    None => None::<Seq<u8>>,
                });
                assert(forall|rest: Seq<u8>| out0 + (tail.take(8) + rest) =~= out@ + rest);
            }
            i = i + 9;
        } else if marker < ENC_MARKER_EMPTY {
            return None;
        } else if enc.len() - i != 9 {
            proof {
                assert(tail.len() != 9 && tail[8] != 255 && decoded(tail) is None);
            }
            return None;
        } else {
            let datalen = (marker - ENC_MARKER_EMPTY) as usize;
            let mut j: usize = datalen;
            while j < 8
                invariant
                    datalen <= j <= 8,
                    datalen < 8,
                    i + 9 == enc.len(),
                    tail == enc@.skip(i as int),
                    tail.len() == 9,
                    tail[8] == 247 + datalen,
                    decoded(enc@) == match decoded(tail) {
                        Some(rest) => Some(out@ + rest),
                        None => None::<Seq<u8>>,
                    },
                    forall|k: int| datalen <= k < j ==> tail[k] == 0,
                decreases 8 - j,
            {
                if enc[i + j] != 0 {
                    proof {
                        assert(tail[j as int] == enc@[i as int + j as int]);
                        assert(tail[8] == enc@[i as int + 8]);
                        if decoded(tail) is Some {
                            assert(tail[j as int] == 0);
                        }
                        assert(decoded(tail) is None);
                    }
                    return None;
                }
                proof {
                    assert(tail[j as int] == enc@[i as int + j as int]);
                }
                j = j + 1;
            }
            let ghost out1 = out@;
            let mut d: usize = 0;
            while d < datalen
                invariant
                    d <= datalen,
                    datalen < 8,
                    i + 9 == enc.len(),
                    out@ == out1 + enc@.subrange(i as int, i as int + d as int),
                decreases datalen - d,
            {
                out.push(enc[i + d]);
                proof {
                    assert(out@ =~= out1 + enc@.subrange(i as int, i as int + d as int + 1));
                }
                d = d + 1;
            }
            proof {
                assert(forall|k: int| datalen <= k < 8 ==> tail[k] == 0);
                assert(decoded(tail) == Some(tail.take(datalen as int)));
                assert(tail.take(datalen as int) =~= enc@.subrange(i as int, i as int + datalen as int));
                assert(out@ =~= out1 + tail.take(datalen as int));
            }
            return Some(out);
        }
    }
}

/// A byte string is a well-formed encoded key when it decodes.
pub open spec fn key_wf(k: Seq<u8>) -> bool {
    decoded(k) is Some
}

/// An engine-encoded user key. The view is the encoded byte string.
#[derive(Debug)]
pub struct Key {
    pub enc: Vec<u8>,
}

/// Copies a byte string.
pub fn clone_bytes(v: &Vec<u8>) -> (r: Vec<u8>)
    ensures
        r@ == v@,
{
    let mut out: Vec<u8> = Vec::new();
    let mut i: usize = 0;
    while i < v.len()
        invariant
            i <= v.len(),
            out@ == v@.take(i as int),
        decreases v.len() - i,
    {
        out.push(v[i]);
        proof {
            assert(out@ =~= v@.take(i as int + 1));
        }
        i = i + 1;
    }
    proof {
        assert(v@.take(v@.len() as int) =~= v@);
    }
    out
}

impl Clone for Key {
    /// Clones a key, preserving its encoded bytes.
    fn clone(&self) -> (r: Self)
        ensures
            r@ == self@,
    {
        Key { enc: clone_bytes(&self.enc) }
    }
}

impl View for Key {
    type V = Seq<u8>;

    open spec fn view(&self) -> Seq<u8> {
        self.enc@
    }
}

impl DeepView for Key {
    type V = Seq<u8>;

    open spec fn deep_view(&self) -> Seq<u8> {
        self.enc@
    }
}

impl Key {
    /// Encodes a raw user key.
    pub fn from_raw(raw: &Vec<u8>) -> (k: Key)
        ensures
            k@ == encoded(raw@),
            key_wf(k@),
            decoded(k@) == Some(raw@),
    {
        proof {
            lemma_encode_roundtrip(raw@);
        }
        Key { enc: encode_bytes(raw) }
    }

    /// Wraps bytes that are already in encoded form.
    pub fn from_encoded(enc: Vec<u8>) -> (k: Key)
        ensures
            k@ == enc@,
    {
        Key { enc }
    }

    /// Wraps a copy of bytes that are already in encoded form.
    pub fn from_encoded_slice(enc: &Vec<u8>) -> (k: Key)
        ensures
            k@ == enc@,
    {
        Key { enc: enc.clone() }
    }

    /// The encoded bytes, by reference.
    pub fn as_encoded(&self) -> (r: &Vec<u8>)
        ensures
            r@ == self@,
    {
        &self.enc
    }

    /// The encoded bytes, by value.
    pub fn into_encoded(self) -> (r: Vec<u8>)
        ensures
            r@ == self@,
    {
        self.enc
    }

    /// Decodes the key back into raw bytes; `None` where the key does not
    /// hold a valid encoding.
    pub fn into_raw(self) -> (r: Option<Vec<u8>>)
        ensures
            r is Some <==> key_wf(self@),
            r matches Some(v) ==> Some(v@) == decoded(self@),
    {
        decode_bytes(&self.enc)
    }
}

/// The internal bound that a raw user bound denotes: an empty raw key is an
/// unbounded side, any other raw key encodes.
pub open spec fn bound_of_raw(raw: Seq<u8>) -> Option<Seq<u8>> {
    if raw.len() == 0 {
        None
    } else {
        Some(encoded(raw))
    }
}

/// The bound contributed by a region's own (already encoded) boundary key:
/// an empty boundary is an unbounded side.
pub open spec fn bound_of(k: Seq<u8>) -> Option<Seq<u8>> {
    if k.len() == 0 {
        None
    } else {
        Some(k)
    }
}

/// Turns a raw user bound into the internal form: empty raw bytes denote an
/// unbounded side and become `None`, anything else is encoded.
pub fn bound_from_raw(raw: &Vec<u8>) -> (r: Option<Key>)
    ensures
        r.deep_view() == bound_of_raw(raw@),
        r matches Some(k) ==> key_wf(k@),
{
    if raw.len() == 0 {
        None
    } else {
        Some(Key::from_raw(raw))
    }
}

/// Turns an internal bound back into raw bytes: `None` becomes the empty
/// raw key. Fails only on a key that is not a valid encoding.
pub fn bound_into_raw(b: Option<Key>) -> (r: Option<Vec<u8>>)
    ensures
        b is None ==> (r matches Some(v) && v@ == Seq::<u8>::empty()),
        b matches Some(k) ==> (if key_wf(k@) {
            r matches Some(v) && Some(v@) == decoded(k@)
        } else {
            r is None
        }),
{
    match b {
        None => Some(Vec::new()),
        Some(k) => k.into_raw(),
    }
}

} // verus!
