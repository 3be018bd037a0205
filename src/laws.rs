//! What holds across calls of a codec.
use crate::bytes::{
    last_nonzero_index, lemma_byte_len, lemma_le_bytes_of_value, lemma_le_value_of_bytes,
    le_bytes, le_value,
};
use crate::config::Config;
use crate::codec::{
    frame, lemma_plaintext_len, plaintext, tag, Codec, ErrorModel, MAX_BUFFER, SENTINEL,
    UUID_SETTING,
};
use crate::primitives::{ff1_encrypt, uuid_from_le};
use crate::text::{
    b62_accepts, b62_digit_value, b62_text, b62_value, last_underscore,
    lemma_b62_text, lemma_last_underscore_concat, received_prefix,
};
use vstd::arithmetic::power::pow;
use vstd::prelude::*;

verus! {

/// Zeros after a string whose last byte is not zero leave its last non-zero
/// index where it was.
proof fn lemma_last_nonzero_zeros(q: Seq<u8>, z: nat)
    requires
        q.len() > 0,
        q.last() != 0,
    ensures
        last_nonzero_index(q + Seq::new(z, |i: int| 0u8)) == q.len() - 1,
    decreases z,
{
    let s = q + Seq::new(z, |i: int| 0u8);
    if z == 0 {
        assert(s =~= q);
    } else {
        assert(s.drop_last() =~= q + Seq::new((z - 1) as nat, |i: int| 0u8));
        lemma_last_nonzero_zeros(q, (z - 1) as nat);
    }
}

/// In a framed payload shorter than the buffer, the sentinel is the last
/// non-zero byte and stands right after the payload.
proof fn lemma_frame_sentinel(p: Seq<u8>)
    requires
        p.len() < MAX_BUFFER,
    ensures
        frame(p).len() == MAX_BUFFER,
        last_nonzero_index(frame(p)) == p.len(),
        frame(p)[p.len() as int] == SENTINEL,
        frame(p).take(p.len() as int) == p,
{
    let q = p + seq![SENTINEL];
    let z = (MAX_BUFFER - 1 - p.len()) as nat;
    assert(frame(p) == q + Seq::new(z, |i: int| 0u8));
    lemma_last_nonzero_zeros(q, z);
    assert(frame(p).take(p.len() as int) =~= p);
}

/// The prefix of a token is the codec's prefix, and the rest is the base62
/// text of its packed value.
proof fn lemma_token_parts(prefix: Seq<char>, v: nat)
    requires
        prefix.len() > 0,
        prefix.last() == '_',
    ensures
        received_prefix(prefix + b62_text(v)) == prefix,
        (prefix + b62_text(v)).skip(prefix.len() as int) == b62_text(v),
{
    let t = b62_text(v);
    lemma_b62_text(v);
    assert forall|j: int| 0 <= j < t.len() implies t[j] != '_' by {
        assert(b62_digit_value(t[j]) >= 0);
    }
    lemma_last_underscore_concat(prefix, t);
    assert(last_underscore(prefix) == prefix.len() - 1);
    assert((prefix + t).take(prefix.len() as int) =~= prefix);
    assert((prefix + t).skip(prefix.len() as int) =~= t);
}

/// Round trip: decoding a token that `encode` returned for `n` gives `n`.
pub proof fn lemma_round_trip(c: &Codec, n: u64, s: Seq<char>)
    requires
        c.encodes(n, s),
    ensures
        c.decode_spec(s) == Ok::<u64, ErrorModel>(n),
{
    let fk = c.ff1_key_view();
    let mk = c.mac_key_view();
    let mac = c.mac_len();
    let pad = c.pad_len();
    let pt = plaintext(n, pad);
    let ct = ff1_encrypt(fk, pt);
    let tg = tag(mk, ct, mac);
    let p = ct + tg;
    let k = pt.len();
    lemma_plaintext_len(n, pad);
    assert(tg.len() == mac);
    assert(p.len() == k + mac);
    let b = frame(p);
    if p.len() < MAX_BUFFER {
        lemma_frame_sentinel(p);
    }
    assert(b.len() == MAX_BUFFER);
    let v = le_value(b);
    lemma_le_bytes_of_value(b);
    assert(pow(256, 16) == 0x1_0000_0000_0000_0000_0000_0000_0000_0000) by {
        reveal_with_fuel(pow, 17);
    }
    lemma_token_parts(c.prefix_view(), v);
    lemma_b62_text(v);
    assert(b62_accepts(b62_text(v)));
    assert(le_bytes(b62_value(b62_text(v)), MAX_BUFFER as nat) == b);
    // The payload comes back out of the buffer.
    if mac + pad < MAX_BUFFER {
        assert(mac < 8);
        assert(b.take(last_nonzero_index(b) as int) == p);
    } else {
        assert(mac == 8 && pad == 8);
        assert(b == p);
    }
    // Its ciphertext and tag split where they were joined.
    assert(p.take(p.len() - mac) =~= ct);
    assert(p.skip(p.len() - mac) =~= tg);
    lemma_byte_len(n as nat, k);
    lemma_le_value_of_bytes(n as nat, k);
}

/// Determinism: codecs built from the same name and configuration give the
/// same token, and the same UUID value, for every number.
pub proof fn lemma_deterministic(c1: &Codec, c2: &Codec, name: Seq<char>, config: &Config, n: u64)
    requires
        c1.built_from(name, config),
        c2.built_from(name, config),
    ensures
        c1.token(n) == c2.token(n),
        c1.uuid_value(n) == c2.uuid_value(n),
{
}

/// Prefix isolation: a token of the codec named `a` is refused by the codec
/// named `b`, for any other name `b`, with the received and expected
/// prefixes.
pub proof fn lemma_prefix_isolation(
    ca: &Codec,
    cb: &Codec,
    a: Seq<char>,
    b: Seq<char>,
    config: &Config,
    n: u64,
    s: Seq<char>,
)
    requires
        ca.built_from(a, config),
        cb.built_from(b, config),
        a != b,
        ca.encodes(n, s),
    ensures
        cb.decode_spec(s) == Err::<u64, ErrorModel>(
            ErrorModel::InvalidPrefix { received: a + "_"@, expected: b + "_"@ },
        ),
{
    reveal_strlit("_");
    lemma_token_parts(ca.prefix_view(), ca.packed(n));
    if a + "_"@ == b + "_"@ {
        assert(a =~= (a + "_"@).drop_last());
        assert(b =~= (b + "_"@).drop_last());
    }
}

/// Distinct numbers get distinct UUIDs from one codec: FF1 is a
/// permutation, and the ciphertext fills the UUID's low eight bytes.
pub proof fn lemma_uuid_distinct(c: &Codec, n1: u64, n2: u64, u1: uuid::Uuid, u2: uuid::Uuid)
    requires
        c.encodes_uuid(n1, u1),
        c.encodes_uuid(n2, u2),
        n1 != n2,
    ensures
        u1 != u2,
{
    if u1 == u2 {
        c.lemma_uuid_layout(n1);
        c.lemma_uuid_layout(n2);
        let m = c.uuid_value(n1) as u128;
        assert(uuid_from_le(m) == u2);
        assert(c.uuid_value(n1) == c.uuid_value(n2));
        let b = le_bytes(c.uuid_value(n1), MAX_BUFFER as nat);
        assert(b.take(8) =~= c.uuid_ciphertext(n1));
        assert(b.take(8) =~= c.uuid_ciphertext(n2));
        let k = UUID_SETTING as nat;
        lemma_plaintext_len(n1, k);
        lemma_plaintext_len(n2, k);
        let pt1 = plaintext(n1, k);
        let pt2 = plaintext(n2, k);
        assert(pt1 == pt2);
        lemma_byte_len(n1 as nat, pt1.len());
        lemma_byte_len(n2 as nat, pt2.len());
        lemma_le_value_of_bytes(n1 as nat, pt1.len());
        lemma_le_value_of_bytes(n2 as nat, pt2.len());
    }
}

} // verus!
