//! Content-addressed cache keys for diagram artifacts.
//!
//! The key of a block is a digest over its raw source, its preamble when
//! present, and its requested format, each length-framed so that distinct
//! inputs produce distinct digest inputs.  Two blocks with identical inputs
//! always share a key; the cache file is named `key.extension`.

use vstd::prelude::*;
use vstd::bytes::{spec_u64_to_le_bytes, u64_to_le_bytes};
use vstd::string::StrSliceExecFns;
use vstd::string::StringExecFns;
use vstd::utf8::encode_utf8;
use sha2::{Digest, Sha256};
use crate::extract::TikzBlockMeta;
use crate::fence::opt_view;

verus! {

/// The SHA-256 digest of a byte sequence, as the external hash computes it.
pub uninterp spec fn spec_sha256(data: Seq<u8>) -> Seq<u8>;

/// Relies on `sha2::Sha256`: the digest is 32 bytes and depends on the
/// input bytes alone.
#[verifier::external_body]
fn sha256_digest(data: &[u8]) -> (r: Vec<u8>)
    ensures
        r@ == spec_sha256(data@),
        r@.len() == 32,
{
    let mut hasher = Sha256::new();
    hasher.update(data);
    hasher.finalize().to_vec()
}

/// The lowercase hex digit for a value below sixteen.
pub open spec fn spec_hex_digit(d: int) -> char {
    if d < 10 {
        crate::strutil::spec_digit_char(d)
    } else if d == 10 {
        'a'
    } else if d == 11 {
        'b'
    } else if d == 12 {
        'c'
    } else if d == 13 {
        'd'
    } else if d == 14 {
        'e'
    } else {
        'f'
    }
}

/// The lowercase hex encoding of a byte sequence: two digits per byte, high
/// digit first, in byte order.
pub open spec fn spec_hex_lower(data: Seq<u8>) -> Seq<char>
    decreases data.len(),
{
    if data.len() == 0 {
        Seq::<char>::empty()
    } else {
        spec_hex_lower(data.drop_last()) + seq![
            spec_hex_digit(data.last() as int / 16),
            spec_hex_digit(data.last() as int % 16),
        ]
    }
}

/// Relies on `hex::encode`: each byte becomes exactly two lowercase hex
/// digits, in byte order.
#[verifier::external_body]
fn hex_encode(data: &[u8]) -> (r: String)
    ensures
        r@ == spec_hex_lower(data@),
{
    hex::encode(data)
}

/// The length-framed digest input of a block: each ingredient is preceded by
/// its 8-byte little-endian length, and the optional preamble by a presence
/// byte, so distinct ingredient triples give distinct inputs.
pub open spec fn spec_key_input(src: Seq<u8>, pre: Option<Seq<u8>>, fmt: Seq<u8>) -> Seq<u8> {
    spec_u64_to_le_bytes(src.len() as u64) + src + (match pre {
        Some(p) => seq![1u8] + spec_u64_to_le_bytes(p.len() as u64) + p,
        None => seq![0u8],
    }) + spec_u64_to_le_bytes(fmt.len() as u64) + fmt
}

/// The encoded form of an optional string.
pub open spec fn opt_bytes(o: Option<Seq<char>>) -> Option<Seq<u8>> {
    match o {
        Some(s) => Some(encode_utf8(s)),
        None => None,
    }
}

/// The cache key of a block with the given source, preamble and format: the
/// lowercase hex form of the digest over the framed ingredients.
pub open spec fn spec_cache_key(
    src: Seq<char>,
    pre: Option<Seq<char>>,
    fmt: Seq<char>,
) -> Seq<char> {
    spec_hex_lower(
        spec_sha256(spec_key_input(encode_utf8(src), opt_bytes(pre), encode_utf8(fmt))),
    )
}

fn append_bytes(dst: &mut Vec<u8>, src: &Vec<u8>)
    ensures
        final(dst)@ == old(dst)@ + src@,
{
    let n: usize = src.len();
    let mut i: usize = 0;
    while i < n
        invariant
            0 <= i <= n,
            n == src@.len(),
            dst@ == old(dst)@ + src@.take(i as int),
        decreases n - i,
    {
        dst.push(src[i]);
        proof {
            assert((old(dst)@ + src@.take(i as int)).push(src@[i as int]) =~= old(dst)@
                + src@.take(i + 1));
        }
        i = i + 1;
    }
    proof {
        assert(src@.take(n as int) =~= src@);
    }
}

/// Deterministic content address of one diagram block, computed over its
/// raw source, its preamble when present, and its requested format.
pub fn cache_key(block: &TikzBlockMeta) -> (r: String)
    ensures
        r@ == spec_cache_key(
            block.diagram@,
            opt_view(block.preamble),
            block.asset_extension@,
        ),
{
    let src = block.diagram.as_str().as_bytes_vec();
    let fmt = block.asset_extension.as_str().as_bytes_vec();
    let mut input: Vec<u8> = Vec::new();
    let src_len = u64_to_le_bytes(src.len() as u64);
    append_bytes(&mut input, &src_len);
    append_bytes(&mut input, &src);
    match &block.preamble {
        Some(p) => {
            input.push(1);
            let pb = p.as_str().as_bytes_vec();
            let pre_len = u64_to_le_bytes(pb.len() as u64);
            append_bytes(&mut input, &pre_len);
            append_bytes(&mut input, &pb);
        },
        None => {
            input.push(0);
        },
    }
    let fmt_len = u64_to_le_bytes(fmt.len() as u64);
    append_bytes(&mut input, &fmt_len);
    append_bytes(&mut input, &fmt);
    proof {
        assert(input@ =~= spec_key_input(
            encode_utf8(block.diagram@),
            opt_bytes(opt_view(block.preamble)),
            encode_utf8(block.asset_extension@),
        ));
    }
    let digest = sha256_digest(input.as_slice());
    hex_encode(digest.as_slice())
}

/// The name of a block's cache entry: `key.extension`.
pub open spec fn spec_cache_file_name(b: crate::extract::BlockView) -> Seq<char> {
    spec_cache_key(b.diagram, b.preamble, b.asset_extension) + seq!['.'] + b.asset_extension
}

/// Builds the cache file name of a block.
pub fn cache_file_name(block: &TikzBlockMeta) -> (r: String)
    ensures
        r@ == spec_cache_file_name(block@),
{
    let mut r = cache_key(block);
    crate::strutil::push_char(&mut r, '.');
    r.append(block.asset_extension.as_str());
    proof {
        assert(r@ =~= spec_cache_file_name(block@));
    }
    r
}

proof fn lemma_le_bytes_injective(x: u64, y: u64)
    requires
        spec_u64_to_le_bytes(x) == spec_u64_to_le_bytes(y),
    ensures
        x == y,
{
    vstd::bytes::lemma_auto_spec_u64_to_from_le_bytes();
}

/// Framing law: two ingredient triples that differ in any way produce
/// different digest inputs, so two blocks share a cache key only when their
/// source, preamble and format agree (or the digest itself collides, which
/// nothing downstream assumes away for the hash).
pub proof fn lemma_key_input_injective(
    s1: Seq<u8>,
    p1: Option<Seq<u8>>,
    f1: Seq<u8>,
    s2: Seq<u8>,
    p2: Option<Seq<u8>>,
    f2: Seq<u8>,
)
    requires
        s1.len() < u64::MAX,
        s2.len() < u64::MAX,
        f1.len() < u64::MAX,
        f2.len() < u64::MAX,
        (p1 matches Some(p) ==> p.len() < u64::MAX),
        (p2 matches Some(p) ==> p.len() < u64::MAX),
        spec_key_input(s1, p1, f1) == spec_key_input(s2, p2, f2),
    ensures
        s1 == s2,
        p1 == p2,
        f1 == f2,
{
    vstd::bytes::lemma_auto_spec_u64_to_from_le_bytes();
    let k1 = spec_key_input(s1, p1, f1);
    let k2 = spec_key_input(s2, p2, f2);
    // The first eight bytes are the source length, so the sources align.
    assert(spec_u64_to_le_bytes(s1.len() as u64) =~= k1.subrange(0, 8));
    assert(spec_u64_to_le_bytes(s2.len() as u64) =~= k2.subrange(0, 8));
    lemma_le_bytes_injective(s1.len() as u64, s2.len() as u64);
    let n = s1.len() as int;
    assert(s1 =~= k1.subrange(8, 8 + n));
    assert(s2 =~= k2.subrange(8, 8 + n));
    assert(s1 == s2);
    // The presence byte distinguishes a missing preamble from any present
    // one.
    let rest1 = k1.subrange(8 + n, k1.len() as int);
    let rest2 = k2.subrange(8 + n, k2.len() as int);
    assert(rest1 == rest2);
    assert(rest1 =~= (match p1 {
        Some(p) => seq![1u8] + spec_u64_to_le_bytes(p.len() as u64) + p,
        None => seq![0u8],
    }) + spec_u64_to_le_bytes(f1.len() as u64) + f1);
    assert(rest2 =~= (match p2 {
        Some(p) => seq![1u8] + spec_u64_to_le_bytes(p.len() as u64) + p,
        None => seq![0u8],
    }) + spec_u64_to_le_bytes(f2.len() as u64) + f2);
    match (p1, p2) {
        (Some(q1), Some(q2)) => {
            assert(spec_u64_to_le_bytes(q1.len() as u64) =~= rest1.subrange(1, 9));
            assert(spec_u64_to_le_bytes(q2.len() as u64) =~= rest2.subrange(1, 9));
            lemma_le_bytes_injective(q1.len() as u64, q2.len() as u64);
            let m = q1.len() as int;
            assert(q1 =~= rest1.subrange(9, 9 + m));
            assert(q2 =~= rest2.subrange(9, 9 + m));
            assert(q1 == q2);
            assert(spec_u64_to_le_bytes(f1.len() as u64) =~= rest1.subrange(9 + m, 17 + m));
            assert(spec_u64_to_le_bytes(f2.len() as u64) =~= rest2.subrange(9 + m, 17 + m));
            lemma_le_bytes_injective(f1.len() as u64, f2.len() as u64);
            let fl = f1.len() as int;
            assert(f1 =~= rest1.subrange(17 + m, 17 + m + fl));
            assert(f2 =~= rest2.subrange(17 + m, 17 + m + fl));
            assert(f1 == f2);
        },
        (None, None) => {
            assert(spec_u64_to_le_bytes(f1.len() as u64) =~= rest1.subrange(1, 9));
            assert(spec_u64_to_le_bytes(f2.len() as u64) =~= rest2.subrange(1, 9));
            lemma_le_bytes_injective(f1.len() as u64, f2.len() as u64);
            let fl = f1.len() as int;
            assert(f1 =~= rest1.subrange(9, 9 + fl));
            assert(f2 =~= rest2.subrange(9, 9 + fl));
            assert(f1 == f2);
        },
        (Some(q1), None) => {
            assert(rest1[0] == 1u8);
            assert(rest2[0] == 0u8);
        },
        (None, Some(q2)) => {
            assert(rest1[0] == 0u8);
            assert(rest2[0] == 1u8);
        },
    }
}

/// Key determinism law: the cache key is a function of the raw source, the
/// preamble and the requested format alone — equal ingredients always give
/// equal keys, across any number of calls.
pub proof fn lemma_cache_key_deterministic(
    s1: Seq<char>,
    p1: Option<Seq<char>>,
    f1: Seq<char>,
    s2: Seq<char>,
    p2: Option<Seq<char>>,
    f2: Seq<char>,
)
    requires
        s1 == s2,
        p1 == p2,
        f1 == f2,
    ensures
        spec_cache_key(s1, p1, f1) == spec_cache_key(s2, p2, f2),
{
}

} // verus!
