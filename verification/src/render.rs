//! Rendering structural cache keys into flat byte-string keys for the
//! transport, with a proved no-collision guarantee.
//!
//! After the generator's namespace prefix, a key holds a shape byte and its
//! numeric components as fixed-width hexadecimal, the path digest, and (for
//! a chunk) the pointer last.  Every component is therefore recoverable
//! from its position, so under one generator no two distinct logical keys
//! render to the same byte string.

use vstd::prelude::*;

use crate::keys::CacheKey;
use crate::keys::CacheKeyView;

verus! {

/// Shape byte of a rendered point key.
pub const SHAPE_POINT: u8 = 112;

/// Shape byte of a rendered list-root key.
pub const SHAPE_ROOT: u8 = 114;

/// Shape byte of a rendered list-chunk key.
pub const SHAPE_CHUNK: u8 = 99;

/// One hexadecimal digit for the low nibble of `v`.
pub open spec fn hex_digit(v: u64) -> u8 {
    if v % 16 < 10 {
        (48 + v % 16) as u8
    } else {
        (87 + v % 16) as u8
    }
}

/// A 64-bit value as sixteen hexadecimal digits, most significant first.
pub open spec fn hex16(v: u64) -> Seq<u8> {
    Seq::new(16, |i: int| hex_digit(v >> ((60 - 4 * i) as u64)))
}

/// The 64-bit pattern of a repository identifier.
pub open spec fn repo_bits(r: i32) -> u64 {
    r as u64
}

/// The 64-bit pattern of a chunk pointer.
pub open spec fn pointer_bits(p: i64) -> u64 {
    p as u64
}

/// The namespace prefix of a key, common to every key of one generator.
pub open spec fn key_prefix(k: CacheKeyView) -> Seq<u8> {
    match k {
        CacheKeyView::Point { prefix, .. } => prefix,
        CacheKeyView::Root { prefix, .. } => prefix,
        CacheKeyView::Chunk { prefix, .. } => prefix,
    }
}

/// The rendered tail of a key: everything after the namespace prefix.
pub open spec fn spec_render_tail(k: CacheKeyView) -> Seq<u8> {
    match k {
        CacheKeyView::Point { prefix, codever, sitever, repo_id, filenode, digest } => seq![
            SHAPE_POINT,
        ] + hex16(codever as u64) + hex16(sitever as u64) + hex16(repo_bits(repo_id)) + hex16(
            filenode,
        ) + digest,
        CacheKeyView::Root { prefix, codever, sitever, repo_id, digest } => seq![SHAPE_ROOT]
            + hex16(codever as u64) + hex16(sitever as u64) + hex16(repo_bits(repo_id)) + digest,
        CacheKeyView::Chunk { prefix, codever, sitever, repo_id, digest, pointer } => seq![
            SHAPE_CHUNK,
        ] + hex16(codever as u64) + hex16(sitever as u64) + hex16(repo_bits(repo_id)) + digest
            + hex16(pointer_bits(pointer)),
    }
}

/// The full rendered key.
pub open spec fn spec_render_key(k: CacheKeyView) -> Seq<u8> {
    key_prefix(k) + spec_render_tail(k)
}

proof fn lemma_hex_digit_inj(x: u64, y: u64)
    requires
        hex_digit(x) == hex_digit(y),
    ensures
        x % 16 == y % 16,
{
}

proof fn lemma_hex16_inj(a: u64, b: u64)
    requires
        hex16(a) == hex16(b),
    ensures
        a == b,
{
    assert((a >> 60u64) % 16 == (b >> 60u64) % 16) by {
        assert(hex16(a)[0] == hex_digit(a >> ((60 - 4 * 0) as u64)));
        assert(hex16(b)[0] == hex_digit(b >> ((60 - 4 * 0) as u64)));
        assert(hex16(a)[0] == hex16(b)[0]);
        lemma_hex_digit_inj(a >> ((60 - 4 * 0) as u64), b >> ((60 - 4 * 0) as u64));
    }
    assert((a >> 56u64) % 16 == (b >> 56u64) % 16) by {
        assert(hex16(a)[1] == hex_digit(a >> ((60 - 4 * 1) as u64)));
        assert(hex16(b)[1] == hex_digit(b >> ((60 - 4 * 1) as u64)));
        assert(hex16(a)[1] == hex16(b)[1]);
        lemma_hex_digit_inj(a >> ((60 - 4 * 1) as u64), b >> ((60 - 4 * 1) as u64));
    }
    assert((a >> 52u64) % 16 == (b >> 52u64) % 16) by {
        assert(hex16(a)[2] == hex_digit(a >> ((60 - 4 * 2) as u64)));
        assert(hex16(b)[2] == hex_digit(b >> ((60 - 4 * 2) as u64)));
        assert(hex16(a)[2] == hex16(b)[2]);
        lemma_hex_digit_inj(a >> ((60 - 4 * 2) as u64), b >> ((60 - 4 * 2) as u64));
    }
    assert((a >> 48u64) % 16 == (b >> 48u64) % 16) by {
        assert(hex16(a)[3] == hex_digit(a >> ((60 - 4 * 3) as u64)));
        assert(hex16(b)[3] == hex_digit(b >> ((60 - 4 * 3) as u64)));
        assert(hex16(a)[3] == hex16(b)[3]);
        lemma_hex_digit_inj(a >> ((60 - 4 * 3) as u64), b >> ((60 - 4 * 3) as u64));
    }
    assert((a >> 44u64) % 16 == (b >> 44u64) % 16) by {
        assert(hex16(a)[4] == hex_digit(a >> ((60 - 4 * 4) as u64)));
        assert(hex16(b)[4] == hex_digit(b >> ((60 - 4 * 4) as u64)));
        assert(hex16(a)[4] == hex16(b)[4]);
        lemma_hex_digit_inj(a >> ((60 - 4 * 4) as u64), b >> ((60 - 4 * 4) as u64));
    }
    assert((a >> 40u64) % 16 == (b >> 40u64) % 16) by {
        assert(hex16(a)[5] == hex_digit(a >> ((60 - 4 * 5) as u64)));
        assert(hex16(b)[5] == hex_digit(b >> ((60 - 4 * 5) as u64)));
        assert(hex16(a)[5] == hex16(b)[5]);
        lemma_hex_digit_inj(a >> ((60 - 4 * 5) as u64), b >> ((60 - 4 * 5) as u64));
    }
    assert((a >> 36u64) % 16 == (b >> 36u64) % 16) by {
        assert(hex16(a)[6] == hex_digit(a >> ((60 - 4 * 6) as u64)));
        assert(hex16(b)[6] == hex_digit(b >> ((60 - 4 * 6) as u64)));
        assert(hex16(a)[6] == hex16(b)[6]);
        lemma_hex_digit_inj(a >> ((60 - 4 * 6) as u64), b >> ((60 - 4 * 6) as u64));
    }
    assert((a >> 32u64) % 16 == (b >> 32u64) % 16) by {
        assert(hex16(a)[7] == hex_digit(a >> ((60 - 4 * 7) as u64)));
        assert(hex16(b)[7] == hex_digit(b >> ((60 - 4 * 7) as u64)));
        assert(hex16(a)[7] == hex16(b)[7]);
        lemma_hex_digit_inj(a >> ((60 - 4 * 7) as u64), b >> ((60 - 4 * 7) as u64));
    }
    assert((a >> 28u64) % 16 == (b >> 28u64) % 16) by {
        assert(hex16(a)[8] == hex_digit(a >> ((60 - 4 * 8) as u64)));
        assert(hex16(b)[8] == hex_digit(b >> ((60 - 4 * 8) as u64)));
        assert(hex16(a)[8] == hex16(b)[8]);
        lemma_hex_digit_inj(a >> ((60 - 4 * 8) as u64), b >> ((60 - 4 * 8) as u64));
    }
    assert((a >> 24u64) % 16 == (b >> 24u64) % 16) by {
        assert(hex16(a)[9] == hex_digit(a >> ((60 - 4 * 9) as u64)));
        assert(hex16(b)[9] == hex_digit(b >> ((60 - 4 * 9) as u64)));
        assert(hex16(a)[9] == hex16(b)[9]);
        lemma_hex_digit_inj(a >> ((60 - 4 * 9) as u64), b >> ((60 - 4 * 9) as u64));
    }
    assert((a >> 20u64) % 16 == (b >> 20u64) % 16) by {
        assert(hex16(a)[10] == hex_digit(a >> ((60 - 4 * 10) as u64)));
        assert(hex16(b)[10] == hex_digit(b >> ((60 - 4 * 10) as u64)));
        assert(hex16(a)[10] == hex16(b)[10]);
        lemma_hex_digit_inj(a >> ((60 - 4 * 10) as u64), b >> ((60 - 4 * 10) as u64));
    }
    assert((a >> 16u64) % 16 == (b >> 16u64) % 16) by {
        assert(hex16(a)[11] == hex_digit(a >> ((60 - 4 * 11) as u64)));
        assert(hex16(b)[11] == hex_digit(b >> ((60 - 4 * 11) as u64)));
        assert(hex16(a)[11] == hex16(b)[11]);
        lemma_hex_digit_inj(a >> ((60 - 4 * 11) as u64), b >> ((60 - 4 * 11) as u64));
    }
    assert((a >> 12u64) % 16 == (b >> 12u64) % 16) by {
        assert(hex16(a)[12] == hex_digit(a >> ((60 - 4 * 12) as u64)));
        assert(hex16(b)[12] == hex_digit(b >> ((60 - 4 * 12) as u64)));
        assert(hex16(a)[12] == hex16(b)[12]);
        lemma_hex_digit_inj(a >> ((60 - 4 * 12) as u64), b >> ((60 - 4 * 12) as u64));
    }
    assert((a >> 8u64) % 16 == (b >> 8u64) % 16) by {
        assert(hex16(a)[13] == hex_digit(a >> ((60 - 4 * 13) as u64)));
        assert(hex16(b)[13] == hex_digit(b >> ((60 - 4 * 13) as u64)));
        assert(hex16(a)[13] == hex16(b)[13]);
        lemma_hex_digit_inj(a >> ((60 - 4 * 13) as u64), b >> ((60 - 4 * 13) as u64));
    }
    assert((a >> 4u64) % 16 == (b >> 4u64) % 16) by {
        assert(hex16(a)[14] == hex_digit(a >> ((60 - 4 * 14) as u64)));
        assert(hex16(b)[14] == hex_digit(b >> ((60 - 4 * 14) as u64)));
        assert(hex16(a)[14] == hex16(b)[14]);
        lemma_hex_digit_inj(a >> ((60 - 4 * 14) as u64), b >> ((60 - 4 * 14) as u64));
    }
    assert((a >> 0u64) % 16 == (b >> 0u64) % 16) by {
        assert(hex16(a)[15] == hex_digit(a >> ((60 - 4 * 15) as u64)));
        assert(hex16(b)[15] == hex_digit(b >> ((60 - 4 * 15) as u64)));
        assert(hex16(a)[15] == hex16(b)[15]);
        lemma_hex_digit_inj(a >> ((60 - 4 * 15) as u64), b >> ((60 - 4 * 15) as u64));
    }
    assert(a == b) by (bit_vector)
        requires
            (a >> 60u64) % 16 == (b >> 60u64) % 16,
            (a >> 56u64) % 16 == (b >> 56u64) % 16,
            (a >> 52u64) % 16 == (b >> 52u64) % 16,
            (a >> 48u64) % 16 == (b >> 48u64) % 16,
            (a >> 44u64) % 16 == (b >> 44u64) % 16,
            (a >> 40u64) % 16 == (b >> 40u64) % 16,
            (a >> 36u64) % 16 == (b >> 36u64) % 16,
            (a >> 32u64) % 16 == (b >> 32u64) % 16,
            (a >> 28u64) % 16 == (b >> 28u64) % 16,
            (a >> 24u64) % 16 == (b >> 24u64) % 16,
            (a >> 20u64) % 16 == (b >> 20u64) % 16,
            (a >> 16u64) % 16 == (b >> 16u64) % 16,
            (a >> 12u64) % 16 == (b >> 12u64) % 16,
            (a >> 8u64) % 16 == (b >> 8u64) % 16,
            (a >> 4u64) % 16 == (b >> 4u64) % 16,
            (a >> 0u64) % 16 == (b >> 0u64) % 16,
    ;
}

proof fn lemma_repo_bits_inj(a: i32, b: i32)
    requires
        repo_bits(a) == repo_bits(b),
    ensures
        a == b,
{
    assert(a == b) by (bit_vector)
        requires
            (a as u64) == (b as u64),
    ;
}

proof fn lemma_pointer_bits_inj(a: i64, b: i64)
    requires
        pointer_bits(a) == pointer_bits(b),
    ensures
        a == b,
{
    assert(a == b) by (bit_vector)
        requires
            (a as u64) == (b as u64),
    ;
}


/// Under one generator, rendering is injective: two logical keys with the
/// same namespace prefix that render to the same byte string are the same
/// key.  This is the key-naming scheme's no-collision contract.
#[verifier::rlimit(100)]
pub proof fn lemma_render_key_injective(a: CacheKeyView, b: CacheKeyView)
    requires
        key_prefix(a) == key_prefix(b),
        spec_render_key(a) == spec_render_key(b),
    ensures
        a == b,
{
    let p = key_prefix(a);
    let ta = spec_render_tail(a);
    let tb = spec_render_tail(b);
    assert((p + ta).len() == (p + tb).len());
    assert(ta =~= tb) by {
        assert forall|i: int| 0 <= i < ta.len() implies #[trigger] ta[i] == tb[i] by {
            assert((p + ta)[p.len() + i] == ta[i]);
            assert((p + tb)[p.len() + i] == tb[i]);
        }
    }
    match (a, b) {
        (
            CacheKeyView::Point { codever: ca, sitever: sa, repo_id: ra, filenode: fa, digest: da, .. },
            CacheKeyView::Point { codever: cb, sitever: sb, repo_id: rb, filenode: fb, digest: db, .. },
        ) => {
            assert(hex16(ca as u64) =~= hex16(cb as u64)) by {
                assert forall|i: int| 0 <= i < 16 implies #[trigger] hex16(ca as u64)[i] == hex16(
                    cb as u64,
                )[i] by {
                    assert(ta[1 + i] == hex16(ca as u64)[i]);
                    assert(tb[1 + i] == hex16(cb as u64)[i]);
                }
            }
            lemma_hex16_inj(ca as u64, cb as u64);
            assert(hex16(sa as u64) =~= hex16(sb as u64)) by {
                assert forall|i: int| 0 <= i < 16 implies #[trigger] hex16(sa as u64)[i] == hex16(
                    sb as u64,
                )[i] by {
                    assert(ta[17 + i] == hex16(sa as u64)[i]);
                    assert(tb[17 + i] == hex16(sb as u64)[i]);
                }
            }
            lemma_hex16_inj(sa as u64, sb as u64);
            assert(hex16(repo_bits(ra)) =~= hex16(repo_bits(rb))) by {
                assert forall|i: int| 0 <= i < 16 implies #[trigger] hex16(repo_bits(ra))[i] == hex16(
                    repo_bits(rb),
                )[i] by {
                    assert(ta[33 + i] == hex16(repo_bits(ra))[i]);
                    assert(tb[33 + i] == hex16(repo_bits(rb))[i]);
                }
            }
            lemma_hex16_inj(repo_bits(ra), repo_bits(rb));
            lemma_repo_bits_inj(ra, rb);
            assert(hex16(fa) =~= hex16(fb)) by {
                assert forall|i: int| 0 <= i < 16 implies #[trigger] hex16(fa)[i] == hex16(fb)[i] by {
                    assert(ta[49 + i] == hex16(fa)[i]);
                    assert(tb[49 + i] == hex16(fb)[i]);
                }
            }
            lemma_hex16_inj(fa, fb);
            assert(da =~= db) by {
                assert(ta.len() == 65 + da.len());
                assert(tb.len() == 65 + db.len());
                assert forall|i: int| 0 <= i < da.len() implies #[trigger] da[i] == db[i] by {
                    assert(ta[65 + i] == da[i]);
                    assert(tb[65 + i] == db[i]);
                }
            }
        }
        (
            CacheKeyView::Root { codever: ca, sitever: sa, repo_id: ra, digest: da, .. },
            CacheKeyView::Root { codever: cb, sitever: sb, repo_id: rb, digest: db, .. },
        ) => {
            assert(hex16(ca as u64) =~= hex16(cb as u64)) by {
                assert forall|i: int| 0 <= i < 16 implies #[trigger] hex16(ca as u64)[i] == hex16(
                    cb as u64,
                )[i] by {
                    assert(ta[1 + i] == hex16(ca as u64)[i]);
                    assert(tb[1 + i] == hex16(cb as u64)[i]);
                }
            }
            lemma_hex16_inj(ca as u64, cb as u64);
            assert(hex16(sa as u64) =~= hex16(sb as u64)) by {
                assert forall|i: int| 0 <= i < 16 implies #[trigger] hex16(sa as u64)[i] == hex16(
                    sb as u64,
                )[i] by {
                    assert(ta[17 + i] == hex16(sa as u64)[i]);
                    assert(tb[17 + i] == hex16(sb as u64)[i]);
                }
            }
            lemma_hex16_inj(sa as u64, sb as u64);
            assert(hex16(repo_bits(ra)) =~= hex16(repo_bits(rb))) by {
                assert forall|i: int| 0 <= i < 16 implies #[trigger] hex16(repo_bits(ra))[i] == hex16(
                    repo_bits(rb),
                )[i] by {
                    assert(ta[33 + i] == hex16(repo_bits(ra))[i]);
                    assert(tb[33 + i] == hex16(repo_bits(rb))[i]);
                }
            }
            lemma_hex16_inj(repo_bits(ra), repo_bits(rb));
            lemma_repo_bits_inj(ra, rb);
            assert(da =~= db) by {
                assert(ta.len() == 49 + da.len());
                assert(tb.len() == 49 + db.len());
                assert forall|i: int| 0 <= i < da.len() implies #[trigger] da[i] == db[i] by {
                    assert(ta[49 + i] == da[i]);
                    assert(tb[49 + i] == db[i]);
                }
            }
        }
        (
            CacheKeyView::Chunk { codever: ca, sitever: sa, repo_id: ra, digest: da, pointer: qa, .. },
            CacheKeyView::Chunk { codever: cb, sitever: sb, repo_id: rb, digest: db, pointer: qb, .. },
        ) => {
            assert(hex16(ca as u64) =~= hex16(cb as u64)) by {
                assert forall|i: int| 0 <= i < 16 implies #[trigger] hex16(ca as u64)[i] == hex16(
                    cb as u64,
                )[i] by {
                    assert(ta[1 + i] == hex16(ca as u64)[i]);
                    assert(tb[1 + i] == hex16(cb as u64)[i]);
                }
            }
            lemma_hex16_inj(ca as u64, cb as u64);
            assert(hex16(sa as u64) =~= hex16(sb as u64)) by {
                assert forall|i: int| 0 <= i < 16 implies #[trigger] hex16(sa as u64)[i] == hex16(
                    sb as u64,
                )[i] by {
                    assert(ta[17 + i] == hex16(sa as u64)[i]);
                    assert(tb[17 + i] == hex16(sb as u64)[i]);
                }
            }
            lemma_hex16_inj(sa as u64, sb as u64);
            assert(hex16(repo_bits(ra)) =~= hex16(repo_bits(rb))) by {
                assert forall|i: int| 0 <= i < 16 implies #[trigger] hex16(repo_bits(ra))[i] == hex16(
                    repo_bits(rb),
                )[i] by {
                    assert(ta[33 + i] == hex16(repo_bits(ra))[i]);
                    assert(tb[33 + i] == hex16(repo_bits(rb))[i]);
                }
            }
            lemma_hex16_inj(repo_bits(ra), repo_bits(rb));
            lemma_repo_bits_inj(ra, rb);
            assert(ta.len() == 65 + da.len());
            assert(tb.len() == 65 + db.len());
            assert(da.len() == db.len());
            assert(da =~= db) by {
                assert forall|i: int| 0 <= i < da.len() implies #[trigger] da[i] == db[i] by {
                    assert(ta[49 + i] == da[i]);
                    assert(tb[49 + i] == db[i]);
                }
            }
            assert(hex16(pointer_bits(qa)) =~= hex16(pointer_bits(qb))) by {
                assert forall|i: int| 0 <= i < 16 implies #[trigger] hex16(pointer_bits(qa))[i] == hex16(
                    pointer_bits(qb),
                )[i] by {
                    assert(ta[49 + da.len() + i] == hex16(pointer_bits(qa))[i]);
                    assert(tb[49 + db.len() + i] == hex16(pointer_bits(qb))[i]);
                }
            }
            lemma_hex16_inj(pointer_bits(qa), pointer_bits(qb));
            lemma_pointer_bits_inj(qa, qb);
        }
        _ => {
            assert(ta[0] == tb[0]);
            assert(false);
        }
    }
}


fn push_hex16(out: &mut Vec<u8>, v: u64)
    ensures
        final(out)@ == old(out)@ + hex16(v),
{
    let ghost out0: Seq<u8> = out@;
    proof {
        assert(out@ =~= out0 + hex16(v).take(0));
    }
    let mut i: usize = 0;
    while i < 16
        invariant
            i <= 16,
            out@ == out0 + hex16(v).take(i as int),
        decreases 16 - i,
    {
        let sh: u64 = (60 - 4 * i) as u64;
        let x: u64 = v >> sh;
        let d: u8 = if x % 16 < 10 {
            (48 + x % 16) as u8
        } else {
            (87 + x % 16) as u8
        };
        proof {
            assert(sh == (60 - 4 * (i as int)) as u64);
            assert(hex16(v)[i as int] == hex_digit(v >> ((60 - 4 * (i as int)) as u64)));
            assert(d == hex_digit(x));
        }
        out.push(d);
        proof {
            assert(hex16(v).take(i as int + 1) =~= hex16(v).take(i as int).push(
                hex16(v)[i as int],
            ));
            assert(out@ =~= out0 + hex16(v).take(i as int + 1));
        }
        i = i + 1;
    }
    assert(hex16(v).take(16) =~= hex16(v));
}

/// Render a key into the flat byte string stored by the transport.
pub fn render_key(key: &CacheKey) -> (r: Vec<u8>)
    ensures
        r@ == spec_render_key(key@),
{
    match key {
        CacheKey::Point { prefix, codever, sitever, repo_id, filenode, digest } => {
            let mut out = crate::keys::clone_bytes(prefix);
            out.push(SHAPE_POINT);
            push_hex16(&mut out, *codever as u64);
            push_hex16(&mut out, *sitever as u64);
            push_hex16(&mut out, #[verifier::truncate] (*repo_id as u64));
            push_hex16(&mut out, *filenode);
            crate::codec::push_slice(&mut out, digest);
            assert(out@ =~= spec_render_key(key@));
            out
        }
        CacheKey::Root { prefix, codever, sitever, repo_id, digest } => {
            let mut out = crate::keys::clone_bytes(prefix);
            out.push(SHAPE_ROOT);
            push_hex16(&mut out, *codever as u64);
            push_hex16(&mut out, *sitever as u64);
            push_hex16(&mut out, #[verifier::truncate] (*repo_id as u64));
            crate::codec::push_slice(&mut out, digest);
            assert(out@ =~= spec_render_key(key@));
            out
        }
        CacheKey::Chunk { prefix, codever, sitever, repo_id, digest, pointer } => {
            let mut out = crate::keys::clone_bytes(prefix);
            out.push(SHAPE_CHUNK);
            push_hex16(&mut out, *codever as u64);
            push_hex16(&mut out, *sitever as u64);
            push_hex16(&mut out, #[verifier::truncate] (*repo_id as u64));
            crate::codec::push_slice(&mut out, digest);
            push_hex16(&mut out, #[verifier::truncate] (*pointer as u64));
            assert(out@ =~= spec_render_key(key@));
            out
        }
    }
}

} // verus!
