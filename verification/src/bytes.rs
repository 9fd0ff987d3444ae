//! Byte-string primitives shared by the storage and continuity layers:
//! big-endian integer encodings, byte-wise comparison, and prefix tests.

use vstd::prelude::*;

verus! {

/// The two big-endian bytes of a 16-bit integer.
pub open spec fn be16(v: u16) -> Seq<u8> {
    seq![((v >> 8) & 0xff) as u8, (v & 0xff) as u8]
}

/// The eight big-endian bytes of a 64-bit integer.
pub open spec fn be64(v: u64) -> Seq<u8> {
    seq![
        ((v >> 56) & 0xff) as u8,
        ((v >> 48) & 0xff) as u8,
        ((v >> 40) & 0xff) as u8,
        ((v >> 32) & 0xff) as u8,
        ((v >> 24) & 0xff) as u8,
        ((v >> 16) & 0xff) as u8,
        ((v >> 8) & 0xff) as u8,
        (v & 0xff) as u8,
    ]
}

/// Big-endian encoding of a 16-bit integer.
pub fn be_bytes_u16(v: u16) -> (r: Vec<u8>)
    ensures
        r@ == be16(v),
{
    let r: Vec<u8> = vec![((v >> 8) & 0xff) as u8, (v & 0xff) as u8];
    proof {
        assert(r@ =~= be16(v));
    }
    r
}

/// Big-endian encoding of a 64-bit integer.
pub fn be_bytes_u64(v: u64) -> (r: Vec<u8>)
    ensures
        r@ == be64(v),
{
    let r: Vec<u8> = vec![
        ((v >> 56) & 0xff) as u8,
        ((v >> 48) & 0xff) as u8,
        ((v >> 40) & 0xff) as u8,
        ((v >> 32) & 0xff) as u8,
        ((v >> 24) & 0xff) as u8,
        ((v >> 16) & 0xff) as u8,
        ((v >> 8) & 0xff) as u8,
        (v & 0xff) as u8,
    ];
    proof {
        assert(r@ =~= be64(v));
    }
    r
}

/// The four big-endian bytes of a 32-bit integer.
pub open spec fn be32(v: u32) -> Seq<u8> {
    seq![
        ((v >> 24) & 0xff) as u8,
        ((v >> 16) & 0xff) as u8,
        ((v >> 8) & 0xff) as u8,
        (v & 0xff) as u8,
    ]
}

/// Big-endian encoding of a 32-bit integer.
pub fn be_bytes_u32(v: u32) -> (r: Vec<u8>)
    ensures
        r@ == be32(v),
{
    let r: Vec<u8> = vec![
        ((v >> 24) & 0xff) as u8,
        ((v >> 16) & 0xff) as u8,
        ((v >> 8) & 0xff) as u8,
        (v & 0xff) as u8,
    ];
    proof {
        assert(r@ =~= be32(v));
    }
    r
}

/// Equal big-endian 64-bit encodings come from equal integers.
pub proof fn lemma_be64_injective(v1: u64, v2: u64)
    requires
        be64(v1) == be64(v2),
    ensures
        v1 == v2,
{
    assert(be64(v1)[0] == be64(v2)[0]);
    assert(be64(v1)[1] == be64(v2)[1]);
    assert(be64(v1)[2] == be64(v2)[2]);
    assert(be64(v1)[3] == be64(v2)[3]);
    assert(be64(v1)[4] == be64(v2)[4]);
    assert(be64(v1)[5] == be64(v2)[5]);
    assert(be64(v1)[6] == be64(v2)[6]);
    assert(be64(v1)[7] == be64(v2)[7]);
    assert(v1 == v2) by (bit_vector)
        requires
            (((v1 >> 56) & 0xff) as u8) == (((v2 >> 56) & 0xff) as u8),
            (((v1 >> 48) & 0xff) as u8) == (((v2 >> 48) & 0xff) as u8),
            (((v1 >> 40) & 0xff) as u8) == (((v2 >> 40) & 0xff) as u8),
            (((v1 >> 32) & 0xff) as u8) == (((v2 >> 32) & 0xff) as u8),
            (((v1 >> 24) & 0xff) as u8) == (((v2 >> 24) & 0xff) as u8),
            (((v1 >> 16) & 0xff) as u8) == (((v2 >> 16) & 0xff) as u8),
            (((v1 >> 8) & 0xff) as u8) == (((v2 >> 8) & 0xff) as u8),
            ((v1 & 0xff) as u8) == ((v2 & 0xff) as u8),
    ;
}

/// Byte-wise equality of two byte strings.
pub fn bytes_eq(a: &[u8], b: &[u8]) -> (r: bool)
    ensures
        r <==> a@ == b@,
{
    if a.len() != b.len() {
        return false;
    }
    let mut i: usize = 0;
    while i < a.len()
        invariant
            0 <= i <= a@.len(),
            a@.len() == b@.len(),
            forall|j: int| 0 <= j < i ==> a@[j] == b@[j],
        decreases a@.len() - i,
    {
        if a[i] != b[i] {
            return false;
        }
        i = i + 1;
    }
    proof {
        assert(a@ =~= b@);
    }
    true
}

/// True when `p` is a prefix of `s`.
pub open spec fn is_prefix_of(p: Seq<u8>, s: Seq<u8>) -> bool {
    p.len() <= s.len() && s.subrange(0, p.len() as int) == p
}

/// Byte-wise prefix test: does `s` start with `p`?
pub fn starts_with(s: &[u8], p: &[u8]) -> (r: bool)
    ensures
        r <==> is_prefix_of(p@, s@),
{
    if p.len() > s.len() {
        return false;
    }
    let mut i: usize = 0;
    while i < p.len()
        invariant
            0 <= i <= p@.len(),
            p@.len() <= s@.len(),
            forall|j: int| 0 <= j < i ==> s@[j] == p@[j],
        decreases p@.len() - i,
    {
        if s[i] != p[i] {
            proof {
                assert(!is_prefix_of(p@, s@)) by {
                    if is_prefix_of(p@, s@) {
                        assert(s@.subrange(0, p@.len() as int)[i as int] == p@[i as int]);
                    }
                }
            }
            return false;
        }
        i = i + 1;
    }
    proof {
        assert(s@.subrange(0, p@.len() as int) =~= p@);
    }
    true
}

/// Two byte strings diverge when some position below both lengths holds
/// different bytes there; neither can then be a prefix of the other.
pub open spec fn diverge_at(a: Seq<u8>, b: Seq<u8>, i: int) -> bool {
    0 <= i < a.len() && i < b.len() && a[i] != b[i]
}

/// Byte strings that diverge are prefix-incomparable.
pub proof fn lemma_diverge_not_prefix(a: Seq<u8>, b: Seq<u8>, i: int)
    requires
        diverge_at(a, b, i),
    ensures
        !is_prefix_of(a, b),
        !is_prefix_of(b, a),
{
    if is_prefix_of(a, b) {
        assert(b.subrange(0, a.len() as int)[i] == a[i]);
    }
    if is_prefix_of(b, a) {
        assert(a.subrange(0, b.len() as int)[i] == b[i]);
    }
}

/// Concatenations of prefix-incomparable or equal heads are equal only
/// when the heads are equal and the tails are equal.
pub proof fn lemma_cat_inj(a1: Seq<u8>, t1: Seq<u8>, a2: Seq<u8>, t2: Seq<u8>)
    requires
        a1 == a2 || (!is_prefix_of(a1, a2) && !is_prefix_of(a2, a1)),
        a1 + t1 == a2 + t2,
    ensures
        a1 == a2,
        t1 == t2,
{
    if a1.len() <= a2.len() {
        assert(a2.subrange(0, a1.len() as int) =~= (a1 + t1).subrange(0, a1.len() as int));
        assert((a1 + t1).subrange(0, a1.len() as int) =~= a1);
        assert(is_prefix_of(a1, a2));
        assert(a1 =~= a2);
    } else {
        assert(a1.subrange(0, a2.len() as int) =~= (a2 + t2).subrange(0, a2.len() as int));
        assert((a2 + t2).subrange(0, a2.len() as int) =~= a2);
        assert(is_prefix_of(a2, a1));
    }
    assert((a1 + t1).len() == a1.len() + t1.len());
    assert((a2 + t2).len() == a2.len() + t2.len());
    assert(t1.len() == t2.len());
    assert forall|j: int| 0 <= j < t1.len() implies t1[j] == t2[j] by {
        assert((a1 + t1)[a1.len() + j] == t1[j]);
        assert((a2 + t2)[a2.len() + j] == t2[j]);
    }
    assert(t1 =~= t2);
}

} // verus!
