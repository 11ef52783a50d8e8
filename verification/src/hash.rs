//! FNV-1a 64-bit hashing and the order-insensitive combination of hash codes.
//!
//! The exact constants and byte orders below are part of the wire contract:
//! two implementations must agree bit for bit on every hash code so that
//! set and multiset equality agree across implementations.
use vstd::prelude::*;

verus! {

/// The 64-bit hash code used throughout the diff engine, as 8 bytes.
pub type HashCode = [u8; 8];

/// FNV-1a offset basis.
pub const FNV_OFFSET_BASIS: u64 = 0xcbf29ce484222325;

/// FNV-1a prime.
pub const FNV_PRIME: u64 = 0x100000001b3;

/// One step of FNV-1a: absorb a byte into the running hash.
pub open spec fn fnv1a_step(h: u64, b: u8) -> u64 {
    mul_wrap64(h ^ (b as u64), FNV_PRIME)
}

/// 64-bit multiplication that wraps, as a specification value.
pub open spec fn mul_wrap64(a: u64, b: u64) -> u64 {
    (((a as nat) * (b as nat)) % 0x10000000000000000) as u64
}

/// FNV-1a over a prefix of a byte sequence.
pub open spec fn fnv1a_prefix(bytes: Seq<u8>, n: int) -> u64
    decreases n,
{
    if n <= 0 {
        FNV_OFFSET_BASIS
    } else {
        fnv1a_step(fnv1a_prefix(bytes, n - 1), bytes[n - 1])
    }
}

/// FNV-1a over a whole byte sequence.
pub open spec fn fnv1a(bytes: Seq<u8>) -> u64 {
    fnv1a_prefix(bytes, bytes.len() as int)
}

/// The 8 little-endian bytes of a 64-bit value.
pub open spec fn le_bytes(h: u64) -> Seq<u8> {
    seq![
        (h & 0xff) as u8,
        ((h >> 8) & 0xff) as u8,
        ((h >> 16) & 0xff) as u8,
        ((h >> 24) & 0xff) as u8,
        ((h >> 32) & 0xff) as u8,
        ((h >> 40) & 0xff) as u8,
        ((h >> 48) & 0xff) as u8,
        ((h >> 56) & 0xff) as u8,
    ]
}

/// The hash code, as a byte sequence, of a byte sequence: the little-endian
/// bytes of its FNV-1a hash.
pub open spec fn hash_of(bytes: Seq<u8>) -> Seq<u8> {
    le_bytes(fnv1a(bytes))
}

/// Computes the FNV-1a hash of the given bytes as a 64-bit value.
pub fn fnv1a_u64(input: &[u8]) -> (h: u64)
    ensures
        h == fnv1a(input@),
{
    let mut hash: u64 = FNV_OFFSET_BASIS;
    let mut i: usize = 0;
    while i < input.len()
        invariant
            i <= input@.len(),
            hash == fnv1a_prefix(input@, i as int),
        decreases input@.len() - i,
    {
        hash = hash ^ (input[i] as u64);
        hash = hash.wrapping_mul(FNV_PRIME);
        i = i + 1;
    }
    hash
}

/// Splits a 64-bit value into its 8 little-endian bytes.
pub fn u64_to_le_bytes(h: u64) -> (r: HashCode)
    ensures
        r@ == le_bytes(h),
{
    let r: [u8; 8] = [
        (h & 0xff) as u8,
        ((h >> 8) & 0xff) as u8,
        ((h >> 16) & 0xff) as u8,
        ((h >> 24) & 0xff) as u8,
        ((h >> 32) & 0xff) as u8,
        ((h >> 40) & 0xff) as u8,
        ((h >> 48) & 0xff) as u8,
        ((h >> 56) & 0xff) as u8,
    ];
    proof {
        assert(r@ =~= le_bytes(h));
    }
    r
}

/// Computes the FNV-1a hash of the provided bytes.
pub fn hash_bytes(input: &[u8]) -> (r: HashCode)
    ensures
        r@ == hash_of(input@),
{
    u64_to_le_bytes(fnv1a_u64(input))
}

/// Lexicographic (that is, byte-wise) order on hash codes: `a` is less than
/// or equal to `b`.
pub open spec fn code_le(a: Seq<u8>, b: Seq<u8>) -> bool
    decreases a.len(),
{
    if a.len() == 0 || b.len() == 0 {
        true
    } else if a[0] != b[0] {
        a[0] < b[0]
    } else {
        code_le(a.drop_first(), b.drop_first())
    }
}

/// Compares two hash codes in lexicographic byte order.
pub fn hash_code_le(a: &HashCode, b: &HashCode) -> (r: bool)
    ensures
        r == code_le(a@, b@),
{
    proof {
        assert(a@.skip(0) =~= a@);
        assert(b@.skip(0) =~= b@);
    }
    let mut i: usize = 0;
    while i < 8
        invariant
            i <= 8,
            a@.len() == 8,
            b@.len() == 8,
            code_le(a@, b@) == code_le(a@.skip(i as int), b@.skip(i as int)),
            forall|j: int| 0 <= j < i ==> a@[j] == b@[j],
        decreases 8 - i,
    {
        if a[i] != b[i] {
            proof {
                lemma_code_le_head(a@.skip(i as int), b@.skip(i as int));
            }
            return a[i] < b[i];
        }
        proof {
            lemma_code_le_head(a@.skip(i as int), b@.skip(i as int));
            assert(a@.skip(i as int).drop_first() =~= a@.skip(i as int + 1));
            assert(b@.skip(i as int).drop_first() =~= b@.skip(i as int + 1));
        }
        i = i + 1;
    }
    true
}

proof fn lemma_code_le_head(a: Seq<u8>, b: Seq<u8>)
    requires
        a.len() > 0,
        b.len() > 0,
    ensures
        a[0] != b[0] ==> code_le(a, b) == (a[0] < b[0]),
        a[0] == b[0] ==> code_le(a, b) == code_le(a.drop_first(), b.drop_first()),
{
}

/// `s` is sorted ascending by lexicographic byte order.
pub open spec fn codes_sorted(s: Seq<Seq<u8>>) -> bool {
    forall|i: int, j: int| 0 <= i < j < s.len() ==> code_le(s[i], s[j])
}

/// The byte sequences of a sequence of hash codes, concatenated.
pub open spec fn concat_codes(s: Seq<Seq<u8>>) -> Seq<u8>
    decreases s.len(),
{
    if s.len() == 0 {
        Seq::empty()
    } else {
        concat_codes(s.drop_last()) + s.last()
    }
}

/// The views of a vector of hash codes.
pub open spec fn code_views(codes: Seq<HashCode>) -> Seq<Seq<u8>> {
    codes.map_values(|c: HashCode| c@)
}

proof fn lemma_code_le_total(a: Seq<u8>, b: Seq<u8>)
    requires
        a.len() == b.len(),
    ensures
        code_le(a, b) || code_le(b, a),
    decreases a.len(),
{
    if a.len() > 0 && a[0] == b[0] {
        lemma_code_le_total(a.drop_first(), b.drop_first());
    }
}

proof fn lemma_code_le_trans(a: Seq<u8>, b: Seq<u8>, c: Seq<u8>)
    requires
        a.len() == 8,
        b.len() == 8,
        c.len() == 8,
        code_le(a, b),
        code_le(b, c),
    ensures
        code_le(a, c),
    decreases a.len(),
{
    lemma_code_le_trans_n(a, b, c);
}

proof fn lemma_code_le_trans_n(a: Seq<u8>, b: Seq<u8>, c: Seq<u8>)
    requires
        a.len() == b.len(),
        b.len() == c.len(),
        code_le(a, b),
        code_le(b, c),
    ensures
        code_le(a, c),
    decreases a.len(),
{
    if a.len() > 0 {
        if a[0] == b[0] && b[0] == c[0] {
            lemma_code_le_trans_n(a.drop_first(), b.drop_first(), c.drop_first());
        }
    }
}

/// Combines a collection of hash codes into one aggregate hash: the codes are
/// sorted in ascending byte order, concatenated, and hashed again.
pub fn combine(codes: Vec<HashCode>) -> (r: HashCode)
    ensures
        exists|s: Seq<HashCode>|
            {
                &&& s.to_multiset() == codes@.to_multiset()
                &&& codes_sorted(code_views(s))
                &&& r@ == hash_of(concat_codes(code_views(s)))
            },
{
    let sorted = sort_codes(codes);
    let ghost s = sorted@;
    let mut bytes: Vec<u8> = Vec::new();
    let mut i: usize = 0;
    while i < sorted.len()
        invariant
            i <= sorted@.len(),
            sorted@ == s,
            bytes@ == concat_codes(code_views(s.take(i as int))),
        decreases sorted@.len() - i,
    {
        let ghost prefix = code_views(s.take(i as int));
        let code = sorted[i];
        let mut j: usize = 0;
        while j < 8
            invariant
                j <= 8,
                code@ == s[i as int]@,
                i < s.len(),
                bytes@ == concat_codes(prefix) + code@.take(j as int),
            decreases 8 - j,
        {
            bytes.push(code[j]);
            proof {
                assert(code@.take(j + 1 as int) =~= code@.take(j as int).push(code@[j as int]));
                assert(bytes@ =~= concat_codes(prefix) + code@.take(j + 1 as int));
            }
            j = j + 1;
        }
        proof {
            let next = code_views(s.take(i + 1 as int));
            assert(next.drop_last() =~= prefix);
            assert(next.last() == s[i as int]@);
            assert(code@.take(8) =~= code@);
            assert(bytes@ =~= concat_codes(next));
        }
        i = i + 1;
    }
    proof {
        assert(s.take(s.len() as int) =~= s);
    }
    hash_bytes(bytes.as_slice())
}

/// Sorts hash codes ascending in lexicographic byte order by insertion sort.
fn sort_codes(codes: Vec<HashCode>) -> (r: Vec<HashCode>)
    ensures
        r@.to_multiset() == codes@.to_multiset(),
        codes_sorted(code_views(r@)),
{
    let mut out: Vec<HashCode> = Vec::new();
    let mut i: usize = 0;
    proof {
        assert(codes@.take(0) =~= Seq::<HashCode>::empty());
        assert(out@.to_multiset() =~= codes@.take(0).to_multiset());
    }
    while i < codes.len()
        invariant
            i <= codes@.len(),
            out@.to_multiset() == codes@.take(i as int).to_multiset(),
            codes_sorted(code_views(out@)),
        decreases codes@.len() - i,
    {
        let c = codes[i];
        out = insert_code(out, c);
        proof {
            assert(codes@.take(i + 1 as int) =~= codes@.take(i as int).push(codes@[i as int]));
            codes@.take(i as int).to_multiset_ensures();
            codes@.take(i + 1 as int).to_multiset_ensures();
            assert(codes@.take(i as int).push(codes@[i as int]).to_multiset() =~= codes@.take(
                i as int,
            ).to_multiset().insert(codes@[i as int]));
        }
        i = i + 1;
    }
    proof {
        assert(codes@.take(codes@.len() as int) =~= codes@);
    }
    out
}

/// Inserts one hash code into a sorted vector, keeping it sorted.
fn insert_code(codes: Vec<HashCode>, c: HashCode) -> (r: Vec<HashCode>)
    requires
        codes_sorted(code_views(codes@)),
    ensures
        r@.to_multiset() == codes@.to_multiset().insert(c),
        codes_sorted(code_views(r@)),
{
    let mut pos: usize = 0;
    while pos < codes.len() && hash_code_le(&codes[pos], &c)
        invariant
            pos <= codes@.len(),
            codes_sorted(code_views(codes@)),
            forall|j: int| 0 <= j < pos ==> code_le(codes@[j]@, c@),
        decreases codes@.len() - pos,
    {
        pos = pos + 1;
    }
    proof {
        if pos < codes@.len() {
            lemma_code_le_total(codes@[pos as int]@, c@);
            assert(code_le(c@, codes@[pos as int]@));
        }
    }
    let mut out: Vec<HashCode> = Vec::new();
    let mut i: usize = 0;
    while i < pos
        invariant
            pos <= codes@.len(),
            i <= pos,
            out@ =~= codes@.take(i as int),
        decreases pos - i,
    {
        out.push(codes[i]);
        proof {
            assert(out@ =~= codes@.take(i + 1 as int));
        }
        i = i + 1;
    }
    out.push(c);
    let mut k: usize = pos;
    while k < codes.len()
        invariant
            pos <= codes@.len(),
            pos <= k <= codes@.len(),
            out@ =~= codes@.take(pos as int).push(c) + codes@.skip(pos as int).take(
                k - pos as int,
            ),
        decreases codes@.len() - k,
    {
        out.push(codes[k]);
        proof {
            assert(codes@.skip(pos as int).take(k + 1 - pos as int) =~= codes@.skip(
                pos as int,
            ).take(k - pos as int).push(codes@[k as int]));
            assert(out@ =~= codes@.take(pos as int).push(c) + codes@.skip(pos as int).take(
                k + 1 - pos as int,
            ));
        }
        k = k + 1;
    }
    proof {
        let fin = codes@.take(pos as int).push(c) + codes@.skip(pos as int).take(
            codes@.len() - pos as int,
        );
        assert(codes@.skip(pos as int).take(codes@.len() - pos as int) =~= codes@.skip(pos as int));
        assert(out@ =~= codes@.take(pos as int).push(c) + codes@.skip(pos as int));
        lemma_insert_multiset(codes@, c, pos as int);
        lemma_insert_sorted(codes@, c, pos as int);
    }
    out
}

proof fn lemma_insert_multiset(codes: Seq<HashCode>, c: HashCode, pos: int)
    requires
        0 <= pos <= codes.len(),
    ensures
        (codes.take(pos).push(c) + codes.skip(pos)).to_multiset() == codes.to_multiset().insert(c),
{
    let lhs = codes.take(pos).push(c) + codes.skip(pos);
    vstd::seq_lib::lemma_multiset_commutative(codes.take(pos).push(c), codes.skip(pos));
    codes.take(pos).to_multiset_ensures();
    assert(codes.take(pos).push(c).to_multiset() =~= codes.take(pos).to_multiset().insert(c));
    vstd::seq_lib::lemma_multiset_commutative(codes.take(pos), codes.skip(pos));
    assert(codes.take(pos) + codes.skip(pos) =~= codes);
    assert(lhs.to_multiset() =~= codes.to_multiset().insert(c));
}

proof fn lemma_insert_sorted(codes: Seq<HashCode>, c: HashCode, pos: int)
    requires
        0 <= pos <= codes.len(),
        codes_sorted(code_views(codes)),
        forall|j: int| 0 <= j < pos ==> code_le(codes[j]@, c@),
        pos < codes.len() ==> code_le(c@, codes[pos]@),
    ensures
        codes_sorted(code_views(codes.take(pos).push(c) + codes.skip(pos))),
{
    let merged = codes.take(pos).push(c) + codes.skip(pos);
    let v = code_views(merged);
    let cv = code_views(codes);
    assert(forall|k: int| 0 <= k < codes.len() ==> cv[k] == codes[k]@);
    assert(forall|k: int| 0 <= k < merged.len() ==> v[k] == merged[k]@);
    assert forall|i: int, j: int| 0 <= i < j < v.len() implies code_le(v[i], v[j]) by {
        let vi = if i < pos {
            codes[i]
        } else if i == pos {
            c
        } else {
            codes[i - 1]
        };
        let vj = if j < pos {
            codes[j]
        } else if j == pos {
            c
        } else {
            codes[j - 1]
        };
        assert(merged[i] == vi);
        assert(merged[j] == vj);
        if j < pos {
            assert(code_le(cv[i], cv[j]));
        } else if j == pos {
            assert(code_le(codes[i]@, c@));
        } else if i == pos {
            assert(code_le(c@, codes[pos]@));
            if pos < j - 1 {
                assert(code_le(cv[pos], cv[j - 1]));
                lemma_code_le_trans(c@, codes[pos]@, codes[j - 1]@);
            }
        } else if i < pos {
            assert(code_le(cv[i], cv[j - 1]));
        } else {
            assert(code_le(cv[i - 1], cv[j - 1]));
        }
        assert(code_le(vi@, vj@));
    }
}

} // verus!
