//! Versioned identifiers of structural-analysis evidence. An interrupted
//! analysis can rerun safely because identical findings get identical ids:
//! an id is the SHA-256 of its namespace and parts, each framed by its
//! length, so no two different inputs share a preimage.

use vstd::prelude::*;
use vstd::utf8::{encode_utf8, decode_utf8};
use vstd::string::StrSliceExecFns;
use crate::digest::{sha256_hex, sha256_hex_of};

verus! {

/// Version of the structural analysis whose evidence the ids name.
pub const ANALYSIS_VERSION: u32 = 1;

/// Domain separator of the ids.
pub const ID_DOMAIN: &'static str = "dataforge-structural-analysis-id";

/// Big-endian bytes of a 64-bit number.
pub open spec fn be64(x: u64) -> Seq<u8> {
    seq![
        (x >> 56u64) as u8,
        (x >> 48u64) as u8,
        (x >> 40u64) as u8,
        (x >> 32u64) as u8,
        (x >> 24u64) as u8,
        (x >> 16u64) as u8,
        (x >> 8u64) as u8,
        x as u8,
    ]
}

/// Big-endian bytes of a 32-bit number.
pub open spec fn be32(x: u32) -> Seq<u8> {
    seq![(x >> 24u32) as u8, (x >> 16u32) as u8, (x >> 8u32) as u8, x as u8]
}

/// Each part framed by its length.
pub open spec fn framed(parts: Seq<Seq<u8>>) -> Seq<u8>
    decreases parts.len(),
{
    if parts.len() == 0 {
        Seq::empty()
    } else {
        be64(parts[0].len() as u64) + parts[0] + framed(parts.drop_first())
    }
}

/// What an id hashes: the domain, the analysis version, the namespace and
/// the parts, each of the last two framed by its length.
pub open spec fn id_preimage(namespace: Seq<char>, parts: Seq<Seq<char>>) -> Seq<u8> {
    encode_utf8(ID_DOMAIN@) + be32(ANALYSIS_VERSION) + framed(
        seq![encode_utf8(namespace)] + parts.map_values(|p: Seq<char>| encode_utf8(p)),
    )
}

pub open spec fn part_views(parts: Seq<&str>) -> Seq<Seq<char>> {
    parts.map_values(|p: &str| p@)
}

proof fn lemma_be64_injective(x: u64, y: u64)
    requires
        be64(x) == be64(y),
    ensures
        x == y,
{
    assert(be64(x)[0] == be64(y)[0]);
    assert(be64(x)[1] == be64(y)[1]);
    assert(be64(x)[2] == be64(y)[2]);
    assert(be64(x)[3] == be64(y)[3]);
    assert(be64(x)[4] == be64(y)[4]);
    assert(be64(x)[5] == be64(y)[5]);
    assert(be64(x)[6] == be64(y)[6]);
    assert(be64(x)[7] == be64(y)[7]);
    assert(x == y) by (bit_vector)
        requires
            (x >> 56u64) as u8 == (y >> 56u64) as u8,
            (x >> 48u64) as u8 == (y >> 48u64) as u8,
            (x >> 40u64) as u8 == (y >> 40u64) as u8,
            (x >> 32u64) as u8 == (y >> 32u64) as u8,
            (x >> 24u64) as u8 == (y >> 24u64) as u8,
            (x >> 16u64) as u8 == (y >> 16u64) as u8,
            (x >> 8u64) as u8 == (y >> 8u64) as u8,
            x as u8 == y as u8,
    ;
}

proof fn lemma_framed_injective(a: Seq<Seq<u8>>, b: Seq<Seq<u8>>)
    requires
        framed(a) == framed(b),
        forall|i: int| 0 <= i < a.len() ==> (#[trigger] a[i]).len() <= u64::MAX,
        forall|i: int| 0 <= i < b.len() ==> (#[trigger] b[i]).len() <= u64::MAX,
    ensures
        a == b,
    decreases a.len(),
{
    if a.len() == 0 {
        if b.len() > 0 {
            assert(framed(b).len() >= 8);
        }
        assert(a =~= b);
    } else {
        if b.len() == 0 {
            assert(framed(a).len() >= 8);
        }
        let fa = framed(a);
        let fb = framed(b);
        let la = a[0].len() as u64;
        let lb = b[0].len() as u64;
        assert(fa.take(8) =~= be64(la));
        assert(fb.take(8) =~= be64(lb));
        lemma_be64_injective(la, lb);
        assert(a[0].len() == b[0].len());
        let n = a[0].len() as int;
        assert(fa.subrange(8, 8 + n) =~= a[0]);
        assert(fb.subrange(8, 8 + n) =~= b[0]);
        assert(fa.skip(8 + n) =~= framed(a.drop_first()));
        assert(fb.skip(8 + n) =~= framed(b.drop_first()));
        lemma_framed_injective(a.drop_first(), b.drop_first());
        assert(a =~= seq![a[0]] + a.drop_first());
        assert(b =~= seq![b[0]] + b.drop_first());
    }
}

/// Ids are unambiguous: two inputs with the same preimage have the same
/// namespace and the same parts, so different inputs never share one, even
/// where their concatenations agree (`["ab", "c"]` and `["a", "bc"]`).
pub proof fn lemma_ids_are_unambiguous(
    namespace_a: Seq<char>,
    parts_a: Seq<Seq<char>>,
    namespace_b: Seq<char>,
    parts_b: Seq<Seq<char>>,
)
    requires
        id_preimage(namespace_a, parts_a) == id_preimage(namespace_b, parts_b),
        encode_utf8(namespace_a).len() <= u64::MAX,
        encode_utf8(namespace_b).len() <= u64::MAX,
        forall|i: int| 0 <= i < parts_a.len() ==> encode_utf8(#[trigger] parts_a[i]).len() <= u64::MAX,
        forall|i: int| 0 <= i < parts_b.len() ==> encode_utf8(#[trigger] parts_b[i]).len() <= u64::MAX,
    ensures
        namespace_a == namespace_b,
        parts_a == parts_b,
{
    let head = encode_utf8(ID_DOMAIN@) + be32(ANALYSIS_VERSION);
    let fa = seq![encode_utf8(namespace_a)] + parts_a.map_values(|p: Seq<char>| encode_utf8(p));
    let fb = seq![encode_utf8(namespace_b)] + parts_b.map_values(|p: Seq<char>| encode_utf8(p));
    assert(id_preimage(namespace_a, parts_a) == head + framed(fa));
    assert(id_preimage(namespace_b, parts_b) == head + framed(fb));
    assert((head + framed(fa)).skip(head.len() as int) =~= framed(fa));
    assert((head + framed(fb)).skip(head.len() as int) =~= framed(fb));
    assert forall|i: int| 0 <= i < fa.len() implies (#[trigger] fa[i]).len() <= u64::MAX by {
        if i > 0 {
            assert(fa[i] == encode_utf8(parts_a[i - 1]));
        }
    }
    assert forall|i: int| 0 <= i < fb.len() implies (#[trigger] fb[i]).len() <= u64::MAX by {
        if i > 0 {
            assert(fb[i] == encode_utf8(parts_b[i - 1]));
        }
    }
    lemma_framed_injective(fa, fb);
    assert(fa[0] == fb[0]);
    vstd::utf8::encode_utf8_decode_utf8(namespace_a);
    vstd::utf8::encode_utf8_decode_utf8(namespace_b);
    assert(fa.len() == fb.len());
    assert forall|i: int| 0 <= i < parts_a.len() implies parts_a[i] == parts_b[i] by {
        assert(fa[i + 1] == encode_utf8(parts_a[i]));
        assert(fb[i + 1] == encode_utf8(parts_b[i]));
        vstd::utf8::encode_utf8_decode_utf8(parts_a[i]);
        vstd::utf8::encode_utf8_decode_utf8(parts_b[i]);
    }
    assert(parts_a =~= parts_b);
}

fn push_be64(out: &mut Vec<u8>, x: u64)
    ensures
        final(out)@ == old(out)@ + be64(x),
{
    out.push((x >> 56u64) as u8);
    out.push((x >> 48u64) as u8);
    out.push((x >> 40u64) as u8);
    out.push((x >> 32u64) as u8);
    out.push((x >> 24u64) as u8);
    out.push((x >> 16u64) as u8);
    out.push((x >> 8u64) as u8);
    out.push(x as u8);
    assert(final(out)@ =~= old(out)@ + be64(x));
}

fn push_bytes(out: &mut Vec<u8>, bytes: &[u8])
    ensures
        final(out)@ == old(out)@ + bytes@,
{
    let mut i: usize = 0;
    while i < bytes.len()
        invariant
            0 <= i <= bytes@.len(),
            out@ == old(out)@ + bytes@.take(i as int),
        decreases bytes@.len() - i,
    {
        out.push(bytes[i]);
        i = i + 1;
        assert(out@ =~= old(out)@ + bytes@.take(i as int));
    }
    assert(bytes@.take(i as int) =~= bytes@);
}

proof fn lemma_framed_push(parts: Seq<Seq<u8>>, last: Seq<u8>)
    requires
        last.len() <= u64::MAX,
    ensures
        framed(parts.push(last)) == framed(parts) + be64(last.len() as u64) + last,
    decreases parts.len(),
{
    if parts.len() == 0 {
        let s = parts.push(last);
        assert(s[0] == last);
        assert(s.drop_first() =~= Seq::<Seq<u8>>::empty());
        assert(framed(s.drop_first()) =~= Seq::<u8>::empty());
        assert(framed(s) =~= be64(last.len() as u64) + last);
        assert(framed(parts) =~= Seq::<u8>::empty());
    } else {
        lemma_framed_push(parts.drop_first(), last);
        assert(parts.push(last).drop_first() =~= parts.drop_first().push(last));
        assert(framed(parts.push(last)) =~= framed(parts) + be64(last.len() as u64) + last);
    }
}

/// The id of a finding: lower-case hex SHA-256 of its preimage.
pub fn stable_id(namespace: &str, parts: &[&str]) -> (id: String)
    ensures
        id@ == sha256_hex_of(id_preimage(namespace@, part_views(parts@))),
{
    let mut out: Vec<u8> = Vec::new();
    let domain = ID_DOMAIN.as_bytes();
    push_bytes(&mut out, domain);
    out.push((ANALYSIS_VERSION >> 24u32) as u8);
    out.push((ANALYSIS_VERSION >> 16u32) as u8);
    out.push((ANALYSIS_VERSION >> 8u32) as u8);
    out.push(ANALYSIS_VERSION as u8);
    let ghost head = encode_utf8(ID_DOMAIN@) + be32(ANALYSIS_VERSION);
    assert(out@ =~= head);
    let ns = namespace.as_bytes();
    push_be64(&mut out, ns.len() as u64);
    push_bytes(&mut out, ns);
    let ghost mut items: Seq<Seq<u8>> = seq![encode_utf8(namespace@)];
    proof {
        lemma_framed_push(Seq::empty(), encode_utf8(namespace@));
        assert(Seq::<Seq<u8>>::empty().push(encode_utf8(namespace@)) =~= items);
        assert(framed(Seq::<Seq<u8>>::empty()) =~= Seq::<u8>::empty());
    }
    assert(out@ =~= head + framed(items));
    let mut i: usize = 0;
    while i < parts.len()
        invariant
            0 <= i <= parts@.len(),
            items == seq![encode_utf8(namespace@)] + part_views(parts@).take(i as int).map_values(
                |p: Seq<char>| encode_utf8(p),
            ),
            out@ == head + framed(items),
        decreases parts@.len() - i,
    {
        let bytes = parts[i].as_bytes();
        push_be64(&mut out, bytes.len() as u64);
        push_bytes(&mut out, bytes);
        proof {
            lemma_framed_push(items, bytes@);
            items = items.push(bytes@);
            assert(part_views(parts@).take(i + 1).map_values(|p: Seq<char>| encode_utf8(p))
                =~= part_views(parts@).take(i as int).map_values(|p: Seq<char>| encode_utf8(p)).push(
                bytes@,
            ));
        }
        assert(out@ =~= head + framed(items));
        i = i + 1;
    }
    assert(part_views(parts@).take(i as int) =~= part_views(parts@));
    sha256_hex(out.as_slice())
}

} // verus!
