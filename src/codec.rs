//! The scalar codec: reshaping a flat vector into runs of a fixed arity, and
//! laying runs end to end again.

use vstd::arithmetic::div_mod::{lemma_div_by_multiple, lemma_fundamental_div_mod};
use vstd::prelude::*;

use crate::attribute::{AttrValues, AttributeType, RawAttributeData, Scalar};

verus! {

/// The consecutive runs of `n` scalars of `v`; a trailing partial run is not one.
pub open spec fn chunks(v: AttrValues, n: nat) -> Seq<AttrValues>
    recommends
        n > 0,
{
    Seq::new(v.len() / n, |i: int| v.subrange(i * n, i * n + n))
}

/// The runs `parts` laid end to end, as a vector of the given kind.
pub open spec fn join(kind: AttributeType, parts: Seq<AttrValues>) -> AttrValues {
    AttrValues { kind, items: parts.map_values(|p: AttrValues| p.items).flatten() }
}

pub proof fn lemma_join_push(kind: AttributeType, parts: Seq<AttrValues>, last: AttrValues)
    ensures
        join(kind, parts.push(last)) == join(kind, parts).concat(last),
{
    let f = |p: AttrValues| p.items;
    assert(parts.push(last).map_values(f) =~= parts.map_values(f).push(last.items));
    parts.map_values(f).lemma_flatten_push(last.items);
    assert(join(kind, parts.push(last)) =~= join(kind, parts).concat(last));
}

pub proof fn lemma_join_empty(kind: AttributeType)
    ensures
        join(kind, Seq::empty()) == AttrValues::empty(kind),
{
    assert(Seq::<AttrValues>::empty().map_values(|p: AttrValues| p.items) =~= Seq::empty());
    assert(join(kind, Seq::empty()) =~= AttrValues::empty(kind));
}

/// Runs of one kind and one length `n`, laid end to end, are read back as the
/// same runs.
pub proof fn lemma_chunks_join(kind: AttributeType, parts: Seq<AttrValues>, n: nat)
    requires
        n > 0,
        forall|i: int| 0 <= i < parts.len() ==> (#[trigger] parts[i]).kind == kind,
        forall|i: int| 0 <= i < parts.len() ==> (#[trigger] parts[i]).len() == n,
    ensures
        join(kind, parts).len() == parts.len() * n,
        chunks(join(kind, parts), n) == parts,
    decreases parts.len(),
{
    let m = parts.len();
    let j = join(kind, parts);
    if m == 0 {
        lemma_join_empty(kind);
        assert(j.len() == 0);
        assert(m * n == 0) by (nonlinear_arith)
            requires
                m == 0,
        ;
        assert(chunks(j, n) =~= parts);
    } else {
        let init = parts.drop_last();
        assert(parts == init.push(parts.last()));
        lemma_chunks_join(kind, init, n);
        lemma_join_push(kind, init, parts.last());
        let ji = join(kind, init);
        assert(j.len() == m * n) by (nonlinear_arith)
            requires
                j.len() == ji.len() + n,
                ji.len() == (m - 1) * n,
        ;
        lemma_div_by_multiple(m as int, n as int);
        assert forall|i: int| 0 <= i < m implies #[trigger] j.subrange(i * n, i * n + n)
            == parts[i] by {
            if i < m - 1 {
                assert(i * n + n <= (m - 1) * n) by (nonlinear_arith)
                    requires
                        i < m - 1,
                        n > 0,
                ;
                assert(0 <= i * n) by (nonlinear_arith)
                    requires
                        0 <= i,
                ;
                assert(chunks(ji, n)[i] == init[i]);
                assert(j.subrange(i * n, i * n + n) =~= ji.subrange(i * n, i * n + n));
            } else {
                assert(i * n == (m - 1) * n);
                assert(j.subrange(i * n, i * n + n) =~= parts.last());
            }
        }
        assert(chunks(j, n) =~= parts);
    }
}

/// Splits a flat vector into its consecutive runs of `n` scalars, in order.
/// Scalars after the last whole run are not part of any run.
pub fn into_array_iter(data: RawAttributeData, n: usize) -> (r: Vec<RawAttributeData>)
    requires
        n > 0,
    ensures
        r@.len() == chunks(data@, n as nat).len(),
        forall|i: int| 0 <= i < r@.len() ==> (#[trigger] r@[i])@ == chunks(data@, n as nat)[i],
{
    let ghost whole = data@;
    let count = data.len() / n;
    proof {
        lemma_fundamental_div_mod(whole.len() as int, n as int);
        assert(0 <= count * n <= whole.len()) by (nonlinear_arith)
            requires
                n * count + (whole.len() as int) % (n as int) == whole.len(),
                0 <= (whole.len() as int) % (n as int),
                count >= 0,
                n > 0,
        ;
    }
    let (mut rest, _) = data.split_at(count * n);
    let mut rev: Vec<RawAttributeData> = Vec::new();
    let mut k: usize = count;
    while k > 0
        invariant
            k <= count,
            count * n <= whole.len(),
            whole.len() <= usize::MAX,
            count == whole.len() / (n as nat),
            rest@ == whole.subrange(0, k * n),
            rev@.len() == count - k,
            forall|j: int|
                0 <= j < rev@.len() ==> (#[trigger] rev@[j])@ == whole.subrange(
                    (count - 1 - j) * n,
                    (count - 1 - j) * n + n,
                ),
        decreases k,
    {
        proof {
            assert((k - 1) * n + n == k * n) by (nonlinear_arith);
            assert(k * n <= count * n) by (nonlinear_arith)
                requires
                    k <= count,
            ;
            assert(0 <= (k - 1) * n) by (nonlinear_arith)
                requires
                    k >= 1,
            ;
        }
        let ghost before = rev@;
        let (head, chunk) = rest.split_at((k - 1) * n);
        assert(head@ =~= whole.subrange(0, (k - 1) * n));
        assert(chunk@ =~= whole.subrange((k - 1) * n, (k - 1) * n + n));
        rest = head;
        rev.push(chunk);
        k = k - 1;
        assert forall|j: int| 0 <= j < rev@.len() implies (#[trigger] rev@[j])@ == whole.subrange(
            (count - 1 - j) * n,
            (count - 1 - j) * n + n,
        ) by {
            if j < before.len() {
                assert(rev@[j] == before[j]);
            }
        }
    }
    let mut out: Vec<RawAttributeData> = Vec::new();
    while rev.len() > 0
        invariant
            out@.len() + rev@.len() == count,
            forall|j: int|
                0 <= j < rev@.len() ==> (#[trigger] rev@[j])@ == whole.subrange(
                    (count - 1 - j) * n,
                    (count - 1 - j) * n + n,
                ),
            forall|i: int|
                0 <= i < out@.len() ==> (#[trigger] out@[i])@ == whole.subrange(i * n, i * n + n),
        decreases rev@.len(),
    {
        let ghost before = out@;
        let ghost src = rev@;
        let c = rev.pop().unwrap();
        assert(c == src[src.len() - 1]);
        out.push(c);
        assert forall|i: int| 0 <= i < out@.len() implies (#[trigger] out@[i])@ == whole.subrange(
            i * n,
            i * n + n,
        ) by {
            if i < before.len() {
                assert(out@[i] == before[i]);
            }
        }
    }
    assert(chunks(whole, n as nat).len() == count);
    out
}

} // verus!
