//! Reordering the point records of a byte buffer.

use rand::seq::SliceRandom;
use rand::thread_rng;
use vstd::arithmetic::div_mod::lemma_fundamental_div_mod_converse;
use vstd::prelude::*;
use vstd::seq_lib::{group_to_multiset_ensures, to_multiset_remove};
use vstd::set_lib::lemma_subset_equality;
use vstd::slice::slice_subrange;

verus! {

/// The buffer whose `j`-th point record is record `order[j]` of `data`, where
/// every record is `stride` bytes long.
pub open spec fn reshuffled(order: Seq<usize>, data: Seq<u8>, stride: nat) -> Seq<u8> {
    Seq::new(
        order.len() * stride,
        |p: int| data[order[p / (stride as int)] * stride + p % (stride as int)],
    )
}

/// Every index in `order` addresses one of `n` points.
pub open spec fn indices_below(order: Seq<usize>, n: nat) -> bool {
    forall|j: int| 0 <= j < order.len() ==> order[j] < n
}

proof fn lemma_record_fits(index: int, n: int, stride: int)
    requires
        0 <= index < n,
        0 <= stride,
    ensures
        0 <= index * stride,
        index * stride + stride <= n * stride,
{
    assert(0 <= index * stride) by (nonlinear_arith)
        requires
            0 <= index,
            0 <= stride,
    ;
    assert(index * stride + stride <= n * stride) by (nonlinear_arith)
        requires
            index + 1 <= n,
            0 <= stride,
    ;
}

/// Copies the point records of `old_data` into a new buffer in the order given
/// by `new_order`: record `j` of the result is record `new_order[j]` of
/// `old_data`. An index may occur more than once or not at all.
pub fn reshuffle(new_order: &[usize], old_data: &[u8], bytes_per_vertex: usize) -> (new_data: Vec<u8>)
    requires
        new_order@.len() * bytes_per_vertex == old_data@.len(),
        bytes_per_vertex > 0 ==> indices_below(new_order@, new_order@.len()),
    ensures
        new_data@ == reshuffled(new_order@, old_data@, bytes_per_vertex as nat),
{
    let mut new_data: Vec<u8> = Vec::with_capacity(old_data.len());
    let n: usize = new_order.len();
    let mut j: usize = 0;
    while j < n
        invariant
            j <= n,
            n == new_order@.len(),
            n * bytes_per_vertex == old_data@.len(),
            old_data@.len() <= usize::MAX,
            bytes_per_vertex > 0 ==> indices_below(new_order@, n as nat),
            new_data@.len() == j * bytes_per_vertex,
            forall|p: int|
                0 <= p < new_data@.len() ==> new_data@[p] == old_data@[new_order@[p / (
                bytes_per_vertex as int)] * bytes_per_vertex + p % (bytes_per_vertex as int)],
        decreases n - j,
    {
        let point_index: usize = new_order[j];
        proof {
            if bytes_per_vertex > 0 {
                assert(new_order@[j as int] < n);
                lemma_record_fits(point_index as int, n as int, bytes_per_vertex as int);
            } else {
                assert(point_index * bytes_per_vertex == 0) by (nonlinear_arith)
                    requires
                        bytes_per_vertex == 0,
                ;
            }
        }
        let i: usize = point_index * bytes_per_vertex;
        let ghost before = new_data@;
        new_data.extend_from_slice(slice_subrange(old_data, i, i + bytes_per_vertex));
        proof {
            assert((j + 1) * bytes_per_vertex == j * bytes_per_vertex + bytes_per_vertex)
                by (nonlinear_arith);
            assert forall|p: int| 0 <= p < new_data@.len() implies new_data@[p] == old_data@[new_order@[p
                / (bytes_per_vertex as int)] * bytes_per_vertex + p % (bytes_per_vertex as int)] by {
                if p >= before.len() {
                    let r = p - before.len();
                    lemma_fundamental_div_mod_converse(p, bytes_per_vertex as int, j as int, r);
                    assert(new_data@[p] == old_data@.subrange(
                        i as int,
                        i + bytes_per_vertex,
                    )[r]);
                } else {
                    assert(new_data@[p] == before[p]);
                }
            }
        }
        j += 1;
    }
    assert(new_data@ =~= reshuffled(new_order@, old_data@, bytes_per_vertex as nat));
    new_data
}

/// Record `j` of a reshuffled buffer is record `order[j]` of the buffer it
/// was made from.
pub proof fn lemma_reshuffled_record(order: Seq<usize>, data: Seq<u8>, stride: nat, j: int)
    requires
        data.len() == order.len() * stride,
        0 <= j < order.len(),
        order[j] < order.len(),
    ensures
        0 <= j * stride,
        j * stride + stride <= reshuffled(order, data, stride).len(),
        0 <= order[j] * stride,
        order[j] * stride + stride <= data.len(),
        reshuffled(order, data, stride).subrange(j * stride, j * stride + stride) == data.subrange(
            order[j] * stride,
            order[j] * stride + stride,
        ),
{
    let out = reshuffled(order, data, stride);
    let from = order[j] * stride;
    lemma_record_fits(j, order.len() as int, stride as int);
    lemma_record_fits(order[j] as int, order.len() as int, stride as int);
    let moved = out.subrange(j * stride, j * stride + stride);
    let source = data.subrange(from, from + stride);
    assert forall|k: int| 0 <= k < stride implies #[trigger] moved[k] == source[k] by {
        lemma_fundamental_div_mod_converse(j * stride + k, stride as int, j, k);
    }
    assert(moved =~= source);
}

/// The indices `0, 1, .., n - 1` in rising order.
pub open spec fn identity_order(n: nat) -> Seq<usize> {
    Seq::new(n, |i: int| i as usize)
}

/// `order` names each of `n` points exactly once.
pub open spec fn is_permutation(order: Seq<usize>, n: nat) -> bool {
    &&& order.len() == n
    &&& indices_below(order, n)
    &&& order.no_duplicates()
}

/// A sequence that holds the same indices as `identity_order(n)`, each as
/// often, is a permutation of the `n` points.
pub proof fn lemma_rearranged_identity_is_permutation(order: Seq<usize>, n: nat)
    requires
        n <= usize::MAX,
        order.to_multiset() == identity_order(n).to_multiset(),
    ensures
        is_permutation(order, n),
{
    broadcast use group_to_multiset_ensures;

    let id = identity_order(n);
    assert(id.no_duplicates());
    id.lemma_multiset_has_no_duplicates();
    order.lemma_multiset_has_no_duplicates_conv();
    assert(order.len() == order.to_multiset().len());
    assert(id.len() == id.to_multiset().len());
    assert forall|j: int| 0 <= j < order.len() implies order[j] < n by {
        assert(order.contains(order[j]));
        assert(id.to_multiset().count(order[j]) > 0);
        assert(id.contains(order[j]));
    }
}

/// A permutation of `n` points holds the same indices as `identity_order(n)`,
/// each once.
pub proof fn lemma_permutation_rearranges_identity(order: Seq<usize>, n: nat)
    requires
        n <= usize::MAX,
        is_permutation(order, n),
    ensures
        order.to_multiset() == identity_order(n).to_multiset(),
{
    broadcast use group_to_multiset_ensures;

    let id = identity_order(n);
    assert(id.no_duplicates());
    order.unique_seq_to_set();
    id.unique_seq_to_set();
    assert(order.to_set().subset_of(id.to_set())) by {
        assert forall|x: usize| order.to_set().contains(x) implies id.to_set().contains(x) by {
            assert(order.contains(x));
            assert(x < n);
            assert(id[x as int] == x);
            assert(id.contains(x));
        }
    }
    lemma_subset_equality(order.to_set(), id.to_set());
    order.lemma_multiset_has_no_duplicates();
    id.lemma_multiset_has_no_duplicates();
    assert forall|x: usize| order.to_multiset().count(x) == id.to_multiset().count(x) by {
        assert(order.contains(x) <==> order.to_set().contains(x));
        assert(id.contains(x) <==> id.to_set().contains(x));
    }
    assert(order.to_multiset() =~= id.to_multiset());
}

/// Two sequences that hold the same elements, each as often, still do so
/// after `f` is applied to every element.
pub proof fn lemma_map_keeps_rearrangement<A, B>(a: Seq<A>, b: Seq<A>, f: spec_fn(A) -> B)
    requires
        a.to_multiset() == b.to_multiset(),
    ensures
        a.map_values(f).to_multiset() == b.map_values(f).to_multiset(),
    decreases a.len(),
{
    broadcast use group_to_multiset_ensures;

    if a.len() == 0 {
        assert(b.to_multiset().len() == 0);
        assert(a.map_values(f) =~= b.map_values(f));
    } else {
        let x = a.last();
        assert(a.contains(x));
        assert(b.to_multiset().count(x) > 0);
        let i = b.index_of(x);
        let a0 = a.drop_last();
        let b0 = b.remove(i);
        assert(a0 =~= a.remove(a.len() - 1));
        to_multiset_remove(a, a.len() - 1);
        to_multiset_remove(b, i);
        lemma_map_keeps_rearrangement(a0, b0, f);
        assert(a.map_values(f).remove(a.len() - 1) =~= a0.map_values(f));
        assert(b.map_values(f).remove(i) =~= b0.map_values(f));
        to_multiset_remove(a.map_values(f), a.len() - 1);
        to_multiset_remove(b.map_values(f), i);
        let ma = a.map_values(f).to_multiset();
        let mb = b.map_values(f).to_multiset();
        assert(ma.count(f(x)) > 0) by {
            assert(a.map_values(f)[a.len() - 1] == f(x));
            assert(a.map_values(f).contains(f(x)));
        }
        assert(mb.count(f(x)) > 0) by {
            assert(b.map_values(f)[i] == f(x));
            assert(b.map_values(f).contains(f(x)));
        }
        assert(ma.remove(f(x)) == mb.remove(f(x)));
        assert(ma =~= ma.remove(f(x)).insert(f(x)));
        assert(mb =~= mb.remove(f(x)).insert(f(x)));
    }
}

/// Brings the values into a random order with `shuffle` of `rand`'s
/// `SliceRandom`, driven by the generator of `thread_rng`. The call exchanges
/// elements and does nothing else, so whatever order comes out holds the
/// values that went in, each as often. The generator asks the operating
/// system for a seed when a thread first uses it.
#[verifier::external_body]
fn shuffle(values: &mut Vec<usize>)
    ensures
        final(values)@.to_multiset() == old(values)@.to_multiset(),
{
    values.shuffle(&mut thread_rng());
}

/// A random permutation of the indices of `n` points.
pub fn shuffled_indices(n: usize) -> (order: Vec<usize>)
    ensures
        is_permutation(order@, n as nat),
{
    let mut indices: Vec<usize> = Vec::new();
    let mut i: usize = 0;
    while i < n
        invariant
            i <= n,
            indices@ == identity_order(i as nat),
        decreases n - i,
    {
        indices.push(i);
        i += 1;
        assert(indices@ =~= identity_order(i as nat));
    }
    shuffle(&mut indices);
    proof {
        lemma_rearranged_identity_is_permutation(indices@, n as nat);
    }
    indices
}

} // verus!
