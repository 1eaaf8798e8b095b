//! Flattening loadable segments into one contiguous memory image.

use vstd::prelude::*;
use crate::image::{ImageError, Segment};

verus! {

/// `n` zero bytes.
pub open spec fn zeros(n: int) -> Seq<u8> {
    Seq::new(n as nat, |i: int| 0u8)
}

/// The layout of a list of segments: the bytes placed so far, and the address
/// just past the last non-empty segment (`None` before the first one).
///
/// Empty segments are skipped. The first non-empty segment is placed at byte
/// zero; each later one follows after zero padding up to its address. A
/// segment below the running end address is an overlap, and a layout longer
/// than `usize::MAX` bytes does not fit.
pub open spec fn layout(segs: Seq<Segment>) -> Result<(Seq<u8>, Option<int>), ImageError>
    decreases segs.len(),
{
    if segs.len() == 0 {
        Ok((Seq::empty(), None))
    } else {
        let s = segs.last();
        match layout(segs.drop_last()) {
            Err(e) => Err(e),
            Ok((out, cursor)) => {
                if s.data@.len() == 0 {
                    Ok((out, cursor))
                } else {
                    match cursor {
                        None => Ok((s.data@, Some(s.address + s.data@.len()))),
                        Some(c) => {
                            if s.address < c {
                                Err(ImageError::AddressOverlap)
                            } else if out.len() + (s.address - c) + s.data@.len() > usize::MAX {
                                Err(ImageError::TooLarge)
                            } else {
                                Ok((out + zeros(s.address - c) + s.data@, Some(s.address + s.data@.len())))
                            }
                        }
                    }
                }
            }
        }
    }
}

/// The flattened bytes of `segs`, or why there are none.
pub open spec fn flattened(segs: Seq<Segment>) -> Result<Seq<u8>, ImageError> {
    match layout(segs) {
        Ok((out, _)) => Ok(out),
        Err(e) => Err(e),
    }
}

/// Once a prefix of the segments fails to lay out, the whole list fails the same way.
proof fn lemma_layout_error_stays(segs: Seq<Segment>, k: int)
    requires
        0 <= k <= segs.len(),
        layout(segs.subrange(0, k)) is Err,
    ensures
        layout(segs) == layout(segs.subrange(0, k)),
    decreases segs.len() - k,
{
    if k < segs.len() {
        let front = segs.drop_last();
        assert(front.subrange(0, k) =~= segs.subrange(0, k));
        lemma_layout_error_stays(front, k);
    } else {
        assert(segs.subrange(0, k) =~= segs);
    }
}

/// `order` with index `i` placed after the last entry whose segment starts at
/// or below segment `i`'s address.
pub open spec fn insert_index(segs: Seq<Segment>, order: Seq<usize>, i: usize) -> Seq<usize>
    decreases order.len(),
{
    if order.len() == 0 {
        seq![i]
    } else if segs[order.last() as int].address <= segs[i as int].address {
        order.push(i)
    } else {
        insert_index(segs, order.drop_last(), i).push(order.last())
    }
}

/// The indices of the non-empty segments among the first `n`, in ascending
/// order of address; segments at equal addresses keep their order.
pub open spec fn address_order(segs: Seq<Segment>, n: int) -> Seq<usize>
    decreases n,
{
    if n <= 0 {
        Seq::empty()
    } else {
        let rest = address_order(segs, n - 1);
        if segs[n - 1].data@.len() == 0 {
            rest
        } else {
            insert_index(segs, rest, (n - 1) as usize)
        }
    }
}

/// The segments at the indices `order`.
pub open spec fn picked(segs: Seq<Segment>, order: Seq<usize>) -> Seq<Segment> {
    order.map_values(|i: usize| segs[i as int])
}

/// The non-empty segments of `segs` sorted by address.
pub open spec fn by_address(segs: Seq<Segment>) -> Seq<Segment> {
    picked(segs, address_order(segs, segs.len() as int))
}

proof fn lemma_insert_at(segs: Seq<Segment>, order: Seq<usize>, i: usize, k: int)
    requires
        0 <= k <= order.len(),
        forall|j: int| k <= j < order.len() ==> segs[#[trigger] order[j] as int].address > segs[i as int].address,
        k > 0 ==> segs[order[k - 1] as int].address <= segs[i as int].address,
    ensures
        insert_index(segs, order, i) == order.subrange(0, k).push(i) + order.subrange(k, order.len() as int),
    decreases order.len(),
{
    if order.len() == 0 {
        assert(order.subrange(0, k).push(i) + order.subrange(k, order.len() as int) =~= seq![i]);
    } else if k == order.len() {
        assert(order.subrange(0, k) =~= order);
        assert(order.subrange(0, k).push(i) + order.subrange(k, order.len() as int) =~= order.push(i));
    } else {
        let front = order.drop_last();
        assert(segs[order[order.len() - 1] as int].address > segs[i as int].address);
        assert forall|j: int| k <= j < front.len() implies segs[#[trigger] front[j] as int].address
            > segs[i as int].address by {
            assert(front[j] == order[j]);
        }
        if k > 0 {
            assert(front[k - 1] == order[k - 1]);
        }
        lemma_insert_at(segs, front, i, k);
        assert(front.subrange(0, k).push(i) + front.subrange(k, front.len() as int) + seq![order.last()]
            =~= order.subrange(0, k).push(i) + order.subrange(k, order.len() as int));
    }
}

/// Orders the non-empty segments by address (see `address_order`).
fn sort_by_address(segs: &Vec<Segment>) -> (r: Vec<usize>)
    ensures
        r@ == address_order(segs@, segs@.len() as int),
        forall|t: int| 0 <= t < r@.len() ==> #[trigger] r@[t] < segs@.len(),
{
    let mut order: Vec<usize> = Vec::new();
    let mut n: usize = 0;
    while n < segs.len()
        invariant
            0 <= n <= segs@.len(),
            order@ == address_order(segs@, n as int),
            forall|t: int| 0 <= t < order@.len() ==> #[trigger] order@[t] < n,
        decreases segs@.len() - n,
    {
        if segs[n].data.len() > 0 {
            let mut k: usize = order.len();
            while k > 0 && segs[order[k - 1]].address > segs[n].address
                invariant
                    0 <= k <= order@.len(),
                    n < segs@.len(),
                    forall|t: int| 0 <= t < order@.len() ==> #[trigger] order@[t] < n,
                    forall|j: int|
                        k <= j < order@.len() ==> segs@[#[trigger] order@[j] as int].address
                            > segs@[n as int].address,
                decreases k,
            {
                k = k - 1;
            }
            proof {
                lemma_insert_at(segs@, order@, n, k as int);
            }
            let ghost old_order = order@;
            order.insert(k, n);
            assert(order@ =~= address_order(segs@, n + 1));
            assert forall|t: int| 0 <= t < order@.len() implies #[trigger] order@[t] < n + 1 by {
                if t < k {
                    assert(order@[t] == old_order[t]);
                } else if t > k {
                    assert(order@[t] == old_order[t - 1]);
                }
            }
        }
        n = n + 1;
    }
    order
}

/// Lays the non-empty segments out in one zero-padded buffer that starts at
/// the lowest address: the segments are taken in ascending order of address
/// (see `by_address`), and a segment that starts below the end of the one
/// before it is an overlap.
pub fn linearize(segs: &Vec<Segment>) -> (r: Result<Vec<u8>, ImageError>)
    ensures
        match r {
            Ok(v) => flattened(by_address(segs@)) == Ok::<Seq<u8>, ImageError>(v@),
            Err(e) => flattened(by_address(segs@)) == Err::<Seq<u8>, ImageError>(e),
        },
{
    let order = sort_by_address(segs);
    let ghost sorted = picked(segs@, order@);
    let mut out: Vec<u8> = Vec::new();
    let mut cursor: Option<u128> = None;
    let mut i: usize = 0;
    while i < order.len()
        invariant
            0 <= i <= order@.len(),
            sorted == picked(segs@, order@),
            order@ == address_order(segs@, segs@.len() as int),
            forall|t: int| 0 <= t < order@.len() ==> #[trigger] order@[t] < segs@.len(),
            cursor is None ==> out@.len() == 0,
            layout(sorted.subrange(0, i as int)) matches Ok((o, c)) && o == out@ && c == match cursor {
                Some(x) => Some(x as int),
                None => None::<int>,
            },
        decreases order@.len() - i,
    {
        let ghost pre = sorted.subrange(0, i as int);
        assert(sorted.subrange(0, i + 1).drop_last() =~= pre);
        let s = &segs[order[i]];
        assert(*s == sorted[i as int]);
        let n = s.data.len();
        if n > 0 {
            match cursor {
                None => {
                    out.extend_from_slice(s.data.as_slice());
                    assert(out@ =~= s.data@);
                },
                Some(c) => {
                    if (s.address as u128) < c {
                        proof {
                            lemma_layout_error_stays(sorted, i + 1);
                        }
                        return Err(ImageError::AddressOverlap);
                    }
                    let pad: u128 = s.address as u128 - c;
                    if out.len() as u128 + pad + n as u128 > usize::MAX as u128 {
                        proof {
                            lemma_layout_error_stays(sorted, i + 1);
                        }
                        return Err(ImageError::TooLarge);
                    }
                    let ghost before = out@;
                    out.resize(out.len() + pad as usize, 0u8);
                    assert(out@ =~= before + zeros(pad as int));
                    out.extend_from_slice(s.data.as_slice());
                    assert(out@ =~= before + zeros(pad as int) + s.data@);
                },
            }
            cursor = Some(s.address as u128 + n as u128);
        }
        i = i + 1;
    }
    assert(sorted.subrange(0, sorted.len() as int) =~= sorted);
    Ok(out)
}

} // verus!

verus! {

/// Segments that are all non-empty, each starting at or after the end of the
/// one before it.
pub open spec fn ascending_disjoint(segs: Seq<Segment>) -> bool {
    &&& forall|i: int| 0 <= i < segs.len() ==> #[trigger] segs[i].data@.len() > 0
    &&& forall|i: int|
        0 <= i < segs.len() - 1 ==> #[trigger] segs[i + 1].address >= segs[i].address + segs[i].data@.len()
}

/// The segments at the indices `order` come in ascending order of address.
pub open spec fn ascending_at(segs: Seq<Segment>, order: Seq<usize>) -> bool {
    forall|a: int, b: int|
        0 <= a < b < order.len() ==> segs[#[trigger] order[a] as int].address <= segs[#[trigger] order[b] as int].address
}

proof fn lemma_insert_index(segs: Seq<Segment>, order: Seq<usize>, i: usize)
    requires
        ascending_at(segs, order),
    ensures
        ascending_at(segs, insert_index(segs, order, i)),
        insert_index(segs, order, i).len() == order.len() + 1,
        forall|x: usize| #[trigger] insert_index(segs, order, i).contains(x) <==> (order.contains(x) || x == i),
    decreases order.len(),
{
    let r = insert_index(segs, order, i);
    if order.len() == 0 {
        assert(r =~= seq![i]);
        assert forall|x: usize| #[trigger] r.contains(x) <==> (order.contains(x) || x == i) by {
            if r.contains(x) {
                let k = choose|k: int| 0 <= k < r.len() && r[k] == x;
                assert(k == 0);
            }
            if x == i {
                assert(r[0] == x);
            }
        }
    } else if segs[order.last() as int].address <= segs[i as int].address {
        assert forall|x: usize| #[trigger] r.contains(x) <==> (order.contains(x) || x == i) by {
            if r.contains(x) {
                let k = choose|k: int| 0 <= k < r.len() && r[k] == x;
                if k < order.len() {
                    assert(order[k] == x);
                }
            }
            if order.contains(x) {
                let k = choose|k: int| 0 <= k < order.len() && order[k] == x;
                assert(r[k] == x);
            }
            if x == i {
                assert(r[order.len() as int] == x);
            }
        }
        assert forall|a: int, b: int| 0 <= a < b < r.len() implies segs[#[trigger] r[a] as int].address
            <= segs[#[trigger] r[b] as int].address by {
            if b == order.len() {
                assert(r[a] == order[a]);
                if a < order.len() - 1 {
                    assert(segs[order[a] as int].address <= segs[order[order.len() - 1] as int].address);
                }
            } else {
                assert(r[a] == order[a]);
                assert(r[b] == order[b]);
            }
        }
    } else {
        let front = order.drop_last();
        let last = order.last();
        assert(ascending_at(segs, front)) by {
            assert forall|a: int, b: int| 0 <= a < b < front.len() implies segs[#[trigger] front[a] as int].address
                <= segs[#[trigger] front[b] as int].address by {
                assert(front[a] == order[a]);
                assert(front[b] == order[b]);
            }
        }
        lemma_insert_index(segs, front, i);
        let inner = insert_index(segs, front, i);
        assert(r == inner.push(last));
        assert forall|x: usize| #[trigger] r.contains(x) <==> (order.contains(x) || x == i) by {
            if r.contains(x) {
                let k = choose|k: int| 0 <= k < r.len() && r[k] == x;
                if k < inner.len() {
                    assert(inner[k] == x);
                    assert(inner.contains(x));
                    if front.contains(x) {
                        let t = choose|t: int| 0 <= t < front.len() && front[t] == x;
                        assert(order[t] == x);
                    }
                } else {
                    assert(order[order.len() - 1] == x);
                }
            }
            if order.contains(x) {
                let k = choose|k: int| 0 <= k < order.len() && order[k] == x;
                if k < front.len() {
                    assert(front[k] == x);
                    assert(front.contains(x));
                    assert(inner.contains(x));
                    let t = choose|t: int| 0 <= t < inner.len() && inner[t] == x;
                    assert(r[t] == x);
                } else {
                    assert(r[inner.len() as int] == x);
                }
            }
            if x == i {
                assert(inner.contains(x));
                let t = choose|t: int| 0 <= t < inner.len() && inner[t] == x;
                assert(r[t] == x);
            }
        }
        assert forall|a: int, b: int| 0 <= a < b < r.len() implies segs[#[trigger] r[a] as int].address
            <= segs[#[trigger] r[b] as int].address by {
            if b == inner.len() {
                let x = inner[a];
                assert(r[a] == x);
                assert(inner.contains(x));
                if front.contains(x) {
                    let t = choose|t: int| 0 <= t < front.len() && front[t] == x;
                    assert(order[t] == x);
                    assert(segs[order[t] as int].address <= segs[order[order.len() - 1] as int].address);
                }
            } else {
                assert(r[a] == inner[a]);
                assert(r[b] == inner[b]);
            }
        }
    }
}

proof fn lemma_address_order_sorted(segs: Seq<Segment>, n: int)
    requires
        0 <= n <= segs.len(),
        segs.len() <= usize::MAX,
    ensures
        ascending_at(segs, address_order(segs, n)),
        forall|x: usize| #[trigger] address_order(segs, n).contains(x) <==> (x < n && segs[x as int].data@.len() > 0),
    decreases n,
{
    if n > 0 {
        lemma_address_order_sorted(segs, n - 1);
        let rest = address_order(segs, n - 1);
        if segs[n - 1].data@.len() > 0 {
            lemma_insert_index(segs, rest, (n - 1) as usize);
        }
        assert forall|x: usize| #[trigger] address_order(segs, n).contains(x) <==> (x < n && segs[x as int].data@.len()
            > 0) by {
            if x == (n - 1) as usize {
                assert(x as int == n - 1);
            }
        }
    } else {
        assert forall|x: usize| #[trigger] address_order(segs, n).contains(x) <==> (x < n && segs[x as int].data@.len()
            > 0) by {
            assert(address_order(segs, n) =~= Seq::<usize>::empty());
        }
    }
}

/// Sorting by address keeps exactly the non-empty segments and puts them in
/// ascending order of address: each is taken from the list, and each
/// non-empty segment of the list is taken.
pub proof fn lemma_by_address_sorted(segs: Seq<Segment>)
    requires
        segs.len() <= usize::MAX,
    ensures
        forall|a: int, b: int|
            0 <= a < b < by_address(segs).len() ==> #[trigger] by_address(segs)[a].address
                <= #[trigger] by_address(segs)[b].address,
        forall|a: int|
            0 <= a < by_address(segs).len() ==> exists|k: int|
                0 <= k < segs.len() && segs[k].data@.len() > 0 && #[trigger] by_address(segs)[a] == segs[k],
        forall|k: int|
            0 <= k < segs.len() && #[trigger] segs[k].data@.len() > 0 ==> exists|a: int|
                0 <= a < by_address(segs).len() && by_address(segs)[a] == segs[k],
{
    let order = address_order(segs, segs.len() as int);
    lemma_address_order_sorted(segs, segs.len() as int);
    let sorted = by_address(segs);
    assert(sorted.len() == order.len());
    assert forall|a: int, b: int| 0 <= a < b < sorted.len() implies #[trigger] sorted[a].address
        <= #[trigger] sorted[b].address by {
        assert(segs[order[a] as int].address <= segs[order[b] as int].address);
    }
    assert forall|a: int| 0 <= a < sorted.len() implies exists|k: int|
        0 <= k < segs.len() && segs[k].data@.len() > 0 && #[trigger] sorted[a] == segs[k] by {
        assert(order.contains(order[a]));
        assert(sorted[a] == segs[order[a] as int]);
        let k = order[a] as int;
        assert(0 <= k < segs.len() && segs[k].data@.len() > 0 && sorted[a] == segs[k]);
    }
    assert forall|k: int| 0 <= k < segs.len() && #[trigger] segs[k].data@.len() > 0 implies exists|a: int|
        0 <= a < sorted.len() && sorted[a] == segs[k] by {
        assert(order.contains(k as usize));
        let a = choose|a: int| 0 <= a < order.len() && order[a] == k as usize;
        assert(sorted[a] == segs[k]);
    }
}

/// Non-empty segments already in ascending, non-overlapping order keep their
/// order when sorted by address.
pub proof fn lemma_sorted_input_kept(segs: Seq<Segment>)
    requires
        ascending_disjoint(segs),
        segs.len() <= usize::MAX,
    ensures
        by_address(segs) == segs,
{
    lemma_order_identity(segs, segs.len() as int);
    let order = address_order(segs, segs.len() as int);
    assert forall|i: int| 0 <= i < segs.len() implies #[trigger] by_address(segs)[i] == segs[i] by {
        assert(order[i] == i as usize);
    }
    assert(by_address(segs) =~= segs);
}

proof fn lemma_order_identity(segs: Seq<Segment>, n: int)
    requires
        ascending_disjoint(segs),
        0 <= n <= segs.len(),
        segs.len() <= usize::MAX,
    ensures
        address_order(segs, n) == Seq::new(n as nat, |i: int| i as usize),
    decreases n,
{
    if n > 0 {
        lemma_order_identity(segs, n - 1);
        let rest = address_order(segs, n - 1);
        assert(segs[n - 1].data@.len() > 0);
        assert(address_order(segs, n) == insert_index(segs, rest, (n - 1) as usize));
        if n > 1 {
            let k = n - 2;
            assert(segs[k + 1].address >= segs[k].address + segs[k].data@.len());
            assert(rest.last() == (n - 2) as usize);
            assert(segs[rest.last() as int].address <= segs[((n - 1) as usize) as int].address);
            assert(insert_index(segs, rest, (n - 1) as usize) == rest.push((n - 1) as usize));
        } else {
            assert(insert_index(segs, rest, (n - 1) as usize) == seq![(n - 1) as usize]);
        }
        assert(address_order(segs, n) =~= Seq::new(n as nat, |i: int| i as usize));
    } else {
        assert(address_order(segs, n) =~= Seq::new(n as nat, |i: int| i as usize));
    }
}

/// For a non-empty list of non-empty segments in ascending, non-overlapping
/// order, the flattened image spans from the first segment's address to the
/// end of the last one: its length is
/// `last.address + last.data.len() - first.address`.
pub proof fn lemma_flattened_length(segs: Seq<Segment>)
    requires
        0 < segs.len() <= usize::MAX,
        ascending_disjoint(segs),
        segs.last().address + segs.last().data@.len() - segs[0].address <= usize::MAX,
    ensures
        by_address(segs) == segs,
        flattened(segs) matches Ok(out) && out.len() == segs.last().address + segs.last().data@.len()
            - segs[0].address,
{
    lemma_sorted_input_kept(segs);
    lemma_layout_span(segs);
}

/// For a non-empty list of non-empty segments in ascending, non-overlapping
/// order, byte `k` of segment `j` sits in the flattened image at the
/// segment's distance from the first segment's address, plus `k`.
pub proof fn lemma_flattened_placement(segs: Seq<Segment>, j: int, k: int)
    requires
        segs.len() > 0,
        ascending_disjoint(segs),
        segs.last().address + segs.last().data@.len() - segs[0].address <= usize::MAX,
        0 <= j < segs.len(),
        0 <= k < segs[j].data@.len(),
    ensures
        segs[j].address >= segs[0].address,
        flattened(segs) matches Ok(out) && segs[j].address - segs[0].address + k < out.len() && out[segs[j].address
            - segs[0].address + k] == segs[j].data@[k],
    decreases segs.len(),
{
    lemma_layout_span(segs);
    let out = layout(segs)->Ok_0.0;
    if segs.len() == 1 {
        assert(segs.drop_last() =~= Seq::<Segment>::empty());
        assert(out == segs[0].data@);
    } else {
        let front = segs.drop_last();
        assert forall|i: int| 0 <= i < front.len() implies #[trigger] front[i].data@.len() > 0 by {
            assert(front[i] == segs[i]);
        }
        assert forall|i: int| 0 <= i < front.len() - 1 implies #[trigger] front[i + 1].address
            >= front[i].address + front[i].data@.len() by {
            assert(front[i] == segs[i]);
            assert(front[i + 1] == segs[i + 1]);
        }
        let m = segs.len() - 2;
        assert(segs[m + 1].address >= segs[m].address + segs[m].data@.len());
        assert(front.last() == segs[m]);
        assert(front[0] == segs[0]);
        lemma_layout_span(front);
        let prev = layout(front)->Ok_0.0;
        let s = segs.last();
        let pad = s.address - (front.last().address + front.last().data@.len());
        assert(out == prev + zeros(pad) + s.data@);
        assert(out.len() == prev.len() + pad + s.data@.len());
        if j < segs.len() - 1 {
            assert(front[j] == segs[j]);
            lemma_flattened_placement(front, j, k);
            let idx = segs[j].address - segs[0].address + k;
            assert((prev + zeros(pad))[idx] == prev[idx]);
            assert(out[idx] == (prev + zeros(pad))[idx]);
        } else {
            lemma_flattened_placement(front, m, 0);
            let idx = segs[j].address - segs[0].address + k;
            assert(idx == prev.len() + pad + k);
            assert((prev + zeros(pad)).len() == prev.len() + pad);
            assert(out[idx] == s.data@[k]);
        }
    }
}

/// For a non-empty list of non-empty segments in ascending, non-overlapping
/// order, every address between the end of segment `j` and the start of
/// segment `j + 1` holds a zero byte in the flattened image.
pub proof fn lemma_flattened_gap(segs: Seq<Segment>, j: int, a: int)
    requires
        segs.len() > 0,
        ascending_disjoint(segs),
        segs.last().address + segs.last().data@.len() - segs[0].address <= usize::MAX,
        0 <= j < segs.len() - 1,
        segs[j].address + segs[j].data@.len() <= a < segs[j + 1].address,
    ensures
        flattened(segs) matches Ok(out) && 0 <= a - segs[0].address < out.len() && out[a - segs[0].address] == 0,
    decreases segs.len(),
{
    lemma_layout_span(segs);
    lemma_flattened_placement(segs, j, 0);
    let out = layout(segs)->Ok_0.0;
    let front = segs.drop_last();
    assert forall|i: int| 0 <= i < front.len() implies #[trigger] front[i].data@.len() > 0 by {
        assert(front[i] == segs[i]);
    }
    assert forall|i: int| 0 <= i < front.len() - 1 implies #[trigger] front[i + 1].address
        >= front[i].address + front[i].data@.len() by {
        assert(front[i] == segs[i]);
        assert(front[i + 1] == segs[i + 1]);
    }
    let m = segs.len() - 2;
    assert(segs[m + 1].address >= segs[m].address + segs[m].data@.len());
    assert(front.last() == segs[m]);
    assert(front[0] == segs[0]);
    lemma_layout_span(front);
    let prev = layout(front)->Ok_0.0;
    let s = segs.last();
    let pad = s.address - (front.last().address + front.last().data@.len());
    assert(out == prev + zeros(pad) + s.data@);
    let idx = a - segs[0].address;
    if j == m {
        assert(prev.len() <= idx < prev.len() + pad);
        assert((prev + zeros(pad))[idx] == 0);
        assert(out[idx] == (prev + zeros(pad))[idx]);
    } else {
        assert(front[j] == segs[j]);
        assert(front[j + 1] == segs[j + 1]);
        lemma_flattened_gap(front, j, a);
        assert((prev + zeros(pad))[idx] == prev[idx]);
        assert(out[idx] == (prev + zeros(pad))[idx]);
    }
}

proof fn lemma_layout_span(segs: Seq<Segment>)
    requires
        segs.len() > 0,
        ascending_disjoint(segs),
        segs.last().address + segs.last().data@.len() - segs[0].address <= usize::MAX,
    ensures
        layout(segs) matches Ok((out, cursor)) && out.len() == segs.last().address
            + segs.last().data@.len() - segs[0].address && cursor == Some(
            segs.last().address + segs.last().data@.len(),
        ),
    decreases segs.len(),
{
    let s = segs.last();
    assert(s.data@.len() > 0);
    if segs.len() == 1 {
        assert(segs.drop_last() =~= Seq::<Segment>::empty());
    } else {
        let front = segs.drop_last();
        assert forall|i: int| 0 <= i < front.len() implies #[trigger] front[i].data@.len() > 0 by {
            assert(front[i] == segs[i]);
        }
        assert forall|i: int| 0 <= i < front.len() - 1 implies #[trigger] front[i + 1].address
            >= front[i].address + front[i].data@.len() by {
            assert(front[i] == segs[i]);
            assert(front[i + 1] == segs[i + 1]);
        }
        let k = segs.len() - 2;
        assert(segs[k + 1].address >= segs[k].address + segs[k].data@.len());
        assert(front.last() == segs[k]);
        lemma_layout_span(front);
    }
}

} // verus!
