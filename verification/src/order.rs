//! The deterministic order imposed on candidate records: ascending free
//! space, with ascending mount point as the tie-break (and the remaining
//! fields closing the order, so that distinct records never compare equal).

use vstd::prelude::*;

use vstd::relations::{sorted_by, total_ordering};

use crate::device::{Device, DeviceModel};
use crate::normalize::views;
use crate::strcmp::{lemma_lex_le_antisym, lemma_lex_le_refl, lemma_lex_le_total,
    lemma_lex_le_trans, lex_le, str_eq, str_le};

verus! {

/// The sort key: free bytes first, then the mount point lexicographically,
/// then the remaining fields, so that the relation is a total order on
/// records (two records compare both ways only when all fields are equal).
pub open spec fn dev_le(a: DeviceModel, b: DeviceModel) -> bool {
    if a.free != b.free {
        a.free < b.free
    } else if a.mount_point != b.mount_point {
        lex_le(a.mount_point, b.mount_point)
    } else if a.fs_type != b.fs_type {
        lex_le(a.fs_type, b.fs_type)
    } else {
        lex_le(a.device_type, b.device_type)
    }
}

/// [`dev_le`] as a relation value, for use with vstd's ordering lemmas.
pub open spec fn dev_order() -> spec_fn(DeviceModel, DeviceModel) -> bool {
    |a: DeviceModel, b: DeviceModel| dev_le(a, b)
}

pub proof fn lemma_dev_le_refl(a: DeviceModel)
    ensures
        dev_le(a, a),
{
    lemma_lex_le_refl(a.device_type);
}

pub proof fn lemma_dev_le_total(a: DeviceModel, b: DeviceModel)
    ensures
        dev_le(a, b) || dev_le(b, a),
{
    lemma_lex_le_total(a.mount_point, b.mount_point);
    lemma_lex_le_total(a.fs_type, b.fs_type);
    lemma_lex_le_total(a.device_type, b.device_type);
}

pub proof fn lemma_dev_le_antisym(a: DeviceModel, b: DeviceModel)
    requires
        dev_le(a, b),
        dev_le(b, a),
    ensures
        a == b,
{
    assert(a.free == b.free);
    if a.mount_point != b.mount_point {
        lemma_lex_le_antisym(a.mount_point, b.mount_point);
    }
    assert(a.mount_point == b.mount_point);
    if a.fs_type != b.fs_type {
        lemma_lex_le_antisym(a.fs_type, b.fs_type);
    }
    assert(a.fs_type == b.fs_type);
    lemma_lex_le_antisym(a.device_type, b.device_type);
    assert(a =~= b);
}

pub proof fn lemma_dev_le_trans(a: DeviceModel, b: DeviceModel, c: DeviceModel)
    requires
        dev_le(a, b),
        dev_le(b, c),
    ensures
        dev_le(a, c),
{
    if a.free == c.free {
        assert(a.free == b.free && b.free == c.free);
        lemma_lex_le_refl(a.mount_point);
        lemma_lex_le_refl(b.mount_point);
        assert(lex_le(a.mount_point, b.mount_point));
        assert(lex_le(b.mount_point, c.mount_point));
        lemma_lex_le_trans(a.mount_point, b.mount_point, c.mount_point);
        if a.mount_point == c.mount_point {
            lemma_lex_le_antisym(a.mount_point, b.mount_point);
            assert(a.mount_point == b.mount_point && b.mount_point == c.mount_point);
            lemma_lex_le_refl(a.fs_type);
            lemma_lex_le_refl(b.fs_type);
            lemma_lex_le_trans(a.fs_type, b.fs_type, c.fs_type);
            if a.fs_type == c.fs_type {
                lemma_lex_le_antisym(a.fs_type, b.fs_type);
                assert(a.fs_type == b.fs_type && b.fs_type == c.fs_type);
                lemma_lex_le_trans(a.device_type, b.device_type, c.device_type);
            }
        }
    }
}

/// The record order is a total order, so sorting by it is deterministic.
pub proof fn lemma_dev_order_total_ordering()
    ensures
        total_ordering(dev_order()),
{
    let r = dev_order();
    assert forall|x: DeviceModel| #[trigger] r(x, x) by {
        lemma_dev_le_refl(x);
    }
    assert forall|x: DeviceModel, y: DeviceModel| #[trigger] r(x, y) && #[trigger] r(y, x)
        implies x == y by {
        lemma_dev_le_antisym(x, y);
    }
    assert forall|x: DeviceModel, y: DeviceModel, z: DeviceModel|
        #[trigger] r(x, y) && #[trigger] r(y, z) implies r(x, z) by {
        lemma_dev_le_trans(x, y, z);
    }
    assert forall|x: DeviceModel, y: DeviceModel| #[trigger] r(x, y) || #[trigger] r(y, x) by {
        lemma_dev_le_total(x, y);
    }
}

/// Whether `a` sorts at or before `b`.
pub fn device_le(a: &Device, b: &Device) -> (r: bool)
    ensures
        r == dev_le(a@, b@),
{
    if a.free != b.free {
        a.free < b.free
    } else if !str_eq(a.mount_point.as_str(), b.mount_point.as_str()) {
        str_le(a.mount_point.as_str(), b.mount_point.as_str())
    } else if !str_eq(a.fs_type.as_str(), b.fs_type.as_str()) {
        str_le(a.fs_type.as_str(), b.fs_type.as_str())
    } else {
        str_le(a.device_type.as_str(), b.device_type.as_str())
    }
}

/// Index at which `d` belongs within the sorted prefix `v[0..end]`.
fn find_insert_pos(v: &Vec<Device>, d: &Device, end: usize) -> (pos: usize)
    requires
        end <= v@.len(),
        sorted_by(views(v@).take(end as int), dev_order()),
    ensures
        pos <= end,
        forall|k: int| 0 <= k < pos ==> dev_le(#[trigger] views(v@)[k], d@),
        forall|k: int| pos <= k < end ==> dev_le(d@, #[trigger] views(v@)[k]),
{
    let mut pos: usize = 0;
    while pos < end
        invariant
            pos <= end <= v@.len(),
            sorted_by(views(v@).take(end as int), dev_order()),
            forall|k: int| 0 <= k < pos ==> dev_le(#[trigger] views(v@)[k], d@),
        decreases end - pos,
    {
        if !device_le(&v[pos], d) {
            proof {
                lemma_dev_le_total(views(v@)[pos as int], d@);
                assert forall|k: int| pos <= k < end implies dev_le(
                    d@,
                    #[trigger] views(v@)[k],
                ) by {
                    if k > pos {
                        let s = views(v@).take(end as int);
                        assert(dev_order()(s[pos as int], s[k]));
                        lemma_dev_le_trans(d@, views(v@)[pos as int], views(v@)[k]);
                    }
                }
            }
            return pos;
        }
        pos += 1;
    }
    pos
}

/// Sorts the records ascending by free bytes, tie-broken by mount point
/// (then by the remaining fields), keeping exactly the same records.
pub fn sort_devices(v: &mut Vec<Device>)
    ensures
        sorted_by(views(final(v)@), dev_order()),
        views(final(v)@).to_multiset() == views(old(v)@).to_multiset(),
{
    broadcast use vstd::seq_lib::group_to_multiset_ensures;
    broadcast use vstd::seq_lib::to_multiset_insert;

    if v.len() <= 1 {
        return;
    }
    let mut i: usize = 1;
    while i < v.len()
        invariant
            1 <= i <= v@.len(),
            sorted_by(views(v@).take(i as int), dev_order()),
            views(v@).to_multiset() == views(old(v)@).to_multiset(),
        decreases v@.len() - i,
    {
        let ghost before = views(v@);
        let d = v.remove(i);
        proof {
            assert(views(v@) =~= before.remove(i as int));
            assert(views(v@).take(i as int) =~= before.take(i as int));
        }
        let pos = find_insert_pos(&v, &d, i);
        let ghost mid = views(v@);
        v.insert(pos, d);
        proof {
            assert(views(v@) =~= mid.insert(pos as int, d@));
            assert(views(v@).to_multiset() == views(old(v)@).to_multiset()) by {
                broadcast use vstd::multiset::group_multiset_axioms;

                vstd::seq_lib::to_multiset_remove(before, i as int);
                vstd::seq_lib::to_multiset_insert(mid, pos as int, d@);
                vstd::seq_lib::to_multiset_contains(before, d@);
                assert(before[i as int] == d@);
                assert(before.contains(d@));
                assert(before.to_multiset().count(d@) > 0);
                assert(mid.to_multiset().insert(d@) =~= before.to_multiset());
            }
            assert(sorted_by(views(v@).take(i + 1), dev_order())) by {
                let s = views(v@).take(i + 1);
                assert forall|p: int, q: int| 0 <= p < q < s.len() implies dev_order()(
                    s[p],
                    s[q],
                ) by {
                    let prev = mid.take(i as int);
                    assert(forall|k: int| 0 <= k < i ==> #[trigger] mid[k] == prev[k]);
                    if p < pos && q < pos {
                        assert(s[p] == mid[p] && s[q] == mid[q]);
                        assert(dev_order()(prev[p], prev[q]));
                    } else if p < pos && q == pos {
                        assert(s[p] == mid[p]);
                        assert(s[q] == d@);
                        assert(dev_le(mid[p], d@));
                    } else if p < pos && q > pos {
                        assert(s[p] == mid[p] && s[q] == mid[q - 1]);
                        assert(dev_order()(prev[p], prev[q - 1]));
                    } else if p == pos {
                        assert(s[p] == d@);
                        assert(s[q] == mid[q - 1]);
                        assert(dev_le(d@, mid[q - 1]));
                    } else {
                        assert(s[p] == mid[p - 1] && s[q] == mid[q - 1]);
                        assert(dev_order()(prev[p - 1], prev[q - 1]));
                    }
                }
            }
        }
        i += 1;
    }
    proof {
        assert(views(v@).take(v@.len() as int) =~= views(v@));
    }
}

} // verus!
