//! The Selector: answers the enumeration query or the minimum-free-space
//! query over the normalized candidate set.

use vstd::prelude::*;

use vstd::relations::sorted_by;

use crate::device::{eligible, Device, DeviceModel};
use crate::error::SpaceError;
use crate::ignore::IgnoreList;
use crate::normalize::{is_normalization, normalize, views};
use crate::order::{dev_le, dev_order, device_le, lemma_dev_le_refl, lemma_dev_le_total,
    lemma_dev_le_trans, lemma_dev_order_total_ordering, sort_devices};
use crate::strcmp::{lemma_lex_le_refl, lex_le};

verus! {

/// The excluded mount points of an optional exclusion list.
pub open spec fn excluded(ignore: Option<&IgnoreList>) -> Seq<Seq<char>> {
    match ignore {
        Some(list) => list@,
        None => Seq::empty(),
    }
}

/// A record survives a minimum query's exclusion step when its mount point
/// is not an excluded entry (exact string match only).
pub open spec fn selectable(d: DeviceModel, ignore: Option<&IgnoreList>) -> bool {
    !excluded(ignore).contains(d.mount_point)
}

/// Enumerate mode: every candidate record, ordered ascending by free
/// bytes with the mount point as tie-break.
///
/// Fails with the no-devices error exactly when no record of the input is
/// an eligible candidate.
pub fn enumerate_query(raw: &Vec<Device>) -> (r: Result<Vec<Device>, SpaceError>)
    ensures
        r matches Ok(v) ==> is_normalization(views(raw@), views(v@)) && sorted_by(
            views(v@),
            dev_order(),
        ),
        r is Err <==> (forall|x: DeviceModel| views(raw@).contains(x) ==> !eligible(x)),
        r matches Err(e) ==> e is NoDevices,
{
    broadcast use vstd::seq_lib::group_to_multiset_ensures;

    let mut v = normalize(raw);
    if v.is_empty() {
        proof {
            assert(views(v@).len() == 0);
            assert forall|x: DeviceModel| views(raw@).contains(x) implies !eligible(x) by {
                if eligible(x) {
                    assert(views(v@).contains(x));
                }
            }
        }
        return Err(SpaceError::NoDevices);
    }
    proof {
        assert(views(v@).contains(views(v@)[0]));
        assert(views(raw@).contains(views(v@)[0]) && eligible(views(v@)[0]));
    }
    let ghost pre = views(v@);
    sort_devices(&mut v);
    proof {
        assert forall|x: DeviceModel| #[trigger] views(v@).contains(x) <==> pre.contains(x) by {
            assert(views(v@).contains(x) <==> views(v@).to_multiset().count(x) > 0);
            assert(pre.contains(x) <==> pre.to_multiset().count(x) > 0);
        }
        assert(views(v@).no_duplicates()) by {
            pre.lemma_multiset_has_no_duplicates();
            views(v@).lemma_multiset_has_no_duplicates_conv();
        }
    }
    Ok(v)
}

/// Minimum mode: the single remaining candidate with the least free
/// bytes, ties broken by the lexicographically least mount point, after
/// removing any candidate whose mount point is on the exclusion list.
///
/// Fails with the no-devices error exactly when no record of the input is
/// both eligible and free of the exclusion list — whether nothing was
/// eligible at all, or everything eligible was excluded.
pub fn minimum_query(raw: &Vec<Device>, ignore: Option<&IgnoreList>) -> (r: Result<
    Device,
    SpaceError,
>)
    ensures
        r matches Ok(d) ==> views(raw@).contains(d@) && eligible(d@) && selectable(d@, ignore),
        r matches Ok(d) ==> forall|y: DeviceModel|
            views(raw@).contains(y) && eligible(y) && selectable(y, ignore) ==> dev_le(d@, y),
        r matches Ok(d) ==> forall|y: DeviceModel|
            views(raw@).contains(y) && eligible(y) && selectable(y, ignore) ==> d@.free <= y.free
                && (d@.free == y.free ==> lex_le(d@.mount_point, y.mount_point)),
        r is Err <==> (forall|x: DeviceModel|
            views(raw@).contains(x) ==> !(eligible(x) && selectable(x, ignore))),
        r matches Err(e) ==> e is NoDevices,
{
    let candidates = normalize(raw);
    let mut best: Option<Device> = None;
    let mut i: usize = 0;
    while i < candidates.len()
        invariant
            i <= candidates@.len(),
            is_normalization(views(raw@), views(candidates@)),
            best matches Some(b) ==> views(candidates@).contains(b@) && eligible(b@) && selectable(
                b@,
                ignore,
            ),
            best matches Some(b) ==> forall|k: int|
                0 <= k < i && selectable(#[trigger] views(candidates@)[k], ignore) ==> dev_le(
                    b@,
                    views(candidates@)[k],
                ),
            best is None ==> forall|k: int|
                0 <= k < i ==> !selectable(#[trigger] views(candidates@)[k], ignore),
        decreases candidates@.len() - i,
    {
        let c = &candidates[i];
        let keep = match ignore {
            Some(list) => !list.contains_mount(c.mount_point.as_str()),
            None => true,
        };
        if keep {
            assert(selectable(c@, ignore));
            match &best {
                None => {
                    proof {
                        assert(views(candidates@).contains(c@)) by {
                            assert(views(candidates@)[i as int] == c@);
                        }
                        lemma_dev_le_refl(c@);
                    }
                    best = Some(c.clone());
                },
                Some(b) => {
                    if device_le(c, b) {
                        let ghost old_b = b@;
                        proof {
                            assert(views(candidates@).contains(c@)) by {
                                assert(views(candidates@)[i as int] == c@);
                            }
                            assert forall|k: int|
                                0 <= k < i + 1 && selectable(
                                    #[trigger] views(candidates@)[k],
                                    ignore,
                                ) implies dev_le(c@, views(candidates@)[k]) by {
                                if k < i {
                                    assert(dev_le(old_b, views(candidates@)[k]));
                                    lemma_dev_le_trans(c@, old_b, views(candidates@)[k]);
                                } else {
                                    assert(views(candidates@)[k] == c@);
                                    lemma_dev_le_refl(c@);
                                }
                            }
                        }
                        best = Some(c.clone());
                    } else {
                        proof {
                            lemma_dev_le_total(b@, c@);
                        }
                    }
                },
            }
        }
        i += 1;
    }
    proof {
        assert(i == candidates@.len());
    }
    match best {
        Some(b) => {
            proof {
                assert forall|y: DeviceModel|
                    views(raw@).contains(y) && eligible(y) && selectable(y, ignore) implies dev_le(
                    b@,
                    y,
                ) by {
                    assert(views(candidates@).contains(y));
                    let k = choose|k: int|
                        0 <= k < views(candidates@).len() && views(candidates@)[k] == y;
                    assert(dev_le(b@, views(candidates@)[k]));
                }
                assert forall|y: DeviceModel|
                    views(raw@).contains(y) && eligible(y) && selectable(y, ignore) implies b@.free
                    <= y.free && (b@.free == y.free ==> lex_le(b@.mount_point, y.mount_point)) by {
                    assert(dev_le(b@, y));
                    if b@.free == y.free && b@.mount_point == y.mount_point {
                        lemma_lex_le_refl(b@.mount_point);
                    }
                }
            }
            Ok(b)
        },
        None => {
            proof {
                assert forall|x: DeviceModel| views(raw@).contains(x) implies !(eligible(x)
                    && selectable(x, ignore)) by {
                    if eligible(x) && selectable(x, ignore) {
                        assert(views(candidates@).contains(x));
                        let k = choose|k: int|
                            0 <= k < views(candidates@).len() && views(candidates@)[k] == x;
                        assert(!selectable(views(candidates@)[k], ignore));
                    }
                }
            }
            Err(SpaceError::NoDevices)
        },
    }
}

/// Law: ordering determinism. The enumerated output is a function of the
/// input's records alone, not of their arrival order: two runs on inputs
/// holding the same records produce the very same output sequence.
pub proof fn lemma_enumerate_deterministic(
    raw1: Seq<DeviceModel>,
    raw2: Seq<DeviceModel>,
    out1: Seq<DeviceModel>,
    out2: Seq<DeviceModel>,
)
    requires
        forall|x: DeviceModel| #[trigger] raw1.contains(x) <==> raw2.contains(x),
        is_normalization(raw1, out1),
        sorted_by(out1, dev_order()),
        is_normalization(raw2, out2),
        sorted_by(out2, dev_order()),
    ensures
        out1 == out2,
{
    broadcast use vstd::seq_lib::group_to_multiset_ensures;

    out1.lemma_multiset_has_no_duplicates();
    out2.lemma_multiset_has_no_duplicates();
    assert(out1.to_multiset() =~= out2.to_multiset()) by {
        assert forall|x: DeviceModel| out1.to_multiset().count(x) == out2.to_multiset().count(
            x,
        ) by {
            assert(out1.contains(x) <==> out1.to_multiset().count(x) > 0);
            assert(out2.contains(x) <==> out2.to_multiset().count(x) > 0);
            assert(out1.contains(x) <==> out2.contains(x));
        }
    }
    lemma_dev_order_total_ordering();
    vstd::seq_lib::lemma_sorted_unique(out1, out2, dev_order());
    assert(out1 =~= out2);
}

} // verus!
