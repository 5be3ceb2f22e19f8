//! The Normalizer: reduces the raw record sequence to a deduplicated,
//! eligible candidate set.

use vstd::prelude::*;

use crate::device::{eligible, is_eligible, device_eq, Device, DeviceModel};

verus! {

/// The model of a sequence of records.
pub open spec fn views(s: Seq<Device>) -> Seq<DeviceModel> {
    s.map_values(|d: Device| d@)
}

/// `out` is a normalization of `raw`: duplicate-free, and containing
/// exactly the eligible records of `raw`. Two records are duplicates if
/// and only if all four fields are equal; the collapse is unordered (set
/// semantics), so no ordering is promised here.
pub open spec fn is_normalization(raw: Seq<DeviceModel>, out: Seq<DeviceModel>) -> bool {
    &&& out.no_duplicates()
    &&& forall|x: DeviceModel| #[trigger] out.contains(x) <==> raw.contains(x) && eligible(x)
}

/// Whether some record of `v` has the same four fields as `d`.
pub fn contains_device(v: &Vec<Device>, d: &Device) -> (r: bool)
    ensures
        r == views(v@).contains(d@),
{
    let mut i: usize = 0;
    while i < v.len()
        invariant
            i <= v@.len(),
            forall|j: int| 0 <= j < i ==> views(v@)[j] != d@,
        decreases v@.len() - i,
    {
        if device_eq(&v[i], d) {
            assert(views(v@)[i as int] == d@);
            return true;
        }
        i += 1;
    }
    false
}

/// Deduplicates the raw records and keeps only the eligible candidates.
///
/// The result holds exactly the eligible records of the input, each once,
/// in no promised order.
pub fn normalize(raw: &Vec<Device>) -> (out: Vec<Device>)
    ensures
        is_normalization(views(raw@), views(out@)),
{
    let mut out: Vec<Device> = Vec::new();
    let mut i: usize = 0;
    while i < raw.len()
        invariant
            i <= raw@.len(),
            views(out@).no_duplicates(),
            forall|x: DeviceModel| #[trigger]
                views(out@).contains(x) <==> views(raw@.take(i as int)).contains(x) && eligible(x),
        decreases raw@.len() - i,
    {
        let d = &raw[i];
        proof {
            assert(raw@.take(i + 1).drop_last() =~= raw@.take(i as int));
            assert(views(raw@.take(i + 1)).drop_last() =~= views(raw@.take(i as int)));
            assert(views(raw@.take(i + 1)).last() == d@);
            assert forall|x: DeviceModel| #[trigger] views(raw@.take(i + 1)).contains(x)
                <==> views(raw@.take(i as int)).contains(x) || x == d@ by {
                let s = views(raw@.take(i + 1));
                assert(s.drop_last() == views(raw@.take(i as int)));
                if views(raw@.take(i as int)).contains(x) || x == d@ {
                    if x == d@ {
                        assert(s[s.len() - 1] == x);
                    } else {
                        let k = choose|k: int|
                            0 <= k < views(raw@.take(i as int)).len() && views(
                                raw@.take(i as int),
                            )[k] == x;
                        assert(s[k] == x);
                    }
                }
                if s.contains(x) {
                    let k = choose|k: int| 0 <= k < s.len() && s[k] == x;
                    if k < s.len() - 1 {
                        assert(views(raw@.take(i as int))[k] == x);
                    }
                }
            }
        }
        if is_eligible(d) && !contains_device(&out, d) {
            let ghost old_out = views(out@);
            out.push(d.clone());
            proof {
                assert(views(out@) =~= old_out.push(d@));
                assert forall|x: DeviceModel| #[trigger] views(out@).contains(x)
                    <==> old_out.contains(x) || x == d@ by {
                    let s = views(out@);
                    if old_out.contains(x) || x == d@ {
                        if x == d@ {
                            assert(s[s.len() - 1] == x);
                        } else {
                            let k = choose|k: int|
                                0 <= k < old_out.len() && old_out[k] == x;
                            assert(s[k] == x);
                        }
                    }
                    if s.contains(x) {
                        let k = choose|k: int| 0 <= k < s.len() && s[k] == x;
                        if k < s.len() - 1 {
                            assert(old_out[k] == x);
                        }
                    }
                }
                assert(views(out@).no_duplicates()) by {
                    assert(views(out@).drop_last() =~= old_out);
                    assert(!old_out.contains(d@));
                    assert forall|p: int, q: int|
                        0 <= p < q < views(out@).len() implies views(out@)[p] != views(out@)[q] by {
                        if q == views(out@).len() - 1 {
                            assert(old_out[p] == views(out@)[p]);
                            assert(old_out.contains(views(out@)[p]));
                        }
                    }
                }
            }
        }
        i += 1;
    }
    proof {
        assert(raw@.take(raw@.len() as int) =~= raw@);
    }
    out
}

/// Law: normalizing is idempotent. A candidate set that already is a
/// normalization normalizes to itself: running the Normalizer twice on the
/// same raw input yields the same candidate set as running it once.
pub proof fn lemma_normalize_idempotent(
    raw: Seq<DeviceModel>,
    once: Seq<DeviceModel>,
    twice: Seq<DeviceModel>,
)
    requires
        is_normalization(raw, once),
        is_normalization(once, twice),
    ensures
        forall|x: DeviceModel| #[trigger] twice.contains(x) <==> once.contains(x),
        twice.to_multiset() == once.to_multiset(),
{
    assert forall|x: DeviceModel| #[trigger] twice.contains(x) <==> once.contains(x) by {
        if once.contains(x) {
            assert(raw.contains(x) && eligible(x));
        }
    }
    once.lemma_multiset_has_no_duplicates();
    twice.lemma_multiset_has_no_duplicates();
    assert(twice.to_multiset() =~= once.to_multiset()) by {
        broadcast use vstd::seq_lib::group_to_multiset_ensures;

        assert forall|x: DeviceModel| twice.to_multiset().count(x) == once.to_multiset().count(
            x,
        ) by {
            assert(twice.contains(x) <==> twice.to_multiset().count(x) > 0);
            assert(once.contains(x) <==> once.to_multiset().count(x) > 0);
        }
    }
}

} // verus!
