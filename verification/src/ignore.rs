//! The exclusion list: mount points to leave out of a minimum query,
//! parsed from one comma-delimited option value.

use vstd::prelude::*;

use vstd::string::{StringExecFns, StrSliceExecFns};

use crate::strcmp::str_eq;

verus! {

/// Index of the first comma of `s`, or `s.len()` if it has none.
pub open spec fn first_comma(s: Seq<char>) -> nat
    decreases s.len(),
{
    if s.len() == 0 {
        0
    } else if s[0] == ',' {
        0
    } else {
        1 + first_comma(s.drop_first())
    }
}

/// The comma-split of `s`: literal splitting on each comma, no trimming,
/// no path normalization. A sequence with n commas yields n + 1 segments,
/// empty segments included.
pub open spec fn split_commas(s: Seq<char>) -> Seq<Seq<char>>
    decreases s.len(),
{
    let i = first_comma(s);
    if i >= s.len() {
        seq![s]
    } else {
        seq![s.subrange(0, i as int)] + split_commas(s.subrange(i as int + 1, s.len() as int))
    }
}

/// A position before which no comma stands, and at which one stands (or
/// the end), is the first comma position.
proof fn lemma_first_comma_is(s: Seq<char>, k: int)
    requires
        0 <= k <= s.len(),
        forall|j: int| 0 <= j < k ==> s[j] != ',',
        k == s.len() || s[k] == ',',
    ensures
        first_comma(s) == k,
    decreases k,
{
    if k == 0 {
    } else {
        assert(s[0] != ',');
        assert(s.len() > 0);
        lemma_first_comma_is(s.drop_first(), k - 1);
    }
}

/// An optional, caller-supplied set of mount-point strings, used only to
/// exclude candidates at selection time. Membership is an exact string
/// match; order is irrelevant.
pub struct IgnoreList {
    pub entries: Vec<String>,
}

impl View for IgnoreList {
    type V = Seq<Seq<char>>;

    open spec fn view(&self) -> Seq<Seq<char>> {
        self.entries@.map_values(|e: String| e@)
    }
}

impl IgnoreList {
    /// Parses one delimited option value: split on each comma, keeping the
    /// segments exactly as written.
    pub fn parse(s: &str) -> (r: IgnoreList)
        ensures
            r@ == split_commas(s@),
    {
        let len = s.unicode_len();
        let mut entries: Vec<String> = Vec::new();
        let mut start: usize = 0;
        let mut i: usize = 0;
        proof {
            assert(s@.subrange(0, len as int) =~= s@);
            assert(entries@.map_values(|e: String| e@) + split_commas(s@) =~= split_commas(s@));
        }
        while i < len
            invariant
                start <= i <= len,
                len == s@.len(),
                forall|j: int| start <= j < i ==> s@[j] != ',',
                entries@.map_values(|e: String| e@) + split_commas(
                    s@.subrange(start as int, len as int),
                ) == split_commas(s@),
            decreases len - i,
        {
            if s.get_char(i) == ',' {
                let ghost old_entries = entries@.map_values(|e: String| e@);
                let ghost t = s@.subrange(start as int, len as int);
                let seg = s.substring_char(start, i);
                entries.push(String::from_str(seg));
                proof {
                    assert(forall|j: int| 0 <= j < t.len() ==> t[j] == s@[start + j]);
                    lemma_first_comma_is(t, i - start);
                    assert(t.subrange(0, i - start) =~= s@.subrange(start as int, i as int));
                    assert(t.subrange(i - start + 1, t.len() as int) =~= s@.subrange(
                        i + 1,
                        len as int,
                    ));
                    assert(split_commas(t) == seq![seg@] + split_commas(
                        s@.subrange(i + 1, len as int),
                    ));
                    assert(entries@.map_values(|e: String| e@) =~= old_entries.push(seg@));
                    assert(entries@.map_values(|e: String| e@) + split_commas(
                        s@.subrange(i + 1, len as int),
                    ) =~= old_entries + split_commas(t));
                }
                start = i + 1;
            }
            i += 1;
        }
        let ghost t = s@.subrange(start as int, len as int);
        let seg = s.substring_char(start, len);
        let ghost old_entries = entries@.map_values(|e: String| e@);
        entries.push(String::from_str(seg));
        proof {
            assert(forall|j: int| 0 <= j < t.len() ==> t[j] == s@[start + j]);
            lemma_first_comma_is(t, len - start);
            assert(split_commas(t) == seq![t]);
            assert(entries@.map_values(|e: String| e@) =~= old_entries.push(seg@));
            assert(entries@.map_values(|e: String| e@) =~= old_entries + seq![t]);
        }
        IgnoreList { entries }
    }

    /// Whether `m` is one of the excluded mount points.
    pub fn contains_mount(&self, m: &str) -> (r: bool)
        ensures
            r == self@.contains(m@),
    {
        let mut i: usize = 0;
        while i < self.entries.len()
            invariant
                i <= self.entries@.len(),
                forall|j: int| 0 <= j < i ==> self@[j] != m@,
            decreases self.entries@.len() - i,
        {
            if str_eq(self.entries[i].as_str(), m) {
                assert(self@[i as int] == m@);
                return true;
            }
            i += 1;
        }
        false
    }
}

} // verus!
