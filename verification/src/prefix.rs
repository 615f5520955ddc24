//! The longest common prefix of a collection of strings.

use vstd::prelude::*;
use vstd::string::*;

verus! {

/// The character sequences of the given strings.
pub open spec fn char_views(strs: Seq<&str>) -> Seq<Seq<char>> {
    strs.map_values(|s: &str| s@)
}

/// `p` is a prefix of every one of the given character sequences.
pub open spec fn is_common_prefix(vs: Seq<Seq<char>>, p: Seq<char>) -> bool {
    forall|i: int|
        0 <= i < vs.len() ==> p.len() <= (#[trigger] vs[i]).len() && vs[i].take(p.len() as int)
            == p
}

/// The longest prefix shared by all of the strings: a common prefix of all of
/// them, itself a prefix of the first string, and maximal — it is the whole
/// of some string, or the next character differs somewhere. An empty
/// collection has the empty prefix.
pub fn longest_common_prefix(strs: Vec<&str>) -> (res: String)
    ensures
        strs@.len() == 0 ==> res@ == Seq::<char>::empty(),
        strs@.len() > 0 ==> {
            let vs = char_views(strs@);
            &&& is_common_prefix(vs, res@)
            &&& res@ == vs[0].take(res@.len() as int)
            &&& exists|i: int|
                0 <= i < vs.len() && ((#[trigger] vs[i]).len() == res@.len() || (res@.len()
                    < vs[i].len() && res@.len() < vs[0].len() && vs[i][res@.len() as int]
                    != vs[0][res@.len() as int]))
        },
{
    let ghost vs = char_views(strs@);
    let n = strs.len();
    if n == 0 {
        return String::new();
    }

    let mut min_len: usize = strs[0].unicode_len();
    let ghost mut min_holder: int = 0;
    let mut t: usize = 1;
    while t < n
        invariant
            1 <= t <= n,
            n == strs@.len(),
            vs == char_views(strs@),
            0 <= min_holder < t,
            min_len == vs[min_holder].len(),
            forall|i: int| 0 <= i < t ==> min_len <= (#[trigger] vs[i]).len(),
        decreases n - t,
    {
        let l = strs[t].unicode_len();
        if l < min_len {
            min_len = l;
            proof {
                min_holder = t as int;
            }
        }
        t = t + 1;
    }

    let mut lcp: usize = 0;
    let mut stop = false;
    while lcp < min_len && !stop
        invariant
            n == strs@.len(),
            n >= 1,
            vs == char_views(strs@),
            0 <= min_holder < n,
            min_len == vs[min_holder].len(),
            forall|i: int| 0 <= i < n ==> min_len <= (#[trigger] vs[i]).len(),
            lcp <= min_len,
            forall|i: int, p: int|
                0 <= i < n && 0 <= p < lcp ==> (#[trigger] vs[i][p]) == vs[0][p],
            stop ==> lcp < min_len && exists|i: int|
                0 <= i < n && (#[trigger] vs[i][lcp as int]) != vs[0][lcp as int],
        decreases min_len - lcp + (if stop { 0int } else { 1int }),
    {
        proof {
            assert(vs[0] == strs@[0]@);
            assert(lcp < vs[0].len());
        }
        let c0 = strs[0].get_char(lcp);
        let mut u: usize = 1;
        let mut mismatch = false;
        while u < n && !mismatch
            invariant
                n == strs@.len(),
                vs == char_views(strs@),
                1 <= u <= n,
                lcp < min_len,
                forall|i: int| 0 <= i < n ==> min_len <= (#[trigger] vs[i]).len(),
                c0 == vs[0][lcp as int],
                forall|i: int| 1 <= i < u ==> (#[trigger] vs[i][lcp as int]) == c0,
                mismatch ==> u < n && vs[u as int][lcp as int] != c0,
            decreases n - u + (if mismatch { 0int } else { 1int }),
        {
            proof {
                assert(vs[u as int] == strs@[u as int]@);
                assert(lcp < vs[u as int].len());
            }
            if strs[u].get_char(lcp) != c0 {
                mismatch = true;
            } else {
                u = u + 1;
            }
        }
        if mismatch {
            stop = true;
        } else {
            lcp = lcp + 1;
        }
    }

    proof {
        assert(vs[0] == strs@[0]@);
        assert(lcp <= vs[0].len());
    }
    let prefix = strs[0].substring_char(0, lcp);
    let res = String::from_str(prefix);
    proof {
        assert(res@ =~= vs[0].take(lcp as int));
        assert forall|i: int| 0 <= i < n implies res@.len() <= (#[trigger] vs[i]).len()
            && vs[i].take(res@.len() as int) == res@ by {
            assert(vs[i].take(lcp as int) =~= vs[0].take(lcp as int));
        }
        if !stop {
            assert(vs[min_holder].len() == res@.len());
        }
    }
    res
}

} // verus!
