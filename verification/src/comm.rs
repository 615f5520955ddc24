//! The lines two files have in common: the heart of a `comm`-style utility.
//! Reading the files and printing the result stay with the caller; this
//! module decides which lines are common.

use vstd::prelude::*;

verus! {

/// The character sequences of the given lines.
pub open spec fn line_views(lines: Seq<String>) -> Seq<Seq<char>> {
    lines.map_values(|s: String| s@)
}

/// Some line reads exactly `x`.
pub open spec fn has_line(ls: Seq<Seq<char>>, x: Seq<char>) -> bool {
    exists|i: int| 0 <= i < ls.len() && ls[i] == x
}

/// The lines of `second` that also occur in `first`, in the order `second`
/// holds them, each common line reported once: a line is reported exactly
/// when it occurs in `first` and has not already occurred earlier in
/// `second`.
pub open spec fn common_out(first: Seq<Seq<char>>, second: Seq<Seq<char>>) -> Seq<Seq<char>>
    decreases second.len(),
{
    if second.len() == 0 {
        Seq::empty()
    } else {
        common_out(first, second.drop_last()) + (if has_line(first, second.last()) && !has_line(
            second.drop_last(),
            second.last(),
        ) {
            seq![second.last()]
        } else {
            Seq::empty()
        })
    }
}

/// Whether any of the lines reads exactly like `x`.
fn contains_line(lines: &Vec<String>, x: &String) -> (r: bool)
    ensures
        r == has_line(line_views(lines@), x@),
{
    let n = lines.len();
    let mut i: usize = 0;
    while i < n
        invariant
            i <= n,
            n == lines@.len(),
            forall|t: int| 0 <= t < i ==> line_views(lines@)[t] != x@,
        decreases n - i,
    {
        if lines[i].eq(x) {
            proof {
                assert(line_views(lines@)[i as int] == x@);
            }
            return true;
        }
        i = i + 1;
    }
    false
}

/// Whether the line at `j` already occurs among the lines before it.
fn line_seen_before(lines: &Vec<String>, j: usize) -> (r: bool)
    requires
        j < lines@.len(),
    ensures
        r == has_line(line_views(lines@).take(j as int), lines@[j as int]@),
{
    let mut i: usize = 0;
    while i < j
        invariant
            i <= j,
            j < lines@.len(),
            forall|t: int| 0 <= t < i ==> line_views(lines@)[t] != lines@[j as int]@,
        decreases j - i,
    {
        if lines[i].eq(&lines[j]) {
            proof {
                assert(line_views(lines@).take(j as int)[i as int] == lines@[j as int]@);
            }
            return true;
        }
        i = i + 1;
    }
    proof {
        let ghost target = lines@[j as int]@;
        assert forall|t: int| 0 <= t < j implies line_views(lines@).take(j as int)[t]
            != target by {
            assert(line_views(lines@)[t] != lines@[j as int]@);
        }
    }
    false
}

/// The lines of `second` that also occur among the lines of `first`, in the
/// order of `second`, each reported once.
pub fn common_lines(first: &Vec<String>, second: &Vec<String>) -> (r: Vec<String>)
    ensures
        line_views(r@) == common_out(line_views(first@), line_views(second@)),
{
    let mut out: Vec<String> = Vec::new();
    let n = second.len();
    let mut j: usize = 0;
    proof {
        assert(line_views(second@).take(0) =~= Seq::<Seq<char>>::empty());
    }
    while j < n
        invariant
            j <= n,
            n == second@.len(),
            line_views(out@) == common_out(line_views(first@), line_views(second@).take(j as int)),
        decreases n - j,
    {
        let ghost fv = line_views(first@);
        let ghost sv = line_views(second@);
        let in_first = contains_line(first, &second[j]);
        let seen = line_seen_before(second, j);
        if in_first && !seen {
            let line = second[j].clone();
            out.push(line);
        }
        j = j + 1;
        proof {
            assert(sv.take(j as int).drop_last() =~= sv.take(j as int - 1));
            assert(sv.take(j as int).last() == sv[j as int - 1]);
            assert(line_views(out@) =~= common_out(fv, sv.take(j as int)));
        }
    }
    proof {
        assert(line_views(second@).take(n as int) =~= line_views(second@));
    }
    out
}

} // verus!
