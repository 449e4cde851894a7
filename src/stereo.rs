//! Pairing of left and right camera frames by their position in time.
use vstd::prelude::*;
use crate::timestamp::Timestamp;

verus! {

/// A left and a right frame at one moment; either may be missing.
pub type Pair = (Option<Timestamp>, Option<Timestamp>);

/// The pair at position `i`, where the shorter side counts as missing.
pub open spec fn pair_at(l: Seq<Option<Timestamp>>, r: Seq<Option<Timestamp>>, i: int) -> Pair {
    (if i < l.len() {
        l[i]
    } else {
        None
    }, if i < r.len() {
        r[i]
    } else {
        None
    })
}

/// 0 for a full pair, 1 for a partial one, 2 for an empty one.
pub open spec fn pair_kind(p: Pair) -> int {
    match p {
        (Some(_), Some(_)) => 0,
        (None, None) => 2,
        _ => 1,
    }
}

/// Whether a pair is kept: full ones always, the others unless ignored.
pub open spec fn is_kept(p: Pair, ignore_partial: bool, ignore_empty: bool) -> bool {
    if pair_kind(p) == 0 {
        true
    } else if pair_kind(p) == 2 {
        !ignore_empty
    } else {
        !ignore_partial
    }
}

/// The kept pairs among the first `n` positions, in order.
pub open spec fn kept_pairs(
    l: Seq<Option<Timestamp>>,
    r: Seq<Option<Timestamp>>,
    ignore_partial: bool,
    ignore_empty: bool,
    n: nat,
) -> Seq<Pair>
    decreases n,
{
    if n == 0 {
        Seq::empty()
    } else {
        let prev = kept_pairs(l, r, ignore_partial, ignore_empty, (n - 1) as nat);
        let p = pair_at(l, r, n - 1);
        if is_kept(p, ignore_partial, ignore_empty) {
            prev.push(p)
        } else {
            prev
        }
    }
}

/// How many of the first `n` positions hold a pair of `kind`.
pub open spec fn kind_count(l: Seq<Option<Timestamp>>, r: Seq<Option<Timestamp>>, kind: int, n: nat) -> nat
    decreases n,
{
    if n == 0 {
        0
    } else {
        kind_count(l, r, kind, (n - 1) as nat) + if pair_kind(pair_at(l, r, n - 1)) == kind {
            1nat
        } else {
            0nat
        }
    }
}

/// A full pair whose OS times are 10 ms or more apart.
pub open spec fn misaligned(p: Pair) -> bool {
    match p {
        (Some(a), Some(b)) => a.os as int - b.os as int >= 10 || b.os as int - a.os as int >= 10,
        _ => false,
    }
}

/// How many pairs of each kind there were.
#[derive(Clone, Copy, Debug, PartialEq, Eq)]
pub struct PairCounts {
    pub full: u32,
    pub partial: u32,
    pub empty: u32,
}

/// Pairs the left and right frame indices position by position (the
/// shorter one padded with missing frames) and keeps full pairs, and partial
/// and empty ones unless ignored; none where a full pair's OS times are
/// 10 ms or more apart.
pub fn pair_frames(
    left: &Vec<Option<Timestamp>>,
    right: &Vec<Option<Timestamp>>,
    ignore_partial: bool,
    ignore_empty: bool,
) -> (r: Option<(Vec<Pair>, PairCounts)>)
    requires
        left@.len() < u32::MAX,
        right@.len() < u32::MAX,
    ensures
        ({
            let n = if left@.len() > right@.len() {
                left@.len()
            } else {
                right@.len()
            };
            &&& r is None <==> exists|i: int|
                0 <= i < n && #[trigger] misaligned(pair_at(left@, right@, i))
            &&& r matches Some(t) ==> {
                &&& t.0@ == kept_pairs(left@, right@, ignore_partial, ignore_empty, n as nat)
                &&& t.1.full == kind_count(left@, right@, 0, n as nat)
                &&& t.1.partial == kind_count(left@, right@, 1, n as nat)
                &&& t.1.empty == kind_count(left@, right@, 2, n as nat)
            }
        }),
{
    let n = if left.len() > right.len() {
        left.len()
    } else {
        right.len()
    };
    let mut res: Vec<Pair> = Vec::new();
    let mut counts = PairCounts { full: 0, partial: 0, empty: 0 };
    let mut i: usize = 0;
    while i < n
        invariant
            i <= n,
            n == if left@.len() > right@.len() {
                left@.len()
            } else {
                right@.len()
            },
            n < u32::MAX,
            forall|j: int| 0 <= j < i ==> !#[trigger] misaligned(pair_at(left@, right@, j)),
            res@ == kept_pairs(left@, right@, ignore_partial, ignore_empty, i as nat),
            counts.full == kind_count(left@, right@, 0, i as nat),
            counts.partial == kind_count(left@, right@, 1, i as nat),
            counts.empty == kind_count(left@, right@, 2, i as nat),
            counts.full + counts.partial + counts.empty == i,
        decreases n - i,
    {
        let l = if i < left.len() {
            left[i]
        } else {
            None
        };
        let r = if i < right.len() {
            right[i]
        } else {
            None
        };
        let p: Pair = (l, r);
        proof {
            assert(p == pair_at(left@, right@, i as int));
        }
        let keep = match p {
            (Some(a), Some(b)) => {
                if (a.os >= b.os && a.os - b.os >= 10) || (b.os > a.os && b.os - a.os >= 10) {
                    proof {
                        assert(misaligned(pair_at(left@, right@, i as int)));
                    }
                    return None;
                }
                counts.full = counts.full + 1;
                true
            },
            (None, None) => {
                counts.empty = counts.empty + 1;
                !ignore_empty
            },
            _ => {
                counts.partial = counts.partial + 1;
                !ignore_partial
            },
        };
        if keep {
            res.push(p);
        }
        i += 1;
    }
    Some((res, counts))
}

} // verus!
