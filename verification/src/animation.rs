use vstd::prelude::*;

verus! {

/// One leg of a closed path through `n` control points: from the point
/// `from` to the point `to`.
#[derive(Debug, Clone, Copy, PartialEq, Eq, Structural)]
pub struct Leg {
    pub from: usize,
    pub to: usize,
}

/// The leg that follows the leg from point `i`, on a path through `points`
/// control points: the path goes from each point to the next and from the last
/// back to the first.
pub open spec fn leg_after(i: int, points: int) -> Leg {
    let from = if i + 1 >= points {
        0
    } else {
        i + 1
    };
    let to = if from + 1 == points {
        0
    } else {
        from + 1
    };
    Leg { from: from as usize, to: to as usize }
}

/// Steps to the next leg when the leg from point `i` is done. Both ends of
/// the new leg are control points of the path.
pub fn next_leg(i: usize, points: usize) -> (leg: Leg)
    requires
        points > 0,
        i < points,
    ensures
        leg == leg_after(i as int, points as int),
        leg.from == (i + 1) % (points as int),
        leg.to == (i + 2) % (points as int),
        leg.from < points,
        leg.to < points,
{
    let from = if i + 1 >= points {
        0
    } else {
        i + 1
    };
    let to = if from + 1 == points {
        0
    } else {
        from + 1
    };
    proof {
        lemma_wrap(i as int + 1, points as int);
        lemma_wrap(from as int + 1, points as int);
        if i + 1 >= points {
            lemma_wrap(i as int + 2, points as int);
        }
    }
    Leg { from, to }
}

/// Going once round: for `0 <= k <= n`, `k % n` is `k`, but 0 where `k` is `n`;
/// and one step more lands on `1 % n`.
proof fn lemma_wrap(k: int, n: int)
    requires
        n > 0,
        0 <= k <= n + 1,
    ensures
        k < n ==> k % n == k,
        k == n ==> k % n == 0,
        k == n + 1 ==> k % n == 1int % n,
{
    if k < n {
        vstd::arithmetic::div_mod::lemma_small_mod(k as nat, n as nat);
    } else if k == n {
        vstd::arithmetic::div_mod::lemma_mod_self_0(n);
    } else {
        vstd::arithmetic::div_mod::lemma_mod_adds(n, 1, n);
        vstd::arithmetic::div_mod::lemma_mod_self_0(n);
        vstd::arithmetic::div_mod::lemma_mod_twice(1, n);
    }
}

} // verus!
