//! Keeping the items of a sequence whose flag is not set.
use vstd::prelude::*;

verus! {

/// The items of `s` whose flag in `drop` is not set, in their order.
pub open spec fn kept<T>(s: Seq<T>, drop: Seq<bool>) -> Seq<T>
    decreases s.len(),
{
    if s.len() == 0 {
        s
    } else {
        let rest = kept(s.drop_last(), drop.take(s.len() - 1));
        if drop[s.len() - 1] {
            rest
        } else {
            rest.push(s.last())
        }
    }
}

pub proof fn lemma_kept_step<T>(s: Seq<T>, drop: Seq<bool>, j: int)
    requires
        0 <= j < s.len(),
        s.len() == drop.len(),
    ensures
        kept(s.take(j + 1), drop.take(j + 1)) == if drop[j] {
            kept(s.take(j), drop.take(j))
        } else {
            kept(s.take(j), drop.take(j)).push(s[j])
        },
{
    assert(s.take(j + 1).drop_last() =~= s.take(j));
    assert(drop.take(j + 1).take(j) =~= drop.take(j));
}

/// Removes from `v` the items whose flag in `drop` is set.
pub fn retain_kept<T>(v: &mut Vec<T>, drop: &Vec<bool>)
    requires
        old(v)@.len() == drop@.len(),
    ensures
        final(v)@ == kept(old(v)@, drop@),
{
    let ghost s = v@;
    let n = drop.len();
    let mut i: usize = 0;
    let mut j: usize = 0;
    while j < n
        invariant
            n == drop@.len() == s.len(),
            i <= j <= n,
            i == kept(s.take(j as int), drop@.take(j as int)).len(),
            v@ == kept(s.take(j as int), drop@.take(j as int)) + s.skip(j as int),
        decreases n - j,
    {
        proof {
            lemma_kept_step(s, drop@, j as int);
        }
        if drop[j] {
            v.remove(i);
            assert(v@ =~= kept(s.take(j + 1), drop@.take(j + 1)) + s.skip(j + 1));
        } else {
            assert(v@ =~= kept(s.take(j + 1), drop@.take(j + 1)) + s.skip(j + 1));
            i += 1;
        }
        j += 1;
    }
    assert(s.take(n as int) =~= s);
    assert(drop@.take(n as int) =~= drop@);
    assert(v@ =~= kept(s, drop@));
}

/// Every item of `kept(s, drop)` is an item of `s`.
pub proof fn lemma_kept_from<T>(s: Seq<T>, drop: Seq<bool>)
    requires
        s.len() == drop.len(),
    ensures
        forall|i: int|
            0 <= i < kept(s, drop).len() ==> exists|j: int|
                0 <= j < s.len() && !drop[j] && #[trigger] kept(s, drop)[i] == s[j],
    decreases s.len(),
{
    if s.len() > 0 {
        let t = s.drop_last();
        let d = drop.take(s.len() - 1);
        lemma_kept_from(t, d);
        assert forall|i: int| 0 <= i < kept(s, drop).len() implies exists|j: int|
            0 <= j < s.len() && !drop[j] && #[trigger] kept(s, drop)[i] == s[j] by {
            if i < kept(t, d).len() {
                let j = choose|j: int| 0 <= j < t.len() && !d[j] && #[trigger] kept(t, d)[i] == t[j];
                assert(kept(s, drop)[i] == s[j]);
            } else {
                assert(kept(s, drop)[i] == s[s.len() - 1]);
            }
        }
    }
}

/// Keeping never lengthens a sequence.
pub proof fn lemma_kept_len<T>(s: Seq<T>, drop: Seq<bool>)
    ensures
        kept(s, drop).len() <= s.len(),
    decreases s.len(),
{
    if s.len() > 0 {
        lemma_kept_len(s.drop_last(), drop.take(s.len() - 1));
    }
}

} // verus!
