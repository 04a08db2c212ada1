//! Ranking of semantic matches.
//!
//! A similarity is a 32-bit float. It is carried here by its bit pattern, and two
//! similarities are compared by an integer that orders bit patterns as the floats
//! they stand for are ordered.
use vstd::arithmetic::power2::{
    lemma_pow2_pos, lemma_pow2_strictly_increases, lemma_pow2_unfold, pow2,
};
use vstd::prelude::*;

verus! {

/// The bit pattern of 0.15: only similarities above it are meaningful.
pub const LEAST_SIMILARITY_BITS: u32 = 0x3e19_999a;

/// Whether the bit pattern is one of those that stand for no number.
pub open spec fn is_nan(bits: u32) -> bool {
    bits as int % 0x8000_0000 > 0x7f80_0000
}

/// An integer that is ordered as the float is: the magnitude bits, negated where the
/// sign bit is set.
pub open spec fn order_key(bits: u32) -> int {
    if bits < 0x8000_0000 {
        bits as int
    } else {
        0x8000_0000 - bits
    }
}

/// The magnitude of the number that a bit pattern stands for, in units of the smallest
/// positive one, which is two to the power of -149. The upper eight of its lower 31
/// bits are the exponent, the others the fraction. Infinity counts as the number that
/// would follow the largest one.
pub open spec fn magnitude(bits: u32) -> int {
    let exponent = bits as int % 0x8000_0000 / 0x80_0000;
    let fraction = bits as int % 0x80_0000;
    if exponent == 0 {
        fraction
    } else {
        (0x80_0000 + fraction) * pow2((exponent - 1) as nat)
    }
}

/// The number that a bit pattern stands for, in the same units. The top bit is the sign.
pub open spec fn scaled_value(bits: u32) -> int {
    if bits < 0x8000_0000 {
        magnitude(bits)
    } else {
        -magnitude(bits)
    }
}

/// Whether the similarity is high enough for a session to be shown.
pub open spec fn is_meaningful(bits: u32) -> bool {
    !is_nan(bits) && order_key(bits) > order_key(LEAST_SIMILARITY_BITS)
}

/// Whether the session at position `i` comes before the one at position `j`: it is
/// more similar, or as similar and first in the list.
pub open spec fn comes_before(scored: Seq<(i64, u32)>, i: int, j: int) -> bool {
    ||| order_key(scored[i].1) > order_key(scored[j].1)
    ||| order_key(scored[i].1) == order_key(scored[j].1) && i < j
}

/// `order` holds as many positions as there are from `lo` up to `hi`, all of them
/// from there, each before the next.
pub open spec fn in_rank_order(
    scored: Seq<(i64, u32)>,
    order: Seq<usize>,
    lo: int,
    hi: int,
) -> bool {
    &&& order.len() == hi - lo
    &&& forall|k: int| 0 <= k < order.len() ==> lo <= #[trigger] order[k] < hi
    &&& forall|a: int, b: int|
        0 <= a < b < order.len() ==> comes_before(
            scored,
            (#[trigger] order[a]) as int,
            (#[trigger] order[b]) as int,
        )
}

/// `order` lists all positions of `scored` from the most similar session to the least.
pub open spec fn is_ranking(scored: Seq<(i64, u32)>, order: Seq<usize>) -> bool {
    in_rank_order(scored, order, 0, scored.len() as int)
}

/// The positions in `order` whose similarity is meaningful, in the same order.
pub open spec fn kept(scored: Seq<(i64, u32)>, order: Seq<usize>) -> Seq<usize>
    decreases order.len(),
{
    if order.len() == 0 {
        Seq::empty()
    } else {
        let rest = kept(scored, order.drop_last());
        if is_meaningful(scored[order.last() as int].1) {
            rest.push(order.last())
        } else {
            rest
        }
    }
}

/// The identifiers of the first `limit` sessions that are kept.
pub open spec fn top(scored: Seq<(i64, u32)>, order: Seq<usize>, limit: int) -> Seq<i64> {
    let all = kept(scored, order);
    Seq::new(
        if limit <= all.len() { limit as nat } else { all.len() },
        |k: int| scored[all[k] as int].0,
    )
}

/// Whether the similarities can be ordered: a list of two or more must hold numbers
/// alone.
pub open spec fn can_be_ranked(scored: Seq<(i64, u32)>) -> bool {
    scored.len() <= 1 || forall|i: int| 0 <= i < scored.len() ==> !is_nan((#[trigger] scored[i]).1)
}

proof fn lemma_magnitude_grows(a: u32, b: u32)
    requires
        a < b < 0x8000_0000,
    ensures
        0 <= magnitude(a) < magnitude(b),
{
    let ea = a as int / 0x80_0000;
    let eb = b as int / 0x80_0000;
    let fa = a as int % 0x80_0000;
    let fb = b as int % 0x80_0000;
    assert(ea <= eb);
    if ea > 0 {
        lemma_pow2_pos((ea - 1) as nat);
    }
    if eb > 0 {
        lemma_pow2_pos((eb - 1) as nat);
    }
    if ea == eb {
        assert(fa < fb);
        if ea > 0 {
            let p = pow2((ea - 1) as nat) as int;
            assert(0 <= (0x80_0000 + fa) * p < (0x80_0000 + fb) * p) by (nonlinear_arith)
                requires
                    0 <= fa < fb,
                    p > 0,
            ;
        }
    } else {
        let q = pow2((eb - 1) as nat) as int;
        assert((0x80_0000 + fb) * q >= 0x80_0000 * q) by (nonlinear_arith)
            requires
                fb >= 0,
                q > 0,
        ;
        if ea > 0 {
            let p = pow2((ea - 1) as nat) as int;
            lemma_pow2_unfold(ea as nat);
            if ea < eb - 1 {
                lemma_pow2_strictly_increases(ea as nat, (eb - 1) as nat);
            }
            assert(2 * p <= q);
            assert(0 <= (0x80_0000 + fa) * p < 0x100_0000 * p) by (nonlinear_arith)
                requires
                    0 <= fa < 0x80_0000,
                    p > 0,
            ;
        }
    }
}

/// Bit patterns are ordered by their keys as they are by the numbers that they stand for.
pub proof fn lemma_keys_are_ordered_as_numbers(a: u32, b: u32)
    ensures
        order_key(a) < order_key(b) <==> scaled_value(a) < scaled_value(b),
        order_key(a) == order_key(b) <==> scaled_value(a) == scaled_value(b),
{
    let x: u32 = (a as int % 0x8000_0000) as u32;
    let y: u32 = (b as int % 0x8000_0000) as u32;
    assert(x % 0x80_0000 == a as int % 0x80_0000);
    assert(y % 0x80_0000 == b as int % 0x80_0000);
    assert(magnitude(x) == magnitude(a));
    assert(magnitude(y) == magnitude(b));
    if x < y {
        lemma_magnitude_grows(x, y);
    } else if y < x {
        lemma_magnitude_grows(y, x);
    }
    if x > 0 {
        lemma_magnitude_grows(0, x);
    }
    if y > 0 {
        lemma_magnitude_grows(0, y);
    }
    assert(magnitude(0) == 0);
}

proof fn lemma_distinct_below(order: Seq<usize>, n: nat)
    requires
        n <= usize::MAX,
        order.len() == n,
        forall|k: int| 0 <= k < order.len() ==> 0 <= #[trigger] order[k] < n,
        order.no_duplicates(),
    ensures
        forall|i: usize| i < n ==> #[trigger] order.contains(i),
{
    let all = Set::<usize>::new(|i: usize| i < n);
    let found = order.to_set();
    lemma_usize_range_size(n);
    order.unique_seq_to_set();
    assert(found.subset_of(all));
    vstd::set_lib::lemma_len_subset(found, all);
    assert forall|i: usize| i < n implies #[trigger] order.contains(i) by {
        if !found.contains(i) {
            assert(found.subset_of(all.remove(i)));
            vstd::set_lib::lemma_len_subset(found, all.remove(i));
        }
    }
}

proof fn lemma_usize_range_size(n: nat)
    requires
        n <= usize::MAX,
    ensures
        Set::<usize>::new(|i: usize| i < n).finite(),
        Set::<usize>::new(|i: usize| i < n).len() == n,
    decreases n,
{
    let all = Set::<usize>::new(|i: usize| i < n);
    if n == 0 {
        assert(all =~= Set::<usize>::empty());
    } else {
        lemma_usize_range_size((n - 1) as nat);
        let shorter = Set::<usize>::new(|i: usize| i < n - 1);
        assert(all =~= shorter.insert((n - 1) as usize));
    }
}

/// A ranking leaves no session out.
pub proof fn lemma_ranking_is_complete(scored: Seq<(i64, u32)>, order: Seq<usize>)
    requires
        scored.len() <= usize::MAX,
        is_ranking(scored, order),
    ensures
        forall|i: usize| i < scored.len() ==> #[trigger] order.contains(i),
        order.no_duplicates(),
{
    assert forall|a: int, b: int| 0 <= a < b < order.len() implies order[a] != order[b] by {
        assert(comes_before(scored, order[a] as int, order[b] as int));
    }
    lemma_distinct_below(order, scored.len());
}

/// There is one ranking at most, so a ranked result is determined by the input.
pub proof fn lemma_ranking_is_unique(
    scored: Seq<(i64, u32)>,
    first: Seq<usize>,
    second: Seq<usize>,
)
    requires
        scored.len() <= usize::MAX,
        is_ranking(scored, first),
        is_ranking(scored, second),
    ensures
        first == second,
{
    lemma_ranking_is_complete(scored, first);
    lemma_ranking_is_complete(scored, second);
    lemma_same_up_to(scored, first, second, first.len() as int);
    assert(first =~= second);
}

proof fn lemma_same_up_to(
    scored: Seq<(i64, u32)>,
    first: Seq<usize>,
    second: Seq<usize>,
    n: int,
)
    requires
        is_ranking(scored, first),
        is_ranking(scored, second),
        forall|i: usize| i < scored.len() ==> #[trigger] first.contains(i),
        forall|i: usize| i < scored.len() ==> #[trigger] second.contains(i),
        0 <= n <= first.len(),
    ensures
        forall|k: int| 0 <= k < n ==> first[k] == second[k],
    decreases n,
{
    if n > 0 {
        let k = n - 1;
        lemma_same_up_to(scored, first, second, k);
        if first[k] != second[k] {
            assert(second.contains(first[k]));
            assert(first.contains(second[k]));
            let p = choose|p: int| 0 <= p < second.len() && second[p] == first[k];
            let q = choose|q: int| 0 <= q < first.len() && first[q] == second[k];
            if p < k {
                assert(first[p] == second[p]);
                assert(comes_before(scored, first[p] as int, first[k] as int));
            }
            if q < k {
                assert(first[q] == second[q]);
                assert(comes_before(scored, second[q] as int, second[k] as int));
            }
            assert(comes_before(scored, second[k] as int, second[p] as int));
            assert(comes_before(scored, first[k] as int, first[q] as int));
        }
    }
}

proof fn lemma_kept_part(scored: Seq<(i64, u32)>, order: Seq<usize>)
    ensures
        forall|k: int| 0 <= k < kept(scored, order).len() ==> is_meaningful(
            scored[(#[trigger] kept(scored, order)[k]) as int].1,
        ) && order.contains(kept(scored, order)[k]),
        forall|i: usize|
            order.contains(i) && is_meaningful(scored[i as int].1) ==> #[trigger] kept(
                scored,
                order,
            ).contains(i),
    decreases order.len(),
{
    if order.len() > 0 {
        let shorter = order.drop_last();
        let all = kept(scored, order);
        let rest = kept(scored, shorter);
        lemma_kept_part(scored, shorter);
        assert forall|k: int| 0 <= k < all.len() implies is_meaningful(
            scored[(#[trigger] all[k]) as int].1,
        ) && order.contains(all[k]) by {
            if k < rest.len() {
                assert(all[k] == rest[k]);
                assert(shorter.contains(rest[k]));
                let p = choose|p: int| 0 <= p < shorter.len() && shorter[p] == rest[k];
                assert(order[p] == rest[k]);
            } else {
                assert(order[order.len() - 1] == all[k]);
            }
        }
        assert forall|i: usize|
            order.contains(i) && is_meaningful(scored[i as int].1) implies #[trigger] all.contains(
            i,
        ) by {
            let p = choose|p: int| 0 <= p < order.len() && order[p] == i;
            if p < shorter.len() {
                assert(shorter[p] == i);
                assert(shorter.contains(i));
                assert(rest.contains(i));
                let q = choose|q: int| 0 <= q < rest.len() && rest[q] == i;
                assert(all[q] == i);
            } else {
                assert(all.last() == i);
                assert(all[all.len() - 1] == i);
            }
        }
    }
}

proof fn lemma_kept_in_order(scored: Seq<(i64, u32)>, order: Seq<usize>)
    requires
        forall|a: int, b: int|
            0 <= a < b < order.len() ==> comes_before(
                scored,
                (#[trigger] order[a]) as int,
                (#[trigger] order[b]) as int,
            ),
    ensures
        forall|a: int, b: int|
            0 <= a < b < kept(scored, order).len() ==> comes_before(
                scored,
                (#[trigger] kept(scored, order)[a]) as int,
                (#[trigger] kept(scored, order)[b]) as int,
            ),
    decreases order.len(),
{
    if order.len() > 0 {
        let shorter = order.drop_last();
        let rest = kept(scored, shorter);
        let all = kept(scored, order);
        assert forall|a: int, b: int| 0 <= a < b < shorter.len() implies comes_before(
            scored,
            (#[trigger] shorter[a]) as int,
            (#[trigger] shorter[b]) as int,
        ) by {
            assert(shorter[a] == order[a] && shorter[b] == order[b]);
        }
        lemma_kept_in_order(scored, shorter);
        lemma_kept_part(scored, shorter);
        assert forall|a: int, b: int| 0 <= a < b < all.len() implies comes_before(
            scored,
            (#[trigger] all[a]) as int,
            (#[trigger] all[b]) as int,
        ) by {
            assert(all[a] == rest[a]);
            if b < rest.len() {
                assert(all[b] == rest[b]);
            } else {
                assert(shorter.contains(rest[a]));
                let p = choose|p: int| 0 <= p < shorter.len() && shorter[p] == rest[a];
                assert(order[p] == rest[a]);
                assert(order[order.len() - 1] == all[b]);
            }
        }
    }
}

/// The sessions that a ranking keeps are exactly those with a meaningful similarity,
/// from the most similar to the least. A session that the limit cuts off is therefore
/// never more similar than one that is returned.
pub proof fn lemma_kept_are_the_meaningful_best_first(scored: Seq<(i64, u32)>, order: Seq<usize>)
    requires
        scored.len() <= usize::MAX,
        is_ranking(scored, order),
    ensures
        forall|k: int| 0 <= k < kept(scored, order).len() ==> {
            &&& (#[trigger] kept(scored, order)[k]) < scored.len()
            &&& is_meaningful(scored[kept(scored, order)[k] as int].1)
        },
        forall|i: usize|
            i < scored.len() && is_meaningful(scored[i as int].1) ==> #[trigger] kept(
                scored,
                order,
            ).contains(i),
        forall|a: int, b: int|
            0 <= a < b < kept(scored, order).len() ==> comes_before(
                scored,
                (#[trigger] kept(scored, order)[a]) as int,
                (#[trigger] kept(scored, order)[b]) as int,
            ),
{
    lemma_ranking_is_complete(scored, order);
    lemma_kept_part(scored, order);
    lemma_kept_in_order(scored, order);
    let all = kept(scored, order);
    assert forall|k: int| 0 <= k < all.len() implies (#[trigger] all[k]) < scored.len() by {
        assert(order.contains(all[k]));
    }
}

/// A similarity is meaningful exactly if it is a number above 0.15. Those are the bit
/// patterns above that of 0.15, up to that of infinity.
pub proof fn lemma_meaningful_is_above_the_least(bits: u32)
    ensures
        is_meaningful(bits) <==> 0x3e19_999a < bits <= 0x7f80_0000,
{
}

/// A bit pattern stands for no number exactly if all bits of its exponent are set and
/// some bit of its fraction is.
pub proof fn lemma_nan_has_full_exponent_and_a_fraction(bits: u32)
    ensures
        is_nan(bits) <==> bits as int / 0x80_0000 % 256 == 255 && bits as int % 0x80_0000 != 0,
{
}

/// Every list of numbers can be ranked, however long it is, and so can a single session
/// whatever its similarity. Nothing else can.
pub proof fn lemma_lists_of_numbers_can_be_ranked(scored: Seq<(i64, u32)>)
    ensures
        scored.len() <= 1 ==> can_be_ranked(scored),
        scored.len() > 1 ==> (can_be_ranked(scored) <==> forall|i: int|
            0 <= i < scored.len() ==> {
                let bits = (#[trigger] scored[i]).1 as int;
                bits / 0x80_0000 % 256 != 255 || bits % 0x80_0000 == 0
            }),
{
    assert forall|i: int| 0 <= i < scored.len() implies is_nan((#[trigger] scored[i]).1) == ({
        let bits = scored[i].1 as int;
        bits / 0x80_0000 % 256 == 255 && bits % 0x80_0000 != 0
    }) by {
        lemma_nan_has_full_exponent_and_a_fraction(scored[i].1);
    }
}

/// Without the sign bit, a greater bit pattern is a greater similarity. The sign bit
/// turns the order round, and the two zeros are equal.
pub proof fn lemma_sign_bit_turns_the_order_round(a: u32, b: u32)
    requires
        a < b < 0x8000_0000,
    ensures
        order_key(a) < order_key(b),
        order_key((a + 0x8000_0000) as u32) == -order_key(a),
        order_key((b + 0x8000_0000) as u32) == -order_key(b),
        order_key(0) == 0,
{
}

/// A semantic search finds the best of the meaningful sessions. `at` holds the positions
/// of the sessions that are returned. They are different positions of sessions whose
/// similarity is above 0.15, and a session of higher similarity, or of the same
/// similarity and an earlier position, comes first. There are no more than the limit. A
/// meaningful session is missing only where the limit is reached, and then each session
/// that is returned comes before it.
pub proof fn lemma_search_returns_the_best(
    scored: Seq<(i64, u32)>,
    order: Seq<usize>,
    limit: nat,
) -> (at: Seq<usize>)
    requires
        scored.len() <= usize::MAX,
        is_ranking(scored, order),
    ensures
        top(scored, order, limit as int).len() == at.len(),
        forall|k: int|
            0 <= k < at.len() ==> {
                &&& (#[trigger] at[k]) < scored.len()
                &&& 0x3e19_999a < scored[at[k] as int].1 <= 0x7f80_0000
                &&& top(scored, order, limit as int)[k] == scored[at[k] as int].0
            },
        forall|a: int, b: int|
            0 <= a < b < at.len() ==> {
                ||| scored[(#[trigger] at[a]) as int].1 > scored[(#[trigger] at[b]) as int].1
                ||| scored[at[a] as int].1 == scored[at[b] as int].1 && at[a] < at[b]
            },
        at.len() <= limit,
        forall|i: usize|
            i < scored.len() && 0x3e19_999a < (#[trigger] scored[i as int]).1 <= 0x7f80_0000
                && !at.contains(i) ==> at.len() == limit,
        forall|i: usize, k: int|
            i < scored.len() && 0x3e19_999a < (#[trigger] scored[i as int]).1 <= 0x7f80_0000
                && !at.contains(i) && 0 <= k < at.len() ==> {
                ||| scored[(#[trigger] at[k]) as int].1 > scored[i as int].1
                ||| scored[at[k] as int].1 == scored[i as int].1 && at[k] < i
            },
{
    lemma_kept_are_the_meaningful_best_first(scored, order);
    let all = kept(scored, order);
    let n = if limit <= all.len() {
        limit as int
    } else {
        all.len() as int
    };
    let at = all.take(n);
    assert forall|k: int| 0 <= k < all.len() implies 0x3e19_999a < scored[(
    #[trigger] all[k]) as int].1 <= 0x7f80_0000 by {
        lemma_meaningful_is_above_the_least(scored[all[k] as int].1);
    }
    assert forall|a: int, b: int| 0 <= a < b < all.len() implies {
        ||| scored[(#[trigger] all[a]) as int].1 > scored[(#[trigger] all[b]) as int].1
        ||| scored[all[a] as int].1 == scored[all[b] as int].1 && all[a] < all[b]
    } by {
        assert(comes_before(scored, all[a] as int, all[b] as int));
    }
    assert forall|i: usize|
        i < scored.len() && 0x3e19_999a < (#[trigger] scored[i as int]).1 <= 0x7f80_0000
            && !at.contains(i) implies exists|p: int| n <= p < all.len() && all[p] == i by {
        lemma_meaningful_is_above_the_least(scored[i as int].1);
        assert(all.contains(i));
        let p = choose|p: int| 0 <= p < all.len() && all[p] == i;
        if p < n {
            assert(at[p] == i);
        }
    }
    assert forall|i: usize, k: int|
        i < scored.len() && 0x3e19_999a < (#[trigger] scored[i as int]).1 <= 0x7f80_0000
            && !at.contains(i) && 0 <= k < at.len() implies {
        ||| scored[(#[trigger] at[k]) as int].1 > scored[i as int].1
        ||| scored[at[k] as int].1 == scored[i as int].1 && at[k] < i
    } by {
        let p = choose|p: int| n <= p < all.len() && all[p] == i;
        assert(at[k] == all[k]);
        assert(all[p] == i);
    }
    at
}

/// The number of sessions that a search returns is the number of those whose similarity
/// is above 0.15, or the limit where that is less.
pub proof fn lemma_search_returns_as_many_as_there_are(
    scored: Seq<(i64, u32)>,
    order: Seq<usize>,
    limit: nat,
)
    requires
        scored.len() <= usize::MAX,
        is_ranking(scored, order),
    ensures
        ({
            let found = Set::<usize>::new(
                |i: usize| i < scored.len() && 0x3e19_999a < scored[i as int].1 <= 0x7f80_0000,
            ).len();
            top(scored, order, limit as int).len() == (if limit <= found { limit } else { found })
        }),
{
    let meaningful = Set::<usize>::new(
        |i: usize| i < scored.len() && 0x3e19_999a < scored[i as int].1 <= 0x7f80_0000,
    );
    let all = kept(scored, order);
    lemma_kept_are_the_meaningful_best_first(scored, order);
    assert forall|a: int, b: int| 0 <= a < b < all.len() implies all[a] != all[b] by {
        assert(comes_before(scored, all[a] as int, all[b] as int));
    }
    all.unique_seq_to_set();
    assert forall|i: usize| meaningful.contains(i) <==> all.to_set().contains(i) by {
        lemma_meaningful_is_above_the_least(scored[i as int].1);
        if all.to_set().contains(i) {
            let k = choose|k: int| 0 <= k < all.len() && all[k] == i;
            assert(all[k] < scored.len());
        }
        if meaningful.contains(i) {
            assert(all.contains(i));
        }
    }
    assert(meaningful =~= all.to_set());
}

/// A higher limit adds sessions at the end and changes nothing before.
pub proof fn lemma_higher_limit_extends(
    scored: Seq<(i64, u32)>,
    order: Seq<usize>,
    low: int,
    high: int,
)
    requires
        0 <= low <= high,
    ensures
        top(scored, order, low).is_prefix_of(top(scored, order, high)),
{
    let short = top(scored, order, low);
    let long = top(scored, order, high);
    assert(short =~= long.subrange(0, short.len() as int));
}

/// The integer by which a similarity is ordered.
pub fn similarity_key(bits: u32) -> (key: i64)
    ensures
        key == order_key(bits),
{
    if bits < 0x8000_0000 {
        bits as i64
    } else {
        0x8000_0000 - bits as i64
    }
}

/// Whether a similarity is high enough for a session to be shown.
pub fn meaningful(bits: u32) -> (b: bool)
    ensures
        b == is_meaningful(bits),
{
    bits % 0x8000_0000 <= 0x7f80_0000 && similarity_key(bits) > similarity_key(
        LEAST_SIMILARITY_BITS,
    )
}

/// Merges two rank orders, the positions of the first all lower than those of the second.
fn merge(
    scored: &Vec<(i64, u32)>,
    left: &Vec<usize>,
    right: &Vec<usize>,
    lo: usize,
    mid: usize,
    hi: usize,
) -> (order: Vec<usize>)
    requires
        lo <= mid <= hi <= scored.len(),
        in_rank_order(scored@, left@, lo as int, mid as int),
        in_rank_order(scored@, right@, mid as int, hi as int),
    ensures
        in_rank_order(scored@, order@, lo as int, hi as int),
{
    let mut order: Vec<usize> = Vec::new();
    let mut i: usize = 0;
    let mut j: usize = 0;
    while i < left.len() || j < right.len()
        invariant
            lo <= mid <= hi <= scored.len(),
            in_rank_order(scored@, left@, lo as int, mid as int),
            in_rank_order(scored@, right@, mid as int, hi as int),
            i <= left.len(),
            j <= right.len(),
            order.len() == i + j,
            forall|k: int| 0 <= k < order.len() ==> lo <= #[trigger] order[k] < hi,
            forall|a: int, b: int|
                0 <= a < b < order.len() ==> comes_before(
                    scored@,
                    (#[trigger] order[a]) as int,
                    (#[trigger] order[b]) as int,
                ),
            forall|a: int, b: int|
                0 <= a < order.len() && i <= b < left.len() ==> comes_before(
                    scored@,
                    (#[trigger] order[a]) as int,
                    (#[trigger] left[b]) as int,
                ),
            forall|a: int, b: int|
                0 <= a < order.len() && j <= b < right.len() ==> comes_before(
                    scored@,
                    (#[trigger] order[a]) as int,
                    (#[trigger] right[b]) as int,
                ),
        decreases left.len() - i + right.len() - j,
    {
        let from_left: bool = if i == left.len() {
            false
        } else if j == right.len() {
            true
        } else {
            similarity_key(scored[left[i]].1) >= similarity_key(scored[right[j]].1)
        };
        let ghost before = order@;
        if from_left {
            assert forall|b: int| j <= b < right.len() implies comes_before(
                scored@,
                left[i as int] as int,
                (#[trigger] right[b]) as int,
            ) by {
                if b > j {
                    assert(comes_before(scored@, right[j as int] as int, right[b] as int));
                }
            }
            order.push(left[i]);
            i = i + 1;
        } else {
            assert forall|b: int| i <= b < left.len() implies comes_before(
                scored@,
                right[j as int] as int,
                (#[trigger] left[b]) as int,
            ) by {
                if b > i {
                    assert(comes_before(scored@, left[i as int] as int, left[b] as int));
                }
            }
            order.push(right[j]);
            j = j + 1;
        }
        assert(forall|k: int| 0 <= k < before.len() ==> order[k] == before[k]);
    }
    order
}

/// The positions from `lo` up to `hi`, from the most similar session to the least.
fn rank_between(scored: &Vec<(i64, u32)>, lo: usize, hi: usize) -> (order: Vec<usize>)
    requires
        lo <= hi <= scored.len(),
    ensures
        in_rank_order(scored@, order@, lo as int, hi as int),
    decreases hi - lo,
{
    if hi - lo <= 1 {
        let mut order: Vec<usize> = Vec::new();
        if lo < hi {
            order.push(lo);
        }
        return order;
    }
    let mid: usize = lo + (hi - lo) / 2;
    let left = rank_between(scored, lo, mid);
    let right = rank_between(scored, mid, hi);
    merge(scored, &left, &right, lo, mid, hi)
}

/// The identifiers of the sessions with a meaningful similarity, from the most
/// similar to the least, `limit` of them at most. Sessions that are equally similar
/// keep the order that they have in `scored`.
pub fn semantic_search(scored: &Vec<(i64, u32)>, limit: usize) -> (ids: Vec<i64>)
    requires
        can_be_ranked(scored@),
    ensures
        exists|order: Seq<usize>|
            #[trigger] is_ranking(scored@, order) && ids@ == top(scored@, order, limit as int),
{
    let order = rank_between(scored, 0, scored.len());
    assert(is_ranking(scored@, order@));
    let mut ids: Vec<i64> = Vec::new();
    for n in 0..order.len()
        invariant
            is_ranking(scored@, order@),
            ids@ == top(scored@, order@.take(n as int), limit as int),
    {
        let at: usize = order[n];
        assert(order@.take(n + 1).drop_last() =~= order@.take(n as int));
        if meaningful(scored[at].1) && ids.len() < limit {
            ids.push(scored[at].0);
        }
        assert(ids@ =~= top(scored@, order@.take(n + 1), limit as int));
    }
    assert(order@.take(order.len() as int) =~= order@);
    ids
}

} // verus!
