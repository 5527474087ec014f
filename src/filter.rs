//! Reduction of a set of acceptance filters to the number a CAN controller offers

use vstd::arithmetic::power2::{lemma_pow2_unfold, pow2};
use vstd::prelude::*;

verus! {

/// An acceptance filter: a frame is accepted when its identifier agrees with `id` on every bit
/// set in `mask`
#[derive(Copy, Clone, Debug, PartialEq, Eq, Structural)]
pub struct Filter {
    id: u32,
    mask: u32,
}

/// Whether a filter accepts an identifier
pub open spec fn accepts(f: Filter, x: u32) -> bool {
    x & f.mask_spec() == f.id_spec() & f.mask_spec()
}

/// Whether `g` accepts every identifier that `f` accepts: `g` tests a subset of the bits that
/// `f` tests, and wants the same values on them
pub open spec fn subsumes(g: Filter, f: Filter) -> bool {
    &&& g.mask_spec() & !f.mask_spec() == 0
    &&& f.id_spec() & g.mask_spec() == g.id_spec() & g.mask_spec()
}

/// The narrowest single filter that accepts what either filter accepts
pub open spec fn merged(a: Filter, b: Filter) -> Filter {
    Filter::from_parts(
        a.id_spec() & b.id_spec(),
        a.mask_spec() & b.mask_spec() & !(a.id_spec() ^ b.id_spec()),
    )
}

/// Whether every filter of `s` has a 29-bit identifier and mask
pub open spec fn all_29_bit(s: Seq<Filter>) -> bool {
    forall|k: int|
        0 <= k < s.len() ==> (#[trigger] s[k]).id_spec() < 0x2000_0000 && s[k].mask_spec()
            < 0x2000_0000
}

/// Whether every identifier accepted by a filter of `s` is accepted by a filter of `r`
pub open spec fn covers(r: Seq<Filter>, s: Seq<Filter>) -> bool {
    forall|k: int, x: u32|
        0 <= k < s.len() && #[trigger] accepts(s[k], x) ==> exists|j: int|
            0 <= j < r.len() && #[trigger] accepts(r[j], x)
}

impl Filter {
    /// The identifier bits
    pub closed spec fn id_spec(self) -> u32 {
        self.id
    }

    /// The mask bits
    pub closed spec fn mask_spec(self) -> u32 {
        self.mask
    }

    /// A filter with the given bits
    pub closed spec fn from_parts(id: u32, mask: u32) -> Filter {
        Filter { id, mask }
    }

    /// Creates a filter from 29-bit identifier and mask values
    pub fn new(id: u32, mask: u32) -> (r: Filter)
        requires
            id < 0x2000_0000,
            mask < 0x2000_0000,
        ensures
            r == Filter::from_parts(id, mask),
            r.id_spec() == id,
            r.mask_spec() == mask,
    {
        Filter { id, mask }
    }

    /// The identifier bits
    pub fn id(&self) -> (r: u32)
        ensures
            r == self.id_spec(),
    {
        self.id
    }

    /// The mask bits
    pub fn mask(&self) -> (r: u32)
        ensures
            r == self.mask_spec(),
    {
        self.mask
    }

    /// Whether this filter accepts an identifier
    pub fn accepts(&self, x: u32) -> (r: bool)
        ensures
            r == accepts(*self, x),
    {
        x & self.mask == self.id & self.mask
    }

    /// The narrowest single filter that accepts what either filter accepts
    pub fn merge(&self, other: &Filter) -> (r: Filter)
        ensures
            r == merged(*self, *other),
            subsumes(r, *self),
            subsumes(r, *other),
            r.id_spec() <= self.id_spec(),
            r.mask_spec() <= self.mask_spec(),
    {
        proof {
            lemma_merged_subsumes(*self, *other);
            let (a, b, ma, mb) = (self.id, other.id, self.mask, other.mask);
            assert((a & b) <= a && (ma & mb & !(a ^ b)) <= ma) by (bit_vector);
        }
        Filter { id: self.id & other.id, mask: self.mask & other.mask & !(self.id ^ other.id) }
    }
}

/// A filter accepts every identifier that a filter it subsumes accepts.
pub proof fn lemma_subsumes_accepts(g: Filter, f: Filter, x: u32)
    requires
        subsumes(g, f),
        accepts(f, x),
    ensures
        accepts(g, x),
{
    let (gi, gm, fi, fm) = (g.id_spec(), g.mask_spec(), f.id_spec(), f.mask_spec());
    assert((x & gm) == (gi & gm)) by (bit_vector)
        requires
            gm & !fm == 0,
            fi & gm == gi & gm,
            x & fm == fi & fm,
    ;
}

/// The merge of two filters subsumes both.
pub proof fn lemma_merged_subsumes(a: Filter, b: Filter)
    ensures
        subsumes(merged(a, b), a),
        subsumes(merged(a, b), b),
{
    let (ai, am, bi, bm) = (a.id_spec(), a.mask_spec(), b.id_spec(), b.mask_spec());
    let m = merged(a, b);
    assert(m.id_spec() == ai & bi && m.mask_spec() == am & bm & !(ai ^ bi));
    let (mi, mm) = (m.id_spec(), m.mask_spec());
    assert(mm & !am == 0 && ai & mm == mi & mm && mm & !bm == 0 && bi & mm == mi & mm)
        by (bit_vector)
        requires
            mi == ai & bi,
            mm == am & bm & !(ai ^ bi),
    ;
}

/// Subsumption is transitive.
pub proof fn lemma_subsumes_trans(h: Filter, g: Filter, f: Filter)
    requires
        subsumes(h, g),
        subsumes(g, f),
    ensures
        subsumes(h, f),
{
    let (hi, hm, gi, gm, fi, fm) = (
        h.id_spec(),
        h.mask_spec(),
        g.id_spec(),
        g.mask_spec(),
        f.id_spec(),
        f.mask_spec(),
    );
    assert(hm & !fm == 0 && fi & hm == hi & hm) by (bit_vector)
        requires
            hm & !gm == 0,
            gi & hm == hi & hm,
            gm & !fm == 0,
            fi & gm == gi & gm,
    ;
}

/// Every filter subsumes itself.
pub proof fn lemma_subsumes_refl(f: Filter)
    ensures
        subsumes(f, f),
{
    let (fi, fm) = (f.id_spec(), f.mask_spec());
    assert(fm & !fm == 0) by (bit_vector);
}

/// The number of bits set in a number
pub open spec fn popcount(v: nat) -> nat
    decreases v,
{
    if v == 0 {
        0
    } else {
        v % 2 + popcount(v / 2)
    }
}

/// The cost of merging two filters: the number of bits that either filter tested and the
/// merge no longer tests
pub open spec fn merge_cost(a: Filter, b: Filter) -> nat {
    popcount(((a.mask_spec() | b.mask_spec()) & !merged(a, b).mask_spec()) as nat)
}

/// Whether `(i, j)` is a pair of distinct positions of `s`, in order
pub open spec fn is_pair(s: Seq<Filter>, i: int, j: int) -> bool {
    0 <= i < j < s.len()
}

/// Whether the pair `(x, y)` comes before `(i, j)` in list order
pub open spec fn pair_before(x: int, y: int, i: int, j: int) -> bool {
    x < i || (x == i && y < j)
}

/// Whether `(i, j)` is the pair to merge: no pair costs less, and every pair before it costs
/// more
pub open spec fn is_best_pair(s: Seq<Filter>, i: int, j: int) -> bool {
    &&& is_pair(s, i, j)
    &&& forall|x: int, y: int|
        is_pair(s, x, y) ==> merge_cost(s[i], s[j]) <= #[trigger] merge_cost(s[x], s[y])
    &&& forall|x: int, y: int|
        is_pair(s, x, y) && pair_before(x, y, i, j) ==> merge_cost(s[i], s[j]) < #[trigger] merge_cost(
            s[x],
            s[y],
        )
}

/// The list after the pair `(i, j)` is replaced by its merge, which takes the place of `i`
pub open spec fn merge_pair(s: Seq<Filter>, i: int, j: int) -> Seq<Filter> {
    s.update(i, merged(s[i], s[j])).remove(j)
}

/// One step of the reduction: the best pair is replaced by its merge
pub open spec fn greedy_step(s: Seq<Filter>) -> Seq<Filter> {
    let p = choose|p: (int, int)| is_best_pair(s, p.0, p.1);
    merge_pair(s, p.0, p.1)
}

/// The list after `k` steps of the reduction
pub open spec fn greedy(s: Seq<Filter>, k: nat) -> Seq<Filter>
    decreases k,
{
    if k == 0 {
        s
    } else {
        greedy_step(greedy(s, (k - 1) as nat))
    }
}

/// There is at most one best pair.
proof fn lemma_best_pair_unique(s: Seq<Filter>, i: int, j: int, x: int, y: int)
    requires
        is_best_pair(s, i, j),
        is_best_pair(s, x, y),
    ensures
        i == x && j == y,
{
    if pair_before(x, y, i, j) {
        assert(merge_cost(s[i], s[j]) < merge_cost(s[x], s[y]));
    } else if pair_before(i, j, x, y) {
        assert(merge_cost(s[x], s[y]) < merge_cost(s[i], s[j]));
    }
}

/// The number of bits set in a 32-bit value
fn count_ones(v: u32) -> (r: u32)
    ensures
        r == popcount(v as nat),
{
    let mut n: u32 = 0;
    let mut x: u32 = v;
    let mut i: u32 = 0;
    proof {
        vstd::arithmetic::power2::lemma2_to64();
    }
    while x != 0
        invariant
            i <= 32,
            x < pow2((32 - i) as nat),
            n <= i,
            n + popcount(x as nat) == popcount(v as nat),
        decreases x,
    {
        proof {
            if i == 32 {
                vstd::arithmetic::power2::lemma2_to64();
            }
            lemma_pow2_unfold((32 - i) as nat);
        }
        n = n + x % 2;
        x = x / 2;
        i = i + 1;
    }
    n
}

/// The cost of merging the filters at two positions
fn pair_cost(s: &Vec<Filter>, a: usize, b: usize) -> (r: u32)
    requires
        a < s@.len(),
        b < s@.len(),
    ensures
        r == merge_cost(s@[a as int], s@[b as int]),
{
    let m = s[a].merge(&s[b]);
    count_ones((s[a].mask() | s[b].mask()) & !m.mask())
}

/// Finds the pair to merge: the cheapest, and the first in list order among equals
fn best_pair(s: &Vec<Filter>) -> (r: (usize, usize))
    requires
        s@.len() >= 2,
    ensures
        is_best_pair(s@, r.0 as int, r.1 as int),
{
    let n = s.len();
    let mut best_a: usize = 0;
    let mut best_b: usize = 1;
    let mut best_cost: u32 = pair_cost(s, 0, 1);
    let mut a: usize = 0;
    while a < n
        invariant
            n == s@.len(),
            n >= 2,
            a <= n,
            is_pair(s@, best_a as int, best_b as int),
            best_cost == merge_cost(s@[best_a as int], s@[best_b as int]),
            best_a < a || (best_a == 0 && best_b == 1),
            forall|x: int, y: int|
                is_pair(s@, x, y) && x < a ==> best_cost <= #[trigger] merge_cost(s@[x], s@[y]),
            forall|x: int, y: int|
                is_pair(s@, x, y) && x < a && pair_before(x, y, best_a as int, best_b as int)
                    ==> best_cost < #[trigger] merge_cost(s@[x], s@[y]),
        decreases n - a,
    {
        let mut b: usize = a + 1;
        while b < n
            invariant
                n == s@.len(),
                a < n,
                a + 1 <= b <= n,
                is_pair(s@, best_a as int, best_b as int),
                best_cost == merge_cost(s@[best_a as int], s@[best_b as int]),
                pair_before(best_a as int, best_b as int, a as int, b as int) || (best_a == 0
                    && best_b == 1),
                forall|x: int, y: int|
                    is_pair(s@, x, y) && pair_before(x, y, a as int, b as int) ==> best_cost
                        <= #[trigger] merge_cost(s@[x], s@[y]),
                forall|x: int, y: int|
                    is_pair(s@, x, y) && pair_before(x, y, a as int, b as int) && pair_before(
                        x,
                        y,
                        best_a as int,
                        best_b as int,
                    ) ==> best_cost < #[trigger] merge_cost(s@[x], s@[y]),
            decreases n - b,
        {
            let cost = pair_cost(s, a, b);
            if cost < best_cost {
                best_cost = cost;
                best_a = a;
                best_b = b;
            }
            b = b + 1;
        }
        a = a + 1;
    }
    (best_a, best_b)
}

/// Reduces a list of filters to at most `max_filters`, merging greedily
///
/// While there are too many filters, the pair whose merge has the lowest cost is replaced by
/// its merge; the cost is the number of identifier bits that either filter tested and the
/// merge no longer tests. Among pairs of equal cost the first in list order wins. The result accepts every identifier that any input filter accepts.
pub fn optimize(filters: &[Filter], max_filters: usize) -> (r: Vec<Filter>)
    requires
        max_filters >= 1,
    ensures
        r@.len() <= max_filters,
        filters@.len() <= max_filters ==> r@ == filters@,
        filters@.len() > max_filters ==> r@.len() == max_filters && r@ == greedy(
            filters@,
            (filters@.len() - max_filters) as nat,
        ),
        covers(r@, filters@),
        all_29_bit(filters@) ==> all_29_bit(r@),
{
    let mut current: Vec<Filter> = Vec::new();
    let mut i: usize = 0;
    while i < filters.len()
        invariant
            i <= filters@.len(),
            current@ == filters@.subrange(0, i as int),
        decreases filters@.len() - i,
    {
        current.push(filters[i]);
        i = i + 1;
    }
    assert(current@ =~= filters@);
    let ghost s = filters@;
    // For each input filter, the index of a current filter that subsumes it
    let ghost mut owner: Seq<int> = Seq::new(s.len(), |k: int| k);
    proof {
        assert forall|k: int| 0 <= k < s.len() implies subsumes(current@[owner[k]], s[k]) by {
            lemma_subsumes_refl(s[k]);
        }
    }
    while current.len() > max_filters
        invariant
            max_filters >= 1,
            current@.len() <= s.len(),
            s.len() <= max_filters ==> current@ == s,
            s.len() > max_filters ==> current@.len() >= max_filters,
            current@ == greedy(s, (s.len() - current@.len()) as nat),
            all_29_bit(s) ==> all_29_bit(current@),
            owner.len() == s.len(),
            forall|k: int|
                0 <= k < s.len() ==> 0 <= #[trigger] owner[k] < current@.len() && subsumes(
                    current@[owner[k]],
                    s[k],
                ),
        decreases current@.len(),
    {
        let (best_a, best_b) = best_pair(&current);
        let m = current[best_a].merge(&current[best_b]);
        let ghost before = current@;
        current.set(best_a, m);
        current.remove(best_b);
        proof {
            let p = choose|p: (int, int)| is_best_pair(before, p.0, p.1);
            lemma_best_pair_unique(before, best_a as int, best_b as int, p.0, p.1);
            assert(current@ =~= merge_pair(before, best_a as int, best_b as int));
            assert(all_29_bit(s) ==> all_29_bit(current@)) by {
                if all_29_bit(s) {
                    assert forall|k: int| 0 <= k < current@.len() implies (#[trigger] current@[k]).id_spec() < 0x2000_0000
                        && current@[k].mask_spec() < 0x2000_0000 by {
                        if k < best_b {
                            assert(k == best_a || current@[k] == before[k]);
                        } else {
                            assert(current@[k] == before[k + 1]);
                        }
                    }
                }
            }
            assert(current@ == greedy_step(before));
            assert((s.len() - current@.len()) as nat - 1 == (s.len() - before.len()) as nat);
            let ba = best_a as int;
            let bb = best_b as int;
            let new_owner = Seq::new(
                s.len(),
                |k: int|
                    if owner[k] == ba || owner[k] == bb {
                        ba
                    } else if owner[k] > bb {
                        owner[k] - 1
                    } else {
                        owner[k]
                    },
            );
            assert forall|k: int| 0 <= k < s.len() implies 0 <= #[trigger] new_owner[k]
                < current@.len() && subsumes(current@[new_owner[k]], s[k]) by {
                let o = owner[k];
                if o == ba || o == bb {
                    lemma_subsumes_trans(m, before[o], s[k]);
                } else if o > bb {
                    assert(current@[o - 1] == before[o]);
                } else {
                    assert(current@[o] == before[o]);
                }
            }
            owner = new_owner;
        }
    }
    proof {
        assert forall|k: int, x: u32|
            0 <= k < s.len() && #[trigger] accepts(s[k], x) implies exists|j: int|
            0 <= j < current@.len() && #[trigger] accepts(current@[j], x) by {
            lemma_subsumes_accepts(current@[owner[k]], s[k], x);
        }
    }
    current
}


/// The filter that accepts the messages of one subject, from any source, anonymous or not
pub open spec fn subject_filter_spec(subject: u16) -> Filter {
    Filter::from_parts(((subject as u32) << 8u32) as u32, 0x021f_ff00)
}

/// Builds the filter that accepts the messages of one subject
pub fn subject_filter(subject: u16) -> (r: Filter)
    requires
        subject < 8192,
    ensures
        r == subject_filter_spec(subject),
        forall|priority: u8, source: u8, anonymous: bool|
            priority < 8 && source < 128 ==> #[trigger] accepts(
                r,
                crate::frame::message_id_bits(priority, subject, source, anonymous),
            ),
{
    let id: u32 = (subject as u32) << 8u32;
    proof {
        let s = subject as u32;
        assert((s << 8u32) < 0x2000_0000) by (bit_vector)
            requires s < 8192;
    }
    let r = Filter::new(id, 0x021f_ff00);
    proof {
        assert forall|priority: u8, source: u8, anonymous: bool|
            priority < 8 && source < 128 implies #[trigger] accepts(
                r,
                crate::frame::message_id_bits(priority, subject, source, anonymous),
            ) by {
            let p = priority as u32;
            let s = subject as u32;
            let n = source as u32;
            let f: u32 = if anonymous { 0x100_0000u32 } else { 0u32 };
            let b = crate::frame::message_id_bits(priority, subject, source, anonymous);
            assert(b == (p << 26u32) | f | 0x60_0000u32 | (s << 8u32) | n);
            assert(b & 0x021f_ff00u32 == (s << 8u32) & 0x021f_ff00u32) by (bit_vector)
                requires
                    p < 8,
                    s < 8192,
                    n < 128,
                    f == 0 || f == 0x100_0000,
                    b == (p << 26u32) | f | 0x60_0000u32 | (s << 8u32) | n,
            ;
        }
    }
    r
}

} // verus!

verus! {

/// The filter that accepts the requests (or the responses) of one service addressed to one
/// node, from any source
pub open spec fn service_filter_spec(service: u16, request: bool, destination: u8) -> Filter {
    Filter::from_parts(
        (0x200_0000u32 | (if request { 0x100_0000u32 } else { 0u32 }) | ((service as u32) << 14u32)
            | ((destination as u32) << 7u32)) as u32,
        0x037f_ff80,
    )
}

/// Builds the filter that accepts the requests (or the responses) of one service addressed to
/// one node
pub fn service_filter(service: u16, request: bool, destination: u8) -> (r: Filter)
    requires
        service < 512,
        destination < 128,
    ensures
        r == service_filter_spec(service, request, destination),
        forall|priority: u8, source: u8|
            priority < 8 && source < 128 ==> #[trigger] accepts(
                r,
                crate::frame::service_id_bits(priority, service, request, destination, source),
            ),
{
    let flag: u32 = if request {
        0x100_0000u32
    } else {
        0u32
    };
    let id: u32 = 0x200_0000u32 | flag | ((service as u32) << 14u32) | ((destination as u32)
        << 7u32);
    proof {
        let s = service as u32;
        let d = destination as u32;
        assert(id < 0x2000_0000) by (bit_vector)
            requires
                s < 512,
                d < 128,
                flag == 0 || flag == 0x100_0000,
                id == 0x200_0000u32 | flag | (s << 14u32) | (d << 7u32),
        ;
    }
    let r = Filter::new(id, 0x037f_ff80);
    proof {
        assert forall|priority: u8, source: u8|
            priority < 8 && source < 128 implies #[trigger] accepts(
                r,
                crate::frame::service_id_bits(priority, service, request, destination, source),
            ) by {
            let p = priority as u32;
            let s = service as u32;
            let d = destination as u32;
            let n = source as u32;
            let b = crate::frame::service_id_bits(priority, service, request, destination, source);
            assert(b == (p << 26u32) | 0x200_0000u32 | flag | (s << 14u32) | (d << 7u32) | n);
            assert(b & 0x037f_ff80u32 == id & 0x037f_ff80u32) by (bit_vector)
                requires
                    p < 8,
                    s < 512,
                    d < 128,
                    n < 128,
                    flag == 0 || flag == 0x100_0000,
                    id == 0x200_0000u32 | flag | (s << 14u32) | (d << 7u32),
                    b == (p << 26u32) | 0x200_0000u32 | flag | (s << 14u32) | (d << 7u32) | n,
            ;
        }
    }
    r
}

} // verus!
