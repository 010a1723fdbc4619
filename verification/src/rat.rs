use vstd::prelude::*;
use vstd::multiset::Multiset;
use crate::v3::{absi, V3, COORD_MAX};

verus! {

/// Bound on the numerators and denominators that `Rat::le` accepts: two
/// values below it can be cross-multiplied without leaving `i128`.
pub const RAT_MAX: i128 = 0x4000_0000_0000_0000;

/// An exact rational scalar, as an unreduced fraction with a positive
/// denominator.  Ray parameters (`t`) of the intersection engine are exact
/// rationals: with integer-grid inputs no rounding is ever needed.
#[derive(Clone, Copy, Debug, PartialEq, Eq, Structural)]
pub struct Rat {
    pub num: i128,
    pub den: i128,
}

impl Rat {
    /// Well-formed: the denominator is positive.
    pub open spec fn wf(self) -> bool {
        self.den > 0
    }

    /// Numerator magnitude and denominator are at most `b`.
    pub open spec fn mag_le(self, b: int) -> bool {
        absi(self.num as int) <= b && self.den <= b
    }

    /// Exact order on rationals: with positive denominators,
    /// `a.num / a.den <= b.num / b.den` holds exactly when the
    /// cross-multiplied numerators are ordered.
    pub open spec fn spec_le(self, other: Rat) -> bool {
        self.num * other.den <= other.num * self.den
    }

    /// Exact comparison by cross-multiplication.
    pub fn le(&self, other: &Rat) -> (r: bool)
        requires
            self.wf(),
            other.wf(),
            self.mag_le(RAT_MAX as int),
            other.mag_le(RAT_MAX as int),
        ensures
            r == self.spec_le(*other),
    {
        proof {
            crate::v3::lemma_mul_abs(
                self.num as int,
                other.den as int,
                RAT_MAX as int,
                RAT_MAX as int,
            );
            crate::v3::lemma_mul_abs(
                other.num as int,
                self.den as int,
                RAT_MAX as int,
                RAT_MAX as int,
            );
        }
        self.num * other.den <= other.num * self.den
    }
}

/// The exact order on well-formed rationals is total.
pub proof fn lemma_rat_le_total(a: Rat, b: Rat)
    by (nonlinear_arith)
    requires
        a.wf(),
        b.wf(),
    ensures
        a.spec_le(b) || b.spec_le(a),
{
}

/// The exact order on well-formed rationals is transitive.
pub proof fn lemma_rat_le_trans(a: Rat, b: Rat, c: Rat)
    by (nonlinear_arith)
    requires
        a.wf(),
        b.wf(),
        c.wf(),
        a.spec_le(b),
        b.spec_le(c),
    ensures
        a.spec_le(c),
{
}

/// An exact rational point, as three numerators over one positive
/// denominator.  Intersection points of the engine are exact rational
/// points: a plane or a triangle generically cuts a grid segment between
/// grid points.
#[derive(Clone, Copy, Debug, PartialEq, Eq, Structural)]
pub struct RatPoint {
    pub xn: i128,
    pub yn: i128,
    pub zn: i128,
    pub den: i128,
}

impl RatPoint {
    /// Well-formed: the denominator is positive.
    pub open spec fn wf(self) -> bool {
        self.den > 0
    }

    /// The three numerators, as unbounded integers.
    pub open spec fn nums(self) -> (int, int, int) {
        (self.xn as int, self.yn as int, self.zn as int)
    }
}

/// The grid point `v`, read as a rational point.
pub open spec fn spec_from_v3(v: V3) -> RatPoint {
    RatPoint { xn: v.0 as i128, yn: v.1 as i128, zn: v.2 as i128, den: 1 }
}

/// The grid point `v`, as a rational point with denominator one.
pub fn from_v3(v: V3) -> (r: RatPoint)
    ensures
        r == spec_from_v3(v),
{
    RatPoint { xn: v.0 as i128, yn: v.1 as i128, zn: v.2 as i128, den: 1 }
}

/// Every coordinate of the rational point lies within the cube of
/// half-width `m` around the origin.
pub open spec fn in_box(p: RatPoint, m: int) -> bool {
    absi(p.xn as int) <= m * p.den && absi(p.yn as int) <= m * p.den && absi(p.zn as int) <= m
        * p.den
}

/// Truncated (toward zero) quotient, over the unbounded integers.
pub open spec fn div_trunc(a: int, b: int) -> int {
    if a >= 0 {
        a / b
    } else {
        -((-a) / b)
    }
}

/// Truncating division of a bounded `i128` by a positive one.
fn div_trunc_i128(a: i128, b: i128) -> (r: i128)
    requires
        b > 0,
        a > i128::MIN,
    ensures
        r == div_trunc(a as int, b as int),
{
    if a >= 0 {
        proof {
            assert((a as int) / (b as int) <= a as int && 0 <= (a as int) / (b as int))
                by (nonlinear_arith)
                requires
                    a >= 0,
                    b > 0,
            ;
        }
        ((a as u128) / (b as u128)) as i128
    } else {
        proof {
            assert(((-a) as int) / (b as int) <= (-a) as int && 0 <= ((-a) as int) / (b as int))
                by (nonlinear_arith)
                requires
                    a < 0,
                    a > i128::MIN,
                    b > 0,
            ;
        }
        -((((-a) as u128) / (b as u128)) as i128)
    }
}

/// The rational point, rounded toward zero onto the integer grid.
pub open spec fn spec_to_grid(p: RatPoint) -> V3 {
    V3(
        div_trunc(p.xn as int, p.den as int) as i64,
        div_trunc(p.yn as int, p.den as int) as i64,
        div_trunc(p.zn as int, p.den as int) as i64,
    )
}

impl RatPoint {
    /// Round the rational point toward zero onto the integer grid.  Inside
    /// the coordinate box the rounded point stays inside the box.
    pub fn to_grid(&self) -> (r: V3)
        requires
            self.wf(),
            self.den <= 0x1_0000_0000_0000_0000,
            in_box(*self, COORD_MAX as int),
        ensures
            r == spec_to_grid(*self),
            r.ti() == (
                div_trunc(self.xn as int, self.den as int),
                div_trunc(self.yn as int, self.den as int),
                div_trunc(self.zn as int, self.den as int),
            ),
            crate::v3::bounded(r, COORD_MAX as int),
    {
        proof {
            crate::v3::lemma_mul_abs(
                COORD_MAX as int,
                self.den as int,
                COORD_MAX as int,
                0x1_0000_0000_0000_0000,
            );
            lemma_div_trunc_box(self.xn as int, self.den as int, COORD_MAX as int);
            lemma_div_trunc_box(self.yn as int, self.den as int, COORD_MAX as int);
            lemma_div_trunc_box(self.zn as int, self.den as int, COORD_MAX as int);
        }
        let x = div_trunc_i128(self.xn, self.den);
        let y = div_trunc_i128(self.yn, self.den);
        let z = div_trunc_i128(self.zn, self.den);
        V3(x as i64, y as i64, z as i64)
    }
}

/// A numerator within `m` denominators of zero divides down to a quotient
/// within `m` of zero.
pub proof fn lemma_div_trunc_box(a: int, b: int, m: int)
    by (nonlinear_arith)
    requires
        b > 0,
        0 <= m,
        -(m * b) <= a <= m * b,
    ensures
        -m <= div_trunc(a, b) <= m,
{
}

/// A hit of the ray–mesh intersector: an exact rational point and its exact
/// ray parameter, sharing one positive denominator, with the magnitudes the
/// intersector guarantees.
pub open spec fn hit_ok(h: (RatPoint, Rat)) -> bool {
    h.0.wf() && h.1.wf() && h.1.num > 0 && h.1.mag_le(6_000_000_000_000_000) && h.0.den == h.1.den
}

/// Every element of the sequence is a well-formed hit.
pub open spec fn hits_ok(s: Seq<(RatPoint, Rat)>) -> bool {
    forall|k: int| 0 <= k < s.len() ==> hit_ok(#[trigger] s[k])
}

/// Stable insertion of a hit into a sequence sorted by ascending `t`: the
/// new hit goes after every element whose `t` is at most its own.
pub open spec fn insert_by_t(x: (RatPoint, Rat), s: Seq<(RatPoint, Rat)>) -> Seq<(RatPoint, Rat)>
    decreases s.len(),
{
    if s.len() == 0 {
        seq![x]
    } else if !s[0].1.spec_le(x.1) {
        seq![x] + s
    } else {
        seq![s[0]] + insert_by_t(x, s.drop_first())
    }
}

/// Stable insertion sort of hits by ascending `t`.
pub open spec fn sort_by_t(s: Seq<(RatPoint, Rat)>) -> Seq<(RatPoint, Rat)>
    decreases s.len(),
{
    if s.len() == 0 {
        Seq::empty()
    } else {
        insert_by_t(s.last(), sort_by_t(s.drop_last()))
    }
}

/// Sorted ascending by the exact ray parameter `t`.
pub open spec fn sorted_by_t(s: Seq<(RatPoint, Rat)>) -> bool {
    forall|i: int, j: int| 0 <= i < j < s.len() ==> #[trigger] s[i].1.spec_le(#[trigger] s[j].1)
}

/// Insertion keeps well-formedness of all the hits.
proof fn lemma_insert_ok(x: (RatPoint, Rat), s: Seq<(RatPoint, Rat)>)
    requires
        hit_ok(x),
        hits_ok(s),
    ensures
        hits_ok(insert_by_t(x, s)),
        insert_by_t(x, s).len() == s.len() + 1,
    decreases s.len(),
{
    if s.len() != 0 && s[0].1.spec_le(x.1) {
        lemma_insert_ok(x, s.drop_first());
    }
}

/// Insertion keeps every element at or above a lower bound that the new
/// element also respects.
proof fn lemma_insert_ge(x: (RatPoint, Rat), s: Seq<(RatPoint, Rat)>, b: Rat)
    requires
        b.spec_le(x.1),
        forall|k: int| 0 <= k < s.len() ==> b.spec_le(#[trigger] s[k].1),
    ensures
        forall|k: int|
            0 <= k < insert_by_t(x, s).len() ==> b.spec_le(#[trigger] insert_by_t(x, s)[k].1),
    decreases s.len(),
{
    if s.len() != 0 && s[0].1.spec_le(x.1) {
        lemma_insert_ge(x, s.drop_first(), b);
        let r = insert_by_t(x, s);
        let rec = insert_by_t(x, s.drop_first());
        assert forall|k: int| 0 <= k < r.len() implies b.spec_le(r[k].1) by {
            if k == 0 {
                assert(b.spec_le(s[0].1));
            } else {
                assert(r[k] == rec[k - 1]);
            }
        }
    }
}

/// Inserting into a sorted sequence keeps it sorted.
proof fn lemma_insert_sorted(x: (RatPoint, Rat), s: Seq<(RatPoint, Rat)>)
    requires
        hit_ok(x),
        hits_ok(s),
        sorted_by_t(s),
    ensures
        sorted_by_t(insert_by_t(x, s)),
    decreases s.len(),
{
    if s.len() == 0 {
    } else if !s[0].1.spec_le(x.1) {
        lemma_rat_le_total(s[0].1, x.1);
        let r = insert_by_t(x, s);
        assert forall|i: int, j: int| 0 <= i < j < r.len() implies r[i].1.spec_le(r[j].1) by {
            if i == 0 {
                if j > 1 {
                    lemma_rat_le_trans(x.1, s[0].1, s[j - 1].1);
                }
            }
        }
    } else {
        lemma_insert_sorted(x, s.drop_first());
        lemma_insert_ge(x, s.drop_first(), s[0].1);
        let rec = insert_by_t(x, s.drop_first());
        let r = insert_by_t(x, s);
        assert forall|i: int, j: int| 0 <= i < j < r.len() implies r[i].1.spec_le(r[j].1) by {
            if i == 0 {
                assert(s[0].1.spec_le(rec[j - 1].1));
            } else {
                assert(rec[i - 1].1.spec_le(rec[j - 1].1));
            }
        }
    }
}

/// Law: the insertion sort by `t` leaves the hits sorted ascending by their
/// exact ray parameter.
pub proof fn lemma_sort_by_t_sorted(s: Seq<(RatPoint, Rat)>)
    requires
        hits_ok(s),
    ensures
        sorted_by_t(sort_by_t(s)),
        hits_ok(sort_by_t(s)),
        sort_by_t(s).len() == s.len(),
    decreases s.len(),
{
    if s.len() != 0 {
        assert(hits_ok(s.drop_last()));
        lemma_sort_by_t_sorted(s.drop_last());
        lemma_insert_sorted(s.last(), sort_by_t(s.drop_last()));
        lemma_insert_ok(s.last(), sort_by_t(s.drop_last()));
    }
}

/// Insertion adds exactly the new hit to the sequence's multiset.
proof fn lemma_insert_permutes(x: (RatPoint, Rat), s: Seq<(RatPoint, Rat)>)
    ensures
        insert_by_t(x, s).to_multiset() =~= s.to_multiset().insert(x),
    decreases s.len(),
{
    broadcast use vstd::seq_lib::group_to_multiset_ensures;

    if s.len() == 0 {
        assert(seq![x] =~= Seq::<(RatPoint, Rat)>::empty().push(x));
    } else if !s[0].1.spec_le(x.1) {
        vstd::seq_lib::lemma_multiset_commutative(seq![x], s);
        assert(seq![x] =~= Seq::<(RatPoint, Rat)>::empty().push(x));
        assert(Multiset::<(RatPoint, Rat)>::empty().insert(x).add(s.to_multiset())
            =~= s.to_multiset().insert(x));
    } else {
        lemma_insert_permutes(x, s.drop_first());
        let rec = insert_by_t(x, s.drop_first());
        vstd::seq_lib::lemma_multiset_commutative(seq![s[0]], rec);
        assert(seq![s[0]] =~= Seq::<(RatPoint, Rat)>::empty().push(s[0]));
        assert(s =~= seq![s[0]] + s.drop_first());
        vstd::seq_lib::lemma_multiset_commutative(seq![s[0]], s.drop_first());
        assert(seq![s[0]].to_multiset().add(s.drop_first().to_multiset().insert(x)) =~= (seq![
            s[0],
        ].to_multiset().add(s.drop_first().to_multiset())).insert(x));
    }
}

/// Law: the insertion sort by `t` is a permutation — it returns exactly the
/// hits it was given, as a multiset, no more and no fewer.
pub proof fn lemma_sort_by_t_permutes(s: Seq<(RatPoint, Rat)>)
    ensures
        sort_by_t(s).to_multiset() == s.to_multiset(),
    decreases s.len(),
{
    broadcast use vstd::seq_lib::group_to_multiset_ensures;

    if s.len() != 0 {
        lemma_sort_by_t_permutes(s.drop_last());
        lemma_insert_permutes(s.last(), sort_by_t(s.drop_last()));
        assert(s =~= s.drop_last().push(s.last()));
    }
}

/// Splitting an insertion at a prefix whose elements all go before the new
/// hit.
proof fn lemma_insert_skip(x: (RatPoint, Rat), s: Seq<(RatPoint, Rat)>, j: int)
    requires
        0 <= j <= s.len(),
        forall|k: int| 0 <= k < j ==> (#[trigger] s[k]).1.spec_le(x.1),
    ensures
        insert_by_t(x, s) =~= s.take(j) + insert_by_t(x, s.skip(j)),
    decreases j,
{
    if j == 0 {
        assert(s.skip(0) =~= s);
        assert(s.take(0) + insert_by_t(x, s) =~= insert_by_t(x, s));
    } else {
        lemma_insert_skip(x, s.drop_first(), j - 1);
        assert(s.drop_first().take(j - 1) =~= s.take(j).drop_first());
        assert(s.drop_first().skip(j - 1) =~= s.skip(j));
        assert(seq![s[0]] + (s.drop_first().take(j - 1) + insert_by_t(x, s.skip(j))) =~= s.take(j)
            + insert_by_t(x, s.skip(j)));
    }
}

/// Insert a hit into a vector of hits sorted ascending by `t`, keeping the
/// order and matching the specification-level stable insertion.
pub fn insert_hit(v: &mut Vec<(RatPoint, Rat)>, x: (RatPoint, Rat))
    requires
        hit_ok(x),
        hits_ok(old(v)@),
    ensures
        final(v)@ == insert_by_t(x, old(v)@),
        hits_ok(final(v)@),
        sorted_by_t(old(v)@) ==> sorted_by_t(final(v)@),
{
    proof {
        if sorted_by_t(v@) {
            lemma_insert_sorted(x, v@);
        }
    }
    let ghost s = v@;
    let mut j: usize = 0;
    while j < v.len() && v[j].1.le(&x.1)
        invariant
            j <= v@.len(),
            v@ == s,
            hit_ok(x),
            hits_ok(s),
            forall|k: int| 0 <= k < j ==> (#[trigger] s[k]).1.spec_le(x.1),
        decreases v@.len() - j,
    {
        j += 1;
    }
    v.insert(j, x);
    proof {
        lemma_insert_skip(x, s, j as int);
        if j < s.len() {
            assert(s.skip(j as int)[0] == s[j as int]);
            assert(insert_by_t(x, s.skip(j as int)) =~= seq![x] + s.skip(j as int));
        } else {
            assert(s.skip(j as int) =~= Seq::<(RatPoint, Rat)>::empty());
            assert(insert_by_t(x, s.skip(j as int)) =~= seq![x] + s.skip(j as int));
        }
        assert(s.insert(j as int, x) =~= s.take(j as int) + (seq![x] + s.skip(j as int)));
        assert(v@ =~= insert_by_t(x, s));
        lemma_insert_ok(x, s);
    }
}

} // verus!
