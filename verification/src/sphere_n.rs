//! Point generators on spheres of arbitrary dimension.
//!
//! A generator over `k + 1` bases (`k >= 2`) produces points on the unit
//! sphere in `k + 2` coordinates.  It is a chain: its own scalar sequence
//! drives the polar angle of the outermost coordinate, and an inner
//! generator over one base fewer produces the lower-dimensional point,
//! ending in the ordinary sphere generator over the last two bases.  Each
//! draw yields one scalar fraction per base, outermost first; the angles,
//! sines and cosines that turn those draws into coordinates are a fixed
//! numeric mapping of the draws, inverted by table lookup over the monotone
//! tables that [`interp_locate`] searches.

use vstd::prelude::*;

verus! {

use crate::lds::ConfigError;
use crate::lds::Frac;
use crate::lds::Sphere;
use crate::lds::VdCorput;
use crate::lds::vdc_den;
use crate::lds::vdc_num;

/// The terminal link of the chain: the ordinary sphere generator over two
/// bases, drawing the polar and azimuthal fractions of a three-coordinate
/// point.
#[derive(Debug)]
pub(crate) struct SphereWrapper {
    sphere: Sphere,
}

impl SphereWrapper {
    /// The base of each scalar draw.
    pub closed spec fn bases(self) -> Seq<nat> {
        seq![self.sphere.base0(), self.sphere.base1()]
    }

    /// The position of each scalar draw.
    pub closed spec fn counts(self) -> Seq<nat> {
        seq![self.sphere.count0(), self.sphere.count1()]
    }

    /// Both inner sequences carry valid bases.
    pub open spec fn wf(self) -> bool {
        forall|i: int| 0 <= i < self.bases().len() ==> self.bases()[i] >= 2
    }

    /// Creates the terminal link from two valid bases.
    pub(crate) fn new(base0: usize, base1: usize) -> (r: Self)
        requires
            base0 >= 2,
            base1 >= 2,
        ensures
            r.wf(),
            r.bases() == seq![base0 as nat, base1 as nat],
            r.counts() == seq![0nat, 0nat],
    {
        SphereWrapper { sphere: Sphere::from_bases(base0, base1) }
    }

    /// Draws the polar and azimuthal fractions of the next point.
    pub(crate) fn pop(&mut self) -> (r: (Frac, Frac))
        requires
            old(self).wf(),
            forall|i: int| 0 <= i < old(self).counts().len() ==> old(self).counts()[i]
                < usize::MAX,
        ensures
            final(self).wf(),
            final(self).bases() == old(self).bases(),
            final(self).counts() == seq![
                (old(self).counts()[0] + 1) as nat,
                (old(self).counts()[1] + 1) as nat,
            ],
            r.0.num == vdc_num((old(self).counts()[0] + 1) as nat, old(self).bases()[0]),
            r.0.den == vdc_den((old(self).counts()[0] + 1) as nat, old(self).bases()[0]),
            r.1.num == vdc_num((old(self).counts()[1] + 1) as nat, old(self).bases()[1]),
            r.1.den == vdc_den((old(self).counts()[1] + 1) as nat, old(self).bases()[1]),
    {
        self.sphere.pop()
    }

    /// Repositions both inner sequences to `seed`.
    pub(crate) fn reseed(&mut self, seed: usize)
        ensures
            final(self).wf() == old(self).wf(),
            final(self).bases() == old(self).bases(),
            final(self).counts() == seq![seed as nat, seed as nat],
    {
        self.sphere.reseed(seed);
        proof {
            assert(self.bases() =~= old(self).bases());
            assert(self.counts() =~= seq![seed as nat, seed as nat]);
        }
    }
}

/// Three-sphere sequence generator: a scalar sequence for the outermost
/// polar angle around the terminal two-base sphere generator.  Each draw
/// yields three fractions for a four-coordinate unit point.
#[derive(Debug)]
pub struct Sphere3 {
    vdc: VdCorput,
    sphere2: SphereWrapper,
}

impl Sphere3 {
    /// The base of each scalar draw, outermost first.
    pub closed spec fn bases(self) -> Seq<nat> {
        seq![self.vdc.base()] + self.sphere2.bases()
    }

    /// The position of each scalar draw, outermost first.
    pub closed spec fn counts(self) -> Seq<nat> {
        seq![self.vdc.count()] + self.sphere2.counts()
    }

    /// All three bases can carry digits.
    pub open spec fn wf(self) -> bool {
        forall|i: int| 0 <= i < self.bases().len() ==> self.bases()[i] >= 2
    }

    /// Creates a generator from the first three entries of `base`.
    pub fn new(base: &[usize]) -> (r: Result<Self, ConfigError>)
        ensures
            base@.len() < 3 ==> (r matches Err(e) && e == ConfigError::TooFewBases),
            base@.len() >= 3 && (base@[0] < 2 || base@[1] < 2 || base@[2] < 2) ==> (
            r matches Err(e) && e == ConfigError::BaseTooSmall),
            base@.len() >= 3 && base@[0] >= 2 && base@[1] >= 2 && base@[2] >= 2 ==> (
            r matches Ok(g) && g.wf() && g.bases() == seq![
                base@[0] as nat,
                base@[1] as nat,
                base@[2] as nat,
            ] && g.counts() == seq![0nat, 0nat, 0nat]),
    {
        if base.len() < 3 {
            Err(ConfigError::TooFewBases)
        } else if base[0] < 2 || base[1] < 2 || base[2] < 2 {
            Err(ConfigError::BaseTooSmall)
        } else {
            let g = Sphere3 {
                vdc: VdCorput::from_base(base[0]),
                sphere2: SphereWrapper::new(base[1], base[2]),
            };
            proof {
                assert(g.bases() =~= seq![base@[0] as nat, base@[1] as nat, base@[2] as nat]);
                assert(g.counts() =~= seq![0nat, 0nat, 0nat]);
            }
            Ok(g)
        }
    }

    /// Draws the next point: three fractions, outermost first.
    pub fn pop(&mut self) -> (r: Vec<Frac>)
        requires
            old(self).wf(),
            forall|i: int| 0 <= i < old(self).counts().len() ==> old(self).counts()[i]
                < usize::MAX,
        ensures
            final(self).wf(),
            final(self).bases() == old(self).bases(),
            final(self).counts().len() == old(self).counts().len(),
            forall|i: int| 0 <= i < old(self).counts().len()
                ==> final(self).counts()[i] == old(self).counts()[i] + 1,
            r@.len() == old(self).bases().len(),
            forall|i: int| 0 <= i < r@.len() ==> (#[trigger] r@[i]).num == vdc_num(
                (old(self).counts()[i] + 1) as nat,
                old(self).bases()[i],
            ) && r@[i].den == vdc_den((old(self).counts()[i] + 1) as nat, old(self).bases()[i]),
    {
        proof {
            assert(old(self).bases()[0] == old(self).vdc.base());
            assert(old(self).counts()[0] == old(self).vdc.count());
            assert forall|i: int| 0 <= i < 2 implies old(self).sphere2.bases()[i] == old(
                self,
            ).bases()[i + 1] && old(self).sphere2.counts()[i] == old(self).counts()[i + 1] by {}
        }
        let v: Frac = self.vdc.pop();
        let (f1, f2): (Frac, Frac) = self.sphere2.pop();
        let mut out: Vec<Frac> = Vec::new();
        out.push(v);
        out.push(f1);
        out.push(f2);
        proof {
            assert(self.bases() =~= old(self).bases());
            assert(self.counts().len() == old(self).counts().len());
        }
        out
    }

    /// Repositions every inner sequence to `seed`.
    pub fn reseed(&mut self, seed: usize)
        ensures
            final(self).wf() == old(self).wf(),
            final(self).bases() == old(self).bases(),
            final(self).counts().len() == old(self).counts().len(),
            forall|i: int| 0 <= i < old(self).counts().len() ==> final(self).counts()[i] == seed,
    {
        self.vdc.reseed(seed);
        self.sphere2.reseed(seed);
        proof {
            assert(self.bases() =~= old(self).bases());
        }
    }
}

/// The inner generator of a [`SphereN`]: the terminal two-base sphere for
/// the three-base case, another chain link otherwise.
#[derive(Debug)]
enum SphereVariant {
    Terminal(SphereWrapper),
    Recursive(Box<SphereN>),
}

/// Sphere sequence generator for arbitrary dimensions.
///
/// Built over `k + 1 >= 3` bases, every draw yields `k + 1` fractions,
/// outermost first, for a unit point in `k + 2` coordinates.
#[derive(Debug)]
pub struct SphereN {
    vdc: VdCorput,
    s_gen: SphereVariant,
    n: usize,
}

impl SphereN {
    /// The base of each scalar draw, outermost coordinate first.
    pub closed spec fn bases(self) -> Seq<nat>
        decreases self,
    {
        match self.s_gen {
            SphereVariant::Terminal(w) => seq![self.vdc.base()] + w.bases(),
            SphereVariant::Recursive(g) => seq![self.vdc.base()] + (*g).bases(),
        }
    }

    /// The position of each scalar draw, outermost coordinate first.
    pub closed spec fn counts(self) -> Seq<nat>
        decreases self,
    {
        match self.s_gen {
            SphereVariant::Terminal(w) => seq![self.vdc.count()] + w.counts(),
            SphereVariant::Recursive(g) => seq![self.vdc.count()] + (*g).counts(),
        }
    }

    /// The sphere dimension parameter of this link: one fewer than the
    /// number of bases behind it.
    pub closed spec fn dim(self) -> nat {
        self.n as nat
    }

    /// Each link records one more dimension than the link under it, down to
    /// the terminal link at dimension 2.
    pub closed spec fn chain_ok(self) -> bool
        decreases self,
    {
        match self.s_gen {
            SphereVariant::Terminal(_) => self.n == 2,
            SphereVariant::Recursive(g) => {
                &&& (*g).chain_ok()
                &&& (*g).n + 1 == self.n
                &&& (*g).bases().len() == (*g).n + 1
                &&& (*g).bases().len() >= 3
                &&& (*g).counts().len() == (*g).bases().len()
            },
        }
    }

    /// The chain is complete and every base can carry digits.
    pub open spec fn wf(self) -> bool {
        &&& self.chain_ok()
        &&& self.counts().len() == self.bases().len()
        &&& self.bases().len() == self.dim() + 1
        &&& self.bases().len() >= 3
        &&& forall|i: int| 0 <= i < self.bases().len() ==> self.bases()[i] >= 2
    }

    /// Sequence lengths agree at every level of the chain.
    proof fn lemma_counts_len(self)
        ensures
            self.counts().len() == self.bases().len(),
        decreases self,
    {
        match self.s_gen {
            SphereVariant::Terminal(_) => {},
            SphereVariant::Recursive(g) => {
                (*g).lemma_counts_len();
            },
        }
    }

    /// Creates a generator over all entries of `base`; fewer than three
    /// bases, or a base below 2, are rejected.
    pub fn new(base: &[usize]) -> (r: Result<Self, ConfigError>)
        ensures
            base@.len() < 3 ==> (r matches Err(e) && e == ConfigError::TooFewBases),
            base@.len() >= 3 && (exists|i: int| 0 <= i < base@.len() && base@[i] < 2) ==> (
            r matches Err(e) && e == ConfigError::BaseTooSmall),
            base@.len() >= 3 && (forall|i: int| 0 <= i < base@.len() ==> base@[i] >= 2) ==> (
            r matches Ok(g) && g.wf() && g.bases().len() == base@.len() && g.dim() + 1
                == base@.len()
                && (forall|i: int| 0 <= i < base@.len() ==> g.bases()[i] == base@[i])
                && (forall|i: int| 0 <= i < base@.len() ==> g.counts()[i] == 0)),
    {
        if base.len() < 3 {
            return Err(ConfigError::TooFewBases);
        }
        let n: usize = base.len();
        let mut i: usize = 0;
        while i < n
            invariant
                i <= n,
                n >= 3,
                n == base@.len(),
                forall|j: int| 0 <= j < i ==> base@[j] >= 2,
            decreases n - i,
        {
            if base[i] < 2 {
                return Err(ConfigError::BaseTooSmall);
            }
            i = i + 1;
        }
        Ok(Self::build(base, 0))
    }

    /// Builds the chain for `base[start..]`.
    fn build(base: &[usize], start: usize) -> (r: Self)
        requires
            start + 3 <= base@.len(),
            forall|i: int| start <= i < base@.len() ==> base@[i] >= 2,
        ensures
            r.wf(),
            r.bases().len() == base@.len() - start,
            forall|i: int| 0 <= i < r.bases().len() ==> r.bases()[i] == base@[start + i],
            forall|i: int| 0 <= i < r.counts().len() ==> r.counts()[i] == 0,
        decreases base@.len() - start,
    {
        let vdc = VdCorput::from_base(base[start]);
        if base.len() - start == 3 {
            let w = SphereWrapper::new(base[start + 1], base[start + 2]);
            let r = SphereN { vdc, s_gen: SphereVariant::Terminal(w), n: 2 };
            proof {
                assert(r.bases() =~= Seq::new(3, |i: int| base@[start + i] as nat));
            }
            r
        } else {
            let inner = Self::build(base, start + 1);
            let m: usize = base.len() - start - 1;
            let r = SphereN { vdc, s_gen: SphereVariant::Recursive(Box::new(inner)), n: m };
            proof {
                assert forall|i: int| 0 <= i < r.bases().len() implies r.bases()[i] == base@[start
                    + i] by {
                    if i > 0 {
                        assert(r.bases()[i] == inner.bases()[i - 1]);
                    }
                }
                r.lemma_counts_len();
            }
            r
        }
    }

    /// Draws the next point: one fraction per base, outermost first.
    pub fn pop(&mut self) -> (r: Vec<Frac>)
        requires
            old(self).wf(),
            forall|i: int| 0 <= i < old(self).counts().len() ==> old(self).counts()[i]
                < usize::MAX,
        ensures
            final(self).wf(),
            final(self).bases() == old(self).bases(),
            final(self).dim() == old(self).dim(),
            final(self).counts().len() == old(self).counts().len(),
            forall|i: int| 0 <= i < old(self).counts().len()
                ==> final(self).counts()[i] == old(self).counts()[i] + 1,
            r@.len() == old(self).bases().len(),
            forall|i: int| 0 <= i < r@.len() ==> (#[trigger] r@[i]).num == vdc_num(
                (old(self).counts()[i] + 1) as nat,
                old(self).bases()[i],
            ) && r@[i].den == vdc_den((old(self).counts()[i] + 1) as nat, old(self).bases()[i]),
        decreases *old(self),
    {
        proof {
            assert(old(self).bases()[0] == old(self).vdc.base());
            assert(old(self).counts()[0] == old(self).vdc.count());
        }
        let v: Frac = self.vdc.pop();
        let mut out: Vec<Frac> = Vec::new();
        out.push(v);
        match &mut self.s_gen {
            SphereVariant::Terminal(w) => {
                proof {
                    let inner = old(self).s_gen->Terminal_0;
                    assert(old(self).bases()[1] == inner.bases()[0]);
                    assert(old(self).bases()[2] == inner.bases()[1]);
                    assert(old(self).counts()[1] == inner.counts()[0]);
                    assert(old(self).counts()[2] == inner.counts()[1]);
                }
                let (f1, f2): (Frac, Frac) = w.pop();
                out.push(f1);
                out.push(f2);
            },
            SphereVariant::Recursive(g) => {
                proof {
                    let inner = *old(self).s_gen->Recursive_0;
                    assert forall|i: int| 0 <= i < inner.bases().len() implies inner.bases()[i]
                        == old(self).bases()[i + 1] && inner.counts()[i] == old(self).counts()[i
                        + 1] by {}
                    assert(inner.wf());
                }
                let mut rest: Vec<Frac> = g.pop();
                out.append(&mut rest);
            },
        }
        proof {
            assert(self.bases() =~= old(self).bases());
            assert(self.counts().len() == old(self).counts().len()) by {
                self.lemma_counts_len();
                old(self).lemma_counts_len();
            }
        }
        out
    }

    /// Repositions every level of the chain to `seed`: the state afterwards
    /// depends on `seed` alone, not on anything drawn before.
    pub fn reseed(&mut self, seed: usize)
        ensures
            final(self).wf() == old(self).wf(),
            final(self).chain_ok() == old(self).chain_ok(),
            final(self).bases() == old(self).bases(),
            final(self).dim() == old(self).dim(),
            final(self).counts().len() == old(self).counts().len(),
            forall|i: int| 0 <= i < old(self).counts().len() ==> final(self).counts()[i] == seed,
        decreases *old(self),
    {
        self.vdc.reseed(seed);
        match &mut self.s_gen {
            SphereVariant::Terminal(w) => {
                w.reseed(seed);
            },
            SphereVariant::Recursive(g) => {
                g.reseed(seed);
            },
        }
        proof {
            assert(self.bases() =~= old(self).bases());
            assert(self.counts().len() == old(self).counts().len()) by {
                self.lemma_counts_len();
                old(self).lemma_counts_len();
            }
            assert forall|i: int| 0 <= i < old(self).counts().len() implies self.counts()[i]
                == seed by {}
            assert(self.chain_ok() == old(self).chain_ok());
        }
    }

    /// Repositions the chain to `seed` and draws the next `m` points.
    ///
    /// The result is exactly the draw table [`sphere_draws`] of the bases
    /// and the seed, whatever the generator drew before the call:
    /// repositioning is absolute, and each draw is a function of the
    /// positions and bases alone.
    pub fn draws_from(&mut self, seed: usize, m: usize) -> (r: Vec<Vec<Frac>>)
        requires
            old(self).wf(),
            seed + m <= usize::MAX,
        ensures
            final(self).wf(),
            final(self).bases() == old(self).bases(),
            r@.len() == m,
            forall|j: int| 0 <= j < m ==> (#[trigger] r@[j])@.len() == old(self).bases().len(),
            forall|j: int, i: int|
                0 <= j < m && 0 <= i < old(self).bases().len() ==> (#[trigger] r@[j]@[i]).num
                    == sphere_draws(old(self).bases(), seed as nat, m as nat)[j][i].0
                    && r@[j]@[i].den == sphere_draws(
                    old(self).bases(),
                    seed as nat,
                    m as nat,
                )[j][i].1,
    {
        self.reseed(seed);
        let mut out: Vec<Vec<Frac>> = Vec::new();
        let mut j: usize = 0;
        while j < m
            invariant
                j <= m,
                seed + m <= usize::MAX,
                self.wf(),
                self.bases() == old(self).bases(),
                forall|i: int| 0 <= i < self.counts().len() ==> self.counts()[i] == seed + j,
                out@.len() == j,
                forall|jj: int| 0 <= jj < j ==> (#[trigger] out@[jj])@.len()
                    == self.bases().len(),
                forall|jj: int, i: int|
                    0 <= jj < j && 0 <= i < self.bases().len() ==> (#[trigger] out@[jj]@[i]).num
                        == vdc_num((seed + jj + 1) as nat, self.bases()[i]) && out@[jj]@[i].den
                        == vdc_den((seed + jj + 1) as nat, self.bases()[i]),
            decreases m - j,
        {
            let row: Vec<Frac> = self.pop();
            out.push(row);
            j = j + 1;
        }
        out
    }
}

/// Where a lookup value falls in a table of monotone keys: at or below the
/// first key, at or above the last key (with the first key strictly
/// passed), or within the segment starting at a given index.
#[derive(Clone, Copy, Debug, PartialEq, Eq, Structural)]
pub enum InterpPos {
    Below,
    Above,
    Within(usize),
}

/// Locates `x` in the non-decreasing key table `xp`, mirroring the clamping
/// lookup that inverts the angle tables: values at or below the first key
/// clamp low, values at or above the last key clamp high, and anything else
/// falls in the first segment `[xp[i], xp[i + 1]]` that contains it.
pub fn interp_locate(x: u64, xp: &Vec<u64>) -> (r: InterpPos)
    requires
        xp@.len() >= 1,
        forall|i: int| 0 <= i < xp@.len() - 1 ==> #[trigger] xp@[i] <= xp@[i + 1],
    ensures
        (r == InterpPos::Below) <==> x <= xp@[0],
        (r == InterpPos::Above) <==> (x > xp@[0] && x >= xp@[xp@.len() - 1]),
        r matches InterpPos::Within(i) ==> xp@[0] < x < xp@[xp@.len() - 1] && i + 1 < xp@.len()
            && xp@[i as int] <= x <= xp@[i as int + 1] && (forall|j: int|
            0 <= j < i ==> x > #[trigger] xp@[j + 1]),
{
    let m: usize = xp.len();
    if x <= xp[0] {
        return InterpPos::Below;
    }
    if x >= xp[m - 1] {
        return InterpPos::Above;
    }
    let mut i: usize = 0;
    while i < m - 1
        invariant
            m == xp@.len(),
            2 <= m,
            i <= m - 1,
            forall|j: int| 0 <= j < m - 1 ==> #[trigger] xp@[j] <= xp@[j + 1],
            xp@[0] < x,
            x < xp@[m - 1],
            x > xp@[i as int],
            forall|j: int| 0 <= j < i ==> x > #[trigger] xp@[j + 1],
        decreases m - 1 - i,
    {
        if xp[i] <= x && x <= xp[i + 1] {
            return InterpPos::Within(i);
        }
        proof {
            assert(x > xp@[i as int + 1]);
        }
        i = i + 1;
    }
    // The loop cannot run out: the value sits strictly between the first
    // and the last key, so some segment takes it.
    proof {
        assert(false);
    }
    InterpPos::Above
}

/// The table of draws that a generator over `bases` produces after being
/// repositioned to `seed`: row `j` holds the fractions (as numerator and
/// denominator pairs) of the `j`-th point drawn after the reseed, one per
/// base.
pub open spec fn sphere_draws(bases: Seq<nat>, seed: nat, m: nat) -> Seq<Seq<(nat, nat)>> {
    Seq::new(
        m,
        |j: int|
            Seq::new(
                bases.len(),
                |i: int|
                    (
                        vdc_num((seed + j + 1) as nat, bases[i]),
                        vdc_den((seed + j + 1) as nat, bases[i]),
                    ),
            ),
    )
}

/// Repositioning is absolute: two generators over the same bases, each
/// reseeded to the same seed, go on to produce the same table of draws,
/// whatever either one drew before.  Together with the contract of `pop` —
/// whose result is a function of the positions and bases alone — and the
/// contract of `reseed` — which fixes every position to the seed — this
/// pins the sequence after a reseed completely.
pub proof fn lemma_reseed_determinism(g1: SphereN, g2: SphereN, seed: nat, m: nat)
    requires
        g1.bases() == g2.bases(),
    ensures
        sphere_draws(g1.bases(), seed, m) == sphere_draws(g2.bases(), seed, m),
{
}

/// Distinct seeds part ways at once: after reseeding one generator to `s1`
/// and another (or the same one later) to `s2 != s1`, the first points
/// drawn differ in the outermost coordinate, because the digit-reversal
/// sequence of the outermost base never repeats a value.
pub proof fn lemma_reseed_distinct(bases: Seq<nat>, s1: nat, s2: nat, m1: nat, m2: nat)
    requires
        bases.len() >= 1,
        bases[0] >= 2,
        s1 != s2,
        m1 >= 1,
        m2 >= 1,
    ensures
        sphere_draws(bases, s1, m1)[0] != sphere_draws(bases, s2, m2)[0],
{
    crate::lds::lemma_vdc_distinct(s1 + 1, s2 + 1, bases[0]);
    let row1 = sphere_draws(bases, s1, m1)[0];
    let row2 = sphere_draws(bases, s2, m2)[0];
    assert(row1[0] == (vdc_num(s1 + 1, bases[0]), vdc_den(s1 + 1, bases[0])));
    assert(row2[0] == (vdc_num(s2 + 1, bases[0]), vdc_den(s2 + 1, bases[0])));
    if row1 == row2 {
        assert(row1[0] == row2[0]);
    }
}

} // verus!
