//! Halton point generator built from a full list of bases, and the
//! three-dimensional sphere generator that terminates the recursive
//! cylindrical and spherical constructions.

use vstd::prelude::*;

verus! {

use crate::lds::Circle;
use crate::lds::ConfigError;
use crate::lds::Frac;
use crate::lds::VdCorput;
use crate::lds::vdc_den;
use crate::lds::vdc_num;

/// Halton point generator: one Van der Corput sequence per entry of the
/// base list it was built from.
#[derive(Debug)]
pub struct HaltonN {
    vdcs: Vec<VdCorput>,
}

impl HaltonN {
    /// The base of each coordinate, in order.
    pub closed spec fn bases(self) -> Seq<nat> {
        self.vdcs@.map_values(|v: VdCorput| v.base())
    }

    /// The position of each coordinate, in order.
    pub closed spec fn counts(self) -> Seq<nat> {
        self.vdcs@.map_values(|v: VdCorput| v.count())
    }

    /// Every coordinate carries a valid base, and there is one position per
    /// coordinate.
    pub open spec fn wf(self) -> bool {
        &&& self.counts().len() == self.bases().len()
        &&& forall|i: int| 0 <= i < self.bases().len() ==> self.bases()[i] >= 2
    }

    /// Creates a generator with one coordinate per entry of `base`.
    pub fn new(base: &[usize]) -> (r: Result<Self, ConfigError>)
        ensures
            (forall|i: int| 0 <= i < base@.len() ==> base@[i] >= 2) ==> (r matches Ok(g) && g.wf()
                && g.bases().len() == base@.len() && g.counts().len() == base@.len()
                && (forall|i: int| 0 <= i < base@.len() ==> g.bases()[i] == base@[i])
                && (forall|i: int| 0 <= i < base@.len() ==> g.counts()[i] == 0)),
            (exists|i: int| 0 <= i < base@.len() && base@[i] < 2) ==> (r matches Err(e)
                && e == ConfigError::BaseTooSmall),
    {
        let n: usize = base.len();
        let mut vdcs: Vec<VdCorput> = Vec::new();
        let mut i: usize = 0;
        while i < n
            invariant
                i <= n,
                n == base@.len(),
                vdcs@.len() == i,
                forall|j: int| 0 <= j < i ==> base@[j] >= 2,
                forall|j: int| 0 <= j < i ==> #[trigger] vdcs@[j].base() == base@[j],
                forall|j: int| 0 <= j < i ==> #[trigger] vdcs@[j].count() == 0,
            decreases n - i,
        {
            if base[i] < 2 {
                return Err(ConfigError::BaseTooSmall);
            }
            vdcs.push(VdCorput::from_base(base[i]));
            i = i + 1;
        }
        Ok(HaltonN { vdcs })
    }

    /// Draws the next point: one fraction per coordinate.
    pub fn pop(&mut self) -> (r: Vec<Frac>)
        requires
            old(self).wf(),
            forall|i: int| 0 <= i < old(self).counts().len() ==> old(self).counts()[i]
                < usize::MAX,
        ensures
            final(self).wf(),
            final(self).bases() == old(self).bases(),
            final(self).counts().len() == old(self).counts().len(),
            forall|i: int| 0 <= i < old(self).counts().len()
                ==> final(self).counts()[i] == old(self).counts()[i] + 1,
            r@.len() == old(self).bases().len(),
            forall|i: int| 0 <= i < r@.len() ==> (#[trigger] r@[i]).num == vdc_num(
                (old(self).counts()[i] + 1) as nat,
                old(self).bases()[i],
            ) && r@[i].den == vdc_den((old(self).counts()[i] + 1) as nat, old(self).bases()[i]),
    {
        let n: usize = self.vdcs.len();
        proof {
            assert forall|j: int| 0 <= j < n implies (#[trigger] old(self).vdcs@[j]).base() >= 2
                && old(self).vdcs@[j].count() < usize::MAX by {
                assert(old(self).bases()[j] == old(self).vdcs@[j].base());
                assert(old(self).counts()[j] == old(self).vdcs@[j].count());
            }
        }
        let mut res: Vec<Frac> = Vec::new();
        let mut i: usize = 0;
        while i < n
            invariant
                i <= n,
                n == self.vdcs@.len(),
                self.vdcs@.len() == old(self).vdcs@.len(),
                res@.len() == i,
                forall|j: int| i <= j < n ==> self.vdcs@[j] == old(self).vdcs@[j],
                forall|j: int| 0 <= j < n ==> (#[trigger] old(self).vdcs@[j]).base() >= 2,
                forall|j: int| 0 <= j < n ==> (#[trigger] old(self).vdcs@[j]).count() < usize::MAX,
                forall|j: int| 0 <= j < i ==> (#[trigger] self.vdcs@[j]).base() == old(
                    self,
                ).vdcs@[j].base(),
                forall|j: int| 0 <= j < i ==> (#[trigger] self.vdcs@[j]).count() == old(
                    self,
                ).vdcs@[j].count() + 1,
                forall|j: int| 0 <= j < i ==> (#[trigger] res@[j]).num == vdc_num(
                    (old(self).vdcs@[j].count() + 1) as nat,
                    old(self).vdcs@[j].base(),
                ) && res@[j].den == vdc_den(
                    (old(self).vdcs@[j].count() + 1) as nat,
                    old(self).vdcs@[j].base(),
                ),
            decreases n - i,
        {
            let f: Frac = self.vdcs[i].pop();
            res.push(f);
            i = i + 1;
        }
        proof {
            assert(self.bases() =~= old(self).bases());
        }
        res
    }

    /// Repositions every coordinate to `seed`.
    pub fn reseed(&mut self, seed: usize)
        ensures
            final(self).wf() == old(self).wf(),
            final(self).bases() == old(self).bases(),
            final(self).counts().len() == old(self).counts().len(),
            forall|i: int| 0 <= i < old(self).counts().len() ==> final(self).counts()[i] == seed,
    {
        let n: usize = self.vdcs.len();
        let mut i: usize = 0;
        while i < n
            invariant
                i <= n,
                n == self.vdcs@.len(),
                self.vdcs@.len() == old(self).vdcs@.len(),
                forall|j: int| i <= j < n ==> self.vdcs@[j] == old(self).vdcs@[j],
                forall|j: int| 0 <= j < i ==> (#[trigger] self.vdcs@[j]).base() == old(
                    self,
                ).vdcs@[j].base(),
                forall|j: int| 0 <= j < i ==> (#[trigger] self.vdcs@[j]).count() == seed,
            decreases n - i,
        {
            self.vdcs[i].reseed(seed);
            i = i + 1;
        }
        proof {
            assert(self.bases() =~= old(self).bases());
        }
    }
}

/// Sphere sequence generator over two bases: the polar draw and the
/// azimuthal circle draw of each point.
#[derive(Debug)]
pub struct SphereN2 {
    vdc: VdCorput,
    cirgen: Circle,
}

impl SphereN2 {
    /// The base of the polar scalar sequence.
    pub closed spec fn base0(self) -> nat {
        self.vdc.base()
    }

    /// The base of the azimuthal circle sequence.
    pub closed spec fn base1(self) -> nat {
        self.cirgen.base()
    }

    /// The position of the polar scalar sequence.
    pub closed spec fn count0(self) -> nat {
        self.vdc.count()
    }

    /// The position of the azimuthal circle sequence.
    pub closed spec fn count1(self) -> nat {
        self.cirgen.count()
    }

    /// Both inner sequences carry valid bases.
    pub open spec fn wf(self) -> bool {
        self.base0() >= 2 && self.base1() >= 2
    }

    /// Creates a generator from the first two entries of `base`.
    pub fn new(base: &[usize]) -> (r: Result<Self, ConfigError>)
        ensures
            base@.len() < 2 ==> (r matches Err(e) && e == ConfigError::TooFewBases),
            base@.len() >= 2 && (base@[0] < 2 || base@[1] < 2) ==> (r matches Err(e)
                && e == ConfigError::BaseTooSmall),
            base@.len() >= 2 && base@[0] >= 2 && base@[1] >= 2 ==> (r matches Ok(g) && g.wf()
                && g.base0() == base@[0] && g.base1() == base@[1] && g.count0() == 0
                && g.count1() == 0),
    {
        if base.len() < 2 {
            Err(ConfigError::TooFewBases)
        } else if base[0] < 2 || base[1] < 2 {
            Err(ConfigError::BaseTooSmall)
        } else {
            Ok(SphereN2 { vdc: VdCorput::from_base(base[0]), cirgen: Circle::from_base(base[1]) })
        }
    }

    /// Draws the next point: the polar fraction and the azimuthal fraction.
    pub fn pop(&mut self) -> (r: (Frac, Frac))
        requires
            old(self).wf(),
            old(self).count0() < usize::MAX,
            old(self).count1() < usize::MAX,
        ensures
            final(self).wf(),
            final(self).base0() == old(self).base0(),
            final(self).base1() == old(self).base1(),
            final(self).count0() == old(self).count0() + 1,
            final(self).count1() == old(self).count1() + 1,
            r.0.num == vdc_num(old(self).count0() + 1, old(self).base0()),
            r.0.den == vdc_den(old(self).count0() + 1, old(self).base0()),
            r.1.num == vdc_num(old(self).count1() + 1, old(self).base1()),
            r.1.den == vdc_den(old(self).count1() + 1, old(self).base1()),
    {
        (self.vdc.pop(), self.cirgen.pop())
    }

    /// Repositions both inner sequences to `seed`.
    pub fn reseed(&mut self, seed: usize)
        ensures
            final(self).wf() == old(self).wf(),
            final(self).base0() == old(self).base0(),
            final(self).base1() == old(self).base1(),
            final(self).count0() == seed,
            final(self).count1() == seed,
    {
        self.cirgen.reseed(seed);
        self.vdc.reseed(seed);
    }
}

} // verus!
