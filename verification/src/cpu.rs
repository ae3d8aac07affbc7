//! The vector instructions that a machine has.
//!
//! They make a set and not a scale: the extensions of AVX-512 come one by one, and a
//! scan that needs several of them needs each.

use vstd::prelude::*;

verus! {

/// The bit of AVX.
const AVX_BIT: u8 = 1;

/// The bit of SSSE3.
const SSSE3_BIT: u8 = 2;

/// The bit of AVX2.
const AVX2_BIT: u8 = 4;

/// The bit of the foundation of AVX-512.
const AVX512F_BIT: u8 = 8;

/// The bit of AVX-512 on bytes and words.
const AVX512BW_BIT: u8 = 16;

/// The bit of AVX-512 on shorter vectors.
const AVX512VL_BIT: u8 = 32;

/// What a machine lacks where it cannot run the program, in words.
pub const UNSUPPORTED_CPU_MESSAGE: &'static str = "this CPU does not support the AVX + SSSE3 baseline which Sakura Input requires (Intel Sandy Bridge / AMD Bulldozer, 2011 or later)";

/// The vector instructions that a machine has.
#[derive(Debug, Clone, Copy, PartialEq, Eq, Structural)]
pub struct CpuFeatures {
    bits: u8,
}

/// One extension.
pub ghost enum Feature {
    Avx,
    Ssse3,
    Avx2,
    Avx512F,
    Avx512Bw,
    Avx512Vl,
}

/// The bit of an extension.
closed spec fn bit_of(f: Feature) -> u8 {
    match f {
        Feature::Avx => AVX_BIT,
        Feature::Ssse3 => SSSE3_BIT,
        Feature::Avx2 => AVX2_BIT,
        Feature::Avx512F => AVX512F_BIT,
        Feature::Avx512Bw => AVX512BW_BIT,
        Feature::Avx512Vl => AVX512VL_BIT,
    }
}

impl View for CpuFeatures {
    type V = Set<Feature>;

    closed spec fn view(&self) -> Set<Feature> {
        Set::new(|f: Feature| self.bits & bit_of(f) != 0)
    }
}

/// The extensions that were detected.
pub open spec fn detected(
    avx: bool,
    ssse3: bool,
    avx2: bool,
    avx512f: bool,
    avx512bw: bool,
    avx512vl: bool,
) -> Set<Feature> {
    Set::new(
        |f: Feature|
            match f {
                Feature::Avx => avx,
                Feature::Ssse3 => ssse3,
                Feature::Avx2 => avx2,
                Feature::Avx512F => avx512f,
                Feature::Avx512Bw => avx512bw,
                Feature::Avx512Vl => avx512vl,
            },
    )
}

/// The extensions that a machine must have.
pub open spec fn baseline() -> Set<Feature> {
    set![Feature::Avx, Feature::Ssse3]
}

/// The bits of what was detected.
spec fn joined(
    avx: bool,
    ssse3: bool,
    avx2: bool,
    avx512f: bool,
    avx512bw: bool,
    avx512vl: bool,
) -> u8 {
    (if avx {
        1u8
    } else {
        0
    }) | (if ssse3 {
        2
    } else {
        0
    }) | (if avx2 {
        4
    } else {
        0
    }) | (if avx512f {
        8
    } else {
        0
    }) | (if avx512bw {
        16
    } else {
        0
    }) | (if avx512vl {
        32
    } else {
        0
    })
}

proof fn lemma_joined(
    avx: bool,
    ssse3: bool,
    avx2: bool,
    avx512f: bool,
    avx512bw: bool,
    avx512vl: bool,
)
    ensures
        ({
            let bits = joined(avx, ssse3, avx2, avx512f, avx512bw, avx512vl);
            &&& bits < 64
            &&& (bits & 1 != 0) == avx
            &&& (bits & 2 != 0) == ssse3
            &&& (bits & 4 != 0) == avx2
            &&& (bits & 8 != 0) == avx512f
            &&& (bits & 16 != 0) == avx512bw
            &&& (bits & 32 != 0) == avx512vl
        }),
{
    assert(({
        let bits = joined(avx, ssse3, avx2, avx512f, avx512bw, avx512vl);
        bits < 64 && (bits & 1 != 0) == avx && (bits & 2 != 0) == ssse3 && (bits & 4 != 0) == avx2
            && (bits & 8 != 0) == avx512f && (bits & 16 != 0) == avx512bw && (bits & 32 != 0)
            == avx512vl
    })) by (bit_vector);
}

/// One set of bits holds another where it holds each of its six bits.
proof fn lemma_inclusion(a: u8, b: u8)
    requires
        b < 64,
    ensures
        (a & b == b) == ((b & 1 != 0 ==> a & 1 != 0) && (b & 2 != 0 ==> a & 2 != 0) && (b & 4 != 0
            ==> a & 4 != 0) && (b & 8 != 0 ==> a & 8 != 0) && (b & 16 != 0 ==> a & 16 != 0) && (b
            & 32 != 0 ==> a & 32 != 0)),
{
    assert((a & b == b) == ((b & 1 != 0 ==> a & 1 != 0) && (b & 2 != 0 ==> a & 2 != 0) && (b & 4
        != 0 ==> a & 4 != 0) && (b & 8 != 0 ==> a & 8 != 0) && (b & 16 != 0 ==> a & 16 != 0) && (b
        & 32 != 0 ==> a & 32 != 0))) by (bit_vector)
        requires
            b < 64,
    ;
}

impl CpuFeatures {
    #[verifier::type_invariant]
    closed spec fn wf(self) -> bool {
        self.bits < 64
    }

    /// No vector instructions.
    pub fn empty() -> (r: Self)
        ensures
            r@ == Set::<Feature>::empty(),
    {
        CpuFeatures::from_detected(false, false, false, false, false, false)
    }

    /// What the narrowest scan in blocks needs: its shuffle is of SSSE3, so that AVX
    /// alone is not enough.
    pub fn avx_ssse3_set() -> (r: Self)
        ensures
            r@ == baseline(),
    {
        CpuFeatures::from_detected(true, true, false, false, false, false)
    }

    /// What the scan in blocks of 32 bytes needs.
    pub fn avx2_set() -> (r: Self)
        ensures
            r@ == baseline().insert(Feature::Avx2),
    {
        CpuFeatures::from_detected(true, true, true, false, false, false)
    }

    /// What the scan in blocks of 64 bytes needs.
    pub fn avx512_bw_vl_set() -> (r: Self)
        ensures
            r@ == baseline().insert(Feature::Avx2).insert(Feature::Avx512F).insert(
                Feature::Avx512Bw,
            ).insert(Feature::Avx512Vl),
    {
        CpuFeatures::from_detected(true, true, true, true, true, true)
    }

    /// The set of what was detected.
    pub fn from_detected(
        avx: bool,
        ssse3: bool,
        avx2: bool,
        avx512f: bool,
        avx512bw: bool,
        avx512vl: bool,
    ) -> (r: Self)
        ensures
            r@ == detected(avx, ssse3, avx2, avx512f, avx512bw, avx512vl),
    {
        proof {
            lemma_joined(avx, ssse3, avx2, avx512f, avx512bw, avx512vl);
        }
        let r = CpuFeatures {
            bits: (if avx {
                AVX_BIT
            } else {
                0
            }) | (if ssse3 {
                SSSE3_BIT
            } else {
                0
            }) | (if avx2 {
                AVX2_BIT
            } else {
                0
            }) | (if avx512f {
                AVX512F_BIT
            } else {
                0
            }) | (if avx512bw {
                AVX512BW_BIT
            } else {
                0
            }) | (if avx512vl {
                AVX512VL_BIT
            } else {
                0
            }),
        };
        assert(r@ =~= detected(avx, ssse3, avx2, avx512f, avx512bw, avx512vl));
        r
    }

    /// Whether everything that is required is there.
    pub fn supports(self, requirements: Self) -> (r: bool)
        ensures
            r == requirements@.subset_of(self@),
    {
        proof {
            use_type_invariant(&requirements);
            lemma_inclusion(self.bits, requirements.bits);
            let a = self@;
            let b = requirements@;
            if self.bits & requirements.bits != requirements.bits {
                assert(b.contains(Feature::Avx) && !a.contains(Feature::Avx) || b.contains(
                    Feature::Ssse3,
                ) && !a.contains(Feature::Ssse3) || b.contains(Feature::Avx2) && !a.contains(
                    Feature::Avx2,
                ) || b.contains(Feature::Avx512F) && !a.contains(Feature::Avx512F) || b.contains(
                    Feature::Avx512Bw,
                ) && !a.contains(Feature::Avx512Bw) || b.contains(Feature::Avx512Vl) && !a.contains(
                    Feature::Avx512Vl,
                ));
            }
        }
        self.bits & requirements.bits == requirements.bits
    }

    /// Whether AVX is there.
    pub fn avx(self) -> (r: bool)
        ensures
            r == self@.contains(Feature::Avx),
    {
        self.bits & AVX_BIT != 0
    }

    /// Whether SSSE3 is there.
    pub fn ssse3(self) -> (r: bool)
        ensures
            r == self@.contains(Feature::Ssse3),
    {
        self.bits & SSSE3_BIT != 0
    }

    /// Whether AVX2 is there.
    pub fn avx2(self) -> (r: bool)
        ensures
            r == self@.contains(Feature::Avx2),
    {
        self.bits & AVX2_BIT != 0
    }

    /// Whether the foundation of AVX-512 is there.
    pub fn avx512f(self) -> (r: bool)
        ensures
            r == self@.contains(Feature::Avx512F),
    {
        self.bits & AVX512F_BIT != 0
    }

    /// Whether AVX-512 on bytes and words is there.
    pub fn avx512bw(self) -> (r: bool)
        ensures
            r == self@.contains(Feature::Avx512Bw),
    {
        self.bits & AVX512BW_BIT != 0
    }

    /// Whether AVX-512 on shorter vectors is there.
    pub fn avx512vl(self) -> (r: bool)
        ensures
            r == self@.contains(Feature::Avx512Vl),
    {
        self.bits & AVX512VL_BIT != 0
    }
}

/// A machine that cannot run the program.
#[derive(Debug, Clone, Copy, PartialEq, Eq, Structural)]
pub struct UnsupportedCpu;

impl UnsupportedCpu {
    /// What the machine lacks, in words.
    pub fn message(&self) -> (r: &'static str)
        ensures
            r@ == UNSUPPORTED_CPU_MESSAGE@,
    {
        UNSUPPORTED_CPU_MESSAGE
    }
}

/// The set of what was detected at the start of the program, on a machine that can run
/// it. Machines of another architecture have no vector instructions and need none.
pub fn detect_at_startup(
    x86_64: bool,
    avx: bool,
    ssse3: bool,
    avx2: bool,
    avx512f: bool,
    avx512bw: bool,
    avx512vl: bool,
) -> (r: Result<CpuFeatures, UnsupportedCpu>)
    ensures
        match r {
            Ok(features) => if x86_64 {
                &&& avx && ssse3
                &&& features@ == detected(avx, ssse3, avx2, avx512f, avx512bw, avx512vl)
            } else {
                features@ == Set::<Feature>::empty()
            },
            Err(_) => x86_64 && !(avx && ssse3),
        },
{
    if !x86_64 {
        return Ok(CpuFeatures::empty());
    }
    let features = CpuFeatures::from_detected(avx, ssse3, avx2, avx512f, avx512bw, avx512vl);
    let floor = CpuFeatures::avx_ssse3_set();
    proof {
        assert(floor@.contains(Feature::Avx));
        assert(floor@.contains(Feature::Ssse3));
    }
    if features.supports(floor) {
        Ok(features)
    } else {
        Err(UnsupportedCpu)
    }
}

/// A machine that can run a wider scan in blocks can run the narrower ones.
pub proof fn requirements_nest(machine: Set<Feature>)
    ensures
        baseline().insert(Feature::Avx2).insert(Feature::Avx512F).insert(
            Feature::Avx512Bw,
        ).insert(Feature::Avx512Vl).subset_of(machine) ==> baseline().insert(
            Feature::Avx2,
        ).subset_of(machine),
        baseline().insert(Feature::Avx2).subset_of(machine) ==> baseline().subset_of(machine),
{
}

} // verus!
