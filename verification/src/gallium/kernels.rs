//! Which implementation of the numerical loops a machine runs.

use vstd::prelude::*;

verus! {

/// Portable loops.
#[derive(Debug)]
pub struct BaselineKernels;

/// Loops for x86-64 with AVX2 and FMA.
#[derive(Debug)]
pub struct Avx2Kernels;

/// Loops for x86-64 with AVX-512F and AVX-512BW.
#[derive(Debug)]
pub struct Avx512Kernels;

/// Loops for aarch64, where NEON is always there.
#[derive(Debug)]
pub struct NeonKernels;

/// A selected implementation.
#[derive(Debug)]
pub enum KernelSet {
    Baseline(BaselineKernels),
    Avx2(Avx2Kernels),
    Avx512(Avx512Kernels),
    Neon(NeonKernels),
}

/// What a machine can do.
#[derive(Debug, Clone, Copy, PartialEq, Eq, Structural)]
pub struct Features {
    pub x86_64: bool,
    pub aarch64: bool,
    pub avx512f: bool,
    pub avx512bw: bool,
    pub avx2: bool,
    pub fma: bool,
}

impl KernelSet {
    /// The name of the implementation.
    pub open spec fn label(self) -> Seq<char> {
        match self {
            KernelSet::Baseline(_) => "baseline"@,
            KernelSet::Avx2(_) => "avx2"@,
            KernelSet::Avx512(_) => "avx512"@,
            KernelSet::Neon(_) => "neon"@,
        }
    }

    /// The best implementation that a machine can run.
    pub fn detect(f: Features) -> (r: Self)
        ensures
            r is Avx512 <==> f.x86_64 && f.avx512f && f.avx512bw,
            r is Avx2 <==> f.x86_64 && !(f.avx512f && f.avx512bw) && f.avx2 && f.fma,
            r is Neon <==> !f.x86_64 && f.aarch64,
            r is Baseline <==> (f.x86_64 && !(f.avx512f && f.avx512bw) && !(f.avx2 && f.fma)) || (
            !f.x86_64 && !f.aarch64),
    {
        if f.x86_64 {
            if f.avx512f && f.avx512bw {
                KernelSet::Avx512(Avx512Kernels)
            } else if f.avx2 && f.fma {
                KernelSet::Avx2(Avx2Kernels)
            } else {
                KernelSet::Baseline(BaselineKernels)
            }
        } else if f.aarch64 {
            KernelSet::Neon(NeonKernels)
        } else {
            KernelSet::Baseline(BaselineKernels)
        }
    }

    /// The portable implementation, whatever the machine can do.
    pub fn baseline() -> (r: Self)
        ensures
            r is Baseline,
    {
        KernelSet::Baseline(BaselineKernels)
    }

    /// The name of the implementation.
    pub fn name(&self) -> (r: &'static str)
        ensures
            r@ == self.label(),
    {
        match self {
            KernelSet::Baseline(_) => "baseline",
            KernelSet::Avx2(_) => "avx2",
            KernelSet::Avx512(_) => "avx512",
            KernelSet::Neon(_) => "neon",
        }
    }
}

} // verus!
