//! Helpers for divisibility checks, the preferred parallelism degree and the
//! platform capability set.
use vstd::prelude::*;

verus! {

/// Divisibility test on unsigned integers; a zero divisor divides nothing.
pub trait IsMultipleOf: Sized + Copy {
    /// The mathematical value of the integer.
    spec fn value_of(self) -> nat;

    fn is_multiple_of(self, other: Self) -> (r: bool)
        ensures
            r == (other.value_of() != 0 && self.value_of() % other.value_of() == 0),
    ;
}

impl IsMultipleOf for usize {
    open spec fn value_of(self) -> nat {
        self as nat
    }

    fn is_multiple_of(self, other: usize) -> (r: bool) {
        if other == 0 {
            return false;
        }
        self % other == 0
    }
}

impl IsMultipleOf for u128 {
    open spec fn value_of(self) -> nat {
        self as nat
    }

    fn is_multiple_of(self, other: u128) -> (r: bool) {
        if other == 0 {
            return false;
        }
        self % other == 0
    }
}

impl IsMultipleOf for u64 {
    open spec fn value_of(self) -> nat {
        self as nat
    }

    fn is_multiple_of(self, other: u64) -> (r: bool) {
        if other == 0 {
            return false;
        }
        self % other == 0
    }
}

impl IsMultipleOf for u32 {
    open spec fn value_of(self) -> nat {
        self as nat
    }

    fn is_multiple_of(self, other: u32) -> (r: bool) {
        if other == 0 {
            return false;
        }
        self % other == 0
    }
}

impl IsMultipleOf for u16 {
    open spec fn value_of(self) -> nat {
        self as nat
    }

    fn is_multiple_of(self, other: u16) -> (r: bool) {
        if other == 0 {
            return false;
        }
        self % other == 0
    }
}

impl IsMultipleOf for u8 {
    open spec fn value_of(self) -> nat {
        self as nat
    }

    fn is_multiple_of(self, other: u8) -> (r: bool) {
        if other == 0 {
            return false;
        }
        self % other == 0
    }
}

/// The value of a run of decimal digits, most significant first.
pub open spec fn digits_value(s: Seq<char>) -> int
    decreases s.len(),
{
    if s.len() == 0 {
        0
    } else {
        digits_value(s.drop_last()) * 10 + (s.last() as int - '0' as int)
    }
}

/// Whether every character of `s` is an ASCII decimal digit.
pub open spec fn all_digits(s: Seq<char>) -> bool {
    forall|i: int| 0 <= i < s.len() ==> '0' <= #[trigger] s[i] && s[i] <= '9'
}

/// The digits of an unsigned decimal literal: the text without its optional
/// leading `+`.
pub open spec fn unsigned_digits(s: Seq<char>) -> Seq<char> {
    if s.len() > 0 && s[0] == '+' {
        s.drop_first()
    } else {
        s
    }
}

/// The number that `s` denotes as an unsigned decimal literal that fits in
/// `usize`, if it is one.
pub open spec fn usize_literal(s: Seq<char>) -> Option<int> {
    let d = unsigned_digits(s);
    if d.len() > 0 && all_digits(d) && digits_value(d) <= usize::MAX {
        Some(digits_value(d))
    } else {
        None
    }
}

/// Relies on `<usize as FromStr>::from_str`: an optional `+` followed by
/// decimal digits whose value fits in `usize` parses to that value; any
/// other text is an error.
#[verifier::external_body]
fn parse_usize(s: &str) -> (r: Option<usize>)
    ensures
        match usize_literal(s@) {
            Some(v) => r == Some(v as usize),
            None => r is None,
        },
{
    <usize as std::str::FromStr>::from_str(s).ok()
}

/// Relies on `num_cpus::get`: the number of logical CPUs available to this
/// process, which its documentation promises is at least one.
#[verifier::external_body]
fn available_cpus() -> (r: usize)
    ensures
        r >= 1,
{
    num_cpus::get()
}

/// The parallelism degree chosen from an override and the detected processor
/// count: a positive override wins, anything else falls back to the count.
pub open spec fn resolved_threads(requested: Option<usize>, detected: usize) -> usize {
    match requested {
        Some(x) if x > 0 => x,
        _ => detected,
    }
}

/// Picks the parallelism degree from an already parsed override and the
/// detected processor count.
pub fn resolve_num_threads(requested: Option<usize>, detected: usize) -> (r: usize)
    ensures
        r == resolved_threads(requested, detected),
        detected >= 1 ==> r >= 1,
{
    match requested {
        Some(x) if x > 0 => x,
        _ => detected,
    }
}

/// The preferred number of worker threads. `env_value` is the text of the
/// thread-count override variable (the one rayon reads), if it is set: a
/// positive decimal number there is taken as is; otherwise the number of
/// available processors is used.
pub fn get_num_threads(env_value: Option<&str>) -> (r: usize)
    ensures
        r >= 1,
        match env_value {
            Some(s) => match usize_literal(s@) {
                Some(v) if v > 0 => r == v,
                _ => true,
            },
            None => true,
        },
{
    let requested = match env_value {
        Some(s) => parse_usize(s),
        None => None,
    };
    match requested {
        Some(x) if x > 0 => x,
        _ => resolve_num_threads(None, available_cpus()),
    }
}

/// The backends and instruction-set extensions that this process may use,
/// resolved once and handed to the dispatcher.
#[derive(Clone, Copy, Debug, PartialEq, Eq)]
pub struct Capabilities {
    pub accelerate: bool,
    pub mkl: bool,
    pub cuda: bool,
    pub metal: bool,
    pub avx: bool,
    pub neon: bool,
    pub simd128: bool,
    pub f16c: bool,
}

impl Capabilities {
    /// The capability set with nothing but the scalar path available.
    pub fn none() -> (r: Capabilities)
        ensures
            !r.accelerate && !r.mkl && !r.cuda && !r.metal,
            !r.avx && !r.neon && !r.simd128 && !r.f16c,
    {
        Capabilities {
            accelerate: false,
            mkl: false,
            cuda: false,
            metal: false,
            avx: false,
            neon: false,
            simd128: false,
            f16c: false,
        }
    }
}

/// Whether Apple's Accelerate framework is available.
pub fn has_accelerate(caps: &Capabilities) -> (r: bool)
    ensures
        r == caps.accelerate,
{
    caps.accelerate
}

/// Whether Intel MKL is available.
pub fn has_mkl(caps: &Capabilities) -> (r: bool)
    ensures
        r == caps.mkl,
{
    caps.mkl
}

/// Whether a CUDA device backend is available.
pub fn cuda_is_available(caps: &Capabilities) -> (r: bool)
    ensures
        r == caps.cuda,
{
    caps.cuda
}

/// Whether a Metal device backend is available.
pub fn metal_is_available(caps: &Capabilities) -> (r: bool)
    ensures
        r == caps.metal,
{
    caps.metal
}

/// Whether AVX2 vector instructions are available.
pub fn with_avx(caps: &Capabilities) -> (r: bool)
    ensures
        r == caps.avx,
{
    caps.avx
}

/// Whether NEON vector instructions are available.
pub fn with_neon(caps: &Capabilities) -> (r: bool)
    ensures
        r == caps.neon,
{
    caps.neon
}

/// Whether WebAssembly SIMD128 instructions are available.
pub fn with_simd128(caps: &Capabilities) -> (r: bool)
    ensures
        r == caps.simd128,
{
    caps.simd128
}

/// Whether F16C half-precision conversion instructions are available.
pub fn with_f16c(caps: &Capabilities) -> (r: bool)
    ensures
        r == caps.f16c,
{
    caps.f16c
}

} // verus!
