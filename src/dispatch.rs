//! Choosing and running an execution strategy over a tensor's blocks.
use vstd::prelude::*;
use crate::codec::{headers_of_blocks, lemma_split_decode, levels_of_blocks};
use crate::error::QuantError;
use crate::tensor::QuantizedTensor;
use crate::utils::Capabilities;

verus! {

/// An execution strategy for block decoding.
#[derive(Clone, Copy, Debug, PartialEq, Eq, Structural)]
pub enum Backend {
    /// One block after another; always available.
    Scalar,
    /// Several blocks per batch, as wide as the vector unit allows.
    Vectorized,
    /// The block range split across a pool of workers.
    Parallel,
}

/// Whether `caps` allows strategy `b`: vector batches need a vector
/// extension, the worker pool needs an accelerated math or device backend.
pub open spec fn backend_available(b: Backend, caps: Capabilities) -> bool {
    match b {
        Backend::Scalar => true,
        Backend::Vectorized => caps.avx || caps.neon || caps.simd128,
        Backend::Parallel => caps.cuda || caps.metal || caps.accelerate || caps.mkl,
    }
}

/// Blocks per vector batch under `caps`.
pub open spec fn lanes_of(caps: Capabilities) -> usize {
    if caps.avx {
        8
    } else if caps.neon || caps.simd128 {
        4
    } else {
        1
    }
}

impl Backend {
    /// Whether `caps` allows this strategy.
    pub fn is_available(self, caps: &Capabilities) -> (r: bool)
        ensures
            r == backend_available(self, *caps),
    {
        match self {
            Backend::Scalar => true,
            Backend::Vectorized => caps.avx || caps.neon || caps.simd128,
            Backend::Parallel => caps.cuda || caps.metal || caps.accelerate || caps.mkl,
        }
    }
}

/// The fastest strategy that `caps` allows: the worker pool, then vector
/// batches, then the scalar loop.
pub fn preferred_backend(caps: &Capabilities) -> (r: Backend)
    ensures
        backend_available(r, *caps),
        r == (if backend_available(Backend::Parallel, *caps) {
            Backend::Parallel
        } else if backend_available(Backend::Vectorized, *caps) {
            Backend::Vectorized
        } else {
            Backend::Scalar
        }),
{
    if Backend::Parallel.is_available(caps) {
        Backend::Parallel
    } else if Backend::Vectorized.is_available(caps) {
        Backend::Vectorized
    } else {
        Backend::Scalar
    }
}

/// Blocks per vector batch under `caps`.
pub fn simd_lanes(caps: &Capabilities) -> (r: usize)
    ensures
        r == lanes_of(*caps),
        r >= 1,
{
    if caps.avx {
        8
    } else if caps.neon || caps.simd128 {
        4
    } else {
        1
    }
}

/// Splits blocks `0..n` into `workers` consecutive chunks: chunk `i` is
/// `r[i]..r[i + 1]`, and no chunk is longer than `n / workers + 1`.
pub fn partition(n: usize, workers: usize) -> (r: Vec<usize>)
    requires
        workers >= 1,
    ensures
        r@.len() == workers + 1,
        r@[0] == 0,
        r@[workers as int] == n,
        forall|i: int| 0 <= i < workers ==> #[trigger] r@[i] <= r@[i + 1],
        forall|i: int| 0 <= i < workers ==> #[trigger] r@[i + 1] - r@[i] <= n / workers + 1,
{
    proof {
        vstd::arithmetic::div_mod::lemma_fundamental_div_mod(n as int, workers as int);
        let q = n as int / workers as int;
        assert(n % workers != 0 ==> q + 1 <= usize::MAX) by (nonlinear_arith)
            requires
                n == workers * q + n % workers,
                0 <= n % workers < workers,
                n <= usize::MAX,
                q >= 0;
    }
    let chunk = n / workers + if n % workers == 0 { 0usize } else { 1usize };
    let mut r: Vec<usize> = Vec::new();
    r.push(0);
    let mut cur: usize = 0;
    let mut i: usize = 0;
    while i < workers
        invariant
            i <= workers,
            workers >= 1,
            chunk == n / workers + if n % workers == 0 { 0int } else { 1int },
            r@.len() == i + 1,
            r@[0] == 0,
            cur == r@[i as int],
            cur <= n,
            cur >= i * chunk || cur == n,
            forall|k: int| 0 <= k < i ==> #[trigger] r@[k] <= r@[k + 1],
            forall|k: int| 0 <= k < i ==> #[trigger] r@[k + 1] - r@[k] <= n / workers + 1,
        decreases workers - i,
    {
        let next = if n - cur <= chunk { n } else { cur + chunk };
        r.push(next);
        proof {
            assert((i + 1) * chunk == i * chunk + chunk) by (nonlinear_arith);
        }
        cur = next;
        i = i + 1;
    }
    proof {
        assert(workers * chunk >= n) by (nonlinear_arith)
            requires
                workers >= 1,
                chunk == n / workers + if n % workers == 0 { 0int } else { 1int },
                n == workers * (n / workers) + n % workers,
                0 <= n % workers < workers;
    }
    r
}

/// Runs block decoding on a chosen strategy, with the capability set and the
/// worker count resolved once for the process.
pub struct Dispatcher {
    caps: Capabilities,
    num_threads: usize,
}

impl Dispatcher {
    #[verifier::type_invariant]
    spec fn inv(&self) -> bool {
        self.num_threads >= 1
    }

    /// The capabilities this dispatcher was built with.
    pub closed spec fn caps_view(&self) -> Capabilities {
        self.caps
    }

    /// The worker count this dispatcher was built with.
    pub closed spec fn threads_view(&self) -> usize {
        self.num_threads
    }

    /// A dispatcher for capability set `caps` and `num_threads` workers.
    pub fn new(caps: Capabilities, num_threads: usize) -> (r: Dispatcher)
        requires
            num_threads >= 1,
        ensures
            r.caps_view() == caps,
            r.threads_view() == num_threads,
    {
        Dispatcher { caps, num_threads }
    }

    /// The capability set.
    pub fn capabilities(&self) -> (r: Capabilities)
        ensures
            r == self.caps_view(),
    {
        self.caps
    }

    /// The worker count.
    pub fn num_threads(&self) -> (r: usize)
        ensures
            r == self.threads_view(),
            r >= 1,
    {
        proof {
            use_type_invariant(self);
        }
        self.num_threads
    }

    /// Decodes every block of `t` with strategy `backend`: the header fields
    /// of each block and the level of each element, in order. Every
    /// available strategy gives the same result; an unavailable one is
    /// refused before any block is read.
    pub fn dequantize_levels(&self, t: &QuantizedTensor, backend: Backend) -> (r: Result<
        (Vec<u16>, Vec<u32>),
        QuantError,
    >)
        ensures
            !backend_available(backend, self.caps_view()) ==> r == Err::<(Vec<u16>, Vec<u32>), QuantError>(
                QuantError::BackendUnavailable { backend },
            ),
            backend_available(backend, self.caps_view()) ==> (r matches Ok((h, l)) && h@
                == t.headers_view() && l@ == t.levels_view()),
    {
        proof {
            use_type_invariant(self);
        }
        if !backend.is_available(&self.caps) {
            return Err(QuantError::BackendUnavailable { backend });
        }
        let nb = t.block_count();
        let mut headers: Vec<u16> = Vec::new();
        let mut levels: Vec<u32> = Vec::new();
        let ghost f = t.dtype_view();
        let ghost d = t.bytes_view();
        match backend {
            Backend::Scalar => {
                t.decode_range(0, nb, &mut headers, &mut levels);
                proof {
                    assert(headers@ =~= t.headers_view());
                    assert(levels@ =~= t.levels_view());
                }
            },
            Backend::Vectorized => {
                let lanes = simd_lanes(&self.caps);
                let mut b: usize = 0;
                while b < nb
                    invariant
                        b <= nb,
                        nb == t.block_count_view(),
                        lanes >= 1,
                        f == t.dtype_view(),
                        d == t.bytes_view(),
                        headers@ == headers_of_blocks(f, d, 0, b as int),
                        levels@ == levels_of_blocks(f, d, 0, b as int),
                    decreases nb - b,
                {
                    let end = if nb - b <= lanes { nb } else { b + lanes };
                    t.decode_range(b, end, &mut headers, &mut levels);
                    proof {
                        lemma_split_decode(f, d, 0, b as int, end as int);
                    }
                    b = end;
                }
            },
            Backend::Parallel => {
                let bounds = partition(nb, self.num_threads);
                let mut i: usize = 0;
                while i < self.num_threads
                    invariant
                        i <= self.num_threads,
                        bounds@.len() == self.num_threads + 1,
                        bounds@[0] == 0,
                        bounds@[self.num_threads as int] == nb,
                        forall|k: int| 0 <= k < self.num_threads ==> #[trigger] bounds@[k] <= bounds@[k + 1],
                        nb == t.block_count_view(),
                        f == t.dtype_view(),
                        d == t.bytes_view(),
                        headers@ == headers_of_blocks(f, d, 0, bounds@[i as int] as int),
                        levels@ == levels_of_blocks(f, d, 0, bounds@[i as int] as int),
                    decreases self.num_threads - i,
                {
                    proof {
                        lemma_bounds_sorted(bounds@, self.num_threads as int, i + 1);
                    }
                    let mut part_headers: Vec<u16> = Vec::new();
                    let mut part_levels: Vec<u32> = Vec::new();
                    t.decode_range(bounds[i], bounds[i + 1], &mut part_headers, &mut part_levels);
                    headers.append(&mut part_headers);
                    levels.append(&mut part_levels);
                    proof {
                        lemma_split_decode(f, d, 0, bounds@[i as int] as int, bounds@[i + 1] as int);
                    }
                    i = i + 1;
                }
            },
        }
        Ok((headers, levels))
    }
}

/// In a chain of bounds that rise step by step, every bound is at most the last.
proof fn lemma_bounds_sorted(b: Seq<usize>, w: int, i: int)
    requires
        0 <= i <= w,
        b.len() == w + 1,
        forall|k: int| 0 <= k < w ==> #[trigger] b[k] <= b[k + 1],
    ensures
        b[i] <= b[w],
    decreases w - i,
{
    if i < w {
        lemma_bounds_sorted(b, w, i + 1);
    }
}

} // verus!
