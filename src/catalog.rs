use vstd::prelude::*;

verus! {

/// A numerical backend that a benchmark can be run against.
#[derive(Clone, Copy, Debug, PartialEq, Eq, Structural)]
pub enum BackendValues {
    CandleCpu,
    CandleCuda,
    CandleMetal,
    Ndarray,
    NdarrayBlasAccelerate,
    NdarrayBlasNetlib,
    NdarrayBlasOpenblas,
    TchCpu,
    TchGpu,
    Wgpu,
    WgpuFusion,
}

/// A workload of the benchmark suite.
#[derive(Clone, Copy, Debug, PartialEq, Eq, Structural)]
pub enum BenchmarkValues {
    Binary,
    CustomGelu,
    Data,
    Matmul,
    Unary,
}

/// The identifier under which a backend is selected and reported.
pub open spec fn backend_name_spec(b: BackendValues) -> Seq<char> {
    match b {
        BackendValues::CandleCpu => "candle-cpu"@,
        BackendValues::CandleCuda => "candle-cuda"@,
        BackendValues::CandleMetal => "candle-metal"@,
        BackendValues::Ndarray => "ndarray"@,
        BackendValues::NdarrayBlasAccelerate => "ndarray-blas-accelerate"@,
        BackendValues::NdarrayBlasNetlib => "ndarray-blas-netlib"@,
        BackendValues::NdarrayBlasOpenblas => "ndarray-blas-openblas"@,
        BackendValues::TchCpu => "tch-cpu"@,
        BackendValues::TchGpu => "tch-gpu"@,
        BackendValues::Wgpu => "wgpu"@,
        BackendValues::WgpuFusion => "wgpu-fusion"@,
    }
}

/// The identifier under which a benchmark is selected and reported.
pub open spec fn benchmark_name_spec(b: BenchmarkValues) -> Seq<char> {
    match b {
        BenchmarkValues::Binary => "binary"@,
        BenchmarkValues::CustomGelu => "custom_gelu"@,
        BenchmarkValues::Data => "data"@,
        BenchmarkValues::Matmul => "matmul"@,
        BenchmarkValues::Unary => "unary"@,
    }
}

impl BackendValues {
    /// The backend's identifier, e.g. `wgpu-fusion`.
    pub fn name(&self) -> (r: String)
        ensures
            r@ == backend_name_spec(*self),
    {
        let s = match self {
            BackendValues::CandleCpu => "candle-cpu",
            BackendValues::CandleCuda => "candle-cuda",
            BackendValues::CandleMetal => "candle-metal",
            BackendValues::Ndarray => "ndarray",
            BackendValues::NdarrayBlasAccelerate => "ndarray-blas-accelerate",
            BackendValues::NdarrayBlasNetlib => "ndarray-blas-netlib",
            BackendValues::NdarrayBlasOpenblas => "ndarray-blas-openblas",
            BackendValues::TchCpu => "tch-cpu",
            BackendValues::TchGpu => "tch-gpu",
            BackendValues::Wgpu => "wgpu",
            BackendValues::WgpuFusion => "wgpu-fusion",
        };
        s.to_string()
    }
}

impl BenchmarkValues {
    /// The benchmark's identifier, e.g. `custom_gelu`.
    pub fn name(&self) -> (r: String)
        ensures
            r@ == benchmark_name_spec(*self),
    {
        let s = match self {
            BenchmarkValues::Binary => "binary",
            BenchmarkValues::CustomGelu => "custom_gelu",
            BenchmarkValues::Data => "data",
            BenchmarkValues::Matmul => "matmul",
            BenchmarkValues::Unary => "unary",
        };
        s.to_string()
    }
}

/// Every backend, in catalog order.
pub open spec fn all_backends_spec() -> Seq<BackendValues> {
    seq![
        BackendValues::CandleCpu,
        BackendValues::CandleCuda,
        BackendValues::CandleMetal,
        BackendValues::Ndarray,
        BackendValues::NdarrayBlasAccelerate,
        BackendValues::NdarrayBlasNetlib,
        BackendValues::NdarrayBlasOpenblas,
        BackendValues::TchCpu,
        BackendValues::TchGpu,
        BackendValues::Wgpu,
        BackendValues::WgpuFusion,
    ]
}

/// Every benchmark, in catalog order.
pub open spec fn all_benchmarks_spec() -> Seq<BenchmarkValues> {
    seq![
        BenchmarkValues::Binary,
        BenchmarkValues::CustomGelu,
        BenchmarkValues::Data,
        BenchmarkValues::Matmul,
        BenchmarkValues::Unary,
    ]
}

/// Lists every backend, in catalog order.
pub fn all_backends() -> (r: Vec<BackendValues>)
    ensures
        r@ == all_backends_spec(),
{
    let r = vec![
        BackendValues::CandleCpu,
        BackendValues::CandleCuda,
        BackendValues::CandleMetal,
        BackendValues::Ndarray,
        BackendValues::NdarrayBlasAccelerate,
        BackendValues::NdarrayBlasNetlib,
        BackendValues::NdarrayBlasOpenblas,
        BackendValues::TchCpu,
        BackendValues::TchGpu,
        BackendValues::Wgpu,
        BackendValues::WgpuFusion,
    ];
    assert(r@ =~= all_backends_spec());
    r
}

/// Lists every benchmark, in catalog order.
pub fn all_benchmarks() -> (r: Vec<BenchmarkValues>)
    ensures
        r@ == all_benchmarks_spec(),
{
    let r = vec![
        BenchmarkValues::Binary,
        BenchmarkValues::CustomGelu,
        BenchmarkValues::Data,
        BenchmarkValues::Matmul,
        BenchmarkValues::Unary,
    ];
    assert(r@ =~= all_benchmarks_spec());
    r
}

/// The backend selected by an identifier, if one has it.
pub fn backend_from_name(s: &str) -> (r: Option<BackendValues>)
    ensures
        r matches Some(b) ==> backend_name_spec(b) == s@,
        r is None ==> forall|b: BackendValues| backend_name_spec(b) != s@,
{
    let all = all_backends();
    let mut i: usize = 0;
    while i < all.len()
        invariant
            all@ == all_backends_spec(),
            i <= all@.len(),
            forall|k: int| 0 <= k < i ==> backend_name_spec(#[trigger] all@[k]) != s@,
        decreases all@.len() - i,
    {
        let b = all[i];
        let n = b.name();
        if crate::results::str_eq(n.as_str(), s) {
            return Some(b);
        }
        i = i + 1;
    }
    proof {
        assert forall|b: BackendValues| backend_name_spec(b) != s@ by {
            let k: int = match b {
                BackendValues::CandleCpu => 0,
                BackendValues::CandleCuda => 1,
                BackendValues::CandleMetal => 2,
                BackendValues::Ndarray => 3,
                BackendValues::NdarrayBlasAccelerate => 4,
                BackendValues::NdarrayBlasNetlib => 5,
                BackendValues::NdarrayBlasOpenblas => 6,
                BackendValues::TchCpu => 7,
                BackendValues::TchGpu => 8,
                BackendValues::Wgpu => 9,
                BackendValues::WgpuFusion => 10,
            };
            assert(all@[k] == b);
        }
    }
    None
}

/// The benchmark selected by an identifier, if one has it.
pub fn benchmark_from_name(s: &str) -> (r: Option<BenchmarkValues>)
    ensures
        r matches Some(b) ==> benchmark_name_spec(b) == s@,
        r is None ==> forall|b: BenchmarkValues| benchmark_name_spec(b) != s@,
{
    let all = all_benchmarks();
    let mut i: usize = 0;
    while i < all.len()
        invariant
            all@ == all_benchmarks_spec(),
            i <= all@.len(),
            forall|k: int| 0 <= k < i ==> benchmark_name_spec(#[trigger] all@[k]) != s@,
        decreases all@.len() - i,
    {
        let b = all[i];
        let n = b.name();
        if crate::results::str_eq(n.as_str(), s) {
            return Some(b);
        }
        i = i + 1;
    }
    proof {
        assert forall|b: BenchmarkValues| benchmark_name_spec(b) != s@ by {
            let k: int = match b {
                BenchmarkValues::Binary => 0,
                BenchmarkValues::CustomGelu => 1,
                BenchmarkValues::Data => 2,
                BenchmarkValues::Matmul => 3,
                BenchmarkValues::Unary => 4,
            };
            assert(all@[k] == b);
        }
    }
    None
}

} // verus!
