use vstd::prelude::*;
use vstd::string::StringExecFns;
use crate::dedup::dedup_of;
use crate::text::{decimal, with_decimal};

verus! {

/// First port of the local endpoints; worker `i` listens at `BASE_PORT + i`.
pub const BASE_PORT: u16 = 8000;

/// Largest number of workers whose ports all fit below 65536.
pub const MAX_WORKERS: usize = 57536;

/// The host part of every endpoint address.
pub open spec fn host_prefix() -> Seq<char> {
    seq!['1', '2', '7', '.', '0', '.', '0', '.', '1', ':']
}

/// The address worker `index` connects back to.
pub open spec fn endpoint_of(index: nat) -> Seq<char> {
    host_prefix() + decimal(BASE_PORT as nat + index)
}

/// The core that worker `index` is pinned to, round-robin over `cores` cores.
#[verifier::opaque]
pub open spec fn core_of(index: nat, cores: nat) -> nat
    recommends
        cores >= 1,
{
    index % cores
}

/// The round-robin core lies below `cores` and is at most `index`.
pub proof fn lemma_core_of_bounds(index: nat, cores: nat)
    requires
        cores >= 1,
    ensures
        core_of(index, cores) < cores,
        core_of(index, cores) <= index,
        core_of(index, cores) == index % cores,
{
    reveal(core_of);
    vstd::arithmetic::div_mod::lemma_mod_bound(index as int, cores as int);
    vstd::arithmetic::div_mod::lemma_mod_decreases(index, cores);
}

/// What one worker is launched with.
pub struct SeedAssignment {
    pub index: usize,
    pub seed: String,
    pub port: u16,
    pub endpoint: String,
    pub core: usize,
}

/// Why no plan could be made.
#[derive(Debug, Clone, Copy, PartialEq, Eq, Structural)]
pub enum PlanError {
    /// More seeds than there are local ports above `BASE_PORT`.
    TooManyWorkers,
}

/// Relies on `num_cpus::get`: the number of logical cores, documented to be at least 1.
#[verifier::external_body]
fn logical_core_count() -> (r: usize)
    ensures
        r >= 1,
{
    num_cpus::get()
}

/// The core that worker `index` is pinned to.
pub fn core_for(index: usize, cores: usize) -> (r: usize)
    requires
        cores >= 1,
    ensures
        r as nat == core_of(index as nat, cores as nat),
        r < cores,
{
    proof {
        lemma_core_of_bounds(index as nat, cores as nat);
    }
    index % cores
}

/// The local address that worker `index` connects back to, if its port exists.
pub fn endpoint_address(index: usize) -> (r: Option<String>)
    ensures
        r is None <==> index >= MAX_WORKERS,
        r matches Some(a) ==> a@ == endpoint_of(index as nat),
{
    if index >= MAX_WORKERS {
        return None;
    }
    proof {
        reveal_strlit("127.0.0.1:");
    }
    let port: u32 = BASE_PORT as u32 + index as u32;
    Some(with_decimal("127.0.0.1:", port))
}

/// True when `a` is the assignment of worker `i` for `seeds` on `cores` cores.
pub open spec fn assignment_for(a: SeedAssignment, i: nat, seeds: Seq<String>, cores: nat) -> bool {
    &&& a.index == i
    &&& a.seed@ == seeds[i as int]@
    &&& a.port as nat == BASE_PORT as nat + i
    &&& a.endpoint@ == endpoint_of(i)
    &&& a.core as nat == core_of(i, cores)
}

/// One worker per seed, in seed order: worker `i` gets seed `i`, port `BASE_PORT + i`
/// and core `i mod cores`. Fails exactly when the ports would run past 65535.
pub fn plan_workers(seeds: &Vec<String>, cores: usize) -> (r: Result<Vec<SeedAssignment>, PlanError>)
    requires
        cores >= 1,
    ensures
        r is Err <==> seeds.len() > MAX_WORKERS,
        r matches Err(e) ==> e == PlanError::TooManyWorkers,
        r matches Ok(v) ==> v.len() == seeds.len() && forall|i: int|
            0 <= i < v.len() ==> #[trigger] assignment_for(v[i], i as nat, seeds@, cores as nat),
{
    if seeds.len() > MAX_WORKERS {
        return Err(PlanError::TooManyWorkers);
    }
    let mut v: Vec<SeedAssignment> = Vec::new();
    let mut i: usize = 0;
    while i < seeds.len()
        invariant
            i <= seeds.len() <= MAX_WORKERS,
            cores >= 1,
            v.len() == i,
            forall|k: int| 0 <= k < i ==> #[trigger] assignment_for(v[k], k as nat, seeds@, cores as nat),
        decreases seeds.len() - i,
    {
        let endpoint = match endpoint_address(i) {
            Some(a) => a,
            None => {
                return Err(PlanError::TooManyWorkers);
            },
        };
        let a = SeedAssignment {
            index: i,
            seed: seeds[i].clone(),
            port: BASE_PORT + i as u16,
            endpoint,
            core: core_for(i, cores),
        };
        v.push(a);
        i = i + 1;
    }
    Ok(v)
}


/// One step of standing up the worker fleet.
#[derive(Debug, Clone, Copy, PartialEq, Eq, Structural)]
pub enum LaunchStep {
    /// Reserve the listening endpoint of worker `index`.
    Bind { index: usize },
    /// Start the process of worker `index`, told its seed and endpoint.
    Spawn { index: usize },
    /// Pin the process of worker `index` to `core`.
    Pin { index: usize, core: usize },
}

/// The steps for `n` workers on `cores` cores: every endpoint is bound first, then
/// each worker is spawned and pinned right after its spawn.
pub open spec fn schedule(n: nat, cores: nat) -> Seq<LaunchStep> {
    Seq::new(
        3 * n,
        |k: int|
            if k < n {
                LaunchStep::Bind { index: k as usize }
            } else if (k - n) % 2 == 0 {
                LaunchStep::Spawn { index: ((k - n) / 2) as usize }
            } else {
                LaunchStep::Pin {
                    index: ((k - n) / 2) as usize,
                    core: core_of(((k - n) / 2) as nat, cores) as usize,
                }
            },
    )
}

/// Plans the workers for `seeds` on this machine's logical cores, queried once.
/// Returns the core count along with the plan, which is that of `plan_workers`
/// for that count.
pub fn plan_on_this_machine(seeds: &Vec<String>) -> (r: (usize, Result<Vec<SeedAssignment>, PlanError>))
    ensures
        r.0 >= 1,
        r.1 is Err <==> seeds.len() > MAX_WORKERS,
        r.1 matches Err(e) ==> e == PlanError::TooManyWorkers,
        r.1 matches Ok(v) ==> v.len() == seeds.len() && forall|i: int|
            0 <= i < v.len() ==> #[trigger] assignment_for(v[i], i as nat, seeds@, r.0 as nat),
{
    let cores = logical_core_count();
    (cores, plan_workers(seeds, cores))
}

/// The order in which the fleet of `n` workers is stood up.
pub fn launch_schedule(n: usize, cores: usize) -> (r: Vec<LaunchStep>)
    requires
        cores >= 1,
        n <= MAX_WORKERS,
    ensures
        r@ == schedule(n as nat, cores as nat),
{
    let mut r: Vec<LaunchStep> = Vec::new();
    let mut i: usize = 0;
    while i < n
        invariant
            i <= n <= MAX_WORKERS,
            r@ == schedule(n as nat, cores as nat).subrange(0, i as int),
        decreases n - i,
    {
        r.push(LaunchStep::Bind { index: i });
        i = i + 1;
    }
    let mut j: usize = 0;
    while j < n
        invariant
            j <= n <= MAX_WORKERS,
            cores >= 1,
            r@ == schedule(n as nat, cores as nat).subrange(0, (n + 2 * j) as int),
        decreases n - j,
    {
        let ghost k = (n + 2 * j) as int;
        assert((k - n) % 2 == 0 && (k - n) / 2 == j);
        assert((k + 1 - n) % 2 == 1 && (k + 1 - n) / 2 == j);
        r.push(LaunchStep::Spawn { index: j });
        r.push(LaunchStep::Pin { index: j, core: core_for(j, cores) });
        j = j + 1;
    }
    assert(r@ =~= schedule(n as nat, cores as nat));
    r
}

/// Every worker gets exactly one bind, one spawn and one pin, and worker `i` is
/// pinned to core `i mod cores`: the schedule has `3 n` steps, and each step
/// names a worker below `n`.
pub proof fn lemma_one_of_each_per_worker(n: nat, cores: nat)
    requires
        cores >= 1,
        n <= MAX_WORKERS,
    ensures
        schedule(n, cores).len() == 3 * n,
        forall|i: nat| i < n ==> {
            &&& #[trigger] schedule(n, cores)[i as int] == LaunchStep::Bind { index: i as usize }
            &&& schedule(n, cores)[(n + 2 * i) as int] == LaunchStep::Spawn { index: i as usize }
            &&& schedule(n, cores)[(n + 2 * i + 1) as int] == LaunchStep::Pin {
                index: i as usize,
                core: core_of(i, cores) as usize,
            }
        },
        forall|k: int| 0 <= k < 3 * n ==> match #[trigger] schedule(n, cores)[k] {
            LaunchStep::Bind { index } => index < n && k == index,
            LaunchStep::Spawn { index } => index < n && k == n + 2 * index,
            LaunchStep::Pin { index, core } => index < n && k == n + 2 * index + 1
                && core == core_of(index as nat, cores) as usize,
        },
{
    assert forall|i: nat| i < n implies {
        &&& #[trigger] schedule(n, cores)[i as int] == LaunchStep::Bind { index: i as usize }
        &&& schedule(n, cores)[(n + 2 * i) as int] == LaunchStep::Spawn { index: i as usize }
        &&& schedule(n, cores)[(n + 2 * i + 1) as int] == LaunchStep::Pin {
            index: i as usize,
            core: core_of(i, cores) as usize,
        }
    } by {
        assert((n + 2 * i - n) % 2 == 0 && (n + 2 * i - n) / 2 == i);
        assert((n + 2 * i + 1 - n) % 2 == 1 && (n + 2 * i + 1 - n) / 2 == i);
    }
    assert forall|k: int| 0 <= k < 3 * n implies match #[trigger] schedule(n, cores)[k] {
        LaunchStep::Bind { index } => index < n && k == index,
        LaunchStep::Spawn { index } => index < n && k == n + 2 * index,
        LaunchStep::Pin { index, core } => index < n && k == n + 2 * index + 1
            && core == core_of(index as nat, cores) as usize,
    } by {
        if k >= n {
            let j = (k - n) / 2;
            lemma_core_of_bounds(j as nat, cores);
            assert(k - n == 2 * j + (k - n) % 2);
            assert(j < n);
        }
    }
}

/// Every core that the schedule pins a worker to lies below `cores`.
pub proof fn lemma_cores_in_range(n: nat, cores: nat)
    requires
        cores >= 1,
        n <= MAX_WORKERS,
    ensures
        forall|k: int| 0 <= k < schedule(n, cores).len() ==> match #[trigger] schedule(n, cores)[k] {
            LaunchStep::Pin { core, .. } => core < cores,
            _ => true,
        },
{
    assert forall|k: int| 0 <= k < schedule(n, cores).len() implies match #[trigger] schedule(n, cores)[k] {
        LaunchStep::Pin { core, .. } => core < cores,
        _ => true,
    } by {
        if k >= n {
            lemma_core_of_bounds(((k - n) / 2) as nat, cores);
        }
    }
}

/// An endpoint is bound before its worker is spawned: for each spawn step of
/// worker `i` there is an earlier bind step of worker `i`.
pub proof fn lemma_bind_before_spawn(n: nat, cores: nat)
    requires
        cores >= 1,
        n <= MAX_WORKERS,
    ensures
        forall|s: int| 0 <= s < schedule(n, cores).len() && (#[trigger] schedule(n, cores)[s]) is Spawn
            ==> {
                let i = schedule(n, cores)[s]->Spawn_index;
                &&& 0 <= i < s
                &&& schedule(n, cores)[i as int] == LaunchStep::Bind { index: i }
            },
{
}


/// Position of the expression among the command-line arguments of a run.
pub const SEED_SLOT: usize = 3;

/// The arguments of a worker: the run's own four arguments with the expression
/// replaced by the worker's seed, then the endpoint to connect back to.
pub open spec fn worker_args_of(base: Seq<String>, seed: String, endpoint: String) -> Seq<Seq<char>> {
    seq![base[0]@, base[1]@, base[2]@, seed@, endpoint@]
}

/// The arguments a worker is launched with; none unless the run has exactly four.
pub fn launch_args(base: &Vec<String>, seed: &String, endpoint: &String) -> (r: Option<Vec<String>>)
    ensures
        r is Some <==> base.len() == SEED_SLOT + 1,
        r matches Some(v) ==> v@.map_values(|x: String| x@) == worker_args_of(base@, *seed, *endpoint),
{
    if base.len() != SEED_SLOT + 1 {
        return None;
    }
    let mut v: Vec<String> = Vec::new();
    v.push(base[0].clone());
    v.push(base[1].clone());
    v.push(base[2].clone());
    v.push(seed.clone());
    v.push(endpoint.clone());
    assert(v@.map_values(|x: String| x@) =~= worker_args_of(base@, *seed, *endpoint));
    Some(v)
}

/// With no seeds there is nothing to stand up and nothing to keep: the launch
/// schedule is empty, whatever the number of cores, and so is the deduplicated
/// result of no expressions.
pub proof fn lemma_no_seeds_no_work(cores: nat)
    requires
        cores >= 1,
    ensures
        schedule(0, cores).len() == 0,
        dedup_of(Seq::<Seq<char>>::empty()).len() == 0,
{
}

} // verus!
