use multiproc::channel::{ConnAction, Delivery};
use multiproc::config::{ConfigError, RunConfig};
use multiproc::plan::{
    core_for, endpoint_address, launch_args, launch_schedule, plan_on_this_machine, plan_workers,
    LaunchStep, PlanError, MAX_WORKERS,
};
use multiproc::supervise::{classify_exit, ExitClass, RunVerdict, Supervisor};

fn strings(v: &[&str]) -> Vec<String> {
    v.iter().map(|s| s.to_string()).collect()
}

#[test]
fn plan_assigns_seed_port_endpoint_and_core() {
    let seeds = strings(&["a", "b", "c", "d", "e"]);
    let plan = plan_workers(&seeds, 2).unwrap();
    assert_eq!(plan.len(), 5);
    let cores: Vec<usize> = plan.iter().map(|a| a.core).collect();
    assert_eq!(cores, vec![0, 1, 0, 1, 0]);
    for (i, a) in plan.iter().enumerate() {
        assert_eq!(a.index, i);
        assert_eq!(a.seed, seeds[i]);
        assert_eq!(a.port as usize, 8000 + i);
        assert_eq!(a.endpoint, format!("127.0.0.1:{}", 8000 + i));
    }
}

#[test]
fn plan_cores_stay_below_core_count() {
    let seeds: Vec<String> = (0..37).map(|i| format!("s{}", i)).collect();
    for cores in 1..9usize {
        let plan = plan_workers(&seeds, cores).unwrap();
        assert_eq!(plan.len(), 37);
        for a in &plan {
            assert!(a.core < cores);
            assert_eq!(a.core, a.index % cores);
        }
    }
}

#[test]
fn plan_rejects_more_workers_than_ports() {
    let seeds: Vec<String> = vec![String::from("x"); MAX_WORKERS + 1];
    assert_eq!(plan_workers(&seeds, 4).err(), Some(PlanError::TooManyWorkers));
    let fit: Vec<String> = vec![String::from("x"); 3];
    assert!(plan_workers(&fit, 4).is_ok());
}

#[test]
fn endpoint_address_edges() {
    assert_eq!(endpoint_address(0), Some(String::from("127.0.0.1:8000")));
    assert_eq!(endpoint_address(MAX_WORKERS - 1), Some(String::from("127.0.0.1:65535")));
    assert_eq!(endpoint_address(MAX_WORKERS), None);
}

#[test]
fn core_for_round_robin() {
    assert_eq!(core_for(0, 4), 0);
    assert_eq!(core_for(5, 4), 1);
    assert_eq!(core_for(7, 1), 0);
}

#[test]
fn plan_on_this_machine_uses_the_core_count() {
    let seeds: Vec<String> = (0..5).map(|i| format!("s{}", i)).collect();
    let (cores, plan) = plan_on_this_machine(&seeds);
    assert!(cores >= 1);
    let plan = plan.unwrap();
    assert_eq!(plan.len(), 5);
    for a in &plan {
        assert_eq!(a.core, a.index % cores);
        assert_eq!(a.endpoint, format!("127.0.0.1:{}", 8000 + a.index));
    }
}

#[test]
fn schedule_binds_every_endpoint_before_spawning() {
    let steps = launch_schedule(2, 1);
    assert_eq!(
        steps,
        vec![
            LaunchStep::Bind { index: 0 },
            LaunchStep::Bind { index: 1 },
            LaunchStep::Spawn { index: 0 },
            LaunchStep::Pin { index: 0, core: 0 },
            LaunchStep::Spawn { index: 1 },
            LaunchStep::Pin { index: 1, core: 0 },
        ]
    );
}

#[test]
fn schedule_counts_and_ordering() {
    let n = 9usize;
    let cores = 4usize;
    let steps = launch_schedule(n, cores);
    assert_eq!(steps.len(), 3 * n);
    for i in 0..n {
        let bind = steps.iter().position(|s| *s == LaunchStep::Bind { index: i }).unwrap();
        let spawn = steps.iter().position(|s| *s == LaunchStep::Spawn { index: i }).unwrap();
        let pin = steps
            .iter()
            .position(|s| *s == LaunchStep::Pin { index: i, core: i % cores })
            .unwrap();
        assert!(bind < spawn);
        assert_eq!(pin, spawn + 1);
    }
    let binds = steps.iter().filter(|s| matches!(s, LaunchStep::Bind { .. })).count();
    let spawns = steps.iter().filter(|s| matches!(s, LaunchStep::Spawn { .. })).count();
    let pins = steps.iter().filter(|s| matches!(s, LaunchStep::Pin { .. })).count();
    assert_eq!((binds, spawns, pins), (n, n, n));
}

#[test]
fn zero_seeds_zero_work() {
    let seeds: Vec<String> = Vec::new();
    assert_eq!(plan_workers(&seeds, 3).unwrap().len(), 0);
    assert!(launch_schedule(0, 3).is_empty());
    let sup = Supervisor::new(0);
    assert!(sup.all_exited());
    assert_eq!(sup.verdict(), RunVerdict::Success);
}

#[test]
fn worker_args_replace_expression_and_append_endpoint() {
    let base = strings(&["prog", "generate", "-e", "a + b"]);
    let args = launch_args(&base, &String::from("b + a"), &String::from("127.0.0.1:8001")).unwrap();
    assert_eq!(args, strings(&["prog", "generate", "-e", "b + a", "127.0.0.1:8001"]));
    let short = strings(&["prog", "generate"]);
    assert_eq!(launch_args(&short, &String::from("x"), &String::from("y")), None);
}

#[test]
fn supervisor_reports_failure_for_codes_0_0_2() {
    let mut sup = Supervisor::new(3);
    assert!(!sup.all_exited());
    assert_eq!(sup.record(Some(0)), ExitClass::Succeeded);
    assert_eq!(sup.record(Some(0)), ExitClass::Succeeded);
    assert_eq!(sup.record(Some(2)), ExitClass::Failed { code: 2 });
    assert!(sup.all_exited());
    assert_eq!(sup.verdict(), RunVerdict::Failure { failed: 1, killed: 0 });
}

#[test]
fn supervisor_success_and_signals() {
    let mut ok = Supervisor::new(2);
    ok.record(Some(0));
    ok.record(Some(0));
    assert_eq!(ok.verdict(), RunVerdict::Success);

    let mut bad = Supervisor::new(3);
    assert_eq!(bad.record(None), ExitClass::Killed);
    assert_eq!(bad.record(Some(-1)), ExitClass::Failed { code: -1 });
    bad.record(Some(0));
    assert_eq!(bad.verdict(), RunVerdict::Failure { failed: 1, killed: 1 });
    assert_eq!(classify_exit(Some(0)), ExitClass::Succeeded);
    assert_eq!(classify_exit(None), ExitClass::Killed);
}

#[test]
fn only_first_connection_gets_state() {
    let mut d = Delivery::new();
    assert_eq!(d.on_connection(), ConnAction::SendState);
    assert_eq!(d.on_connection(), ConnAction::Close);
    assert_eq!(d.on_connection(), ConnAction::Close);
}

#[test]
fn config_start_time_must_be_set_before_use() {
    let mut c = RunConfig::new();
    assert_eq!(c.get_start_time(), Err(ConfigError::NotStarted));
    assert_eq!(c.time_budget_spent(10), Err(ConfigError::NotStarted));
    c.set_optimized_flag(true);
    c.set_n_equiv_exprs(10);
    c.set_token_limit(6);
    c.set_max_token_limit(12);
    c.set_time_limit(2);
    c.set_start_time(1000);
    assert!(c.optimized);
    assert_eq!((c.n_equiv_exprs, c.token_limit, c.max_token_limit, c.time_limit), (10, 6, 12, 2));
    assert_eq!(c.get_start_time(), Ok(1000));
    assert_eq!(c.time_budget_spent(2999), Ok(false));
    assert_eq!(c.time_budget_spent(3000), Ok(true));
    assert_eq!(c.time_budget_spent(500), Ok(false));
}
