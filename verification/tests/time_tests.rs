use upstair_sim::sampler::DurationSampler;
use upstair_sim::time::SimulationTime;
use upstair_sim::time::TimeProvider;

#[test]
fn test_simulation_time() {
    let t = SimulationTime::default();
    assert_eq!(t.time(), 0);
    t.set_time(100);
    assert_eq!(t.time(), 100);
}

#[test]
fn test_modify_mut_ref() {
    let t = SimulationTime::default();
    let t1 = t.clone();
    let t2 = t.clone();

    t.set_time(100);
    assert_eq!(t1.time(), 100);

    t1.set_time(103);
    assert_eq!(t2.time(), 103);
}

#[test]
fn test_sync_and_send() {
    fn is_sync<T: Sync>() {}
    fn is_send<T: Send>() {}
    is_sync::<SimulationTime>();
    is_sync::<&SimulationTime>();
    is_send::<SimulationTime>();
    is_send::<&SimulationTime>();
}

#[test]
fn test_duration_sampler_buckets() {
    let mut s = DurationSampler::new(1000, 0);
    assert!(!s.sampled(500));
    assert!(s.sampled(1500));
    assert!(!s.sampled(1600));
    assert!(s.sampled(3000));
}
