use solar_sim::control::{command_for_key, Command, Controls};
use solar_sim::driver::{epoch_action, retune_steps, EpochAction, Layout, RunState, MIN_STEPS_PER_EPOCH};
use solar_sim::merge::{absorb, first_collision, merge_roles};
use solar_sim::method::IntegrationMethod;
use solar_sim::parent::first_parent_candidate;

#[test]
fn method_cycle() {
    let mut m = IntegrationMethod::Symplectic(1);
    let mut seen = vec![m];
    for _ in 0..5 {
        m = m.next();
        seen.push(m);
    }
    assert_eq!(
        seen,
        vec![
            IntegrationMethod::Symplectic(1),
            IntegrationMethod::Symplectic(2),
            IntegrationMethod::Symplectic(3),
            IntegrationMethod::Symplectic(4),
            IntegrationMethod::RK4,
            IntegrationMethod::Symplectic(1),
        ]
    );
}

#[test]
fn method_workers() {
    assert!(IntegrationMethod::Symplectic(2).uses_workers(2));
    assert!(!IntegrationMethod::Symplectic(2).uses_workers(1));
    assert!(!IntegrationMethod::RK4.uses_workers(8));
}

#[test]
fn merge_roles_prefers_heavier_and_first_on_tie() {
    assert_eq!(merge_roles(1, 4, true), (1, 4));
    assert_eq!(merge_roles(1, 4, false), (4, 1));
}

#[test]
fn absorb_light_before_heavy() {
    let mut bodies = vec!["a", "b", "c", "d"];
    let at = absorb(&mut bodies, 2, 0, "m");
    assert_eq!(bodies, vec!["b", "m", "d"]);
    assert_eq!(at, 1);
}

#[test]
fn absorb_light_after_heavy() {
    let mut bodies = vec![10, 20, 30];
    let at = absorb(&mut bodies, 0, 2, 40);
    assert_eq!(bodies, vec![40, 20]);
    assert_eq!(at, 0);
}

#[test]
fn absorb_two_bodies_leaves_one() {
    let mut bodies = vec![1u32, 2];
    let at = absorb(&mut bodies, 0, 1, 3);
    assert_eq!(bodies, vec![3]);
    assert_eq!(at, 0);
}

#[test]
fn first_collision_in_worker_order() {
    assert_eq!(first_collision(&vec![None, Some((2, 5)), Some((0, 1))]), Some((2, 5)));
    assert_eq!(first_collision(&vec![None, None]), None);
    assert_eq!(first_collision(&vec![]), None);
}

#[test]
fn retune_follows_measurement() {
    assert_eq!(retune_steps(1000, Some(250)), 250);
    assert_eq!(retune_steps(1000, Some(4)), MIN_STEPS_PER_EPOCH);
    assert_eq!(retune_steps(1000, Some(10)), 10);
}

#[test]
fn retune_doubles_when_unmeasurable() {
    assert_eq!(retune_steps(100, None), 200);
    assert_eq!(retune_steps(3, None), 10);
    assert_eq!(retune_steps(u64::MAX, None), u64::MAX);
}

#[test]
fn start_needs_two_bodies() {
    for count in 0..2 {
        let mut st = RunState::new();
        assert!(!st.request_start(count));
        assert_eq!(st, RunState::new());
    }
}

#[test]
fn start_then_stop_twice() {
    let mut st = RunState::new();
    assert!(st.request_start(3));
    assert_eq!(st, RunState { thread_stopped: false, is_running: true });
    assert!(!st.request_start(3));
    st.request_stop();
    let once = st;
    st.request_stop();
    assert_eq!(st, once);
    assert_eq!(st, RunState { thread_stopped: false, is_running: false });
    st.driver_exited();
    assert_eq!(st, RunState { thread_stopped: true, is_running: false });
    assert!(st.request_start(2));
}

#[test]
fn stop_while_stopped_is_harmless() {
    let mut st = RunState::new();
    st.request_stop();
    st.request_stop();
    assert_eq!(st, RunState::new());
}

#[test]
fn merge_down_to_one_body_calls_off_the_run() {
    let mut st = RunState { thread_stopped: false, is_running: true };
    assert!(st.after_merge(2));
    assert!(st.is_running);
    assert!(!st.after_merge(1));
    assert!(!st.is_running);
    assert!(!st.thread_stopped);
}

#[test]
fn worker_count_by_layout() {
    let sym = Layout { method: IntegrationMethod::Symplectic(4), num_threads: 4 };
    let rk = Layout { method: IntegrationMethod::RK4, num_threads: 4 };
    let single = Layout { method: IntegrationMethod::Symplectic(4), num_threads: 1 };
    assert_eq!(sym.worker_count(), 4);
    assert_eq!(rk.worker_count(), 0);
    assert_eq!(single.worker_count(), 0);
}

#[test]
fn epoch_reconciles_layout() {
    let a = Layout { method: IntegrationMethod::Symplectic(4), num_threads: 2 };
    let b = Layout { method: IntegrationMethod::Symplectic(4), num_threads: 3 };
    let c = Layout { method: IntegrationMethod::RK4, num_threads: 2 };
    assert_eq!(epoch_action(&a, &a, true), EpochAction::Continue);
    assert_eq!(epoch_action(&a, &b, true), EpochAction::Rebuild);
    assert_eq!(epoch_action(&a, &c, true), EpochAction::Rebuild);
    assert_eq!(epoch_action(&a, &a, false), EpochAction::Shutdown);
    assert_eq!(epoch_action(&a, &b, false), EpochAction::Shutdown);
}

#[test]
fn keys_map_to_commands() {
    assert_eq!(command_for_key(107), Some(Command::Faster));
    assert_eq!(command_for_key(109), Some(Command::Slower));
    assert_eq!(command_for_key(32), Some(Command::ToggleRun));
    assert_eq!(command_for_key(49), Some(Command::SetThreads(1)));
    assert_eq!(command_for_key(57), Some(Command::SetThreads(9)));
    assert_eq!(command_for_key(81), Some(Command::FewerThreads));
    assert_eq!(command_for_key(87), Some(Command::MoreThreads));
    assert_eq!(command_for_key(77), Some(Command::CycleMethod));
    assert_eq!(command_for_key(82), Some(Command::AddBody));
    assert_eq!(command_for_key(84), Some(Command::ToggleTargetSpeed));
    assert_eq!(command_for_key(48), None);
    assert_eq!(command_for_key(65), None);
}

#[test]
fn commands_change_controls() {
    let mut c = Controls::new();
    assert_eq!(c.method, IntegrationMethod::Symplectic(4));
    assert_eq!(c.num_threads, 1);
    c.apply(Command::FewerThreads);
    assert_eq!(c.num_threads, 1);
    c.apply(Command::MoreThreads);
    assert_eq!(c.num_threads, 2);
    c.apply(Command::SetThreads(7));
    assert_eq!(c.num_threads, 7);
    c.apply(Command::FewerThreads);
    assert_eq!(c.num_threads, 6);
    c.apply(Command::CycleMethod);
    assert_eq!(c.method, IntegrationMethod::RK4);
    c.apply(Command::CycleMethod);
    assert_eq!(c.method, IntegrationMethod::Symplectic(1));
    c.apply(Command::ToggleTargetSpeed);
    assert!(c.use_target_speed);
    let before = c;
    c.apply(Command::Faster);
    c.apply(Command::ToggleRun);
    c.apply(Command::AddBody);
    assert_eq!(c, before);
}

#[test]
fn more_threads_saturates() {
    let mut c = Controls { method: IntegrationMethod::RK4, num_threads: usize::MAX, use_target_speed: false };
    c.apply(Command::MoreThreads);
    assert_eq!(c.num_threads, usize::MAX);
}

#[test]
fn parent_is_first_accepted_other_body() {
    let accepted = [false, true, true, false];
    let pick = |b: usize| accepted[b];
    assert_eq!(first_parent_candidate(4, 0, &pick), Some(1));
    assert_eq!(first_parent_candidate(4, 1, &pick), Some(2));
    assert_eq!(first_parent_candidate(4, 3, &|_b: usize| false), None);
    assert_eq!(first_parent_candidate(1, 0, &|_b: usize| true), None);
    assert_eq!(first_parent_candidate(0, 0, &|_b: usize| true), None);
}

#[test]
fn merge_keeps_total_mass_and_momentum() {
    // (mass, momentum along one axis) per body, in exact integers
    let mut bodies: Vec<(i64, i64)> = vec![(5, 10), (100, -300), (7, 21), (1, 4)];
    let before: (i64, i64) = bodies.iter().fold((0, 0), |a, b| (a.0 + b.0, a.1 + b.1));
    let (h, l) = merge_roles(2, 1, bodies[2].0 >= bodies[1].0);
    assert_eq!((h, l), (1, 2));
    let merged = (bodies[h].0 + bodies[l].0, bodies[h].1 + bodies[l].1);
    let at = absorb(&mut bodies, h, l, merged);
    let after: (i64, i64) = bodies.iter().fold((0, 0), |a, b| (a.0 + b.0, a.1 + b.1));
    assert_eq!(bodies.len(), 3);
    assert_eq!(bodies[at], (107, -279));
    assert_eq!(before, after);
}
