use ross_os::task::{init, schedule, spawn, stack_top, Context, SP, STACK_SIZE, X19, X30};

fn two_tasks() -> ross_os::task::Scheduler {
    let mut s = init();
    spawn(&mut s, "A", 0x4000_1000, 0x4000_2000, vec![0u8; STACK_SIZE], 0x5000_0000);
    spawn(&mut s, "B", 0x4000_3000, 0x4000_2000, vec![0u8; STACK_SIZE], 0x5001_0008);
    s
}

#[test]
fn kmain_is_task_zero() {
    let mut s = init();
    assert_eq!(s.len(), 1);
    assert_eq!(s.current(), 0);
    let zero: Context = [0; 13];
    assert_eq!(*s.context_mut(0), zero);
}

#[test]
fn a_single_task_is_never_switched() {
    let mut s = init();
    assert_eq!(schedule(&mut s), None);
    assert_eq!(s.current(), 0);
}

#[test]
fn spawned_context_starts_at_the_trampoline() {
    let mut s = two_tasks();
    assert_eq!(s.len(), 3);
    assert_eq!(s.current(), 0);
    let c = *s.context_mut(1);
    assert_eq!(c[X19], 0x4000_1000);
    assert_eq!(c[X30], 0x4000_2000);
    assert_eq!(c[SP], 0x5001_0000);
    assert_eq!(c[1..11].iter().filter(|&&r| r != 0).count(), 0);
    assert_eq!(s.context_mut(2)[SP], 0x5002_0000);
}

#[test]
fn stack_top_is_sixteen_byte_aligned() {
    assert_eq!(stack_top(0x5000_0000), 0x5001_0000);
    assert_eq!(stack_top(0x5000_0007), 0x5001_0000);
    assert_eq!(stack_top(0x5000_0010), 0x5001_0010);
}

#[test]
fn round_robin_kmain_a_b_kmain() {
    let mut s = two_tasks();
    assert_eq!(schedule(&mut s), Some((0, 1)));
    assert_eq!(schedule(&mut s), Some((1, 2)));
    assert_eq!(schedule(&mut s), Some((2, 0)));
    assert_eq!(schedule(&mut s), Some((0, 1)));
    assert_eq!(s.current(), 1);
}

#[test]
fn context_written_through_context_mut_is_kept() {
    let mut s = two_tasks();
    s.context_mut(0)[SP] = 0x4007_F000;
    schedule(&mut s);
    assert_eq!(s.context_mut(0)[SP], 0x4007_F000);
}

#[test]
fn spawning_keeps_the_running_task() {
    let mut s = two_tasks();
    schedule(&mut s);
    spawn(&mut s, "C", 1, 2, vec![0u8; STACK_SIZE], 0x6000_0000);
    assert_eq!(s.current(), 1);
    assert_eq!(s.len(), 4);
    assert_eq!(schedule(&mut s), Some((1, 2)));
    assert_eq!(schedule(&mut s), Some((2, 3)));
    assert_eq!(schedule(&mut s), Some((3, 0)));
}

#[test]
fn one_round_runs_every_task_once() {
    let mut s = two_tasks();
    spawn(&mut s, "C", 1, 2, vec![0u8; STACK_SIZE], 0x6000_0000);
    schedule(&mut s);
    let start = s.current();
    let mut seen = vec![0u32; s.len()];
    for _ in 0..s.len() {
        let (_, next) = schedule(&mut s).unwrap();
        seen[next] += 1;
    }
    assert_eq!(seen, vec![1, 1, 1, 1]);
    assert_eq!(s.current(), start);
}
