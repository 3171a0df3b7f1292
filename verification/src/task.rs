//! Kernel threads and a preemptive round-robin scheduler.
//!
//! A task is a kernel thread: its own stack plus the callee-saved registers
//! that `cpu_switch` saves and restores. The timer interrupt calls `schedule`,
//! which picks the next task in turn; the caller then switches from the
//! context of the previous task to the context of the next.

use vstd::prelude::*;

verus! {

/// Bytes of stack given to each spawned task.
pub const STACK_SIZE: usize = 65536;

/// Number of saved registers in a context.
pub const CONTEXT_REGS: usize = 13;

/// Slot of x19 (slots 0..=9 hold x19..=x28).
pub const X19: usize = 0;

/// Slot of x29, the frame pointer.
pub const X29: usize = 10;

/// Slot of x30, the link register.
pub const X30: usize = 11;

/// Slot of the stack pointer.
pub const SP: usize = 12;

/// Saved callee-saved state: x19..=x28, x29, x30 (link register) and sp, one
/// `u64` per slot, slot `i` at byte offset `8 * i`, as `cpu_switch` reads and
/// writes it.
pub type Context = [u64; 13];

/// The all-zero context.
pub open spec fn zero_context() -> Seq<u64> {
    Seq::new(13, |i: int| 0u64)
}

/// The 16-byte-aligned top of a stack of `STACK_SIZE` bytes starting at `base`.
pub open spec fn stack_top_spec(base: int) -> int {
    ((base + STACK_SIZE) / 16) * 16
}

/// The context a never-run task starts from: the first switch to it returns
/// into `trampoline` (through x30), which calls `entry` (kept in x19) on the
/// task's own stack.
pub open spec fn initial_context(entry: u64, trampoline: u64, stack_base: int) -> Seq<u64> {
    zero_context().update(X19 as int, entry).update(X30 as int, trampoline).update(
        SP as int,
        stack_top_spec(stack_base) as u64,
    )
}

/// A kernel thread.
pub struct Task {
    context: Context,
    stack: Vec<u8>,
    name: &'static str,
}

/// The round-robin scheduler: every task, and which one is running.
pub struct Scheduler {
    tasks: Vec<Box<Task>>,
    current: usize,
}

/// The task that runs after task `cur` of `len` tasks.
pub open spec fn next_index(cur: int, len: int) -> int {
    (cur + 1) % len
}

impl Scheduler {
    /// The saved context of each task, in spawn order.
    pub closed spec fn contexts(&self) -> Seq<Seq<u64>> {
        self.tasks@.map_values(|t: Box<Task>| t.context@)
    }

    /// The name of each task, in spawn order.
    pub closed spec fn names(&self) -> Seq<Seq<char>> {
        self.tasks@.map_values(|t: Box<Task>| t.name@)
    }

    /// The contents of each task's stack, in spawn order.
    pub closed spec fn stacks(&self) -> Seq<Seq<u8>> {
        self.tasks@.map_values(|t: Box<Task>| t.stack@)
    }

    /// The index of the running task.
    pub closed spec fn current_index(&self) -> nat {
        self.current as nat
    }

    /// The running task is always one of the tasks.
    #[verifier::type_invariant]
    spec fn running_task_exists(&self) -> bool {
        self.current < self.tasks@.len()
    }

    /// The number of tasks: every task has one context, one name and one
    /// stack, and the running task's index is below the count.
    pub fn len(&self) -> (r: usize)
        ensures
            r == self.contexts().len(),
            r == self.names().len(),
            r == self.stacks().len(),
            self.current_index() < r,
    {
        proof {
            use_type_invariant(self);
        }
        self.tasks.len()
    }

    /// The index of the running task, which is one of the tasks.
    pub fn current(&self) -> (r: usize)
        ensures
            r == self.current_index(),
            r < self.contexts().len(),
    {
        proof {
            use_type_invariant(self);
        }
        self.current
    }

    /// The saved context of task `i`, for the switch code to save into.
    pub fn context_mut(&mut self, i: usize) -> (r: &mut Context)
        requires
            i < old(self).contexts().len(),
        ensures
            r@ == old(self).contexts()[i as int],
            final(self).contexts() == old(self).contexts().update(i as int, final(r)@),
            final(self).names() == old(self).names(),
            final(self).stacks() == old(self).stacks(),
            final(self).current_index() == old(self).current_index(),
    {
        proof {
            use_type_invariant(&*self);
        }
        &mut self.tasks[i].context
    }
}

/// Registers the code already running (the kernel's main flow) as task 0,
/// named "kmain", with no stack of its own. Its context is filled in the first
/// time it is switched out.
pub fn init() -> (s: Scheduler)
    ensures
        s.contexts() == seq![zero_context()],
        s.names() == seq!["kmain"@],
        s.stacks() == seq![Seq::<u8>::empty()],
        s.current_index() == 0,
{
    let context: Context = [0u64; 13];
    assert(context@ =~= zero_context());
    let task0 = Box::new(Task { context, stack: Vec::new(), name: "kmain" });
    let mut tasks: Vec<Box<Task>> = Vec::new();
    tasks.push(task0);
    let s = Scheduler { tasks, current: 0 };
    assert(s.contexts() =~= seq![zero_context()]);
    assert(s.names() =~= seq!["kmain"@]);
    assert(s.stacks() =~= seq![Seq::<u8>::empty()]);
    s
}

/// `(base + STACK_SIZE) & !0xF`.
pub fn stack_top(base: u64) -> (r: u64)
    requires
        base + STACK_SIZE <= u64::MAX,
    ensures
        r == stack_top_spec(base as int),
{
    let top: u64 = base + (STACK_SIZE as u64);
    let r: u64 = top & !0xFu64;
    assert(r == top - top % 16) by (bit_vector)
        requires
            r == top & !0xFu64,
    ;
    r
}

/// Adds a kernel thread named `name` that begins at `entry`. `stack` is its
/// own zeroed `STACK_SIZE`-byte stack and `stack_base` the address of that
/// stack's first byte; the task's stack pointer starts at the 16-byte-aligned
/// top of it, and the first switch to the task lands on `trampoline`.
pub fn spawn(
    sched: &mut Scheduler,
    name: &'static str,
    entry: u64,
    trampoline: u64,
    stack: Vec<u8>,
    stack_base: u64,
)
    requires
        stack@ == Seq::new(STACK_SIZE as nat, |i: int| 0u8),
        stack_base + STACK_SIZE <= u64::MAX,
    ensures
        final(sched).contexts() == old(sched).contexts().push(
            initial_context(entry, trampoline, stack_base as int),
        ),
        final(sched).names() == old(sched).names().push(name@),
        final(sched).stacks() == old(sched).stacks().push(stack@),
        final(sched).current_index() == old(sched).current_index(),
{
    proof {
        use_type_invariant(&*sched);
    }
    let sp = stack_top(stack_base);
    let context: Context = [entry, 0, 0, 0, 0, 0, 0, 0, 0, 0, 0, trampoline, sp];
    assert(context@ =~= initial_context(entry, trampoline, stack_base as int));
    let ghost st = stack@;
    let task = Box::new(Task { context, stack, name });
    let mut taken = init();
    std::mem::swap(sched, &mut taken);
    proof {
        use_type_invariant(&taken);
    }
    let Scheduler { mut tasks, current } = taken;
    tasks.push(task);
    *sched = Scheduler { tasks, current };
    assert(final(sched).contexts() =~= old(sched).contexts().push(
        initial_context(entry, trampoline, stack_base as int),
    ));
    assert(final(sched).names() =~= old(sched).names().push(name@));
    assert(final(sched).stacks() =~= old(sched).stacks().push(st));
}

/// Round-robin to the next task. With fewer than two tasks nothing happens and
/// the result is `None`; otherwise the running task advances to the next one
/// in spawn order (wrapping) and the result is `(previous, next)`: the caller
/// switches from the context of `previous` to the context of `next`.
pub fn schedule(sched: &mut Scheduler) -> (r: Option<(usize, usize)>)
    ensures
        old(sched).current_index() < old(sched).contexts().len(),
        final(sched).current_index() < final(sched).contexts().len(),
        final(sched).contexts() == old(sched).contexts(),
        final(sched).names() == old(sched).names(),
        final(sched).stacks() == old(sched).stacks(),
        old(sched).contexts().len() < 2 ==> r is None && final(sched).current_index()
            == old(sched).current_index(),
        old(sched).contexts().len() >= 2 ==> {
            &&& final(sched).current_index() == next_index(
                old(sched).current_index() as int,
                old(sched).contexts().len() as int,
            )
            &&& r == Some((old(sched).current_index() as usize, final(sched).current_index() as usize))
        },
{
    proof {
        use_type_invariant(&*sched);
    }
    let len = sched.tasks.len();
    if len < 2 {
        return None;
    }
    let prev = sched.current;
    let next = (prev + 1) % len;
    sched.current = next;
    Some((prev, next))
}

/// The running task after `n` ticks of the scheduler, starting from `cur`.
pub open spec fn after_ticks(cur: int, len: int, n: nat) -> int
    decreases n,
{
    if n == 0 {
        cur
    } else {
        next_index(after_ticks(cur, len, (n - 1) as nat), len)
    }
}

/// Round robin: with `len >= 2` tasks, `n` ticks from task `cur` run task
/// `(cur + n) % len`; in particular every task runs within `len` ticks, and
/// after `len` ticks the same task runs again.
pub proof fn lemma_round_robin(cur: int, len: int, n: nat)
    requires
        len >= 2,
        0 <= cur < len,
    ensures
        after_ticks(cur, len, n) == (cur + n) % len,
        0 <= after_ticks(cur, len, n) < len,
    decreases n,
{
    if n > 0 {
        lemma_round_robin(cur, len, (n - 1) as nat);
        let a = (cur + n - 1) % len;
        vstd::arithmetic::div_mod::lemma_add_mod_noop(cur + n - 1, 1, len);
        vstd::arithmetic::div_mod::lemma_mod_bound(cur + n - 1, len);
        vstd::arithmetic::div_mod::lemma_small_mod(1, len as nat);
        assert((a + 1) % len == (cur + n) % len);
    } else {
        vstd::arithmetic::div_mod::lemma_small_mod(cur as nat, len as nat);
    }
    vstd::arithmetic::div_mod::lemma_mod_bound(cur + n, len);
}

/// Every task gets the CPU: from any running task, each task `t` runs after
/// `(t - cur) mod len` ticks.
pub proof fn lemma_every_task_runs(cur: int, len: int, t: int)
    requires
        len >= 2,
        0 <= cur < len,
        0 <= t < len,
    ensures
        after_ticks(cur, len, ((t - cur + len) % len) as nat) == t,
{
    vstd::arithmetic::div_mod::lemma_mod_bound(t - cur + len, len);
    let n = ((t - cur + len) % len) as nat;
    lemma_round_robin(cur, len, n);
    vstd::arithmetic::div_mod::lemma_add_mod_noop(cur, t - cur + len, len);
    vstd::arithmetic::div_mod::lemma_small_mod(cur as nat, len as nat);
    vstd::arithmetic::div_mod::lemma_mod_add_multiples_vanish(t, len);
    vstd::arithmetic::div_mod::lemma_small_mod(t as nat, len as nat);
}

/// Task `t` is the running task after one of the ticks `1..=n`, from `cur`.
pub open spec fn runs_within(cur: int, len: int, t: int, n: nat) -> bool {
    exists|k: nat| 1 <= k <= n && #[trigger] after_ticks(cur, len, k) == t
}

/// One round of `len` ticks makes every task current exactly once: for each
/// task `t` there is exactly one tick `k` in `1..=len` after which `t` runs,
/// and the round ends where it began. No task is starved or run twice.
pub proof fn lemma_each_task_once_per_round(cur: int, len: int)
    requires
        len >= 2,
        0 <= cur < len,
    ensures
        after_ticks(cur, len, len as nat) == cur,
        forall|t: int| 0 <= t < len ==> #[trigger] runs_within(cur, len, t, len as nat),
        forall|k1: nat, k2: nat|
            1 <= k1 < k2 <= len ==> #[trigger] after_ticks(cur, len, k1) != #[trigger] after_ticks(cur, len, k2),
{
    lemma_round_robin(cur, len, len as nat);
    vstd::arithmetic::div_mod::lemma_mod_add_multiples_vanish(cur, len);
    vstd::arithmetic::div_mod::lemma_small_mod(cur as nat, len as nat);
    assert forall|t: int| 0 <= t < len implies #[trigger] runs_within(cur, len, t, len as nat) by {
        let k0 = ((t - cur + len) % len) as nat;
        lemma_every_task_runs(cur, len, t);
        vstd::arithmetic::div_mod::lemma_mod_bound(t - cur + len, len);
        if k0 == 0 {
            assert(after_ticks(cur, len, len as nat) == t);
        } else {
            assert(after_ticks(cur, len, k0) == t);
        }
    }
    assert forall|k1: nat, k2: nat| 1 <= k1 < k2 <= len implies #[trigger] after_ticks(cur, len, k1)
        != #[trigger] after_ticks(cur, len, k2) by {
        lemma_round_robin(cur, len, k1);
        lemma_round_robin(cur, len, k2);
        if (cur + k1) % len == (cur + k2) % len {
            vstd::arithmetic::div_mod::lemma_fundamental_div_mod(cur + k1, len);
            vstd::arithmetic::div_mod::lemma_fundamental_div_mod(cur + k2, len);
            let q1 = (cur + k1) / len;
            let q2 = (cur + k2) / len;
            assert((q2 - q1) * len == k2 - k1) by (nonlinear_arith)
                requires
                    cur + k1 == len * q1 + (cur + k1) % len,
                    cur + k2 == len * q2 + (cur + k2) % len,
                    (cur + k1) % len == (cur + k2) % len,
            ;
            assert(false) by (nonlinear_arith)
                requires
                    (q2 - q1) * len == k2 - k1,
                    0 < k2 - k1 < len,
            ;
        }
    }
}

} // verus!
