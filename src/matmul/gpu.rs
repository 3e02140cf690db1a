//! The device bridge. A session decides, one step at a time, what to ask of
//! the device runtime: open the device, allocate the three buffers, run the
//! kernel, then free what was acquired and close the device. Any failure to
//! acquire a resource ends in the release of everything held and a run of
//! the reference kernel on the host. The caller performs each step and
//! reports whether it succeeded.
use vstd::prelude::*;

use crate::bench::Shape;
use crate::matmul::{as_ints, product, shapes_agree};

verus! {

/// The number of device buffers of a run: `A`, `B` and `C`.
pub const BUFFER_COUNT: usize = 3;

/// The edge of the square of outputs that one device block computes.
pub const TILE_SIZE: usize = 32;

/// What the caller is asked to do next.
#[derive(PartialEq, Eq, Structural, Clone, Copy, Debug)]
pub enum DeviceStep {
    OpenDevice,
    /// Allocate buffer `i` (`0` for `A`, `1` for `B`, `2` for `C`).
    Allocate(usize),
    /// Copy `A` and `B` in, launch the kernel, copy `C` out.
    RunOnDevice,
    /// Free buffer `i`.
    Free(usize),
    CloseDevice,
    /// Compute `C` on the host with `fallback_matmul`.
    RunFallback,
    Finished,
}

/// The outcome of the step just performed.
#[derive(PartialEq, Eq, Structural, Clone, Copy, Debug)]
pub enum DeviceEvent {
    Succeeded,
    Failed,
}

/// The state of one bridge call.
pub struct DeviceSession {
    pub step: DeviceStep,
    pub device_open: bool,
    /// Which of the three buffers are allocated.
    pub held: Vec<bool>,
    pub acquire_failed: bool,
    /// Resources acquired so far: the device handle and each buffer.
    pub acquired: u64,
    /// Resources released so far.
    pub released: u64,
}

/// The number of buffers marked held.
pub open spec fn held_count(held: Seq<bool>) -> nat
    decreases held.len(),
{
    if held.len() == 0 {
        0
    } else {
        held_count(held.drop_last()) + if held.last() { 1nat } else { 0nat }
    }
}

proof fn lemma_held_count_update(held: Seq<bool>, i: int, v: bool)
    requires
        0 <= i < held.len(),
    ensures
        held_count(held.update(i, v)) + (if held[i] { 1int } else { 0int })
            == held_count(held) + (if v { 1int } else { 0int }),
    decreases held.len(),
{
    if i < held.len() - 1 {
        lemma_held_count_update(held.drop_last(), i, v);
        assert(held.update(i, v).drop_last() =~= held.drop_last().update(i, v));
    } else {
        assert(held.update(i, v).drop_last() =~= held.drop_last());
    }
}

proof fn lemma_held_count_le_len(held: Seq<bool>)
    ensures
        held_count(held) <= held.len(),
    decreases held.len(),
{
    if held.len() > 0 {
        lemma_held_count_le_len(held.drop_last());
    }
}

proof fn lemma_held_count_zero(held: Seq<bool>)
    ensures
        held_count(held) == 0 <==> forall|i: int| 0 <= i < held.len() ==> !#[trigger] held[i],
    decreases held.len(),
{
    if held.len() > 0 {
        lemma_held_count_zero(held.drop_last());
        if held_count(held) == 0 {
            assert forall|i: int| 0 <= i < held.len() implies !#[trigger] held[i] by {
                if i < held.len() - 1 {
                    assert(held[i] == held.drop_last()[i]);
                }
            }
        }
        if forall|i: int| 0 <= i < held.len() ==> !#[trigger] held[i] {
            assert forall|i: int| 0 <= i < held.drop_last().len() implies !#[trigger] held.drop_last()[i] by {
                assert(held.drop_last()[i] == held[i]);
            }
        }
    }
}

/// The release step for the buffers marked in `held`: free the first one
/// held, or close the device when none is.
pub open spec fn release_step_spec(held: Seq<bool>) -> DeviceStep {
    if held[0] {
        DeviceStep::Free(0)
    } else if held[1] {
        DeviceStep::Free(1)
    } else if held[2] {
        DeviceStep::Free(2)
    } else {
        DeviceStep::CloseDevice
    }
}

/// The step after `step` given the outcome `event`, where `held` and
/// `failed` are the buffers held and whether an acquisition has failed once
/// the outcome is taken into account.
pub open spec fn step_after(step: DeviceStep, event: DeviceEvent, held: Seq<bool>, failed: bool) -> DeviceStep {
    match step {
        DeviceStep::OpenDevice => if event == DeviceEvent::Succeeded {
            DeviceStep::Allocate(0)
        } else {
            DeviceStep::RunFallback
        },
        DeviceStep::Allocate(i) => if i + 1 < BUFFER_COUNT {
            DeviceStep::Allocate((i + 1) as usize)
        } else if failed {
            release_step_spec(held)
        } else {
            DeviceStep::RunOnDevice
        },
        DeviceStep::RunOnDevice => release_step_spec(held),
        DeviceStep::Free(_) => release_step_spec(held),
        DeviceStep::CloseDevice => if failed {
            DeviceStep::RunFallback
        } else {
            DeviceStep::Finished
        },
        DeviceStep::RunFallback => DeviceStep::Finished,
        DeviceStep::Finished => DeviceStep::Finished,
    }
}

/// What acquiring or releasing in `step` with outcome `event` does to the
/// buffers held.
pub open spec fn held_after(step: DeviceStep, event: DeviceEvent, held: Seq<bool>) -> Seq<bool> {
    match step {
        DeviceStep::Allocate(i) => if event == DeviceEvent::Succeeded { held.update(i as int, true) } else { held },
        DeviceStep::Free(i) => held.update(i as int, false),
        _ => held,
    }
}

/// Whether an acquisition has failed once `step` had outcome `event`.
pub open spec fn failed_after(step: DeviceStep, event: DeviceEvent, failed: bool) -> bool {
    match step {
        DeviceStep::OpenDevice | DeviceStep::Allocate(_) => failed || event == DeviceEvent::Failed,
        _ => failed,
    }
}

impl DeviceSession {
    /// What the session tracks is consistent with the step it asks for; in
    /// particular every resource acquired and not yet released is held.
    pub open spec fn wf(&self) -> bool {
        &&& self.held@.len() == BUFFER_COUNT
        &&& self.acquired == self.released + (if self.device_open { 1nat } else { 0nat }) + held_count(self.held@)
        &&& self.acquired <= 1 + BUFFER_COUNT
        &&& !self.device_open ==> held_count(self.held@) == 0
        &&& match self.step {
            DeviceStep::OpenDevice => !self.device_open && self.acquired == 0 && !self.acquire_failed,
            DeviceStep::Allocate(i) => {
                &&& self.device_open
                &&& i < BUFFER_COUNT
                &&& forall|j: int| i <= j < BUFFER_COUNT ==> !#[trigger] self.held@[j]
                &&& self.released == 0
                &&& !self.acquire_failed ==> forall|j: int| 0 <= j < i ==> #[trigger] self.held@[j]
            },
            DeviceStep::RunOnDevice => {
                &&& self.device_open
                &&& !self.acquire_failed
                &&& forall|j: int| 0 <= j < BUFFER_COUNT ==> #[trigger] self.held@[j]
            },
            DeviceStep::Free(i) => self.device_open && i < BUFFER_COUNT && self.held@[i as int],
            DeviceStep::CloseDevice => self.device_open && held_count(self.held@) == 0,
            DeviceStep::RunFallback => !self.device_open && self.acquire_failed,
            DeviceStep::Finished => !self.device_open,
        }
    }

    /// A new session, which first asks to open the device.
    pub fn new() -> (r: DeviceSession)
        ensures
            r.wf(),
            r.step == DeviceStep::OpenDevice,
            r.acquired == 0,
            r.released == 0,
    {
        let r = DeviceSession {
            step: DeviceStep::OpenDevice,
            device_open: false,
            held: vec![false, false, false],
            acquire_failed: false,
            acquired: 0,
            released: 0,
        };
        assert(held_count(r.held@) == 0) by {
            lemma_held_count_zero(r.held@);
        }
        r
    }

    /// The first buffer still held, or `BUFFER_COUNT` when none is.
    fn first_held(&self) -> (r: usize)
        requires
            self.held@.len() == BUFFER_COUNT,
        ensures
            r <= BUFFER_COUNT,
            r < BUFFER_COUNT ==> self.held@[r as int],
            forall|j: int| 0 <= j < r ==> !#[trigger] self.held@[j],
    {
        let mut i: usize = 0;
        while i < BUFFER_COUNT
            invariant
                self.held@.len() == BUFFER_COUNT,
                i <= BUFFER_COUNT,
                forall|j: int| 0 <= j < i ==> !#[trigger] self.held@[j],
            decreases BUFFER_COUNT - i,
        {
            if self.held[i] {
                return i;
            }
            i = i + 1;
        }
        i
    }

    /// The step that releases what is held: free the first held buffer, or,
    /// once none is held, close the device.
    fn release_step(&self) -> (r: DeviceStep)
        requires
            self.held@.len() == BUFFER_COUNT,
        ensures
            r == release_step_spec(self.held@),
            match r {
                DeviceStep::Free(i) => i < BUFFER_COUNT && self.held@[i as int],
                DeviceStep::CloseDevice => held_count(self.held@) == 0,
                _ => false,
            },
    {
        let i = self.first_held();
        if i < BUFFER_COUNT {
            DeviceStep::Free(i)
        } else {
            proof {
                lemma_held_count_zero(self.held@);
            }
            DeviceStep::CloseDevice
        }
    }

    /// Takes the outcome of the current step and returns the next one.
    ///
    /// The device runs the kernel only when it is open and all three buffers
    /// are allocated. After a failed acquisition every held resource is
    /// released and the host kernel runs. A session that has finished holds
    /// nothing and has released as many resources as it acquired.
    pub fn next(&mut self, event: DeviceEvent) -> (r: DeviceStep)
        requires
            old(self).wf(),
        ensures
            final(self).wf(),
            r == final(self).step,
            final(self).held@ == held_after(old(self).step, event, old(self).held@),
            final(self).acquire_failed == failed_after(old(self).step, event, old(self).acquire_failed),
            r == step_after(old(self).step, event, final(self).held@, final(self).acquire_failed),
            final(self).device_open == match old(self).step {
                DeviceStep::OpenDevice => event == DeviceEvent::Succeeded,
                DeviceStep::CloseDevice => false,
                _ => old(self).device_open,
            },
            final(self).acquired == old(self).acquired + match old(self).step {
                DeviceStep::OpenDevice | DeviceStep::Allocate(_) => if event == DeviceEvent::Succeeded { 1int } else { 0int },
                _ => 0int,
            },
            final(self).released == old(self).released + match old(self).step {
                DeviceStep::Free(_) | DeviceStep::CloseDevice => 1int,
                _ => 0int,
            },
            r == DeviceStep::RunOnDevice ==> final(self).device_open && !final(self).acquire_failed,
            r == DeviceStep::RunFallback ==> old(self).acquire_failed || event == DeviceEvent::Failed,
            r == DeviceStep::Finished ==> final(self).acquired == final(self).released && !final(self).device_open,
            old(self).step == DeviceStep::Finished ==> r == DeviceStep::Finished,
            old(self).step == DeviceStep::OpenDevice && event == DeviceEvent::Failed ==> r == DeviceStep::RunFallback,
            old(self).step == DeviceStep::RunFallback ==> r == DeviceStep::Finished,
    {
        let ghost h0 = self.held@;
        match self.step {
            DeviceStep::OpenDevice => {
                proof {
                    lemma_held_count_zero(h0);
                }
                if event == DeviceEvent::Succeeded {
                    self.device_open = true;
                    self.acquired = self.acquired + 1;
                    self.step = DeviceStep::Allocate(0);
                } else {
                    self.acquire_failed = true;
                    self.step = DeviceStep::RunFallback;
                }
            },
            DeviceStep::Allocate(i) => {
                if event == DeviceEvent::Succeeded {
                    self.held.set(i, true);
                    self.acquired = self.acquired + 1;
                    proof {
                        lemma_held_count_update(h0, i as int, true);
                        lemma_held_count_le_len(self.held@);
                    }
                } else {
                    self.acquire_failed = true;
                }
                if i + 1 < BUFFER_COUNT {
                    self.step = DeviceStep::Allocate(i + 1);
                } else if self.acquire_failed {
                    self.step = self.release_step();
                } else {
                    self.step = DeviceStep::RunOnDevice;
                }
            },
            DeviceStep::RunOnDevice => {
                self.step = self.release_step();
            },
            DeviceStep::Free(i) => {
                self.held.set(i, false);
                self.released = self.released + 1;
                proof {
                    lemma_held_count_update(h0, i as int, false);
                }
                self.step = self.release_step();
            },
            DeviceStep::CloseDevice => {
                self.device_open = false;
                self.released = self.released + 1;
                if self.acquire_failed {
                    self.step = DeviceStep::RunFallback;
                } else {
                    self.step = DeviceStep::Finished;
                }
            },
            DeviceStep::RunFallback => {
                self.step = DeviceStep::Finished;
            },
            DeviceStep::Finished => {},
        }
        self.step
    }
}

/// A finished session holds nothing: the device is closed and every
/// resource it acquired, on the device path or on a failure path, has been
/// released.
pub proof fn lemma_finished_session_released_all(s: DeviceSession)
    requires
        s.wf(),
        s.step == DeviceStep::Finished,
    ensures
        !s.device_open,
        held_count(s.held@) == 0,
        s.acquired == s.released,
{
}

/// The resources acquired over a run of sessions.
pub open spec fn total_acquired(runs: Seq<DeviceSession>) -> int
    decreases runs.len(),
{
    if runs.len() == 0 { 0 } else { total_acquired(runs.drop_last()) + runs.last().acquired }
}

/// The resources released over a run of sessions.
pub open spec fn total_released(runs: Seq<DeviceSession>) -> int
    decreases runs.len(),
{
    if runs.len() == 0 { 0 } else { total_released(runs.drop_last()) + runs.last().released }
}

/// However many bridge calls have run, and on whichever paths they failed,
/// once each has finished the resources released over all of them match
/// the resources acquired: nothing leaks across repeated calls.
pub proof fn lemma_sessions_balance(runs: Seq<DeviceSession>)
    requires
        forall|i: int| 0 <= i < runs.len() ==> (#[trigger] runs[i]).wf() && runs[i].step == DeviceStep::Finished,
    ensures
        total_acquired(runs) == total_released(runs),
    decreases runs.len(),
{
    if runs.len() > 0 {
        let init = runs.drop_last();
        assert forall|i: int| 0 <= i < init.len() implies (#[trigger] init[i]).wf() && init[i].step == DeviceStep::Finished by {
            assert(init[i] == runs[i]);
        }
        lemma_sessions_balance(init);
        lemma_finished_session_released_all(runs[runs.len() - 1]);
    }
}

/// The number of entries of device buffer `i`: `m k` for `A`, `k n` for `B`
/// and `m n` for `C`, the sizes of the host buffers they mirror.
pub fn device_buffer_len(i: usize, s: Shape) -> (r: usize)
    requires
        i < BUFFER_COUNT,
        s.valid(),
    ensures
        r == if i == 0 { s.m * s.k } else if i == 1 { s.k * s.n } else { s.m * s.n },
{
    proof {
        assert(s.m * s.n <= usize::MAX) by (nonlinear_arith)
            requires
                16 * (s.m * s.n) <= usize::MAX,
        ;
    }
    if i == 0 {
        s.m * s.k
    } else if i == 1 {
        s.k * s.n
    } else {
        s.m * s.n
    }
}

/// The grid of device blocks for an `m x n` output: `ceil(n / TILE_SIZE)`
/// blocks across and `ceil(m / TILE_SIZE)` down.
pub fn launch_grid(m: usize, n: usize) -> (r: (usize, usize))
    ensures
        r.0 * TILE_SIZE >= n,
        r.0 == 0 || (r.0 - 1) * TILE_SIZE < n,
        r.1 * TILE_SIZE >= m,
        r.1 == 0 || (r.1 - 1) * TILE_SIZE < m,
{
    let gx = n / TILE_SIZE + if n % TILE_SIZE == 0 { 0 } else { 1 };
    let gy = m / TILE_SIZE + if m % TILE_SIZE == 0 { 0 } else { 1 };
    (gx, gy)
}

/// The host kernel that a failed device run falls back to: the reference
/// triple loop. Every entry of `c` is overwritten.
pub fn fallback_matmul(a: &Vec<i32>, b: &Vec<i32>, c: &mut Vec<i128>, m: usize, n: usize, k: usize)
    requires
        shapes_agree(a@, b@, old(c)@.len(), m as nat, n as nat, k as nat),
    ensures
        as_ints(final(c)@) == product(a@, b@, m as nat, n as nat, k as nat),
{
    crate::matmul::naive::matmul(a, b, c, m, n, k);
}

/// `C = A x B` where no device runtime is linked: the host kernel.
pub fn matmul(a: &Vec<i32>, b: &Vec<i32>, c: &mut Vec<i128>, m: usize, n: usize, k: usize)
    requires
        shapes_agree(a@, b@, old(c)@.len(), m as nat, n as nat, k as nat),
    ensures
        as_ints(final(c)@) == product(a@, b@, m as nat, n as nat, k as nat),
{
    fallback_matmul(a, b, c, m, n, k);
}

} // verus!
