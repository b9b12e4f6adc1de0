//! Descriptor sets for `select(2)` and timer settings for `timerfd(2)`.

use vstd::prelude::*;

verus! {

/// Number of descriptors an [`FdSet`] can hold (`FD_SETSIZE` on Linux).
pub const FD_SETSIZE: i32 = 1024;

/// A set of file descriptors below [`FD_SETSIZE`], one bit each, in the layout
/// of the kernel's `fd_set`.
#[derive(Debug, Clone, Copy)]
pub struct FdSet {
    pub bits: [u64; 16],
}

/// Whether bit `i` of `word` is set.
pub open spec fn bit(word: u64, i: u64) -> bool {
    word & (1u64 << i) != 0
}

impl View for FdSet {
    type V = Set<int>;

    open spec fn view(&self) -> Set<int> {
        Set::new(
            |fd: int|
                0 <= fd < FD_SETSIZE && bit(self.bits@[fd / 64], (fd % 64) as u64),
        )
    }
}

proof fn lemma_set_bit(word: u64, i: u64, j: u64)
    by (bit_vector)
    requires
        i < 64,
        j < 64,
    ensures
        (word | (1u64 << i)) & (1u64 << i) != 0,
        i != j ==> ((word | (1u64 << i)) & (1u64 << j) != 0) == (word & (1u64 << j) != 0),
{
}

impl FdSet {
    /// The empty set.
    pub fn new() -> (r: Self)
        ensures
            r@ == Set::<int>::empty(),
    {
        let r = FdSet { bits: [0; 16] };
        assert forall|fd: int| !r@.contains(fd) by {
            if 0 <= fd < FD_SETSIZE {
                let j = (fd % 64) as u64;
                assert(0u64 & (1u64 << j) == 0) by (bit_vector);
            }
        }
        assert(r@ =~= Set::<int>::empty());
        r
    }

    /// Adds a descriptor.
    pub fn set(&mut self, fd: i32)
        requires
            0 <= fd < FD_SETSIZE,
        ensures
            final(self)@ == old(self)@.insert(fd as int),
    {
        let fd = fd as usize;
        let i: usize = fd / 64;
        let mask: u64 = 1u64 << (fd % 64) as u64;
        self.bits[i] = self.bits[i] | mask;
        assert forall|x: int| self@.contains(x) == old(self)@.insert(fd as int).contains(x) by {
            if 0 <= x < FD_SETSIZE {
                let j = (x % 64) as u64;
                lemma_set_bit(old(self).bits@[i as int], (fd % 64) as u64, j);
                if x / 64 == i && j == fd % 64 {
                    assert(x == fd);
                }
            }
        }
        assert(self@ =~= old(self)@.insert(fd as int));
    }

    /// Whether a descriptor is in the set.
    pub fn is_set(&self, fd: i32) -> (r: bool)
        requires
            0 <= fd < FD_SETSIZE,
        ensures
            r == self@.contains(fd as int),
    {
        let fd = fd as usize;
        self.bits[fd / 64] & (1u64 << (fd % 64) as u64) != 0
    }
}

/// The larger of two integers.
pub open spec fn larger(a: int, b: int) -> int {
    if a >= b {
        a
    } else {
        b
    }
}

/// The descriptors that the scan state waits for. A negative `timer_fd` means
/// that no timer is armed.
pub open spec fn scan_set(stdin_fd: i32, wake_fd: i32, timer_fd: i32) -> Set<int> {
    let both = set![stdin_fd as int, wake_fd as int];
    if timer_fd >= 0 {
        both.insert(timer_fd as int)
    } else {
        both
    }
}

/// The read set for a `select(2)` over stdin, the wake descriptor and the timer
/// (where one is armed), and its `nfds`: one more than the highest descriptor.
pub fn scan_fds(stdin_fd: i32, wake_fd: i32, timer_fd: i32) -> (r: (FdSet, i32))
    requires
        0 <= stdin_fd < FD_SETSIZE,
        0 <= wake_fd < FD_SETSIZE,
        timer_fd < FD_SETSIZE,
    ensures
        r.0@ == scan_set(stdin_fd, wake_fd, timer_fd),
        r.1 == larger(larger(stdin_fd as int, wake_fd as int), timer_fd as int) + 1,
{
    let mut readfds = FdSet::new();
    readfds.set(stdin_fd);
    readfds.set(wake_fd);
    assert(readfds@ =~= set![stdin_fd as int, wake_fd as int]);
    if timer_fd >= 0 {
        readfds.set(timer_fd);
    }
    let mut top: i32 = stdin_fd;
    if wake_fd > top {
        top = wake_fd;
    }
    if timer_fd > top {
        top = timer_fd;
    }
    (readfds, top + 1)
}

/// The read set for a `select(2)` on the wake descriptor alone, and its `nfds`.
pub fn wake_fds(wake_fd: i32) -> (r: (FdSet, i32))
    requires
        0 <= wake_fd < FD_SETSIZE,
    ensures
        r.0@ == set![wake_fd as int],
        r.1 == wake_fd + 1,
{
    let mut readfds = FdSet::new();
    readfds.set(wake_fd);
    assert(readfds@ =~= set![wake_fd as int]);
    (readfds, wake_fd + 1)
}

/// Which of stdin, the wake descriptor and the timer a `select(2)` reported
/// readable, given its return value and the set it left behind. Zero or less
/// (a timeout or an interrupting signal) means none of them.
pub fn scan_readiness(
    ret: i32,
    readfds: &FdSet,
    stdin_fd: i32,
    wake_fd: i32,
    timer_fd: i32,
) -> (r: (bool, bool, bool))
    requires
        0 <= stdin_fd < FD_SETSIZE,
        0 <= wake_fd < FD_SETSIZE,
        timer_fd < FD_SETSIZE,
    ensures
        r.0 == (ret > 0 && readfds@.contains(stdin_fd as int)),
        r.1 == (ret > 0 && readfds@.contains(wake_fd as int)),
        r.2 == (ret > 0 && readfds@.contains(timer_fd as int)),
{
    if ret <= 0 {
        return (false, false, false);
    }
    (
        readfds.is_set(stdin_fd),
        readfds.is_set(wake_fd),
        timer_fd >= 0 && readfds.is_set(timer_fd),
    )
}

/// `struct timespec`: seconds and nanoseconds.
#[derive(Debug, Clone, Copy, PartialEq, Eq, Structural)]
pub struct Timespec {
    pub tv_sec: i64,
    pub tv_nsec: i64,
}

/// `struct itimerspec`: the repeating interval and the initial expiration. A
/// zero `it_value` disarms a timer.
#[derive(Debug, Clone, Copy, PartialEq, Eq, Structural)]
pub struct ITimerspec {
    pub it_interval: Timespec,
    pub it_value: Timespec,
}

/// The setting of a timer that ticks every `interval_secs` seconds; None if
/// there is to be no timer (`interval_secs` zero or negative).
///
/// The first tick comes after one nanosecond, the shortest time that does not
/// disarm the timer, so a game that is already running is picked up without
/// waiting for a full interval.
pub fn scan_timer_setting(interval_secs: i64) -> (r: Option<ITimerspec>)
    ensures
        r == (if interval_secs <= 0 {
            None
        } else {
            Some(
                (ITimerspec {
                    it_interval: (Timespec { tv_sec: interval_secs, tv_nsec: 0 }),
                    it_value: (Timespec { tv_sec: 0, tv_nsec: 1 }),
                }),
            )
        }),
{
    if interval_secs <= 0 {
        return None;
    }
    Some(
        ITimerspec {
            it_interval: Timespec { tv_sec: interval_secs, tv_nsec: 0 },
            it_value: Timespec { tv_sec: 0, tv_nsec: 1 },
        },
    )
}

} // verus!
