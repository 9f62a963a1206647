//! The snapshot model: one measurement of the system timing counters, and
//! the element-wise subtraction that turns two measurements into a delta.

use vstd::math::min;
use vstd::prelude::*;

verus! {

/// One measurement of the timing counters, all in whole nanoseconds.
///
/// A snapshot read from the counters or loaded from the cache is
/// *well formed* ([`Snapshot::wf`]): every duration is non-negative.
/// The snapshot produced by [`delta`] represents elapsed rather than
/// absolute quantities and may hold negative entries (after a reboot or a
/// clock reset); the renderer clamps them at display time.
pub struct Snapshot {
    /// Wall-clock time since boot.
    pub uptime_ns: i64,
    /// Average per-core idle time since boot (aggregate idle divided by
    /// the core count).
    pub idle_ns: i64,
    /// Idle time since boot of each logical core, in stable OS-assigned
    /// order; empty when per-core display is disabled.
    pub core_idle_ns: Vec<i64>,
}

/// The mathematical value of a snapshot: three unbounded nanosecond
/// quantities.
pub ghost struct SnapshotView {
    pub uptime_ns: int,
    pub idle_ns: int,
    pub core_idle_ns: Seq<int>,
}

impl SnapshotView {
    /// An absolute measurement never runs backwards, and every duration
    /// fits in a signed 64-bit nanosecond count.
    pub open spec fn wf(self) -> bool {
        &&& 0 <= self.uptime_ns <= i64::MAX
        &&& 0 <= self.idle_ns <= i64::MAX
        &&& forall|i: int|
            0 <= i < self.core_idle_ns.len() ==> 0 <= #[trigger] self.core_idle_ns[i] <= i64::MAX
    }
}

impl View for Snapshot {
    type V = SnapshotView;

    open spec fn view(&self) -> SnapshotView {
        SnapshotView {
            uptime_ns: self.uptime_ns as int,
            idle_ns: self.idle_ns as int,
            core_idle_ns: self.core_idle_ns@.map_values(|x: i64| x as int),
        }
    }
}

impl Snapshot {
    /// An absolute measurement never runs backwards: every field is
    /// non-negative.
    pub open spec fn wf(self) -> bool {
        self@.wf()
    }
}

/// The element-wise difference of two snapshot values: each duration of
/// `b` subtracted from the matching duration of `a`, over the
/// overlapping prefix of the per-core sequences.
pub open spec fn delta_view(a: SnapshotView, b: SnapshotView) -> SnapshotView {
    SnapshotView {
        uptime_ns: a.uptime_ns - b.uptime_ns,
        idle_ns: a.idle_ns - b.idle_ns,
        core_idle_ns: Seq::new(
            min(a.core_idle_ns.len() as int, b.core_idle_ns.len() as int) as nat,
            |i: int| a.core_idle_ns[i] - b.core_idle_ns[i],
        ),
    }
}

/// Element-wise subtraction of two snapshots: `current - previous`.
///
/// Per-core entries are subtracted over the overlapping prefix of the two
/// sequences; indices beyond the shorter sequence are dropped. Nothing is
/// clamped here: a negative difference is handed on to the renderer.
pub fn delta(current: &Snapshot, previous: &Snapshot) -> (d: Snapshot)
    requires
        current.wf(),
        previous.wf(),
    ensures
        d.uptime_ns == current.uptime_ns - previous.uptime_ns,
        d.idle_ns == current.idle_ns - previous.idle_ns,
        d.core_idle_ns@.len() == min(
            current.core_idle_ns@.len() as int,
            previous.core_idle_ns@.len() as int,
        ),
        forall|i: int|
            0 <= i < d.core_idle_ns@.len() ==> d.core_idle_ns@[i] == current.core_idle_ns@[i]
                - previous.core_idle_ns@[i],
        d@ == delta_view(current@, previous@),
{
    let n = if current.core_idle_ns.len() <= previous.core_idle_ns.len() {
        current.core_idle_ns.len()
    } else {
        previous.core_idle_ns.len()
    };
    let mut core_idle_ns: Vec<i64> = Vec::new();
    let mut i: usize = 0;
    while i < n
        invariant
            current.wf(),
            previous.wf(),
            n <= current.core_idle_ns@.len(),
            n <= previous.core_idle_ns@.len(),
            i <= n,
            core_idle_ns@.len() == i,
            forall|j: int|
                0 <= j < i ==> core_idle_ns@[j] == current.core_idle_ns@[j]
                    - previous.core_idle_ns@[j],
        decreases n - i,
    {
        proof {
            assert(current@.core_idle_ns[i as int] == current.core_idle_ns@[i as int] as int);
            assert(previous@.core_idle_ns[i as int] == previous.core_idle_ns@[i as int] as int);
        }
        core_idle_ns.push(current.core_idle_ns[i] - previous.core_idle_ns[i]);
        i = i + 1;
    }
    let d = Snapshot {
        uptime_ns: current.uptime_ns - previous.uptime_ns,
        idle_ns: current.idle_ns - previous.idle_ns,
        core_idle_ns,
    };
    proof {
        assert(d@.core_idle_ns =~= delta_view(current@, previous@).core_idle_ns);
        assert(d@ == delta_view(current@, previous@));
    }
    d
}

} // verus!
