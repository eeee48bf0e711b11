use vstd::prelude::*;

verus! {

/// Side length of the first offscreen render of a session.
pub const MIN_RESOLUTION: u32 = 32;

/// Side length at which refinement converges; no offscreen render happens
/// beyond it.
pub const MAX_RESOLUTION: u32 = 1024;

/// The stored resolution is one of the powers of two the schedule can
/// reach: the minimum through twice the maximum (the doubling after the
/// final render stores twice the maximum; the next redraw clamps it).
pub open spec fn valid_resolution(r: u32) -> bool {
    r == 32 || r == 64 || r == 128 || r == 256 || r == 512 || r == 1024 || r == 2048
}

/// The resolution a redraw actually renders at: the stored value clamped to
/// the maximum.
pub open spec fn clamped(r: u32) -> u32 {
    if r > MAX_RESOLUTION {
        MAX_RESOLUTION
    } else {
        r
    }
}

/// The stored resolution after one redraw on an available frame: the
/// clamped value, doubled.
pub open spec fn next_resolution(r: u32) -> u32 {
    (2 * clamped(r)) as u32
}

/// The stored resolution after a run of redraws on available frames.
pub open spec fn resolution_after(r0: u32, n: nat) -> u32
    decreases n,
{
    if n == 0 {
        r0
    } else {
        next_resolution(resolution_after(r0, (n - 1) as nat))
    }
}

/// Whether the redraw from the given stored resolution still runs the
/// offscreen pass.
pub open spec fn renders_at(r: u32) -> bool {
    clamped(r) < MAX_RESOLUTION
}

/// The refinement schedule a session carries across redraws.
pub struct RefinementState {
    pub resolution: u32,
}

/// What one redraw must do: run the offscreen pass at the given resolution
/// (reuse the cached texture when `None`), then composite to the frame;
/// when no frame could be acquired, neither happens.
pub struct RedrawPlan {
    pub sdf_resolution: Option<u32>,
    pub composite: bool,
}

impl RefinementState {
    pub open spec fn wf(self) -> bool {
        valid_resolution(self.resolution)
    }

    pub fn new() -> (s: Self)
        ensures
            s.wf(),
            s.resolution == MIN_RESOLUTION,
    {
        RefinementState { resolution: MIN_RESOLUTION }
    }

    /// One redraw: with a frame at hand, clamp the stored resolution, render
    /// offscreen while it is still below the maximum, double it for the next
    /// redraw, and composite; an unavailable frame changes nothing and draws
    /// nothing.
    pub fn on_redraw(&mut self, frame_available: bool) -> (plan: RedrawPlan)
        requires
            old(self).wf(),
        ensures
            final(self).wf(),
            plan.composite == frame_available,
            !frame_available ==> *final(self) == *old(self) && plan.sdf_resolution is None,
            frame_available ==> final(self).resolution == next_resolution(old(self).resolution),
            frame_available && renders_at(old(self).resolution) ==> plan.sdf_resolution == Some(
                clamped(old(self).resolution),
            ),
            frame_available && !renders_at(old(self).resolution) ==> plan.sdf_resolution is None,
    {
        if !frame_available {
            return RedrawPlan { sdf_resolution: None, composite: false };
        }
        let mut r = self.resolution;
        if r > MAX_RESOLUTION {
            r = MAX_RESOLUTION;
        }
        let sdf_resolution: Option<u32> = if r < MAX_RESOLUTION {
            Some(r)
        } else {
            None
        };
        self.resolution = 2 * r;
        RedrawPlan { sdf_resolution, composite: true }
    }
}

/// A run of redraws keeps the stored resolution among the values the
/// schedule can reach.
pub proof fn lemma_resolution_after_valid(r0: u32, n: nat)
    requires
        valid_resolution(r0),
    ensures
        valid_resolution(resolution_after(r0, n)),
    decreases n,
{
    if n > 0 {
        lemma_resolution_after_valid(r0, (n - 1) as nat);
    }
}

/// Law (resolution monotonicity): across a run of redraws with no reset, the
/// rendered resolution never decreases, never exceeds the maximum, doubles
/// while it is below the maximum, and stays at the maximum once it reaches
/// it.
pub proof fn lemma_resolution_monotone(r0: u32, n: nat)
    requires
        valid_resolution(r0),
    ensures
        clamped(resolution_after(r0, n)) <= clamped(resolution_after(r0, n + 1)),
        clamped(resolution_after(r0, n)) <= MAX_RESOLUTION,
        clamped(resolution_after(r0, n)) < MAX_RESOLUTION ==> clamped(
            resolution_after(r0, n + 1),
        ) == 2 * clamped(resolution_after(r0, n)),
        clamped(resolution_after(r0, n)) == MAX_RESOLUTION ==> clamped(
            resolution_after(r0, n + 1),
        ) == MAX_RESOLUTION,
{
    lemma_resolution_after_valid(r0, n);
    assert(resolution_after(r0, n + 1) == next_resolution(resolution_after(r0, n)));
}

/// Law (render-skip at convergence): once the rendered resolution has
/// reached the maximum, no later redraw runs the offscreen pass again, while
/// `on_redraw` still composites every redraw that has a frame.
pub proof fn lemma_converged_stays(r0: u32, n: nat, m: nat)
    requires
        valid_resolution(r0),
        clamped(resolution_after(r0, n)) == MAX_RESOLUTION,
        n <= m,
    ensures
        clamped(resolution_after(r0, m)) == MAX_RESOLUTION,
        !renders_at(resolution_after(r0, m)),
    decreases m - n,
{
    if m > n {
        lemma_converged_stays(r0, n, (m - 1) as nat);
        lemma_resolution_after_valid(r0, (m - 1) as nat);
        assert(resolution_after(r0, m) == next_resolution(resolution_after(r0, (m - 1) as nat)));
    }
}

} // verus!
