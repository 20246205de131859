//! Timed frame-sequence animation: immutable clips sampled by elapsed time,
//! with looping and horizontal mirroring, and the per-entity animation state
//! driven by `tick` and `play`.

use vstd::prelude::*;

verus! {

/// Cap on the stored elapsed time of an animation state, in milliseconds.
/// Ticking saturates here, so elapsed time can never overflow; the cap is
/// decades of continuous play.
pub const ANIM_TIME_CAP: i64 = 1_000_000_000_000;

/// Largest tick the animation state accepts, in milliseconds.
pub const ANIM_DT_MAX: i64 = 1_000_000;

/// A region of the sprite sheet, in texel coordinates.
#[derive(Clone, Copy, Debug, PartialEq, Eq, Structural)]
pub struct SpriteRegion {
    pub x: u32,
    pub y: u32,
    pub w: u32,
    pub h: u32,
}

/// A sampled sprite: a sheet region plus whether it is drawn mirrored
/// horizontally.
#[derive(Clone, Copy, Debug, PartialEq, Eq, Structural)]
pub struct SampledSprite {
    pub region: SpriteRegion,
    pub mirrored: bool,
}

/// One animation frame: a sheet region shown for `duration` milliseconds.
#[derive(Clone, Copy, Debug, PartialEq, Eq, Structural)]
pub struct Frame {
    pub region: SpriteRegion,
    pub duration: i64,
}

/// An ordered sequence of timed frames. Constructed once at startup into an
/// immutable registry and never mutated afterwards. A looped clip restarts at
/// 0 after its total duration; a mirrored clip is flipped horizontally at
/// sample time.
#[derive(Clone, Debug)]
pub struct AnimationClip {
    pub frames: Vec<Frame>,
    pub looped: bool,
    pub mirrored: bool,
}

/// Sum of the frame durations of `frames`.
pub open spec fn total_duration(frames: Seq<Frame>) -> int
    decreases frames.len(),
{
    if frames.len() == 0 {
        0
    } else {
        total_duration(frames.drop_last()) + frames.last().duration
    }
}

/// Index of the frame whose cumulative-duration window contains time `t`
/// (`t` already reduced to lie inside the clip's total duration).
pub open spec fn frame_at(frames: Seq<Frame>, t: int) -> int
    decreases frames.len(),
{
    if frames.len() == 0 {
        0
    } else if t < frames.first().duration {
        0
    } else {
        1 + frame_at(frames.skip(1), t - frames.first().duration)
    }
}

impl AnimationClip {
    pub open spec fn wf(self) -> bool {
        &&& 1 <= self.frames@.len() <= 1000
        &&& forall|i: int|
            0 <= i < self.frames@.len() ==> 1 <= #[trigger] self.frames@[i].duration
                <= ANIM_DT_MAX
    }

    /// The frame index `sample` reports at elapsed time `t`: looped clips
    /// reduce `t` modulo the total duration; a non-looped clip past its end
    /// yields nothing.
    pub open spec fn sample_index_spec(self, t: int) -> Option<int> {
        let total = total_duration(self.frames@);
        if self.looped {
            Some(frame_at(self.frames@, t % total))
        } else if t < total {
            Some(frame_at(self.frames@, t))
        } else {
            None
        }
    }

    /// What `sample` returns at elapsed time `t`.
    pub open spec fn sample_spec(self, t: int) -> Option<SampledSprite> {
        match self.sample_index_spec(t) {
            Some(i) => Some(
                SampledSprite { region: self.frames@[i].region, mirrored: self.mirrored },
            ),
            None => None,
        }
    }

    /// A single-frame, non-looped clip.
    pub fn with_frame(region: SpriteRegion) -> (r: AnimationClip)
        ensures
            r.frames@.len() == 1,
            r.frames@[0] == (Frame { region, duration: 1000i64 }),
            !r.looped,
            !r.mirrored,
            r.wf(),
    {
        let mut frames: Vec<Frame> = Vec::new();
        frames.push(Frame { region, duration: 1000 });
        AnimationClip { frames, looped: false, mirrored: false }
    }

    /// A non-looped clip showing each given region for `duration`
    /// milliseconds.
    pub fn with_frames(regions: &Vec<SpriteRegion>, duration: i64) -> (r: AnimationClip)
        requires
            1 <= regions@.len() <= 1000,
            1 <= duration <= ANIM_DT_MAX,
        ensures
            r.frames@.len() == regions@.len(),
            forall|i: int|
                0 <= i < regions@.len() ==> #[trigger] r.frames@[i] == (Frame {
                    region: regions@[i],
                    duration,
                }),
            !r.looped,
            !r.mirrored,
            r.wf(),
    {
        let mut frames: Vec<Frame> = Vec::new();
        let mut i: usize = 0;
        while i < regions.len()
            invariant
                0 <= i <= regions@.len(),
                regions@.len() <= 1000,
                1 <= duration <= ANIM_DT_MAX,
                frames@.len() == i,
                forall|j: int|
                    0 <= j < i ==> #[trigger] frames@[j] == (Frame {
                        region: regions@[j],
                        duration,
                    }),
            decreases regions@.len() - i,
        {
            frames.push(Frame { region: regions[i], duration });
            i += 1;
        }
        AnimationClip { frames, looped: false, mirrored: false }
    }

    /// The same clip, restarting at 0 after its total duration.
    pub fn looped(self) -> (r: AnimationClip)
        ensures
            r == (AnimationClip { looped: true, ..self }),
    {
        AnimationClip { looped: true, ..self }
    }

    /// The same clip, flipped horizontally at sample time.
    pub fn flip_horizontal(self) -> (r: AnimationClip)
        ensures
            r == (AnimationClip { mirrored: true, ..self }),
    {
        AnimationClip { mirrored: true, ..self }
    }

    /// Sum of the frame durations.
    pub fn total(&self) -> (r: i64)
        requires
            self.wf(),
        ensures
            r == total_duration(self.frames@),
            1 <= r <= 1000 * ANIM_DT_MAX,
    {
        let mut sum: i64 = 0;
        let mut i: usize = 0;
        while i < self.frames.len()
            invariant
                self.wf(),
                0 <= i <= self.frames@.len(),
                sum == total_duration(self.frames@.subrange(0, i as int)),
                0 <= sum <= i * ANIM_DT_MAX,
            decreases self.frames@.len() - i,
        {
            proof {
                assert(self.frames@.subrange(0, i + 1).drop_last() =~= self.frames@.subrange(
                    0,
                    i as int,
                ));
                assert(self.frames@.subrange(0, i + 1).last() == self.frames@[i as int]);
            }
            sum = sum + self.frames[i].duration;
            i += 1;
        }
        proof {
            assert(self.frames@.subrange(0, self.frames@.len() as int) =~= self.frames@);
            lemma_total_duration_bounds(self.frames@);
        }
        sum
    }

    /// The frame on display at elapsed time `t`: the frame whose
    /// cumulative-duration window contains `t`, with looped clips wrapping
    /// modulo the total duration; nothing once a non-looped clip is past its
    /// end.
    pub fn sample(&self, t: i64) -> (r: Option<SampledSprite>)
        requires
            self.wf(),
            0 <= t,
        ensures
            r == self.sample_spec(t as int),
    {
        let total = self.total();
        let mut rem: i64 = if self.looped {
            t % total
        } else {
            if t >= total {
                return None;
            }
            t
        };
        proof {
            if self.looped {
                vstd::arithmetic::div_mod::lemma_mod_bound(t as int, total as int);
            }
            lemma_frame_at_in_range(self.frames@, rem as int);
        }
        let ghost t_red: int = rem as int;
        let mut i: usize = 0;
        proof {
            assert(self.frames@.skip(0) =~= self.frames@);
        }
        loop
            invariant
                self.wf(),
                0 <= i < self.frames@.len(),
                0 <= rem,
                0 <= t,
                self.looped ==> t_red == (t as int) % total_duration(self.frames@),
                !self.looped ==> t_red == t as int && t < total_duration(self.frames@),
                frame_at(self.frames@, t_red) == i + frame_at(
                    self.frames@.skip(i as int),
                    rem as int,
                ),
                rem < total_duration(self.frames@.skip(i as int)),
            decreases self.frames@.len() - i,
        {
            let d = self.frames[i].duration;
            if rem < d {
                proof {
                    assert(self.frames@.skip(i as int).first() == self.frames@[i as int]);
                    assert(frame_at(self.frames@.skip(i as int), rem as int) == 0);
                    assert(frame_at(self.frames@, t_red) == i);
                    if self.looped {
                        assert(t_red == (t as int) % total_duration(self.frames@));
                    } else {
                        assert(t_red == t as int);
                    }
                    assert(self.sample_index_spec(t as int) == Some(i as int));
                }
                return Some(
                    SampledSprite { region: self.frames[i].region, mirrored: self.mirrored },
                );
            }
            proof {
                assert(self.frames@.skip(i as int).first() == self.frames@[i as int]);
                assert(self.frames@.skip(i as int).skip(1) =~= self.frames@.skip(i + 1));
                assert(total_duration(self.frames@.skip(i as int)) == self.frames@[i as int].duration
                    + total_duration(self.frames@.skip(i + 1))) by {
                    lemma_total_duration_first(self.frames@.skip(i as int));
                }
            }
            rem = rem - d;
            i += 1;
        }
    }
}

/// The total duration of a well-formed frame list lies between its length and
/// its length times the largest frame duration.
pub proof fn lemma_total_duration_bounds(frames: Seq<Frame>)
    requires
        forall|i: int| 0 <= i < frames.len() ==> 1 <= #[trigger] frames[i].duration <= ANIM_DT_MAX,
    ensures
        frames.len() <= total_duration(frames) <= frames.len() * ANIM_DT_MAX,
    decreases frames.len(),
{
    if frames.len() > 0 {
        lemma_total_duration_bounds(frames.drop_last());
        assert(frames.last() == frames[frames.len() - 1]);
        assert((frames.len() - 1) * ANIM_DT_MAX + ANIM_DT_MAX == frames.len() * ANIM_DT_MAX)
            by (nonlinear_arith);
    }
}

/// Unrolling `total_duration` from the front instead of the back.
pub proof fn lemma_total_duration_first(frames: Seq<Frame>)
    requires
        frames.len() >= 1,
    ensures
        total_duration(frames) == frames.first().duration + total_duration(frames.skip(1)),
    decreases frames.len(),
{
    if frames.len() == 1 {
        assert(frames.skip(1) =~= Seq::<Frame>::empty());
        assert(total_duration(frames.skip(1)) == 0);
        assert(frames.drop_last() =~= Seq::<Frame>::empty());
    } else {
        lemma_total_duration_first(frames.drop_last());
        assert(frames.drop_last().first() == frames.first());
        assert(frames.drop_last().skip(1) =~= frames.skip(1).drop_last());
        assert(frames.skip(1).last() == frames.last());
        assert(total_duration(frames.skip(1)) == total_duration(frames.skip(1).drop_last())
            + frames.skip(1).last().duration);
        assert(total_duration(frames) == total_duration(frames.drop_last())
            + frames.last().duration);
    }
}

/// A time inside the total duration lands on a frame index inside the list.
pub proof fn lemma_frame_at_in_range(frames: Seq<Frame>, t: int)
    requires
        frames.len() >= 1,
        0 <= t < total_duration(frames),
    ensures
        0 <= frame_at(frames, t) < frames.len(),
    decreases frames.len(),
{
    lemma_total_duration_first(frames);
    if t >= frames.first().duration {
        lemma_frame_at_in_range(frames.skip(1), t - frames.first().duration);
    }
}

/// Number of entries a clip registry holds: one per `AnimationKey` variant.
pub const ANIM_COUNT: usize = 13;

/// Symbolic key of a clip in the registry.
#[derive(Clone, Copy, Debug, PartialEq, Eq, Structural)]
pub enum AnimationKey {
    Blank,
    PlayerRightIdle,
    PlayerRightWalk,
    PlayerRightJumpRise,
    PlayerRightJumpFall,
    PlayerRightAttack,
    PlayerLeftIdle,
    PlayerLeftWalk,
    PlayerLeftJumpRise,
    PlayerLeftJumpFall,
    PlayerLeftAttack,
    EnemyRightWalk,
    EnemyLeftWalk,
}

pub open spec fn key_index_spec(k: AnimationKey) -> int {
    match k {
        AnimationKey::Blank => 0,
        AnimationKey::PlayerRightIdle => 1,
        AnimationKey::PlayerRightWalk => 2,
        AnimationKey::PlayerRightJumpRise => 3,
        AnimationKey::PlayerRightJumpFall => 4,
        AnimationKey::PlayerRightAttack => 5,
        AnimationKey::PlayerLeftIdle => 6,
        AnimationKey::PlayerLeftWalk => 7,
        AnimationKey::PlayerLeftJumpRise => 8,
        AnimationKey::PlayerLeftJumpFall => 9,
        AnimationKey::PlayerLeftAttack => 10,
        AnimationKey::EnemyRightWalk => 11,
        AnimationKey::EnemyLeftWalk => 12,
    }
}

/// Slot of a key in the clip registry.
pub fn key_index(k: AnimationKey) -> (r: usize)
    ensures
        r == key_index_spec(k),
        r < ANIM_COUNT,
{
    match k {
        AnimationKey::Blank => 0,
        AnimationKey::PlayerRightIdle => 1,
        AnimationKey::PlayerRightWalk => 2,
        AnimationKey::PlayerRightJumpRise => 3,
        AnimationKey::PlayerRightJumpFall => 4,
        AnimationKey::PlayerRightAttack => 5,
        AnimationKey::PlayerLeftIdle => 6,
        AnimationKey::PlayerLeftWalk => 7,
        AnimationKey::PlayerLeftJumpRise => 8,
        AnimationKey::PlayerLeftJumpFall => 9,
        AnimationKey::PlayerLeftAttack => 10,
        AnimationKey::EnemyRightWalk => 11,
        AnimationKey::EnemyLeftWalk => 12,
    }
}

/// A registry is well formed when it holds one well-formed clip per key.
pub open spec fn registry_wf(anims: Seq<AnimationClip>) -> bool {
    &&& anims.len() == ANIM_COUNT
    &&& forall|i: int| 0 <= i < anims.len() ==> (#[trigger] anims[i]).wf()
}

/// Per-entity animation state: the key of the clip on display and the elapsed
/// time within it, in milliseconds.
#[derive(Clone, Copy, Debug, PartialEq, Eq, Structural)]
pub struct AnimationState {
    pub animation: AnimationKey,
    pub t: i64,
}

impl AnimationState {
    pub open spec fn wf(self) -> bool {
        0 <= self.t <= ANIM_TIME_CAP
    }

    /// The clip this state points into.
    pub open spec fn clip_of(self, anims: Seq<AnimationClip>) -> AnimationClip {
        anims[key_index_spec(self.animation)]
    }

    /// What `sample` returns: the clip's frame at the elapsed time, falling
    /// back to the frame at time 0 once a non-looped clip is past its end
    /// (a freeze-without-reset: frame 0 is resampled, not the last frame
    /// held).
    pub open spec fn sample_state_spec(self, anims: Seq<AnimationClip>) -> SampledSprite {
        match self.clip_of(anims).sample_spec(self.t as int) {
            Some(s) => s,
            None => self.clip_of(anims).sample_spec(0).unwrap(),
        }
    }

    /// Whether the clip has run past its end (never true of a looped clip).
    pub fn finished(&self, anims: &Vec<AnimationClip>) -> (r: bool)
        requires
            registry_wf(anims@),
            self.wf(),
        ensures
            r == (self.clip_of(anims@).sample_spec(self.t as int) is None),
    {
        let clip = &anims[key_index(self.animation)];
        clip.sample(self.t).is_none()
    }

    /// The sprite on display at the current elapsed time.
    pub fn sample(&self, anims: &Vec<AnimationClip>) -> (r: SampledSprite)
        requires
            registry_wf(anims@),
            self.wf(),
        ensures
            r == self.sample_state_spec(anims@),
    {
        let clip = &anims[key_index(self.animation)];
        match clip.sample(self.t) {
            Some(s) => s,
            None => {
                proof {
                    lemma_total_duration_bounds(clip.frames@);
                    assert(total_duration(clip.frames@) >= 1);
                }
                let r = clip.sample(0);
                r.unwrap()
            },
        }
    }

    /// Advance the elapsed time by `dt` milliseconds, saturating at
    /// `ANIM_TIME_CAP` so it can never overflow.
    pub fn tick(&mut self, dt: i64)
        requires
            old(self).wf(),
            0 <= dt <= ANIM_DT_MAX,
        ensures
            final(self).animation == old(self).animation,
            final(self).t == (if old(self).t + dt <= ANIM_TIME_CAP {
                old(self).t + dt
            } else {
                ANIM_TIME_CAP as int
            }),
            final(self).wf(),
    {
        if self.t + dt <= ANIM_TIME_CAP {
            self.t = self.t + dt;
        } else {
            self.t = ANIM_TIME_CAP;
        }
    }

    /// Switch to clip `anim` and reset the elapsed time to 0 — unless that
    /// clip is already on display and `retrigger` is false, in which case
    /// nothing changes (the debounce that keeps repeated per-frame calls from
    /// restarting the clip).
    pub fn play(&mut self, anim: AnimationKey, retrigger: bool)
        ensures
            *final(self) == play_spec(*old(self), anim, retrigger),
    {
        if anim == self.animation && !retrigger {
            return ;
        }
        self.animation = anim;
        self.t = 0;
    }
}

/// What `play` does to the state, as a function.
pub open spec fn play_spec(s: AnimationState, anim: AnimationKey, retrigger: bool) -> AnimationState {
    if anim == s.animation && !retrigger {
        s
    } else {
        AnimationState { animation: anim, t: 0i64 }
    }
}

/// `play` with the key already on display and no retrigger never resets the
/// elapsed time; with retrigger, or with another key, it always resets it
/// to 0.
pub proof fn law_play_debounce(s: AnimationState, anim: AnimationKey, retrigger: bool)
    ensures
        anim == s.animation && !retrigger ==> play_spec(s, anim, retrigger) == s,
        retrigger || anim != s.animation ==> play_spec(s, anim, retrigger) == (AnimationState {
            animation: anim,
            t: 0i64,
        }),
{
}

/// Looped sampling is periodic: time `t` and time `t + total duration` show
/// the identical frame.
pub proof fn law_looped_sample_periodic(clip: AnimationClip, t: int)
    requires
        clip.wf(),
        clip.looped,
        0 <= t,
    ensures
        clip.sample_spec(t + total_duration(clip.frames@)) == clip.sample_spec(t),
{
    let total = total_duration(clip.frames@);
    lemma_total_duration_bounds(clip.frames@);
    vstd::arithmetic::div_mod::lemma_mod_add_multiples_vanish(t, total);
}

} // verus!
