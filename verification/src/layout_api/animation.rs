//! Animated images: which frame shows, and which nodes have one.
//!
//! The timeline is a double-precision number and is carried by its bits. How much of it is left is
//! computed outside; what that means for the frames is decided here.
use crate::clock::TimeSpan;
use crate::fx::{empty_map, has_no_entries, insert_entry, remove_entry};
use crate::retained_canvas::ImageKey;
use rustc_hash::FxHashMap;
use vstd::prelude::*;

verus! {

/// How often an animation runs.
#[derive(Clone, Copy, Debug, PartialEq, Eq, Structural)]
pub enum Repeat {
    Infinite,
    Finite(u32),
}

/// One frame of an image.
#[derive(Clone, Copy, Debug, PartialEq, Eq)]
pub struct ImageFrame {
    /// How long the frame shows.
    pub delay: Option<TimeSpan>,
    pub width: u32,
    pub height: u32,
}

/// An image of pixels.
#[derive(Clone, Debug, PartialEq, Eq)]
pub struct RasterImage {
    pub id: Option<ImageKey>,
    pub frames: Vec<ImageFrame>,
    pub loop_count: Option<Repeat>,
}

/// How far the animation of an image is.
#[derive(Clone, Debug, PartialEq, Eq)]
pub struct ImageAnimationState {
    pub image: RasterImage,
    pub active_frame: usize,
    /// When the active frame started to show, by its bits.
    pub frame_start_time: u64,
    /// How often the animation has run through, unless it runs for ever.
    pub completed_loops: Option<u32>,
}

/// What an update of the active frame does next.
#[derive(Clone, Copy, Debug, PartialEq, Eq, Structural)]
pub enum FrameStep {
    /// The delay of this frame is taken off the time that is left.
    Subtract { frame: usize, delay: TimeSpan },
    /// The update is done; it says whether another frame shows.
    Done { changed: bool },
}

impl ImageAnimationState {
    /// The active frame is one of the image, and every frame has a delay.
    pub open spec fn wf(&self) -> bool {
        &&& self.active_frame < self.image.frames@.len()
        &&& forall|i: int|
            0 <= i < self.image.frames@.len() ==> (#[trigger] self.image.frames@[i]).delay is Some
    }

    /// An animation at its first frame.
    pub fn new(image: RasterImage, last_update_time: u64) -> (state: Self)
        requires
            image.loop_count is Some,
        ensures
            state == (ImageAnimationState {
                image,
                active_frame: 0,
                frame_start_time: last_update_time,
                completed_loops: if image.loop_count == Some(Repeat::Infinite) {
                    None
                } else {
                    Some(0u32)
                },
            }),
    {
        let completed_loops: Option<u32> = match &image.loop_count {
            Some(Repeat::Infinite) => None,
            _ => Some(0),
        };
        ImageAnimationState {
            image,
            active_frame: 0,
            frame_start_time: last_update_time,
            completed_loops,
        }
    }

    /// The renderer's image.
    pub fn image_key(&self) -> (key: Option<ImageKey>)
        ensures
            key == self.image.id,
    {
        self.image.id
    }

    pub open spec fn spec_is_finished(&self) -> bool {
        match (self.image.loop_count, self.completed_loops) {
            (Some(Repeat::Finite(maximum_loops)), Some(completed_loops)) => completed_loops
                >= maximum_loops,
            _ => false,
        }
    }

    /// The animation has run as often as it should.
    #[verifier::when_used_as_spec(spec_is_finished)]
    pub fn is_finished(&self) -> (finished: bool)
        ensures
            finished == self.spec_is_finished(),
    {
        match (&self.image.loop_count, &self.completed_loops) {
            (Some(Repeat::Finite(maximum_loops)), Some(completed_loops)) => *completed_loops
                >= *maximum_loops,
            _ => false,
        }
    }

    /// How long the active frame still shows, unless it shows for good.
    pub open spec fn shows_for(self, shown_for: TimeSpan) -> Option<TimeSpan> {
        if self.is_finished() {
            None
        } else {
            let delay = match self.image.frames@[self.active_frame as int].delay {
                Some(delay) => delay,
                None => TimeSpan(0),
            };
            Some(
                if shown_for.0 < delay.0 {
                    TimeSpan((delay.0 - shown_for.0) as u128)
                } else {
                    TimeSpan(0)
                },
            )
        }
    }

    /// The delay that an update first takes off.
    pub open spec fn first_delay(self) -> Option<TimeSpan> {
        if self.image.frames@.len() <= 1 || self.is_finished() {
            None
        } else {
            self.image.frames@[self.active_frame as int].delay
        }
    }

    /// How long the active frame still shows, when it has shown for `shown_for`.
    pub fn duration_to_next_frame(&self, shown_for: TimeSpan) -> (duration: Option<TimeSpan>)
        requires
            self.active_frame < self.image.frames@.len(),
        ensures
            duration == self.shows_for(shown_for),
            duration == (if self.is_finished() {
                None
            } else {
                let delay = match self.image.frames@[self.active_frame as int].delay {
                    Some(delay) => delay,
                    None => TimeSpan(0),
                };
                Some(
                    if shown_for.0 < delay.0 {
                        TimeSpan((delay.0 - shown_for.0) as u128)
                    } else {
                        TimeSpan(0)
                    },
                )
            }),
    {
        if self.is_finished() {
            return None;
        }
        let delay = match self.image.frames[self.active_frame].delay {
            Some(delay) => delay,
            None => TimeSpan::zero(),
        };
        if shown_for.0 < delay.0 {
            Some(TimeSpan(delay.0 - shown_for.0))
        } else {
            Some(TimeSpan::zero())
        }
    }

    /// Starts an update: gives the delay that is first taken off the time since the active frame
    /// started, unless no other frame can show.
    pub fn begin_frame_update(&self) -> (delay: Option<TimeSpan>)
        requires
            self.image.frames@.len() <= 1 || self.is_finished() || (self.active_frame
                < self.image.frames@.len() && self.image.frames@[self.active_frame as int].delay
                is Some),
        ensures
            delay == self.first_delay(),
            delay == (if self.image.frames@.len() <= 1 || self.is_finished() {
                None
            } else {
                self.image.frames@[self.active_frame as int].delay
            }),
    {
        if self.image.frames.len() <= 1 || self.is_finished() {
            return None;
        }
        self.image.frames[self.active_frame].delay
    }

    /// The frame behind another; behind the last comes the first.
    pub open spec fn frame_behind(&self, frame: usize) -> int {
        if frame + 1 == self.image.frames@.len() {
            0
        } else {
            frame + 1
        }
    }

    /// The state once a loop more is completed.
    pub open spec fn with_loop(self) -> ImageAnimationState {
        ImageAnimationState {
            completed_loops: match self.completed_loops {
                Some(completed_loops) => Some((completed_loops + 1) as u32),
                None => None,
            },
            ..self
        }
    }

    /// The state in which another frame shows since `now`.
    pub open spec fn showing(self, frame: int, now: u64) -> ImageAnimationState {
        ImageAnimationState { active_frame: frame as usize, frame_start_time: now, ..self }
    }

    /// What an update does that has got as far as `frame`.
    pub open spec fn updated(self, frame: usize, time_left: bool, now: u64) -> (
        ImageAnimationState,
        FrameStep,
    ) {
        let next = self.frame_behind(frame);
        if !time_left {
            if self.active_frame == frame {
                (self, FrameStep::Done { changed: false })
            } else {
                (self.showing(frame as int, now), FrameStep::Done { changed: true })
            }
        } else {
            let looped = if next == 0 {
                self.with_loop()
            } else {
                self
            };
            let last = self.image.frames@.len() - 1;
            if next == 0 && looped.is_finished() {
                if self.active_frame == last {
                    (looped, FrameStep::Done { changed: false })
                } else {
                    (looped.showing(last, now), FrameStep::Done { changed: true })
                }
            } else {
                (
                    looped,
                    FrameStep::Subtract {
                        frame: next as usize,
                        delay: self.image.frames@[next].delay->Some_0,
                    },
                )
            }
        }
    }

    /// An update that has got as far as `frame` can go on: where it moves on to another frame, that
    /// has a delay, and a loop that it completes can be counted.
    pub open spec fn can_update(self, frame: usize, time_left: bool) -> bool {
        let next = self.frame_behind(frame);
        &&& frame < self.image.frames@.len()
        &&& time_left && next == 0 ==> (self.completed_loops matches Some(loops) ==> loops
            < u32::MAX)
        &&& time_left && !(next == 0 && self.with_loop().is_finished())
            ==> self.image.frames@[next].delay is Some
    }

    /// Goes on with an update that has got as far as `frame`, which is the active one at first. As
    /// long as time is left it moves on to the frame behind, completing a loop behind the last; an
    /// animation that thereby ends stays at its last frame.
    pub fn update_frame_for_animation_timeline_value(
        &mut self,
        frame: usize,
        time_left: bool,
        now: u64,
    ) -> (step: FrameStep)
        requires
            old(self).can_update(frame, time_left),
        ensures
            (*final(self), step) == old(self).updated(frame, time_left, now),
            old(self).wf() ==> final(self).wf(),
    {
        if !time_left {
            if self.active_frame == frame {
                return FrameStep::Done { changed: false };
            }
            self.active_frame = frame;
            self.frame_start_time = now;
            return FrameStep::Done { changed: true };
        }
        let frame_count: usize = self.image.frames.len();
        let next: usize = if frame + 1 == frame_count {
            0
        } else {
            frame + 1
        };
        if next == 0 {
            self.advance_completed_loops();
            if self.is_finished() {
                if self.active_frame == frame_count - 1 {
                    return FrameStep::Done { changed: false };
                }
                self.active_frame = frame_count - 1;
                self.frame_start_time = now;
                return FrameStep::Done { changed: true };
            }
        }
        match self.image.frames[next].delay {
            Some(delay) => FrameStep::Subtract { frame: next, delay },
            None => FrameStep::Done { changed: false },
        }
    }

    fn advance_completed_loops(&mut self)
        requires
            old(self).completed_loops matches Some(loops) ==> loops < u32::MAX,
        ensures
            *final(self) == old(self).with_loop(),
    {
        if let Some(completed_loops) = self.completed_loops {
            self.completed_loops = Some(completed_loops + 1);
        }
    }
}

/// The animated images of a document, by node.
#[derive(Debug)]
pub struct AnimatingImages {
    pub node_to_state_map: FxHashMap<u64, ImageAnimationState>,
    /// The images have changed since script last asked.
    pub dirty: bool,
}

impl Default for AnimatingImages {
    fn default() -> (images: Self)
        ensures
            images.node_to_state_map@ =~= Map::empty(),
            !images.dirty,
    {
        AnimatingImages::new()
    }
}

impl AnimatingImages {
    /// The animations once a node shows an image, and whether they have changed since script asked.
    pub open spec fn showing(
        images: Map<u64, ImageAnimationState>,
        dirty: bool,
        node: u64,
        image: RasterImage,
        now: u64,
    ) -> (Map<u64, ImageAnimationState>, bool) {
        if images.dom().contains(node) && images[node].image.id == image.id {
            (images, dirty)
        } else {
            let state = ImageAnimationState {
                image,
                active_frame: 0,
                frame_start_time: now,
                completed_loops: if image.loop_count == Some(Repeat::Infinite) {
                    None
                } else {
                    Some(0u32)
                },
            };
            (images.insert(node, state), true)
        }
    }

    /// The animations once a node shows no image, and whether they have changed.
    pub open spec fn without(
        images: Map<u64, ImageAnimationState>,
        dirty: bool,
        node: u64,
    ) -> (Map<u64, ImageAnimationState>, bool) {
        (images.remove(node), dirty || images.dom().contains(node))
    }

    /// No images.
    pub fn new() -> (images: Self)
        ensures
            images.node_to_state_map@ =~= Map::empty(),
            !images.dirty,
    {
        AnimatingImages { node_to_state_map: empty_map(), dirty: false }
    }

    /// A node shows an image: its animation starts, unless it is the one that already runs there.
    pub fn maybe_insert_or_update(
        &mut self,
        node: u64,
        image: RasterImage,
        current_timeline_value: u64,
    )
        requires
            image.loop_count is Some || (old(self).node_to_state_map@.dom().contains(node) && old(
                self,
            ).node_to_state_map@[node].image.id == image.id),
        ensures
            final(self).node_to_state_map@ =~= AnimatingImages::showing(
                old(self).node_to_state_map@,
                old(self).dirty,
                node,
                image,
                current_timeline_value,
            ).0,
            final(self).dirty == AnimatingImages::showing(
                old(self).node_to_state_map@,
                old(self).dirty,
                node,
                image,
                current_timeline_value,
            ).1,
            ({
                let before = old(self).node_to_state_map@;
                let runs = before.dom().contains(node) && before[node].image.id == image.id;
                &&& runs ==> final(self).node_to_state_map@ =~= before && final(self).dirty == old(
                    self,
                ).dirty
                &&& !runs ==> final(self).dirty && final(self).node_to_state_map@
                    =~= before.insert(
                    node,
                    ImageAnimationState {
                        image,
                        active_frame: 0,
                        frame_start_time: current_timeline_value,
                        completed_loops: if image.loop_count == Some(Repeat::Infinite) {
                            None
                        } else {
                            Some(0u32)
                        },
                    },
                )
            }),
    {
        match remove_entry(&mut self.node_to_state_map, node) {
            Some(state) => {
                if same_key(&state.image.id, &image.id) {
                    insert_entry(&mut self.node_to_state_map, node, state);
                    return ;
                }
            },
            None => {},
        }
        self.dirty = true;
        insert_entry(
            &mut self.node_to_state_map,
            node,
            ImageAnimationState::new(image, current_timeline_value),
        );
    }

    /// A node shows no image any more.
    pub fn remove(&mut self, node: u64)
        ensures
            (final(self).node_to_state_map@, final(self).dirty) == AnimatingImages::without(
                old(self).node_to_state_map@,
                old(self).dirty,
                node,
            ),
            final(self).node_to_state_map@ == old(self).node_to_state_map@.remove(node),
            final(self).dirty == (old(self).dirty || old(self).node_to_state_map@.dom().contains(
                node,
            )),
    {
        if remove_entry(&mut self.node_to_state_map, node).is_some() {
            self.dirty = true;
        }
    }

    /// Says whether the images have changed since this was last asked.
    pub fn clear_dirty(&mut self) -> (dirty: bool)
        ensures
            dirty == old(self).dirty,
            !final(self).dirty,
            final(self).node_to_state_map == old(self).node_to_state_map,
    {
        let dirty = self.dirty;
        self.dirty = false;
        dirty
    }

    /// There are no images.
    pub fn is_empty(&self) -> (empty: bool)
        ensures
            empty == forall|node: u64| !(#[trigger] self.node_to_state_map@.dom().contains(node)),
    {
        has_no_entries(&self.node_to_state_map)
    }
}

fn same_key(left: &Option<ImageKey>, right: &Option<ImageKey>) -> (same: bool)
    ensures
        same == (*left == *right),
{
    match (left, right) {
        (Some(left), Some(right)) => left.namespace == right.namespace && left.key == right.key,
        (None, None) => true,
        _ => false,
    }
}

/// An update that has time left moves on frame by frame; where that ends the animation, the last
/// frame shows.
pub proof fn law_animation_ends_at_its_last_frame(
    state: ImageAnimationState,
    frame: usize,
    now: u64,
)
    requires
        state.wf(),
        frame < state.image.frames@.len(),
        state.completed_loops matches Some(loops) ==> loops < u32::MAX,
    ensures
        state.updated(frame, true, now).1 is Done ==> {
            &&& state.updated(frame, true, now).0.is_finished()
            &&& state.updated(frame, true, now).0.active_frame == state.image.frames@.len() - 1
        },
        state.updated(frame, true, now).1 matches FrameStep::Subtract { frame: next, .. } ==> next
            == state.frame_behind(frame),
{
    assert(state.image.frames@.len() == state.image.frames.len());
}

/// An update that has got as far as a frame stays there where no time is left, and says whether that
/// is another frame than showed. Where time is left it moves on to the frame behind, from the last to
/// the first, and counts a loop only there; it takes that frame's delay off the time. It ends only
/// where that loop was the last that the image asks for, at the last frame.
pub proof fn law_update_moves_frame_by_frame(
    state: ImageAnimationState,
    frame: usize,
    time_left: bool,
    now: u64,
)
    requires
        state.can_update(frame, time_left),
        state.image.frames@.len() > 0,
    ensures
        ({
            let (after, step) = state.updated(frame, time_left, now);
            let count = state.image.frames@.len() as int;
            let wraps = frame == count - 1;
            let loops: Option<int> = match state.completed_loops {
                Some(loops) => Some(loops + if time_left && wraps {
                    1int
                } else {
                    0int
                }),
                None => None,
            };
            let ended = time_left && wraps && loops is Some && (
            state.image.loop_count matches Some(Repeat::Finite(most)) && loops->0 >= most);
            &&& after.image == state.image
            &&& match (after.completed_loops, loops) {
                (Some(counted), Some(expected)) => counted == expected,
                (None, None) => true,
                _ => false,
            }
            &&& step is Done <==> !time_left || ended
            &&& !time_left ==> {
                &&& after.active_frame == frame
                &&& step == (FrameStep::Done { changed: frame != state.active_frame })
                &&& after.frame_start_time == if frame == state.active_frame {
                    state.frame_start_time
                } else {
                    now
                }
            }
            &&& ended ==> {
                &&& after.active_frame == count - 1
                &&& step == (FrameStep::Done { changed: state.active_frame != count - 1 })
                &&& after.frame_start_time == if state.active_frame == count - 1 {
                    state.frame_start_time
                } else {
                    now
                }
            }
            &&& time_left && !ended ==> {
                let next: int = if wraps {
                    0
                } else {
                    frame + 1
                };
                &&& step == (FrameStep::Subtract {
                    frame: next as usize,
                    delay: state.image.frames@[next].delay->0,
                })
                &&& after.active_frame == state.active_frame
                &&& after.frame_start_time == state.frame_start_time
            }
        }),
{
    assert(state.image.frames@.len() == state.image.frames.len());
}

/// An animation is over exactly where it asks for a number of loops and has run as many.
pub proof fn law_animation_is_over_after_its_loops(state: ImageAnimationState)
    ensures
        state.is_finished() <==> (state.completed_loops is Some && (
        state.image.loop_count matches Some(Repeat::Finite(most)) && state.completed_loops->0
            >= most)),
{
}

/// The time that a frame has shown and the time that it still shows are its delay together, and none
/// is left once it has shown that long. A frame shows for good exactly where the animation is over.
pub proof fn law_shown_time_and_time_left_are_the_delay(
    state: ImageAnimationState,
    shown_for: TimeSpan,
)
    requires
        state.wf(),
        state.image.frames@.len() > 0,
    ensures
        ({
            let delay = state.image.frames@[state.active_frame as int].delay->0;
            let over = state.completed_loops is Some && (
            state.image.loop_count matches Some(Repeat::Finite(most)) && state.completed_loops->0
                >= most);
            &&& state.shows_for(shown_for) is None <==> over
            &&& !over && shown_for.0 <= delay.0 ==> (state.shows_for(shown_for)->0).0 + shown_for.0
                == delay.0
            &&& !over && shown_for.0 > delay.0 ==> (state.shows_for(shown_for)->0).0 == 0
            &&& state.first_delay() is Some <==> !over && state.image.frames@.len() > 1
            &&& state.first_delay() is Some ==> state.first_delay() == Some(delay)
        }),
{
}

/// A node that shows the image it showed before goes on where it was, and nothing is marked; one
/// that shows another starts it at its first frame with no loop counted, which is marked. Other nodes
/// go on as they were, and showing the same image twice is showing it once.
pub proof fn law_animation_goes_on_unless_the_image_changes(
    images: Map<u64, ImageAnimationState>,
    dirty: bool,
    node: u64,
    image: RasterImage,
    now: u64,
    later: u64,
    other: u64,
)
    requires
        other != node,
    ensures
        ({
            let (after, marked) = AnimatingImages::showing(images, dirty, node, image, now);
            let same = images.dom().contains(node) && images[node].image.id == image.id;
            &&& after.dom().contains(node)
            &&& after[node].image.id == image.id
            &&& same ==> after[node] == images[node] && marked == dirty
            &&& !same ==> {
                &&& marked
                &&& after[node].image == image
                &&& after[node].active_frame == 0
                &&& after[node].frame_start_time == now
                &&& after[node].completed_loops is None <==> image.loop_count == Some(
                    Repeat::Infinite,
                )
                &&& after[node].completed_loops is Some ==> after[node].completed_loops->0 == 0
            }
            &&& after.dom().contains(other) <==> images.dom().contains(other)
            &&& after.dom().contains(other) ==> after[other] == images[other]
            &&& AnimatingImages::showing(after, marked, node, image, later) == (after, marked)
        }),
{
}

/// A node that shows no image any more has no animation, and the others go on. It is marked where the
/// node had one.
pub proof fn law_animation_ends_with_its_node(
    images: Map<u64, ImageAnimationState>,
    dirty: bool,
    node: u64,
    other: u64,
)
    requires
        other != node,
    ensures
        ({
            let (after, marked) = AnimatingImages::without(images, dirty, node);
            &&& !after.dom().contains(node)
            &&& after.dom().contains(other) <==> images.dom().contains(other)
            &&& after.dom().contains(other) ==> after[other] == images[other]
            &&& marked <==> dirty || images.dom().contains(node)
        }),
{
}

} // verus!
