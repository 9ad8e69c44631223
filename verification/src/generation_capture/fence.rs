//! Two fresh checkpoints with one and the same quiet state qualify it.
use crate::clock::DocumentProducerCheckpoint;
use vstd::prelude::*;
use vstd::std_specs::cmp::PartialEqSpec;

verus! {

/// Qualifies a revision that was seen unchanged, and qualified, at two fresh checkpoints. What the
/// revision consists of is up to the caller.
#[derive(Clone, Debug)]
pub struct DocumentCaptureQuietFence<R> {
    /// The latest checkpoint that was fresh.
    pub last_checkpoint: Option<DocumentProducerCheckpoint>,
    /// The revision seen last, and whether it was qualified then.
    pub last_revision: Option<R>,
    pub last_revision_qualified: bool,
    /// That revision was seen at one fresh checkpoint.
    pub quiet_candidate: bool,
    /// That revision was seen at two fresh checkpoints.
    pub stable: bool,
}

impl<R> DocumentCaptureQuietFence<R> {
    /// Nothing seen yet.
    pub fn new() -> (fence: Self)
        ensures
            fence.last_checkpoint is None,
            fence.last_revision is None,
            !fence.last_revision_qualified,
            !fence.quiet_candidate,
            !fence.stable,
    {
        DocumentCaptureQuietFence {
            last_checkpoint: None,
            last_revision: None,
            last_revision_qualified: false,
            quiet_candidate: false,
            stable: false,
        }
    }

    /// Forgets the revision but not the checkpoint, so that no old checkpoint is fresh again.
    pub fn invalidate_revision(&mut self)
        ensures
            *final(self) == old(self).forgotten(),
            final(self).last_checkpoint == old(self).last_checkpoint,
            final(self).last_revision is None,
            !final(self).last_revision_qualified,
            !final(self).quiet_candidate,
            !final(self).stable,
    {
        self.last_revision = None;
        self.last_revision_qualified = false;
        self.quiet_candidate = false;
        self.stable = false;
    }

    /// The fence once the revision is forgotten.
    pub open spec fn forgotten(self) -> DocumentCaptureQuietFence<R> {
        DocumentCaptureQuietFence {
            last_revision: None,
            last_revision_qualified: false,
            quiet_candidate: false,
            stable: false,
            ..self
        }
    }

    /// A checkpoint is fresh if there was one at all and it is later than every fresh one before.
    pub open spec fn fresh(self, checkpoint: DocumentProducerCheckpoint) -> bool {
        checkpoint.0 != 0 && (self.last_checkpoint matches Some(previous) ==> checkpoint.0
            > previous.0)
    }
}

impl<R> Default for DocumentCaptureQuietFence<R> {
    fn default() -> (fence: Self)
        ensures
            fence.last_checkpoint is None,
            fence.last_revision is None,
            !fence.last_revision_qualified,
            !fence.quiet_candidate,
            !fence.stable,
    {
        DocumentCaptureQuietFence::new()
    }
}

impl<R: PartialEq> DocumentCaptureQuietFence<R> {
    /// The revision seen last is `revision`.
    pub open spec fn holds(self, revision: R) -> bool {
        self.last_revision matches Some(last) && last.eq_spec(&revision)
    }

    /// The fence was told of this very revision, with the same qualification, at the last
    /// observation.
    pub open spec fn unchanged(self, revision: R, qualified: bool) -> bool {
        self.holds(revision) && self.last_revision_qualified == qualified
    }

    /// The revision is the stable one.
    pub open spec fn qualifies(self, revision: R) -> bool {
        self.last_revision_qualified && self.holds(revision) && self.stable
    }

    /// The fence after one observation.
    pub open spec fn observed(
        self,
        checkpoint: DocumentProducerCheckpoint,
        revision: R,
        qualified: bool,
    ) -> DocumentCaptureQuietFence<R> {
        let kept = qualified && self.unchanged(revision, qualified);
        let fresh = self.fresh(checkpoint);
        DocumentCaptureQuietFence {
            last_checkpoint: if fresh {
                Some(checkpoint)
            } else {
                self.last_checkpoint
            },
            last_revision: Some(revision),
            last_revision_qualified: qualified,
            quiet_candidate: qualified && (fresh || kept && self.quiet_candidate),
            stable: kept && (self.stable || fresh && self.quiet_candidate),
        }
    }

    /// Takes one observation. A qualified revision becomes the candidate at a fresh checkpoint;
    /// unchanged at the next fresh checkpoint it is stable. A change, or a revision that is not
    /// qualified, starts over. Gives whether the revision is stable.
    pub fn observe(
        &mut self,
        checkpoint: DocumentProducerCheckpoint,
        revision: R,
        mechanically_qualified: bool,
    ) -> (qualified: bool)
        requires
            R::obeys_eq_spec(),
        ensures
            *final(self) == old(self).observed(checkpoint, revision, mechanically_qualified),
            qualified == final(self).stable,
            revision.eq_spec(&revision) ==> qualified == final(self).qualifies(revision),
    {
        let same = match &self.last_revision {
            Some(last) => *last == revision,
            None => false,
        };
        let changed = !same || self.last_revision_qualified != mechanically_qualified;
        if changed || !mechanically_qualified {
            self.quiet_candidate = false;
            self.stable = false;
        }
        let fresh = checkpoint.0 != 0 && match self.last_checkpoint {
            Some(previous) => checkpoint.0 > previous.0,
            None => true,
        };
        if fresh {
            self.last_checkpoint = Some(checkpoint);
            if mechanically_qualified {
                if !changed && self.quiet_candidate {
                    self.stable = true;
                } else {
                    self.quiet_candidate = true;
                }
            }
        }
        self.last_revision = Some(revision);
        self.last_revision_qualified = mechanically_qualified;
        self.stable
    }

    /// Whether a revision is still stable, without taking an observation.
    pub fn is_qualified(&self, revision: &R) -> (qualified: bool)
        requires
            R::obeys_eq_spec(),
        ensures
            qualified == self.qualifies(*revision),
    {
        if !self.last_revision_qualified || !self.stable {
            return false;
        }
        match &self.last_revision {
            Some(last) => *last == *revision,
            None => false,
        }
    }
}

/// Only a fresh checkpoint can strengthen the fence, and only for a revision that an earlier fresh
/// checkpoint made the candidate and that has not changed since.
pub proof fn law_only_a_fresh_checkpoint_strengthens<R: PartialEq>(
    fence: DocumentCaptureQuietFence<R>,
    checkpoint: DocumentProducerCheckpoint,
    revision: R,
    qualified: bool,
)
    ensures
        fence.observed(checkpoint, revision, qualified).stable && !fence.stable ==> {
            &&& fence.fresh(checkpoint)
            &&& fence.quiet_candidate
            &&& fence.unchanged(revision, qualified)
            &&& qualified
        },
{
}

/// Two fresh checkpoints with one qualified revision qualify it, whatever went before.
pub proof fn law_two_fresh_checkpoints_qualify<R: PartialEq>(
    fence: DocumentCaptureQuietFence<R>,
    first: DocumentProducerCheckpoint,
    second: DocumentProducerCheckpoint,
    revision: R,
)
    requires
        revision.eq_spec(&revision),
        fence.fresh(first),
        first.0 < second.0,
    ensures
        fence.observed(first, revision, true).observed(second, revision, true).stable,
{
}

/// A revision that differs from the one seen last, or that is not qualified, is not stable.
pub proof fn law_a_change_starts_over<R: PartialEq>(
    fence: DocumentCaptureQuietFence<R>,
    checkpoint: DocumentProducerCheckpoint,
    revision: R,
    qualified: bool,
)
    requires
        !fence.holds(revision) || !qualified,
    ensures
        !fence.observed(checkpoint, revision, qualified).stable,
{
}

/// An observation gives what asking for its revision gives right after it, and a revision is given
/// as qualified only where it was qualified before, or where a later checkpoint than every one
/// before made it so. In both cases it is the revision of the observation before, qualified both
/// times.
pub proof fn law_qualification_needs_a_fresh_checkpoint<R: PartialEq>(
    fence: DocumentCaptureQuietFence<R>,
    checkpoint: DocumentProducerCheckpoint,
    revision: R,
    qualified: bool,
)
    requires
        revision.eq_spec(&revision),
    ensures
        fence.observed(checkpoint, revision, qualified).stable == fence.observed(
            checkpoint,
            revision,
            qualified,
        ).qualifies(revision),
        fence.observed(checkpoint, revision, qualified).qualifies(revision) ==> {
            &&& qualified
            &&& fence.unchanged(revision, true)
            &&& fence.qualifies(revision) || (checkpoint.0 != 0 && fence.fresh(checkpoint))
        },
        !fence.unchanged(revision, qualified) ==> !fence.observed(
            checkpoint,
            revision,
            qualified,
        ).qualifies(revision),
{
}

/// After two quiet observations at fresh checkpoints that revision is qualified and no other is.
/// The next observation of another revision, or of this one not qualified, ends that.
pub proof fn law_only_the_quiet_revision_is_qualified<R: PartialEq>(
    fence: DocumentCaptureQuietFence<R>,
    first: DocumentProducerCheckpoint,
    second: DocumentProducerCheckpoint,
    revision: R,
    third: DocumentProducerCheckpoint,
    other: R,
    other_qualified: bool,
)
    requires
        revision.eq_spec(&revision),
        other.eq_spec(&other),
        !revision.eq_spec(&other),
        !other.eq_spec(&revision),
        fence.fresh(first),
        first.0 < second.0,
    ensures
        ({
            let quiet = fence.observed(first, revision, true).observed(second, revision, true);
            let moved = quiet.observed(third, other, other_qualified);
            let failed = quiet.observed(third, revision, false);
            &&& quiet.qualifies(revision)
            &&& !quiet.qualifies(other)
            &&& !moved.qualifies(revision)
            &&& !moved.qualifies(other)
            &&& !failed.qualifies(revision)
            &&& !failed.qualifies(other)
        }),
{
}

/// Forgetting the revision leaves none qualified, and no old checkpoint becomes fresh again.
pub proof fn law_a_forgotten_revision_starts_over<R: PartialEq>(
    fence: DocumentCaptureQuietFence<R>,
    forgotten: DocumentCaptureQuietFence<R>,
    checkpoint: DocumentProducerCheckpoint,
    revision: R,
    qualified: bool,
)
    requires
        forgotten.last_checkpoint == fence.last_checkpoint,
        forgotten.last_revision is None,
    ensures
        !forgotten.qualifies(revision),
        !forgotten.observed(checkpoint, revision, qualified).qualifies(revision),
        forgotten.fresh(checkpoint) == fence.fresh(checkpoint),
{
}

/// From a fence that has seen nothing, one qualified revision seen at two checkpoints is stable
/// exactly where neither checkpoint is the zeroth and the second is the later one. Another
/// revision or a failed qualification in between takes that away: the third observation is not
/// stable, whatever its checkpoint. A checkpoint no later than one before it counts for nothing.
pub proof fn law_stable_from_the_second_later_checkpoint_on<R: PartialEq>(
    fence: DocumentCaptureQuietFence<R>,
    first: DocumentProducerCheckpoint,
    second: DocumentProducerCheckpoint,
    third: DocumentProducerCheckpoint,
    revision: R,
    other: R,
)
    requires
        fence.last_checkpoint is None,
        fence.last_revision is None,
        !fence.last_revision_qualified,
        !fence.quiet_candidate,
        !fence.stable,
        revision.eq_spec(&revision),
        !revision.eq_spec(&other),
        !other.eq_spec(&revision),
    ensures
        ({
            let once = fence.observed(first, revision, true);
            let twice = once.observed(second, revision, true);
            let thrice = twice.observed(third, revision, true);
            &&& !once.stable
            &&& twice.stable <==> 0 < first.0 < second.0
            &&& twice.stable ==> thrice.stable
            &&& thrice.stable <==> {
                ||| 0 < first.0 < second.0
                ||| 0 < first.0 < third.0
                ||| first.0 == 0 && 0 < second.0 < third.0
            }
            &&& !once.observed(second, other, true).observed(third, revision, true).stable
            &&& !once.observed(second, revision, false).observed(third, revision, true).stable
            &&& !twice.observed(third, other, true).stable
            &&& !twice.observed(third, revision, false).stable
        }),
{
}

/// Once the revision is forgotten it has to be seen again at two checkpoints that are later than
/// the last one that counted: a checkpoint that counted before does not count again.
pub proof fn law_forgotten_revision_needs_two_later_checkpoints<R: PartialEq>(
    fence: DocumentCaptureQuietFence<R>,
    last: DocumentProducerCheckpoint,
    first: DocumentProducerCheckpoint,
    second: DocumentProducerCheckpoint,
    revision: R,
)
    requires
        fence.last_checkpoint == Some(last),
        revision.eq_spec(&revision),
    ensures
        ({
            let once = fence.forgotten().observed(first, revision, true);
            &&& !once.stable
            &&& once.observed(second, revision, true).stable <==> {
                &&& last.0 < first.0
                &&& first.0 < second.0
            }
        }),
{
}

} // verus!
