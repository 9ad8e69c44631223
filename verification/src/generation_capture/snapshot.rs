//! The inventory of sources in canonical order, and the canvas generation that it binds.
use crate::canonical::{
    canonically_ordered, key_at_most, lemma_first_difference_decides, lemma_key_antisymmetric,
    lemma_text_key_splits, push_text, sort_canonically, text_key, CanonicalKey,
};
use crate::generation_capture::sources::{
    DocumentCanvasCaptureStatus, DocumentCanvasImageKey, DocumentCssAnimationState,
    DocumentCssIterationState, DocumentSettlementSource, DocumentSettlementSourceDisposition,
    DocumentSettlementSourceIdentity, DocumentSettlementSourceState,
};
use std::cmp::Ordering;
use vstd::prelude::*;
use vstd::std_specs::cmp::{PartialEqSpec, PartialOrdIs};
use vstd::utf8::{encode_utf8, encode_utf8_decode_utf8};

verus! {

/// A signed handle as an integer in the same order.
pub open spec fn spec_handle_key(handle: i32) -> u128 {
    (handle + 0x8000_0000) as u128
}

#[verifier::when_used_as_spec(spec_handle_key)]
pub fn handle_key(handle: i32) -> (key: u128)
    ensures
        key == spec_handle_key(handle),
{
    (handle as i64 + 0x8000_0000) as u128
}

pub open spec fn bool_key(value: bool) -> u128 {
    if value {
        1
    } else {
        0
    }
}

fn key_of_bool(value: bool) -> (key: u128)
    ensures
        key == bool_key(value),
{
    if value {
        1
    } else {
        0
    }
}

impl DocumentCssAnimationState {
    /// The place among the variants, and what the variant holds.
    pub open spec fn slots(self) -> Seq<u128> {
        match self {
            DocumentCssAnimationState::Pending => seq![0, 0],
            DocumentCssAnimationState::Running => seq![1, 0],
            DocumentCssAnimationState::Paused(bits) => seq![2, bits as u128],
            DocumentCssAnimationState::Finished => seq![3, 0],
            DocumentCssAnimationState::Canceled => seq![4, 0],
        }
    }

    fn push_slots(self, key: &mut Vec<u128>)
        ensures
            final(key)@ == old(key)@ + self.slots(),
    {
        let (place, held): (u128, u128) = match self {
            DocumentCssAnimationState::Pending => (0, 0),
            DocumentCssAnimationState::Running => (1, 0),
            DocumentCssAnimationState::Paused(bits) => (2, bits as u128),
            DocumentCssAnimationState::Finished => (3, 0),
            DocumentCssAnimationState::Canceled => (4, 0),
        };
        key.push(place);
        key.push(held);
        assert(key@ =~= old(key)@ + self.slots());
    }
}

impl DocumentCssIterationState {
    /// The place among the variants, and what the variant holds.
    pub open spec fn slots(self) -> Seq<u128> {
        match self {
            DocumentCssIterationState::Finite { current_bits, max_bits } => seq![
                0,
                current_bits as u128,
                max_bits as u128,
            ],
            DocumentCssIterationState::Infinite { current_bits } => seq![1, current_bits as u128, 0],
        }
    }

    fn push_slots(self, key: &mut Vec<u128>)
        ensures
            final(key)@ == old(key)@ + self.slots(),
    {
        let (place, current, max): (u128, u128, u128) = match self {
            DocumentCssIterationState::Finite { current_bits, max_bits } => (
                0,
                current_bits as u128,
                max_bits as u128,
            ),
            DocumentCssIterationState::Infinite { current_bits } => (1, current_bits as u128, 0),
        };
        key.push(place);
        key.push(current);
        key.push(max);
        assert(key@ =~= old(key)@ + self.slots());
    }
}

impl DocumentSettlementSourceIdentity {
    /// The place among the variants, and the fixed part of what the variant holds.
    pub open spec fn slots(self) -> Seq<u128> {
        match self {
            DocumentSettlementSourceIdentity::CssAnimation {
                pipeline_id,
                node_id,
                pseudo_element,
                slot,
                name,
            } => seq![
                0,
                pipeline_id.0 as u128,
                node_id as u128,
                bool_key(pseudo_element is Some),
                match pseudo_element {
                    Some(value) => value as u128,
                    None => 0,
                },
                slot as u128,
            ],
            DocumentSettlementSourceIdentity::CssTransition {
                pipeline_id,
                node_id,
                pseudo_element,
                slot,
                property,
            } => seq![
                1,
                pipeline_id.0 as u128,
                node_id as u128,
                bool_key(pseudo_element is Some),
                match pseudo_element {
                    Some(value) => value as u128,
                    None => 0,
                },
                slot as u128,
            ],
            DocumentSettlementSourceIdentity::Timer {
                pipeline_id,
                scheduler_handle,
                dom_handle,
                creation_sequence,
            } => seq![
                2,
                pipeline_id.0 as u128,
                handle_key(scheduler_handle),
                bool_key(dom_handle is Some),
                match dom_handle {
                    Some(handle) => handle_key(handle),
                    None => 0,
                },
                creation_sequence as u128,
            ],
            DocumentSettlementSourceIdentity::AnimationFrame { pipeline_id, callback_id } => seq![
                3,
                pipeline_id.0 as u128,
                callback_id as u128,
                0,
                0,
                0,
            ],
            DocumentSettlementSourceIdentity::TrackedPresence { pipeline_id, kind } => seq![
                4,
                pipeline_id.0 as u128,
                kind.rank(),
                0,
                0,
                0,
            ],
            DocumentSettlementSourceIdentity::Canvas2d { pipeline_id, node_id, canvas_id } => seq![
                5,
                pipeline_id.0 as u128,
                node_id as u128,
                canvas_id as u128,
                0,
                0,
            ],
            DocumentSettlementSourceIdentity::UnsupportedDomNode {
                pipeline_id,
                node_id,
                reason,
            } => seq![6, pipeline_id.0 as u128, node_id as u128, reason.rank(), 0, 0],
        }
    }

    /// The text that the identity ends with, as integers.
    pub open spec fn text_slots(self) -> Seq<u128> {
        match self {
            DocumentSettlementSourceIdentity::CssAnimation { name, .. } => text_key(
                encode_utf8(name@),
            ),
            DocumentSettlementSourceIdentity::CssTransition { property, .. } => text_key(
                encode_utf8(property@),
            ),
            _ => Seq::empty(),
        }
    }

    fn push_slots(&self, key: &mut Vec<u128>)
        ensures
            final(key)@ == old(key)@ + (self.slots() + self.text_slots()),
    {
        let ghost before = key@;
        match self {
            DocumentSettlementSourceIdentity::CssAnimation {
                pipeline_id,
                node_id,
                pseudo_element,
                slot,
                name,
            } => {
                let (present, value): (u128, u128) = match pseudo_element {
                    Some(value) => (1, *value as u128),
                    None => (0, 0),
                };
                push_six(
                    key,
                    0,
                    pipeline_id.0 as u128,
                    *node_id as u128,
                    present,
                    value,
                    *slot as u128,
                );
                assert(key@ =~= before + self.slots());
                push_text(key, name);
            },
            DocumentSettlementSourceIdentity::CssTransition {
                pipeline_id,
                node_id,
                pseudo_element,
                slot,
                property,
            } => {
                let (present, value): (u128, u128) = match pseudo_element {
                    Some(value) => (1, *value as u128),
                    None => (0, 0),
                };
                push_six(
                    key,
                    1,
                    pipeline_id.0 as u128,
                    *node_id as u128,
                    present,
                    value,
                    *slot as u128,
                );
                assert(key@ =~= before + self.slots());
                push_text(key, property);
            },
            DocumentSettlementSourceIdentity::Timer {
                pipeline_id,
                scheduler_handle,
                dom_handle,
                creation_sequence,
            } => {
                let (present, value): (u128, u128) = match dom_handle {
                    Some(handle) => (1, handle_key(*handle)),
                    None => (0, 0),
                };
                push_six(
                    key,
                    2,
                    pipeline_id.0 as u128,
                    handle_key(*scheduler_handle),
                    present,
                    value,
                    *creation_sequence as u128,
                );
            },
            DocumentSettlementSourceIdentity::AnimationFrame { pipeline_id, callback_id } => {
                push_six(key, 3, pipeline_id.0 as u128, *callback_id as u128, 0, 0, 0);
            },
            DocumentSettlementSourceIdentity::TrackedPresence { pipeline_id, kind } => {
                push_six(key, 4, pipeline_id.0 as u128, kind.rank(), 0, 0, 0);
            },
            DocumentSettlementSourceIdentity::Canvas2d { pipeline_id, node_id, canvas_id } => {
                push_six(
                    key,
                    5,
                    pipeline_id.0 as u128,
                    *node_id as u128,
                    *canvas_id as u128,
                    0,
                    0,
                );
            },
            DocumentSettlementSourceIdentity::UnsupportedDomNode {
                pipeline_id,
                node_id,
                reason,
            } => {
                push_six(key, 6, pipeline_id.0 as u128, *node_id as u128, reason.rank(), 0, 0);
            },
        }
        assert(key@ =~= before + (self.slots() + self.text_slots()));
    }

    /// The same source: the same variant with the same fields, texts by their characters.
    pub open spec fn same(self, other: Self) -> bool {
        match (self, other) {
            (
                DocumentSettlementSourceIdentity::CssAnimation {
                    pipeline_id,
                    node_id,
                    pseudo_element,
                    slot,
                    name,
                },
                DocumentSettlementSourceIdentity::CssAnimation {
                    pipeline_id: other_pipeline,
                    node_id: other_node,
                    pseudo_element: other_pseudo,
                    slot: other_slot,
                    name: other_name,
                },
            ) => {
                &&& pipeline_id == other_pipeline
                &&& node_id == other_node
                &&& pseudo_element == other_pseudo
                &&& slot == other_slot
                &&& name@ == other_name@
            },
            (
                DocumentSettlementSourceIdentity::CssTransition {
                    pipeline_id,
                    node_id,
                    pseudo_element,
                    slot,
                    property,
                },
                DocumentSettlementSourceIdentity::CssTransition {
                    pipeline_id: other_pipeline,
                    node_id: other_node,
                    pseudo_element: other_pseudo,
                    slot: other_slot,
                    property: other_property,
                },
            ) => {
                &&& pipeline_id == other_pipeline
                &&& node_id == other_node
                &&& pseudo_element == other_pseudo
                &&& slot == other_slot
                &&& property@ == other_property@
            },
            _ => self == other,
        }
    }
}

fn push_six(
    key: &mut Vec<u128>,
    first: u128,
    second: u128,
    third: u128,
    fourth: u128,
    fifth: u128,
    sixth: u128,
)
    ensures
        final(key)@ == old(key)@ + seq![first, second, third, fourth, fifth, sixth],
{
    key.push(first);
    key.push(second);
    key.push(third);
    key.push(fourth);
    key.push(fifth);
    key.push(sixth);
    assert(key@ =~= old(key)@ + seq![first, second, third, fourth, fifth, sixth]);
}

impl DocumentSettlementSourceState {
    /// The place among the variants, and what the variant holds.
    pub open spec fn slots(self) -> Seq<u128> {
        match self {
            DocumentSettlementSourceState::CssAnimation {
                state,
                iteration,
                started_at_bits,
                duration_bits,
                delay_bits,
                timeline_now_bits,
            } => seq![0u128] + state.slots() + iteration.slots() + seq![
                started_at_bits as u128,
                duration_bits as u128,
                delay_bits as u128,
                timeline_now_bits as u128,
            ],
            DocumentSettlementSourceState::CssTransition {
                state,
                start_time_bits,
                duration_bits,
                delay_bits,
                timeline_now_bits,
            } => seq![1u128] + state.slots() + seq![
                start_time_bits as u128,
                duration_bits as u128,
                delay_bits as u128,
                timeline_now_bits as u128,
            ],
            DocumentSettlementSourceState::Timer { deadline, is_interval } => seq![
                2,
                deadline.0,
                bool_key(is_interval),
            ],
            DocumentSettlementSourceState::AnimationFrame { active } => seq![3, bool_key(active)],
            DocumentSettlementSourceState::TrackedPresence { blocking_count } => seq![
                4,
                blocking_count as u128,
            ],
            DocumentSettlementSourceState::Canvas2d {
                image_key,
                width,
                height,
                registry_generation,
                status,
            } => seq![
                5,
                bool_key(image_key is Some),
                match image_key {
                    Some(key) => key.namespace as u128,
                    None => 0,
                },
                match image_key {
                    Some(key) => key.key as u128,
                    None => 0,
                },
                width as u128,
                height as u128,
                bool_key(registry_generation is Some),
                match registry_generation {
                    Some(generation) => generation as u128,
                    None => 0,
                },
                status.rank(),
            ],
            DocumentSettlementSourceState::UnsupportedDomNode => seq![6u128],
        }
    }

    fn push_slots(self, key: &mut Vec<u128>)
        ensures
            final(key)@ == old(key)@ + self.slots(),
    {
        let ghost before = key@;
        match self {
            DocumentSettlementSourceState::CssAnimation {
                state,
                iteration,
                started_at_bits,
                duration_bits,
                delay_bits,
                timeline_now_bits,
            } => {
                key.push(0);
                state.push_slots(key);
                iteration.push_slots(key);
                key.push(started_at_bits as u128);
                key.push(duration_bits as u128);
                key.push(delay_bits as u128);
                key.push(timeline_now_bits as u128);
            },
            DocumentSettlementSourceState::CssTransition {
                state,
                start_time_bits,
                duration_bits,
                delay_bits,
                timeline_now_bits,
            } => {
                key.push(1);
                state.push_slots(key);
                key.push(start_time_bits as u128);
                key.push(duration_bits as u128);
                key.push(delay_bits as u128);
                key.push(timeline_now_bits as u128);
            },
            DocumentSettlementSourceState::Timer { deadline, is_interval } => {
                key.push(2);
                key.push(deadline.0);
                key.push(key_of_bool(is_interval));
            },
            DocumentSettlementSourceState::AnimationFrame { active } => {
                key.push(3);
                key.push(key_of_bool(active));
            },
            DocumentSettlementSourceState::TrackedPresence { blocking_count } => {
                key.push(4);
                key.push(blocking_count as u128);
            },
            DocumentSettlementSourceState::Canvas2d {
                image_key,
                width,
                height,
                registry_generation,
                status,
            } => {
                let (has_key, namespace, image): (u128, u128, u128) = match image_key {
                    Some(image_key) => (1, image_key.namespace as u128, image_key.key as u128),
                    None => (0, 0, 0),
                };
                let (has_generation, generation): (u128, u128) = match registry_generation {
                    Some(generation) => (1, generation as u128),
                    None => (0, 0),
                };
                key.push(5);
                key.push(has_key);
                key.push(namespace);
                key.push(image);
                key.push(width as u128);
                key.push(height as u128);
                key.push(has_generation);
                key.push(generation);
                key.push(status.rank());
            },
            DocumentSettlementSourceState::UnsupportedDomNode => {
                key.push(6);
            },
        }
        assert(key@ =~= before + self.slots());
    }
}

impl DocumentSettlementSourceDisposition {
    /// The place among the variants, and what the variant holds.
    pub open spec fn slots(self) -> Seq<u128> {
        match self {
            DocumentSettlementSourceDisposition::Inert => seq![0, 0],
            DocumentSettlementSourceDisposition::FiniteDeadline(time) => seq![1, time.0],
            DocumentSettlementSourceDisposition::FiniteRenderingOpportunity => seq![2, 0],
            DocumentSettlementSourceDisposition::OpenEnded(reason) => seq![3, reason.rank()],
            DocumentSettlementSourceDisposition::Unsupported(reason) => seq![4, reason.rank()],
        }
    }

    fn push_slots(self, key: &mut Vec<u128>)
        ensures
            final(key)@ == old(key)@ + self.slots(),
    {
        let (place, held): (u128, u128) = match self {
            DocumentSettlementSourceDisposition::Inert => (0, 0),
            DocumentSettlementSourceDisposition::FiniteDeadline(time) => (1, time.0),
            DocumentSettlementSourceDisposition::FiniteRenderingOpportunity => (2, 0),
            DocumentSettlementSourceDisposition::OpenEnded(reason) => (3, reason.rank()),
            DocumentSettlementSourceDisposition::Unsupported(reason) => (4, reason.rank()),
        };
        key.push(place);
        key.push(held);
        assert(key@ =~= old(key)@ + self.slots());
    }
}

impl CanonicalKey for DocumentSettlementSource {
    open spec fn order_key(&self) -> Seq<u128> {
        self.identity.slots() + (self.identity.text_slots() + (self.state.slots()
            + self.disposition.slots()))
    }

    fn canonical_key(&self) -> (key: Vec<u128>) {
        let mut key: Vec<u128> = Vec::new();
        self.identity.push_slots(&mut key);
        self.state.push_slots(&mut key);
        self.disposition.push_slots(&mut key);
        assert(key@ =~= self.order_key());
        key
    }
}

impl CanonicalKey for DocumentCanvasImageKey {
    open spec fn order_key(&self) -> Seq<u128> {
        seq![self.namespace as u128, self.key as u128]
    }

    fn canonical_key(&self) -> (key: Vec<u128>) {
        let mut key: Vec<u128> = Vec::new();
        key.push(self.namespace as u128);
        key.push(self.key as u128);
        assert(key@ =~= CanonicalKey::order_key(self));
        key
    }
}

/// A source can be read back from its key: sources with the same key are the same, in identity,
/// state and disposition.
pub proof fn law_source_key_identifies(left: DocumentSettlementSource, right: DocumentSettlementSource)
    requires
        CanonicalKey::order_key(&left) == CanonicalKey::order_key(&right),
    ensures
        left.identity.same(right.identity),
        left.state == right.state,
        left.disposition == right.disposition,
{
    let a = left.order_key();
    let b = right.order_key();
    let a_rest = left.state.slots() + left.disposition.slots();
    let b_rest = right.state.slots() + right.disposition.slots();
    assert(left.identity.slots().len() == 6 && right.identity.slots().len() == 6);
    assert forall|i: int| 0 <= i < 6 implies left.identity.slots()[i]
        == #[trigger] right.identity.slots()[i] by {
        assert(a[i] == left.identity.slots()[i]);
        assert(b[i] == right.identity.slots()[i]);
    }
    lemma_same_slots(left.identity, right.identity);
    let a_tail = left.identity.text_slots() + a_rest;
    let b_tail = right.identity.text_slots() + b_rest;
    assert(a.skip(6) =~= a_tail);
    assert(b.skip(6) =~= b_tail);
    match (left.identity, right.identity) {
        (
            DocumentSettlementSourceIdentity::CssAnimation { name, .. },
            DocumentSettlementSourceIdentity::CssAnimation { name: other, .. },
        ) => {
            lemma_text_key_splits(encode_utf8(name@), a_rest, encode_utf8(other@), b_rest);
            encode_utf8_decode_utf8(name@);
            encode_utf8_decode_utf8(other@);
        },
        (
            DocumentSettlementSourceIdentity::CssTransition { property, .. },
            DocumentSettlementSourceIdentity::CssTransition { property: other, .. },
        ) => {
            lemma_text_key_splits(encode_utf8(property@), a_rest, encode_utf8(other@), b_rest);
            encode_utf8_decode_utf8(property@);
            encode_utf8_decode_utf8(other@);
        },
        _ => {
            assert(a_tail =~= a_rest);
            assert(b_tail =~= b_rest);
        },
    }
    assert(a_rest == b_rest);
    lemma_state_and_disposition(left.state, left.disposition, right.state, right.disposition);
}

/// The fixed part of an identity determines the variant and every field but a text.
proof fn lemma_same_slots(
    left: DocumentSettlementSourceIdentity,
    right: DocumentSettlementSourceIdentity,
)
    requires
        forall|i: int| 0 <= i < 6 ==> left.slots()[i] == #[trigger] right.slots()[i],
    ensures
        match (left, right) {
            (
                DocumentSettlementSourceIdentity::CssAnimation {
                    pipeline_id,
                    node_id,
                    pseudo_element,
                    slot,
                    name,
                },
                DocumentSettlementSourceIdentity::CssAnimation {
                    pipeline_id: other_pipeline,
                    node_id: other_node,
                    pseudo_element: other_pseudo,
                    slot: other_slot,
                    name: other_name,
                },
            ) => {
                &&& pipeline_id == other_pipeline
                &&& node_id == other_node
                &&& pseudo_element == other_pseudo
                &&& slot == other_slot
            },
            (
                DocumentSettlementSourceIdentity::CssTransition {
                    pipeline_id,
                    node_id,
                    pseudo_element,
                    slot,
                    property,
                },
                DocumentSettlementSourceIdentity::CssTransition {
                    pipeline_id: other_pipeline,
                    node_id: other_node,
                    pseudo_element: other_pseudo,
                    slot: other_slot,
                    property: other_property,
                },
            ) => {
                &&& pipeline_id == other_pipeline
                &&& node_id == other_node
                &&& pseudo_element == other_pseudo
                &&& slot == other_slot
            },
            _ => left == right,
        },
{
    assert(left.slots()[0] == right.slots()[0]);
    assert(left.slots()[1] == right.slots()[1]);
    assert(left.slots()[2] == right.slots()[2]);
    assert(left.slots()[3] == right.slots()[3]);
    assert(left.slots()[4] == right.slots()[4]);
    assert(left.slots()[5] == right.slots()[5]);
}

proof fn lemma_state_and_disposition(
    left: DocumentSettlementSourceState,
    left_disposition: DocumentSettlementSourceDisposition,
    right: DocumentSettlementSourceState,
    right_disposition: DocumentSettlementSourceDisposition,
)
    requires
        left.slots() + left_disposition.slots() == right.slots() + right_disposition.slots(),
    ensures
        left == right,
        left_disposition == right_disposition,
{
    let a = left.slots() + left_disposition.slots();
    let b = right.slots() + right_disposition.slots();
    let count = left.slots().len() as int;
    assert(a[0] == left.slots()[0] && b[0] == right.slots()[0]);
    assert(right.slots().len() == count);
    assert forall|i: int| 0 <= i < count implies left.slots()[i] == #[trigger] right.slots()[i] by {
        assert(a[i] == left.slots()[i]);
        assert(b[i] == right.slots()[i]);
    }
    assert(a[count] == left_disposition.slots()[0] && b[count] == right_disposition.slots()[0]);
    assert(a[count + 1] == left_disposition.slots()[1] && b[count + 1]
        == right_disposition.slots()[1]);
    match (left, right) {
        (
            DocumentSettlementSourceState::CssAnimation { state, iteration, .. },
            DocumentSettlementSourceState::CssAnimation {
                state: other_state,
                iteration: other_iteration,
                ..
            },
        ) => {
            assert(right.slots()[1] == other_state.slots()[0]);
            assert(right.slots()[2] == other_state.slots()[1]);
            assert(left.slots()[1] == state.slots()[0]);
            assert(left.slots()[2] == state.slots()[1]);
            assert(right.slots()[3] == other_iteration.slots()[0]);
            assert(right.slots()[4] == other_iteration.slots()[1]);
            assert(right.slots()[5] == other_iteration.slots()[2]);
            assert(left.slots()[3] == iteration.slots()[0]);
            assert(left.slots()[4] == iteration.slots()[1]);
            assert(left.slots()[5] == iteration.slots()[2]);
            assert(left.slots()[6] == right.slots()[6]);
            assert(left.slots()[7] == right.slots()[7]);
            assert(left.slots()[8] == right.slots()[8]);
            assert(left.slots()[9] == right.slots()[9]);
        },
        (
            DocumentSettlementSourceState::CssTransition { state, .. },
            DocumentSettlementSourceState::CssTransition { state: other_state, .. },
        ) => {
            assert(right.slots()[1] == other_state.slots()[0]);
            assert(right.slots()[2] == other_state.slots()[1]);
            assert(left.slots()[1] == state.slots()[0]);
            assert(left.slots()[2] == state.slots()[1]);
            assert(left.slots()[3] == right.slots()[3]);
            assert(left.slots()[4] == right.slots()[4]);
            assert(left.slots()[5] == right.slots()[5]);
            assert(left.slots()[6] == right.slots()[6]);
        },
        (
            DocumentSettlementSourceState::Timer { .. },
            DocumentSettlementSourceState::Timer { .. },
        ) => {
            assert(left.slots()[1] == right.slots()[1]);
            assert(left.slots()[2] == right.slots()[2]);
        },
        (
            DocumentSettlementSourceState::AnimationFrame { .. },
            DocumentSettlementSourceState::AnimationFrame { .. },
        ) => {
            assert(left.slots()[1] == right.slots()[1]);
        },
        (
            DocumentSettlementSourceState::TrackedPresence { .. },
            DocumentSettlementSourceState::TrackedPresence { .. },
        ) => {
            assert(left.slots()[1] == right.slots()[1]);
        },
        (
            DocumentSettlementSourceState::Canvas2d { .. },
            DocumentSettlementSourceState::Canvas2d { .. },
        ) => {
            assert(left.slots()[1] == right.slots()[1]);
            assert(left.slots()[2] == right.slots()[2]);
            assert(left.slots()[3] == right.slots()[3]);
            assert(left.slots()[4] == right.slots()[4]);
            assert(left.slots()[5] == right.slots()[5]);
            assert(left.slots()[6] == right.slots()[6]);
            assert(left.slots()[7] == right.slots()[7]);
            assert(left.slots()[8] == right.slots()[8]);
        },
        _ => {},
    }
}

/// The number of an inventory.
#[derive(Clone, Copy, Debug, Eq, Ord, Hash)]
pub struct DocumentSettlementSourceEpoch(pub u64);

impl PartialEq for DocumentSettlementSourceEpoch {
    fn eq(&self, other: &Self) -> (same: bool) {
        self.0 == other.0
    }
}

impl vstd::std_specs::cmp::PartialEqSpecImpl for DocumentSettlementSourceEpoch {
    open spec fn obeys_eq_spec() -> bool {
        true
    }

    open spec fn eq_spec(&self, other: &Self) -> bool {
        self.0 == other.0
    }
}

impl PartialOrd for DocumentSettlementSourceEpoch {
    fn partial_cmp(&self, other: &Self) -> (order: Option<Ordering>) {
        if self.0 < other.0 {
            Some(Ordering::Less)
        } else if self.0 > other.0 {
            Some(Ordering::Greater)
        } else {
            Some(Ordering::Equal)
        }
    }
}

impl vstd::std_specs::cmp::PartialOrdSpecImpl for DocumentSettlementSourceEpoch {
    open spec fn obeys_partial_cmp_spec() -> bool {
        true
    }

    open spec fn partial_cmp_spec(&self, other: &Self) -> Option<Ordering> {
        if self.0 < other.0 {
            Some(Ordering::Less)
        } else if self.0 > other.0 {
            Some(Ordering::Greater)
        } else {
            Some(Ordering::Equal)
        }
    }
}

impl DocumentSettlementSourceEpoch {
    pub fn new(sequence: u64) -> (epoch: Self)
        ensures
            epoch == DocumentSettlementSourceEpoch(sequence),
    {
        DocumentSettlementSourceEpoch(sequence)
    }

    pub fn get(self) -> (sequence: u64)
        ensures
            sequence == self.0,
    {
        self.0
    }
}

/// Epochs keep their numbers, and compare as the numbers do.
pub proof fn law_epochs_compare_as_their_numbers(left: u64, right: u64)
    ensures
        DocumentSettlementSourceEpoch(left) == DocumentSettlementSourceEpoch(right) <==> left
            == right,
        DocumentSettlementSourceEpoch(left).eq_spec(&DocumentSettlementSourceEpoch(right))
            <==> left == right,
        DocumentSettlementSourceEpoch(left).is_lt(&DocumentSettlementSourceEpoch(right)) <==> left
            < right,
{
}

/// An inventory of sources in canonical order.
#[derive(Clone, Debug, PartialEq, Eq)]
pub struct DocumentSettlementSourceSnapshot {
    pub source_epoch: DocumentSettlementSourceEpoch,
    pub sources: Vec<DocumentSettlementSource>,
}

/// The canvas generation and the canvas images that an inventory binds.
#[derive(Clone, Debug, PartialEq, Eq)]
pub struct DocumentCanvasCaptureBinding {
    pub registry_generation: u64,
    pub image_keys: Vec<DocumentCanvasImageKey>,
}

impl DocumentCanvasCaptureBinding {
    pub fn registry_generation(&self) -> (generation: u64)
        ensures
            generation == self.registry_generation,
    {
        self.registry_generation
    }

    pub fn image_keys(&self) -> (keys: &[DocumentCanvasImageKey])
        ensures
            keys@ == self.image_keys@,
    {
        self.image_keys.as_slice()
    }
}

/// Why an inventory binds no single canvas generation.
#[derive(Clone, Copy, Debug, PartialEq, Eq, Structural)]
pub enum DocumentCanvasCaptureBindingError {
    MalformedSource,
    SourceNotReady,
    MissingImageKey,
    MissingGeneration,
    MixedGeneration,
    DuplicateImageKey,
}

/// What a canvas source contributes: its image and its generation, or the fault it has. Other
/// sources contribute nothing.
pub open spec fn canvas_contribution(source: DocumentSettlementSource) -> Option<
    Result<(DocumentCanvasImageKey, u64), DocumentCanvasCaptureBindingError>,
> {
    if !(source.identity is Canvas2d) {
        None
    } else {
        Some(
            match source.state {
                DocumentSettlementSourceState::Canvas2d {
                    image_key,
                    registry_generation,
                    status,
                    ..
                } => if !(status is Ready) || !(source.disposition is Inert) {
                    Err(DocumentCanvasCaptureBindingError::SourceNotReady)
                } else {
                    match (image_key, registry_generation) {
                        (None, _) => Err(DocumentCanvasCaptureBindingError::MissingImageKey),
                        (_, None) => Err(DocumentCanvasCaptureBindingError::MissingGeneration),
                        (Some(key), Some(generation)) => Ok((key, generation)),
                    }
                },
                _ => Err(DocumentCanvasCaptureBindingError::MalformedSource),
            },
        )
    }
}

/// The generation and the images of the canvas sources from `index` on, after those in `found`; the
/// first fault decides.
pub open spec fn canvases_from(
    sources: Seq<DocumentSettlementSource>,
    index: int,
    generation: Option<u64>,
    found: Seq<DocumentCanvasImageKey>,
) -> Result<(Option<u64>, Seq<DocumentCanvasImageKey>), DocumentCanvasCaptureBindingError>
    decreases sources.len() - index,
{
    if index < 0 || index >= sources.len() {
        Ok((generation, found))
    } else {
        match canvas_contribution(sources[index]) {
            None => canvases_from(sources, index + 1, generation, found),
            Some(Err(error)) => Err(error),
            Some(Ok((key, observed))) => if generation is Some && generation != Some(observed) {
                Err(DocumentCanvasCaptureBindingError::MixedGeneration)
            } else {
                canvases_from(sources, index + 1, Some(observed), found.push(key))
            },
        }
    }
}

fn canvas_source(source: &DocumentSettlementSource) -> (contribution: Option<
    Result<(DocumentCanvasImageKey, u64), DocumentCanvasCaptureBindingError>,
>)
    ensures
        contribution == canvas_contribution(*source),
{
    match &source.identity {
        DocumentSettlementSourceIdentity::Canvas2d { .. } => {},
        _ => {
            return None;
        },
    }
    Some(
        match source.state {
            DocumentSettlementSourceState::Canvas2d {
                image_key,
                registry_generation,
                status,
                ..
            } => {
                let inert = matches!(
                    source.disposition,
                    DocumentSettlementSourceDisposition::Inert
                );
                if status != DocumentCanvasCaptureStatus::Ready || !inert {
                    Err(DocumentCanvasCaptureBindingError::SourceNotReady)
                } else {
                    match (image_key, registry_generation) {
                        (None, _) => Err(DocumentCanvasCaptureBindingError::MissingImageKey),
                        (_, None) => Err(DocumentCanvasCaptureBindingError::MissingGeneration),
                        (Some(key), Some(generation)) => Ok((key, generation)),
                    }
                }
            },
            _ => Err(DocumentCanvasCaptureBindingError::MalformedSource),
        },
    )
}

proof fn lemma_image_key_order(left: DocumentCanvasImageKey, right: DocumentCanvasImageKey)
    requires
        CanonicalKey::order_key(&left) == CanonicalKey::order_key(&right),
    ensures
        left == right,
{
    let a = CanonicalKey::order_key(&left);
    let b = CanonicalKey::order_key(&right);
    assert(a[0] == b[0]);
    assert(a[1] == b[1]);
}

fn has_adjacent_duplicates(keys: &Vec<DocumentCanvasImageKey>) -> (found: bool)
    requires
        canonically_ordered(keys@),
    ensures
        found == !keys@.no_duplicates(),
{
    let mut index: usize = 1;
    while index < keys.len()
        invariant
            1 <= index,
            canonically_ordered(keys@),
            forall|i: int| 1 <= i < index && i < keys@.len() ==> keys@[i - 1] != #[trigger] keys@[i],
        decreases keys.len() - index,
    {
        if keys[index - 1] == keys[index] {
            assert(keys@[index - 1] == keys@[index as int]);
            return true;
        }
        index = index + 1;
    }
    proof {
        assert forall|i: int, j: int| 0 <= i < j < keys@.len() implies keys@[i] != keys@[j] by {
            if keys@[i] == keys@[j] {
                assert(key_at_most(keys@[j - 1].order_key(), keys@[j].order_key()));
                assert(key_at_most(keys@[i].order_key(), keys@[j - 1].order_key()));
                lemma_key_antisymmetric(keys@[j - 1].order_key(), keys@[j].order_key());
                lemma_image_key_order(keys@[j - 1], keys@[j]);
            }
        }
    }
    false
}

impl DocumentSettlementSourceSnapshot {
    /// The inventory is in canonical order.
    pub open spec fn wf(self) -> bool {
        canonically_ordered(self.sources@)
    }

    /// An inventory of exactly these sources.
    pub fn new_internal(
        source_epoch: DocumentSettlementSourceEpoch,
        sources: Vec<DocumentSettlementSource>,
    ) -> (snapshot: Self)
        ensures
            snapshot.source_epoch == source_epoch,
            snapshot.wf(),
            snapshot.sources@.to_multiset() == sources@.to_multiset(),
            snapshot.sources@.len() == sources@.len(),
    {
        DocumentSettlementSourceSnapshot { source_epoch, sources: sort_canonically(sources) }
    }

    pub fn source_epoch(&self) -> (epoch: DocumentSettlementSourceEpoch)
        ensures
            epoch == self.source_epoch,
    {
        self.source_epoch
    }

    pub fn sources(&self) -> (sources: &[DocumentSettlementSource])
        ensures
            sources@ == self.sources@,
    {
        self.sources.as_slice()
    }

    /// The canvas generation that the inventory binds, with its images in order; none where there
    /// is no canvas. All canvases must be ready, of one generation, each with an image of its own.
    pub fn canvas_capture_binding(&self) -> (binding: Result<
        Option<DocumentCanvasCaptureBinding>,
        DocumentCanvasCaptureBindingError,
    >)
        ensures
            match canvases_from(self.sources@, 0, None, Seq::empty()) {
                Err(error) => binding == Err::<
                    Option<DocumentCanvasCaptureBinding>,
                    DocumentCanvasCaptureBindingError,
                >(error),
                Ok((None, _)) => binding == Ok::<
                    Option<DocumentCanvasCaptureBinding>,
                    DocumentCanvasCaptureBindingError,
                >(None),
                Ok((Some(generation), keys)) => if keys.no_duplicates() {
                    &&& binding matches Ok(Some(bound))
                    &&& bound.registry_generation == generation
                    &&& canonically_ordered(bound.image_keys@)
                    &&& bound.image_keys@.to_multiset() == keys.to_multiset()
                } else {
                    binding == Err::<
                        Option<DocumentCanvasCaptureBinding>,
                        DocumentCanvasCaptureBindingError,
                    >(DocumentCanvasCaptureBindingError::DuplicateImageKey)
                },
            },
    {
        let mut registry_generation: Option<u64> = None;
        let mut image_keys: Vec<DocumentCanvasImageKey> = Vec::new();
        let mut index: usize = 0;
        while index < self.sources.len()
            invariant
                index <= self.sources@.len(),
                canvases_from(self.sources@, index as int, registry_generation, image_keys@)
                    == canvases_from(self.sources@, 0, None, Seq::empty()),
            decreases self.sources.len() - index,
        {
            match canvas_source(&self.sources[index]) {
                None => {},
                Some(Err(error)) => {
                    return Err(error);
                },
                Some(Ok((key, observed))) => {
                    if let Some(expected) = registry_generation {
                        if expected != observed {
                            return Err(DocumentCanvasCaptureBindingError::MixedGeneration);
                        }
                    }
                    registry_generation = Some(observed);
                    image_keys.push(key);
                },
            }
            index = index + 1;
        }
        match registry_generation {
            None => Ok(None),
            Some(registry_generation) => {
                let ghost keys = image_keys@;
                let image_keys = sort_canonically(image_keys);
                proof {
                    lemma_duplicates_by_multiset(keys, image_keys@);
                }
                if has_adjacent_duplicates(&image_keys) {
                    return Err(DocumentCanvasCaptureBindingError::DuplicateImageKey);
                }
                Ok(Some(DocumentCanvasCaptureBinding { registry_generation, image_keys }))
            },
        }
    }

    pub open spec fn spec_is_settled(&self) -> bool {
        forall|i: int|
            0 <= i < self.sources@.len() ==> (#[trigger] self.sources@[i]).disposition is Inert
    }

    /// No source has anything left to do.
    #[verifier::when_used_as_spec(spec_is_settled)]
    pub fn is_settled(&self) -> (settled: bool)
        ensures
            settled == self.spec_is_settled(),
    {
        let mut index: usize = 0;
        while index < self.sources.len()
            invariant
                index <= self.sources@.len(),
                forall|i: int|
                    0 <= i < index ==> (#[trigger] self.sources@[i]).disposition is Inert,
            decreases self.sources.len() - index,
        {
            let inert = matches!(
                self.sources[index].disposition,
                DocumentSettlementSourceDisposition::Inert
            );
            if !inert {
                assert(!(self.sources@[index as int].disposition is Inert));
                return false;
            }
            index = index + 1;
        }
        true
    }

    /// A source has work at a deadline or at a rendering opportunity.
    pub open spec fn finite_work(self) -> bool {
        exists|i: int|
            0 <= i < self.sources@.len() && ((#[trigger] self.sources@[i]).disposition
                is FiniteDeadline || self.sources@[i].disposition is FiniteRenderingOpportunity)
    }

    /// A source can have work forever.
    pub open spec fn open_ended_work(self) -> bool {
        exists|i: int|
            0 <= i < self.sources@.len() && (#[trigger] self.sources@[i]).disposition is OpenEnded
    }

    /// It cannot be shown how some source settles.
    pub open spec fn unsupported_work(self) -> bool {
        exists|i: int|
            0 <= i < self.sources@.len() && (#[trigger] self.sources@[i]).disposition
                is Unsupported
    }

    /// Whether a source has finite work, open-ended work, or work that cannot be shown to settle.
    pub fn remaining_work(&self) -> (work: (bool, bool, bool))
        ensures
            work == (self.finite_work(), self.open_ended_work(), self.unsupported_work()),
    {
        let mut finite = false;
        let mut open_ended = false;
        let mut unsupported = false;
        let mut index: usize = 0;
        while index < self.sources.len()
            invariant
                index <= self.sources@.len(),
                finite == exists|i: int|
                    0 <= i < index && ((#[trigger] self.sources@[i]).disposition is FiniteDeadline
                        || self.sources@[i].disposition is FiniteRenderingOpportunity),
                open_ended == exists|i: int|
                    0 <= i < index && (#[trigger] self.sources@[i]).disposition is OpenEnded,
                unsupported == exists|i: int|
                    0 <= i < index && (#[trigger] self.sources@[i]).disposition is Unsupported,
            decreases self.sources.len() - index,
        {
            let disposition = self.sources[index].disposition;
            assert(disposition == self.sources@[index as int].disposition);
            match disposition {
                DocumentSettlementSourceDisposition::Inert => {},
                DocumentSettlementSourceDisposition::FiniteDeadline(_) => {
                    finite = true;
                },
                DocumentSettlementSourceDisposition::FiniteRenderingOpportunity => {
                    finite = true;
                },
                DocumentSettlementSourceDisposition::OpenEnded(_) => {
                    open_ended = true;
                },
                DocumentSettlementSourceDisposition::Unsupported(_) => {
                    unsupported = true;
                },
            }
            index = index + 1;
        }
        (finite, open_ended, unsupported)
    }
}

proof fn lemma_duplicates_by_multiset(
    left: Seq<DocumentCanvasImageKey>,
    right: Seq<DocumentCanvasImageKey>,
)
    requires
        left.to_multiset() == right.to_multiset(),
    ensures
        left.no_duplicates() == right.no_duplicates(),
{
    if left.no_duplicates() {
        left.lemma_multiset_has_no_duplicates();
        right.lemma_multiset_has_no_duplicates_conv();
    }
    if right.no_duplicates() {
        right.lemma_multiset_has_no_duplicates();
        left.lemma_multiset_has_no_duplicates_conv();
    }
}

/// An inventory is settled exactly where no source has finite, open-ended or unsupported work.
pub proof fn law_settled_means_no_work(snapshot: DocumentSettlementSourceSnapshot)
    ensures
        snapshot.is_settled() <==> !snapshot.finite_work() && !snapshot.open_ended_work()
            && !snapshot.unsupported_work(),
{
    if !snapshot.is_settled() {
        let i = choose|i: int|
            0 <= i < snapshot.sources@.len() && !((#[trigger] snapshot.sources@[i]).disposition
                is Inert);
        assert(!(snapshot.sources@[i].disposition is Inert));
    }
}

/// Each source that is not at rest counts for one kind of work that is left, and no kind is left
/// without such a source: a deadline or a rendering opportunity for finite work, and the open-ended
/// and the unsupported each for their own.
pub proof fn law_work_is_left_where_a_source_has_it(
    snapshot: DocumentSettlementSourceSnapshot,
    index: int,
)
    requires
        0 <= index < snapshot.sources@.len(),
    ensures
        match snapshot.sources@[index].disposition {
            DocumentSettlementSourceDisposition::Inert => true,
            DocumentSettlementSourceDisposition::FiniteDeadline(_) => snapshot.finite_work()
                && !snapshot.is_settled(),
            DocumentSettlementSourceDisposition::FiniteRenderingOpportunity =>
            snapshot.finite_work() && !snapshot.is_settled(),
            DocumentSettlementSourceDisposition::OpenEnded(_) => snapshot.open_ended_work()
                && !snapshot.is_settled(),
            DocumentSettlementSourceDisposition::Unsupported(_) => snapshot.unsupported_work()
                && !snapshot.is_settled(),
        },
        (forall|i: int|
            0 <= i < snapshot.sources@.len() ==> !((
            #[trigger] snapshot.sources@[i]).disposition is FiniteDeadline)
                && !(snapshot.sources@[i].disposition is FiniteRenderingOpportunity))
            ==> !snapshot.finite_work(),
        (forall|i: int|
            0 <= i < snapshot.sources@.len() ==> !((
            #[trigger] snapshot.sources@[i]).disposition is OpenEnded))
            ==> !snapshot.open_ended_work(),
        (forall|i: int|
            0 <= i < snapshot.sources@.len() ==> !((
            #[trigger] snapshot.sources@[i]).disposition is Unsupported))
            ==> !snapshot.unsupported_work(),
{
    assert(snapshot.sources@[index] == snapshot.sources@[index]);
}

/// Handles keep their order in the key, the negative ones before the others, and what is not comes
/// before what is.
pub proof fn law_handle_keys_keep_their_order(left: i32, right: i32, first: bool, second: bool)
    ensures
        left < right <==> spec_handle_key(left) < spec_handle_key(right),
        bool_key(first) < bool_key(second) <==> !first && second,
{
}

/// One source comes before another by what it is, then by its pipeline, and within a pipeline by its
/// node, its handle, its callback or its class.
pub open spec fn comes_before(
    left: DocumentSettlementSourceIdentity,
    right: DocumentSettlementSourceIdentity,
) -> bool {
    match (left, right) {
        (
            DocumentSettlementSourceIdentity::CssAnimation { pipeline_id: p, node_id: n, .. },
            DocumentSettlementSourceIdentity::CssAnimation { pipeline_id: q, node_id: m, .. },
        ) => p.0 < q.0 || p.0 == q.0 && n < m,
        (
            DocumentSettlementSourceIdentity::CssTransition { pipeline_id: p, node_id: n, .. },
            DocumentSettlementSourceIdentity::CssTransition { pipeline_id: q, node_id: m, .. },
        ) => p.0 < q.0 || p.0 == q.0 && n < m,
        (
            DocumentSettlementSourceIdentity::Timer { pipeline_id: p, scheduler_handle: h, .. },
            DocumentSettlementSourceIdentity::Timer { pipeline_id: q, scheduler_handle: k, .. },
        ) => p.0 < q.0 || p.0 == q.0 && h < k,
        (
            DocumentSettlementSourceIdentity::AnimationFrame { pipeline_id: p, callback_id: c },
            DocumentSettlementSourceIdentity::AnimationFrame { pipeline_id: q, callback_id: d },
        ) => p.0 < q.0 || p.0 == q.0 && c < d,
        (
            DocumentSettlementSourceIdentity::TrackedPresence { pipeline_id: p, kind: c },
            DocumentSettlementSourceIdentity::TrackedPresence { pipeline_id: q, kind: d },
        ) => p.0 < q.0 || p.0 == q.0 && c.rank() < d.rank(),
        (
            DocumentSettlementSourceIdentity::Canvas2d { pipeline_id: p, node_id: n, .. },
            DocumentSettlementSourceIdentity::Canvas2d { pipeline_id: q, node_id: m, .. },
        ) => p.0 < q.0 || p.0 == q.0 && n < m,
        (
            DocumentSettlementSourceIdentity::UnsupportedDomNode { pipeline_id: p, node_id: n, .. },
            DocumentSettlementSourceIdentity::UnsupportedDomNode { pipeline_id: q, node_id: m, .. },
        ) => p.0 < q.0 || p.0 == q.0 && n < m,
        (DocumentSettlementSourceIdentity::CssAnimation { .. }, _) => true,
        (DocumentSettlementSourceIdentity::CssTransition { .. }, _) => !(right is CssAnimation),
        (DocumentSettlementSourceIdentity::Timer { .. }, _) => !(right is CssAnimation || right
            is CssTransition),
        (DocumentSettlementSourceIdentity::AnimationFrame { .. }, _) => right is TrackedPresence
            || right is Canvas2d || right is UnsupportedDomNode,
        (DocumentSettlementSourceIdentity::TrackedPresence { .. }, _) => right is Canvas2d || right
            is UnsupportedDomNode,
        (DocumentSettlementSourceIdentity::Canvas2d { .. }, _) => right is UnsupportedDomNode,
        (DocumentSettlementSourceIdentity::UnsupportedDomNode { .. }, _) => false,
    }
}

/// The canonical order puts a source before another where it comes before it, whatever the two do.
pub proof fn law_sources_are_ordered_by_what_they_are(
    left: DocumentSettlementSource,
    right: DocumentSettlementSource,
)
    requires
        comes_before(left.identity, right.identity),
    ensures
        key_at_most(CanonicalKey::order_key(&left), CanonicalKey::order_key(&right)),
        !key_at_most(CanonicalKey::order_key(&right), CanonicalKey::order_key(&left)),
{
    let a = left.order_key();
    let b = right.order_key();
    let x = left.identity.slots();
    let y = right.identity.slots();
    assert(x.len() == 6 && y.len() == 6);
    assert(a[0] == x[0] && a[1] == x[1] && a[2] == x[2]);
    assert(b[0] == y[0] && b[1] == y[1] && b[2] == y[2]);
    lemma_first_difference_decides(
        a,
        b,
        if x[0] != y[0] {
            0
        } else if x[1] != y[1] {
            1
        } else {
            2
        },
    );
}

} // verus!
