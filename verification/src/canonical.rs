//! Canonical order: records are ordered by the integers they consist of, field by field.
use vstd::multiset::Multiset;
use vstd::prelude::*;

verus! {

/// Lexicographic order: the first difference decides, and a proper prefix comes first.
pub open spec fn key_at_most(left: Seq<u128>, right: Seq<u128>) -> bool
    decreases left.len(),
{
    if left.len() == 0 {
        true
    } else if right.len() == 0 {
        false
    } else if left[0] != right[0] {
        left[0] < right[0]
    } else {
        key_at_most(left.drop_first(), right.drop_first())
    }
}

pub proof fn lemma_key_total(left: Seq<u128>, right: Seq<u128>)
    ensures
        key_at_most(left, right) || key_at_most(right, left),
    decreases left.len(),
{
    if left.len() > 0 && right.len() > 0 && left[0] == right[0] {
        lemma_key_total(left.drop_first(), right.drop_first());
    }
}

pub proof fn lemma_key_antisymmetric(left: Seq<u128>, right: Seq<u128>)
    requires
        key_at_most(left, right),
        key_at_most(right, left),
    ensures
        left == right,
    decreases left.len(),
{
    if left.len() > 0 && right.len() > 0 {
        lemma_key_antisymmetric(left.drop_first(), right.drop_first());
        assert(left =~= seq![left[0]] + left.drop_first());
        assert(right =~= seq![right[0]] + right.drop_first());
    } else {
        assert(left =~= right);
    }
}

pub proof fn lemma_key_transitive(first: Seq<u128>, second: Seq<u128>, third: Seq<u128>)
    requires
        key_at_most(first, second),
        key_at_most(second, third),
    ensures
        key_at_most(first, third),
    decreases first.len(),
{
    if first.len() > 0 && second.len() > 0 && third.len() > 0 && first[0] == second[0] && second[0]
        == third[0] {
        lemma_key_transitive(first.drop_first(), second.drop_first(), third.drop_first());
    }
}

/// Whether one key comes before another or equals it.
pub fn key_precedes(left: &Vec<u128>, right: &Vec<u128>) -> (precedes: bool)
    ensures
        precedes == key_at_most(left@, right@),
{
    let mut index: usize = 0;
    assert(left@.skip(0) =~= left@ && right@.skip(0) =~= right@);
    while index < left.len()
        invariant
            index <= left.len(),
            index <= right.len(),
            key_at_most(left@.skip(index as int), right@.skip(index as int)) == key_at_most(
                left@,
                right@,
            ),
        decreases left.len() - index,
    {
        if index >= right.len() {
            return false;
        }
        if left[index] != right[index] {
            return left[index] < right[index];
        }
        assert(left@.skip(index as int).drop_first() =~= left@.skip(index + 1));
        assert(right@.skip(index as int).drop_first() =~= right@.skip(index + 1));
        index = index + 1;
    }
    true
}

/// A record that is ordered by the integers it consists of.
pub trait CanonicalKey: Sized {
    /// The integers, most significant first.
    spec fn order_key(&self) -> Seq<u128>;

    /// The integers, most significant first.
    fn canonical_key(&self) -> (key: Vec<u128>)
        ensures
            key@ == self.order_key(),
    ;
}

/// The keys of records, in their order.
pub open spec fn keys_of<T: CanonicalKey>(records: Seq<T>) -> Seq<Seq<u128>> {
    records.map_values(|record: T| record.order_key())
}

/// Every record comes before those after it, or equals them.
pub open spec fn canonically_ordered<T: CanonicalKey>(records: Seq<T>) -> bool {
    forall|i: int, j: int|
        0 <= i <= j < records.len() ==> key_at_most(
            (#[trigger] records[i]).order_key(),
            (#[trigger] records[j]).order_key(),
        )
}

/// The records in canonical order.
pub fn sort_canonically<T: CanonicalKey>(records: Vec<T>) -> (sorted: Vec<T>)
    ensures
        canonically_ordered(sorted@),
        sorted@.to_multiset() == records@.to_multiset(),
        sorted@.len() == records@.len(),
{
    broadcast use vstd::seq_lib::group_to_multiset_ensures;

    let mut rest = records;
    let mut sorted: Vec<T> = Vec::new();
    let mut keys: Vec<Vec<u128>> = Vec::new();
    assert(sorted@.to_multiset().add(rest@.to_multiset()) =~= records@.to_multiset()) by {
        assert(sorted@ =~= Seq::empty());
        sorted@.to_multiset_ensures();
        assert(sorted@.to_multiset() =~= Multiset::empty());
    }
    while rest.len() > 0
        invariant
            sorted@.len() == keys@.len(),
            forall|i: int| 0 <= i < keys@.len() ==> (#[trigger] keys@[i])@ == sorted@[i].order_key(),
            canonically_ordered(sorted@),
            sorted@.to_multiset().add(rest@.to_multiset()) == records@.to_multiset(),
            sorted@.len() + rest@.len() == records@.len(),
        decreases rest.len(),
    {
        let ghost before = rest@;
        let record = match rest.pop() {
            Some(record) => record,
            None => {
                return sorted;
            },
        };
        let key = record.canonical_key();
        let mut place: usize = 0;
        while place < keys.len() && !key_precedes(&key, &keys[place])
            invariant
                place <= keys@.len(),
                sorted@.len() == keys@.len(),
                key@ == record.order_key(),
                forall|i: int| 0 <= i < keys@.len() ==> (#[trigger] keys@[i])@ == sorted@[i].order_key(),
                forall|i: int|
                    0 <= i < place ==> key_at_most((#[trigger] sorted@[i]).order_key(), record.order_key()),
            decreases keys.len() - place,
        {
            proof {
                lemma_key_total(key@, keys@[place as int]@);
                assert(keys@[place as int]@ == sorted@[place as int].order_key());
            }
            place = place + 1;
        }
        let ghost old_sorted = sorted@;
        let ghost old_keys = keys@;
        proof {
            if place < keys@.len() {
                assert(keys@[place as int]@ == sorted@[place as int].order_key());
            }
            assert forall|i: int| place <= i < old_sorted.len() implies key_at_most(
                record.order_key(),
                (#[trigger] old_sorted[i]).order_key(),
            ) by {
                lemma_key_transitive(
                    record.order_key(),
                    old_sorted[place as int].order_key(),
                    old_sorted[i].order_key(),
                );
            }
            lemma_key_total(record.order_key(), record.order_key());
            vstd::seq_lib::to_multiset_insert(old_sorted, place as int, record);
            assert(before =~= rest@.push(record));
            vstd::seq_lib::to_multiset_build(rest@, record);
        }
        keys.insert(place, key);
        sorted.insert(place, record);
        proof {
            let inserted = sorted@;
            assert(inserted =~= old_sorted.insert(place as int, record));
            assert forall|i: int, j: int| 0 <= i <= j < inserted.len() implies key_at_most(
                (#[trigger] inserted[i]).order_key(),
                (#[trigger] inserted[j]).order_key(),
            ) by {
                let low = if i < place {
                    i
                } else {
                    i - 1
                };
                let high = if j < place {
                    j
                } else {
                    j - 1
                };
                if i != place && j != place {
                    assert(key_at_most(old_sorted[low].order_key(), old_sorted[high].order_key()));
                }
            }
            assert(sorted@.to_multiset().add(rest@.to_multiset()) =~= records@.to_multiset());
        }
    }
    assert(rest@ =~= Seq::empty());
    assert(rest@.to_multiset() =~= Multiset::empty());
    assert(sorted@.to_multiset() =~= records@.to_multiset());
    sorted
}

proof fn lemma_ordered_keys_unique(left: Seq<Seq<u128>>, right: Seq<Seq<u128>>)
    requires
        forall|i: int, j: int|
            0 <= i <= j < left.len() ==> key_at_most(#[trigger] left[i], #[trigger] left[j]),
        forall|i: int, j: int|
            0 <= i <= j < right.len() ==> key_at_most(#[trigger] right[i], #[trigger] right[j]),
        left.to_multiset() == right.to_multiset(),
    ensures
        left == right,
    decreases left.len(),
{
    broadcast use vstd::seq_lib::group_to_multiset_ensures;

    left.to_multiset_ensures();
    right.to_multiset_ensures();
    assert(left.len() == right.len());
    if left.len() == 0 {
        assert(left =~= right);
    } else {
        let last = left.len() - 1;
        // The last of each occurs in the other, so neither exceeds the other.
        assert(right.contains(left[last])) by {
            assert(left.contains(left[last]));
            assert(left.to_multiset().count(left[last]) > 0);
        }
        assert(left.contains(right[last])) by {
            assert(right.contains(right[last]));
            assert(right.to_multiset().count(right[last]) > 0);
        }
        let i = choose|i: int| 0 <= i < right.len() && right[i] == left[last];
        let j = choose|j: int| 0 <= j < left.len() && left[j] == right[last];
        assert(key_at_most(right[i], right[last]));
        assert(key_at_most(left[j], left[last]));
        lemma_key_antisymmetric(left[last], right[last]);
        let shorter_left = left.drop_last();
        let shorter_right = right.drop_last();
        assert(left =~= shorter_left.push(left[last]));
        assert(right =~= shorter_right.push(right[last]));
        vstd::seq_lib::to_multiset_build(shorter_left, left[last]);
        vstd::seq_lib::to_multiset_build(shorter_right, right[last]);
        assert(shorter_left.to_multiset() =~= left.to_multiset().remove(left[last]));
        assert(shorter_right.to_multiset() =~= right.to_multiset().remove(right[last]));
        lemma_ordered_keys_unique(shorter_left, shorter_right);
    }
}

/// Canonical order does not depend on the order in which records were collected: two canonically
/// ordered sequences with the same keys, each as often, have the same keys in the same places.
pub proof fn law_canonical_order_is_unique<T: CanonicalKey>(left: Seq<T>, right: Seq<T>)
    requires
        canonically_ordered(left),
        canonically_ordered(right),
        keys_of(left).to_multiset() == keys_of(right).to_multiset(),
    ensures
        keys_of(left) == keys_of(right),
{
    lemma_ordered_keys_unique(keys_of(left), keys_of(right));
}

/// A byte string as integers: each byte plus one, closed by a zero, so that a prefix comes first.
pub open spec fn text_key(bytes: Seq<u8>) -> Seq<u128> {
    Seq::new(bytes.len(), |i: int| (bytes[i] + 1) as u128).push(0)
}

/// Appends the integers of a text.
pub fn push_text(key: &mut Vec<u128>, text: &String)
    ensures
        final(key)@ == old(key)@ + text_key(vstd::utf8::encode_utf8(text@)),
{
    let ghost before = key@;
    let bytes = text.as_str().as_bytes();
    let mut index: usize = 0;
    while index < bytes.len()
        invariant
            index <= bytes@.len(),
            key@ == before + Seq::new(index as nat, |i: int| (bytes@[i] + 1) as u128),
        decreases bytes.len() - index,
    {
        key.push(bytes[index] as u128 + 1);
        index = index + 1;
        assert(key@ =~= before + Seq::new(index as nat, |i: int| (bytes@[i] + 1) as u128));
    }
    key.push(0);
    assert(key@ =~= before + text_key(bytes@));
}

/// Texts can be read back from the integers they make: where a text is followed by more integers,
/// both the text and what follows are determined.
pub proof fn lemma_text_key_splits(
    left: Seq<u8>,
    left_rest: Seq<u128>,
    right: Seq<u8>,
    right_rest: Seq<u128>,
)
    requires
        text_key(left) + left_rest == text_key(right) + right_rest,
    ensures
        left == right,
        left_rest == right_rest,
    decreases left.len(),
{
    let a = text_key(left) + left_rest;
    let b = text_key(right) + right_rest;
    if left.len() < right.len() {
        assert(a[left.len() as int] == 0);
        assert(b[left.len() as int] == (right[left.len() as int] + 1) as u128);
        assert(false);
    }
    if right.len() < left.len() {
        assert(b[right.len() as int] == 0);
        assert(a[right.len() as int] == (left[right.len() as int] + 1) as u128);
        assert(false);
    }
    assert forall|i: int| 0 <= i < left.len() implies left[i] == right[i] by {
        assert(a[i] == (left[i] + 1) as u128);
        assert(b[i] == (right[i] + 1) as u128);
    }
    assert(left =~= right);
    assert(a.len() == left.len() + 1 + left_rest.len());
    assert(b.len() == right.len() + 1 + right_rest.len());
    assert forall|i: int| 0 <= i < left_rest.len() implies left_rest[i] == right_rest[i] by {
        assert(a[left.len() + 1 + i] == left_rest[i]);
        assert(b[left.len() + 1 + i] == right_rest[i]);
    }
    assert(left_rest =~= right_rest);
}

/// Where two keys differ first, that place decides their order.
pub proof fn lemma_first_difference_decides(left: Seq<u128>, right: Seq<u128>, place: int)
    requires
        0 <= place < left.len(),
        place < right.len(),
        left[place] < right[place],
        forall|i: int| 0 <= i < place ==> #[trigger] left[i] == right[i],
    ensures
        key_at_most(left, right),
        !key_at_most(right, left),
    decreases place,
{
    if place > 0 {
        let left_rest = left.drop_first();
        let right_rest = right.drop_first();
        assert(left[0] == right[0]);
        assert forall|i: int| 0 <= i < place - 1 implies #[trigger] left_rest[i]
            == right_rest[i] by {
            assert(left[i + 1] == right[i + 1]);
        }
        lemma_first_difference_decides(left_rest, right_rest, place - 1);
    }
}

} // verus!
