//! The host heap as the boundary calls see it, and the laws that hold of
//! every host that keeps those calls' contracts.
use vstd::prelude::*;

use crate::buffer::sized_to;
use crate::handle::NIL;

verus! {

/// A value held in the host heap.
pub enum HostValue {
    /// Text, held as its UTF-8 bytes.
    Text(Seq<u8>),
    /// An opaque byte array; nothing is decoded.
    Bytes(Seq<u8>),
    /// A 32-bit unsigned number.
    Number(u32),
    /// An associative object, keyed by field name.
    Record(Map<Seq<u8>, HostValue>),
}

/// The objects that the host keeps from its collector on the local side's
/// behalf, by identifier.
pub struct HostHeap {
    pub anchored: Map<i32, HostValue>,
}

/// An allocation call: the host anchors `v` under a fresh identifier `id`.
pub open spec fn allocates(h: HostHeap, v: HostValue, id: i32, h2: HostHeap) -> bool {
    &&& id != NIL
    &&& !h.anchored.contains_key(id)
    &&& h2.anchored == h.anchored.insert(id, v)
}

/// allocate-string: the host creates a text object from the bytes of a string.
/// Those bytes come from a `&str`, so they are valid UTF-8 and the host's
/// decoding keeps them as they are.
pub open spec fn creates_string(h: HostHeap, b: Seq<u8>, id: i32, h2: HostHeap) -> bool {
    allocates(h, HostValue::Text(b), id, h2)
}

/// allocate-buffer: the host stores the bytes as they are.
pub open spec fn creates_buffer(h: HostHeap, b: Seq<u8>, id: i32, h2: HostHeap) -> bool {
    allocates(h, HostValue::Bytes(b), id, h2)
}

/// allocate-object: the host creates an empty associative object.
pub open spec fn creates_object(h: HostHeap, id: i32, h2: HostHeap) -> bool {
    allocates(h, HostValue::Record(Map::empty()), id, h2)
}

/// The release signal: the host stops protecting `id` from its collector.
/// It is owed only for an identifier that is still anchored.
pub open spec fn releases(h: HostHeap, id: i32, h2: HostHeap) -> bool {
    &&& h.anchored.contains_key(id)
    &&& h2.anchored == h.anchored.remove(id)
}

/// Whether `id` names a text object, the only kind length-of-string accepts.
pub open spec fn is_text(h: HostHeap, id: i32) -> bool {
    h.anchored.contains_key(id) && h.anchored[id] is Text
}

/// Whether `id` names a byte array, the only kind length-of-buffer accepts.
pub open spec fn is_bytes(h: HostHeap, id: i32) -> bool {
    h.anchored.contains_key(id) && h.anchored[id] is Bytes
}

/// Whether `id` names an associative object, the only kind field calls accept.
pub open spec fn is_record(h: HostHeap, id: i32) -> bool {
    h.anchored.contains_key(id) && h.anchored[id] is Record
}

/// The bytes of a text or byte-array object.
pub open spec fn content(h: HostHeap, id: i32) -> Seq<u8> {
    match h.anchored[id] {
        HostValue::Text(b) => b,
        HostValue::Bytes(b) => b,
        _ => Seq::empty(),
    }
}

/// The fields of an associative object.
pub open spec fn fields(h: HostHeap, id: i32) -> Map<Seq<u8>, HostValue> {
    h.anchored[id]->Record_0
}

/// What length-of-string and length-of-buffer report.
pub open spec fn length_of(h: HostHeap, id: i32) -> nat {
    content(h, id).len()
}

/// A local buffer after the host has written `data` into it: the host writes
/// at most as many bytes as the buffer holds, from its start.
pub open spec fn written(buf: Seq<u8>, data: Seq<u8>) -> Seq<u8> {
    let n = if buf.len() <= data.len() { buf.len() } else { data.len() };
    data.take(n as int) + buf.skip(n as int)
}

/// has-field: whether the object holds a field of that name.
pub open spec fn has_field(h: HostHeap, id: i32, name: Seq<u8>) -> bool {
    is_record(h, id) && fields(h, id).contains_key(name)
}

/// set-field: the host assigns `v` to the named field of a record.
pub open spec fn sets_field(h: HostHeap, id: i32, name: Seq<u8>, v: HostValue, h2: HostHeap) -> bool {
    &&& is_record(h, id)
    &&& h2.anchored == h.anchored.insert(id, HostValue::Record(fields(h, id).insert(name, v)))
}

/// get-field: the field's value under a new owning identifier, or the nil
/// sentinel with the heap unchanged where the field is absent.
pub open spec fn gets_field(h: HostHeap, id: i32, name: Seq<u8>, fid: i32, h2: HostHeap) -> bool {
    &&& is_record(h, id)
    &&& if fields(h, id).contains_key(name) {
        allocates(h, fields(h, id)[name], fid, h2)
    } else {
        fid == NIL && h2 == h
    }
}

/// Whether the named field holds a 32-bit unsigned number.
pub open spec fn is_number_field(h: HostHeap, id: i32, name: Seq<u8>) -> bool {
    has_field(h, id, name) && fields(h, id)[name] is Number
}

/// What get-field-number returns for a field that holds a number.
pub open spec fn number_field(h: HostHeap, id: i32, name: Seq<u8>) -> u32 {
    fields(h, id)[name]->Number_0
}

/// A buffer sized by the length the host reported takes exactly the object's
/// bytes: nothing is cut and nothing is left over.
pub proof fn lemma_sized_read(buf: Seq<u8>, data: Seq<u8>)
    ensures
        written(sized_to(buf, data.len()), data) == data,
{
    let s = sized_to(buf, data.len());
    assert(s.len() == data.len());
    assert(data.take(data.len() as int) =~= data);
    assert(s.skip(data.len() as int) =~= Seq::<u8>::empty());
    assert(written(s, data) =~= data);
}

/// Reading back a string that was just allocated, into a buffer sized by
/// length-of-string, yields exactly the bytes it was made from.
pub proof fn lemma_string_round_trip(h: HostHeap, b: Seq<u8>, id: i32, h2: HostHeap, buf: Seq<u8>)
    requires
        creates_string(h, b, id, h2),
    ensures
        is_text(h2, id),
        length_of(h2, id) == b.len(),
        written(sized_to(buf, length_of(h2, id)), content(h2, id)) == b,
{
    lemma_sized_read(buf, b);
}

/// Reading back a byte array that was just allocated, into a buffer sized by
/// length-of-buffer, yields exactly the bytes it was made from, whatever they are.
pub proof fn lemma_buffer_round_trip(h: HostHeap, b: Seq<u8>, id: i32, h2: HostHeap, buf: Seq<u8>)
    requires
        creates_buffer(h, b, id, h2),
    ensures
        is_bytes(h2, id),
        length_of(h2, id) == b.len(),
        written(sized_to(buf, length_of(h2, id)), content(h2, id)) == b,
{
    lemma_sized_read(buf, b);
}

/// A freshly allocated object has no fields, and it has a field as soon as one
/// is set on it, whatever the value.
pub proof fn lemma_has_field_after_set(
    h: HostHeap,
    id: i32,
    h2: HostHeap,
    name: Seq<u8>,
    v: HostValue,
    h3: HostHeap,
)
    requires
        creates_object(h, id, h2),
    ensures
        is_record(h2, id),
        !has_field(h2, id, name),
        sets_field(h2, id, name, v, h3) ==> has_field(h3, id, name),
{
}

/// Setting a field on any object makes it present.
pub proof fn lemma_set_field_present(h: HostHeap, id: i32, name: Seq<u8>, v: HostValue, h2: HostHeap)
    requires
        sets_field(h, id, name, v, h2),
    ensures
        has_field(h2, id, name),
        fields(h2, id)[name] == v,
{
}

/// A number set on a field is read back exactly, and setting the same value
/// again changes nothing.
pub proof fn lemma_number_field_exact(
    h: HostHeap,
    id: i32,
    name: Seq<u8>,
    n: u32,
    h2: HostHeap,
    h3: HostHeap,
)
    requires
        sets_field(h, id, name, HostValue::Number(n), h2),
    ensures
        is_number_field(h2, id, name),
        number_field(h2, id, name) == n,
        sets_field(h2, id, name, HostValue::Number(n), h3) ==> h3 == h2,
{
    if sets_field(h2, id, name, HostValue::Number(n), h3) {
        assert(fields(h2, id).insert(name, HostValue::Number(n)) =~= fields(h2, id));
        assert(h3.anchored =~= h2.anchored);
    }
}

/// After its release an identifier is no longer anchored, so a second release
/// signal for it is never a valid call; and releasing what one allocation
/// anchored leaves the host as it was before.
pub proof fn lemma_release_once(h: HostHeap, v: HostValue, id: i32, h2: HostHeap, h3: HostHeap, h4: HostHeap)
    requires
        allocates(h, v, id, h2),
        releases(h2, id, h3),
    ensures
        h3.anchored == h.anchored,
        !releases(h3, id, h4),
{
    assert(h3.anchored =~= h.anchored);
}

/// The heap after a series of allocation calls, the i-th anchoring `vals[i]`
/// under `ids[i]`.
pub open spec fn allocate_all(h: HostHeap, vals: Seq<HostValue>, ids: Seq<i32>) -> HostHeap
    decreases ids.len(),
{
    if ids.len() == 0 || vals.len() == 0 {
        h
    } else {
        allocate_all(
            HostHeap { anchored: h.anchored.insert(ids[0], vals[0]) },
            vals.drop_first(),
            ids.drop_first(),
        )
    }
}

/// The heap after a release signal for each of `ids`, in that order.
pub open spec fn release_all(h: HostHeap, ids: Seq<i32>) -> HostHeap
    decreases ids.len(),
{
    if ids.len() == 0 {
        h
    } else {
        release_all(HostHeap { anchored: h.anchored.remove(ids[0]) }, ids.drop_first())
    }
}

/// Whether each of `ids` is a valid release signal in turn: no identifier is
/// released twice, and each is anchored when its signal comes.
pub open spec fn releases_each(h: HostHeap, ids: Seq<i32>) -> bool {
    &&& ids.no_duplicates()
    &&& forall|i: int| 0 <= i < ids.len() ==> h.anchored.contains_key(#[trigger] ids[i])
}

/// Whether `ids` are the fresh, distinct identifiers of a series of allocations
/// of `vals` from `h`.
pub open spec fn fresh_ids(h: HostHeap, vals: Seq<HostValue>, ids: Seq<i32>) -> bool {
    &&& vals.len() == ids.len()
    &&& ids.no_duplicates()
    &&& forall|i: int| 0 <= i < ids.len() ==> !h.anchored.contains_key(#[trigger] ids[i])
}

proof fn lemma_allocate_all(h: HostHeap, vals: Seq<HostValue>, ids: Seq<i32>)
    requires
        fresh_ids(h, vals, ids),
    ensures
        allocate_all(h, vals, ids).anchored.remove_keys(ids.to_set()) == h.anchored,
        forall|i: int| 0 <= i < ids.len() ==> allocate_all(h, vals, ids).anchored.contains_key(#[trigger] ids[i]),
    decreases ids.len(),
{
    if ids.len() == 0 {
        assert(ids.to_set() =~= Set::empty());
        assert(h.anchored.remove_keys(ids.to_set()) =~= h.anchored);
    } else {
        let h1 = HostHeap { anchored: h.anchored.insert(ids[0], vals[0]) };
        let rest = ids.drop_first();
        assert forall|i: int| 0 <= i < rest.len() implies !h1.anchored.contains_key(#[trigger] rest[i]) by {
            assert(rest[i] == ids[i + 1]);
        }
        lemma_allocate_all(h1, vals.drop_first(), rest);
        let r = allocate_all(h, vals, ids);
        assert(ids.to_set() =~= rest.to_set().insert(ids[0])) by {
            assert forall|x: i32| ids.to_set().contains(x) implies rest.to_set().insert(ids[0]).contains(x) by {
                let k = choose|k: int| 0 <= k < ids.len() && ids[k] == x;
                if k > 0 {
                    assert(rest[k - 1] == x);
                }
            }
            assert forall|x: i32| rest.to_set().insert(ids[0]).contains(x) implies ids.to_set().contains(x) by {
                if x != ids[0] {
                    let k = choose|k: int| 0 <= k < rest.len() && rest[k] == x;
                    assert(ids[k + 1] == x);
                } else {
                    assert(ids[0] == x);
                }
            }
        }
        assert(r == allocate_all(h1, vals.drop_first(), rest));
        assert(!rest.to_set().contains(ids[0])) by {
            if rest.to_set().contains(ids[0]) {
                let k = choose|k: int| 0 <= k < rest.len() && rest[k] == ids[0];
                assert(ids[k + 1] == ids[0]);
            }
        }
        assert(r.anchored.remove_keys(rest.to_set()).contains_key(ids[0]));
        let left = r.anchored.remove_keys(ids.to_set());
        let mid = r.anchored.remove_keys(rest.to_set());
        assert forall|k: i32| h.anchored.contains_key(k) implies !ids.to_set().contains(k) by {
            if ids.to_set().contains(k) {
                let j = choose|j: int| 0 <= j < ids.len() && ids[j] == k;
                assert(!h.anchored.contains_key(ids[j]));
            }
        }
        assert forall|k: i32| #[trigger] left.contains_key(k) <==> h.anchored.contains_key(k) by {
            if h.anchored.contains_key(k) {
                assert(h1.anchored.contains_key(k));
                assert(mid.contains_key(k));
            }
            if left.contains_key(k) {
                assert(mid.contains_key(k));
            }
        }
        assert forall|k: i32| #[trigger] left.contains_key(k) implies left[k] == h.anchored[k] by {
            assert(mid.contains_key(k));
            assert(mid[k] == h1.anchored[k]);
        }
        assert(left =~= h.anchored);
        assert forall|i: int| 0 <= i < ids.len() implies r.anchored.contains_key(#[trigger] ids[i]) by {
            if i > 0 {
                assert(rest[i - 1] == ids[i]);
            }
        }
    }
}

proof fn lemma_release_all(h: HostHeap, ids: Seq<i32>)
    requires
        releases_each(h, ids),
    ensures
        release_all(h, ids).anchored == h.anchored.remove_keys(ids.to_set()),
    decreases ids.len(),
{
    if ids.len() == 0 {
        assert(ids.to_set() =~= Set::empty());
        assert(h.anchored.remove_keys(ids.to_set()) =~= h.anchored);
    } else {
        let h1 = HostHeap { anchored: h.anchored.remove(ids[0]) };
        let rest = ids.drop_first();
        assert forall|i: int| 0 <= i < rest.len() implies h1.anchored.contains_key(#[trigger] rest[i]) by {
            assert(rest[i] == ids[i + 1]);
        }
        lemma_release_all(h1, rest);
        assert(ids.to_set() =~= rest.to_set().insert(ids[0])) by {
            assert forall|x: i32| ids.to_set().contains(x) implies rest.to_set().insert(ids[0]).contains(x) by {
                let k = choose|k: int| 0 <= k < ids.len() && ids[k] == x;
                if k > 0 {
                    assert(rest[k - 1] == x);
                }
            }
            assert forall|x: i32| rest.to_set().insert(ids[0]).contains(x) implies ids.to_set().contains(x) by {
                if x != ids[0] {
                    let k = choose|k: int| 0 <= k < rest.len() && rest[k] == x;
                    assert(ids[k + 1] == x);
                } else {
                    assert(ids[0] == x);
                }
            }
        }
        assert(release_all(h, ids).anchored =~= h.anchored.remove_keys(ids.to_set()));
    }
}

/// Over a whole session: after a series of allocations, one release signal for
/// each owning handle they created, in any order and none twice, is a valid
/// series of calls, issues as many signals as there were acquisitions, and
/// leaves the host's anchors as they were before.
pub proof fn lemma_session_balanced(h: HostHeap, vals: Seq<HostValue>, ids: Seq<i32>, order: Seq<i32>)
    requires
        fresh_ids(h, vals, ids),
        order.no_duplicates(),
        order.to_set() == ids.to_set(),
    ensures
        releases_each(allocate_all(h, vals, ids), order),
        order.len() == ids.len(),
        release_all(allocate_all(h, vals, ids), order).anchored == h.anchored,
{
    lemma_allocate_all(h, vals, ids);
    let h2 = allocate_all(h, vals, ids);
    assert forall|i: int| 0 <= i < order.len() implies h2.anchored.contains_key(#[trigger] order[i]) by {
        assert(order.to_set().contains(order[i]));
        assert(ids.to_set().contains(order[i]));
        let k = choose|k: int| 0 <= k < ids.len() && ids[k] == order[i];
        assert(h2.anchored.contains_key(ids[k]));
    }
    lemma_release_all(h2, order);
    order.unique_seq_to_set();
    ids.unique_seq_to_set();
}

} // verus!
