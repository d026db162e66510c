//! Length-prefixed framing: how the fields of a record are laid out as one
//! byte string, and how a byte string is split back into fields.
//!
//! Each field is written as its length, eight bytes little-endian, followed
//! by its bytes. Splitting accepts exactly the byte strings that are a
//! sequence of such frames, and gives back the fields that were framed.

use vstd::bytes::{
    lemma_auto_spec_u64_to_from_le_bytes,
    spec_u64_from_le_bytes,
    spec_u64_to_le_bytes,
    u64_from_le_bytes,
    u64_to_le_bytes,
};
use vstd::prelude::*;
use vstd::slice::{slice_subrange, slice_to_vec};

verus! {

/// One field as it is laid out: its length, then its bytes.
pub open spec fn frame_one(field: Seq<u8>) -> Seq<u8> {
    spec_u64_to_le_bytes(field.len() as u64) + field
}

/// The layout of a sequence of fields: their frames, one after the other.
pub open spec fn frame(fields: Seq<Seq<u8>>) -> Seq<u8>
    decreases fields.len(),
{
    if fields.len() == 0 {
        Seq::empty()
    } else {
        frame(fields.drop_last()) + frame_one(fields.last())
    }
}

/// The fields framed in `bytes` from position `at` to the end, or nothing
/// when what stands there is not a sequence of whole frames.
pub open spec fn unframe_from(bytes: Seq<u8>, at: int) -> Option<Seq<Seq<u8>>>
    decreases bytes.len() - at,
{
    if at < 0 || at > bytes.len() {
        None
    } else if at == bytes.len() {
        Some(Seq::empty())
    } else if at + 8 > bytes.len() {
        None
    } else {
        let size = spec_u64_from_le_bytes(bytes.subrange(at, at + 8)) as int;
        if at + 8 + size > bytes.len() {
            None
        } else {
            match unframe_from(bytes, at + 8 + size) {
                Some(rest) => Some(seq![bytes.subrange(at + 8, at + 8 + size)] + rest),
                None => None,
            }
        }
    }
}

/// The fields framed in `bytes`, or nothing when `bytes` is no framing.
pub open spec fn unframe(bytes: Seq<u8>) -> Option<Seq<Seq<u8>>> {
    unframe_from(bytes, 0)
}

/// The views of a vector of fields.
pub open spec fn views(fields: Seq<Vec<u8>>) -> Seq<Seq<u8>> {
    Seq::new(fields.len(), |i: int| fields[i]@)
}

/// Appending one more frame to a framing appends its field to what the
/// framing splits into.
pub proof fn lemma_unframe_append(bytes: Seq<u8>, at: int, field: Seq<u8>)
    requires
        unframe_from(bytes, at) is Some,
        field.len() <= u64::MAX,
    ensures
        unframe_from(bytes + frame_one(field), at) == Some(
            unframe_from(bytes, at)->0.push(field),
        ),
    decreases bytes.len() - at,
{
    lemma_auto_spec_u64_to_from_le_bytes();
    let longer = bytes + frame_one(field);
    if at == bytes.len() {
        assert(longer.subrange(at, at + 8) =~= spec_u64_to_le_bytes(field.len() as u64));
        assert(longer.subrange(at + 8, at + 8 + field.len()) =~= field);
        assert(unframe_from(longer, at + 8 + field.len()) == Some(Seq::<Seq<u8>>::empty()));
        assert(seq![field] + Seq::<Seq<u8>>::empty() =~= Seq::<Seq<u8>>::empty().push(field));
    } else {
        let size = spec_u64_from_le_bytes(bytes.subrange(at, at + 8)) as int;
        assert(longer.subrange(at, at + 8) =~= bytes.subrange(at, at + 8));
        assert(longer.subrange(at + 8, at + 8 + size) =~= bytes.subrange(at + 8, at + 8 + size));
        lemma_unframe_append(bytes, at + 8 + size, field);
        let chunk = bytes.subrange(at + 8, at + 8 + size);
        let rest = unframe_from(bytes, at + 8 + size)->0;
        assert(seq![chunk] + rest.push(field) =~= (seq![chunk] + rest).push(field));
    }
}

/// Splitting the framing of a sequence of fields gives the fields back.
pub proof fn lemma_unframe_frame(fields: Seq<Seq<u8>>)
    requires
        forall|i: int| 0 <= i < fields.len() ==> (#[trigger] fields[i]).len() <= u64::MAX,
    ensures
        unframe(frame(fields)) == Some(fields),
    decreases fields.len(),
{
    if fields.len() == 0 {
        assert(fields =~= Seq::<Seq<u8>>::empty());
    } else {
        lemma_unframe_frame(fields.drop_last());
        lemma_unframe_append(frame(fields.drop_last()), 0, fields.last());
        assert(fields.drop_last().push(fields.last()) =~= fields);
    }
}

/// The framing of the first `count + 1` fields is the framing of the first
/// `count` followed by the frame of the next one.
pub proof fn lemma_frame_next(fields: Seq<Seq<u8>>, count: int)
    requires
        0 <= count < fields.len(),
    ensures
        frame(fields.take(count + 1)) == frame(fields.take(count)) + frame_one(fields[count]),
{
    assert(fields.take(count + 1).drop_last() =~= fields.take(count));
}

/// Appends `bytes` to `out`.
pub fn put_bytes(out: &mut Vec<u8>, bytes: &[u8])
    ensures
        final(out)@ == old(out)@ + bytes@,
{
    let mut i: usize = 0;
    while i < bytes.len()
        invariant
            i <= bytes@.len(),
            out@ == old(out)@ + bytes@.take(i as int),
        decreases bytes@.len() - i,
    {
        out.push(bytes[i]);
        i += 1;
        assert(bytes@.take(i as int) =~= bytes@.take(i - 1).push(bytes@[i - 1]));
        assert(out@ =~= old(out)@ + bytes@.take(i as int));
    }
    assert(bytes@.take(i as int) =~= bytes@);
}

/// Appends the frame of `field` to `out`.
pub fn put_field(out: &mut Vec<u8>, field: &[u8])
    ensures
        final(out)@ == old(out)@ + frame_one(field@),
{
    let header = u64_to_le_bytes(field.len() as u64);
    put_bytes(out, header.as_slice());
    put_bytes(out, field);
    assert(out@ =~= old(out)@ + frame_one(field@));
}

/// Splits `bytes` into the fields framed in it.
pub fn split_fields(bytes: &[u8]) -> (fields: Option<Vec<Vec<u8>>>)
    ensures
        match fields {
            Some(found) => unframe(bytes@) == Some(views(found@)),
            None => unframe(bytes@) is None,
        },
{
    let mut found: Vec<Vec<u8>> = Vec::new();
    let mut at: usize = 0;
    assert(views(found@) + unframe_from(bytes@, 0)->0 =~= unframe_from(bytes@, 0)->0);
    while at < bytes.len()
        invariant
            at <= bytes@.len(),
            unframe_from(bytes@, 0) == match unframe_from(bytes@, at as int) {
                Some(rest) => Some(views(found@) + rest),
                None => None,
            },
        decreases bytes@.len() - at,
    {
        if bytes.len() - at < 8 {
            return None;
        }
        let size = u64_from_le_bytes(slice_subrange(bytes, at, at + 8));
        let room = bytes.len() - at - 8;
        if size > room as u64 {
            return None;
        }
        let start = at + 8;
        let end = start + size as usize;
        let field = slice_to_vec(slice_subrange(bytes, start, end));
        proof {
            let before = views(found@);
            let after = views(found@.push(field));
            assert(after =~= before.push(field@));
            if let Some(rest) = unframe_from(bytes@, end as int) {
                assert(before + (seq![field@] + rest) =~= after + rest);
            }
        }
        found.push(field);
        at = end;
    }
    proof {
        assert(views(found@) + Seq::<Seq<u8>>::empty() =~= views(found@));
    }
    Some(found)
}

} // verus!
