//! The tag sequence that a discovery-stage frame carries.

use crate::payload::{
    be16, be16_bytes, cow_bytes, lemma_be16_of_bytes, lemma_bytes_of_be16, read_be16, write_be16,
    write_bytes, Payload,
};
use std::borrow::Cow;
use vstd::prelude::*;
use vstd::slice::slice_subrange;

verus! {

/// Number of bytes in front of a tag's value: its type and its length.
pub const TAG_HEADER_LEN: usize = 4;

/// Tag type of Service-Name.
pub const TAG_SERVICE_NAME: u16 = 0x0101;

/// Tag type of AC-Name.
pub const TAG_AC_NAME: u16 = 0x0102;

/// Tag type of Host-Uniq.
pub const TAG_HOST_UNIQ: u16 = 0x0103;

/// A tag sequence as it is held in memory: each tag's type and value.
pub type Tags<'a> = Vec<(u16, Cow<'a, [u8]>)>;

/// A tag in contracts: its type and the bytes of its value.
pub type TagModel = (u16, Seq<u8>);

/// The tags of `tags`, each with its value as a sequence of bytes.
pub open spec fn tags_model(tags: Seq<(u16, Cow<'_, [u8]>)>) -> Seq<TagModel> {
    Seq::new(tags.len(), |i: int| (tags[i].0, tags[i].1@))
}

/// The values of the tags of type `ty`, in their order.
pub open spec fn values_of(tags: Seq<TagModel>, ty: u16) -> Seq<Seq<u8>>
    decreases tags.len(),
{
    if tags.len() == 0 {
        Seq::empty()
    } else {
        let front = values_of(tags.drop_last(), ty);
        if tags.last().0 == ty {
            front.push(tags.last().1)
        } else {
            front
        }
    }
}

/// The values of one type among the first `n` tags are the first of those
/// among all tags.
pub proof fn lemma_values_of_prefix(tags: Seq<TagModel>, n: int, ty: u16)
    requires
        0 <= n <= tags.len(),
    ensures
        values_of(tags.take(n), ty).is_prefix_of(values_of(tags, ty)),
    decreases tags.len(),
{
    if n == tags.len() {
        assert(tags.take(n) =~= tags);
    } else {
        lemma_values_of_prefix(tags.drop_last(), n, ty);
        assert(tags.drop_last().take(n) =~= tags.take(n));
    }
}

/// Whether the length of every value fits into the two bytes that hold it.
pub open spec fn tags_encodable(tags: Seq<TagModel>) -> bool {
    forall|i: int| 0 <= i < tags.len() ==> (#[trigger] tags[i]).1.len() <= u16::MAX
}

/// The bytes of one tag: type, length of the value, value.
pub open spec fn encode_tag(tag: TagModel) -> Seq<u8> {
    be16_bytes(tag.0) + be16_bytes(tag.1.len() as u16) + tag.1
}

/// The bytes of a tag sequence: the tags one behind the other, in their
/// order, with nothing between them.
pub open spec fn encode_tags(tags: Seq<TagModel>) -> Seq<u8>
    decreases tags.len(),
{
    if tags.len() == 0 {
        Seq::empty()
    } else {
        encode_tag(tags[0]) + encode_tags(tags.skip(1))
    }
}

/// The length that the tag header at the front of `data` declares.
pub open spec fn tag_declared_len(data: Seq<u8>) -> int
    recommends
        data.len() >= TAG_HEADER_LEN,
{
    be16(data[2], data[3]) as int
}

/// The tags that `data` is made of, if it is made of whole tags: it is empty,
/// or it begins with a tag header whose value lies within `data` and goes on
/// with a run of whole tags.
pub open spec fn decode_tags(data: Seq<u8>) -> Option<Seq<TagModel>>
    decreases data.len(),
{
    if data.len() == 0 {
        Some(Seq::empty())
    } else if data.len() < TAG_HEADER_LEN || data.len() - TAG_HEADER_LEN < tag_declared_len(data) {
        None
    } else {
        let end = TAG_HEADER_LEN + tag_declared_len(data);
        match decode_tags(data.skip(end)) {
            Some(rest) => Some(
                seq![(be16(data[0], data[1]), data.subrange(TAG_HEADER_LEN as int, end))] + rest,
            ),
            None => None,
        }
    }
}

/// The bytes of a tag sequence that ends with `tag` are those of the tags in
/// front of it, then those of `tag`.
pub proof fn lemma_encode_tags_push(tags: Seq<TagModel>, tag: TagModel)
    ensures
        encode_tags(tags.push(tag)) == encode_tags(tags) + encode_tag(tag),
    decreases tags.len(),
{
    if tags.len() == 0 {
        reveal_with_fuel(encode_tags, 2);
        assert(tags.push(tag).skip(1) =~= Seq::<TagModel>::empty());
        assert(encode_tags(tags.push(tag)) =~= encode_tags(tags) + encode_tag(tag));
    } else {
        lemma_encode_tags_push(tags.skip(1), tag);
        assert(tags.push(tag).skip(1) =~= tags.skip(1).push(tag));
        assert(encode_tags(tags.push(tag)) =~= encode_tags(tags) + encode_tag(tag));
    }
}

/// The bytes of two tag sequences in a row are those of the first, then
/// those of the second.
pub proof fn lemma_encode_tags_add(a: Seq<TagModel>, b: Seq<TagModel>)
    ensures
        encode_tags(a + b) == encode_tags(a) + encode_tags(b),
    decreases b.len(),
{
    if b.len() == 0 {
        assert(a + b =~= a);
        assert(encode_tags(a) + encode_tags(b) =~= encode_tags(a));
    } else {
        lemma_encode_tags_add(a.push(b[0]), b.skip(1));
        lemma_encode_tags_push(a, b[0]);
        assert(a.push(b[0]) + b.skip(1) =~= a + b);
        assert(encode_tags(a) + encode_tag(b[0]) + encode_tags(b.skip(1)) =~= encode_tags(a) + (
        encode_tag(b[0]) + encode_tags(b.skip(1))));
    }
}

/// A tag sequence takes four bytes for each tag and one for each byte of a value.
pub proof fn lemma_encode_tags_len(tags: Seq<TagModel>)
    ensures
        encode_tags(tags).len() >= TAG_HEADER_LEN * tags.len(),
        forall|i: int|
            0 <= i < tags.len() ==> encode_tags(tags).len() >= TAG_HEADER_LEN + (
            #[trigger] tags[i]).1.len(),
    decreases tags.len(),
{
    if tags.len() > 0 {
        lemma_encode_tags_len(tags.skip(1));
        assert forall|i: int| 0 <= i < tags.len() implies encode_tags(tags).len()
            >= TAG_HEADER_LEN + (#[trigger] tags[i]).1.len() by {
            if i > 0 {
                assert(tags[i] == tags.skip(1)[i - 1]);
            }
        }
    }
}

/// A whole tag in front of any bytes is read as that tag, and the reading
/// goes on behind it.
pub proof fn lemma_decode_tags_cons(tag: TagModel, rest: Seq<u8>)
    requires
        tag.1.len() <= u16::MAX,
    ensures
        decode_tags(encode_tag(tag) + rest) == match decode_tags(rest) {
            Some(tags) => Some(seq![tag] + tags),
            None => None,
        },
{
    let data = encode_tag(tag) + rest;
    lemma_be16_of_bytes(tag.0);
    lemma_be16_of_bytes(tag.1.len() as u16);
    let end = TAG_HEADER_LEN + tag_declared_len(data);
    assert(data.skip(end) =~= rest);
    assert(data.subrange(TAG_HEADER_LEN as int, end) =~= tag.1);
}

/// Round trip of a tag sequence: read after written, it is the same sequence.
pub proof fn lemma_decode_encode_tags(tags: Seq<TagModel>)
    requires
        tags_encodable(tags),
    ensures
        decode_tags(encode_tags(tags)) == Some(tags),
    decreases tags.len(),
{
    if tags.len() > 0 {
        lemma_decode_encode_tags(tags.skip(1));
        lemma_decode_tags_cons(tags[0], encode_tags(tags.skip(1)));
        assert(seq![tags[0]] + tags.skip(1) =~= tags);
    } else {
        assert(tags =~= Seq::empty());
    }
}

/// What was read as a tag sequence is written as the bytes it was read from.
pub proof fn lemma_encode_decode_tags(data: Seq<u8>)
    requires
        decode_tags(data) is Some,
    ensures
        tags_encodable(decode_tags(data)->Some_0),
        encode_tags(decode_tags(data)->Some_0) == data,
    decreases data.len(),
{
    if data.len() > 0 {
        let end = TAG_HEADER_LEN + tag_declared_len(data);
        let first = (be16(data[0], data[1]), data.subrange(TAG_HEADER_LEN as int, end));
        let rest = decode_tags(data.skip(end))->Some_0;
        let tags = decode_tags(data)->Some_0;
        lemma_encode_decode_tags(data.skip(end));
        lemma_bytes_of_be16(data[0], data[1]);
        lemma_bytes_of_be16(data[2], data[3]);
        assert(tags.skip(1) =~= rest);
        assert(encode_tag(first) =~= data.subrange(0, end));
        assert(data.subrange(0, end) + data.skip(end) =~= data);
        assert forall|i: int| 0 <= i < tags.len() implies (#[trigger] tags[i]).1.len()
            <= u16::MAX by {
            if i > 0 {
                assert(tags[i] == rest[i - 1]);
            }
        }
    }
}

/// Whole tags in front of any bytes are read as those tags, and the reading
/// goes on behind them.
pub proof fn lemma_decode_tags_prefix(tags: Seq<TagModel>, tail: Seq<u8>)
    requires
        tags_encodable(tags),
    ensures
        decode_tags(encode_tags(tags) + tail) == match decode_tags(tail) {
            Some(rest) => Some(tags + rest),
            None => None,
        },
    decreases tags.len(),
{
    if tags.len() == 0 {
        assert(encode_tags(tags) + tail =~= tail);
        if let Some(rest) = decode_tags(tail) {
            assert(tags + rest =~= rest);
        }
    } else {
        let behind = encode_tags(tags.skip(1)) + tail;
        lemma_decode_tags_prefix(tags.skip(1), tail);
        lemma_decode_tags_cons(tags[0], behind);
        assert(encode_tags(tags) + tail =~= encode_tag(tags[0]) + behind);
        if let Some(rest) = decode_tags(tail) {
            assert(seq![tags[0]] + (tags.skip(1) + rest) =~= tags + rest);
        }
    }
}

/// A tag stream that ends in fewer than four bytes, where a tag header is
/// due, is rejected.
pub proof fn lemma_dangling_header_rejected(tags: Seq<TagModel>, tail: Seq<u8>)
    requires
        tags_encodable(tags),
        0 < tail.len() < TAG_HEADER_LEN,
    ensures
        decode_tags(encode_tags(tags) + tail) is None,
{
    lemma_decode_tags_prefix(tags, tail);
}

/// A tag stream in which a tag declares more bytes than are left behind its
/// header is rejected.
pub proof fn lemma_truncated_value_rejected(tags: Seq<TagModel>, tail: Seq<u8>)
    requires
        tags_encodable(tags),
        tail.len() >= TAG_HEADER_LEN,
        tag_declared_len(tail) > tail.len() - TAG_HEADER_LEN,
    ensures
        decode_tags(encode_tags(tags) + tail) is None,
{
    lemma_decode_tags_prefix(tags, tail);
}

/// A tag sequence, as a discovery-stage frame carries it.
impl<'a> Payload<'a> for Vec<(u16, Cow<'a, [u8]>)> {
    type Model = Seq<TagModel>;

    open spec fn model(&self) -> Seq<TagModel> {
        tags_model(self@)
    }

    open spec fn encodable(m: Seq<TagModel>) -> bool {
        tags_encodable(m)
    }

    open spec fn encode(m: Seq<TagModel>) -> Seq<u8> {
        encode_tags(m)
    }

    open spec fn decode(data: Seq<u8>) -> Option<Seq<TagModel>> {
        decode_tags(data)
    }

    proof fn lemma_decode_encode(m: Seq<TagModel>) {
        lemma_decode_encode_tags(m);
    }

    proof fn lemma_encode_decode(data: Seq<u8>) {
        lemma_encode_decode_tags(data);
    }

    proof fn lemma_fitting_is_encodable(m: Seq<TagModel>) {
        lemma_encode_tags_len(m);
    }

    fn fits_in(&self, limit: usize) -> (r: bool) {
        let ghost all = tags_model(self@);
        let mut total: usize = 0;
        let mut i: usize = 0;
        assert(all.take(0) =~= Seq::<TagModel>::empty());
        while i < self.len()
            invariant
                i <= self.len(),
                all == tags_model(self@),
                total == encode_tags(all.take(i as int)).len(),
                total <= limit,
            decreases self.len() - i,
        {
            let n: usize = cow_bytes(&self[i].1).len();
            proof {
                lemma_encode_tags_push(all.take(i as int), all[i as int]);
                lemma_encode_tags_add(all.take(i + 1), all.skip(i + 1));
                assert(all.take(i as int).push(all[i as int]) =~= all.take(i + 1));
                assert(all.take(i + 1) + all.skip(i + 1) =~= all);
            }
            if limit - total < TAG_HEADER_LEN || limit - total - TAG_HEADER_LEN < n {
                return false;
            }
            total += TAG_HEADER_LEN + n;
            i += 1;
        }
        assert(all.take(i as int) =~= all);
        true
    }

    fn deserialize(data: &'a [u8]) -> (r: Option<Self>) {
        let mut tags: Vec<(u16, Cow<'a, [u8]>)> = Vec::new();
        let mut pos: usize = 0;
        proof {
            assert(data@.skip(0) =~= data@);
            if let Some(rest) = decode_tags(data@) {
                assert(tags_model(tags@) + rest =~= rest);
            }
        }
        while pos < data.len()
            invariant
                pos <= data.len(),
                decode_tags(data@) == match decode_tags(data@.skip(pos as int)) {
                    Some(rest) => Some(tags_model(tags@) + rest),
                    None => None,
                },
            decreases data.len() - pos,
        {
            let ghost here = data@.skip(pos as int);
            if data.len() - pos < TAG_HEADER_LEN {
                return None;
            }
            let ty: u16 = read_be16(data[pos], data[pos + 1]);
            let length: usize = read_be16(data[pos + 2], data[pos + 3]) as usize;
            if data.len() - pos - TAG_HEADER_LEN < length {
                return None;
            }
            let start: usize = pos + TAG_HEADER_LEN;
            let value: Cow<'a, [u8]> = Cow::Borrowed(slice_subrange(data, start, start + length));
            proof {
                let end = TAG_HEADER_LEN + tag_declared_len(here);
                let first = (ty, value@);
                assert(here.subrange(TAG_HEADER_LEN as int, end) =~= value@);
                assert(here.skip(end) =~= data@.skip(start + length));
                assert(tags_model(tags@.push((ty, value))) =~= tags_model(tags@).push(first));
                match decode_tags(here.skip(end)) {
                    Some(rest) => {
                        assert(tags_model(tags@) + (seq![first] + rest) =~= tags_model(
                            tags@,
                        ).push(first) + rest);
                    },
                    None => {},
                }
            }
            tags.push((ty, value));
            pos = start + length;
        }
        assert(data@.skip(pos as int) =~= Seq::<u8>::empty());
        assert(tags_model(tags@) + Seq::<TagModel>::empty() =~= tags_model(tags@));
        Some(tags)
    }

    fn serialize(&self, buf: &mut Vec<u8>) {
        let mut i: usize = 0;
        assert(tags_model(self@).take(0) =~= Seq::<TagModel>::empty());
        assert(buf@ =~= old(buf)@ + encode_tags(Seq::<TagModel>::empty()));
        while i < self.len()
            invariant
                i <= self.len(),
                tags_encodable(tags_model(self@)),
                buf@ == old(buf)@ + encode_tags(tags_model(self@).take(i as int)),
            decreases self.len() - i,
        {
            let ghost before = buf@;
            let ghost tag = tags_model(self@)[i as int];
            let value: &[u8] = cow_bytes(&self[i].1);
            let len: u16 = value.len() as u16;
            write_be16(buf, self[i].0);
            write_be16(buf, len);
            write_bytes(buf, value);
            proof {
                lemma_encode_tags_push(tags_model(self@).take(i as int), tag);
                assert(tags_model(self@).take(i as int).push(tag) =~= tags_model(self@).take(
                    i + 1,
                ));
                assert(buf@ =~= before + encode_tag(tag));
            }
            i += 1;
        }
        assert(tags_model(self@).take(i as int) =~= tags_model(self@));
    }
}

} // verus!
