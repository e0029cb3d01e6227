//! Lists of messages, each behind its length.
use vstd::prelude::*;
use vstd::slice::{slice_subrange, slice_to_vec};

use crate::error::{ErrorKind, PlanError};

verus! {

/// A number as a varint: seven bits per byte, the lowest first, and the high bit set on
/// all bytes but the last.
pub open spec fn varint_bytes(n: nat) -> Seq<u8>
    decreases n,
{
    if n < 128 {
        seq![n as u8]
    } else {
        seq![(n % 128 + 128) as u8] + varint_bytes(n / 128)
    }
}

/// The number that `bytes` start with as a varint, and the number of bytes it takes,
/// where `depth` bytes of it come before. It has at most ten bytes and 64 bits.
pub open spec fn varint_from(bytes: Seq<u8>, depth: nat) -> Option<(nat, nat)>
    decreases bytes.len(),
{
    if bytes.len() == 0 || depth >= 10 {
        None
    } else if bytes[0] < 128 {
        if depth == 9 && bytes[0] >= 2 {
            None
        } else {
            Some((bytes[0] as nat, 1))
        }
    } else {
        match varint_from(bytes.skip(1), depth + 1) {
            Some((n, taken)) => Some(((bytes[0] - 128 + 128 * n) as nat, taken + 1)),
            None => None,
        }
    }
}

/// A varint takes at least one byte, and no more than there are.
pub proof fn lemma_varint_taken(bytes: Seq<u8>, depth: nat)
    ensures
        varint_from(bytes, depth) matches Some((_, taken)) ==> 1 <= taken <= bytes.len(),
    decreases bytes.len(),
{
    if bytes.len() > 0 && depth < 10 && bytes[0] >= 128 {
        lemma_varint_taken(bytes.skip(1), depth + 1);
    }
}

/// What is left of the range of a varint after `depth` bytes.
spec fn varint_room(depth: nat) -> nat
    decreases 9 - depth,
{
    if depth >= 9 {
        2
    } else {
        128 * varint_room(depth + 1)
    }
}

/// Reading a varint back gives the number that was written, with `depth` bytes before.
proof fn lemma_varint_back(n: nat, rest: Seq<u8>, depth: nat)
    requires
        depth <= 9,
        n < varint_room(depth),
    ensures
        varint_from(varint_bytes(n) + rest, depth) == Some((n, varint_bytes(n).len())),
    decreases n,
{
    let bytes = varint_bytes(n) + rest;
    if n >= 128 {
        assert(bytes[0] == (n % 128 + 128) as u8);
        assert(bytes.skip(1) =~= varint_bytes(n / 128) + rest);
        assert(n / 128 < varint_room(depth + 1));
        lemma_varint_back(n / 128, rest, depth + 1);
    } else {
        assert(bytes[0] == n as u8);
    }
}

/// Reading a varint back gives the number that was written, whatever follows.
pub proof fn lemma_varint_round_trip(n: nat, rest: Seq<u8>)
    requires
        n <= u64::MAX,
    ensures
        varint_from(varint_bytes(n) + rest, 0) == Some((n, varint_bytes(n).len())),
{
    reveal_with_fuel(varint_room, 10);
    assert(varint_room(0) == 0x1_0000_0000_0000_0000);
    lemma_varint_back(n, rest, 0);
}

/// The length that `bytes` start with and the number of bytes it takes, or why there is
/// none.
pub open spec fn delimiter(bytes: Seq<u8>) -> Result<(nat, nat), Seq<char>> {
    match varint_from(bytes, 0) {
        None => Err("failed to decode Protobuf message: invalid varint"@),
        Some((n, taken)) => if n > usize::MAX {
            Err("failed to decode Protobuf message: length delimiter exceeds maximum usize value"@)
        } else {
            Ok((n, taken))
        },
    }
}

/// `prost::encode_length_delimiter` into an empty vector: the varint of the length; a
/// vector has room for it.
#[verifier::external_body]
fn encode_delimiter(length: usize) -> (bytes: Result<Vec<u8>, String>)
    ensures
        bytes is Ok,
        bytes->Ok_0@ == varint_bytes(length as nat),
{
    let mut buf = Vec::new();
    prost::encode_length_delimiter(length, &mut buf).map_err(|e| e.to_string())?;
    Ok(buf)
}

/// `prost::decode_length_delimiter`: the length that the bytes start with and the bytes
/// behind it, or the text of the error.
#[verifier::external_body]
fn decode_delimiter(bytes: &[u8]) -> (length: Result<(usize, &[u8]), String>)
    ensures
        match length {
            Ok((n, rest)) => delimiter(bytes@) matches Ok((m, taken)) && n == m && rest@
                == bytes@.skip(taken as int),
            Err(text) => delimiter(bytes@) == Err::<(nat, nat), Seq<char>>(text@),
        },
{
    let mut rest = bytes;
    let length = prost::decode_length_delimiter(&mut rest).map_err(|e| e.to_string())?;
    Ok((length, rest))
}

/// The text of the error for a message that ends early.
pub open spec fn underflow() -> Seq<char> {
    "failed to decode Protobuf message: buffer underflow"@
}

/// Messages behind their lengths, one after the other.
pub open spec fn framed(items: Seq<Seq<u8>>) -> Seq<u8>
    decreases items.len(),
{
    if items.len() == 0 {
        Seq::empty()
    } else {
        varint_bytes(items[0].len()) + items[0] + framed(items.skip(1))
    }
}

/// The message that `bytes` start with and the bytes behind it, or what is wrong with it.
pub open spec fn first_frame(bytes: Seq<u8>) -> Result<(Seq<u8>, Seq<u8>), Seq<char>> {
    match delimiter(bytes) {
        Err(text) => Err(text),
        Ok((n, taken)) => {
            let rest = bytes.skip(taken as int);
            if n > rest.len() {
                Err(underflow())
            } else {
                Ok((rest.take(n as int), rest.skip(n as int)))
            }
        },
    }
}

/// A message takes at least one byte.
pub proof fn lemma_frame_shrinks(bytes: Seq<u8>)
    ensures
        first_frame(bytes) matches Ok((_, rest)) ==> rest.len() < bytes.len(),
{
    lemma_varint_taken(bytes, 0);
}

/// The messages in `bytes`, up to the first that is malformed, and what is wrong with it.
pub open spec fn frames(bytes: Seq<u8>) -> (Seq<Seq<u8>>, Option<Seq<char>>)
    decreases bytes.len(),
{
    if bytes.len() == 0 {
        (Seq::empty(), None)
    } else {
        match first_frame(bytes) {
            Err(text) => (Seq::empty(), Some(text)),
            Ok((item, rest)) => {
                proof {
                    lemma_frame_shrinks(bytes);
                }
                let (items, error) = frames(rest);
                (seq![item] + items, error)
            },
        }
    }
}

/// Reading a framed message back gives the message, whatever follows.
pub proof fn lemma_frame_round_trip(item: Seq<u8>, rest: Seq<u8>)
    requires
        item.len() <= usize::MAX,
    ensures
        first_frame(varint_bytes(item.len()) + item + rest) == Ok::<_, Seq<char>>((item, rest)),
{
    let head = varint_bytes(item.len());
    let behind = item + rest;
    let bytes = head + item + rest;
    assert(bytes =~= head + behind);
    lemma_varint_round_trip(item.len(), behind);
    assert(bytes.skip(head.len() as int) =~= behind);
    assert(behind.take(item.len() as int) =~= item);
    assert(behind.skip(item.len() as int) =~= rest);
}

/// Reading framed messages back gives the messages.
pub proof fn lemma_frames_round_trip(items: Seq<Seq<u8>>)
    requires
        forall|i: int| 0 <= i < items.len() ==> (#[trigger] items[i]).len() <= usize::MAX,
    ensures
        frames(framed(items)) == (items, None::<Seq<char>>),
    decreases items.len(),
{
    let bytes = framed(items);
    if items.len() > 0 {
        lemma_frame_round_trip(items[0], framed(items.skip(1)));
        lemma_frame_shrinks(bytes);
        assert forall|i: int| 0 <= i < items.skip(1).len() implies (#[trigger] items.skip(
            1,
        )[i]).len() <= usize::MAX by {
            assert(items.skip(1)[i] == items[i + 1]);
        }
        lemma_frames_round_trip(items.skip(1));
        assert(seq![items[0]] + items.skip(1) =~= items);
    } else {
        assert(frames(bytes).0 =~= items);
    }
}

/// One more message comes at the end.
proof fn lemma_framed_push(items: Seq<Seq<u8>>, item: Seq<u8>)
    ensures
        framed(items.push(item)) == framed(items) + varint_bytes(item.len()) + item,
    decreases items.len(),
{
    if items.len() == 0 {
        reveal_with_fuel(framed, 2);
        assert(items.push(item).skip(1) =~= Seq::<Seq<u8>>::empty());
        assert(framed(items.push(item)) =~= framed(items) + varint_bytes(item.len()) + item);
    } else {
        assert(items.push(item).skip(1) =~= items.skip(1).push(item));
        lemma_framed_push(items.skip(1), item);
        assert(framed(items.push(item)) =~= framed(items) + varint_bytes(item.len()) + item);
    }
}

/// The contents of byte vectors.
pub open spec fn contents(items: Seq<Vec<u8>>) -> Seq<Seq<u8>> {
    items.map_values(|item: Vec<u8>| item@)
}

/// Appends bytes.
fn append_bytes(buf: &mut Vec<u8>, bytes: &Vec<u8>)
    ensures
        final(buf)@ == old(buf)@ + bytes@,
{
    let ghost before = buf@;
    let mut i: usize = 0;
    while i < bytes.len()
        invariant
            i <= bytes@.len(),
            buf@ =~= before + bytes@.take(i as int),
        decreases bytes@.len() - i,
    {
        buf.push(bytes[i]);
        i = i + 1;
    }
}

/// Puts a message behind its length, at the end of `buf`.
fn append_frame(buf: &mut Vec<u8>, item: &Vec<u8>) -> (done: Result<(), String>)
    ensures
        done is Ok,
        final(buf)@ == old(buf)@ + varint_bytes(item@.len()) + item@,
{
    match encode_delimiter(item.len()) {
        Ok(length) => {
            append_bytes(buf, &length);
            append_bytes(buf, item);
            Ok(())
        },
        Err(e) => Err(e),
    }
}

/// Puts a message behind its length.
pub fn encode_length_delimited(item: &Vec<u8>) -> (bytes: Result<Vec<u8>, String>)
    ensures
        bytes matches Ok(b) && b@ == varint_bytes(item@.len()) + item@,
{
    let mut buf: Vec<u8> = Vec::new();
    match append_frame(&mut buf, item) {
        Ok(()) => {
            assert(buf@ =~= varint_bytes(item@.len()) + item@);
            Ok(buf)
        },
        Err(e) => Err(e),
    }
}

/// Puts messages behind their lengths, one after the other.
pub fn encode_length_delimited_list(items: &Vec<Vec<u8>>) -> (bytes: Result<Vec<u8>, PlanError>)
    ensures
        bytes matches Ok(b) && b@ == framed(contents(items@)),
{
    let ghost all = contents(items@);
    let mut buf: Vec<u8> = Vec::new();
    let mut i: usize = 0;
    assert(all.take(0) =~= Seq::<Seq<u8>>::empty());
    while i < items.len()
        invariant
            i <= items@.len(),
            all == contents(items@),
            buf@ == framed(all.take(i as int)),
        decreases items@.len() - i,
    {
        match append_frame(&mut buf, &items[i]) {
            Ok(()) => {},
            Err(e) => {
                return Err(PlanError::internal("failed to encode expr list: ", e.as_str()));
            },
        }
        proof {
            lemma_framed_push(all.take(i as int), items@[i as int]@);
            assert(all.take(i + 1) =~= all.take(i as int).push(items@[i as int]@));
        }
        i = i + 1;
    }
    assert(all.take(i as int) =~= all);
    Ok(buf)
}

/// The message that `bytes` start with and the bytes behind it, or what is wrong with it.
pub fn take_frame(bytes: &[u8]) -> (frame: Result<(Vec<u8>, &[u8]), String>)
    ensures
        match frame {
            Ok((item, rest)) => first_frame(bytes@) == Ok::<_, Seq<char>>((item@, rest@)),
            Err(text) => first_frame(bytes@) == Err::<(Seq<u8>, Seq<u8>), _>(text@),
        },
{
    match decode_delimiter(bytes) {
        Err(text) => Err(text),
        Ok((length, behind)) => {
            if length > behind.len() {
                return Err("failed to decode Protobuf message: buffer underflow".to_owned());
            }
            let item = slice_to_vec(slice_subrange(behind, 0, length));
            let rest = slice_subrange(behind, length, behind.len());
            assert(item@ =~= behind@.take(length as int));
            assert(rest@ =~= behind@.skip(length as int));
            Ok((item, rest))
        },
    }
}

/// The message that `bytes` start with, or what is wrong with it.
pub fn decode_length_delimited(bytes: &Vec<u8>) -> (item: Result<Vec<u8>, String>)
    ensures
        match item {
            Ok(item) => first_frame(bytes@) matches Ok((found, _)) && item@ == found,
            Err(text) => first_frame(bytes@) == Err::<(Seq<u8>, Seq<u8>), _>(text@),
        },
{
    match take_frame(bytes.as_slice()) {
        Ok((item, _)) => Ok(item),
        Err(text) => Err(text),
    }
}

/// Takes a list of messages apart: the messages up to the first that is malformed, and
/// the error for that one.
pub fn decode_length_delimited_list(bytes: &[u8]) -> (list: (Vec<Vec<u8>>, Option<PlanError>))
    ensures
        contents(list.0@) == frames(bytes@).0,
        match frames(bytes@).1 {
            None => list.1 is None,
            Some(text) => list.1 matches Some(e) && e@ == (
                ErrorKind::Internal,
                "failed to decode expr list: "@ + text,
            ),
        },
{
    let mut items: Vec<Vec<u8>> = Vec::new();
    let mut rest = bytes;
    assert(contents(items@) + frames(rest@).0 =~= frames(bytes@).0);
    while rest.len() > 0
        invariant
            contents(items@) + frames(rest@).0 =~= frames(bytes@).0,
            frames(rest@).1 == frames(bytes@).1,
        decreases rest@.len(),
    {
        proof {
            lemma_frame_shrinks(rest@);
        }
        match take_frame(rest) {
            Err(text) => {
                assert(contents(items@) =~= frames(bytes@).0);
                return (
                    items,
                    Some(PlanError::internal("failed to decode expr list: ", text.as_str())),
                );
            },
            Ok((item, behind)) => {
                let ghost held = items@;
                let ghost added = item@;
                items.push(item);
                assert(contents(items@) =~= contents(held).push(added));
                rest = behind;
            },
        }
    }
    assert(contents(items@) =~= frames(bytes@).0);
    (items, None)
}

} // verus!
