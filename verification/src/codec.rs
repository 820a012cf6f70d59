//! Size-prefixed byte encoding of todo items and lists of todo items.
//!
//! One item is encoded as an 8-byte little-endian length of the UTF-8
//! encoded body, the body bytes themselves, one completion byte (`0` or
//! `1`), and the 8-byte little-endian creation timestamp. A list is the
//! 8-byte little-endian item count followed by the encoded items in order.
//!
//! The decoder accepts exactly the encodings the encoder produces; the
//! round-trip lemmas at the end state that decoding inverts encoding.

use crate::todo::{views_of, TodoItem, TodoItemView};
use vstd::bytes::{
    lemma_auto_spec_u64_to_from_le_bytes, spec_u64_from_le_bytes, spec_u64_to_le_bytes,
    u64_from_le_bytes, u64_to_le_bytes,
};
use vstd::prelude::*;
use vstd::slice::{slice_subrange, slice_to_vec};
use vstd::utf8::{decode_utf8, encode_utf8, encode_utf8_decode_utf8, encode_utf8_valid_utf8, valid_utf8};

verus! {

/// The encoding of one item.
pub open spec fn spec_encode_item(v: TodoItemView) -> Seq<u8> {
    spec_u64_to_le_bytes(encode_utf8(v.body).len() as u64) + encode_utf8(v.body) + seq![
        (if v.completed {
            1u8
        } else {
            0u8
        }),
    ] + spec_u64_to_le_bytes(v.created_at)
}

/// An item can be encoded when its body's UTF-8 length fits the length
/// prefix. Every item held in memory satisfies this.
pub open spec fn item_encodable(v: TodoItemView) -> bool {
    encode_utf8(v.body).len() <= u64::MAX
}

/// The encodings of the items of `vs`, concatenated in order.
pub open spec fn spec_encode_items(vs: Seq<TodoItemView>) -> Seq<u8>
    decreases vs.len(),
{
    if vs.len() == 0 {
        Seq::empty()
    } else {
        spec_encode_item(vs[0]) + spec_encode_items(vs.drop_first())
    }
}

/// A list can be encoded when its length fits the count prefix and each
/// item can be encoded.
pub open spec fn list_encodable(vs: Seq<TodoItemView>) -> bool {
    vs.len() <= u64::MAX && forall|i: int| 0 <= i < vs.len() ==> item_encodable(#[trigger] vs[i])
}

/// The encoding of a whole list: the item count, then the items.
pub open spec fn spec_encode_list(vs: Seq<TodoItemView>) -> Seq<u8> {
    spec_u64_to_le_bytes(vs.len() as u64) + spec_encode_items(vs)
}

/// Decodes one item from the front of `b`: the item and the remaining
/// bytes, or nothing if `b` does not start with a valid item encoding.
pub open spec fn spec_decode_item(b: Seq<u8>) -> Option<(TodoItemView, Seq<u8>)> {
    if b.len() < 8 {
        None
    } else {
        let blen = spec_u64_from_le_bytes(b.take(8)) as int;
        let rest = b.skip(8);
        if rest.len() < blen + 9 {
            None
        } else {
            let body_bytes = rest.take(blen);
            let cb = rest[blen];
            let ts = spec_u64_from_le_bytes(rest.subrange(blen + 1, blen + 9));
            if (cb == 0 || cb == 1) && valid_utf8(body_bytes) {
                Some(
                    (
                        TodoItemView {
                            body: decode_utf8(body_bytes),
                            completed: cb == 1,
                            created_at: ts,
                        },
                        rest.skip(blen + 9),
                    ),
                )
            } else {
                None
            }
        }
    }
}

/// Decodes `m` items from the front of `b`: the items and the remaining
/// bytes, or nothing if some item encoding is invalid.
pub open spec fn spec_decode_items(b: Seq<u8>, m: nat) -> Option<(Seq<TodoItemView>, Seq<u8>)>
    decreases m,
{
    if m == 0 {
        Some((Seq::empty(), b))
    } else {
        match spec_decode_item(b) {
            Some(p) => match spec_decode_items(p.1, (m - 1) as nat) {
                Some(q) => Some((seq![p.0] + q.0, q.1)),
                None => None,
            },
            None => None,
        }
    }
}

/// Decodes a whole list: the count prefix, then exactly that many items,
/// with no bytes left over.
pub open spec fn spec_decode_list(b: Seq<u8>) -> Option<Seq<TodoItemView>> {
    if b.len() < 8 {
        None
    } else {
        let n = spec_u64_from_le_bytes(b.take(8));
        match spec_decode_items(b.skip(8), n as nat) {
            Some(p) => if p.1.len() == 0 {
                Some(p.0)
            } else {
                None
            },
            None => None,
        }
    }
}

/// Relies on `String::from_utf8`: it returns the string whose UTF-8
/// encoding is exactly the given bytes, and fails precisely on byte
/// sequences that are not valid UTF-8.
#[verifier::external_body]
fn string_from_utf8(bytes: Vec<u8>) -> (r: Option<String>)
    ensures
        match r {
            Some(s) => encode_utf8(s@) == bytes@,
            None => !valid_utf8(bytes@),
        },
{
    match String::from_utf8(bytes) {
        Ok(s) => Some(s),
        Err(_) => None,
    }
}

/// Encodes one item.
pub fn encode_item(item: &TodoItem) -> (r: Vec<u8>)
    ensures
        r@ == spec_encode_item(item@),
        item_encodable(item@),
{
    let body_slice: &[u8] = item.body.as_str().as_bytes();
    let mut body = slice_to_vec(body_slice);
    let mut out = u64_to_le_bytes(body.len() as u64);
    out.append(&mut body);
    out.push(if item.completed { 1u8 } else { 0u8 });
    let mut ts = u64_to_le_bytes(item.created_at);
    out.append(&mut ts);
    proof {
        assert(out@ =~= spec_encode_item(item@));
    }
    out
}

/// Appending an item extends the concatenated encoding at the end.
pub proof fn lemma_encode_items_push(vs: Seq<TodoItemView>, v: TodoItemView)
    ensures
        spec_encode_items(vs.push(v)) == spec_encode_items(vs) + spec_encode_item(v),
    decreases vs.len(),
{
    if vs.len() == 0 {
        assert(vs.push(v).drop_first() =~= Seq::<TodoItemView>::empty());
        assert(vs.push(v)[0] == v);
        assert(vs.push(v).len() == 1);
        assert(spec_encode_items(Seq::<TodoItemView>::empty()) == Seq::<u8>::empty());
        assert(spec_encode_items(vs.push(v)) == spec_encode_item(vs.push(v)[0])
            + spec_encode_items(vs.push(v).drop_first()));
        assert(spec_encode_items(vs.push(v)) == spec_encode_item(v) + Seq::<u8>::empty());
        assert(spec_encode_items(vs) == Seq::<u8>::empty());
        assert(spec_encode_item(v) + Seq::<u8>::empty() =~= Seq::<u8>::empty()
            + spec_encode_item(v));
    } else {
        assert(vs.push(v).drop_first() =~= vs.drop_first().push(v));
        lemma_encode_items_push(vs.drop_first(), v);
        assert(vs.push(v)[0] == vs[0]);
        assert(spec_encode_items(vs.push(v)) =~= spec_encode_items(vs) + spec_encode_item(v));
    }
}

/// Encodes a whole list.
pub fn encode_list(items: &Vec<TodoItem>) -> (r: Vec<u8>)
    ensures
        r@ == spec_encode_list(views_of(items@)),
        list_encodable(views_of(items@)),
{
    let ghost vs = views_of(items@);
    proof {
        assert(vs.len() == items@.len());
    }
    let mut out = u64_to_le_bytes(items.len() as u64);
    let mut i: usize = 0;
    while i < items.len()
        invariant
            0 <= i <= items@.len(),
            vs == views_of(items@),
            vs.len() == items@.len(),
            out@ == spec_u64_to_le_bytes(items@.len() as u64) + spec_encode_items(
                vs.take(i as int),
            ),
            forall|j: int| 0 <= j < i ==> item_encodable(#[trigger] vs[j]),
        decreases items@.len() - i,
    {
        let mut piece = encode_item(&items[i]);
        proof {
            assert(vs[i as int] == items@[i as int]@);
            lemma_encode_items_push(vs.take(i as int), vs[i as int]);
            assert(vs.take(i as int).push(vs[i as int]) =~= vs.take(i as int + 1));
        }
        out.append(&mut piece);
        i += 1;
    }
    proof {
        assert(vs.take(vs.len() as int) =~= vs);
    }
    out
}

/// Decodes one item starting at byte offset `pos`, returning the item and
/// the offset just past it.
fn decode_item_at(bytes: &Vec<u8>, pos: usize) -> (r: Option<(TodoItem, usize)>)
    requires
        pos <= bytes@.len(),
    ensures
        match r {
            Some(p) => pos < p.1 <= bytes@.len() && spec_decode_item(bytes@.skip(pos as int))
                == Some((p.0@, bytes@.skip(p.1 as int))),
            None => spec_decode_item(bytes@.skip(pos as int)) is None,
        },
{
    proof {
        lemma_auto_spec_u64_to_from_le_bytes();
    }
    let ghost b = bytes@.skip(pos as int);
    let n = bytes.len();
    if n - pos < 8 {
        return None;
    }
    let len_slice = slice_subrange(bytes.as_slice(), pos, pos + 8);
    let blen64 = u64_from_le_bytes(len_slice);
    proof {
        assert(len_slice@ =~= b.take(8));
    }
    let ghost rest = b.skip(8);
    proof {
        assert(rest.len() == n - pos - 8);
    }
    let remaining = n - pos - 8;
    if remaining < 9 {
        return None;
    }
    let avail = remaining - 9;
    if blen64 > avail as u64 {
        return None;
    }
    let blen = blen64 as usize;
    let body_slice = slice_subrange(bytes.as_slice(), pos + 8, pos + 8 + blen);
    let body_vec = slice_to_vec(body_slice);
    proof {
        assert(body_vec@ =~= rest.take(blen as int));
    }
    let cb = bytes[pos + 8 + blen];
    proof {
        assert(cb == rest[blen as int]);
    }
    if cb > 1 {
        return None;
    }
    let ts_slice = slice_subrange(bytes.as_slice(), pos + 9 + blen, pos + 17 + blen);
    let ts = u64_from_le_bytes(ts_slice);
    proof {
        assert(ts_slice@ =~= rest.subrange(blen as int + 1, blen as int + 9));
    }
    match string_from_utf8(body_vec) {
        None => {
            return None;
        },
        Some(body) => {
            proof {
                encode_utf8_valid_utf8(body@);
                encode_utf8_decode_utf8(body@);
                assert(rest.skip(blen as int + 9) =~= bytes@.skip(pos as int + 17 + blen as int));
            }
            let item = TodoItem { body, completed: cb == 1, created_at: ts };
            Some((item, pos + 17 + blen))
        },
    }
}

/// Prefixing a fixed accumulator onto whatever `spec_decode_items` yields;
/// the shape of the list decoder loop invariant.
spec fn decode_ctx(acc: Seq<TodoItemView>, b: Seq<u8>, m: nat) -> Option<
    (Seq<TodoItemView>, Seq<u8>),
> {
    match spec_decode_items(b, m) {
        Some(p) => Some((acc + p.0, p.1)),
        None => None,
    }
}

/// Consuming one decoded item moves it from the pending bytes into the
/// accumulator without changing the overall outcome.
proof fn lemma_decode_ctx_step(
    acc: Seq<TodoItemView>,
    b: Seq<u8>,
    m: nat,
    v: TodoItemView,
    rest: Seq<u8>,
)
    requires
        m >= 1,
        spec_decode_item(b) == Some((v, rest)),
    ensures
        decode_ctx(acc, b, m) == decode_ctx(acc.push(v), rest, (m - 1) as nat),
{
    match spec_decode_items(rest, (m - 1) as nat) {
        Some(q) => {
            assert(spec_decode_items(b, m) == Some((seq![v] + q.0, q.1)));
            assert(acc + (seq![v] + q.0) =~= acc.push(v) + q.0);
        },
        None => {
            assert(spec_decode_items(b, m) is None);
        },
    }
}

/// Decodes a whole list, or returns nothing if the bytes are not exactly
/// a valid list encoding.
pub fn decode_list(bytes: &Vec<u8>) -> (r: Option<Vec<TodoItem>>)
    ensures
        match r {
            Some(v) => spec_decode_list(bytes@) == Some(views_of(v@)),
            None => spec_decode_list(bytes@) is None,
        },
{
    proof {
        lemma_auto_spec_u64_to_from_le_bytes();
    }
    if bytes.len() < 8 {
        return None;
    }
    let count_slice = slice_subrange(bytes.as_slice(), 0, 8);
    let count = u64_from_le_bytes(count_slice);
    proof {
        assert(count_slice@ =~= bytes@.take(8));
    }
    let mut items: Vec<TodoItem> = Vec::new();
    let mut pos: usize = 8;
    let mut k: u64 = 0;
    proof {
        assert(views_of(items@) =~= Seq::<TodoItemView>::empty());
        assert(bytes@.skip(8) =~= bytes@.skip(pos as int));
    }
    while k < count
        invariant
            8 <= pos <= bytes@.len(),
            k <= count,
            count == spec_u64_from_le_bytes(bytes@.take(8)),
            bytes@.len() >= 8,
            views_of(items@).len() == k,
            decode_ctx(Seq::empty(), bytes@.skip(8), count as nat) == decode_ctx(
                views_of(items@),
                bytes@.skip(pos as int),
                (count - k) as nat,
            ),
        decreases count - k,
    {
        match decode_item_at(bytes, pos) {
            None => {
                proof {
                    assert(spec_decode_items(bytes@.skip(pos as int), (count - k) as nat) is None);
                }
                return None;
            },
            Some((item, np)) => {
                proof {
                    lemma_decode_ctx_step(
                        views_of(items@),
                        bytes@.skip(pos as int),
                        (count - k) as nat,
                        item@,
                        bytes@.skip(np as int),
                    );
                    assert(views_of(items@).push(item@) =~= views_of(items@.push(item)));
                }
                items.push(item);
                pos = np;
                k = k + 1;
            },
        }
    }
    if pos != bytes.len() {
        proof {
            let p = spec_decode_items(bytes@.skip(8), count as nat);
            assert(p matches Some(q) && q.1 == bytes@.skip(pos as int));
            assert(bytes@.skip(pos as int).len() != 0);
        }
        return None;
    }
    proof {
        let p = spec_decode_items(bytes@.skip(8), count as nat);
        assert(p matches Some(q) && q.1 == bytes@.skip(pos as int));
        assert(bytes@.skip(pos as int).len() == 0);
        let q = p->Some_0;
        assert(Seq::empty() + q.0 =~= q.0);
        assert(views_of(items@) + q.0.skip(q.0.len() as int) =~= views_of(items@));
        assert(q.0 == views_of(items@));
    }
    Some(items)
}

/// Decoding inverts encoding for one item, whatever follows it.
pub proof fn lemma_decode_encode_item(v: TodoItemView, tail: Seq<u8>)
    requires
        item_encodable(v),
    ensures
        spec_decode_item(spec_encode_item(v) + tail) == Some((v, tail)),
{
    lemma_auto_spec_u64_to_from_le_bytes();
    encode_utf8_valid_utf8(v.body);
    encode_utf8_decode_utf8(v.body);
    let bb = encode_utf8(v.body);
    let cb: u8 = if v.completed {
        1u8
    } else {
        0u8
    };
    let e = spec_encode_item(v) + tail;
    assert(e.take(8) =~= spec_u64_to_le_bytes(bb.len() as u64));
    let rest = e.skip(8);
    let blen = bb.len() as int;
    assert(rest.take(blen) =~= bb);
    assert(rest[blen] == cb);
    assert(rest.subrange(blen + 1, blen + 9) =~= spec_u64_to_le_bytes(v.created_at));
    assert(rest.skip(blen + 9) =~= tail);
    assert(rest.len() == blen + 9 + tail.len());
}

/// Decoding inverts encoding for any run of items, whatever follows it.
pub proof fn lemma_decode_encode_items(vs: Seq<TodoItemView>, tail: Seq<u8>)
    requires
        forall|i: int| 0 <= i < vs.len() ==> item_encodable(#[trigger] vs[i]),
    ensures
        spec_decode_items(spec_encode_items(vs) + tail, vs.len()) == Some((vs, tail)),
    decreases vs.len(),
{
    if vs.len() == 0 {
        assert(spec_encode_items(vs) + tail =~= tail);
        assert(vs =~= Seq::<TodoItemView>::empty());
    } else {
        let rest_enc = spec_encode_items(vs.drop_first()) + tail;
        assert(spec_encode_items(vs) + tail =~= spec_encode_item(vs[0]) + rest_enc);
        lemma_decode_encode_item(vs[0], rest_enc);
        lemma_decode_encode_items(vs.drop_first(), tail);
        assert(seq![vs[0]] + vs.drop_first() =~= vs);
    }
}

/// Decoding inverts encoding for a whole list.
pub proof fn lemma_decode_encode_list(vs: Seq<TodoItemView>)
    requires
        list_encodable(vs),
    ensures
        spec_decode_list(spec_encode_list(vs)) == Some(vs),
{
    lemma_auto_spec_u64_to_from_le_bytes();
    let e = spec_encode_list(vs);
    assert(e.take(8) =~= spec_u64_to_le_bytes(vs.len() as u64));
    assert(e.skip(8) =~= spec_encode_items(vs) + Seq::<u8>::empty());
    lemma_decode_encode_items(vs, Seq::empty());
}

} // verus!
