use crate::encode::{push_zeros, zeros};
use crate::error::ArrayError;
use crate::hop::{align_up, lemma_align_up};
use crate::raw::{RawArray, RawArrayView};
use crate::word::{
    bytes_to_datum, lemma_pow256_values, lemma_word_bytes_len, lemma_word_of_bound,
    lemma_word_round_trip, push_word, word_bytes, word_of, ByteOrder,
};
use vstd::prelude::*;
use vstd::slice::{slice_subrange, slice_to_vec};

verus! {

/// The bytes of the fixed part of an array's header: its total length, the
/// number of its dimensions, the offset of its element stream, and the
/// identifier of its element type, four bytes each.
pub const HEADER_BYTES: usize = 16;

/// The alignment of the element stream within the array.
pub const MAX_ALIGN: usize = 8;

/// The largest number of dimensions of an array.
pub const MAX_DIMS: usize = 6;

/// The largest extent of a dimension, and the largest number of slots.
pub const MAX_ITEMS: u64 = 0x7fff_ffff;

/// The 32-bit number that lies at offset `at`.
pub open spec fn word32_at(image: Seq<u8>, at: int, order: ByteOrder) -> nat {
    word_of(image.subrange(at, at + 4), order)
}

/// The total length that a full length header states, where its two flag
/// bits are clear; `None` for any other header.
pub open spec fn plain_header_len(header: nat, order: ByteOrder) -> Option<nat> {
    match order {
        ByteOrder::Little => if header % 4 == 0 {
            Some(header / 4)
        } else {
            None
        },
        ByteOrder::Big => if header < 0x4000_0000 {
            Some(header)
        } else {
            None
        },
    }
}

/// The extent of dimension `k`, which lies behind the fixed part of the header.
pub open spec fn dim_at(image: Seq<u8>, k: int, order: ByteOrder) -> nat {
    word32_at(image, HEADER_BYTES + 4 * k, order)
}

/// The product of the extents of the first `ndim` dimensions; `None` where
/// an extent, or the product up to it, is more than `MAX_ITEMS`.
pub open spec fn item_count(image: Seq<u8>, ndim: nat, order: ByteOrder) -> Option<nat>
    decreases ndim,
{
    if ndim == 0 {
        Some(1)
    } else {
        match item_count(image, (ndim - 1) as nat, order) {
            Some(n) => if dim_at(image, ndim - 1, order) <= MAX_ITEMS && n * dim_at(
                image,
                ndim - 1,
                order,
            ) <= MAX_ITEMS {
                Some(n * dim_at(image, ndim - 1, order))
            } else {
                None
            },
            None => None,
        }
    }
}

/// Where the extents and lower bounds of `ndim` dimensions end.
pub open spec fn dims_end(ndim: nat) -> nat {
    HEADER_BYTES as nat + 8 * ndim
}

/// What the bytes of a whole array hold, or `None` where they are no array.
///
/// The header states the length of the whole, which must be the length of
/// the bytes, then the number of dimensions, the offset of the element
/// stream, and the element type. Behind it lie the extent of each dimension
/// and then the lower bound of each. The slots are as many as the product of
/// the extents, and none without dimensions. Where the offset is zero, no
/// slot is null, and the element stream starts at the next multiple of
/// `MAX_ALIGN`. Otherwise the presence bitmap comes next, one bit per slot,
/// and the element stream starts at the offset.
pub open spec fn parsed(image: Seq<u8>, order: ByteOrder) -> Option<RawArrayView> {
    if image.len() < HEADER_BYTES {
        None
    } else {
        let ndim = word32_at(image, 4, order);
        let offset = word32_at(image, 8, order);
        let oid = word32_at(image, 12, order);
        if plain_header_len(word32_at(image, 0, order), order) != Some(image.len()) || ndim
            > MAX_DIMS || dims_end(ndim) > image.len() {
            None
        } else {
            match item_count(image, ndim, order) {
                None => None,
                Some(n) => {
                    let len = if ndim == 0 {
                        0
                    } else {
                        n
                    };
                    let bits = (len + 7) / 8;
                    if offset == 0 {
                        if align_up(dims_end(ndim), MAX_ALIGN as nat) <= image.len() {
                            Some(
                                RawArrayView {
                                    oid: oid as u32,
                                    len,
                                    nulls: None,
                                    data: image.subrange(
                                        align_up(dims_end(ndim), MAX_ALIGN as nat) as int,
                                        image.len() as int,
                                    ),
                                    order,
                                },
                            )
                        } else {
                            None
                        }
                    } else if dims_end(ndim) + bits <= offset <= image.len() {
                        Some(
                            RawArrayView {
                                oid: oid as u32,
                                len,
                                nulls: Some(
                                    image.subrange(
                                        dims_end(ndim) as int,
                                        (dims_end(ndim) + bits) as int,
                                    ),
                                ),
                                data: image.subrange(offset as int, image.len() as int),
                                order,
                            },
                        )
                    } else {
                        None
                    }
                },
            }
        }
    }
}

/// Once the product of the extents is too large, it stays so.
pub proof fn lemma_item_count_none_stays(image: Seq<u8>, i: nat, j: nat, order: ByteOrder)
    requires
        i <= j,
        item_count(image, i, order) is None,
    ensures
        item_count(image, j, order) is None,
    decreases j,
{
    if i < j {
        lemma_item_count_none_stays(image, i, (j - 1) as nat, order);
    }
}

/// Reads the 32-bit number at offset `at`.
fn read_word32(image: &[u8], at: usize, order: ByteOrder) -> (word: u64)
    requires
        at + 4 <= image@.len(),
    ensures
        word == word32_at(image@, at as int, order),
        word < 0x1_0000_0000,
{
    let total = image.len();
    let bytes = slice_subrange(image, at, at + 4);
    proof {
        lemma_word_of_bound(bytes@, order);
        lemma_pow256_values();
    }
    bytes_to_datum(bytes, order)
}

/// Takes the bytes of a whole array apart: its header gives the element
/// type and the number of slots, and says where the presence bitmap and the
/// element stream lie. Bytes that are no array are refused.
pub fn parse(image: &[u8], order: ByteOrder) -> (r: Result<RawArray, ArrayError>)
    ensures
        parsed(image@, order) matches Some(raw) ==> (r matches Ok(array) && array@ == raw),
        parsed(image@, order) is None ==> (r matches Err(e) && e == ArrayError::OutOfBounds),
{
    let total = image.len();
    if total < HEADER_BYTES {
        return Err(ArrayError::OutOfBounds);
    }
    let header = read_word32(image, 0, order);
    let stated = match order {
        ByteOrder::Little => if header % 4 == 0 {
            header / 4
        } else {
            return Err(ArrayError::OutOfBounds);
        },
        ByteOrder::Big => if header < 0x4000_0000 {
            header
        } else {
            return Err(ArrayError::OutOfBounds);
        },
    };
    let ndim64 = read_word32(image, 4, order);
    let offset64 = read_word32(image, 8, order);
    let oid = read_word32(image, 12, order) as u32;
    if stated != total as u64 || ndim64 > MAX_DIMS as u64 {
        return Err(ArrayError::OutOfBounds);
    }
    let ndim = ndim64 as usize;
    let offset = offset64 as usize;
    let dims_end = HEADER_BYTES + 8 * ndim;
    if dims_end > total {
        return Err(ArrayError::OutOfBounds);
    }
    let mut count: u64 = 1;
    let mut k: usize = 0;
    while k < ndim
        invariant
            k <= ndim <= MAX_DIMS,
            HEADER_BYTES + 8 * ndim <= image@.len(),
            count <= MAX_ITEMS,
            ndim == word32_at(image@, 4, order),
            item_count(image@, k as nat, order) == Some(count as nat),
        decreases ndim - k,
    {
        let dim = read_word32(image, HEADER_BYTES + 4 * k, order);
        assert(dim == dim_at(image@, k as int, order));
        if dim > MAX_ITEMS {
            proof {
                assert(item_count(image@, (k + 1) as nat, order) is None);
                lemma_item_count_none_stays(image@, (k + 1) as nat, ndim as nat, order);
            }
            return Err(ArrayError::OutOfBounds);
        }
        assert(count * dim <= 0x7fff_ffff * 0x7fff_ffff) by (nonlinear_arith)
            requires
                count <= 0x7fff_ffff,
                dim <= 0x7fff_ffff,
        ;
        let product = count * dim;
        if product > MAX_ITEMS {
            proof {
                assert(item_count(image@, (k + 1) as nat, order) is None);
                lemma_item_count_none_stays(image@, (k + 1) as nat, ndim as nat, order);
            }
            return Err(ArrayError::OutOfBounds);
        }
        count = product;
        k = k + 1;
    }
    let len = if ndim == 0 {
        0
    } else {
        count as usize
    };
    let bits = (len + 7) / 8;
    if offset == 0 {
        // 16, 24, ..., 64: only every other one is a multiple of eight
        let data_at = if dims_end % MAX_ALIGN == 0 {
            dims_end
        } else {
            dims_end + (MAX_ALIGN - dims_end % MAX_ALIGN)
        };
        assert(data_at == align_up(dims_end as nat, MAX_ALIGN as nat));
        if data_at > total {
            return Err(ArrayError::OutOfBounds);
        }
        let data = slice_to_vec(slice_subrange(image, data_at, total));
        Ok(RawArray { oid, len, nulls: None, data, order })
    } else {
        if dims_end > offset || offset > total || bits > offset - dims_end {
            return Err(ArrayError::OutOfBounds);
        }
        let nulls = slice_to_vec(slice_subrange(image, dims_end, dims_end + bits));
        let data = slice_to_vec(slice_subrange(image, offset, total));
        Ok(RawArray { oid, len, nulls: Some(nulls), data, order })
    }
}

/// The number of dimensions that a composed array has: one, and none where
/// it has no slots.
pub open spec fn composed_ndim(raw: RawArrayView) -> nat {
    if raw.len == 0 {
        0
    } else {
        1
    }
}

/// The bytes between the dimensions and the element stream of a composed
/// array: the presence bitmap, if there is one, and zero bytes up to the
/// next multiple of `MAX_ALIGN`.
pub open spec fn composed_gap(raw: RawArrayView) -> Seq<u8> {
    let bits = match raw.nulls {
        Some(bits) => bits,
        None => Seq::empty(),
    };
    let end = dims_end(composed_ndim(raw)) + bits.len();
    bits + zeros((align_up(end, MAX_ALIGN as nat) - end) as nat)
}

/// Where the element stream of a composed array starts.
pub open spec fn composed_data_at(raw: RawArrayView) -> nat {
    dims_end(composed_ndim(raw)) + composed_gap(raw).len()
}

/// The length header of a composed array: a full header with clear flag
/// bits that states the length of the whole.
pub open spec fn composed_header(raw: RawArrayView) -> nat {
    let total = composed_data_at(raw) + raw.data.len();
    match raw.order {
        ByteOrder::Little => 4 * total,
        ByteOrder::Big => total,
    }
}

/// Whether an array can be written as bytes: its slots are no more than
/// `MAX_ITEMS`, its bitmap, if it has one, is of one bit per slot in as few
/// bytes as hold them, and the whole is short enough for its length header.
pub open spec fn composable(raw: RawArrayView) -> bool {
    &&& raw.len <= MAX_ITEMS
    &&& raw.nulls matches Some(bits) ==> bits.len() == (raw.len + 7) / 8
    &&& composed_data_at(raw) + raw.data.len() < 0x4000_0000
}

/// The header and the dimensions of a composed array: the length of the
/// whole, the number of dimensions, the offset of the element stream where
/// there is a bitmap and zero where there is none, and the element type;
/// then, where the array has slots, their number and the lower bound one.
pub open spec fn composed_head(raw: RawArrayView) -> Seq<u8> {
    let order = raw.order;
    word_bytes(composed_header(raw), 4, order) + word_bytes(composed_ndim(raw), 4, order)
        + word_bytes(
        if raw.nulls is Some {
            composed_data_at(raw)
        } else {
            0
        },
        4,
        order,
    ) + word_bytes(raw.oid as nat, 4, order) + (if raw.len == 0 {
        Seq::empty()
    } else {
        word_bytes(raw.len, 4, order) + word_bytes(1, 4, order)
    })
}

/// The bytes of a whole array of one dimension, counted from one: header,
/// dimension, presence bitmap, and element stream.
pub open spec fn composed(raw: RawArrayView) -> Seq<u8> {
    composed_head(raw) + composed_gap(raw) + raw.data
}

/// Writes the header and the dimensions of an array.
fn compose_head(raw: &RawArray, header: u64, offset: u64) -> (image: Vec<u8>)
    requires
        header == composed_header(raw@),
        offset == (if raw@.nulls is Some {
            composed_data_at(raw@)
        } else {
            0
        }),
    ensures
        image@ == composed_head(raw@),
{
    let order = raw.order;
    let mut image: Vec<u8> = Vec::new();
    push_word(&mut image, header, 4, order);
    push_word(&mut image, if raw.len == 0 {
        0
    } else {
        1
    }, 4, order);
    push_word(&mut image, offset, 4, order);
    push_word(&mut image, raw.oid as u64, 4, order);
    let ghost fixed = image@;
    assert(fixed =~= word_bytes(composed_header(raw@), 4, order) + word_bytes(
        composed_ndim(raw@),
        4,
        order,
    ) + word_bytes(offset as nat, 4, order) + word_bytes(raw.oid as nat, 4, order));
    if raw.len != 0 {
        push_word(&mut image, raw.len as u64, 4, order);
        push_word(&mut image, 1, 4, order);
        assert(image@ =~= fixed + (word_bytes(raw@.len, 4, order) + word_bytes(1, 4, order)));
    } else {
        assert(image@ =~= fixed + Seq::<u8>::empty());
    }
    image
}

/// Writes an array as the bytes of a whole array of one dimension, or of
/// none where it has no slots. Refused where it cannot be written so.
pub fn compose(raw: &RawArray) -> (r: Result<Vec<u8>, ArrayError>)
    ensures
        composable(raw@) ==> (r matches Ok(image) && image@ == composed(raw@)),
        !composable(raw@) ==> (r matches Err(e) && e == ArrayError::EncodingUnsupported),
{
    let len = raw.len;
    if len as u64 > MAX_ITEMS {
        return Err(ArrayError::EncodingUnsupported);
    }
    let dims_end = if len == 0 {
        HEADER_BYTES
    } else {
        HEADER_BYTES + 8
    };
    let bits = match &raw.nulls {
        Some(bits) => {
            if bits.len() != (len + 7) / 8 {
                return Err(ArrayError::EncodingUnsupported);
            }
            bits.len()
        },
        None => 0,
    };
    let end = dims_end + bits;
    let pad = if end % MAX_ALIGN == 0 {
        0
    } else {
        MAX_ALIGN - end % MAX_ALIGN
    };
    assert(end + pad == align_up(end as nat, MAX_ALIGN as nat));
    let data_at = end + pad;
    assert(composed_gap(raw@).len() == bits + pad);
    assert(data_at == composed_data_at(raw@));
    let data_len = raw.data.len();
    if data_len >= 0x4000_0000 || data_at + data_len >= 0x4000_0000 {
        return Err(ArrayError::EncodingUnsupported);
    }
    let total = data_at + data_len;
    let header = match raw.order {
        ByteOrder::Little => 4 * total as u64,
        ByteOrder::Big => total as u64,
    };
    let offset = if raw.nulls.is_some() {
        data_at as u64
    } else {
        0
    };
    let mut image = compose_head(raw, header, offset);
    let ghost head = image@;
    match &raw.nulls {
        Some(bits) => image.extend_from_slice(bits.as_slice()),
        None => {
            assert(image@ =~= head + Seq::<u8>::empty());
        },
    }
    push_zeros(&mut image, pad);
    assert(image@ =~= head + composed_gap(raw@));
    image.extend_from_slice(raw.data.as_slice());
    Ok(image)
}

/// The 32-bit number read where the four bytes of a number lie is that number.
proof fn lemma_word32_there(image: Seq<u8>, at: int, word: nat, order: ByteOrder)
    requires
        word < 0x1_0000_0000,
        0 <= at,
        at + 4 <= image.len(),
        image.subrange(at, at + 4) == word_bytes(word, 4, order),
    ensures
        word32_at(image, at, order) == word,
{
    lemma_pow256_values();
    lemma_word_round_trip(word, 4, order);
}

/// The header and the dimensions of a composed array are as long as
/// `dims_end` says, and each number lies at its place in them.
proof fn lemma_composed_head(raw: RawArrayView)
    requires
        composable(raw),
    ensures
        composed_head(raw).len() == dims_end(composed_ndim(raw)),
        word32_at(composed_head(raw), 0, raw.order) == composed_header(raw),
        word32_at(composed_head(raw), 4, raw.order) == composed_ndim(raw),
        word32_at(composed_head(raw), 8, raw.order) == (if raw.nulls is Some {
            composed_data_at(raw)
        } else {
            0
        }),
        word32_at(composed_head(raw), 12, raw.order) == raw.oid,
        raw.len != 0 ==> word32_at(composed_head(raw), 16, raw.order) == raw.len,
{
    let order = raw.order;
    let head = composed_head(raw);
    let offset: nat = if raw.nulls is Some {
        composed_data_at(raw)
    } else {
        0
    };
    let a = word_bytes(composed_header(raw), 4, order);
    let b = word_bytes(composed_ndim(raw), 4, order);
    let c = word_bytes(offset, 4, order);
    let d = word_bytes(raw.oid as nat, 4, order);
    let e = word_bytes(raw.len, 4, order);
    let f = word_bytes(1, 4, order);
    lemma_word_bytes_len(composed_header(raw), 4, order);
    lemma_word_bytes_len(composed_ndim(raw), 4, order);
    lemma_word_bytes_len(offset, 4, order);
    lemma_word_bytes_len(raw.oid as nat, 4, order);
    lemma_word_bytes_len(raw.len, 4, order);
    lemma_word_bytes_len(1, 4, order);
    assert(head.subrange(0, 4) =~= a);
    assert(head.subrange(4, 8) =~= b);
    assert(head.subrange(8, 12) =~= c);
    assert(head.subrange(12, 16) =~= d);
    lemma_word32_there(head, 0, composed_header(raw), order);
    lemma_word32_there(head, 4, composed_ndim(raw), order);
    lemma_word32_there(head, 8, offset, order);
    lemma_word32_there(head, 12, raw.oid as nat, order);
    if raw.len != 0 {
        assert(head.subrange(16, 20) =~= e);
        lemma_word32_there(head, 16, raw.len, order);
    }
}

/// Taking a composed array apart gives the array back: `parse` undoes
/// `compose`.
pub proof fn lemma_parse_compose(raw: RawArrayView)
    requires
        composable(raw),
    ensures
        parsed(composed(raw), raw.order) == Some(raw),
{
    let order = raw.order;
    let head = composed_head(raw);
    let gap = composed_gap(raw);
    let image = composed(raw);
    let ndim = composed_ndim(raw);
    lemma_composed_head(raw);
    assert(image.len() == head.len() + gap.len() + raw.data.len());
    assert(image.subrange(0, 4) =~= head.subrange(0, 4));
    assert(image.subrange(4, 8) =~= head.subrange(4, 8));
    assert(image.subrange(8, 12) =~= head.subrange(8, 12));
    assert(image.subrange(12, 16) =~= head.subrange(12, 16));
    if raw.len != 0 {
        assert(image.subrange(16, 20) =~= head.subrange(16, 20));
        assert(dim_at(image, 0, order) == raw.len);
        assert(item_count(image, 0, order) == Some(1nat));
        assert(item_count(image, 1, order) == Some((1 * dim_at(image, 1 - 1, order)) as nat));
    }
    assert(plain_header_len(word32_at(image, 0, order), order) == Some(image.len()));
    let data_at = composed_data_at(raw);
    assert(image.subrange(data_at as int, image.len() as int) =~= raw.data);
    match raw.nulls {
        Some(bits) => {
            assert(image.subrange(
                dims_end(ndim) as int,
                (dims_end(ndim) + (raw.len + 7) / 8) as int,
            ) =~= bits);
            lemma_align_up(dims_end(ndim) + bits.len(), MAX_ALIGN as nat);
            assert(parsed(image, order).unwrap().nulls == Some(bits));
        },
        None => {
            assert(gap.len() == align_up(dims_end(ndim), MAX_ALIGN as nat) - dims_end(ndim));
            lemma_align_up(dims_end(ndim), MAX_ALIGN as nat);
        },
    }
}

} // verus!
