use crate::error::ArrayError;
use crate::layout::{Layout, Size};
use crate::word::{bytes_to_datum, lemma_pow256_values, lemma_word_of_bound, word_of, ByteOrder};
use vstd::prelude::*;
use vstd::slice::slice_subrange;

verus! {

/// The bytes that follow the content of a zero-terminated element: the
/// terminator and one byte more.
pub const CSTR_TRAILER: usize = 2;

/// Whether a length header is the compact, one-byte form. The flag is the
/// lowest bit of the first byte in memory order, which is the highest bit of
/// the header where the most significant byte comes first.
pub open spec fn varlena_is_short(first: u8, order: ByteOrder) -> bool {
    match order {
        ByteOrder::Little => first % 2 == 1,
        ByteOrder::Big => first >= 128,
    }
}

/// The total length that a compact header states: its other seven bits.
pub open spec fn varlena_short_len(first: u8, order: ByteOrder) -> nat {
    match order {
        ByteOrder::Little => (first / 2) as nat,
        ByteOrder::Big => (first % 128) as nat,
    }
}

/// The total length that a full, four-byte header states: the thirty bits
/// beside its two flag bits.
pub open spec fn varlena_long_len(header: Seq<u8>, order: ByteOrder) -> nat {
    match order {
        ByteOrder::Little => word_of(header, order) / 4,
        ByteOrder::Big => word_of(header, order) % 0x4000_0000,
    }
}

/// The total length, header included, of the self-describing element that
/// starts at `at`; `None` where no header can be read there or the length it
/// states is shorter than the header itself.
pub open spec fn varlena_len(data: Seq<u8>, at: int, order: ByteOrder) -> Option<nat> {
    if !(0 <= at < data.len()) {
        None
    } else if varlena_is_short(data[at], order) {
        if varlena_short_len(data[at], order) >= 1 {
            Some(varlena_short_len(data[at], order))
        } else {
            None
        }
    } else if at + 4 <= data.len() && varlena_long_len(data.subrange(at, at + 4), order) >= 4 {
        Some(varlena_long_len(data.subrange(at, at + 4), order))
    } else {
        None
    }
}

/// Whether the first zero byte at or after `at` lies `n` bytes after it.
pub open spec fn is_cstr_len(data: Seq<u8>, at: int, n: nat) -> bool {
    &&& 0 <= at
    &&& at + n < data.len()
    &&& data[at + n] == 0
    &&& forall|j: int| at <= j < at + n ==> data[j] != 0
}

/// The number of bytes from `at` to the first zero byte, or `None` where
/// there is none before the buffer ends.
pub open spec fn cstr_len(data: Seq<u8>, at: int) -> Option<nat> {
    if exists|n: nat| is_cstr_len(data, at, n) {
        Some(choose|n: nat| is_cstr_len(data, at, n))
    } else {
        None
    }
}

/// `n` rounded up to a multiple of `align`.
pub open spec fn align_up(n: nat, align: nat) -> nat {
    (n + (align - n % align) % (align as int)) as nat
}

/// The number of bytes that make up the element at `at`, before any padding:
/// the fixed width, the stated total length, or the string with its terminator.
pub open spec fn element_extent(data: Seq<u8>, at: int, layout: Layout, order: ByteOrder) -> Option<
    nat,
> {
    match layout.spec_size() {
        Size::Fixed(n) => Some(n as nat),
        Size::Varlena => varlena_len(data, at, order),
        Size::CStr => match cstr_len(data, at) {
            Some(n) => Some(n + 1),
            None => None,
        },
    }
}

/// The distance from the element at `at` to the one after it: the fixed
/// width; the stated total length rounded up to the alignment; or the
/// string's length and `CSTR_TRAILER`.
pub open spec fn element_stride(data: Seq<u8>, at: int, layout: Layout, order: ByteOrder) -> Option<
    nat,
> {
    match layout.spec_size() {
        Size::Fixed(n) => Some(n as nat),
        Size::Varlena => match varlena_len(data, at, order) {
            Some(n) => Some(align_up(n, layout.spec_align().bytes() as nat)),
            None => None,
        },
        Size::CStr => match cstr_len(data, at) {
            Some(n) => Some(n + CSTR_TRAILER as nat),
            None => None,
        },
    }
}

/// Where the element after the one at `at` starts, or `None` where the step
/// cannot be taken inside the buffer.
pub open spec fn hop(data: Seq<u8>, at: int, layout: Layout, order: ByteOrder) -> Option<int> {
    match element_stride(data, at, layout, order) {
        Some(stride) => if 0 <= at && at + stride <= data.len() {
            Some(at + stride)
        } else {
            None
        },
        None => None,
    }
}

/// At most one length satisfies `is_cstr_len`, and `cstr_len` is that one.
pub proof fn lemma_cstr_len_unique(data: Seq<u8>, at: int, n: nat)
    requires
        is_cstr_len(data, at, n),
    ensures
        cstr_len(data, at) == Some(n),
{
    let m = choose|m: nat| is_cstr_len(data, at, m);
    if m < n {
        assert(data[at + m] != 0);
    } else if n < m {
        assert(data[at + n] != 0);
    }
}

/// Rounding up moves a length to the next multiple of the alignment, by less than the alignment.
pub proof fn lemma_align_up(n: nat, align: nat)
    requires
        align > 0,
    ensures
        n <= align_up(n, align) < n + align,
        align_up(n, align) % align == 0,
        n % align == 0 ==> align_up(n, align) == n,
{
    let r = n % align;
    if r == 0 {
        assert((align - 0) % (align as int) == 0) by (nonlinear_arith)
            requires
                align > 0,
        ;
    } else {
        assert((align - r) % (align as int) == align - r) by (nonlinear_arith)
            requires
                0 < r < align,
        ;
        assert((n + (align - r)) % (align as int) == 0) by (nonlinear_arith)
            requires
                r == n % align,
                align > 0,
        ;
    }
}

/// The total length of the self-describing element that starts at `at`.
pub fn varsize_any(data: &[u8], at: usize, order: ByteOrder) -> (r: Option<usize>)
    ensures
        r matches Some(n) ==> varlena_len(data@, at as int, order) == Some(n as nat),
        r is None ==> varlena_len(data@, at as int, order) is None,
{
    if at >= data.len() {
        return None;
    }
    let first = data[at];
    let short = match order {
        ByteOrder::Little => first % 2 == 1,
        ByteOrder::Big => first >= 128,
    };
    if short {
        let n = match order {
            ByteOrder::Little => first / 2,
            ByteOrder::Big => first % 128,
        };
        if n >= 1 {
            Some(n as usize)
        } else {
            None
        }
    } else if data.len() - at >= 4 {
        let header = slice_subrange(data, at, at + 4);
        let word = bytes_to_datum(header, order);
        proof {
            lemma_word_of_bound(header@, order);
            lemma_pow256_values();
        }
        let n = match order {
            ByteOrder::Little => word / 4,
            ByteOrder::Big => word % 0x4000_0000,
        };
        if n >= 4 {
            Some(n as usize)
        } else {
            None
        }
    } else {
        None
    }
}

/// The number of bytes from `at` to the first zero byte.
pub fn strlen(data: &[u8], at: usize) -> (r: Option<usize>)
    ensures
        r matches Some(n) ==> cstr_len(data@, at as int) == Some(n as nat),
        r is None ==> cstr_len(data@, at as int) is None,
{
    let mut n: usize = 0;
    while at < data.len() && n < data.len() - at
        invariant
            forall|j: int| at <= j < at + n ==> data@[j] != 0,
            at >= data@.len() || n <= data@.len() - at,
        decreases data@.len() - n,
    {
        if data[at + n] == 0 {
            proof {
                lemma_cstr_len_unique(data@, at as int, n as nat);
            }
            return Some(n);
        }
        n = n + 1;
    }
    proof {
        if exists|m: nat| is_cstr_len(data@, at as int, m) {
            let m = choose|m: nat| is_cstr_len(data@, at as int, m);
            assert(data@[at + m] == 0);
        }
    }
    None
}

/// The number of bytes that make up the element at `at`, before any padding.
pub fn extent(data: &[u8], at: usize, layout: Layout, order: ByteOrder) -> (r: Option<usize>)
    ensures
        r matches Some(n) ==> element_extent(data@, at as int, layout, order) == Some(n as nat),
        r is None ==> element_extent(data@, at as int, layout, order) is None,
{
    match layout.size() {
        Size::Fixed(n) => Some(n as usize),
        Size::Varlena => varsize_any(data, at, order),
        Size::CStr => match strlen(data, at) {
            Some(n) => {
                let len = data.len();
                Some(n + 1)
            },
            None => None,
        },
    }
}

/// An element that can be stepped over lies in the buffer whole: its bytes
/// end where the step ends, or before.
pub proof fn lemma_extent_within_stride(data: Seq<u8>, at: int, layout: Layout, order: ByteOrder)
    requires
        hop(data, at, layout, order) is Some,
    ensures
        element_extent(data, at, layout, order) matches Some(n) && at + n <= hop(
            data,
            at,
            layout,
            order,
        ).unwrap(),
{
    match layout.spec_size() {
        Size::Varlena => {
            lemma_align_up(
                varlena_len(data, at, order).unwrap(),
                layout.spec_align().bytes() as nat,
            );
        },
        _ => {},
    }
}

/// Steps from the element at `at` to the one after it.
pub fn one_hop_this_time(data: &[u8], at: usize, layout: Layout, order: ByteOrder) -> (r: Result<
    usize,
    ArrayError,
>)
    ensures
        hop(data@, at as int, layout, order) matches Some(next) ==> (r matches Ok(n) && n == next
            && next <= data@.len()),
        hop(data@, at as int, layout, order) is None ==> r == Err::<usize, ArrayError>(
            ArrayError::OutOfBounds,
        ),
{
    let len = data.len();
    let stride: usize = match layout.size() {
        Size::Fixed(n) => n as usize,
        Size::Varlena => match varsize_any(data, at, order) {
            Some(n) => {
                let align = layout.align().as_usize();
                proof {
                    lemma_align_up(n as nat, align as nat);
                    lemma_pow256_values();
                }
                let rest = n % align;
                assert(align_up(n as nat, align as nat) == (if rest != 0 {
                    n + (align - rest)
                } else {
                    n as int
                })) by (nonlinear_arith)
                    requires
                        rest == n % align,
                        align > 0,
                        align_up(n as nat, align as nat) == (n + (align - n % align) % (
                        align as int)) as nat,
                ;
                if rest != 0 {
                    if n > usize::MAX - (align - rest) {
                        return Err(ArrayError::OutOfBounds);
                    }
                    n + (align - rest)
                } else {
                    n
                }
            },
            None => return Err(ArrayError::OutOfBounds),
        },
        Size::CStr => match strlen(data, at) {
            Some(n) => {
                if n > usize::MAX - CSTR_TRAILER {
                    return Err(ArrayError::OutOfBounds);
                }
                n + CSTR_TRAILER
            },
            None => return Err(ArrayError::OutOfBounds),
        },
    };
    if at <= len && stride <= len - at {
        Ok(at + stride)
    } else {
        Err(ArrayError::OutOfBounds)
    }
}

} // verus!
