use vstd::prelude::*;

verus! {

/// The order in which the bytes of a number lie in a buffer.
#[derive(Clone, Copy, Debug, PartialEq, Eq, Structural)]
pub enum ByteOrder {
    /// Least significant byte first.
    Little,
    /// Most significant byte first.
    Big,
}

/// 256 to the power `n`: one more than the largest number that `n` bytes hold.
pub open spec fn pow256(n: nat) -> nat
    decreases n,
{
    if n == 0 {
        1
    } else {
        256 * pow256((n - 1) as nat)
    }
}

/// The number that `bytes` spell in the given order.
pub open spec fn word_of(bytes: Seq<u8>, order: ByteOrder) -> nat
    decreases bytes.len(),
{
    if bytes.len() == 0 {
        0
    } else {
        match order {
            ByteOrder::Little => bytes[0] as nat + 256 * word_of(bytes.drop_first(), order),
            ByteOrder::Big => 256 * word_of(bytes.drop_last(), order) + bytes.last() as nat,
        }
    }
}

/// The `n` bytes that spell the low part of `word` in the given order.
pub open spec fn word_bytes(word: nat, n: nat, order: ByteOrder) -> Seq<u8>
    decreases n,
{
    if n == 0 {
        Seq::empty()
    } else {
        match order {
            ByteOrder::Little => seq![(word % 256) as u8] + word_bytes(
                word / 256,
                (n - 1) as nat,
                order,
            ),
            ByteOrder::Big => word_bytes(word / 256, (n - 1) as nat, order).push(
                (word % 256) as u8,
            ),
        }
    }
}

/// The first values of `pow256`, up to the width of a machine word.
pub proof fn lemma_pow256_values()
    ensures
        pow256(0) == 1,
        pow256(1) == 0x100,
        pow256(2) == 0x1_0000,
        pow256(3) == 0x100_0000,
        pow256(4) == 0x1_0000_0000,
        pow256(5) == 0x100_0000_0000,
        pow256(6) == 0x1_0000_0000_0000,
        pow256(7) == 0x100_0000_0000_0000,
        pow256(8) == 0x1_0000_0000_0000_0000,
{
    reveal_with_fuel(pow256, 9);
}

/// `pow256` grows with its argument.
pub proof fn lemma_pow256_monotonic(a: nat, b: nat)
    requires
        a <= b,
    ensures
        pow256(a) <= pow256(b),
        pow256(a) >= 1,
    decreases b,
{
    if a < b {
        lemma_pow256_monotonic(a, (b - 1) as nat);
    } else if a > 0 {
        lemma_pow256_monotonic((a - 1) as nat, (a - 1) as nat);
    }
}

/// `n` bytes spell a number below `pow256(n)`.
pub proof fn lemma_word_of_bound(bytes: Seq<u8>, order: ByteOrder)
    ensures
        word_of(bytes, order) < pow256(bytes.len()),
    decreases bytes.len(),
{
    if bytes.len() > 0 {
        match order {
            ByteOrder::Little => lemma_word_of_bound(bytes.drop_first(), order),
            ByteOrder::Big => lemma_word_of_bound(bytes.drop_last(), order),
        }
    }
}

/// `word_bytes` yields as many bytes as asked for.
pub proof fn lemma_word_bytes_len(word: nat, n: nat, order: ByteOrder)
    ensures
        word_bytes(word, n, order).len() == n,
    decreases n,
{
    if n > 0 {
        lemma_word_bytes_len(word / 256, (n - 1) as nat, order);
    }
}

/// Reading back the bytes of a number that fits them gives the number.
pub proof fn lemma_word_round_trip(word: nat, n: nat, order: ByteOrder)
    requires
        word < pow256(n),
    ensures
        word_of(word_bytes(word, n, order), order) == word,
    decreases n,
{
    if n > 0 {
        let rest = word_bytes(word / 256, (n - 1) as nat, order);
        lemma_word_bytes_len(word / 256, (n - 1) as nat, order);
        lemma_word_round_trip(word / 256, (n - 1) as nat, order);
        let bytes = word_bytes(word, n, order);
        match order {
            ByteOrder::Little => {
                assert(bytes.drop_first() =~= rest);
            },
            ByteOrder::Big => {
                assert(bytes.drop_last() =~= rest);
            },
        }
    }
}

/// Reads up to eight bytes as one zero-extended machine word.
pub fn bytes_to_datum(bytes: &[u8], order: ByteOrder) -> (word: u64)
    requires
        bytes@.len() <= 8,
    ensures
        word == word_of(bytes@, order),
{
    let n = bytes.len();
    let mut word: u64 = 0;
    proof {
        lemma_pow256_values();
    }
    match order {
        ByteOrder::Little => {
            let mut i: usize = n;
            assert(bytes@.subrange(n as int, n as int).len() == 0);
            while i > 0
                invariant
                    n == bytes@.len(),
                    n <= 8,
                    i <= n,
                    word == word_of(bytes@.subrange(i as int, n as int), ByteOrder::Little),
                decreases i,
            {
                let ghost tail = bytes@.subrange(i as int, n as int);
                let ghost next = bytes@.subrange(i - 1, n as int);
                proof {
                    lemma_word_of_bound(tail, ByteOrder::Little);
                    lemma_pow256_monotonic(tail.len(), 7);
                    lemma_pow256_values();
                    assert(next.drop_first() =~= tail);
                }
                i = i - 1;
                word = word * 256 + bytes[i] as u64;
            }
            assert(bytes@.subrange(0, n as int) =~= bytes@);
        },
        ByteOrder::Big => {
            let mut i: usize = 0;
            assert(bytes@.subrange(0, 0).len() == 0);
            while i < n
                invariant
                    n == bytes@.len(),
                    n <= 8,
                    i <= n,
                    word == word_of(bytes@.subrange(0, i as int), ByteOrder::Big),
                decreases n - i,
            {
                let ghost head = bytes@.subrange(0, i as int);
                let ghost next = bytes@.subrange(0, i + 1);
                proof {
                    lemma_word_of_bound(head, ByteOrder::Big);
                    lemma_pow256_monotonic(head.len(), 7);
                    lemma_pow256_values();
                    assert(next.drop_last() =~= head);
                }
                word = word * 256 + bytes[i] as u64;
                i = i + 1;
            }
            assert(bytes@.subrange(0, n as int) =~= bytes@);
        },
    }
    word
}

/// Appends the `n` bytes that spell the low part of `word`.
pub fn push_word(data: &mut Vec<u8>, word: u64, n: usize, order: ByteOrder)
    requires
        n <= 8,
    ensures
        final(data)@ == old(data)@ + word_bytes(word as nat, n as nat, order),
{
    let start = data.len();
    let mut rest: u64 = word;
    let mut i: usize = 0;
    let ghost all = word_bytes(word as nat, n as nat, order);
    match order {
        ByteOrder::Little => {
            while i < n
                invariant
                    i <= n,
                    data@ + word_bytes(rest as nat, (n - i) as nat, ByteOrder::Little) == old(
                        data,
                    )@ + all,
                decreases n - i,
            {
                let ghost before = data@;
                let ghost tail = word_bytes((rest / 256) as nat, (n - i - 1) as nat, ByteOrder::Little);
                data.push((rest % 256) as u8);
                proof {
                    assert(before + word_bytes(rest as nat, (n - i) as nat, ByteOrder::Little)
                        =~= data@ + tail);
                }
                rest = rest / 256;
                i = i + 1;
            }
            assert(data@ + Seq::<u8>::empty() =~= data@);
        },
        ByteOrder::Big => {
            while i < n
                invariant
                    i <= n,
                    start == old(data)@.len(),
                    data@.len() == start + i,
                    data@.subrange(0, start as int) == old(data)@,
                    word_bytes(rest as nat, (n - i) as nat, ByteOrder::Big) + data@.subrange(
                        start as int,
                        data@.len() as int,
                    ) == all,
                decreases n - i,
            {
                let ghost before = data@;
                let ghost head = word_bytes((rest / 256) as nat, (n - i - 1) as nat, ByteOrder::Big);
                data.insert(start, (rest % 256) as u8);
                proof {
                    assert(data@.subrange(0, start as int) =~= before.subrange(0, start as int));
                    assert(word_bytes(rest as nat, (n - i) as nat, ByteOrder::Big)
                        + before.subrange(start as int, before.len() as int) =~= head
                        + data@.subrange(start as int, data@.len() as int));
                }
                rest = rest / 256;
                i = i + 1;
            }
            assert(data@ =~= data@.subrange(0, start as int) + data@.subrange(
                start as int,
                data@.len() as int,
            ));
            assert(Seq::<u8>::empty() + data@.subrange(start as int, data@.len() as int)
                =~= data@.subrange(start as int, data@.len() as int));
        },
    }
}

} // verus!
