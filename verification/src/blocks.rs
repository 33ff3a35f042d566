//! How a file is cut into blocks.
//!
//! Block number `k`, the first being number 1, holds the `size` bytes that
//! follow the blocks before it, or what is left of the file. The last block is
//! the first one that is shorter than `size`; it is empty where the length of
//! the file is a multiple of `size`.
//!
//! On the wire a block goes under its number modulo 65536. Blocks are sent in
//! windows; a window ends with a block whose number is a multiple of the window
//! length, or with the last block.

use vstd::arithmetic::div_mod::*;
use vstd::arithmetic::mul::*;
use vstd::prelude::*;

verus! {

/// The number of bytes of a file of `len` bytes in its first `k` blocks.
pub open spec fn covered(len: nat, size: nat, k: nat) -> nat {
    if k * size <= len {
        k * size
    } else {
        len
    }
}

/// The data of block number `k`.
pub open spec fn block_data(file: Seq<u8>, size: nat, k: nat) -> Seq<u8>
    recommends
        k >= 1,
{
    file.subrange(
        covered(file.len(), size, (k - 1) as nat) as int,
        covered(file.len(), size, k) as int,
    )
}

/// The number of the last block.
pub open spec fn last_block(len: nat, size: nat) -> nat {
    len / size + 1
}

proof fn lemma_covered_step(len: nat, size: nat, k: nat)
    requires
        k >= 1,
    ensures
        covered(len, size, (k - 1) as nat) <= covered(len, size, k) <= len,
        covered(len, size, k) - covered(len, size, (k - 1) as nat) <= size,
        k * size <= len ==> covered(len, size, k) - covered(len, size, (k - 1) as nat) == size,
        k * size > len && (k - 1) * size <= len ==> covered(len, size, k) - covered(
            len,
            size,
            (k - 1) as nat,
        ) < size,
{
    assert(k * size == (k - 1) * size + size) by (nonlinear_arith)
        requires
            k >= 1,
    ;
}

/// A block joins on to the blocks before it.
pub proof fn block_joins_on(file: Seq<u8>, size: nat, k: nat)
    requires
        k >= 1,
    ensures
        file.take(covered(file.len(), size, (k - 1) as nat) as int) + block_data(file, size, k)
            == file.take(covered(file.len(), size, k) as int),
        block_data(file, size, k).len() <= size,
{
    lemma_covered_step(file.len(), size, k);
    assert(file.take(covered(file.len(), size, (k - 1) as nat) as int) + block_data(file, size, k)
        =~= file.take(covered(file.len(), size, k) as int));
}

/// The blocks before the last one are full, the last one is not, and with it
/// the file is complete.
pub proof fn last_block_is_short(file: Seq<u8>, size: nat, k: nat)
    requires
        size > 0,
        1 <= k <= last_block(file.len(), size),
    ensures
        (k - 1) * size <= file.len(),
        k < last_block(file.len(), size) ==> block_data(file, size, k).len() == size,
        k == last_block(file.len(), size) ==> block_data(file, size, k).len() < size && covered(
            file.len(),
            size,
            k,
        ) == file.len(),
{
    let len = file.len();
    let q = len / size;
    lemma_fundamental_div_mod(len as int, size as int);
    lemma_mod_bound(len as int, size as int);
    assert(q * size <= len < (q + 1) * size) by (nonlinear_arith)
        requires
            len == size * q + len % size,
            0 <= len % size < size,
    ;
    lemma_covered_step(len, size, k);
    if k <= q {
        assert(k * size <= q * size) by (nonlinear_arith)
            requires
                k <= q,
        ;
    }
    assert((k - 1) * size <= q * size) by (nonlinear_arith)
        requires
            k - 1 <= q,
    ;
}

/// A block that is shorter than the others, where those before it are in the
/// file, is the last one.
pub proof fn short_block_is_last(file: Seq<u8>, size: nat, k: nat)
    requires
        size > 0,
        k >= 1,
        (k - 1) * size <= file.len(),
    ensures
        block_data(file, size, k).len() < size <==> k == last_block(file.len(), size),
        block_data(file, size, k).len() == size <==> k * size <= file.len(),
        block_data(file, size, k).len() < size ==> covered(file.len(), size, k) == file.len(),
        k <= last_block(file.len(), size),
{
    let len = file.len();
    lemma_covered_step(len, size, k);
    lemma_fundamental_div_mod(len as int, size as int);
    lemma_mod_bound(len as int, size as int);
    let q = len / size;
    if k > q + 1 {
        assert((k - 1) * size >= (q + 1) * size) by (nonlinear_arith)
            requires
                k - 1 >= q + 1,
        ;
        assert((q + 1) * size > len) by (nonlinear_arith)
            requires
                len == size * q + len % size,
                0 <= len % size < size,
        ;
    }
    last_block_is_short(file, size, k);
}

/// The number under which block number `k` goes over the wire.
pub open spec fn wire_number(k: int) -> u16 {
    (k % 65536) as u16
}

/// The number under which block number `k` goes over the wire.
pub fn number_on_wire(k: u64) -> (b: u16)
    ensures
        b == wire_number(k as int),
{
    (k % 65536) as u16
}

/// How many blocks after block number `from` the next one goes over the wire
/// as `b`.
pub open spec fn ahead(from: int, b: u16) -> int {
    (b - from) % 65536
}

/// How many blocks after block number `from` the next one goes over the wire
/// as `b`.
pub fn blocks_ahead(from: u64, b: u16) -> (d: u64)
    ensures
        d == ahead(from as int, b),
{
    let low: u64 = from % 65536;
    let d: u64 = ((b as u64) + 65536 - low) % 65536;
    assert(d == (b - from) % 65536);
    d
}

/// The block that is so far ahead goes over the wire under that number, and
/// none that is nearer does.
pub proof fn ahead_is_nearest(from: int, b: u16, d: int)
    requires
        0 <= d < 65536,
    ensures
        0 <= ahead(from, b) < 65536,
        wire_number(from + ahead(from, b)) == b,
        wire_number(from + d) == b <==> d == ahead(from, b),
{
}

/// Two blocks that go over the wire under the same number are the same one, if
/// they are fewer than 65536 blocks apart.
pub proof fn near_numbers_differ(j: int, k: int)
    requires
        k - 65536 < j < k + 65536,
    ensures
        wire_number(j) == wire_number(k) <==> j == k,
{
}

/// Whether a DATA packet carries block number `k` of a file.
pub open spec fn is_block(file: Seq<u8>, size: nat, k: nat, block: u16, data: Seq<u8>) -> bool {
    k >= 1 && block == wire_number(k as int) && data == block_data(file, size, k)
}

/// Whether a DATA packet carries a block of a file, one that is fewer than
/// 65536 blocks away from block number `expected`.
pub open spec fn is_near_block(
    file: Seq<u8>,
    size: nat,
    expected: int,
    block: u16,
    data: Seq<u8>,
) -> bool {
    exists|k: nat| #[trigger]
        is_block(file, size, k, block, data) && expected - 65536 < k < expected + 65536
}

/// Such a packet carries the expected block where it has its number.
pub proof fn expected_number_is_expected_block(
    file: Seq<u8>,
    size: nat,
    expected: nat,
    block: u16,
    data: Seq<u8>,
)
    requires
        is_near_block(file, size, expected as int, block, data),
        block == wire_number(expected as int),
    ensures
        data == block_data(file, size, expected),
{
    let k = choose|k: nat| #[trigger]
        is_block(file, size, k, block, data) && expected - 65536 < k < expected + 65536;
    near_numbers_differ(k as int, expected as int);
}

/// The length of the windows, in blocks. A window holds at least one.
pub open spec fn window_len(windowsize: u16) -> u64 {
    if windowsize <= 1 {
        1
    } else {
        windowsize as u64
    }
}

/// The length of the windows, in blocks.
pub fn blocks_per_window(windowsize: u16) -> (w: u64)
    ensures
        w == window_len(windowsize),
{
    if windowsize <= 1 {
        1
    } else {
        windowsize as u64
    }
}

/// How many blocks a window still takes after `k` blocks of the transfer.
pub open spec fn window_room(k: int, window: int) -> int {
    window - k % window
}

/// As blocks go into a window its room shrinks, until it is full and the next
/// one opens.
pub proof fn window_room_shrinks(k: int, window: int, d: int)
    requires
        0 <= k,
        0 < window,
        0 <= d <= window_room(k, window),
    ensures
        1 <= window_room(k, window) <= window,
        d < window_room(k, window) ==> window_room(k + d, window) == window_room(k, window) - d,
        d == window_room(k, window) ==> window_room(k + d, window) == window,
        (k + d) % window == 0 <==> (d == window_room(k, window) || (d == 0 && k % window == 0)),
{
    let q = k / window;
    let m = k % window;
    lemma_fundamental_div_mod(k, window);
    lemma_mod_bound(k, window);
    if d < window - m {
        lemma_fundamental_div_mod_converse(k + d, window, q, m + d);
    } else {
        assert(window * (q + 1) == window * q + window) by (nonlinear_arith);
        lemma_fundamental_div_mod_converse(k + d, window, q + 1, 0);
    }
}

} // verus!
