//! The bytes of a tick or bar as files store them: whole numbers, least significant byte first.
//!
//! A tick is its time, its price in units of 1/10,000 and its size, four bytes each. A bar is its
//! time and its four prices, four bytes each, then eight bytes of volume, four of the average price
//! and eight of the trade count.
use vstd::prelude::*;

use crate::model::{Bar, Tick, Vwap};

verus! {

pub const TICK_FRAME_LEN: usize = 12;

pub const BAR_FRAME_LEN: usize = 40;

/// A number in so many bytes, least significant first.
pub open spec fn le_bytes(n: nat, len: nat) -> Seq<u8>
    decreases len,
{
    if len == 0 {
        Seq::empty()
    } else {
        seq![(n % 256) as u8] + le_bytes(n / 256, (len - 1) as nat)
    }
}

/// The number that bytes stand for, least significant first.
pub open spec fn le_value(bytes: Seq<u8>) -> nat
    decreases bytes.len(),
{
    if bytes.len() == 0 {
        0
    } else {
        (bytes[0] as nat) + 256 * le_value(bytes.drop_first())
    }
}

/// How many numbers so many bytes tell apart.
pub open spec fn byte_range(len: nat) -> nat
    decreases len,
{
    if len == 0 {
        1
    } else {
        256 * byte_range((len - 1) as nat)
    }
}

/// Reading a number back gives what was written.
pub proof fn numbers_read_back(n: nat, len: nat)
    requires
        n < byte_range(len),
    ensures
        le_bytes(n, len).len() == len,
        le_value(le_bytes(n, len)) == n,
    decreases len,
{
    if len > 0 {
        numbers_read_back(n / 256, (len - 1) as nat);
        let rest = le_bytes(n / 256, (len - 1) as nat);
        assert(le_bytes(n, len).drop_first() =~= rest);
    }
}

proof fn lemma_value_bound(bytes: Seq<u8>)
    ensures
        le_value(bytes) < byte_range(bytes.len()),
    decreases bytes.len(),
{
    if bytes.len() > 0 {
        lemma_value_bound(bytes.drop_first());
    }
}

proof fn lemma_ranges()
    ensures
        byte_range(4) == 0x1_0000_0000,
        byte_range(8) == 0x1_0000_0000_0000_0000,
{
    reveal_with_fuel(byte_range, 9);
}

fn push_number(out: &mut Vec<u8>, n: u64, len: usize)
    ensures
        final(out)@ == old(out)@ + le_bytes(n as nat, len as nat),
{
    let ghost before = out@;
    let mut rest: u64 = n;
    let mut i: usize = 0;
    assert(before + le_bytes(n as nat, len as nat) =~= out@ + le_bytes(rest as nat, len as nat));
    while i < len
        invariant
            i <= len,
            before + le_bytes(n as nat, len as nat) == out@ + le_bytes(
                rest as nat,
                (len - i) as nat,
            ),
        decreases len - i,
    {
        let ghost so_far = out@;
        let ghost tail = le_bytes((rest / 256) as nat, (len - i - 1) as nat);
        let byte: u8 = (rest % 256) as u8;
        out.push(byte);
        assert(so_far + (seq![byte] + tail) =~= out@ + tail);
        rest = rest / 256;
        i += 1;
    }
    assert(out@ + le_bytes(rest as nat, 0) =~= out@);
}

fn read_number(bytes: &[u8], at: usize, len: usize) -> (r: u64)
    requires
        len <= 8,
        at + len <= bytes@.len(),
    ensures
        r == le_value(bytes@.subrange(at as int, at + len)),
        len == 4 ==> r <= u32::MAX,
{
    let ghost field = bytes@.subrange(at as int, at + len);
    let total: usize = bytes.len();
    let mut value: u64 = 0;
    let mut i: usize = len;
    proof {
        lemma_ranges();
        lemma_value_bound(field);
        assert(field.skip(len as int) =~= Seq::empty());
    }
    while i > 0
        invariant
            i <= len <= 8,
            total == bytes@.len(),
            at + len <= total,
            field == bytes@.subrange(at as int, at + len),
            value == le_value(field.skip(i as int)),
        decreases i,
    {
        proof {
            let rest = field.skip(i - 1);
            assert(rest.drop_first() =~= field.skip(i as int));
            lemma_value_bound(rest);
            lemma_ranges();
            lemma_range_grows(rest.len(), 8);
            assert(rest[0] == bytes@[at + i - 1]);
        }
        i -= 1;
        value = bytes[at + i] as u64 + 256 * value;
    }
    assert(field.skip(0) =~= field);
    value
}

proof fn lemma_range_grows(a: nat, b: nat)
    requires
        a <= b,
    ensures
        byte_range(a) <= byte_range(b),
    decreases b,
{
    if a < b {
        lemma_range_grows(a, (b - 1) as nat);
    }
}

/// A signed number as the unsigned one with the same bytes.
pub open spec fn folded(n: int, range: int) -> nat {
    if n < 0 {
        (n + range) as nat
    } else {
        n as nat
    }
}

// ---- ticks ------------------------------------------------------------------------------

/// The frame of a tick.
pub open spec fn tick_frame(tick: Tick) -> Seq<u8> {
    le_bytes(tick.time as nat, 4) + le_bytes(tick.price as nat, 4) + le_bytes(
        folded(tick.size as int, 0x1_0000_0000),
        4,
    )
}

/// Appends the frame of a tick.
pub fn encode_tick(tick: &Tick, out: &mut Vec<u8>)
    ensures
        final(out)@ == old(out)@ + tick_frame(*tick),
{
    let ghost before = out@;
    push_number(out, tick.time as u64, 4);
    push_number(out, tick.price as u64, 4);
    let size: u64 = if tick.size < 0 {
        (tick.size as i64 + 0x1_0000_0000) as u64
    } else {
        tick.size as u64
    };
    push_number(out, size, 4);
    assert(out@ =~= before + tick_frame(*tick));
}

/// Whether bytes are the frame of a tick.
pub open spec fn is_tick_frame(bytes: Seq<u8>, tick: Tick) -> bool {
    &&& bytes.len() == TICK_FRAME_LEN
    &&& le_value(bytes.subrange(0, 4)) == tick.time
    &&& le_value(bytes.subrange(4, 8)) == tick.price
    &&& le_value(bytes.subrange(8, 12)) == folded(tick.size as int, 0x1_0000_0000)
}

/// Reads the frame of a tick; `None` for bytes of another length.
pub fn decode_tick(bytes: &[u8]) -> (r: Option<Tick>)
    ensures
        r is Some <==> bytes@.len() == TICK_FRAME_LEN,
        r matches Some(tick) ==> is_tick_frame(bytes@, tick),
{
    if bytes.len() != TICK_FRAME_LEN {
        return None;
    }
    let time: u32 = read_number(bytes, 0, 4) as u32;
    let price: u32 = read_number(bytes, 4, 4) as u32;
    let size: u64 = read_number(bytes, 8, 4);
    let size: i32 = if size > 0x7fff_ffff {
        (size as i64 - 0x1_0000_0000) as i32
    } else {
        size as i32
    };
    Some(Tick { time, price, size })
}

/// Reading a tick back gives what was written, and nothing else.
pub proof fn ticks_read_back(tick: Tick, read: Tick)
    requires
        is_tick_frame(tick_frame(tick), read),
    ensures
        read == tick,
{
    lemma_ranges();
    numbers_read_back(tick.time as nat, 4);
    numbers_read_back(tick.price as nat, 4);
    numbers_read_back(folded(tick.size as int, 0x1_0000_0000), 4);
    let frame = tick_frame(tick);
    assert(frame.subrange(0, 4) =~= le_bytes(tick.time as nat, 4));
    assert(frame.subrange(4, 8) =~= le_bytes(tick.price as nat, 4));
    assert(frame.subrange(8, 12) =~= le_bytes(folded(tick.size as int, 0x1_0000_0000), 4));
}

// ---- bars -------------------------------------------------------------------------------

/// An average price as it is stored: whole units, zero for none.
pub open spec fn stored_vwap(vwap: Vwap, volume: int) -> nat {
    match vwap {
        Vwap::Undefined => 0,
        Vwap::Price(price) => price as nat,
        Vwap::Mass(mass) => {
            let average = if volume == 0 || mass < 0 || volume < 0 {
                0
            } else {
                (2 * mass + volume) / (2 * volume)
            };
            if average > u32::MAX {
                0
            } else {
                average as nat
            }
        },
    }
}

fn vwap_units(vwap: Vwap, volume: i64) -> (r: u32)
    ensures
        r == stored_vwap(vwap, volume as int),
{
    match vwap {
        Vwap::Undefined => 0,
        Vwap::Price(price) => price,
        Vwap::Mass(mass) => {
            if volume <= 0 || mass < 0 {
                return 0;
            }
            let size: i128 = volume as i128;
            let mut average: i128 = mass / size;
            let rest: i128 = mass % size;
            proof {
                lemma_rounding(mass as int, size as int);
            }
            if 2 * rest >= size {
                if average >= u32::MAX as i128 {
                    return 0;
                }
                average = average + 1;
            }
            if average > u32::MAX as i128 {
                return 0;
            }
            average as u32
        },
    }
}

/// The nearest whole number to a quotient, halves up.
proof fn lemma_rounding(mass: int, size: int)
    requires
        mass >= 0,
        size > 0,
    ensures
        (2 * mass + size) / (2 * size) == mass / size + (if 2 * (mass % size) >= size {
            1int
        } else {
            0int
        }),
{
    let q = mass / size;
    let m = mass % size;
    vstd::arithmetic::div_mod::lemma_fundamental_div_mod(mass, size);
    let up: int = if 2 * m >= size {
        1
    } else {
        0
    };
    let rest = 2 * m + size - up * (2 * size);
    assert(2 * mass + size == (q + up) * (2 * size) + rest) by (nonlinear_arith)
        requires
            mass == size * q + m,
            rest == 2 * m + size - up * (2 * size),
    ;
    assert(0 <= rest < 2 * size);
    vstd::arithmetic::div_mod::lemma_fundamental_div_mod_converse(
        2 * mass + size,
        2 * size,
        q + up,
        rest,
    );
}

/// The frame of a bar.
pub open spec fn bar_frame(bar: Bar) -> Seq<u8> {
    le_bytes(bar.time as nat, 4) + le_bytes(bar.open as nat, 4) + le_bytes(bar.high as nat, 4)
        + le_bytes(bar.low as nat, 4) + le_bytes(bar.close as nat, 4) + le_bytes(
        folded(bar.volume as int, 0x1_0000_0000_0000_0000),
        8,
    ) + le_bytes(stored_vwap(bar.vwap, bar.volume as int), 4) + le_bytes(bar.trades as nat, 8)
}

/// Appends the frame of a bar.
pub fn encode_bar(bar: &Bar, out: &mut Vec<u8>)
    ensures
        final(out)@ == old(out)@ + bar_frame(*bar),
{
    let ghost before = out@;
    push_number(out, bar.time as u64, 4);
    push_number(out, bar.open as u64, 4);
    push_number(out, bar.high as u64, 4);
    push_number(out, bar.low as u64, 4);
    push_number(out, bar.close as u64, 4);
    let volume: u64 = if bar.volume < 0 {
        (bar.volume as i128 + 0x1_0000_0000_0000_0000) as u64
    } else {
        bar.volume as u64
    };
    push_number(out, volume, 8);
    push_number(out, vwap_units(bar.vwap, bar.volume) as u64, 4);
    push_number(out, bar.trades, 8);
    assert(out@ =~= before + bar_frame(*bar));
}

/// An average price that was stored.
pub open spec fn loaded_vwap(units: nat) -> Vwap {
    if units == 0 {
        Vwap::Undefined
    } else {
        Vwap::Price(units as u32)
    }
}

/// Whether bytes are the frame of a bar.
pub open spec fn is_bar_frame(bytes: Seq<u8>, bar: Bar) -> bool {
    &&& bytes.len() == BAR_FRAME_LEN
    &&& le_value(bytes.subrange(0, 4)) == bar.time
    &&& le_value(bytes.subrange(4, 8)) == bar.open
    &&& le_value(bytes.subrange(8, 12)) == bar.high
    &&& le_value(bytes.subrange(12, 16)) == bar.low
    &&& le_value(bytes.subrange(16, 20)) == bar.close
    &&& le_value(bytes.subrange(20, 28)) == folded(bar.volume as int, 0x1_0000_0000_0000_0000)
    &&& loaded_vwap(le_value(bytes.subrange(28, 32))) == bar.vwap
    &&& le_value(bytes.subrange(32, 40)) == bar.trades
}

/// Reads the frame of a bar; `None` for bytes of another length.
pub fn decode_bar(bytes: &[u8]) -> (r: Option<Bar>)
    ensures
        r is Some <==> bytes@.len() == BAR_FRAME_LEN,
        r matches Some(bar) ==> is_bar_frame(bytes@, bar),
{
    if bytes.len() != BAR_FRAME_LEN {
        return None;
    }
    let volume: u64 = read_number(bytes, 20, 8);
    let volume: i64 = if volume > 0x7fff_ffff_ffff_ffff {
        (volume as i128 - 0x1_0000_0000_0000_0000) as i64
    } else {
        volume as i64
    };
    let units: u32 = read_number(bytes, 28, 4) as u32;
    let vwap = if units == 0 {
        Vwap::Undefined
    } else {
        Vwap::Price(units)
    };
    Some(
        Bar {
            time: read_number(bytes, 0, 4) as u32,
            open: read_number(bytes, 4, 4) as u32,
            high: read_number(bytes, 8, 4) as u32,
            low: read_number(bytes, 12, 4) as u32,
            close: read_number(bytes, 16, 4) as u32,
            volume,
            vwap,
            trades: read_number(bytes, 32, 8),
        },
    )
}

/// Reading a bar back gives what was written, its average price in whole units.
pub proof fn bars_read_back(bar: Bar, read: Bar)
    requires
        is_bar_frame(bar_frame(bar), read),
    ensures
        read == (Bar { vwap: loaded_vwap(stored_vwap(bar.vwap, bar.volume as int)), ..bar }),
{
    lemma_ranges();
    let volume = folded(bar.volume as int, 0x1_0000_0000_0000_0000);
    let units = stored_vwap(bar.vwap, bar.volume as int);
    numbers_read_back(bar.time as nat, 4);
    numbers_read_back(bar.open as nat, 4);
    numbers_read_back(bar.high as nat, 4);
    numbers_read_back(bar.low as nat, 4);
    numbers_read_back(bar.close as nat, 4);
    numbers_read_back(volume, 8);
    numbers_read_back(units, 4);
    numbers_read_back(bar.trades as nat, 8);
    let frame = bar_frame(bar);
    assert(frame.subrange(0, 4) =~= le_bytes(bar.time as nat, 4));
    assert(frame.subrange(4, 8) =~= le_bytes(bar.open as nat, 4));
    assert(frame.subrange(8, 12) =~= le_bytes(bar.high as nat, 4));
    assert(frame.subrange(12, 16) =~= le_bytes(bar.low as nat, 4));
    assert(frame.subrange(16, 20) =~= le_bytes(bar.close as nat, 4));
    assert(frame.subrange(20, 28) =~= le_bytes(volume, 8));
    assert(frame.subrange(28, 32) =~= le_bytes(units, 4));
    assert(frame.subrange(32, 40) =~= le_bytes(bar.trades as nat, 8));
}

} // verus!
