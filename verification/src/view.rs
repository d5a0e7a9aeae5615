//! Reading the integers of a captured call-stack frame.

use vstd::prelude::*;
use vstd::slice::slice_subrange;
use crate::bytes::le_u32;

verus! {

/// One entry of a captured label stack.
#[derive(Clone, Copy, Debug, PartialEq, Eq, Structural)]
pub struct Label {
    pub begin_addr: u32,
    pub target_addr: u32,
    pub sp: u32,
    pub tsp: u32,
    pub cell_num: u32,
    pub count: u32,
}

/// A captured frame in the form that all capture formats are brought to.
#[derive(Clone, Debug)]
pub struct UnifiedFormat {
    pub pc: Option<(u32, u64)>,
    pub return_address: Option<(u32, u64)>,
    pub locals: Option<Vec<i64>>,
    pub value_stack: Option<Vec<i64>>,
    pub label_stack: Option<Vec<u32>>,
    pub type_stack: Option<Vec<u8>>,
}

/// Why captured bytes could not be read.
#[derive(Clone, Copy, Debug, PartialEq, Eq, Structural)]
pub enum ViewError {
    /// The bytes end before the value that was to be read.
    UnexpectedEnd,
    /// A value of this many bytes cannot be turned into an integer.
    UnsupportedLength(usize),
}

/// The integer that a captured value of zero, four or eight bytes stands
/// for.
///
/// Four bytes are an unsigned little-endian number, but the numbers above
/// `0xffff0000` stand for the negative numbers from -65535 to -1. Eight bytes
/// are a signed little-endian number in two's complement.
pub open spec fn int_of_bytes(bytes: Seq<u8>) -> int
    recommends
        bytes.len() == 0 || bytes.len() == 4 || bytes.len() == 8,
{
    if bytes.len() == 4 {
        let raw = le_u32(bytes);
        if raw > 0xffff_0000 {
            raw - 0x1_0000_0000
        } else {
            raw
        }
    } else if bytes.len() == 8 {
        let raw = le_u32(bytes.subrange(0, 4)) + 0x1_0000_0000 * le_u32(bytes.subrange(4, 8));
        if raw >= 0x8000_0000_0000_0000 {
            raw - 0x1_0000_0000_0000_0000
        } else {
            raw
        }
    } else {
        0
    }
}

fn u32_of(b0: u8, b1: u8, b2: u8, b3: u8) -> (x: u32)
    ensures
        x == le_u32(seq![b0, b1, b2, b3]),
{
    b0 as u32 + 0x100 * (b1 as u32) + 0x1_0000 * (b2 as u32) + 0x100_0000 * (b3 as u32)
}

/// Turns a captured value into an integer.
///
/// Fails with `UnsupportedLength` unless the value has zero, four or eight
/// bytes.
pub fn bytes_to_int(bytes: &[u8]) -> (r: Result<i64, ViewError>)
    ensures
        match r {
            Ok(x) => (bytes@.len() == 0 || bytes@.len() == 4 || bytes@.len() == 8) && x
                == int_of_bytes(bytes@),
            Err(e) => !(bytes@.len() == 0 || bytes@.len() == 4 || bytes@.len() == 8) && e
                == ViewError::UnsupportedLength(bytes@.len() as usize),
        },
{
    let n = bytes.len();
    if n == 4 {
        let raw = u32_of(bytes[0], bytes[1], bytes[2], bytes[3]);
        assert(bytes@ == seq![bytes@[0], bytes@[1], bytes@[2], bytes@[3]]);
        if raw > 0xffff_0000 {
            Ok((raw as i64) - 0x1_0000_0000i64)
        } else {
            Ok(raw as i64)
        }
    } else if n == 8 {
        let low = u32_of(bytes[0], bytes[1], bytes[2], bytes[3]);
        let high = u32_of(bytes[4], bytes[5], bytes[6], bytes[7]);
        assert(bytes@.subrange(0, 4) == seq![bytes@[0], bytes@[1], bytes@[2], bytes@[3]]);
        assert(bytes@.subrange(4, 8) == seq![bytes@[4], bytes@[5], bytes@[6], bytes@[7]]);
        if high >= 0x8000_0000 {
            let magnitude: i64 = (0xffff_ffff - high) as i64 * 0x1_0000_0000 + (0xffff_ffff - low) as i64;
            Ok(-magnitude - 1)
        } else {
            Ok(high as i64 * 0x1_0000_0000 + low as i64)
        }
    } else if n == 0 {
        Ok(0i64)
    } else {
        Err(ViewError::UnsupportedLength(n))
    }
}

/// Reads a little-endian `u32` at the cursor and moves the cursor past it.
///
/// Fails with `UnexpectedEnd`, and leaves the cursor where it was, where
/// fewer than four bytes are left.
pub fn read_u32(cursor: &mut usize, data: &[u8]) -> (r: Result<u32, ViewError>)
    ensures
        match r {
            Ok(x) => *old(cursor) + 4 <= data@.len() && *final(cursor) == *old(cursor) + 4 && x
                == le_u32(data@.subrange(*old(cursor) as int, *old(cursor) + 4)),
            Err(e) => *old(cursor) + 4 > data@.len() && *final(cursor) == *old(cursor) && e
                == ViewError::UnexpectedEnd,
        },
{
    let at = *cursor;
    if data.len() < 4 || at > data.len() - 4 {
        return Err(ViewError::UnexpectedEnd);
    }
    let x = u32_of(data[at], data[at + 1], data[at + 2], data[at + 3]);
    assert(data@.subrange(at as int, at + 4) == seq![
        data@[at as int],
        data@[at + 1],
        data@[at + 2],
        data@[at + 3],
    ]);
    *cursor = at + 4;
    Ok(x)
}

/// Reads a little-endian `u32` as `read_u32` does, but gives 0, and leaves
/// the cursor where it was, where fewer than four bytes are left.
pub fn read_u32_or_zero(cursor: &mut usize, data: &[u8]) -> (x: u32)
    ensures
        *old(cursor) + 4 <= data@.len() ==> *final(cursor) == *old(cursor) + 4 && x == le_u32(
            data@.subrange(*old(cursor) as int, *old(cursor) + 4),
        ),
        *old(cursor) + 4 > data@.len() ==> *final(cursor) == *old(cursor) && x == 0,
{
    match read_u32(cursor, data) {
        Ok(x) => x,
        Err(_) => 0,
    }
}

/// Reads the byte at the cursor and moves the cursor past it.
///
/// Fails with `UnexpectedEnd`, and leaves the cursor where it was, where no
/// byte is left.
pub fn read_u8(cursor: &mut usize, data: &[u8]) -> (r: Result<u8, ViewError>)
    ensures
        match r {
            Ok(x) => *old(cursor) < data@.len() && *final(cursor) == *old(cursor) + 1 && x
                == data@[*old(cursor) as int],
            Err(e) => *old(cursor) >= data@.len() && *final(cursor) == *old(cursor) && e
                == ViewError::UnexpectedEnd,
        },
{
    let at = *cursor;
    if at >= data.len() {
        return Err(ViewError::UnexpectedEnd);
    }
    let byte = data[at];
    *cursor = at + 1;
    Ok(byte)
}

/// The value of a `UnifiedFormat`.
pub struct FrameView {
    pub pc: Option<(u32, u64)>,
    pub return_address: Option<(u32, u64)>,
    pub locals: Option<Seq<i64>>,
    pub value_stack: Option<Seq<i64>>,
    pub label_stack: Option<Seq<u32>>,
    pub type_stack: Option<Seq<u8>>,
}

/// The values of a list, if there is one.
pub open spec fn list_view<T>(list: Option<Vec<T>>) -> Option<Seq<T>> {
    match list {
        Some(items) => Some(items@),
        None => None,
    }
}

impl View for UnifiedFormat {
    type V = FrameView;

    open spec fn view(&self) -> FrameView {
        FrameView {
            pc: self.pc,
            return_address: self.return_address,
            locals: list_view(self.locals),
            value_stack: list_view(self.value_stack),
            label_stack: list_view(self.label_stack),
            type_stack: list_view(self.type_stack),
        }
    }
}

/// The offset that stands in the program counter of a frame of the first
/// capture format, which records none.
pub const NO_OFFSET: u64 = 10_000_000_000;

/// A `u32` read at `at`, and the position after it.
pub open spec fn u32_at(data: Seq<u8>, at: int) -> Result<(u32, int), ViewError> {
    if at + 4 <= data.len() {
        Ok((le_u32(data.subrange(at, at + 4)) as u32, at + 4))
    } else {
        Err(ViewError::UnexpectedEnd)
    }
}

/// A `u32` read at `at`, and the position after it; 0, and `at`, where
/// fewer than four bytes are left.
pub open spec fn u32_or_zero_at(data: Seq<u8>, at: int) -> (u32, int) {
    match u32_at(data, at) {
        Ok(read) => read,
        Err(_) => (0, at),
    }
}

/// Reads `n` bytes and adds them to `read`.
pub open spec fn types_at(data: Seq<u8>, at: int, n: nat, read: Seq<u8>) -> Result<
    (Seq<u8>, int),
    ViewError,
>
    decreases n,
{
    if n == 0 {
        Ok((read, at))
    } else if at < data.len() {
        types_at(data, at + 1, (n - 1) as nat, read.push(data[at]))
    } else {
        Err(ViewError::UnexpectedEnd)
    }
}

/// Reads one value for each of the types from `k` on, and adds the values to
/// `read`. A value of type `t` takes `4 * t` bytes.
pub open spec fn values_at(data: Seq<u8>, at: int, types: Seq<u8>, k: nat, read: Seq<i64>) -> Result<
    (Seq<i64>, int),
    ViewError,
>
    decreases types.len() - k,
{
    if k >= types.len() {
        Ok((read, at))
    } else {
        let n = 4 * types[k as int];
        if at + n > data.len() {
            Err(ViewError::UnexpectedEnd)
        } else if !(n == 0 || n == 4 || n == 8) {
            Err(ViewError::UnsupportedLength(n as usize))
        } else {
            values_at(
                data,
                at + n,
                types,
                k + 1,
                read.push(int_of_bytes(data.subrange(at, at + n)) as i64),
            )
        }
    }
}

/// The position after one label, which is six numbers read with
/// `u32_or_zero_at`.
pub open spec fn after_label(data: Seq<u8>, at: int) -> int {
    let a = u32_or_zero_at(data, at).1;
    let b = u32_or_zero_at(data, a).1;
    let c = u32_or_zero_at(data, b).1;
    let d = u32_or_zero_at(data, c).1;
    let e = u32_or_zero_at(data, d).1;
    u32_or_zero_at(data, e).1
}

/// Reads `n` labels and adds the first number of each to `read`.
pub open spec fn labels_at(data: Seq<u8>, at: int, n: nat, read: Seq<u32>) -> Seq<u32>
    decreases n,
{
    if n == 0 {
        read
    } else {
        labels_at(
            data,
            after_label(data, at),
            (n - 1) as nat,
            read.push(u32_or_zero_at(data, at).0),
        )
    }
}

/// The frame that the bytes hold in the first capture format.
///
/// The bytes hold, all numbers little-endian: the index of the function,
/// the function and the offset to return to, the number of values, one type
/// byte for each value, the values, the number of labels, and the labels.
/// Labels that the bytes end before are read as zeros.
pub open spec fn v1_frame(data: Seq<u8>) -> Result<FrameView, ViewError> {
    match u32_at(data, 0) {
        Err(e) => Err(e),
        Ok((entry, a)) => match u32_at(data, a) {
            Err(e) => Err(e),
            Ok((return_fidx, b)) => match u32_at(data, b) {
                Err(e) => Err(e),
                Ok((return_offset, c)) => match u32_at(data, c) {
                    Err(e) => Err(e),
                    Ok((size, d)) => match types_at(data, d, size as nat, Seq::empty()) {
                        Err(e) => Err(e),
                        Ok((types, f)) => match values_at(data, f, types, 0, Seq::empty()) {
                            Err(e) => Err(e),
                            Ok((values, g)) => match u32_at(data, g) {
                                Err(e) => Err(e),
                                Ok((labels, h)) => Ok(
                                    FrameView {
                                        pc: Some((entry, NO_OFFSET)),
                                        return_address: Some((return_fidx, return_offset as u64)),
                                        locals: None,
                                        value_stack: Some(values),
                                        label_stack: Some(
                                            labels_at(data, h, labels as nat, Seq::empty()),
                                        ),
                                        type_stack: Some(types),
                                    },
                                ),
                            },
                        },
                    },
                },
            },
        },
    }
}

fn take_u32(cursor: &mut usize, data: &[u8]) -> (r: Result<u32, ViewError>)
    requires
        *old(cursor) <= data@.len(),
    ensures
        *final(cursor) <= data@.len(),
        match r {
            Ok(x) => u32_at(data@, *old(cursor) as int) == Ok::<(u32, int), ViewError>(
                (x, *final(cursor) as int),
            ),
            Err(e) => u32_at(data@, *old(cursor) as int) == Err::<(u32, int), ViewError>(e),
        },
{
    proof {
        if *cursor + 4 <= data@.len() {
            crate::bytes::lemma_le_u32(data@.subrange(*cursor as int, *cursor + 4));
        }
    }
    read_u32(cursor, data)
}

fn take_u32_or_zero(cursor: &mut usize, data: &[u8]) -> (x: u32)
    requires
        *old(cursor) <= data@.len(),
    ensures
        *final(cursor) <= data@.len(),
        (x, *final(cursor) as int) == u32_or_zero_at(data@, *old(cursor) as int),
{
    proof {
        if *cursor + 4 <= data@.len() {
            crate::bytes::lemma_le_u32(data@.subrange(*cursor as int, *cursor + 4));
        }
    }
    read_u32_or_zero(cursor, data)
}

/// Reads a frame in the first capture format.
///
/// Fails with `UnexpectedEnd` where the bytes end before the number of
/// labels has been read, and with `UnsupportedLength` where a value has a
/// type other than 0, 1 or 2.
#[verifier::loop_isolation(false)]
pub fn parse_v1_format(data: &[u8]) -> (r: Result<UnifiedFormat, ViewError>)
    ensures
        match r {
            Ok(frame) => v1_frame(data@) == Ok::<FrameView, ViewError>(frame@),
            Err(e) => v1_frame(data@) == Err::<FrameView, ViewError>(e),
        },
{
    let mut cursor: usize = 0;
    let entry_fidx = match take_u32(&mut cursor, data) {
        Ok(x) => x,
        Err(e) => {
            return Err(e);
        },
    };
    let return_fidx = match take_u32(&mut cursor, data) {
        Ok(x) => x,
        Err(e) => {
            return Err(e);
        },
    };
    let return_offset = match take_u32(&mut cursor, data) {
        Ok(x) => x,
        Err(e) => {
            return Err(e);
        },
    };
    let type_stack_size = match take_u32(&mut cursor, data) {
        Ok(x) => x,
        Err(e) => {
            return Err(e);
        },
    };
    let ghost types_start = cursor as int;
    let mut type_stack: Vec<u8> = Vec::new();
    let mut i: u32 = 0;
    while i < type_stack_size
        invariant
            i <= type_stack_size,
            cursor <= data@.len(),
            types_at(data@, types_start, type_stack_size as nat, Seq::empty()) == types_at(
                data@,
                cursor as int,
                (type_stack_size - i) as nat,
                type_stack@,
            ),
        decreases type_stack_size - i,
    {
        let typ = match read_u8(&mut cursor, data) {
            Ok(x) => x,
            Err(e) => {
                return Err(e);
            },
        };
        type_stack.push(typ);
        i += 1;
    }
    let ghost values_start = cursor as int;
    let mut value_stack: Vec<i64> = Vec::new();
    let mut k: usize = 0;
    while k < type_stack.len()
        invariant
            k <= type_stack@.len(),
            cursor <= data@.len(),
            values_at(data@, values_start, type_stack@, 0, Seq::empty()) == values_at(
                data@,
                cursor as int,
                type_stack@,
                k as nat,
                value_stack@,
            ),
        decreases type_stack@.len() - k,
    {
        let byte_count = (type_stack[k] as usize) * 4;
        if byte_count > data.len() - cursor {
            return Err(ViewError::UnexpectedEnd);
        }
        let value_bytes = slice_subrange(data, cursor, cursor + byte_count);
        let value = match bytes_to_int(value_bytes) {
            Ok(x) => x,
            Err(e) => {
                return Err(e);
            },
        };
        value_stack.push(value);
        cursor = cursor + byte_count;
        k += 1;
    }
    let label_stack_size = match take_u32(&mut cursor, data) {
        Ok(x) => x,
        Err(e) => {
            return Err(e);
        },
    };
    let ghost labels_start = cursor as int;
    let mut label_stack: Vec<u32> = Vec::new();
    let mut j: u32 = 0;
    while j < label_stack_size
        invariant
            j <= label_stack_size,
            cursor <= data@.len(),
            labels_at(data@, labels_start, label_stack_size as nat, Seq::empty()) == labels_at(
                data@,
                cursor as int,
                (label_stack_size - j) as nat,
                label_stack@,
            ),
        decreases label_stack_size - j,
    {
        let label = Label {
            begin_addr: take_u32_or_zero(&mut cursor, data),
            target_addr: take_u32_or_zero(&mut cursor, data),
            sp: take_u32_or_zero(&mut cursor, data),
            tsp: take_u32_or_zero(&mut cursor, data),
            cell_num: take_u32_or_zero(&mut cursor, data),
            count: take_u32_or_zero(&mut cursor, data),
        };
        label_stack.push(label.begin_addr);
        j += 1;
    }
    Ok(
        UnifiedFormat {
            pc: Some((entry_fidx, NO_OFFSET)),
            return_address: Some((return_fidx, return_offset as u64)),
            locals: None,
            value_stack: Some(value_stack),
            label_stack: Some(label_stack),
            type_stack: Some(type_stack),
        },
    )
}

} // verus!
