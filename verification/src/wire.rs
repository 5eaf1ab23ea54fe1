//! The protobuf framing of Switchboard accounts, walked the way
//! `quick_protobuf`'s reader walks it: where each field starts and ends, for
//! the messages an aggregator or a VRF account holds. An account is framed
//! when the walk finds every field inside the message that holds it.

use vstd::prelude::*;

verus! {

/// The messages of Switchboard accounts that the library decodes.
#[derive(Clone, Copy, Debug)]
pub enum Message {
    Aggregator,
    Configs,
    Agreement,
    Round,
    Vrf,
}

/// How the reader reads a field, by its tag.
#[derive(Clone, Copy, Debug)]
pub enum FieldKind {
    /// An integer or a flag: one varint.
    Varint,
    /// A `double`: eight bytes.
    Fixed64,
    /// Bytes or a string: a varint length, then that many bytes.
    Bytes,
    /// A message: a varint length, then the message.
    Nested(Message),
    /// Any other tag, skipped by its wire type.
    Unknown,
}

/// The kind of the field with tag `tag` in message `m` (tags as the
/// generated decoders match them: field number times 8 plus wire type).
pub open spec fn field_kind(m: Message, tag: nat) -> FieldKind {
    match m {
        Message::Aggregator => if tag == 8 {
            FieldKind::Varint
        } else if tag == 18 {
            FieldKind::Nested(Message::Configs)
        } else if tag == 26 || tag == 34 || tag == 66 || tag == 74 {
            FieldKind::Bytes
        } else if tag == 42 {
            FieldKind::Nested(Message::Agreement)
        } else if tag == 50 || tag == 58 {
            FieldKind::Nested(Message::Round)
        } else {
            FieldKind::Unknown
        },
        Message::Configs => if tag == 8 || tag == 16 || tag == 24 {
            FieldKind::Varint
        } else if tag == 42 {
            FieldKind::Bytes
        } else {
            FieldKind::Unknown
        },
        Message::Agreement => if tag == 10 {
            FieldKind::Bytes
        } else if tag == 24 {
            FieldKind::Varint
        } else {
            FieldKind::Unknown
        },
        Message::Round => if tag == 8 || tag == 16 || tag == 32 || tag == 40 {
            FieldKind::Varint
        } else if tag == 25 || tag == 49 || tag == 57 || tag == 65 {
            FieldKind::Fixed64
        } else {
            FieldKind::Unknown
        },
        Message::Vrf => if tag == 10 || tag == 18 || tag == 26 || tag == 58 || tag == 66 || tag
            == 74 || tag == 98 {
            FieldKind::Bytes
        } else if tag == 32 || tag == 40 || tag == 48 || tag == 80 || tag == 88 {
            FieldKind::Varint
        } else {
            FieldKind::Unknown
        },
    }
}

/// Bytes taken by the varint at `pos`, counting from its `i`-th byte: it
/// ends at the first byte below 0x80, within ten bytes and inside `b`.
pub open spec fn varint_len_from(b: Seq<u8>, pos: nat, i: nat) -> Option<nat>
    decreases 10 - i,
{
    if i >= 10 {
        None
    } else if pos + i >= b.len() {
        None
    } else if b[(pos + i) as int] < 128 {
        Some(i + 1)
    } else {
        varint_len_from(b, pos, i + 1)
    }
}

proof fn lemma_varint_read_from(b: Seq<u8>, pos: nat, n: nat, i: nat)
    requires
        1 <= n <= 10,
        i < n,
        pos + n <= b.len(),
        forall|j: nat| j + 1 < n ==> #[trigger] b[(pos + j) as int] >= 128,
        b[(pos + n - 1) as int] < 128,
    ensures
        varint_len_from(b, pos, i) == Some(n),
    decreases n - i,
{
    if i + 1 < n {
        assert(b[(pos + i) as int] >= 128);
        lemma_varint_read_from(b, pos, n, i + 1);
    }
}

/// A varint of one to ten bytes inside the buffer (continuation bit set on
/// every byte but its last) is read whole: its length is its byte count.
pub proof fn lemma_varint_up_to_ten_bytes_is_read(b: Seq<u8>, pos: nat, n: nat)
    requires
        1 <= n <= 10,
        pos + n <= b.len(),
        forall|j: nat| j + 1 < n ==> #[trigger] b[(pos + j) as int] >= 128,
        b[(pos + n - 1) as int] < 128,
    ensures
        varint_len(b, pos) == Some(n),
{
    lemma_varint_read_from(b, pos, n, 0);
}

/// Bytes taken by the varint at `pos`, if it can be read.
pub open spec fn varint_len(b: Seq<u8>, pos: nat) -> Option<nat> {
    varint_len_from(b, pos, 0)
}

/// The seven low bits of the `i`-th byte of an `n`-byte varint (zero past
/// its end).
pub open spec fn group(b: Seq<u8>, pos: nat, n: nat, i: nat) -> nat {
    if i < n {
        (b[(pos + i) as int] % 128) as nat
    } else {
        0
    }
}

/// The value of an `n`-byte varint read as 32 bits: the first four groups,
/// the low four bits of the fifth, later bytes ignored.
pub open spec fn varint32(b: Seq<u8>, pos: nat, n: nat) -> nat {
    group(b, pos, n, 0) + group(b, pos, n, 1) * 0x80 + group(b, pos, n, 2) * 0x4000 + group(
        b,
        pos,
        n,
        3,
    ) * 0x20_0000 + (if 4 < n {
        (b[(pos + 4) as int] % 16) as nat
    } else {
        0
    }) * 0x1000_0000
}

/// The value of an `n`-byte varint read as 64 bits: nine groups, then the
/// lowest bit of the tenth byte.
pub open spec fn varint64(b: Seq<u8>, pos: nat, n: nat) -> nat {
    group(b, pos, n, 0) + group(b, pos, n, 1) * 0x80 + group(b, pos, n, 2) * 0x4000 + group(
        b,
        pos,
        n,
        3,
    ) * 0x20_0000 + group(b, pos, n, 4) * 0x1000_0000 + group(b, pos, n, 5) * 0x8_0000_0000
        + group(b, pos, n, 6) * 0x400_0000_0000 + group(b, pos, n, 7) * 0x2_0000_0000_0000
        + group(b, pos, n, 8) * 0x100_0000_0000_0000 + (if 9 < n {
        (b[(pos + 9) as int] % 2) as nat
    } else {
        0
    }) * 0x8000_0000_0000_0000
}

/// Where a field of kind `k` (not a message) that starts at `pos` ends, in
/// a message ending at `end`; `None` where the reader stops with an error
/// or would step past `end` inside the field.
pub open spec fn skip_field(k: FieldKind, tag: nat, b: Seq<u8>, pos: nat, end: nat) -> Option<
    nat,
> {
    match k {
        FieldKind::Varint => match varint_len(b, pos) {
            Some(n) => Some(pos + n),
            None => None,
        },
        FieldKind::Fixed64 => if pos + 8 <= b.len() {
            Some(pos + 8)
        } else {
            None
        },
        FieldKind::Bytes => match varint_len(b, pos) {
            Some(n) => if pos + n + varint32(b, pos, n) <= b.len() {
                Some(pos + n + varint32(b, pos, n))
            } else {
                None
            },
            None => None,
        },
        FieldKind::Nested(_) => None,
        FieldKind::Unknown => {
            let wire = tag % 8;
            if wire == 0 {
                match varint_len(b, pos) {
                    Some(n) => Some(pos + n),
                    None => None,
                }
            } else if wire == 1 {
                if end - pos < 8 {
                    None
                } else {
                    Some(pos + 8)
                }
            } else if wire == 5 {
                if end - pos < 4 {
                    None
                } else {
                    Some(pos + 4)
                }
            } else if wire == 2 {
                match varint_len(b, pos) {
                    Some(n) => if pos + n > end || end - (pos + n) < varint64(b, pos, n) {
                        None
                    } else {
                        Some(pos + n + varint64(b, pos, n))
                    },
                    None => None,
                }
            } else {
                None
            }
        },
    }
}

/// Whether the fields of a message without nested messages, from `pos` to
/// `end`, are each read inside the message.
pub open spec fn walk_flat(m: Message, b: Seq<u8>, pos: nat, end: nat) -> bool
    decreases end - pos,
{
    if pos >= end {
        pos == end
    } else {
        match varint_len(b, pos) {
            None => false,
            Some(n) => if pos + n > end {
                false
            } else {
                match skip_field(
                    field_kind(m, varint32(b, pos, n)),
                    varint32(b, pos, n),
                    b,
                    pos + n,
                    end,
                ) {
                    None => false,
                    Some(next) => if next > end || next <= pos {
                        false
                    } else {
                        walk_flat(m, b, next, end)
                    },
                }
            },
        }
    }
}

/// Where a nested message of kind `k` whose length varint starts at `pos`
/// ends, inside a message ending at `end`, if it is framed.
pub open spec fn skip_nested(k: Message, b: Seq<u8>, pos: nat, end: nat) -> Option<nat> {
    match varint_len(b, pos) {
        Some(n) => if pos + n + varint32(b, pos, n) > end {
            None
        } else if walk_flat(k, b, pos + n, pos + n + varint32(b, pos, n)) {
            Some(pos + n + varint32(b, pos, n))
        } else {
            None
        },
        None => None,
    }
}

/// Where a field of an aggregator that starts at `pos` ends.
pub open spec fn skip_aggregator_field(tag: nat, b: Seq<u8>, pos: nat, end: nat) -> Option<nat> {
    match field_kind(Message::Aggregator, tag) {
        FieldKind::Nested(k) => skip_nested(k, b, pos, end),
        k => skip_field(k, tag, b, pos, end),
    }
}

/// Whether the fields of an aggregator, from `pos` to `end`, and of the
/// messages it holds, are each read inside the message that holds them.
pub open spec fn walk_aggregator(b: Seq<u8>, pos: nat, end: nat) -> bool
    decreases end - pos,
{
    if pos >= end {
        pos == end
    } else {
        match varint_len(b, pos) {
            None => false,
            Some(n) => if pos + n > end {
                false
            } else {
                match skip_aggregator_field(varint32(b, pos, n), b, pos + n, end) {
                    None => false,
                    Some(next) => if next > end || next <= pos {
                        false
                    } else {
                        walk_aggregator(b, next, end)
                    },
                }
            },
        }
    }
}

/// A length-prefixed aggregator whose every field lies inside the message
/// that holds it.
pub open spec fn aggregator_framed(b: Seq<u8>) -> bool {
    match varint_len(b, 0) {
        Some(n) => walk_aggregator(b, n, n + varint32(b, 0, n)),
        None => false,
    }
}

/// A length-prefixed VRF account whose every field lies inside it.
pub open spec fn vrf_framed(b: Seq<u8>) -> bool {
    match varint_len(b, 0) {
        Some(n) => walk_flat(Message::Vrf, b, n, n + varint32(b, 0, n)),
        None => false,
    }
}

/// How far past the buffer a message may claim to end: a length varint
/// read as 32 bits, plus the varint itself.
pub open spec fn room(b: Seq<u8>) -> int {
    b.len() + 0x2_0000_0000int
}

/// The length of the varint at `pos`, if it can be read.
fn varint_length(b: &[u8], pos: u128) -> (r: Option<u128>)
    requires
        pos <= room(b@),
    ensures
        r is Some <==> varint_len(b@, pos as nat) is Some,
        r matches Some(n) ==> n == varint_len(b@, pos as nat)->Some_0 && 1 <= n <= 10 && pos + n
            <= b@.len(),
{
    let len = b.len() as u128;
    let mut i: u128 = 0;
    while i < 10
        invariant
            i <= 10,
            len == b@.len(),
            b@.len() <= usize::MAX,
            pos <= room(b@),
            varint_len_from(b@, pos as nat, 0) == varint_len_from(b@, pos as nat, i as nat),
        decreases 10 - i,
    {
        if pos + i >= len {
            return None;
        }
        if b[(pos + i) as usize] < 128 {
            return Some(i + 1);
        }
        i = i + 1;
    }
    None
}

/// The seven low bits of the `i`-th byte of an `n`-byte varint at `pos`.
fn group_at(b: &[u8], pos: u128, n: u128, i: u128) -> (r: u64)
    requires
        pos <= room(b@),
        i < 10,
        n <= 10,
        pos + n <= b@.len(),
    ensures
        r == group(b@, pos as nat, n as nat, i as nat),
        r < 128,
{
    let _blen = b.len();
    if i < n {
        (b[(pos + i) as usize] % 128) as u64
    } else {
        0
    }
}

/// The varint at `pos`: its length, and its value read as 32 and as 64
/// bits.
fn read_varint(b: &[u8], pos: u128) -> (r: Option<(u128, u32, u64)>)
    requires
        pos <= room(b@),
    ensures
        r is Some <==> varint_len(b@, pos as nat) is Some,
        r matches Some((n, v32, v64)) ==> {
            &&& n == varint_len(b@, pos as nat)->Some_0
            &&& 1 <= n <= 10
            &&& pos + n <= b@.len()
            &&& v32 == varint32(b@, pos as nat, n as nat)
            &&& v64 == varint64(b@, pos as nat, n as nat)
        },
{
    let n = match varint_length(b, pos) {
        Some(n) => n,
        None => {
            return None;
        },
    };
    let _blen = b.len();
    let g0 = group_at(b, pos, n, 0);
    let g1 = group_at(b, pos, n, 1);
    let g2 = group_at(b, pos, n, 2);
    let g3 = group_at(b, pos, n, 3);
    let g4 = group_at(b, pos, n, 4);
    let g5 = group_at(b, pos, n, 5);
    let g6 = group_at(b, pos, n, 6);
    let g7 = group_at(b, pos, n, 7);
    let g8 = group_at(b, pos, n, 8);
    let top32: u64 = if 4 < n {
        (b[(pos + 4) as usize] % 16) as u64
    } else {
        0
    };
    let top64: u64 = if 9 < n {
        (b[(pos + 9) as usize] % 2) as u64
    } else {
        0
    };
    let v32 = g0 + g1 * 0x80 + g2 * 0x4000 + g3 * 0x20_0000 + top32 * 0x1000_0000;
    let v64 = g0 + g1 * 0x80 + g2 * 0x4000 + g3 * 0x20_0000 + g4 * 0x1000_0000 + g5
        * 0x8_0000_0000 + g6 * 0x400_0000_0000 + g7 * 0x2_0000_0000_0000 + g8
        * 0x100_0000_0000_0000 + top64 * 0x8000_0000_0000_0000;
    Some((n, v32 as u32, v64))
}

/// The kind of the field with tag `tag` in message `m`.
fn kind_of(m: Message, tag: u32) -> (r: FieldKind)
    ensures
        r == field_kind(m, tag as nat),
{
    match m {
        Message::Aggregator => if tag == 8 {
            FieldKind::Varint
        } else if tag == 18 {
            FieldKind::Nested(Message::Configs)
        } else if tag == 26 || tag == 34 || tag == 66 || tag == 74 {
            FieldKind::Bytes
        } else if tag == 42 {
            FieldKind::Nested(Message::Agreement)
        } else if tag == 50 || tag == 58 {
            FieldKind::Nested(Message::Round)
        } else {
            FieldKind::Unknown
        },
        Message::Configs => if tag == 8 || tag == 16 || tag == 24 {
            FieldKind::Varint
        } else if tag == 42 {
            FieldKind::Bytes
        } else {
            FieldKind::Unknown
        },
        Message::Agreement => if tag == 10 {
            FieldKind::Bytes
        } else if tag == 24 {
            FieldKind::Varint
        } else {
            FieldKind::Unknown
        },
        Message::Round => if tag == 8 || tag == 16 || tag == 32 || tag == 40 {
            FieldKind::Varint
        } else if tag == 25 || tag == 49 || tag == 57 || tag == 65 {
            FieldKind::Fixed64
        } else {
            FieldKind::Unknown
        },
        Message::Vrf => if tag == 10 || tag == 18 || tag == 26 || tag == 58 || tag == 66 || tag
            == 74 || tag == 98 {
            FieldKind::Bytes
        } else if tag == 32 || tag == 40 || tag == 48 || tag == 80 || tag == 88 {
            FieldKind::Varint
        } else {
            FieldKind::Unknown
        },
    }
}

/// Where a field of kind `k` (not a message) starting at `pos` ends.
fn field_end(k: FieldKind, tag: u32, b: &[u8], pos: u128, end: u128) -> (r: Option<u128>)
    requires
        pos <= end,
        end <= room(b@),
    ensures
        r is Some <==> skip_field(k, tag as nat, b@, pos as nat, end as nat) is Some,
        r matches Some(x) ==> x == skip_field(k, tag as nat, b@, pos as nat, end as nat)->Some_0,
{
    let blen = b.len() as u128;
    match k {
        FieldKind::Varint => match varint_length(b, pos) {
            Some(n) => Some(pos + n),
            None => None,
        },
        FieldKind::Fixed64 => if pos + 8 <= blen {
            Some(pos + 8)
        } else {
            None
        },
        FieldKind::Bytes => match read_varint(b, pos) {
            Some((n, len, _)) => if pos + n + len as u128 <= blen {
                Some(pos + n + len as u128)
            } else {
                None
            },
            None => None,
        },
        FieldKind::Nested(_) => None,
        FieldKind::Unknown => {
            let wire = tag % 8;
            if wire == 0 {
                match varint_length(b, pos) {
                    Some(n) => Some(pos + n),
                    None => None,
                }
            } else if wire == 1 {
                if end - pos < 8 {
                    None
                } else {
                    Some(pos + 8)
                }
            } else if wire == 5 {
                if end - pos < 4 {
                    None
                } else {
                    Some(pos + 4)
                }
            } else if wire == 2 {
                match read_varint(b, pos) {
                    Some((n, _, len)) => if pos + n > end || end - (pos + n) < len as u128 {
                        None
                    } else {
                        Some(pos + n + len as u128)
                    },
                    None => None,
                }
            } else {
                None
            }
        },
    }
}

/// Whether the fields of a message without nested messages, from `pos` to
/// `end`, are each read inside it.
fn flat_is_framed(m: Message, b: &[u8], pos: u128, end: u128) -> (r: bool)
    requires
        pos <= end,
        end <= room(b@),
    ensures
        r == walk_flat(m, b@, pos as nat, end as nat),
{
    let _blen = b.len();
    let mut p = pos;
    while p < end
        invariant
            pos <= p <= end,
            end <= room(b@),
            b@.len() <= usize::MAX,
            walk_flat(m, b@, pos as nat, end as nat) == walk_flat(m, b@, p as nat, end as nat),
        decreases end - p,
    {
        let (n, tag, _) = match read_varint(b, p) {
            Some(v) => v,
            None => {
                return false;
            },
        };
        if p + n > end {
            return false;
        }
        let next = match field_end(kind_of(m, tag), tag, b, p + n, end) {
            Some(x) => x,
            None => {
                return false;
            },
        };
        if next > end || next <= p {
            return false;
        }
        p = next;
    }
    true
}

/// Where a nested message of kind `k` whose length starts at `pos` ends,
/// if it is framed and inside a message ending at `end`.
fn nested_end(k: Message, b: &[u8], pos: u128, end: u128) -> (r: Option<u128>)
    requires
        pos <= end,
        end <= room(b@),
    ensures
        r is Some <==> skip_nested(k, b@, pos as nat, end as nat) is Some,
        r matches Some(x) ==> x == skip_nested(k, b@, pos as nat, end as nat)->Some_0,
{
    let _blen = b.len();
    match read_varint(b, pos) {
        Some((n, len, _)) => {
            let inner_end = pos + n + len as u128;
            if inner_end > end {
                None
            } else if flat_is_framed(k, b, pos + n, inner_end) {
                Some(inner_end)
            } else {
                None
            }
        },
        None => None,
    }
}

/// Where a field of an aggregator starting at `pos` ends.
fn aggregator_field_end(tag: u32, b: &[u8], pos: u128, end: u128) -> (r: Option<u128>)
    requires
        pos <= end,
        end <= room(b@),
    ensures
        r is Some <==> skip_aggregator_field(tag as nat, b@, pos as nat, end as nat) is Some,
        r matches Some(x) ==> x == skip_aggregator_field(tag as nat, b@, pos as nat, end as nat)->Some_0,
{
    match kind_of(Message::Aggregator, tag) {
        FieldKind::Nested(k) => nested_end(k, b, pos, end),
        k => field_end(k, tag, b, pos, end),
    }
}

/// Whether the fields of an aggregator from `pos` to `end`, and of the
/// messages it holds, are each read inside the message holding them.
fn aggregator_fields_framed(b: &[u8], pos: u128, end: u128) -> (r: bool)
    requires
        pos <= end,
        end <= room(b@),
    ensures
        r == walk_aggregator(b@, pos as nat, end as nat),
{
    let _blen = b.len();
    let mut p = pos;
    while p < end
        invariant
            pos <= p <= end,
            end <= room(b@),
            b@.len() <= usize::MAX,
            walk_aggregator(b@, pos as nat, end as nat) == walk_aggregator(
                b@,
                p as nat,
                end as nat,
            ),
        decreases end - p,
    {
        let (n, tag, _) = match read_varint(b, p) {
            Some(v) => v,
            None => {
                return false;
            },
        };
        if p + n > end {
            return false;
        }
        let next = match aggregator_field_end(tag, b, p + n, end) {
            Some(x) => x,
            None => {
                return false;
            },
        };
        if next > end || next <= p {
            return false;
        }
        p = next;
    }
    true
}

/// Whether length-prefixed aggregator bytes are framed.
pub fn aggregator_is_framed(b: &[u8]) -> (r: bool)
    ensures
        r == aggregator_framed(b@),
{
    match read_varint(b, 0) {
        Some((n, len, _)) => aggregator_fields_framed(b, n, n + len as u128),
        None => false,
    }
}

/// Whether length-prefixed VRF account bytes are framed.
pub fn vrf_is_framed(b: &[u8]) -> (r: bool)
    ensures
        r == vrf_framed(b@),
{
    match read_varint(b, 0) {
        Some((n, len, _)) => flat_is_framed(Message::Vrf, b, n, n + len as u128),
        None => false,
    }
}

} // verus!
