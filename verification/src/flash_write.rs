//! Splitting a flash write into programming steps.
//!
//! Flash is programmed one 32-bit word at a time. A write of `len` bytes from
//! a source buffer at `data_addr` to flash at `address` walks an index `idx`
//! from 0 to `len`: where a whole word can be programmed at once it copies
//! four bytes, otherwise it rewrites the word that holds the next byte with
//! only that byte changed.
use vstd::prelude::*;

verus! {

/// When a step may program four bytes at once.
#[derive(Clone, Copy, PartialEq, Eq, Debug, Structural)]
pub enum WordPolicy {
    /// At least four bytes remain, and both the flash address and the source
    /// address of the next byte are word aligned (the nRF9160 NVMC).
    AlignedOnly,
    /// At least four bytes remain (the STM32F469 flash interface).
    AnyAlignment,
}

/// One programming step of a flash write.
#[derive(Clone, Copy, PartialEq, Eq, Debug, Structural)]
pub enum WriteOp {
    /// Program the word at `dst` with source bytes `index .. index + 4`.
    Word { dst: u32, index: u32 },
    /// Read the aligned word at `word_addr`, replace its byte `offset` with
    /// source byte `index`, and program the word back.
    Byte { word_addr: u32, offset: u32, index: u32 },
}

/// Byte `k` (0 to 3) of a word, in memory order on a little-endian core.
pub open spec fn byte_of(w: u32, k: int) -> u8 {
    if k == 0 {
        (w & 0xff) as u8
    } else if k == 1 {
        ((w >> 8u32) & 0xff) as u8
    } else if k == 2 {
        ((w >> 16u32) & 0xff) as u8
    } else {
        ((w >> 24u32) & 0xff) as u8
    }
}

/// Whether the step at `idx` programs a whole word.
pub open spec fn word_step(policy: WordPolicy, address: int, data_addr: int, len: int, idx: int) -> bool {
    &&& len - idx > 3
    &&& (policy == WordPolicy::AlignedOnly ==> (address + idx) % 4 == 0 && (data_addr + idx) % 4 == 0)
}

/// The step taken at index `idx`.
pub open spec fn step_at(policy: WordPolicy, address: int, data_addr: int, len: int, idx: int) -> WriteOp {
    if word_step(policy, address, data_addr, len, idx) {
        WriteOp::Word { dst: (address + idx) as u32, index: idx as u32 }
    } else {
        WriteOp::Byte {
            word_addr: (address + idx - (address + idx) % 4) as u32,
            offset: ((address + idx) % 4) as u32,
            index: idx as u32,
        }
    }
}

/// How many source bytes a step consumes.
pub open spec fn op_len(op: WriteOp) -> int {
    match op {
        WriteOp::Word { .. } => 4,
        WriteOp::Byte { .. } => 1,
    }
}

/// The steps that write source bytes `idx .. len`, in order.
pub open spec fn plan_from(policy: WordPolicy, address: int, data_addr: int, len: int, idx: int) -> Seq<WriteOp>
    decreases len - idx,
{
    if idx < 0 || idx >= len {
        Seq::empty()
    } else {
        let op = step_at(policy, address, data_addr, len, idx);
        seq![op] + plan_from(policy, address, data_addr, len, idx + op_len(op))
    }
}

/// Flash contents, byte by byte, after one step that programs from `data`.
pub open spec fn apply_op(mem: spec_fn(int) -> u8, op: WriteOp, data: Seq<u8>) -> spec_fn(int) -> u8 {
    match op {
        WriteOp::Word { dst, index } => |a: int|
            if dst <= a < dst + 4 { data[index + (a - dst)] } else { mem(a) },
        WriteOp::Byte { word_addr, offset, index } => |a: int|
            if a == word_addr + offset { data[index as int] } else { mem(a) },
    }
}

/// Flash contents after a sequence of steps, first to last.
pub open spec fn apply_ops(mem: spec_fn(int) -> u8, ops: Seq<WriteOp>, data: Seq<u8>) -> spec_fn(int) -> u8
    decreases ops.len(),
{
    if ops.len() == 0 {
        mem
    } else {
        apply_ops(apply_op(mem, ops[0], data), ops.drop_first(), data)
    }
}

/// The step of a write at index `idx` (`idx < len`).
pub fn next_write_op(policy: WordPolicy, address: u32, data_addr: u32, len: u32, idx: u32) -> (op: WriteOp)
    requires
        idx < len,
        address + len <= u32::MAX,
    ensures
        op == step_at(policy, address as int, data_addr as int, len as int, idx as int),
        idx + op_len(op) <= len,
        (op is Word) <==> (len - idx > 3 && (policy == WordPolicy::AlignedOnly
            ==> (address + idx) % 4 == 0 && (data_addr + idx) % 4 == 0)),
{
    let target = address + idx;
    let whole_word = if len - idx > 3 {
        match policy {
            WordPolicy::AlignedOnly => {
                proof {
                    vstd::arithmetic::div_mod::lemma_add_mod_noop(data_addr as int, idx as int, 4);
                }
                target % 4 == 0 && (data_addr % 4 + idx % 4) % 4 == 0
            },
            WordPolicy::AnyAlignment => true,
        }
    } else {
        false
    };
    if whole_word {
        WriteOp::Word { dst: target, index: idx }
    } else {
        let offset = target % 4;
        WriteOp::Byte { word_addr: target - offset, offset, index: idx }
    }
}


/// The word to program back for a byte step: `word` (the current contents
/// of the aligned flash word) with its byte `offset` replaced by `byte`.
pub fn merge_byte(word: u32, offset: u32, byte: u8) -> (merged: u32)
    requires
        offset < 4,
    ensures
        forall|k: int| 0 <= k < 4 ==> #[trigger] byte_of(merged, k) == (if k == offset { byte } else { byte_of(word, k) }),
{
    let shift: u32 = offset * 8;
    let merged = (word & !(0xffu32 << shift)) | ((byte as u32) << shift);
    proof {
        let b = byte as u32;
        assert(b < 256);
        if offset == 0 {
            assert(merged == (word & !(0xffu32 << 0u32)) | (b << 0u32));
            assert(((word & !(0xffu32 << 0u32)) | (b << 0u32)) & 0xff == b
                && (((word & !(0xffu32 << 0u32)) | (b << 0u32)) >> 8u32) & 0xff == (word >> 8u32) & 0xff
                && (((word & !(0xffu32 << 0u32)) | (b << 0u32)) >> 16u32) & 0xff == (word >> 16u32) & 0xff
                && (((word & !(0xffu32 << 0u32)) | (b << 0u32)) >> 24u32) & 0xff == (word >> 24u32) & 0xff)
                by (bit_vector)
                requires b < 256;
        } else if offset == 1 {
            assert(merged == (word & !(0xffu32 << 8u32)) | (b << 8u32));
            assert(((word & !(0xffu32 << 8u32)) | (b << 8u32)) & 0xff == word & 0xff
                && (((word & !(0xffu32 << 8u32)) | (b << 8u32)) >> 8u32) & 0xff == b
                && (((word & !(0xffu32 << 8u32)) | (b << 8u32)) >> 16u32) & 0xff == (word >> 16u32) & 0xff
                && (((word & !(0xffu32 << 8u32)) | (b << 8u32)) >> 24u32) & 0xff == (word >> 24u32) & 0xff)
                by (bit_vector)
                requires b < 256;
        } else if offset == 2 {
            assert(merged == (word & !(0xffu32 << 16u32)) | (b << 16u32));
            assert(((word & !(0xffu32 << 16u32)) | (b << 16u32)) & 0xff == word & 0xff
                && (((word & !(0xffu32 << 16u32)) | (b << 16u32)) >> 8u32) & 0xff == (word >> 8u32) & 0xff
                && (((word & !(0xffu32 << 16u32)) | (b << 16u32)) >> 16u32) & 0xff == b
                && (((word & !(0xffu32 << 16u32)) | (b << 16u32)) >> 24u32) & 0xff == (word >> 24u32) & 0xff)
                by (bit_vector)
                requires b < 256;
        } else {
            assert(merged == (word & !(0xffu32 << 24u32)) | (b << 24u32));
            assert(((word & !(0xffu32 << 24u32)) | (b << 24u32)) & 0xff == word & 0xff
                && (((word & !(0xffu32 << 24u32)) | (b << 24u32)) >> 8u32) & 0xff == (word >> 8u32) & 0xff
                && (((word & !(0xffu32 << 24u32)) | (b << 24u32)) >> 16u32) & 0xff == (word >> 16u32) & 0xff
                && (((word & !(0xffu32 << 24u32)) | (b << 24u32)) >> 24u32) & 0xff == b)
                by (bit_vector)
                requires b < 256;
        }
    }
    merged
}

/// Unfolds `plan_from` once at an index inside the write.
proof fn lemma_plan_unfold(policy: WordPolicy, address: int, data_addr: int, len: int, idx: int)
    requires
        0 <= idx < len,
    ensures
        plan_from(policy, address, data_addr, len, idx) == seq![step_at(policy, address, data_addr, len, idx)]
            + plan_from(policy, address, data_addr, len, idx + op_len(step_at(policy, address, data_addr, len, idx))),
{
}

/// All the steps of writing `len` source bytes from `data_addr` to flash at
/// `address`, in the order they are carried out.
pub fn write_plan(policy: WordPolicy, address: u32, data_addr: u32, len: u32) -> (ops: Vec<WriteOp>)
    requires
        address + len <= u32::MAX,
    ensures
        ops@ == plan_from(policy, address as int, data_addr as int, len as int, 0),
{
    let mut ops: Vec<WriteOp> = Vec::new();
    let mut idx: u32 = 0;
    while idx < len
        invariant
            idx <= len,
            address + len <= u32::MAX,
            ops@ + plan_from(policy, address as int, data_addr as int, len as int, idx as int)
                == plan_from(policy, address as int, data_addr as int, len as int, 0),
        decreases len - idx,
    {
        let op = next_write_op(policy, address, data_addr, len, idx);
        proof {
            lemma_plan_unfold(policy, address as int, data_addr as int, len as int, idx as int);
        }
        let step: u32 = match op {
            WriteOp::Word { .. } => 4,
            WriteOp::Byte { .. } => 1,
        };
        let ghost before = ops@;
        ops.push(op);
        idx = idx + step;
        proof {
            assert(ops@ == before + seq![op]);
            assert(before + seq![op] + plan_from(policy, address as int, data_addr as int, len as int, idx as int)
                =~= before + (seq![op] + plan_from(policy, address as int, data_addr as int, len as int, idx as int)));
        }
    }
    ops
}

/// The source index a step starts at.
pub open spec fn op_index(op: WriteOp) -> int {
    match op {
        WriteOp::Word { index, .. } => index as int,
        WriteOp::Byte { index, .. } => index as int,
    }
}

/// A step of a write of `len` bytes to `address` that targets the right
/// flash bytes: a word step programs four bytes in range at the matching
/// address (both ends word aligned under `AlignedOnly`), a byte step names
/// an aligned word and the offset in it of the matching address. Under
/// `AnyAlignment` word steps come only at multiples of four bytes into the
/// write, so they are aligned exactly when `address` is.
pub open spec fn op_well_formed(policy: WordPolicy, address: int, data_addr: int, len: int, op: WriteOp) -> bool {
    match op {
        WriteOp::Word { dst, index } => {
            &&& index + 4 <= len
            &&& dst == address + index
            &&& policy == WordPolicy::AlignedOnly ==> dst % 4 == 0 && (data_addr + index) % 4 == 0
            &&& policy == WordPolicy::AnyAlignment ==> index % 4 == 0
        },
        WriteOp::Byte { word_addr, offset, index } => {
            &&& index < len
            &&& word_addr % 4 == 0
            &&& offset < 4
            &&& word_addr + offset == address + index
        },
    }
}

proof fn lemma_plan_from_well_formed(policy: WordPolicy, address: int, data_addr: int, len: int, idx: int)
    requires
        0 <= address,
        address + len <= u32::MAX,
        0 <= idx <= len,
        policy == WordPolicy::AnyAlignment ==> idx % 4 == 0 || len - idx <= 3,
    ensures
        ({
            let ops = plan_from(policy, address, data_addr, len, idx);
            &&& idx < len ==> ops.len() > 0 && op_index(ops[0]) == idx
            &&& forall|i: int| 0 <= i < ops.len() ==> #[trigger] op_well_formed(policy, address, data_addr, len, ops[i])
            &&& forall|i: int| 0 <= i < ops.len() - 1 ==> op_index(#[trigger] ops[i + 1]) == op_index(ops[i]) + op_len(ops[i])
            &&& ops.len() > 0 ==> op_index(ops.last()) + op_len(ops.last()) == len
        }),
    decreases len - idx,
{
    if idx < len {
        let op = step_at(policy, address, data_addr, len, idx);
        lemma_plan_unfold(policy, address, data_addr, len, idx);
        lemma_plan_from_well_formed(policy, address, data_addr, len, idx + op_len(op));
        let ops = plan_from(policy, address, data_addr, len, idx);
        let rest = plan_from(policy, address, data_addr, len, idx + op_len(op));
        assert forall|i: int| 0 <= i < ops.len() - 1 implies op_index(#[trigger] ops[i + 1]) == op_index(ops[i]) + op_len(ops[i]) by {
            assert(ops[i + 1] == rest[i]);
            if i > 0 {
                let j = i - 1;
                assert(ops[i] == rest[j]);
                assert(op_index(rest[j + 1]) == op_index(rest[j]) + op_len(rest[j]));
            } else {
                assert(ops[0] == op);
                assert(op_index(op) == idx);
                assert(rest.len() > 0);
                assert(idx + op_len(op) < len);
            }
        }
        assert forall|i: int| 0 <= i < ops.len() implies #[trigger] op_well_formed(policy, address, data_addr, len, ops[i]) by {
            if i > 0 {
                assert(ops[i] == rest[i - 1]);
            }
        }
    }
}

/// The steps of `write_plan` take the source bytes in order, each exactly
/// once: the first starts at index 0, each next one where the previous one
/// ended, the last ends at `len`, and every step is well formed.
pub proof fn lemma_write_plan_steps(policy: WordPolicy, address: u32, data_addr: u32, len: u32)
    requires
        address + len <= u32::MAX,
    ensures
        ({
            let ops = plan_from(policy, address as int, data_addr as int, len as int, 0);
            &&& len > 0 ==> ops.len() > 0 && op_index(ops[0]) == 0
            &&& len == 0 ==> ops.len() == 0
            &&& forall|i: int| 0 <= i < ops.len() ==> #[trigger] op_well_formed(policy, address as int, data_addr as int, len as int, ops[i])
            &&& forall|i: int| 0 <= i < ops.len() - 1 ==> op_index(#[trigger] ops[i + 1]) == op_index(ops[i]) + op_len(ops[i])
            &&& ops.len() > 0 ==> op_index(ops.last()) + op_len(ops.last()) == len
            &&& policy == WordPolicy::AnyAlignment ==> forall|i: int| 0 <= i < ops.len() && (#[trigger] ops[i] is Word)
                ==> (ops[i]->dst % 4 == 0 <==> address % 4 == 0)
        }),
{
    lemma_plan_from_well_formed(policy, address as int, data_addr as int, len as int, 0);
    let ops = plan_from(policy, address as int, data_addr as int, len as int, 0);
    if policy == WordPolicy::AnyAlignment {
        assert forall|i: int| 0 <= i < ops.len() && (#[trigger] ops[i] is Word)
            implies (ops[i]->dst % 4 == 0 <==> address % 4 == 0) by {
            assert(op_well_formed(policy, address as int, data_addr as int, len as int, ops[i]));
            let index = op_index(ops[i]);
            assert(index % 4 == 0);
            assert(ops[i]->dst == address + index);
            vstd::arithmetic::div_mod::lemma_add_mod_noop(address as int, index, 4);
        }
    }
}

/// The steps that write source bytes `idx .. len` store exactly those bytes
/// at `address + idx .. address + len` and leave every other byte alone.
proof fn lemma_plan_from_stores(
    policy: WordPolicy,
    address: int,
    data_addr: int,
    data: Seq<u8>,
    idx: int,
    mem: spec_fn(int) -> u8,
    a: int,
)
    requires
        0 <= address,
        address + data.len() <= u32::MAX,
        0 <= idx <= data.len(),
    ensures
        apply_ops(mem, plan_from(policy, address, data_addr, data.len() as int, idx), data)(a)
            == (if address + idx <= a < address + data.len() { data[a - address] } else { mem(a) }),
    decreases data.len() - idx,
{
    let len = data.len() as int;
    if idx < len {
        let op = step_at(policy, address, data_addr, len, idx);
        let rest = plan_from(policy, address, data_addr, len, idx + op_len(op));
        lemma_plan_unfold(policy, address, data_addr, len, idx);
        let ops = plan_from(policy, address, data_addr, len, idx);
        assert(ops[0] == op);
        assert(ops.drop_first() =~= rest);
        let mem2 = apply_op(mem, op, data);
        lemma_plan_from_stores(policy, address, data_addr, data, idx + op_len(op), mem2, a);
    }
}

/// Carrying out `write_plan` leaves flash holding `data` at
/// `address .. address + data.len()`, with every byte outside that range
/// unchanged, whichever policy decides between word and byte steps.
pub proof fn lemma_write_plan_stores_data(
    policy: WordPolicy,
    address: u32,
    data_addr: u32,
    data: Seq<u8>,
    mem: spec_fn(int) -> u8,
)
    requires
        address + data.len() <= u32::MAX,
    ensures
        forall|a: int|
            #[trigger] apply_ops(mem, plan_from(policy, address as int, data_addr as int, data.len() as int, 0), data)(a)
                == (if address <= a < address + data.len() { data[a - address] } else { mem(a) }),
{
    assert forall|a: int|
        #[trigger] apply_ops(mem, plan_from(policy, address as int, data_addr as int, data.len() as int, 0), data)(a)
            == (if address <= a < address + data.len() { data[a - address] } else { mem(a) }) by {
        lemma_plan_from_stores(policy, address as int, data_addr as int, data, 0, mem, a);
    }
}

/// A step programs a whole word exactly when at least four source bytes
/// remain and, under `AlignedOnly`, both the flash byte and the source byte
/// it starts at are word aligned; otherwise it programs one byte.
pub proof fn lemma_word_step_exactly_when_possible(
    policy: WordPolicy,
    address: u32,
    data_addr: u32,
    len: u32,
    idx: int,
)
    requires
        address + len <= u32::MAX,
        0 <= idx < len,
    ensures
        (step_at(policy, address as int, data_addr as int, len as int, idx) is Word) <==> (len - idx >= 4 && (
        policy == WordPolicy::AlignedOnly ==> (address + idx) % 4 == 0 && (data_addr + idx) % 4 == 0)),
        op_len(step_at(policy, address as int, data_addr as int, len as int, idx)) == if step_at(
            policy,
            address as int,
            data_addr as int,
            len as int,
            idx,
        ) is Word {
            4int
        } else {
            1int
        },
{
}

proof fn lemma_byte_tail(policy: WordPolicy, address: int, data_addr: int, len: int, idx: int)
    requires
        0 <= idx <= len,
        len <= u32::MAX,
        len - idx <= 3,
    ensures
        ({
            let ops = plan_from(policy, address, data_addr, len, idx);
            &&& ops.len() == len - idx
            &&& forall|i: int| 0 <= i < ops.len() ==> (#[trigger] ops[i] is Byte) && op_index(ops[i]) == idx + i
        }),
    decreases len - idx,
{
    if idx < len {
        lemma_plan_unfold(policy, address, data_addr, len, idx);
        lemma_byte_tail(policy, address, data_addr, len, idx + 1);
        let ops = plan_from(policy, address, data_addr, len, idx);
        let rest = plan_from(policy, address, data_addr, len, idx + 1);
        assert forall|i: int| 0 <= i < ops.len() implies (#[trigger] ops[i] is Byte) && op_index(ops[i]) == idx + i by {
            if i > 0 {
                assert(ops[i] == rest[i - 1]);
            }
        }
    }
}

proof fn lemma_words_then_bytes(policy: WordPolicy, address: int, data_addr: int, len: int, idx: int)
    requires
        0 <= idx <= len,
        len <= u32::MAX,
        idx % 4 == 0,
        policy == WordPolicy::AnyAlignment || (address % 4 == 0 && data_addr % 4 == 0),
    ensures
        ({
            let ops = plan_from(policy, address, data_addr, len, idx);
            let words = (len - idx) / 4;
            &&& ops.len() == words + (len - idx) % 4
            &&& forall|i: int| 0 <= i < ops.len() ==> ((#[trigger] ops[i] is Word) <==> i < words)
            &&& forall|i: int| 0 <= i < ops.len() ==> op_index(#[trigger] ops[i])
                == if i < words { idx + 4 * i } else { idx + 4 * words + (i - words) }
        }),
    decreases len - idx,
{
    if len - idx <= 3 {
        lemma_byte_tail(policy, address, data_addr, len, idx);
    } else {
        assert((address + idx) % 4 == 0 && (data_addr + idx) % 4 == 0 ==> true);
        if policy == WordPolicy::AlignedOnly {
            assert((address + idx) % 4 == 0);
            assert((data_addr + idx) % 4 == 0);
        }
        lemma_plan_unfold(policy, address, data_addr, len, idx);
        lemma_words_then_bytes(policy, address, data_addr, len, idx + 4);
        let ops = plan_from(policy, address, data_addr, len, idx);
        let rest = plan_from(policy, address, data_addr, len, idx + 4);
        let words = (len - idx) / 4;
        assert((len - idx - 4) / 4 == words - 1);
        assert((len - idx - 4) % 4 == (len - idx) % 4);
        assert(ops[0] is Word);
        assert forall|i: int| 0 <= i < ops.len() implies ((#[trigger] ops[i] is Word) <==> i < words) by {
            if i > 0 {
                assert(ops[i] == rest[i - 1]);
            }
        }
        assert forall|i: int| 0 <= i < ops.len() implies op_index(#[trigger] ops[i])
            == if i < words { idx + 4 * i } else { idx + 4 * words + (i - words) } by {
            if i > 0 {
                assert(ops[i] == rest[i - 1]);
            }
        }
    }
}

/// When word steps cannot be blocked by alignment (any alignment allowed,
/// or flash and source both word aligned), a write of `len` bytes is
/// `len / 4` word steps over consecutive words followed by `len % 4` byte
/// steps for the remaining bytes: every full word is programmed at once.
pub proof fn lemma_write_plan_words_then_bytes(policy: WordPolicy, address: u32, data_addr: u32, len: u32)
    requires
        address + len <= u32::MAX,
        policy == WordPolicy::AnyAlignment || (address % 4 == 0 && data_addr % 4 == 0),
    ensures
        ({
            let ops = plan_from(policy, address as int, data_addr as int, len as int, 0);
            &&& ops.len() == len / 4 + len % 4
            &&& forall|i: int| 0 <= i < ops.len() ==> ((#[trigger] ops[i] is Word) <==> i < len / 4)
            &&& forall|i: int| 0 <= i < len / 4 ==> #[trigger] ops[i] == (WriteOp::Word {
                dst: (address + 4 * i) as u32,
                index: (4 * i) as u32,
            })
            &&& forall|i: int| len / 4 <= i < ops.len() ==> op_index(#[trigger] ops[i]) == 4 * (len / 4) + (i - len / 4)
        }),
{
    lemma_words_then_bytes(policy, address as int, data_addr as int, len as int, 0);
    lemma_write_plan_steps(policy, address, data_addr, len);
    let ops = plan_from(policy, address as int, data_addr as int, len as int, 0);
    assert forall|i: int| 0 <= i < len / 4 implies #[trigger] ops[i] == (WriteOp::Word {
        dst: (address + 4 * i) as u32,
        index: (4 * i) as u32,
    }) by {
        assert(ops[i] is Word);
        assert(op_index(ops[i]) == 4 * i);
        assert(op_well_formed(policy, address as int, data_addr as int, len as int, ops[i]));
    }
}

} // verus!
