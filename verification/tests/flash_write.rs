use rustboot_hal::flash_write::{merge_byte, next_write_op, write_plan, WordPolicy, WriteOp};

/// Carries out `ops` on a little-endian byte-addressed flash image whose
/// first byte is at `base`, the way the drivers do.
fn run(mem: &mut Vec<u8>, base: u32, ops: &[WriteOp], data: &[u8]) {
    for op in ops {
        match *op {
            WriteOp::Word { dst, index } => {
                let at = (dst - base) as usize;
                for k in 0..4 {
                    mem[at + k] = data[index as usize + k];
                }
            }
            WriteOp::Byte { word_addr, offset, index } => {
                assert_eq!(word_addr % 4, 0);
                let at = (word_addr - base) as usize;
                let word = u32::from_le_bytes([mem[at], mem[at + 1], mem[at + 2], mem[at + 3]]);
                let merged = merge_byte(word, offset, data[index as usize]);
                mem[at..at + 4].copy_from_slice(&merged.to_le_bytes());
            }
        }
    }
}

fn check_stores(policy: WordPolicy, address: u32, data_addr: u32, len: usize) {
    let base = 0x1000u32;
    let data: Vec<u8> = (0..len).map(|i| (i as u8).wrapping_mul(7).wrapping_add(1)).collect();
    let mut mem = vec![0xFFu8; 64];
    let ops = write_plan(policy, address, data_addr, len as u32);
    run(&mut mem, base, &ops, &data);
    for (i, b) in mem.iter().enumerate() {
        let a = base + i as u32;
        if a >= address && a < address + len as u32 {
            assert_eq!(*b, data[(a - address) as usize]);
        } else {
            assert_eq!(*b, 0xFF);
        }
    }
}

#[test]
fn plan_stores_data_every_alignment() {
    for policy in [WordPolicy::AlignedOnly, WordPolicy::AnyAlignment] {
        for start in 0x1004u32..0x1008 {
            for data_addr in 0x2000u32..0x2004 {
                for len in 0..20 {
                    check_stores(policy, start, data_addr, len);
                }
            }
        }
    }
}

#[test]
fn aligned_write_uses_words() {
    let ops = write_plan(WordPolicy::AlignedOnly, 0x1000, 0x2000, 8);
    assert_eq!(
        ops,
        vec![WriteOp::Word { dst: 0x1000, index: 0 }, WriteOp::Word { dst: 0x1004, index: 4 }]
    );
}

#[test]
fn aligned_only_tail_is_bytes() {
    let ops = write_plan(WordPolicy::AlignedOnly, 0x1000, 0x2000, 6);
    assert_eq!(
        ops,
        vec![
            WriteOp::Word { dst: 0x1000, index: 0 },
            WriteOp::Byte { word_addr: 0x1004, offset: 0, index: 4 },
            WriteOp::Byte { word_addr: 0x1004, offset: 1, index: 5 },
        ]
    );
}

#[test]
fn aligned_only_unaligned_start_uses_bytes_then_words() {
    let ops = write_plan(WordPolicy::AlignedOnly, 0x1002, 0x2002, 8);
    assert_eq!(
        ops,
        vec![
            WriteOp::Byte { word_addr: 0x1000, offset: 2, index: 0 },
            WriteOp::Byte { word_addr: 0x1000, offset: 3, index: 1 },
            WriteOp::Word { dst: 0x1004, index: 2 },
            WriteOp::Byte { word_addr: 0x1008, offset: 0, index: 6 },
            WriteOp::Byte { word_addr: 0x1008, offset: 1, index: 7 },
        ]
    );
}

#[test]
fn aligned_only_misaligned_source_uses_bytes() {
    let ops = write_plan(WordPolicy::AlignedOnly, 0x1000, 0x2001, 4);
    assert_eq!(ops.len(), 4);
    assert!(ops.iter().all(|op| matches!(op, WriteOp::Byte { .. })));
}

#[test]
fn any_alignment_uses_words_while_four_bytes_remain() {
    let ops = write_plan(WordPolicy::AnyAlignment, 0x1001, 0x2003, 6);
    assert_eq!(
        ops,
        vec![
            WriteOp::Word { dst: 0x1001, index: 0 },
            WriteOp::Byte { word_addr: 0x1004, offset: 1, index: 4 },
            WriteOp::Byte { word_addr: 0x1004, offset: 2, index: 5 },
        ]
    );
}

#[test]
fn empty_write_has_no_steps() {
    assert!(write_plan(WordPolicy::AlignedOnly, 0x1000, 0x2000, 0).is_empty());
    assert!(write_plan(WordPolicy::AnyAlignment, 0x1003, 0x2000, 0).is_empty());
}

#[test]
fn next_op_matches_plan() {
    let ops = write_plan(WordPolicy::AlignedOnly, 0x1003, 0x2003, 9);
    let mut idx = 0u32;
    for op in &ops {
        assert_eq!(next_write_op(WordPolicy::AlignedOnly, 0x1003, 0x2003, 9, idx), *op);
        idx += match op {
            WriteOp::Word { .. } => 4,
            WriteOp::Byte { .. } => 1,
        };
    }
    assert_eq!(idx, 9);
}

#[test]
fn merge_byte_replaces_one_byte() {
    assert_eq!(merge_byte(0x1122_3344, 0, 0xAA), 0x1122_33AA);
    assert_eq!(merge_byte(0x1122_3344, 1, 0xAA), 0x1122_AA44);
    assert_eq!(merge_byte(0x1122_3344, 2, 0xAA), 0x11AA_3344);
    assert_eq!(merge_byte(0x1122_3344, 3, 0xAA), 0xAA22_3344);
    assert_eq!(merge_byte(0xFFFF_FFFF, 2, 0x00), 0xFF00_FFFF);
}

#[test]
fn any_alignment_words_follow_the_start_alignment() {
    for start in 0x1000u32..0x1008 {
        for len in 0..20u32 {
            for op in write_plan(WordPolicy::AnyAlignment, start, 0x2001, len) {
                if let WriteOp::Word { dst, .. } = op {
                    assert_eq!(dst % 4 == 0, start % 4 == 0);
                }
            }
        }
    }
}
