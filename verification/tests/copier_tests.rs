use lockstep_video::copier::{fast_copy, plan_copy, CopyPlan};

fn pattern(len: usize) -> Vec<u8> {
    (0..len).map(|i| (i * 31 + 7) as u8).collect()
}

fn check_copy(len: usize) {
    let src = pattern(len);
    let mut dst = vec![0xEEu8; len];
    fast_copy(&src, &mut dst, 0);
    assert_eq!(dst, src);
}

#[test]
fn fast_copy_reproduces_source_for_edge_lengths() {
    for len in [0usize, 1, 7, 8, 9, 63, 64, 65, 1_000_003] {
        check_copy(len);
    }
}

#[test]
fn fast_copy_leaves_bytes_outside_the_range_alone() {
    for len in [0usize, 1, 7, 8, 9, 63, 64, 65, 200] {
        let src = pattern(len);
        let mut dst = vec![0xEEu8; len + 10];
        fast_copy(&src, &mut dst, 3);
        assert_eq!(&dst[..3], &[0xEE; 3]);
        assert_eq!(&dst[3..3 + len], &src[..]);
        assert_eq!(&dst[3 + len..], &[0xEE; 7]);
    }
}

#[test]
fn plan_copy_splits_into_blocks_words_and_bytes() {
    assert_eq!(plan_copy(0), CopyPlan { blocks: 0, words: 0, bytes: 0 });
    assert_eq!(plan_copy(7), CopyPlan { blocks: 0, words: 0, bytes: 7 });
    assert_eq!(plan_copy(8), CopyPlan { blocks: 0, words: 1, bytes: 0 });
    assert_eq!(plan_copy(63), CopyPlan { blocks: 0, words: 7, bytes: 7 });
    assert_eq!(plan_copy(64), CopyPlan { blocks: 1, words: 0, bytes: 0 });
    assert_eq!(plan_copy(65), CopyPlan { blocks: 1, words: 0, bytes: 1 });
    assert_eq!(plan_copy(1_000_003), CopyPlan { blocks: 15_625, words: 0, bytes: 3 });
    assert_eq!(plan_copy(8_294_400), CopyPlan { blocks: 129_600, words: 0, bytes: 0 });
}

#[test]
fn plan_copy_always_adds_up() {
    for len in 0usize..600 {
        let plan = plan_copy(len);
        assert!(plan.words < 8 && plan.bytes < 8);
        assert_eq!(plan.blocks * 64 + plan.words * 8 + plan.bytes, len);
    }
}
