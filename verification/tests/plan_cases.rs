use bufpool::plan::{
    cases, supported_size, Allocator, Case, Pattern, BATCH_SIZE, INNER_LOOP, ITERATIONS, SIZES,
    SIZE_COUNT,
};

#[test]
fn pattern_labels() {
    assert_eq!(Pattern::Immediate.as_str(), "immediate");
    assert_eq!(Pattern::Lifo.as_str(), "lifo");
    assert_eq!(Pattern::Fifo.as_str(), "fifo");
    assert_eq!(Pattern::Random.as_str(), "random");
}

#[test]
fn allocator_labels() {
    assert_eq!(Allocator::Box.as_str(), "box");
    assert_eq!(Allocator::SlabCold.as_str(), "slab_cold");
    assert_eq!(Allocator::SlabWarm.as_str(), "slab_warm");
}

#[test]
fn patterns_in_order() {
    assert_eq!(
        Pattern::all(),
        &[Pattern::Immediate, Pattern::Lifo, Pattern::Fifo, Pattern::Random]
    );
}

#[test]
fn allocators_in_order() {
    assert_eq!(Allocator::all(), &[Allocator::Box, Allocator::SlabCold, Allocator::SlabWarm]);
}

#[test]
fn parameters_of_a_run() {
    assert_eq!(ITERATIONS, 100);
    assert_eq!(BATCH_SIZE, 100);
    assert_eq!(INNER_LOOP, 1000);
    assert_eq!(SIZE_COUNT, SIZES.len());
    assert_eq!(
        SIZES,
        [8, 12, 16, 24, 32, 48, 64, 96, 128, 192, 256, 384, 512, 768, 1024, 1536, 2048, 3072, 4096]
    );
}

#[test]
fn supported_sizes_are_the_listed_ones() {
    for size in SIZES {
        assert!(supported_size(size));
    }
    assert!(!supported_size(0));
    assert!(!supported_size(7));
    assert!(!supported_size(9));
    assert!(!supported_size(4095));
    assert!(!supported_size(4097));
    assert!(!supported_size(8192));
    assert!(!supported_size(usize::MAX));
}

#[test]
fn cases_run_sizes_fastest_then_patterns_then_allocators() {
    let all = cases();
    assert_eq!(all.len(), 228);
    assert_eq!(
        all[0],
        Case { allocator: Allocator::Box, pattern: Pattern::Immediate, size: 8 }
    );
    assert_eq!(
        all[1],
        Case { allocator: Allocator::Box, pattern: Pattern::Immediate, size: 12 }
    );
    assert_eq!(
        all[18],
        Case { allocator: Allocator::Box, pattern: Pattern::Immediate, size: 4096 }
    );
    assert_eq!(all[19], Case { allocator: Allocator::Box, pattern: Pattern::Lifo, size: 8 });
    assert_eq!(
        all[76],
        Case { allocator: Allocator::SlabCold, pattern: Pattern::Immediate, size: 8 }
    );
    assert_eq!(
        all[227],
        Case { allocator: Allocator::SlabWarm, pattern: Pattern::Random, size: 4096 }
    );
}

#[test]
fn cases_are_the_nested_loops() {
    let mut expected = Vec::new();
    for &allocator in Allocator::all() {
        for &pattern in Pattern::all() {
            for &size in SIZES.iter() {
                expected.push(Case { allocator, pattern, size });
            }
        }
    }
    assert_eq!(cases(), expected);
}
