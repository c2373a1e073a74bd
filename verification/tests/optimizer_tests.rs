use vex_codegen::inline_optimizer::{FunctionFacts, InlineOptimizer, OptimizationStats};
use vex_codegen::safety::{check_alloca_size, get_type_alignment, LlvmTypeKind, SafetyConfig};

fn facts(name: &str, blocks: Vec<usize>, inline: bool) -> FunctionFacts {
    FunctionFacts { name: name.to_string(), block_sizes: blocks, always_inline: inline, call_count: 0 }
}

fn called(name: &str, calls: usize) -> FunctionFacts {
    FunctionFacts { name: name.to_string(), block_sizes: vec![3], always_inline: false, call_count: calls }
}

#[test]
fn wrappers_still_called_break_zero_cost() {
    let opt = InlineOptimizer::new(vec![
        called("__wrapper_print", 2),
        called("main", 1),
        called("vex_print", 4),
        called("helper", 3),
        called("__stdlib_len", 0),
        called("__convert_str", 1),
    ]);
    assert_eq!(
        opt.verify_zero_cost(),
        Err(vec![
            "Zero-cost violation: Wrapper '__wrapper_print' not inlined".to_string(),
            "Zero-cost violation: Wrapper '__convert_str' not inlined".to_string(),
        ])
    );
    let clean = InlineOptimizer::new(vec![called("__wrapper_print", 0), called("helper", 5), called("main", 2)]);
    assert_eq!(clean.verify_zero_cost(), Ok(()));
}

#[test]
fn small_means_fewer_than_ten_instructions() {
    let mut opt = InlineOptimizer::new(vec![facts("nine", vec![9], false), facts("ten", vec![10], false)]);
    assert_eq!(opt.optimize_stdlib_wrappers(), vec![0]);
}

#[test]
fn stats_acceptance() {
    assert!(OptimizationStats { total_functions: 5, inlined_functions: 0, wrapper_functions: 0 }.is_acceptable());
    assert!(OptimizationStats { total_functions: 5, inlined_functions: 3, wrapper_functions: 3 }.is_acceptable());
    assert!(OptimizationStats { total_functions: 5, inlined_functions: 4, wrapper_functions: 3 }.is_acceptable());
    assert!(!OptimizationStats { total_functions: 5, inlined_functions: 2, wrapper_functions: 3 }.is_acceptable());
}

#[test]
fn wrappers_and_small_functions_are_marked() {
    let mut opt = InlineOptimizer::new(vec![
        facts("__stdlib_print", vec![40, 3], false),
        facts("main", vec![30], false),
        facts("helper", vec![5], false),
        facts("__convert_str", vec![12], false),
        facts("two_blocks", vec![1, 1], false),
        facts("big", vec![11], false),
        facts("tagged", vec![50, 50], true),
    ]);
    let before = opt.get_stats();
    assert_eq!(before.total_functions, 7);
    assert_eq!(before.wrapper_functions, 1);
    assert_eq!(before.inlined_functions, 1);
    assert!(before.is_acceptable());
    let bare = InlineOptimizer::new(vec![facts("__wrapper_x", vec![20, 20], false)]);
    assert!(!bare.get_stats().is_acceptable());
    let marked = opt.optimize_stdlib_wrappers();
    assert_eq!(marked, vec![0, 2, 3]);
    let after = opt.get_stats();
    assert_eq!(after.inlined_functions, 4);
    assert_eq!(after.wrapper_functions, 1);
    assert!(after.is_acceptable());
    assert!(opt.verify_zero_cost().is_ok());
}

#[test]
fn allocation_size_limit() {
    assert!(check_alloca_size(16, 16).is_ok());
    assert_eq!(check_alloca_size(1024, 512).err().unwrap(), "Allocation too large: 1024 > 512");
}

#[test]
fn alignments() {
    assert_eq!(get_type_alignment(&LlvmTypeKind::Int { bit_width: 1 }), 1);
    assert_eq!(get_type_alignment(&LlvmTypeKind::Int { bit_width: 16 }), 2);
    assert_eq!(get_type_alignment(&LlvmTypeKind::Int { bit_width: 32 }), 4);
    assert_eq!(get_type_alignment(&LlvmTypeKind::Int { bit_width: 64 }), 8);
    assert_eq!(get_type_alignment(&LlvmTypeKind::Int { bit_width: 128 }), 8);
    assert_eq!(get_type_alignment(&LlvmTypeKind::Float { is_f32: true }), 4);
    assert_eq!(get_type_alignment(&LlvmTypeKind::Float { is_f32: false }), 8);
    assert_eq!(get_type_alignment(&LlvmTypeKind::Vector), 16);
    let cfg = SafetyConfig { null_checks: true, bounds_checks: false, overflow_checks: true, alignment_checks: false };
    assert!(cfg.null_checks && !cfg.bounds_checks);
}
