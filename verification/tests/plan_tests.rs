use bitmatch::compile::{compile_stripped, strip_spaces};
use bitmatch::matcher::apply_plan;
use bitmatch::plan::{Field, PatternError};

#[test]
fn strip_spaces_removes_spaces_only() {
    assert_eq!(strip_spaces("10 1"), vec!['1', '0', '1']);
    assert_eq!(strip_spaces("  "), Vec::<char>::new());
    assert_eq!(strip_spaces("a b"), vec!['a', 'b']);
}

#[test]
fn plan_masks_for_fixed_pattern() {
    let plan = compile_stripped(&strip_spaces("1010 1100")).unwrap();
    assert_eq!(plan.width, 8);
    assert_eq!(plan.mask, 0xff);
    assert_eq!(plan.expect, 0xac);
    assert_eq!(plan.fields, vec![]);
}

#[test]
fn plan_masks_skip_dont_care_and_extractors() {
    let plan = compile_stripped(&strip_spaces("1_a0 1_00")).unwrap();
    assert_eq!(plan.mask, 0b1001_1011);
    assert_eq!(plan.expect, 0b1000_1000);
}

#[test]
fn field_order_is_left_to_right() {
    // First field covers bits 6-5, second field bits 3-2.
    let plan = compile_stripped(&strip_spaces("1aa0 aa00")).unwrap();
    assert_eq!(
        plan.fields,
        vec![
            Field { offset: 5, width: 2, mask: 0b11 },
            Field { offset: 2, width: 2, mask: 0b11 },
        ]
    );
}

#[test]
fn adjacent_runs_of_different_letters_stay_separate() {
    let plan = compile_stripped(&strip_spaces("1aab bccc")).unwrap();
    assert_eq!(
        plan.fields,
        vec![
            Field { offset: 5, width: 2, mask: 0b11 },
            Field { offset: 3, width: 2, mask: 0b11 },
            Field { offset: 0, width: 3, mask: 0b111 },
        ]
    );
}

#[test]
fn width_selection_boundaries() {
    assert_eq!(compile_stripped(&vec!['0'; 1]).unwrap().width, 8);
    assert_eq!(compile_stripped(&vec!['0'; 8]).unwrap().width, 8);
    assert_eq!(compile_stripped(&vec!['0'; 9]).unwrap().width, 16);
    assert_eq!(compile_stripped(&vec!['0'; 16]).unwrap().width, 16);
    assert_eq!(compile_stripped(&vec!['0'; 17]).unwrap().width, 32);
    assert_eq!(compile_stripped(&vec!['0'; 32]).unwrap().width, 32);
    assert_eq!(compile_stripped(&vec!['0'; 33]).unwrap().width, 64);
    assert_eq!(compile_stripped(&vec!['0'; 64]).unwrap().width, 64);
    assert_eq!(compile_stripped(&vec!['0'; 65]).unwrap().width, 128);
    assert_eq!(compile_stripped(&vec!['0'; 128]).unwrap().width, 128);
}

#[test]
fn out_of_range_lengths_rejected() {
    assert_eq!(compile_stripped(&vec![]), Err(PatternError::Empty));
    assert_eq!(compile_stripped(&vec!['0'; 129]), Err(PatternError::TooLong));
}

#[test]
fn compiling_twice_gives_identical_plans() {
    let chars = strip_spaces("1aab bccc");
    let a = compile_stripped(&chars).unwrap();
    let b = compile_stripped(&chars).unwrap();
    assert_eq!(a, b);
}

#[test]
fn same_plan_with_and_without_spaces() {
    let a = compile_stripped(&strip_spaces("1010 1100")).unwrap();
    let b = compile_stripped(&strip_spaces("10101100")).unwrap();
    assert_eq!(a, b);
}

#[test]
fn apply_extracts_in_plan_order() {
    let plan = compile_stripped(&strip_spaces("1a10 1100")).unwrap();
    assert_eq!(apply_plan(&plan, 0xac), Some(vec![0]));
    assert_eq!(apply_plan(&plan, 0xec), Some(vec![1]));
    assert_eq!(apply_plan(&plan, 0xad), None);
}

#[test]
fn apply_truncates_before_testing() {
    let plan = compile_stripped(&strip_spaces("1010 1100")).unwrap();
    assert_eq!(apply_plan(&plan, 0xffacu128), Some(vec![]));
    assert_eq!(apply_plan(&plan, 0xff00u128), None);
}
