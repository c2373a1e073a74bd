use vex_codegen::loops::loop_jump_target;

#[test]
fn break_and_continue_jump_to_the_innermost_loop() {
    let loops: Vec<(u32, u32)> = vec![(1, 2), (3, 4)];
    assert_eq!(loop_jump_target(&loops, true), Ok(4));
    assert_eq!(loop_jump_target(&loops, false), Ok(3));
    let none: Vec<(u32, u32)> = vec![];
    assert_eq!(loop_jump_target(&none, true), Err("Break statement outside of loop".to_string()));
    assert_eq!(loop_jump_target(&none, false), Err("Continue statement outside of loop".to_string()));
}
