use rspdl::solver::Z3Solver;

#[test]
fn enum_symbols_are_collision_free() {
    let one = Z3Solver::enum_symbol("a_b", "c");
    let two = Z3Solver::enum_symbol("a", "b_c");
    assert_ne!(one, two);
    assert_eq!(one, "rspdl_e_3_a_b_1_c");
    assert_eq!(two, "rspdl_e_1_a_3_b_c");
}

#[test]
fn symbols_carry_the_byte_length_of_the_id() {
    assert_eq!(Z3Solver::symbol("rspdl_v", "x"), "rspdl_v_1_x");
    assert_eq!(Z3Solver::symbol("rspdl_t", "상태"), "rspdl_t_6_상태");
    assert_ne!(Z3Solver::symbol("rspdl_v", "a_1_b"), Z3Solver::symbol("rspdl_v_1_a", "b"));
}

#[test]
fn rendered_integers_become_canonical_decimal_text() {
    assert_eq!(Z3Solver::canonical_integer_text("12345678901234567890").as_deref(), Some("12345678901234567890"));
    assert_eq!(Z3Solver::canonical_integer_text("(- 42)").as_deref(), Some("-42"));
    assert_eq!(Z3Solver::canonical_integer_text("0").as_deref(), Some("0"));
    assert_eq!(Z3Solver::canonical_integer_text("(- )"), None);
    assert_eq!(Z3Solver::canonical_integer_text("(- 4x)"), None);
    assert_eq!(Z3Solver::canonical_integer_text("-42"), None);
    assert_eq!(Z3Solver::canonical_integer_text("\"a\""), None);
}
