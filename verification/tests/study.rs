use xvarna::{
    ask_lengths, coefficient_count, matrix_length, objective_directions, optimizer_sizes,
    rank_lengths, solution_flags, tell_capacity, variable_kind, ObjectiveDirection, VariableKind,
    XvStatus, SOLUTION_FEASIBLE_FLAG,
};

#[test]
fn variable_kinds_follow_their_abi_numbers() {
    assert_eq!(variable_kind(32, 32, 0), Ok(VariableKind::Continuous));
    assert_eq!(variable_kind(32, 32, 1), Ok(VariableKind::Integer));
    assert_eq!(variable_kind(32, 32, 2), Ok(VariableKind::Categorical));
    assert_eq!(variable_kind(32, 32, 3), Err(XvStatus::InvalidArgument));
    assert_eq!(variable_kind(24, 32, 0), Err(XvStatus::InvalidArgument));
}

#[test]
fn objective_directions_are_read_in_order() {
    assert_eq!(
        objective_directions(&vec![1, 0, 1]),
        Ok(vec![
            ObjectiveDirection::Maximize,
            ObjectiveDirection::Minimize,
            ObjectiveDirection::Maximize
        ])
    );
    assert_eq!(objective_directions(&vec![]), Ok(vec![]));
    assert_eq!(objective_directions(&vec![0, 2, 1]), Err(XvStatus::InvalidArgument));
}

#[test]
fn feasible_solutions_carry_the_feasible_bit() {
    assert_eq!(solution_flags(true), SOLUTION_FEASIBLE_FLAG);
    assert_eq!(solution_flags(true), 1);
    assert_eq!(solution_flags(false), 0);
}

#[test]
fn ranking_sizes_every_matrix() {
    assert_eq!(rank_lengths(4, 3, 2, 0, 4, 4), Ok((12, 8, 0)));
    assert_eq!(rank_lengths(4, 3, 2, 1, 3, 4), Err(XvStatus::InvalidLength));
    assert_eq!(rank_lengths(4, 3, 2, 1, 4, 3), Err(XvStatus::InvalidLength));
    assert_eq!(rank_lengths(2, usize::MAX, 1, 1, 2, 2), Err(XvStatus::InvalidLength));
    assert_eq!(rank_lengths(2, 1, 1, usize::MAX, 2, 2), Err(XvStatus::InvalidLength));
}

#[test]
fn matrices_and_coefficients_are_sized() {
    assert_eq!(matrix_length(5, 7), Ok(35));
    assert_eq!(matrix_length(0, usize::MAX), Ok(0));
    assert_eq!(matrix_length(2, usize::MAX), Err(XvStatus::InvalidLength));
    assert_eq!(coefficient_count(3, 2, 6), Ok(6));
    assert_eq!(coefficient_count(3, 2, 5), Err(XvStatus::InvalidLength));
    assert_eq!(coefficient_count(usize::MAX, 2, usize::MAX), Err(XvStatus::InvalidLength));
}

#[test]
fn ask_and_tell_check_caller_buffers() {
    assert_eq!(ask_lengths(8, 3, 8, 24), Ok(24));
    assert_eq!(ask_lengths(8, 3, 7, 24), Err(XvStatus::InvalidLength));
    assert_eq!(ask_lengths(8, 3, 8, 23), Err(XvStatus::InvalidLength));
    assert_eq!(tell_capacity(10, 4, 10, 4), Ok(()));
    assert_eq!(tell_capacity(10, 4, 9, 4), Err(XvStatus::InvalidLength));
    assert_eq!(tell_capacity(10, 4, 10, 3), Err(XvStatus::InvalidLength));
}

#[test]
fn optimizer_configuration_is_validated() {
    assert_eq!(optimizer_sizes(72, 72, 0, 40, 40, 100), Ok((40, 40, 100)));
    assert_eq!(optimizer_sizes(64, 72, 0, 40, 40, 100), Err(XvStatus::InvalidArgument));
    assert_eq!(optimizer_sizes(72, 72, 1, 40, 40, 100), Err(XvStatus::InvalidArgument));
}
