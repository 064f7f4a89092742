use crate::status::XvStatus;
use vstd::prelude::*;

verus! {

/// Kind of a study decision variable, by its stable ABI number.
#[derive(Clone, Copy, Debug, PartialEq, Eq, Structural)]
pub enum VariableKind {
    /// Real-valued variable (ABI number 0).
    Continuous,
    /// Integer-valued variable (ABI number 1).
    Integer,
    /// Categorical variable (ABI number 2).
    Categorical,
}

/// Direction in which a study objective improves, by its stable ABI number.
#[derive(Clone, Copy, Debug, PartialEq, Eq, Structural)]
pub enum ObjectiveDirection {
    /// Smaller is better (ABI number 0).
    Minimize,
    /// Larger is better (ABI number 1).
    Maximize,
}

/// Flag bit of a ranked solution that satisfies every constraint.
pub const SOLUTION_FEASIBLE_FLAG: u32 = 1;

/// Reads one variable record: its declared size must be `expected_size` and
/// its kind number 0, 1 or 2; anything else is `InvalidArgument`.
pub fn variable_kind(structure_size: u32, expected_size: u32, kind: u32) -> (decoded: Result<
    VariableKind,
    XvStatus,
>)
    ensures
        decoded == if structure_size != expected_size || kind > 2 {
            Err::<VariableKind, XvStatus>(XvStatus::InvalidArgument)
        } else if kind == 0 {
            Ok(VariableKind::Continuous)
        } else if kind == 1 {
            Ok(VariableKind::Integer)
        } else {
            Ok(VariableKind::Categorical)
        },
{
    if structure_size != expected_size {
        return Err(XvStatus::InvalidArgument);
    }
    match kind {
        0 => Ok(VariableKind::Continuous),
        1 => Ok(VariableKind::Integer),
        2 => Ok(VariableKind::Categorical),
        _ => Err(XvStatus::InvalidArgument),
    }
}

/// The direction with ABI number `code`, when there is one.
pub open spec fn direction_of(code: u32) -> Option<ObjectiveDirection> {
    if code == 0 {
        Some(ObjectiveDirection::Minimize)
    } else if code == 1 {
        Some(ObjectiveDirection::Maximize)
    } else {
        None
    }
}

/// Reads the objective directions, in order. Any number other than 0 or 1
/// makes the whole list `InvalidArgument`.
pub fn objective_directions(codes: &Vec<u32>) -> (decoded: Result<
    Vec<ObjectiveDirection>,
    XvStatus,
>)
    ensures
        match decoded {
            Ok(directions) => {
                &&& directions@.len() == codes@.len()
                &&& forall|i: int|
                    0 <= i < codes@.len() ==> direction_of(codes@[i]) == Some(
                        #[trigger] directions@[i],
                    )
            },
            Err(status) => {
                &&& status == XvStatus::InvalidArgument
                &&& exists|i: int| 0 <= i < codes@.len() && #[trigger] codes@[i] > 1
            },
        },
        decoded is Ok <==> forall|i: int| 0 <= i < codes@.len() ==> #[trigger] codes@[i] <= 1,
{
    let mut directions: Vec<ObjectiveDirection> = Vec::new();
    let mut index: usize = 0;
    while index < codes.len()
        invariant
            index <= codes@.len(),
            directions@.len() == index,
            forall|i: int| 0 <= i < index ==> direction_of(codes@[i]) == Some(#[trigger] directions@[i]),
            forall|i: int| 0 <= i < index ==> #[trigger] codes@[i] <= 1,
        decreases codes@.len() - index,
    {
        let code = codes[index];
        if code == 0 {
            directions.push(ObjectiveDirection::Minimize);
        } else if code == 1 {
            directions.push(ObjectiveDirection::Maximize);
        } else {
            return Err(XvStatus::InvalidArgument);
        }
        index = index + 1;
    }
    Ok(directions)
}

/// Flag word of a ranked solution: the feasible bit when it is feasible.
pub fn solution_flags(feasible: bool) -> (flags: u32)
    ensures
        flags == if feasible {
            SOLUTION_FEASIBLE_FLAG
        } else {
            0
        },
{
    if feasible {
        SOLUTION_FEASIBLE_FLAG
    } else {
        0
    }
}

/// Sizes a study ranking: both output buffers need room for every
/// candidate, and the parameter, objective and constraint matrices hold
/// `candidate_count` rows of their column counts. Returns the three matrix
/// lengths; a short buffer or a product beyond `usize` is `InvalidLength`.
pub fn rank_lengths(
    candidate_count: usize,
    variable_count: usize,
    objective_count: usize,
    constraint_count: usize,
    solution_capacity: usize,
    pareto_capacity: usize,
) -> (lengths: Result<(usize, usize, usize), XvStatus>)
    ensures
        lengths == if solution_capacity < candidate_count || pareto_capacity < candidate_count
            || candidate_count * variable_count > usize::MAX || candidate_count * objective_count
            > usize::MAX || candidate_count * constraint_count > usize::MAX {
            Err::<(usize, usize, usize), XvStatus>(XvStatus::InvalidLength)
        } else {
            Ok(
                (
                    (candidate_count * variable_count) as usize,
                    (candidate_count * objective_count) as usize,
                    (candidate_count * constraint_count) as usize,
                ),
            )
        },
{
    if solution_capacity < candidate_count || pareto_capacity < candidate_count {
        return Err(XvStatus::InvalidLength);
    }
    let parameters = match candidate_count.checked_mul(variable_count) {
        Some(value) => value,
        None => {
            return Err(XvStatus::InvalidLength);
        },
    };
    let objectives = match candidate_count.checked_mul(objective_count) {
        Some(value) => value,
        None => {
            return Err(XvStatus::InvalidLength);
        },
    };
    let constraints = match candidate_count.checked_mul(constraint_count) {
        Some(value) => value,
        None => {
            return Err(XvStatus::InvalidLength);
        },
    };
    Ok((parameters, objectives, constraints))
}

/// Length of a row-major matrix of `rows` rows and `columns` columns;
/// `InvalidLength` when it does not fit in `usize`.
pub fn matrix_length(rows: usize, columns: usize) -> (length: Result<usize, XvStatus>)
    ensures
        length == if rows * columns > usize::MAX {
            Err::<usize, XvStatus>(XvStatus::InvalidLength)
        } else {
            Ok((rows * columns) as usize)
        },
{
    match rows.checked_mul(columns) {
        Some(value) => Ok(value),
        None => Err(XvStatus::InvalidLength),
    }
}

/// Sizes the sensitivity table: one coefficient per variable and objective,
/// which must fit in `usize` and in `coefficient_capacity`.
pub fn coefficient_count(variable_count: usize, objective_count: usize, coefficient_capacity: usize) -> (count:
    Result<usize, XvStatus>)
    ensures
        count == if variable_count * objective_count > usize::MAX || coefficient_capacity
            < variable_count * objective_count {
            Err::<usize, XvStatus>(XvStatus::InvalidLength)
        } else {
            Ok((variable_count * objective_count) as usize)
        },
{
    let count = match matrix_length(variable_count, objective_count) {
        Ok(value) => value,
        Err(status) => {
            return Err(status);
        },
    };
    if coefficient_capacity < count {
        return Err(XvStatus::InvalidLength);
    }
    Ok(count)
}

/// Sizes an ask batch of `candidate_count` candidates of `variable_count`
/// parameters each against the caller's buffers. Returns the parameter
/// matrix length; an overflow or a short buffer is `InvalidLength`.
pub fn ask_lengths(
    candidate_count: usize,
    variable_count: usize,
    candidate_capacity: usize,
    parameter_capacity: usize,
) -> (length: Result<usize, XvStatus>)
    ensures
        length == if candidate_count * variable_count > usize::MAX || candidate_capacity
            < candidate_count || parameter_capacity < candidate_count * variable_count {
            Err::<usize, XvStatus>(XvStatus::InvalidLength)
        } else {
            Ok((candidate_count * variable_count) as usize)
        },
{
    let parameters = match matrix_length(candidate_count, variable_count) {
        Ok(value) => value,
        Err(status) => {
            return Err(status);
        },
    };
    if candidate_capacity < candidate_count || parameter_capacity < parameters {
        return Err(XvStatus::InvalidLength);
    }
    Ok(parameters)
}

/// Checks that a told generation's population and archive fit the caller's
/// buffers (`InvalidLength` otherwise).
pub fn tell_capacity(
    population_count: usize,
    archive_count: usize,
    population_capacity: usize,
    archive_capacity: usize,
) -> (fits: Result<(), XvStatus>)
    ensures
        fits == if population_capacity < population_count || archive_capacity < archive_count {
            Err::<(), XvStatus>(XvStatus::InvalidLength)
        } else {
            Ok(())
        },
{
    if population_capacity < population_count || archive_capacity < archive_count {
        return Err(XvStatus::InvalidLength);
    }
    Ok(())
}

/// Reads the sizes of an optimizer configuration: its declared size must be
/// `expected_size` and its reserved word zero (`InvalidArgument` otherwise),
/// and the population, offspring and archive sizes must fit in `usize`
/// (`InvalidLength` otherwise).
pub fn optimizer_sizes(
    structure_size: u32,
    expected_size: u32,
    reserved: u32,
    population_size: u64,
    offspring_size: u64,
    archive_capacity: u64,
) -> (sizes: Result<(usize, usize, usize), XvStatus>)
    ensures
        sizes == if structure_size != expected_size || reserved != 0 {
            Err::<(usize, usize, usize), XvStatus>(XvStatus::InvalidArgument)
        } else if population_size > usize::MAX || offspring_size > usize::MAX || archive_capacity
            > usize::MAX {
            Err(XvStatus::InvalidLength)
        } else {
            Ok((population_size as usize, offspring_size as usize, archive_capacity as usize))
        },
{
    if structure_size != expected_size || reserved != 0 {
        return Err(XvStatus::InvalidArgument);
    }
    let population = match u64_to_usize(population_size) {
        Ok(value) => value,
        Err(status) => {
            return Err(status);
        },
    };
    let offspring = match u64_to_usize(offspring_size) {
        Ok(value) => value,
        Err(status) => {
            return Err(status);
        },
    };
    let archive = match u64_to_usize(archive_capacity) {
        Ok(value) => value,
        Err(status) => {
            return Err(status);
        },
    };
    Ok((population, offspring, archive))
}

fn u64_to_usize(value: u64) -> (converted: Result<usize, XvStatus>)
    ensures
        converted == if value > usize::MAX {
            Err::<usize, XvStatus>(XvStatus::InvalidLength)
        } else {
            Ok(value as usize)
        },
{
    if value <= usize::MAX as u64 {
        Ok(value as usize)
    } else {
        Err(XvStatus::InvalidLength)
    }
}

} // verus!
