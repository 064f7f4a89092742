use crate::flags::SurfaceGridError;
use crate::status::XvStatus;
use vstd::prelude::*;
use vstd::string::StringSliceAdditionalSpecFns;

verus! {

/// Audit summary flag: the mesh has usable faces and none needs removal.
pub const AUDIT_FLAG_ANALYSIS_READY: u32 = 1;

/// Audit summary flag: accepted topology is closed, manifold and consistently wound.
pub const AUDIT_FLAG_WATERTIGHT: u32 = 2;

/// Audit summary flag: the bounds fields are meaningful.
pub const AUDIT_FLAG_HAS_BOUNDS: u32 = 4;

/// Audit summary flag: single-precision rounding may exceed the budget.
pub const AUDIT_FLAG_F32_PRECISION_RISK: u32 = 8;

/// Stable summary flags of a mesh audit.
pub fn audit_summary_flags(
    is_analysis_ready: bool,
    is_watertight: bool,
    has_bounds: bool,
    exceeds_f32_precision_budget: bool,
) -> (flags: u32)
    ensures
        flags == (if is_analysis_ready {
            AUDIT_FLAG_ANALYSIS_READY
        } else {
            0
        }) + (if is_watertight {
            AUDIT_FLAG_WATERTIGHT
        } else {
            0
        }) + (if has_bounds {
            AUDIT_FLAG_HAS_BOUNDS
        } else {
            0
        }) + (if exceeds_f32_precision_budget {
            AUDIT_FLAG_F32_PRECISION_RISK
        } else {
            0
        }),
{
    let mut flags: u32 = 0;
    if is_analysis_ready {
        flags = flags | AUDIT_FLAG_ANALYSIS_READY;
    }
    if is_watertight {
        flags = flags | AUDIT_FLAG_WATERTIGHT;
    }
    if has_bounds {
        flags = flags | AUDIT_FLAG_HAS_BOUNDS;
    }
    if exceeds_f32_precision_budget {
        flags = flags | AUDIT_FLAG_F32_PRECISION_RISK;
    }
    proof {
        assert(0u32 | 1u32 == 1u32) by (bit_vector);
        assert(forall|f: u32| f < 2 ==> f | 2u32 == f + 2) by (bit_vector);
        assert(forall|f: u32| f < 4 ==> f | 4u32 == f + 4) by (bit_vector);
        assert(forall|f: u32| f < 8 ==> f | 8u32 == f + 8) by (bit_vector);
    }
    flags
}

/// Checks the lengths handed to a mesh audit: the flag buffers must hold one
/// entry per face and per vertex (`InvalidLength` otherwise), and the
/// coordinate and index counts, three per vertex and per face, must fit in
/// `usize` (`InvalidLength` otherwise). Returns those two counts.
pub fn mesh_audit_lengths(
    vertex_count: usize,
    face_count: usize,
    face_flags_capacity: usize,
    vertex_flags_capacity: usize,
) -> (lengths: Result<(usize, usize), XvStatus>)
    ensures
        lengths == if face_flags_capacity < face_count || vertex_flags_capacity < vertex_count
            || vertex_count * 3 > usize::MAX || face_count * 3 > usize::MAX {
            Err::<(usize, usize), XvStatus>(XvStatus::InvalidLength)
        } else {
            Ok(((vertex_count * 3) as usize, (face_count * 3) as usize))
        },
{
    if face_flags_capacity < face_count || vertex_flags_capacity < vertex_count {
        return Err(XvStatus::InvalidLength);
    }
    let position_length = match vertex_count.checked_mul(3) {
        Some(length) => length,
        None => {
            return Err(XvStatus::InvalidLength);
        },
    };
    let triangle_length = match face_count.checked_mul(3) {
        Some(length) => length,
        None => {
            return Err(XvStatus::InvalidLength);
        },
    };
    Ok((position_length, triangle_length))
}

/// Decides whether a caller buffer of `length` elements of `element_size`
/// bytes can be viewed as a slice: an empty request needs no memory
/// (`Ok(false)`), a null pointer is `NullPointer`, a byte length beyond
/// `isize::MAX` is `InvalidLength`, and anything else can be viewed
/// (`Ok(true)`).
pub fn check_buffer(pointer_is_null: bool, length: usize, element_size: usize) -> (outcome: Result<
    bool,
    XvStatus,
>)
    requires
        element_size > 0,
    ensures
        outcome == if length == 0 {
            Ok::<bool, XvStatus>(false)
        } else if pointer_is_null {
            Err(XvStatus::NullPointer)
        } else if length > isize::MAX as int / element_size as int {
            Err(XvStatus::InvalidLength)
        } else {
            Ok(true)
        },
{
    if length == 0 {
        return Ok(false);
    }
    let limit = (isize::MAX as usize) / element_size;
    if pointer_is_null || length > limit {
        return Err(
            if pointer_is_null {
                XvStatus::NullPointer
            } else {
                XvStatus::InvalidLength
            },
        );
    }
    Ok(true)
}

/// The status reported for a surface-grid failure: resource ceilings are
/// length errors, everything else an argument error.
pub fn map_grid_error(error: SurfaceGridError) -> (status: XvStatus)
    ensures
        status == match error {
            SurfaceGridError::CellLimitExceeded | SurfaceGridError::SensorIdOverflow
            | SurfaceGridError::SourceFaceIndexOverflow => XvStatus::InvalidLength,
            _ => XvStatus::InvalidArgument,
        },
{
    match error {
        SurfaceGridError::CellLimitExceeded
        | SurfaceGridError::SensorIdOverflow
        | SurfaceGridError::SourceFaceIndexOverflow => XvStatus::InvalidLength,
        _ => XvStatus::InvalidArgument,
    }
}

/// Default number of Morris trajectory levels.
pub fn default_morris_levels() -> (levels: usize)
    ensures
        levels == 6,
{
    6
}

/// Copies as much of `value` as fits before a terminating NUL into
/// `destination`, and zeroes the rest of it.
pub fn write_text(destination: &mut [u8], value: &str)
    ensures
        final(destination)@.len() == old(destination)@.len(),
        old(destination)@.len() > 0 ==> final(destination)@[old(destination)@.len() - 1] == 0,
        ({
            let capacity = if old(destination)@.len() == 0 {
                0
            } else {
                old(destination)@.len() - 1
            };
            let length = if value.spec_bytes().len() < capacity {
                value.spec_bytes().len() as int
            } else {
                capacity as int
            };
            &&& forall|i: int| 0 <= i < length ==> #[trigger] final(destination)@[i] == value.spec_bytes()[i]
            &&& forall|i: int| length <= i < final(destination)@.len() ==> #[trigger] final(destination)@[i] == 0
        }),
{
    let bytes = value.as_bytes();
    let size = destination.len();
    let capacity = if size == 0 {
        0
    } else {
        size - 1
    };
    let length = if bytes.len() < capacity {
        bytes.len()
    } else {
        capacity
    };
    let mut i: usize = 0;
    while i < size
        invariant
            i <= size,
            size == destination@.len(),
            size == old(destination)@.len(),
            length <= capacity,
            capacity <= size,
            length <= bytes@.len(),
            bytes@ == value.spec_bytes(),
            forall|j: int| 0 <= j < i && j < length ==> #[trigger] destination@[j] == bytes@[j],
            forall|j: int| length <= j < i ==> #[trigger] destination@[j] == 0,
        decreases size - i,
    {
        if i < length {
            destination[i] = bytes[i];
        } else {
            destination[i] = 0;
        }
        i = i + 1;
    }
}

/// Whether two byte strings are equal.
fn same_bytes(left: &[u8], right: &[u8]) -> (same: bool)
    ensures
        same == (left@ == right@),
{
    if left.len() != right.len() {
        return false;
    }
    let mut i: usize = 0;
    while i < left.len()
        invariant
            i <= left@.len(),
            left@.len() == right@.len(),
            forall|j: int| 0 <= j < i ==> left@[j] == right@[j],
        decreases left@.len() - i,
    {
        if left[i] != right[i] {
            return false;
        }
        i = i + 1;
    }
    assert(left@ =~= right@);
    true
}

/// The stable code of a graphics backend name; zero for an unknown name.
pub open spec fn backend_code_of(name: Seq<u8>) -> u32 {
    if name == seq![86u8, 117u8, 108u8, 107u8, 97u8, 110u8] {
        1
    } else if name == seq![77u8, 101u8, 116u8, 97u8, 108u8] {
        2
    } else if name == seq![68u8, 120u8, 49u8, 50u8] {
        3
    } else if name == seq![71u8, 108u8] {
        4
    } else if name == seq![66u8, 114u8, 111u8, 119u8, 115u8, 101u8, 114u8, 87u8, 101u8, 98u8, 71u8, 112u8, 117u8] {
        5
    } else {
        0
    }
}

/// The stable code of a device type name; zero for an unknown name.
pub open spec fn device_code_of(name: Seq<u8>) -> u32 {
    if name == seq![73u8, 110u8, 116u8, 101u8, 103u8, 114u8, 97u8, 116u8, 101u8, 100u8, 71u8, 112u8, 117u8] {
        1
    } else if name == seq![68u8, 105u8, 115u8, 99u8, 114u8, 101u8, 116u8, 101u8, 71u8, 112u8, 117u8] {
        2
    } else if name == seq![86u8, 105u8, 114u8, 116u8, 117u8, 97u8, 108u8, 71u8, 112u8, 117u8] {
        3
    } else if name == seq![67u8, 112u8, 117u8] {
        4
    } else {
        0
    }
}

/// Maps a graphics backend name (`Vulkan`, `Metal`, `Dx12`, `Gl`,
/// `BrowserWebGpu`) to its stable code, zero for any other name.
pub fn adapter_backend_code(value: &str) -> (code: u32)
    ensures
        code == backend_code_of(value.spec_bytes()),
{
    let name = value.as_bytes();
    let vulkan: [u8; 6] = [86, 117, 108, 107, 97, 110];
    let metal: [u8; 5] = [77, 101, 116, 97, 108];
    let dx12: [u8; 4] = [68, 120, 49, 50];
    let gl: [u8; 2] = [71, 108];
    let browser: [u8; 13] = [66, 114, 111, 119, 115, 101, 114, 87, 101, 98, 71, 112, 117];
    proof {
        assert(vulkan@ =~= seq![86u8, 117u8, 108u8, 107u8, 97u8, 110u8]);
        assert(metal@ =~= seq![77u8, 101u8, 116u8, 97u8, 108u8]);
        assert(dx12@ =~= seq![68u8, 120u8, 49u8, 50u8]);
        assert(gl@ =~= seq![71u8, 108u8]);
        assert(browser@ =~= seq![66u8, 114u8, 111u8, 119u8, 115u8, 101u8, 114u8, 87u8, 101u8, 98u8, 71u8, 112u8, 117u8]);
    }
    if same_bytes(name, vulkan.as_slice()) {
        1
    } else if same_bytes(name, metal.as_slice()) {
        2
    } else if same_bytes(name, dx12.as_slice()) {
        3
    } else if same_bytes(name, gl.as_slice()) {
        4
    } else if same_bytes(name, browser.as_slice()) {
        5
    } else {
        0
    }
}

/// Maps a device type name (`IntegratedGpu`, `DiscreteGpu`, `VirtualGpu`,
/// `Cpu`) to its stable code, zero for any other name.
pub fn device_type_code(value: &str) -> (code: u32)
    ensures
        code == device_code_of(value.spec_bytes()),
{
    let name = value.as_bytes();
    let integrated: [u8; 13] = [73, 110, 116, 101, 103, 114, 97, 116, 101, 100, 71, 112, 117];
    let discrete: [u8; 11] = [68, 105, 115, 99, 114, 101, 116, 101, 71, 112, 117];
    let virtual_gpu: [u8; 10] = [86, 105, 114, 116, 117, 97, 108, 71, 112, 117];
    let cpu: [u8; 3] = [67, 112, 117];
    proof {
        assert(integrated@ =~= seq![73u8, 110u8, 116u8, 101u8, 103u8, 114u8, 97u8, 116u8, 101u8, 100u8, 71u8, 112u8, 117u8]);
        assert(discrete@ =~= seq![68u8, 105u8, 115u8, 99u8, 114u8, 101u8, 116u8, 101u8, 71u8, 112u8, 117u8]);
        assert(virtual_gpu@ =~= seq![86u8, 105u8, 114u8, 116u8, 117u8, 97u8, 108u8, 71u8, 112u8, 117u8]);
        assert(cpu@ =~= seq![67u8, 112u8, 117u8]);
    }
    if same_bytes(name, integrated.as_slice()) {
        1
    } else if same_bytes(name, discrete.as_slice()) {
        2
    } else if same_bytes(name, virtual_gpu.as_slice()) {
        3
    } else if same_bytes(name, cpu.as_slice()) {
        4
    } else {
        0
    }
}

} // verus!
