//! Accelerator device connections and accelerator-resident frame pools.
//!
//! A device connection is opened against the platform's device table and
//! handed out as a reference-counted buffer. A frame pool descriptor is
//! allocated from a device, carries a snapshot of that device's frame
//! constraints, must be populated with its dimensions and formats, and is
//! then initialized — which validates every requested field against the
//! constraints and fails without allocating anything when one lies
//! outside. Construction is all-or-nothing: either a live handle comes
//! back or an error and nothing to release.

use vstd::prelude::*;

use crate::buffer::{AVBufferRef, BufferArena};
use crate::codec::{AVHWDeviceType, AVPixelFormat};
use crate::codec_context::{AVFrame, FrameData};
use crate::dict::AVDictionary;
use crate::errors::{AVERROR_EINVAL, AVERROR_EIO, AVERROR_ENODEV, AVERROR_ENOMEM};

verus! {

/// A device's frame constraints: which hardware and software pixel
/// formats its pools may use, and the dimension bounds a pool must lie in.
/// Queried, never mutated.
pub struct AVHWFramesConstraints {
    pub valid_hw_formats: Vec<AVPixelFormat>,
    pub valid_sw_formats: Vec<AVPixelFormat>,
    pub min_width: i32,
    pub min_height: i32,
    pub max_width: i32,
    pub max_height: i32,
}

/// Whether two constraint values say the same thing.
pub open spec fn same_constraints(a: AVHWFramesConstraints, b: AVHWFramesConstraints) -> bool {
    &&& a.valid_hw_formats@ == b.valid_hw_formats@
    &&& a.valid_sw_formats@ == b.valid_sw_formats@
    &&& a.min_width == b.min_width
    &&& a.min_height == b.min_height
    &&& a.max_width == b.max_width
    &&& a.max_height == b.max_height
}

/// An owned copy of a constraints value.
fn clone_constraints(c: &AVHWFramesConstraints) -> (r: AVHWFramesConstraints)
    ensures
        same_constraints(r, *c),
{
    AVHWFramesConstraints {
        valid_hw_formats: copy_formats(&c.valid_hw_formats),
        valid_sw_formats: copy_formats(&c.valid_sw_formats),
        min_width: c.min_width,
        min_height: c.min_height,
        max_width: c.max_width,
        max_height: c.max_height,
    }
}

/// An owned copy of a format list.
pub(crate) fn copy_formats(v: &Vec<AVPixelFormat>) -> (r: Vec<AVPixelFormat>)
    ensures
        r@ == v@,
{
    let n = v.len();
    let mut out: Vec<AVPixelFormat> = Vec::new();
    let mut i: usize = 0;
    while i < n
        invariant
            n == v@.len(),
            0 <= i <= n,
            out@ == v@.subrange(0, i as int),
        decreases n - i,
    {
        out.push(v[i]);
        assert(out@ =~= v@.subrange(0, i + 1));
        i += 1;
    }
    assert(out@ =~= v@);
    out
}

/// Whether a format list holds `f`.
pub(crate) fn contains_format(v: &Vec<AVPixelFormat>, f: AVPixelFormat) -> (r: bool)
    ensures
        r == v@.contains(f),
{
    let n = v.len();
    let mut i: usize = 0;
    while i < n
        invariant
            n == v@.len(),
            0 <= i <= n,
            forall|j: int| 0 <= j < i ==> v@[j] != f,
        decreases n - i,
    {
        if v[i] == f {
            assert(v@.contains(f)) by {
                assert(v@[i as int] == f);
            }
            return true;
        }
        i += 1;
    }
    assert(!v@.contains(f)) by {
        if v@.contains(f) {
            let j = choose|j: int| 0 <= j < v@.len() && v@[j] == f;
        }
    }
    false
}

/// A connection to one accelerator: its kind and the constraints its
/// frame pools must satisfy.
pub struct AVHWDeviceContext {
    pub device_type: AVHWDeviceType,
    pub constraints: AVHWFramesConstraints,
}

/// One accelerator the platform offers: its kind, whether its driver
/// answers, and its frame constraints.
pub struct HwDeviceInfo {
    pub device_type: AVHWDeviceType,
    pub healthy: bool,
    pub constraints: AVHWFramesConstraints,
}

/// The accelerators present on the machine, as the platform reports them.
pub struct HwPlatform {
    pub devices: Vec<HwDeviceInfo>,
}

/// Index of the first platform device of the given kind at or after `i`,
/// or `s.len()` if there is none.
pub open spec fn find_device(s: Seq<HwDeviceInfo>, typ: AVHWDeviceType, i: int) -> int
    decreases s.len() - i,
{
    if 0 <= i < s.len() {
        if s[i].device_type == typ {
            i
        } else {
            find_device(s, typ, i + 1)
        }
    } else {
        s.len() as int
    }
}

/// Bounds and meaning of `find_device`.
pub proof fn lemma_find_device_props(s: Seq<HwDeviceInfo>, typ: AVHWDeviceType, i: int)
    requires
        0 <= i <= s.len(),
    ensures
        i <= find_device(s, typ, i) <= s.len(),
        find_device(s, typ, i) < s.len() ==> s[find_device(s, typ, i)].device_type == typ,
        forall|j: int| i <= j < find_device(s, typ, i) ==> (#[trigger] s[j]).device_type != typ,
    decreases s.len() - i,
{
    if i < s.len() && s[i].device_type != typ {
        lemma_find_device_props(s, typ, i + 1);
    }
}

/// An accelerator-resident frame pool descriptor: the dimensions and
/// formats the caller requests, the pool bound, how many buffers have been
/// drawn, the device it was allocated from, and a snapshot of that
/// device's constraints taken at allocation.
pub struct AVHWFramesContext {
    pub width: i32,
    pub height: i32,
    pub format: AVPixelFormat,
    pub sw_format: AVPixelFormat,
    /// The fixed pool size; zero means the pool grows on demand.
    pub initial_pool_size: usize,
    pub initialized: bool,
    /// How many buffers are drawn from the pool.
    pub outstanding: usize,
    /// The device arena slot this pool belongs to.
    pub device_slot: usize,
    pub constraints: AVHWFramesConstraints,
}

/// Whether a pool's requested fields lie within its constraint snapshot:
/// dimensions inside the reported bounds and both formats in the valid
/// sets. `hwframe_ctx_init` succeeds on exactly these.
pub open spec fn frames_params_valid(fc: AVHWFramesContext) -> bool {
    &&& fc.constraints.min_width <= fc.width <= fc.constraints.max_width
    &&& fc.constraints.min_height <= fc.height <= fc.constraints.max_height
    &&& fc.constraints.valid_hw_formats@.contains(fc.format)
    &&& fc.constraints.valid_sw_formats@.contains(fc.sw_format)
}

/// Everything of a pool descriptor except `initialized` and `outstanding`
/// is the same.
pub open spec fn same_pool_request(a: AVHWFramesContext, b: AVHWFramesContext) -> bool {
    &&& a.width == b.width
    &&& a.height == b.height
    &&& a.format == b.format
    &&& a.sw_format == b.sw_format
    &&& a.initial_pool_size == b.initial_pool_size
    &&& a.device_slot == b.device_slot
    &&& same_constraints(a.constraints, b.constraints)
}

/// Opens a connection to an accelerator of the given kind. Fails with
/// `AVERROR_EINVAL` when the device selector holds a NUL byte (invalid
/// options), `AVERROR_ENODEV` when the platform has no such accelerator,
/// and `AVERROR_EIO` when its driver does not answer; in every failure the
/// arena is untouched and there is nothing to release. On success the
/// returned reference is live and its connection carries the platform
/// device's constraints.
pub fn hwdevice_ctx_create(
    arena: &mut BufferArena<AVHWDeviceContext>,
    platform: &HwPlatform,
    typ: AVHWDeviceType,
    device: &[u8],
    opts: Option<&AVDictionary>,
    flags: i32,
) -> (r: Result<AVBufferRef<AVHWDeviceContext>, i32>)
    requires
        old(arena).wf(),
    ensures
        final(arena).wf(),
        ({
            let m = find_device(platform.devices@, typ, 0);
            if device@.contains(0u8) {
                r == Err::<AVBufferRef<AVHWDeviceContext>, i32>(AVERROR_EINVAL) && *final(arena)
                    == *old(arena)
            } else if m == platform.devices@.len() {
                r == Err::<AVBufferRef<AVHWDeviceContext>, i32>(AVERROR_ENODEV) && *final(arena)
                    == *old(arena)
            } else if !platform.devices@[m].healthy {
                r == Err::<AVBufferRef<AVHWDeviceContext>, i32>(AVERROR_EIO) && *final(arena)
                    == *old(arena)
            } else {
                &&& r matches Ok(h)
                &&& h.slot == old(arena).n_slots()
                &&& final(arena).live(h)
                &&& final(arena).n_slots() == old(arena).n_slots() + 1
                &&& final(arena).counts() == old(arena).counts().push(1)
                &&& final(arena).freed() == old(arena).freed().push(false)
                &&& final(arena).payloads().len() == old(arena).payloads().len() + 1
                &&& forall|i: int|
                    0 <= i < old(arena).payloads().len() ==> final(arena).payloads()[i] == old(
                        arena,
                    ).payloads()[i]
                &&& final(arena).payloads().last().device_type == typ
                &&& same_constraints(
                    final(arena).payloads().last().constraints,
                    platform.devices@[m].constraints,
                )
            }
        }),
{
    if crate::dict::contains_nul(device) {
        return Err(AVERROR_EINVAL);
    }
    proof {
        lemma_find_device_props(platform.devices@, typ, 0);
    }
    let n = platform.devices.len();
    let mut i: usize = 0;
    while i < n
        invariant
            n == platform.devices@.len(),
            0 <= i <= n,
            *arena == *old(arena),
            old(arena).wf(),
            !device@.contains(0u8),
            forall|j: int| 0 <= j < i ==> (#[trigger] platform.devices@[j]).device_type != typ,
        decreases n - i,
    {
        if platform.devices[i].device_type == typ {
            proof {
                lemma_find_device_pin(platform.devices@, typ, 0, i as int);
            }
            if !platform.devices[i].healthy {
                return Err(AVERROR_EIO);
            }
            let ctx = AVHWDeviceContext {
                device_type: typ,
                constraints: clone_constraints(&platform.devices[i].constraints),
            };
            let h = arena.allocate(ctx);
            return Ok(h);
        }
        i += 1;
    }
    proof {
        lemma_find_device_pin(platform.devices@, typ, 0, n as int);
    }
    Err(AVERROR_ENODEV)
}

/// `find_device` is pinned down by any witness to a first hit.
proof fn lemma_find_device_pin(s: Seq<HwDeviceInfo>, typ: AVHWDeviceType, from: int, i: int)
    requires
        0 <= from <= i <= s.len(),
        forall|j: int| from <= j < i ==> (#[trigger] s[j]).device_type != typ,
        i < s.len() ==> s[i].device_type == typ,
    ensures
        find_device(s, typ, from) == i,
    decreases i - from,
{
    if from < i {
        lemma_find_device_pin(s, typ, from + 1, i);
    }
}

/// The constraints a device reports for its frame pools: a value snapshot
/// of the connection's constraint fields.
pub fn hwdevice_get_hwframe_constraints(
    arena: &BufferArena<AVHWDeviceContext>,
    device_ref: &AVBufferRef<AVHWDeviceContext>,
) -> (r: AVHWFramesConstraints)
    requires
        arena.wf(),
        arena.live(*device_ref),
    ensures
        same_constraints(r, arena.payloads()[device_ref.slot as int].constraints),
{
    let ctx = match device_ref.get_data(arena) {
        Some(c) => c,
        None => {
            proof {
                assert(false);
            }
            unreached()
        },
    };
    clone_constraints(&ctx.constraints)
}

/// Allocates an uninitialized frame pool descriptor tied to a live device
/// connection. The descriptor snapshots the device's constraints; the
/// caller populates width, height and the two formats, then calls
/// `hwframe_ctx_init`. The returned reference is always live: allocation
/// never hands out a handle to nothing.
pub fn hwframe_ctx_alloc(
    frames: &mut BufferArena<AVHWFramesContext>,
    devices: &BufferArena<AVHWDeviceContext>,
    device_ref: &AVBufferRef<AVHWDeviceContext>,
) -> (r: AVBufferRef<AVHWFramesContext>)
    requires
        old(frames).wf(),
        devices.wf(),
        devices.live(*device_ref),
    ensures
        final(frames).wf(),
        r.slot == old(frames).n_slots(),
        final(frames).live(r),
        final(frames).n_slots() == old(frames).n_slots() + 1,
        final(frames).counts() == old(frames).counts().push(1),
        final(frames).freed() == old(frames).freed().push(false),
        final(frames).payloads().len() == old(frames).payloads().len() + 1,
        forall|i: int|
            0 <= i < old(frames).payloads().len() ==> final(frames).payloads()[i] == old(
                frames,
            ).payloads()[i],
        ({
            let fc = final(frames).payloads().last();
            &&& fc.width == 0 && fc.height == 0
            &&& fc.format == -1 && fc.sw_format == -1
            &&& fc.initial_pool_size == 0
            &&& !fc.initialized
            &&& fc.outstanding == 0
            &&& fc.device_slot == device_ref.slot
            &&& same_constraints(
                fc.constraints,
                devices.payloads()[device_ref.slot as int].constraints,
            )
        }),
{
    let dev = match device_ref.get_data(devices) {
        Some(c) => c,
        None => {
            proof {
                assert(false);
            }
            unreached()
        },
    };
    let fc = AVHWFramesContext {
        width: 0,
        height: 0,
        format: -1,
        sw_format: -1,
        initial_pool_size: 0,
        initialized: false,
        outstanding: 0,
        device_slot: device_ref.slot,
        constraints: clone_constraints(&dev.constraints),
    };
    frames.allocate(fc)
}

/// Populates a pool descriptor's requested fields before initialization.
/// Fails with `AVERROR_EINVAL`, changing nothing, when the pool is already
/// initialized.
pub fn hwframe_ctx_set_params(
    frames: &mut BufferArena<AVHWFramesContext>,
    pool_ref: &AVBufferRef<AVHWFramesContext>,
    width: i32,
    height: i32,
    format: AVPixelFormat,
    sw_format: AVPixelFormat,
    initial_pool_size: usize,
) -> (r: Result<i32, i32>)
    requires
        old(frames).wf(),
        old(frames).live(*pool_ref),
    ensures
        final(frames).wf(),
        final(frames).live(*pool_ref),
        final(frames).n_slots() == old(frames).n_slots(),
        final(frames).counts() == old(frames).counts(),
        final(frames).freed() == old(frames).freed(),
        ({
            let fc = old(frames).payloads()[pool_ref.slot as int];
            if fc.initialized {
                r == Err::<i32, i32>(AVERROR_EINVAL) && final(frames).payloads() == old(
                    frames,
                ).payloads()
            } else {
                &&& r == Ok::<i32, i32>(0)
                &&& forall|i: int|
                    0 <= i < old(frames).payloads().len() && i != pool_ref.slot
                        ==> final(frames).payloads()[i] == old(frames).payloads()[i]
                &&& ({
                    let nfc = final(frames).payloads()[pool_ref.slot as int];
                    &&& nfc.width == width && nfc.height == height
                    &&& nfc.format == format && nfc.sw_format == sw_format
                    &&& nfc.initial_pool_size == initial_pool_size
                    &&& !nfc.initialized && nfc.outstanding == 0
                    &&& nfc.device_slot == fc.device_slot
                    &&& same_constraints(nfc.constraints, fc.constraints)
                })
            }
        }),
{
    let (initialized, device_slot, constraints) = {
        let fc = match pool_ref.get_data(frames) {
            Some(c) => c,
            None => {
                proof {
                    assert(false);
                }
                unreached()
            },
        };
        (fc.initialized, fc.device_slot, clone_constraints(&fc.constraints))
    };
    if initialized {
        return Err(AVERROR_EINVAL);
    }
    frames.set_data(
        pool_ref,
        AVHWFramesContext {
            width,
            height,
            format,
            sw_format,
            initial_pool_size,
            initialized: false,
            outstanding: 0,
            device_slot,
            constraints,
        },
    );
    Ok(0)
}

/// Validates the pool's requested fields against its device constraint
/// snapshot and allocates the backing pool. Succeeds exactly when the pool
/// is not yet initialized and every field lies within the constraints —
/// in particular it fails whenever the requested width or height falls
/// outside the bounds the device reported. On failure it returns
/// `AVERROR_EINVAL` and changes nothing: all-or-nothing.
pub fn hwframe_ctx_init(
    frames: &mut BufferArena<AVHWFramesContext>,
    pool_ref: &AVBufferRef<AVHWFramesContext>,
) -> (r: Result<i32, i32>)
    requires
        old(frames).wf(),
        old(frames).live(*pool_ref),
    ensures
        final(frames).wf(),
        final(frames).live(*pool_ref),
        final(frames).n_slots() == old(frames).n_slots(),
        final(frames).counts() == old(frames).counts(),
        final(frames).freed() == old(frames).freed(),
        ({
            let fc = old(frames).payloads()[pool_ref.slot as int];
            if !fc.initialized && frames_params_valid(fc) {
                &&& r == Ok::<i32, i32>(0)
                &&& forall|i: int|
                    0 <= i < old(frames).payloads().len() && i != pool_ref.slot
                        ==> final(frames).payloads()[i] == old(frames).payloads()[i]
                &&& ({
                    let nfc = final(frames).payloads()[pool_ref.slot as int];
                    &&& nfc.initialized
                    &&& nfc.outstanding == 0
                    &&& same_pool_request(nfc, fc)
                })
            } else {
                r == Err::<i32, i32>(AVERROR_EINVAL) && final(frames).payloads() == old(
                    frames,
                ).payloads()
            }
        }),
{
    let (ok, fields) = {
        let fc = match pool_ref.get_data(frames) {
            Some(c) => c,
            None => {
                proof {
                    assert(false);
                }
                unreached()
            },
        };
        let valid = !fc.initialized && fc.constraints.min_width <= fc.width && fc.width
            <= fc.constraints.max_width && fc.constraints.min_height <= fc.height && fc.height
            <= fc.constraints.max_height && contains_format(&fc.constraints.valid_hw_formats, fc.format)
            && contains_format(&fc.constraints.valid_sw_formats, fc.sw_format);
        (
            valid,
            (
                fc.width,
                fc.height,
                fc.format,
                fc.sw_format,
                fc.initial_pool_size,
                fc.device_slot,
                clone_constraints(&fc.constraints),
            ),
        )
    };
    if !ok {
        return Err(AVERROR_EINVAL);
    }
    let (width, height, format, sw_format, initial_pool_size, device_slot, constraints) = fields;
    frames.set_data(
        pool_ref,
        AVHWFramesContext {
            width,
            height,
            format,
            sw_format,
            initial_pool_size,
            initialized: true,
            outstanding: 0,
            device_slot,
            constraints,
        },
    );
    Ok(0)
}

/// Pool validation law: initializing a pool whose requested width or
/// height falls outside the bounds its device reported can never succeed.
pub proof fn lemma_init_rejects_out_of_bounds(fc: AVHWFramesContext)
    requires
        !(fc.constraints.min_width <= fc.width <= fc.constraints.max_width) || !(
        fc.constraints.min_height <= fc.height <= fc.constraints.max_height),
    ensures
        !frames_params_valid(fc),
{
}

/// Whether the pool cannot hand out one more buffer: a fixed-size pool
/// with every buffer drawn, or a drawn-buffer counter at the machine
/// limit.
pub open spec fn pool_exhausted(fc: AVHWFramesContext) -> bool {
    (fc.initial_pool_size > 0 && fc.outstanding >= fc.initial_pool_size) || fc.outstanding
        == usize::MAX
}

/// Draws one frame from an initialized pool: the frame takes the pool's
/// dimensions and hardware format and a fresh shared payload handle marked
/// with the pool's slot. Fails with `AVERROR_EINVAL` on an uninitialized
/// pool and with `AVERROR_ENOMEM` when a fixed-size pool is exhausted;
/// in both failures nothing changes.
pub fn hwframe_get_buffer(
    frames: &mut BufferArena<AVHWFramesContext>,
    payloads: &mut BufferArena<FrameData>,
    pool_ref: &AVBufferRef<AVHWFramesContext>,
    frame: &mut AVFrame,
    flags: i32,
) -> (r: Result<i32, i32>)
    requires
        old(frames).wf(),
        old(frames).live(*pool_ref),
        old(payloads).wf(),
    ensures
        final(frames).wf(),
        final(payloads).wf(),
        final(frames).live(*pool_ref),
        final(frames).n_slots() == old(frames).n_slots(),
        final(frames).counts() == old(frames).counts(),
        final(frames).freed() == old(frames).freed(),
        ({
            let fc = old(frames).payloads()[pool_ref.slot as int];
            if !fc.initialized {
                &&& r == Err::<i32, i32>(AVERROR_EINVAL)
                &&& final(frames).payloads() == old(frames).payloads()
                &&& *final(payloads) == *old(payloads)
                &&& *final(frame) == *old(frame)
            } else if pool_exhausted(fc) {
                &&& r == Err::<i32, i32>(AVERROR_ENOMEM)
                &&& final(frames).payloads() == old(frames).payloads()
                &&& *final(payloads) == *old(payloads)
                &&& *final(frame) == *old(frame)
            } else {
                &&& r == Ok::<i32, i32>(0)
                &&& forall|i: int|
                    0 <= i < old(frames).payloads().len() && i != pool_ref.slot
                        ==> final(frames).payloads()[i] == old(frames).payloads()[i]
                &&& ({
                    let nfc = final(frames).payloads()[pool_ref.slot as int];
                    &&& nfc.initialized
                    &&& nfc.outstanding == fc.outstanding + 1
                    &&& same_pool_request(nfc, fc)
                })
                &&& final(payloads).n_slots() == old(payloads).n_slots() + 1
                &&& final(payloads).counts() == old(payloads).counts().push(1)
                &&& final(payloads).freed() == old(payloads).freed().push(false)
                &&& final(payloads).payloads().last().pool_slot == Some(pool_ref.slot)
                &&& final(frame).width == fc.width
                &&& final(frame).height == fc.height
                &&& final(frame).format == fc.format
                &&& final(frame).pts == old(frame).pts
                &&& final(frame).buf matches Some(b) && b.slot == old(payloads).n_slots()
                    && final(payloads).live(b)
            }
        }),
{
    let (initialized, exhausted, fields) = {
        let fc = match pool_ref.get_data(frames) {
            Some(c) => c,
            None => {
                proof {
                    assert(false);
                }
                unreached()
            },
        };
        (
            fc.initialized,
            (fc.initial_pool_size > 0 && fc.outstanding >= fc.initial_pool_size) || fc.outstanding
                == usize::MAX,
            (
                fc.width,
                fc.height,
                fc.format,
                fc.sw_format,
                fc.initial_pool_size,
                fc.outstanding,
                fc.device_slot,
                clone_constraints(&fc.constraints),
            ),
        )
    };
    if !initialized {
        return Err(AVERROR_EINVAL);
    }
    if exhausted {
        return Err(AVERROR_ENOMEM);
    }
    let (width, height, format, sw_format, initial_pool_size, outstanding, device_slot, constraints) =
        fields;
    frames.set_data(
        pool_ref,
        AVHWFramesContext {
            width,
            height,
            format,
            sw_format,
            initial_pool_size,
            initialized: true,
            outstanding: outstanding + 1,
            device_slot,
            constraints,
        },
    );
    let b = payloads.allocate(FrameData { bytes: Vec::new(), pool_slot: Some(pool_ref.slot) });
    frame.width = width;
    frame.height = height;
    frame.format = format;
    frame.buf = Some(b);
    Ok(0)
}

} // verus!
