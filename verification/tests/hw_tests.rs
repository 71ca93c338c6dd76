use avcodec::buffer::BufferArena;
use avcodec::codec::{AVCodec, AVCodecHWConfig, CodecRegistry};
use avcodec::codec_context::{av_frame_ref, AVFrame, FrameData};
use avcodec::errors::{AVERROR_EINVAL, AVERROR_EIO, AVERROR_ENODEV, AVERROR_ENOMEM};
use avcodec::hw::{
    hwdevice_ctx_create, hwdevice_get_hwframe_constraints, hwframe_ctx_alloc, hwframe_ctx_init,
    hwframe_ctx_set_params, hwframe_get_buffer, AVHWDeviceContext, AVHWFramesConstraints,
    AVHWFramesContext, HwDeviceInfo, HwPlatform,
};

const AV_HWDEVICE_TYPE_CUDA: i32 = 2;
const AV_PIX_FMT_CUDA: i32 = 119;
const AV_PIX_FMT_BGR0: i32 = 121;
const AV_PIX_FMT_YUV444P: i32 = 5;

fn cuda_constraints() -> AVHWFramesConstraints {
    AVHWFramesConstraints {
        valid_hw_formats: vec![AV_PIX_FMT_CUDA],
        valid_sw_formats: vec![AV_PIX_FMT_BGR0, AV_PIX_FMT_YUV444P],
        min_width: 32,
        min_height: 32,
        max_width: 4096,
        max_height: 4096,
    }
}

fn cuda_platform() -> HwPlatform {
    HwPlatform {
        devices: vec![HwDeviceInfo {
            device_type: AV_HWDEVICE_TYPE_CUDA,
            healthy: true,
            constraints: cuda_constraints(),
        }],
    }
}

#[test]
fn avcodec_hw_init() {
    let registry = CodecRegistry {
        codecs: vec![AVCodec {
            name: b"h264_nvenc".to_vec(),
            long_name: b"h264_nvenc".to_vec(),
            media_type: 0,
            id: 27,
            capabilities: 0,
            wrapper_name: Vec::new(),
            encoder: true,
            decoder: false,
            hw_configs: vec![AVCodecHWConfig {
                pix_fmt: AV_PIX_FMT_CUDA,
                methods: 1,
                device_type: AV_HWDEVICE_TYPE_CUDA,
            }],
        }],
    };
    let codec = AVCodec::find_encoder_by_name(&registry, b"h264_nvenc").unwrap();
    let hw_config = codec.get_hw_config(0).unwrap();
    let platform = cuda_platform();
    let mut devices: BufferArena<AVHWDeviceContext> = BufferArena::new();
    let hw_ctx =
        hwdevice_ctx_create(&mut devices, &platform, hw_config.device_type, b"", None, 0).unwrap();
    let constraints = hwdevice_get_hwframe_constraints(&devices, &hw_ctx);

    println!("SW formats");
    for fmt in &constraints.valid_sw_formats {
        println!("{}", fmt);
    }
    println!("HW formats");
    for fmt in &constraints.valid_hw_formats {
        println!("{}", fmt);
    }

    let mut frames: BufferArena<AVHWFramesContext> = BufferArena::new();
    let hw_frame_ctx = hwframe_ctx_alloc(&mut frames, &devices, &hw_ctx);
    hwframe_ctx_set_params(&mut frames, &hw_frame_ctx, 1440, 2560, AV_PIX_FMT_CUDA, AV_PIX_FMT_BGR0, 0)
        .unwrap();
    hwframe_ctx_init(&mut frames, &hw_frame_ctx).unwrap();
    let mut frame = AVFrame::new();
    let mut payloads: BufferArena<FrameData> = BufferArena::new();
    hwframe_get_buffer(&mut frames, &mut payloads, &hw_frame_ctx, &mut frame, 0).unwrap();
    assert_eq!(frame.width, 1440);
    assert_eq!(frame.height, 2560);
    assert_eq!(frame.format, AV_PIX_FMT_CUDA);
}

#[test]
fn device_create_errors() {
    let mut devices: BufferArena<AVHWDeviceContext> = BufferArena::new();
    let platform = cuda_platform();
    assert_eq!(
        hwdevice_ctx_create(&mut devices, &platform, 99, b"", None, 0).err(),
        Some(AVERROR_ENODEV)
    );
    assert_eq!(
        hwdevice_ctx_create(&mut devices, &platform, AV_HWDEVICE_TYPE_CUDA, b"dev\0", None, 0)
            .err(),
        Some(AVERROR_EINVAL)
    );
    let sick = HwPlatform {
        devices: vec![HwDeviceInfo {
            device_type: AV_HWDEVICE_TYPE_CUDA,
            healthy: false,
            constraints: cuda_constraints(),
        }],
    };
    assert_eq!(
        hwdevice_ctx_create(&mut devices, &sick, AV_HWDEVICE_TYPE_CUDA, b"", None, 0).err(),
        Some(AVERROR_EIO)
    );
}

#[test]
fn frame_context_init_rejects_out_of_bounds_dimensions() {
    let platform = cuda_platform();
    let mut devices: BufferArena<AVHWDeviceContext> = BufferArena::new();
    let dev = hwdevice_ctx_create(&mut devices, &platform, AV_HWDEVICE_TYPE_CUDA, b"", None, 0)
        .unwrap();
    let mut frames: BufferArena<AVHWFramesContext> = BufferArena::new();
    let pool = hwframe_ctx_alloc(&mut frames, &devices, &dev);
    // Width above the device's reported maximum.
    hwframe_ctx_set_params(&mut frames, &pool, 8192, 1080, AV_PIX_FMT_CUDA, AV_PIX_FMT_BGR0, 0)
        .unwrap();
    assert_eq!(hwframe_ctx_init(&mut frames, &pool), Err(AVERROR_EINVAL));
    // Height below the device's reported minimum.
    hwframe_ctx_set_params(&mut frames, &pool, 1920, 8, AV_PIX_FMT_CUDA, AV_PIX_FMT_BGR0, 0)
        .unwrap();
    assert_eq!(hwframe_ctx_init(&mut frames, &pool), Err(AVERROR_EINVAL));
    // A software format the device does not list.
    hwframe_ctx_set_params(&mut frames, &pool, 1920, 1080, AV_PIX_FMT_CUDA, 777, 0).unwrap();
    assert_eq!(hwframe_ctx_init(&mut frames, &pool), Err(AVERROR_EINVAL));
    // Everything within constraints initializes.
    hwframe_ctx_set_params(&mut frames, &pool, 1920, 1080, AV_PIX_FMT_CUDA, AV_PIX_FMT_YUV444P, 0)
        .unwrap();
    assert_eq!(hwframe_ctx_init(&mut frames, &pool), Ok(0));
    // Re-initializing an initialized pool fails.
    assert_eq!(hwframe_ctx_init(&mut frames, &pool), Err(AVERROR_EINVAL));
}

#[test]
fn pool_reference_counting_releases_exactly_once() {
    let platform = cuda_platform();
    let mut devices: BufferArena<AVHWDeviceContext> = BufferArena::new();
    let dev = hwdevice_ctx_create(&mut devices, &platform, AV_HWDEVICE_TYPE_CUDA, b"", None, 0)
        .unwrap();
    let mut frames: BufferArena<AVHWFramesContext> = BufferArena::new();
    let r1 = hwframe_ctx_alloc(&mut frames, &devices, &dev);
    let r2 = frames.buffer_ref(&r1);
    // Dropping one reference leaves the pool usable via the other.
    frames.buffer_unref(r1);
    let still_there = r2.get_data(&frames);
    assert!(still_there.is_some());
    assert_eq!(frames.ref_count(&r2), 1);
    // Dropping the last reference releases the pool; the handle is dead.
    let slot = r2.slot;
    frames.buffer_unref(r2);
    let probe = avcodec::buffer::AVBufferRef::<AVHWFramesContext> {
        slot,
        tag: core::marker::PhantomData,
    };
    assert!(probe.get_data(&frames).is_none());
}

#[test]
fn bounded_pool_exhausts() {
    let platform = cuda_platform();
    let mut devices: BufferArena<AVHWDeviceContext> = BufferArena::new();
    let dev = hwdevice_ctx_create(&mut devices, &platform, AV_HWDEVICE_TYPE_CUDA, b"", None, 0)
        .unwrap();
    let mut frames: BufferArena<AVHWFramesContext> = BufferArena::new();
    let pool = hwframe_ctx_alloc(&mut frames, &devices, &dev);
    hwframe_ctx_set_params(&mut frames, &pool, 1920, 1080, AV_PIX_FMT_CUDA, AV_PIX_FMT_BGR0, 1)
        .unwrap();
    hwframe_ctx_init(&mut frames, &pool).unwrap();
    let mut payloads: BufferArena<FrameData> = BufferArena::new();
    let mut frame = AVFrame::new();
    assert_eq!(hwframe_get_buffer(&mut frames, &mut payloads, &pool, &mut frame, 0), Ok(0));
    let mut second = AVFrame::new();
    assert_eq!(
        hwframe_get_buffer(&mut frames, &mut payloads, &pool, &mut second, 0),
        Err(AVERROR_ENOMEM)
    );
    // An uninitialized pool hands out nothing.
    let other = hwframe_ctx_alloc(&mut frames, &devices, &dev);
    assert_eq!(
        hwframe_get_buffer(&mut frames, &mut payloads, &other, &mut second, 0),
        Err(AVERROR_EINVAL)
    );
}

#[test]
fn frame_reference_shares_payload() {
    let mut payloads: BufferArena<FrameData> = BufferArena::new();
    let buf = payloads.allocate(FrameData { bytes: b"pixels".to_vec(), pool_slot: None });
    let slot = buf.slot;
    let mut frame = AVFrame::new();
    frame.pts = 5;
    frame.buf = Some(buf);
    let shared = av_frame_ref(&mut payloads, &frame);
    assert_eq!(shared.pts, 5);
    let shared_buf = shared.buf.as_ref().unwrap();
    assert_eq!(shared_buf.slot, slot);
    assert_eq!(payloads.ref_count(shared_buf), 2);
    let data = shared_buf.get_data(&payloads).unwrap();
    assert_eq!(data.bytes, b"pixels".to_vec());
}
