use avcodec::avfilter::{
    AVBufferSrcParameters, AVFilter, AVFilterGraph, AVFilterInOut, FilterRegistry,
    FILTER_QUEUE_CAPACITY,
};
use avcodec::buffer::BufferArena;
use avcodec::codec_context::{AVFrame, FrameData, PullResult, PushResult};
use avcodec::errors::AVERROR_EINVAL;
use avcodec::hw::{
    hwdevice_ctx_create, hwframe_ctx_alloc, hwframe_ctx_init, hwframe_ctx_set_params,
    AVHWDeviceContext, AVHWFramesConstraints, AVHWFramesContext, HwDeviceInfo, HwPlatform,
};

const AV_HWDEVICE_TYPE_CUDA: i32 = 2;
const AV_PIX_FMT_CUDA: i32 = 119;
const AV_PIX_FMT_YUV444P: i32 = 5;

fn filter_registry() -> FilterRegistry {
    FilterRegistry {
        filters: vec![
            AVFilter {
                name: b"buffer".to_vec(),
                n_in_pads: 0,
                n_out_pads: 1,
                supported_formats: Vec::new(),
            },
            AVFilter {
                name: b"buffersink".to_vec(),
                n_in_pads: 1,
                n_out_pads: 0,
                supported_formats: Vec::new(),
            },
            AVFilter {
                name: b"scale_cuda".to_vec(),
                n_in_pads: 1,
                n_out_pads: 1,
                supported_formats: vec![AV_PIX_FMT_CUDA],
            },
        ],
    }
}

fn cuda_platform() -> HwPlatform {
    HwPlatform {
        devices: vec![HwDeviceInfo {
            device_type: AV_HWDEVICE_TYPE_CUDA,
            healthy: true,
            constraints: AVHWFramesConstraints {
                valid_hw_formats: vec![AV_PIX_FMT_CUDA],
                valid_sw_formats: vec![AV_PIX_FMT_YUV444P],
                min_width: 32,
                min_height: 32,
                max_width: 4096,
                max_height: 4096,
            },
        }],
    }
}

#[test]
fn test_filters() {
    let registry = filter_registry();
    let mut graph = AVFilterGraph::new();
    let buffer_src = AVFilter::get_by_name(&registry, b"buffer").unwrap();
    let buffer_sink = AVFilter::get_by_name(&registry, b"buffersink").unwrap();
    let args = format!("video_size=3840x2160:pix_fmt={}:time_base=1/60", AV_PIX_FMT_CUDA);
    let buffer_src_ctx = graph.create_filter(&buffer_src, Some(b"in"), Some(args.as_bytes()));
    if buffer_src_ctx.is_err() {
        let err = buffer_src_ctx.err().unwrap();
        println!("error: {}", err);
        panic!();
    }
    let buffer_src_ctx = buffer_src_ctx.unwrap();
    let buffer_sink_ctx = graph.create_filter(&buffer_sink, Some(b"out"), None).unwrap();
    let mut inputs = AVFilterInOut::new();
    let mut outputs = AVFilterInOut::new();

    let platform = cuda_platform();
    let mut devices: BufferArena<AVHWDeviceContext> = BufferArena::new();
    let device =
        hwdevice_ctx_create(&mut devices, &platform, AV_HWDEVICE_TYPE_CUDA, b"", None, 0).unwrap();
    let mut frames: BufferArena<AVHWFramesContext> = BufferArena::new();
    let hw_frames_ctx = hwframe_ctx_alloc(&mut frames, &devices, &device);
    hwframe_ctx_set_params(
        &mut frames,
        &hw_frames_ctx,
        1440,
        2560,
        AV_PIX_FMT_CUDA,
        AV_PIX_FMT_YUV444P,
        0,
    )
    .unwrap();
    hwframe_ctx_init(&mut frames, &hw_frames_ctx).unwrap();

    graph.parse_str(&registry, b"scale_cuda=1280:720", &mut inputs, &mut outputs).unwrap();
    assert_eq!(inputs.pads.len(), 1);
    assert_eq!(outputs.pads.len(), 1);

    // Feed the chain's open input from the source node and drain its open
    // output into the sink node.
    let chain_in = avcodec::avfilter::AVFilterContext { node: inputs.pads[0].filter_ctx };
    let chain_out = avcodec::avfilter::AVFilterContext { node: outputs.pads[0].filter_ctx };
    graph.link(&buffer_src_ctx, 0, &chain_in, inputs.pads[0].pad_idx).unwrap();
    graph.link(&chain_out, outputs.pads[0].pad_idx, &buffer_sink_ctx, 0).unwrap();

    let mut params_t = AVBufferSrcParameters::new();
    params_t.format = AV_PIX_FMT_CUDA;
    params_t.set_hw_frames_context(&hw_frames_ctx);
    graph.buffersrc_set(&buffer_src_ctx, &params_t).unwrap();
    assert_eq!(0, graph.config().err().unwrap_or(0));

    // Negotiation propagated the source's frame pool to the sink.
    let sink_pool = graph.buffersink_get_hw_frames_ctx(&buffer_sink_ctx, &mut frames).unwrap();
    assert_eq!(sink_pool.slot, hw_frames_ctx.slot);
}

#[test]
fn empty_graph_fails_config() {
    let mut graph = AVFilterGraph::new();
    assert_eq!(graph.config(), Err(AVERROR_EINVAL));
}

#[test]
fn unconnected_source_and_sink_fail_config() {
    let registry = filter_registry();
    let mut graph = AVFilterGraph::new();
    let src = AVFilter::get_by_name(&registry, b"buffer").unwrap();
    let sink = AVFilter::get_by_name(&registry, b"buffersink").unwrap();
    let src_ctx = graph.create_filter(&src, Some(b"in"), None).unwrap();
    let _sink_ctx = graph.create_filter(&sink, Some(b"out"), None).unwrap();
    let mut params = AVBufferSrcParameters::new();
    params.format = AV_PIX_FMT_CUDA;
    graph.buffersrc_set(&src_ctx, &params).unwrap();
    assert_eq!(graph.config(), Err(AVERROR_EINVAL));
}

#[test]
fn config_requires_declared_source_format() {
    let registry = filter_registry();
    let mut graph = AVFilterGraph::new();
    let src = AVFilter::get_by_name(&registry, b"buffer").unwrap();
    let sink = AVFilter::get_by_name(&registry, b"buffersink").unwrap();
    let src_ctx = graph.create_filter(&src, None, None).unwrap();
    let sink_ctx = graph.create_filter(&sink, None, None).unwrap();
    graph.link(&src_ctx, 0, &sink_ctx, 0).unwrap();
    // No format declared at the source: negotiation fails.
    assert_eq!(graph.config(), Err(AVERROR_EINVAL));
    let mut params = AVBufferSrcParameters::new();
    params.format = AV_PIX_FMT_CUDA;
    graph.buffersrc_set(&src_ctx, &params).unwrap();
    assert_eq!(graph.config(), Ok(()));
}

#[test]
fn config_rejects_incompatible_formats() {
    let registry = filter_registry();
    let mut graph = AVFilterGraph::new();
    let src = AVFilter::get_by_name(&registry, b"buffer").unwrap();
    let scale = AVFilter::get_by_name(&registry, b"scale_cuda").unwrap();
    let sink = AVFilter::get_by_name(&registry, b"buffersink").unwrap();
    let src_ctx = graph.create_filter(&src, None, None).unwrap();
    let scale_ctx = graph.create_filter(&scale, None, None).unwrap();
    let sink_ctx = graph.create_filter(&sink, None, None).unwrap();
    graph.link(&src_ctx, 0, &scale_ctx, 0).unwrap();
    graph.link(&scale_ctx, 0, &sink_ctx, 0).unwrap();
    let mut params = AVBufferSrcParameters::new();
    // scale_cuda only accepts accelerator frames; a software format fails.
    params.format = AV_PIX_FMT_YUV444P;
    graph.buffersrc_set(&src_ctx, &params).unwrap();
    assert_eq!(graph.config(), Err(AVERROR_EINVAL));
    params.format = AV_PIX_FMT_CUDA;
    graph.buffersrc_set(&src_ctx, &params).unwrap();
    assert_eq!(graph.config(), Ok(()));
}

#[test]
fn frames_flow_in_order_with_backpressure_and_eos() {
    let registry = filter_registry();
    let mut graph = AVFilterGraph::new();
    let src = AVFilter::get_by_name(&registry, b"buffer").unwrap();
    let sink = AVFilter::get_by_name(&registry, b"buffersink").unwrap();
    let src_ctx = graph.create_filter(&src, None, None).unwrap();
    let sink_ctx = graph.create_filter(&sink, None, None).unwrap();
    graph.link(&src_ctx, 0, &sink_ctx, 0).unwrap();
    let mut params = AVBufferSrcParameters::new();
    params.format = AV_PIX_FMT_CUDA;
    graph.buffersrc_set(&src_ctx, &params).unwrap();
    graph.config().unwrap();

    let mut payloads: BufferArena<FrameData> = BufferArena::new();
    let mut out = AVFrame::new();
    // Nothing injected yet.
    assert_eq!(graph.get_frame_flags(&sink_ctx, &mut out, 0), PullResult::WouldBlock);
    // Fill the source queue, then hit backpressure.
    let mut frame = AVFrame::new();
    for i in 0..FILTER_QUEUE_CAPACITY {
        frame.pts = i as i64;
        assert_eq!(
            graph.add_frame_flags(&mut payloads, &src_ctx, Some(&frame), 0),
            PushResult::Accepted
        );
    }
    assert_eq!(
        graph.add_frame_flags(&mut payloads, &src_ctx, Some(&frame), 0),
        PushResult::WouldBlock
    );
    // Frames drain oldest first, carrying the negotiated format.
    assert_eq!(graph.get_frame_flags(&sink_ctx, &mut out, 0), PullResult::Produced);
    assert_eq!(out.pts, 0);
    assert_eq!(out.format, AV_PIX_FMT_CUDA);
    assert_eq!(graph.get_frame_flags(&sink_ctx, &mut out, 0), PullResult::Produced);
    assert_eq!(out.pts, 1);
    // After the end-of-stream mark the drained sink reports EndOfStream,
    // repeatedly.
    assert_eq!(graph.add_frame_flags(&mut payloads, &src_ctx, None, 0), PushResult::Accepted);
    assert_eq!(
        graph.add_frame_flags(&mut payloads, &src_ctx, Some(&frame), 0),
        PushResult::EndOfStream
    );
    let mut drained = 2;
    loop {
        match graph.get_frame_flags(&sink_ctx, &mut out, 0) {
            PullResult::Produced => drained += 1,
            PullResult::EndOfStream => break,
            other => panic!("unexpected result {:?}", other),
        }
    }
    assert_eq!(drained, FILTER_QUEUE_CAPACITY);
    assert_eq!(graph.get_frame_flags(&sink_ctx, &mut out, 0), PullResult::EndOfStream);
}

#[test]
fn graph_takes_its_own_frame_reference() {
    let registry = filter_registry();
    let mut graph = AVFilterGraph::new();
    let src = AVFilter::get_by_name(&registry, b"buffer").unwrap();
    let sink = AVFilter::get_by_name(&registry, b"buffersink").unwrap();
    let src_ctx = graph.create_filter(&src, None, None).unwrap();
    let sink_ctx = graph.create_filter(&sink, None, None).unwrap();
    graph.link(&src_ctx, 0, &sink_ctx, 0).unwrap();
    let mut params = AVBufferSrcParameters::new();
    params.format = AV_PIX_FMT_CUDA;
    graph.buffersrc_set(&src_ctx, &params).unwrap();
    graph.config().unwrap();

    let mut payloads: BufferArena<FrameData> = BufferArena::new();
    let buf = payloads.allocate(FrameData { bytes: b"px".to_vec(), pool_slot: None });
    let slot = buf.slot;
    let mut frame = AVFrame::new();
    frame.pts = 3;
    frame.buf = Some(buf);
    assert_eq!(
        graph.add_frame_flags(&mut payloads, &src_ctx, Some(&frame), 0),
        PushResult::Accepted
    );
    // The caller's handle stays valid: the graph holds its own reference.
    assert_eq!(payloads.ref_count(frame.buf.as_ref().unwrap()), 2);
    let mut out = AVFrame::new();
    assert_eq!(graph.get_frame_flags(&sink_ctx, &mut out, 0), PullResult::Produced);
    assert_eq!(out.buf.as_ref().unwrap().slot, slot);
}

#[test]
fn parse_str_rejects_bad_chains() {
    let registry = filter_registry();
    let mut graph = AVFilterGraph::new();
    let mut inputs = AVFilterInOut::new();
    let mut outputs = AVFilterInOut::new();
    assert_eq!(
        graph.parse_str(&registry, b"nosuchfilter", &mut inputs, &mut outputs),
        Err(AVERROR_EINVAL)
    );
    assert_eq!(graph.parse_str(&registry, b"", &mut inputs, &mut outputs), Err(AVERROR_EINVAL));
    assert_eq!(
        graph.parse_str(&registry, b"scale_cuda\0", &mut inputs, &mut outputs),
        Err(AVERROR_EINVAL)
    );
    // A filter without input pads cannot stand mid-chain.
    assert_eq!(
        graph.parse_str(&registry, b"scale_cuda,buffer", &mut inputs, &mut outputs),
        Err(AVERROR_EINVAL)
    );
}

#[test]
fn parse_str_builds_linked_chain() {
    let registry = filter_registry();
    let mut graph = AVFilterGraph::new();
    let mut inputs = AVFilterInOut::new();
    let mut outputs = AVFilterInOut::new();
    graph
        .parse_str(&registry, b"scale_cuda=1280:720,scale_cuda=640:360", &mut inputs, &mut outputs)
        .unwrap();
    assert_eq!(inputs.pads.len(), 1);
    assert_eq!(outputs.pads.len(), 1);
    assert_eq!(inputs.pads[0].filter_ctx, 0);
    assert_eq!(outputs.pads[0].filter_ctx, 1);
    assert_eq!(inputs.pads[0].name, b"scale_cuda".to_vec());
}

#[test]
fn removed_node_leaves_graph_unusable_until_relinked() {
    let registry = filter_registry();
    let mut graph = AVFilterGraph::new();
    let src = AVFilter::get_by_name(&registry, b"buffer").unwrap();
    let sink = AVFilter::get_by_name(&registry, b"buffersink").unwrap();
    let src_ctx = graph.create_filter(&src, None, None).unwrap();
    let sink_ctx = graph.create_filter(&sink, None, None).unwrap();
    graph.link(&src_ctx, 0, &sink_ctx, 0).unwrap();
    let mut params = AVBufferSrcParameters::new();
    params.format = AV_PIX_FMT_CUDA;
    graph.buffersrc_set(&src_ctx, &params).unwrap();
    let again = avcodec::avfilter::AVFilterContext { node: sink_ctx.node };
    graph.remove_from_graph(sink_ctx);
    // The sink and its link are gone: the source's output pad dangles.
    assert_eq!(graph.config(), Err(AVERROR_EINVAL));
    // Linking to a removed node is refused.
    assert_eq!(graph.link(&src_ctx, 0, &again, 0), Err(AVERROR_EINVAL));
}

#[test]
fn filter_lookup_by_name() {
    let registry = filter_registry();
    let f = AVFilter::get_by_name(&registry, b"scale_cuda").unwrap();
    assert_eq!(f.n_in_pads, 1);
    assert_eq!(f.n_out_pads, 1);
    assert!(AVFilter::get_by_name(&registry, b"overlay").is_err());
}

#[test]
fn create_filter_rejects_nul_and_configured_graph() {
    let registry = filter_registry();
    let mut graph = AVFilterGraph::new();
    let src = AVFilter::get_by_name(&registry, b"buffer").unwrap();
    let sink = AVFilter::get_by_name(&registry, b"buffersink").unwrap();
    assert_eq!(graph.create_filter(&src, Some(b"a\0b"), None).err(), Some(AVERROR_EINVAL));
    let src_ctx = graph.create_filter(&src, None, None).unwrap();
    let sink_ctx = graph.create_filter(&sink, None, None).unwrap();
    graph.link(&src_ctx, 0, &sink_ctx, 0).unwrap();
    let mut params = AVBufferSrcParameters::new();
    params.format = AV_PIX_FMT_CUDA;
    graph.buffersrc_set(&src_ctx, &params).unwrap();
    graph.config().unwrap();
    // A configured graph accepts no more nodes.
    assert_eq!(graph.create_filter(&src, None, None).err(), Some(AVERROR_EINVAL));
}
