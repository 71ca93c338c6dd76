use avcodec::codec::{AVCodec, AVCodecHWConfig, AVPacket, CodecRegistry, AV_NOPTS_VALUE};
use avcodec::codec_context::{
    AVCodecContext, AVCodecParameters, AVFrame, PullResult, PushResult, CODEC_QUEUE_CAPACITY,
};
use avcodec::errors::AVERROR_EINVAL;

const AVCODEC_ID_AV_CODEC_ID_H264: u32 = 27;
const AVCODEC_ID_AV_CODEC_ID_HEVC: u32 = 173;
const AV_HWDEVICE_TYPE_CUDA: i32 = 2;
const AV_PIX_FMT_CUDA: i32 = 119;

fn codec(name: &[u8], id: u32, encoder: bool, decoder: bool) -> AVCodec {
    AVCodec {
        name: name.to_vec(),
        long_name: name.to_vec(),
        media_type: 0,
        id,
        capabilities: 0,
        wrapper_name: Vec::new(),
        encoder,
        decoder,
        hw_configs: vec![AVCodecHWConfig {
            pix_fmt: AV_PIX_FMT_CUDA,
            methods: 1,
            device_type: AV_HWDEVICE_TYPE_CUDA,
        }],
    }
}

fn sample_registry() -> CodecRegistry {
    CodecRegistry {
        codecs: vec![
            codec(b"h264", AVCODEC_ID_AV_CODEC_ID_H264, false, true),
            codec(b"h264_nvenc", AVCODEC_ID_AV_CODEC_ID_H264, true, false),
            codec(b"hevc_nvenc", AVCODEC_ID_AV_CODEC_ID_HEVC, true, false),
        ],
    }
}

#[test]
fn avcodec_iter() {
    let registry = sample_registry();
    let mut it = AVCodec::iterator();
    while let Some(codec) = it.next(&registry) {
        println!(
            "name: {} long_name: {}, wrapper_name: {}",
            String::from_utf8_lossy(&codec.name),
            String::from_utf8_lossy(&codec.long_name),
            String::from_utf8_lossy(&codec.wrapper_name)
        );
    }
}

#[test]
fn avcodec_find_codec_by_id() {
    let registry = sample_registry();
    let codec = AVCodec::find_encoder(&registry, AVCODEC_ID_AV_CODEC_ID_HEVC).unwrap();
    println!(
        "name: {} long_name: {}, wrapper_name: {}",
        String::from_utf8_lossy(&codec.name),
        String::from_utf8_lossy(&codec.long_name),
        String::from_utf8_lossy(&codec.wrapper_name)
    );
}

#[test]
fn avcodec_find_codec_by_name() {
    let registry = sample_registry();
    let codec = AVCodec::find_encoder_by_name(&registry, b"h264_nvenc").unwrap();
    println!(
        "name: {} long_name: {}, wrapper_name: {}",
        String::from_utf8_lossy(&codec.name),
        String::from_utf8_lossy(&codec.long_name),
        String::from_utf8_lossy(&codec.wrapper_name)
    );
}

#[test]
fn avcodec_get_device_type() {
    let registry = sample_registry();
    let codec = AVCodec::find_encoder_by_name(&registry, b"h264_nvenc").unwrap();
    let mut i = 0;
    loop {
        let hwconfig = match codec.get_hw_config(i) {
            None => break,
            Some(c) => c,
        };
        i += 1;
        println!("pixel fmt: {}", hwconfig.pix_fmt);
        println!("device Type: {}", hwconfig.device_type);
    }
    assert_eq!(i, 1);
}

#[test]
fn find_decoder_and_encoder_agree_on_id() {
    let registry = sample_registry();
    for id in [AVCODEC_ID_AV_CODEC_ID_H264, AVCODEC_ID_AV_CODEC_ID_HEVC, 9999] {
        if let Some(d) = AVCodec::find_decoder(&registry, id) {
            assert_eq!(d.id, id);
            assert!(d.decoder);
        }
        if let Some(e) = AVCodec::find_encoder(&registry, id) {
            assert_eq!(e.id, id);
            assert!(e.encoder);
        }
    }
    assert!(AVCodec::find_decoder(&registry, 9999).is_none());
    assert!(AVCodec::find_encoder(&registry, 9999).is_none());
}

#[test]
fn iterate_yields_each_slot_once_and_terminates() {
    let registry = sample_registry();
    let mut it = AVCodec::iterator();
    let mut names: Vec<Vec<u8>> = Vec::new();
    while let Some(codec) = it.next(&registry) {
        names.push(codec.name.clone());
    }
    assert_eq!(names.len(), registry.codecs.len());
    for (k, c) in registry.codecs.iter().enumerate() {
        assert_eq!(names[k], c.name);
    }
    assert!(it.next(&registry).is_none());
    assert!(it.next(&registry).is_none());
}

#[test]
fn packet_unref_clears_content() {
    let mut p = AVPacket::new();
    assert_eq!(p.get_data(), b"");
    p.data.extend_from_slice(b"payload");
    p.pts = 42;
    p.unref();
    assert_eq!(p.get_data().len(), 0);
    assert_eq!(p.pts, AV_NOPTS_VALUE);
    assert_eq!(p.dts, AV_NOPTS_VALUE);
}

fn opened_encoder(registry: &CodecRegistry) -> AVCodecContext {
    let codec = AVCodec::find_encoder_by_name(registry, b"h264_nvenc").unwrap();
    let mut ctx = AVCodecContext::new(codec);
    let mut params = AVCodecParameters::new();
    params.codec_id = codec.id;
    params.width = 1920;
    params.height = 1080;
    ctx.set_parameters(&params).unwrap();
    ctx.open2(codec, None).unwrap();
    ctx
}

#[test]
fn encoder_end_to_end_produces_packet_and_stays_ended() {
    let registry = sample_registry();
    let mut ctx = opened_encoder(&registry);
    let mut frame = AVFrame::new();
    frame.pts = 7;
    assert_eq!(ctx.send_frame(Some(&frame)), PushResult::Accepted);
    let mut pkt = AVPacket::new();
    let mut produced = 0;
    loop {
        match ctx.receive_pkt(&mut pkt) {
            PullResult::Produced => {
                produced += 1;
                assert_eq!(pkt.pts, 7);
            },
            PullResult::WouldBlock => break,
            PullResult::EndOfStream => break,
            PullResult::Error(e) => panic!("unexpected error {}", e),
        }
    }
    assert!(produced >= 1);
    assert_eq!(ctx.send_frame(None), PushResult::Accepted);
    assert_eq!(ctx.receive_pkt(&mut pkt), PullResult::EndOfStream);
    assert_eq!(ctx.receive_pkt(&mut pkt), PullResult::EndOfStream);
    assert_eq!(ctx.send_frame(Some(&frame)), PushResult::EndOfStream);
}

#[test]
fn encoder_backpressure_would_block_when_saturated() {
    let registry = sample_registry();
    let mut ctx = opened_encoder(&registry);
    let mut frame = AVFrame::new();
    for i in 0..CODEC_QUEUE_CAPACITY {
        frame.pts = i as i64;
        assert_eq!(ctx.send_frame(Some(&frame)), PushResult::Accepted);
    }
    assert_eq!(ctx.send_frame(Some(&frame)), PushResult::WouldBlock);
    let mut pkt = AVPacket::new();
    assert_eq!(ctx.receive_pkt(&mut pkt), PullResult::Produced);
    assert_eq!(pkt.pts, 0);
    assert_eq!(ctx.send_frame(Some(&frame)), PushResult::Accepted);
}

#[test]
fn codec_context_rejects_wrong_state_and_direction() {
    let registry = sample_registry();
    let encoder = AVCodec::find_encoder_by_name(&registry, b"h264_nvenc").unwrap();
    let mut ctx = AVCodecContext::new(encoder);
    let frame = AVFrame::new();
    let mut pkt = AVPacket::new();
    assert_eq!(ctx.send_frame(Some(&frame)), PushResult::Error(AVERROR_EINVAL));
    assert_eq!(ctx.receive_pkt(&mut pkt), PullResult::Error(AVERROR_EINVAL));
    assert_eq!(ctx.open2(encoder, None), Err(AVERROR_EINVAL));
    let mut params = AVCodecParameters::new();
    params.codec_id = encoder.id;
    params.width = 640;
    params.height = 480;
    ctx.set_parameters(&params).unwrap();
    ctx.open2(encoder, None).unwrap();
    // An encoder session refuses decoder operations.
    assert_eq!(ctx.send_packet(Some(&pkt)), PushResult::Error(AVERROR_EINVAL));
    let mut out = AVFrame::new();
    assert_eq!(ctx.receive_frame(&mut out), PullResult::Error(AVERROR_EINVAL));
    // Re-parameterizing an opened session fails.
    assert_eq!(ctx.set_parameters(&params), Err(AVERROR_EINVAL));
}

#[test]
fn open2_validates_parameters() {
    let registry = sample_registry();
    let encoder = AVCodec::find_encoder_by_name(&registry, b"h264_nvenc").unwrap();
    let mut ctx = AVCodecContext::new(encoder);
    let mut params = AVCodecParameters::new();
    params.codec_id = encoder.id;
    ctx.set_parameters(&params).unwrap();
    // Dimensions are still zero: opening must fail, all-or-nothing.
    assert_eq!(ctx.open2(encoder, None), Err(AVERROR_EINVAL));
    params.width = 1280;
    params.height = 720;
    ctx.set_parameters(&params).unwrap();
    assert_eq!(ctx.open2(encoder, None), Ok(0));
    let copied = AVCodecParameters::from(&ctx).unwrap();
    assert_eq!(copied.width, 1280);
    assert_eq!(copied.height, 720);
}

#[test]
fn decoder_relays_packets_to_frames() {
    let registry = sample_registry();
    let decoder = AVCodec::find_decoder(&registry, AVCODEC_ID_AV_CODEC_ID_H264).unwrap();
    let mut ctx = AVCodecContext::new(decoder);
    let mut params = AVCodecParameters::new();
    params.codec_id = decoder.id;
    params.width = 320;
    params.height = 240;
    ctx.set_parameters(&params).unwrap();
    ctx.open2(decoder, None).unwrap();
    let mut pkt = AVPacket::new();
    pkt.pts = 11;
    assert_eq!(ctx.send_packet(Some(&pkt)), PushResult::Accepted);
    let mut frame = AVFrame::new();
    assert_eq!(ctx.receive_frame(&mut frame), PullResult::Produced);
    assert_eq!(frame.pts, 11);
    assert_eq!(frame.width, 320);
    assert_eq!(frame.height, 240);
    assert_eq!(ctx.receive_frame(&mut frame), PullResult::WouldBlock);
}
