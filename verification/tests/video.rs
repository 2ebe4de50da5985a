//! Access units, bitrate control and planar conversion.
use ginger_rs::video::access_unit::AccessUnitSplitter;
use ginger_rs::video::h264::{
    encoded, fourcc, payload_len, write_i420, EncoderControl, EncoderState,
};
use ginger_rs::video::webrtc::{EncoderOrder, Feedback, RateControl};

fn stream() -> Vec<u8> {
    let mut s = vec![9, 9];
    for k in 0..3u8 {
        s.extend_from_slice(&[0, 0, 0, 1, 0x09, 0x10, 0, 0, 1, 0x65, k]);
    }
    s
}

#[test]
fn access_units_start_at_delimiters() {
    let mut sp = AccessUnitSplitter::new();
    let units = sp.feed(&stream());
    assert_eq!(units.len(), 2);
    // Bytes before the first delimiter belong to the first unit.
    assert_eq!(&units[0][..7], &[9, 9, 0, 0, 0, 1, 0x09]);
    assert_eq!(&units[1][..5], &[0, 0, 0, 1, 0x09]);
    assert_eq!(units[1].len(), 11);
}

#[test]
fn chunking_does_not_change_the_units() {
    let whole = AccessUnitSplitter::new().feed(&stream());
    for n in 1..8 {
        let mut sp = AccessUnitSplitter::new();
        let mut got: Vec<Vec<u8>> = Vec::new();
        for chunk in stream().chunks(n) {
            got.extend(sp.feed(chunk));
        }
        assert_eq!(got, whole, "chunks of {n}");
    }
}

#[test]
fn loss_cuts_and_clean_reports_recover() {
    let mut rc = RateControl::new();
    assert_eq!(
        rc.on_feedback(&Feedback::Report { fraction_lost: vec![0, 13, 2] }),
        EncoderOrder::Bitrate(2_125_000)
    );
    assert_eq!(
        rc.on_feedback(&Feedback::Report { fraction_lost: vec![12] }),
        EncoderOrder::Bitrate(2_275_000)
    );
    assert_eq!(rc.on_feedback(&Feedback::KeyframeRequest), EncoderOrder::Keyframe);
    assert_eq!(rc.on_feedback(&Feedback::Other), EncoderOrder::Nothing);
    for _ in 0..100 {
        rc.on_feedback(&Feedback::Report { fraction_lost: vec![] });
    }
    assert_eq!(
        rc.on_feedback(&Feedback::Report { fraction_lost: vec![] }),
        EncoderOrder::Nothing
    );
    assert_eq!(rc.target, 4_000_000_000_000);
    for _ in 0..100 {
        rc.on_feedback(&Feedback::Report { fraction_lost: vec![255] });
    }
    assert_eq!(rc.target, 300_000_000_000);
}

#[test]
fn planar_conversion_splits_luma_and_chroma() {
    // 4x2 pixels, rows of 4 luma bytes, chroma rows of 2.
    let yuyv = vec![1, 101, 2, 201, 3, 102, 4, 202, 5, 103, 6, 203, 7, 104, 8, 204];
    let mut dst = vec![0u8; 12];
    write_i420(&mut dst, 4, 2, 4, &yuyv);
    assert_eq!(&dst[..8], &[1, 2, 3, 4, 5, 6, 7, 8]);
    assert_eq!(&dst[8..12], &[101, 102, 201, 202]);
}

#[test]
fn encoder_buffers_go_round() {
    let mut st = EncoderState::new(4, 2, 1_000);
    assert_eq!(st.pending_bitrate(1_000), None);
    assert_eq!(st.pending_bitrate(0), None);
    assert_eq!(st.pending_bitrate(2_000), Some(2_000));
    st.bitrate_applied(2_000);
    assert_eq!(st.pending_bitrate(2_000), None);
    assert_eq!(st.begin_frame(16), Some(0));
    assert_eq!(st.begin_frame(15), None);
    assert_eq!(payload_len(10, 4), 4);
    assert_eq!(payload_len(3, 4), 3);
    assert_eq!(fourcc(b'H', b'2', b'6', b'4'), 0x3436_3248);
}

#[test]
fn encoder_requests_wait_for_the_next_frame() {
    let mut c = EncoderControl::new(2_500_000);
    assert!(!c.take_keyframe());
    c.request_keyframe();
    c.request_keyframe();
    c.set_bitrate(300_000);
    assert!(c.take_keyframe());
    assert!(!c.take_keyframe());
    assert_eq!(c.desired_bitrate, 300_000);
    let unit = encoded(&[9, 8, 7, 6], 3, 0x4008);
    assert_eq!((unit.data, unit.keyframe), (vec![9, 8, 7], true));
    let unit = encoded(&[9, 8], 3, 0x4000);
    assert_eq!((unit.data, unit.keyframe), (vec![9, 8], false));
}
