use media_core::segment_files::{parse_opened_segment, segment_file_name, SegmentTracker};

fn s(x: &str) -> String {
    x.to_string()
}

#[test]
fn opened_segments_are_read_from_encoder_output() {
    assert_eq!(
        parse_opened_segment("[hls @ 0x1] Opening '/t/movie_1/.seg_004.ts' for writing", false),
        Some((s("hls"), 4))
    );
    assert_eq!(
        parse_opened_segment("[dash @ 0x1] Opening '/t/m/.chunk-stream0-00012.webm' for writing", true),
        Some((s("0"), 12))
    );
    assert_eq!(parse_opened_segment("[hls @ 0x1] Opening '/t/m/playlist.m3u8.tmp' for writing", false), None);
    assert_eq!(parse_opened_segment("frame= 100 fps=25 .seg_004.ts", false), None);
    assert_eq!(parse_opened_segment("Opening '/t/m/.seg_x.ts' for writing", false), None);
    assert_eq!(parse_opened_segment("Opening '/t/m/.seg_004.ts' for writing", true), None);
}

#[test]
fn segment_names_are_zero_padded() {
    assert_eq!(segment_file_name(false, "hls", 7), "seg_007.ts");
    assert_eq!(segment_file_name(false, "hls", 1234), "seg_1234.ts");
    assert_eq!(segment_file_name(true, "1", 42), "chunk-stream1-00042.webm");
}

#[test]
fn previous_segment_is_finalised_when_the_next_opens() {
    let mut t = SegmentTracker::new(false);
    let u = t.on_line("Opening '/t/m/.seg_000.ts' for writing").unwrap();
    assert_eq!(u.published, 0);
    assert_eq!(u.finalize, None);
    assert!(t.on_line("frame=  50 fps= 30").is_none());
    let u = t.on_line("Opening '/t/m/.seg_001.ts' for writing").unwrap();
    assert_eq!(u.published, 1);
    assert_eq!(u.finalize, Some((s(".seg_000.ts"), s("seg_000.ts"))));
    assert_eq!(t.pending(), vec![(s(".seg_001.ts"), s("seg_001.ts"))]);

    let mut d = SegmentTracker::new(true);
    d.on_line("Opening '/t/m/.chunk-stream0-00001.webm' for writing");
    d.on_line("Opening '/t/m/.chunk-stream1-00001.webm' for writing");
    let u = d.on_line("Opening '/t/m/.chunk-stream0-00002.webm' for writing").unwrap();
    assert_eq!(u.finalize, Some((s(".chunk-stream0-00001.webm"), s("chunk-stream0-00001.webm"))));
    assert_eq!(
        d.pending(),
        vec![
            (s(".chunk-stream0-00002.webm"), s("chunk-stream0-00002.webm")),
            (s(".chunk-stream1-00001.webm"), s("chunk-stream1-00001.webm")),
        ]
    );
}
