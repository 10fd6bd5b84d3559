use media_core::mediainfo::{media_info_from_probe_output, parse_media_info_from_json, parse_whole_seconds, JsonValue, MediaDetails, MediaInfoError, ProbeOutputError};

fn s(t: &str) -> JsonValue {
    JsonValue::Str(t.to_string())
}

fn n(v: i64) -> JsonValue {
    JsonValue::Number(Some(v))
}

fn obj(members: Vec<(&str, JsonValue)>) -> JsonValue {
    JsonValue::Object(members.into_iter().map(|(k, v)| (k.to_string(), v)).collect())
}

fn chars(t: &str) -> Vec<char> {
    t.chars().collect()
}

#[test]
fn test_parse_media_info_from_json() {
    let mock_json = obj(vec![
        (
            "streams",
            JsonValue::Array(vec![
                obj(vec![
                    ("index", n(0)),
                    ("codec_name", s("hevc")),
                    ("codec_type", s("video")),
                    ("width", n(1920)),
                    ("height", n(1080)),
                    ("bits_per_raw_sample", s("10")),
                    ("tags", obj(vec![("rotate", s("90"))])),
                ]),
                obj(vec![
                    ("index", n(1)),
                    ("codec_name", s("aac")),
                    ("codec_type", s("audio")),
                    ("channels", n(6)),
                    ("tags", obj(vec![("language", s("eng")), ("title", s("Surround 5.1"))])),
                ]),
                obj(vec![
                    ("index", n(2)),
                    ("codec_name", s("subrip")),
                    ("codec_type", s("subtitle")),
                    ("tags", obj(vec![("language", s("eng")), ("title", s("English (SDH)"))])),
                ]),
            ]),
        ),
        ("format", obj(vec![("size", s("1500000000")), ("duration", s("7200.5"))])),
    ]);

    let details = parse_media_info_from_json(&mock_json).expect("Failed to parse");

    assert_eq!(details.width, 1920);
    assert_eq!(details.height, 1080);
    assert_eq!(details.video_codec, "hevc");
    assert_eq!(details.audio_codec, "aac");
    assert_eq!(details.audio_channels, 6);
    assert_eq!(details.size_bytes, 1500000000);
    assert_eq!(details.duration_secs, 7200);
    assert_eq!(details.rotation, 90);
    assert_eq!(details.bit_depth, 10);

    assert_eq!(details.streams.len(), 3);

    let video_stream = &details.streams[0];
    assert_eq!(video_stream.index, 0);
    assert_eq!(video_stream.stream_type, "video");
    assert_eq!(video_stream.codec, "hevc");
    assert_eq!(video_stream.channels, None);

    let audio_stream = &details.streams[1];
    assert_eq!(audio_stream.index, 1);
    assert_eq!(audio_stream.stream_type, "audio");
    assert_eq!(audio_stream.codec, "aac");
    assert_eq!(audio_stream.language.as_deref(), Some("eng"));
    assert_eq!(audio_stream.title.as_deref(), Some("Surround 5.1"));
    assert_eq!(audio_stream.channels, Some(6));

    let subtitle_stream = &details.streams[2];
    assert_eq!(subtitle_stream.index, 2);
    assert_eq!(subtitle_stream.stream_type, "subtitle");
    assert_eq!(subtitle_stream.codec, "subrip");
    assert_eq!(subtitle_stream.language.as_deref(), Some("eng"));
}

#[test]
fn probe_errors() {
    assert!(matches!(parse_media_info_from_json(&obj(vec![])), Err(MediaInfoError::NoStreams)));
    let audio_only = obj(vec![("streams", JsonValue::Array(vec![obj(vec![("codec_type", s("audio"))])]))]);
    assert!(matches!(parse_media_info_from_json(&audio_only), Err(MediaInfoError::NoVideoStream)));
}

#[test]
fn probe_defaults_and_display_matrix() {
    let j = obj(vec![(
        "streams",
        JsonValue::Array(vec![obj(vec![
            ("codec_type", s("video")),
            (
                "side_data_list",
                JsonValue::Array(vec![
                    obj(vec![("side_data_type", s("Display Matrix")), ("rotation", n(-90))]),
                    obj(vec![("side_data_type", s("Other")), ("rotation", n(180))]),
                ]),
            ),
            ("bits_per_sample", n(8)),
        ])]),
    )]);
    let d = parse_media_info_from_json(&j).unwrap();
    assert_eq!(d.rotation, -90);
    assert_eq!(d.bit_depth, 8);
    assert_eq!(d.video_codec, "unknown");
    assert_eq!(d.audio_codec, "none");
    assert_eq!(d.audio_channels, 0);
    assert_eq!(d.size_bytes, 0);
    assert_eq!(d.duration_secs, 0);
    assert_eq!(d.width, 0);
    assert_eq!(d.streams[0].index, 0);
    assert_eq!(d.streams[0].codec, "unknown");
}

#[test]
fn whole_seconds_of_durations() {
    assert_eq!(parse_whole_seconds(&chars("7200.5")), Some(7200));
    assert_eq!(parse_whole_seconds(&chars(".5")), Some(0));
    assert_eq!(parse_whole_seconds(&chars("-3.9")), Some(-3));
    assert_eq!(parse_whole_seconds(&chars("12.")), Some(12));
    assert_eq!(parse_whole_seconds(&chars("99999999999")), Some(i32::MAX));
    assert_eq!(parse_whole_seconds(&chars("N/A")), None);
    assert_eq!(parse_whole_seconds(&chars(".")), None);
}

#[test]
fn default_details_are_unknown() {
    let d = MediaDetails::default();
    assert_eq!(d.video_codec, "unknown");
    assert_eq!(d.audio_codec, "unknown");
    assert!(d.streams.is_empty());
}

#[test]
fn probe_output_is_read_as_json() {
    assert_eq!(media_info_from_probe_output(b"not json").err(), Some(ProbeOutputError::NotJson));
    assert_eq!(
        media_info_from_probe_output(b"{\"format\": {}}").err(),
        Some(ProbeOutputError::Media(MediaInfoError::NoStreams))
    );
    let out = br#"{"streams": [{"index": 0, "codec_type": "video", "codec_name": "h264", "width": 1920, "height": 1080},
                   {"index": 1, "codec_type": "audio", "codec_name": "aac", "channels": 6}],
                   "format": {"duration": "61.5", "size": "1000"}}"#;
    let d = media_info_from_probe_output(out).unwrap();
    assert_eq!((d.width, d.height), (1920, 1080));
    assert_eq!(d.video_codec, "h264");
    assert_eq!(d.audio_codec, "aac");
    assert_eq!(d.audio_channels, 6);
    assert_eq!(d.duration_secs, 61);
    assert_eq!(d.size_bytes, 1000);
    assert_eq!(d.streams.len(), 2);
}

#[test]
fn whole_seconds_read_as_floats() {
    let cases: [(&str, Option<i32>); 16] = [
        ("1e3", Some(1000)),
        ("1.5e1", Some(15)),
        ("25e-1", Some(2)),
        ("2.5E+2", Some(250)),
        ("-1e10", Some(i32::MIN)),
        ("1e99999999999999999999999", Some(i32::MAX)),
        ("0e99999999999999999999999", Some(0)),
        ("5e-99999999999999999999999", Some(0)),
        ("inf", Some(i32::MAX)),
        ("-Infinity", Some(i32::MIN)),
        ("NaN", Some(0)),
        ("+3", Some(3)),
        ("1e", None),
        ("e5", None),
        ("1e+", None),
        ("infin", None),
    ];
    for (text, expected) in cases {
        assert_eq!(parse_whole_seconds(&chars(text)), expected, "{}", text);
        let float = text.parse::<f64>().ok().map(|f| f as i32);
        assert_eq!(float, expected, "{}", text);
    }
}
