use md5rs_client::export::{Bbox, ExportFrame};
use md5rs_client::csv::{parse_export_csv, write_csv};
use md5rs_client::json::{parse_export_json, write_json};

fn errored_frame(file: &[u8], error: &[u8]) -> ExportFrame {
    ExportFrame {
        file: file.to_vec(),
        frame_index: 0,
        shoot_time: None,
        total_frames: 0,
        bboxes: None,
        label: None,
        error: Some(error.to_vec()),
    }
}

fn detected_frame(file: &[u8], frame_index: usize, total: usize) -> ExportFrame {
    ExportFrame {
        file: file.to_vec(),
        frame_index,
        shoot_time: Some(b"2023-06-01T10:00:00+08:00".to_vec()),
        total_frames: total,
        bboxes: Some(vec![Bbox {
            x1: b"0.1".to_vec(),
            y1: b"0.2".to_vec(),
            x2: b"0.5".to_vec(),
            y2: b"0.9".to_vec(),
            class: 2,
            score: b"0.87".to_vec(),
        }]),
        label: Some(b"Animal".to_vec()),
        error: None,
    }
}

fn assert_same_frames(a: &[ExportFrame], b: &[ExportFrame]) {
    assert_eq!(a.len(), b.len());
    for (x, y) in a.iter().zip(b.iter()) {
        assert_eq!(x.file, y.file);
        assert_eq!(x.frame_index, y.frame_index);
        assert_eq!(x.shoot_time, y.shoot_time);
        assert_eq!(x.total_frames, y.total_frames);
        assert_eq!(x.label, y.label);
        assert_eq!(x.error, y.error);
        match (&x.bboxes, &y.bboxes) {
            (None, None) => {}
            (Some(bx), Some(by)) => {
                assert_eq!(bx.len(), by.len());
                for (p, q) in bx.iter().zip(by.iter()) {
                    assert_eq!(p.x1, q.x1);
                    assert_eq!(p.y1, q.y1);
                    assert_eq!(p.x2, q.x2);
                    assert_eq!(p.y2, q.y2);
                    assert_eq!(p.class, q.class);
                    assert_eq!(p.score, q.score);
                }
            }
            _ => panic!("bboxes differ"),
        }
    }
}

#[test]
fn empty_export_is_empty_array() {
    let out = write_json(&Vec::new());
    assert_eq!(out, b"[]".to_vec());
}

#[test]
fn errored_record_text_is_exact() {
    let frames = vec![errored_frame(b"a.jpg", b"Failed to decode: bad")];
    let out = write_json(&frames);
    let expected = b"[{\"file\":\"a.jpg\",\"frame_index\":0,\"shoot_time\":null,\"total_frames\":0,\"bboxes\":null,\"label\":null,\"error\":\"Failed to decode: bad\"}]".to_vec();
    assert_eq!(out, expected);
}

#[test]
fn detected_record_text_is_exact() {
    let frames = vec![detected_frame(b"cam/clip.mp4", 166, 3)];
    let out = write_json(&frames);
    let expected = b"[{\"file\":\"cam/clip.mp4\",\"frame_index\":166,\"shoot_time\":\"2023-06-01T10:00:00+08:00\",\"total_frames\":3,\"bboxes\":[{\"x1\":0.1,\"y1\":0.2,\"x2\":0.5,\"y2\":0.9,\"class\":2,\"score\":0.87}],\"label\":\"Animal\",\"error\":null}]".to_vec();
    assert_eq!(out, expected);
}

#[test]
fn json_round_trip() {
    let frames = vec![
        detected_frame(b"x.jpg", 0, 1),
        errored_frame(b"bad.png", b"Failed to decode: truncated"),
        detected_frame(b"v.mp4", 333, 3),
    ];
    let out = write_json(&frames);
    let parsed = parse_export_json(&out).expect("artifact must read back");
    assert_same_frames(&frames, &parsed);
}

#[test]
fn json_round_trip_with_escapes() {
    let mut f = errored_frame(b"dir \"odd\"/a\\b\n.jpg", b"tab\there\r");
    f.shoot_time = Some(b"ti\"me".to_vec());
    let frames = vec![f];
    let out = write_json(&frames);
    let parsed = parse_export_json(&out).expect("escaped text must read back");
    assert_same_frames(&frames, &parsed);
}

#[test]
fn json_rejects_garbage() {
    assert!(parse_export_json(&b"not json".to_vec()).is_none());
    assert!(parse_export_json(&b"[".to_vec()).is_none());
    assert!(parse_export_json(&b"[]x".to_vec()).is_none());
    assert!(parse_export_json(&b"[{\"file\":\"a\"}]".to_vec()).is_none());
}

#[test]
fn json_rejects_oversized_counter() {
    let text = b"[{\"file\":\"a\",\"frame_index\":99999999999999999999999,\"shoot_time\":null,\"total_frames\":0,\"bboxes\":null,\"label\":null,\"error\":null}]".to_vec();
    assert!(parse_export_json(&text).is_none());
}

#[test]
fn csv_header_and_row_are_exact() {
    let frames = vec![errored_frame(b"a.jpg", b"boom")];
    let out = write_csv(&frames);
    let expected =
        b"file,frame_index,shoot_time,total_frames,bboxes,label,error\n\"a.jpg\",0,,0,,,\"boom\"\n"
            .to_vec();
    assert_eq!(out, expected);
}

#[test]
fn csv_round_trip() {
    let frames = vec![
        detected_frame(b"x.jpg", 0, 1),
        errored_frame(b"with \"quotes\", commas\nand lines.png", b"oops"),
    ];
    let out = write_csv(&frames);
    let parsed = parse_export_csv(&out).expect("tabular artifact must read back");
    assert_same_frames(&frames, &parsed);
}

#[test]
fn csv_rejects_garbage() {
    assert!(parse_export_csv(&b"nonsense".to_vec()).is_none());
    let missing_field =
        b"file,frame_index,shoot_time,total_frames,bboxes,label,error\n\"a\",0,,0\n".to_vec();
    assert!(parse_export_csv(&missing_field).is_none());
}
