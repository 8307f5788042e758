use md5rs_client::export::{Bbox, Exporter, ExportFrame, resume_from_checkpoint, CheckpointError};
use md5rs_client::json::{parse_export_json, write_json};
use md5rs_client::media::{ErrFile, Frame, WebpItem};
use md5rs_client::pipeline::{classify_status, OutboundAction, RpcBridge, StatusKind};
use md5rs_client::utils::FileItem;
use md5rs_client::{Config, ConfigError, ExportFormat};

fn item(folder: usize, file: usize, path: &[u8]) -> FileItem {
    FileItem::new(folder, file, path.to_vec(), None)
}

fn still(path: &[u8]) -> Frame {
    // dimensions are the post-resize ones: a 4000x3000 original fit to 1280
    Frame {
        file: item(0, 0, path),
        webp: b"payload".to_vec(),
        width: 1280,
        height: 960,
        iframe_index: 0,
        total_frames: 1,
        shoot_time: None,
    }
}

fn detected(file: &[u8], frame_index: usize, total: usize) -> ExportFrame {
    ExportFrame {
        file: file.to_vec(),
        frame_index,
        shoot_time: None,
        total_frames: total,
        bboxes: Some(vec![Bbox {
            x1: b"0.0".to_vec(),
            y1: b"0.0".to_vec(),
            x2: b"1.0".to_vec(),
            y2: b"1.0".to_vec(),
            class: 0,
            score: b"0.5".to_vec(),
        }]),
        label: Some(b"Animal".to_vec()),
        error: None,
    }
}

#[test]
fn bridge_correlates_response_by_identifier() {
    let mut bridge = RpcBridge::new();
    bridge.on_auth(true, b"session".to_vec());
    bridge.open_stream();

    let act = bridge.on_media_item(WebpItem::Frame(still(b"cat.jpg")));
    let req = match act {
        OutboundAction::SendRequest(req) => req,
        OutboundAction::ExportError(_) => panic!("a frame must become a request"),
    };
    assert_eq!(req.uuid.len(), 36);
    assert_eq!(req.image, b"payload".to_vec());
    assert_eq!(req.width, 1280);
    assert_eq!(req.height, 960);

    let unknown = bridge.on_response(&b"no-such-identifier-000000000000000000".to_vec(),
        b"Animal".to_vec(), Vec::new());
    assert!(unknown.is_none());

    let done = bridge
        .on_response(&req.uuid, b"Animal".to_vec(), Vec::new())
        .expect("a known identifier must complete its record");
    assert_eq!(done.file, b"cat.jpg".to_vec());
    assert_eq!(done.frame_index, 0);
    assert_eq!(done.total_frames, 1);
    assert_eq!(done.label, Some(b"Animal".to_vec()));
    assert!(done.bboxes.is_some());
    assert!(done.error.is_none());

    let again = bridge.on_response(&req.uuid, b"Animal".to_vec(), Vec::new());
    assert!(again.is_none());
}

#[test]
fn bridge_is_empty_once_done() {
    let mut bridge = RpcBridge::new();
    bridge.on_auth(true, b"session".to_vec());
    bridge.open_stream();
    match bridge.on_media_item(WebpItem::Frame(still(b"left-pending.jpg"))) {
        OutboundAction::SendRequest(_) => {}
        OutboundAction::ExportError(_) => panic!("a frame must become a request"),
    }
    assert_eq!(bridge.pending.len(), 1);
    bridge.start_drain();
    bridge.finish();
    assert_eq!(bridge.pending.len(), 0);
}

#[test]
fn failed_file_bypasses_the_stream() {
    let mut bridge = RpcBridge::new();
    bridge.on_auth(true, b"session".to_vec());
    bridge.open_stream();
    let act = bridge.on_media_item(WebpItem::ErrFile(ErrFile {
        file: item(0, 0, b"corrupt.jpg"),
        error: b"Failed to decode: bad marker".to_vec(),
    }));
    let frame = match act {
        OutboundAction::ExportError(frame) => frame,
        OutboundAction::SendRequest(_) => panic!("a failed file must bypass the stream"),
    };
    assert_eq!(frame.file, b"corrupt.jpg".to_vec());
    assert_eq!(frame.error, Some(b"Failed to decode: bad marker".to_vec()));
    assert!(frame.bboxes.is_none());
    assert!(frame.label.is_none());
    assert_eq!(frame.frame_index, 0);
    assert_eq!(frame.total_frames, 0);
    assert_eq!(bridge.pending.len(), 0);
}

#[test]
fn auth_failure_fails_the_bridge() {
    let mut bridge = RpcBridge::new();
    bridge.on_auth(false, Vec::new());
    assert!(bridge.session_token.is_none());
}

#[test]
fn status_codes_are_distinguished() {
    assert_eq!(classify_status(16), StatusKind::Unauthenticated);
    assert_eq!(classify_status(8), StatusKind::ResourceExhausted);
    assert_eq!(classify_status(0), StatusKind::Other);
    assert_eq!(classify_status(13), StatusKind::Other);
}

#[test]
fn exporter_checkpoints_every_interval() {
    let mut exporter = Exporter::new(2, ExportFormat::Json);
    let first = exporter.push(detected(b"a.jpg", 0, 1));
    assert!(first.is_none());
    let second = exporter.push(detected(b"b.jpg", 0, 1)).expect("checkpoint due");
    let parsed = parse_export_json(&second).expect("checkpoint artifact must read back");
    assert_eq!(parsed.len(), 2);
    assert_eq!(parsed[0].file, b"a.jpg".to_vec());
    assert_eq!(parsed[1].file, b"b.jpg".to_vec());
    let third = exporter.push(detected(b"c.jpg", 0, 1));
    assert!(third.is_none());
    let out = exporter.finalize();
    let all = parse_export_json(&out).expect("final artifact must read back");
    assert_eq!(all.len(), 3);
}

#[test]
fn finalize_drops_duplicate_positions() {
    let mut exporter = Exporter::new(100, ExportFormat::Json);
    assert!(exporter.push(detected(b"y.mp4", 0, 3)).is_none());
    assert!(exporter.push(detected(b"y.mp4", 1, 3)).is_none());
    assert!(exporter.push(detected(b"y.mp4", 0, 3)).is_none());
    assert!(exporter.push(detected(b"y.mp4", 2, 3)).is_none());
    let out = exporter.finalize();
    let all = parse_export_json(&out).expect("final artifact must read back");
    assert_eq!(all.len(), 3);
    assert_eq!(all[0].frame_index, 0);
    assert_eq!(all[1].frame_index, 1);
    assert_eq!(all[2].frame_index, 2);
}

#[test]
fn resume_drops_complete_files_and_keeps_partial_ones() {
    let prior = vec![
        detected(b"/d/x.mp4", 0, 3),
        detected(b"/d/x.mp4", 1, 3),
        detected(b"/d/x.mp4", 2, 3),
        detected(b"/d/y.mp4", 0, 3),
        detected(b"/d/y.mp4", 1, 3),
    ];
    let artifact = write_json(&prior);
    let work = vec![item(0, 0, b"/d/x.mp4"), item(0, 1, b"/d/y.mp4")];
    let (kept, seed) =
        resume_from_checkpoint(&b"prior.json".to_vec(), true, true, &artifact, &work)
            .expect("a valid artifact must resume");
    assert_eq!(kept.len(), 1);
    assert_eq!(kept[0].file_path, b"/d/y.mp4".to_vec());
    assert_eq!(seed.len(), 5);
}

#[test]
fn resume_error_variants() {
    let work = vec![item(0, 0, b"/d/x.mp4")];
    let empty = Vec::new();
    assert!(matches!(
        resume_from_checkpoint(&b"prior.json".to_vec(), false, false, &empty, &work),
        Err(CheckpointError::Missing)
    ));
    assert!(matches!(
        resume_from_checkpoint(&b"prior.json".to_vec(), true, false, &empty, &work),
        Err(CheckpointError::NotAFile)
    ));
    assert!(matches!(
        resume_from_checkpoint(&b"prior.txt".to_vec(), true, true, &empty, &work),
        Err(CheckpointError::BadExtension)
    ));
    assert!(matches!(
        resume_from_checkpoint(&b"prior.json".to_vec(), true, true, &b"junk".to_vec(), &work),
        Err(CheckpointError::Unparsable)
    ));
}

#[test]
fn resume_through_csv_artifact() {
    let mut exporter = Exporter::new(100, ExportFormat::Csv);
    assert!(exporter.push(detected(b"/d/z.jpg", 0, 1)).is_none());
    let artifact = exporter.finalize();
    let work = vec![item(0, 0, b"/d/z.jpg"), item(0, 1, b"/d/w.jpg")];
    let (kept, seed) =
        resume_from_checkpoint(&b"prior.csv".to_vec(), true, true, &artifact, &work)
            .expect("a tabular artifact must resume");
    assert_eq!(kept.len(), 1);
    assert_eq!(kept[0].file_path, b"/d/w.jpg".to_vec());
    assert_eq!(seed.len(), 1);
}

#[test]
fn artifact_file_names() {
    assert_eq!(md5rs_client::export::result_filename(ExportFormat::Json), b"result.json".to_vec());
    assert_eq!(md5rs_client::export::result_filename(ExportFormat::Csv), b"result.csv".to_vec());
    // the walker prunes exactly these names
    assert!(md5rs_client::utils::is_skip(&b"result.json".to_vec()));
    assert!(md5rs_client::utils::is_skip(&b"result.csv".to_vec()));
}

#[test]
fn zero_checkpoint_is_a_configuration_error() {
    let config = Config {
        folder: b"/data".to_vec(),
        url: b"https://example.test".to_vec(),
        token: b"t".to_vec(),
        max_frames: Some(3),
        iframe_only: true,
        iou_bits: 0,
        conf_bits: 0,
        quality_bits: 0,
        export: ExportFormat::Json,
        checkpoint: 0,
        resume_from: None,
        buffer_path: None,
        buffer_size: 20,
    };
    assert!(matches!(config.validate(), Err(ConfigError::ZeroCheckpoint)));
    let ok = Config { checkpoint: 100, ..config };
    assert!(ok.validate().is_ok());
}
