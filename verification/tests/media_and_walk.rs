use md5rs_client::media::{
    build_decoder_iframe_args, build_decoder_output_args, is_tolerated_decode_error,
    is_video_photo, media_kind_of_path, process_image, process_video, resized_dimensions,
    select_shoot_time, video_timestamp, MediaError, MediaKind, WebpItem,
};
use md5rs_client::utils::{
    cert_to_pem, index_files_and_folders, is_skip, sample_evenly, sample_indices, FileItem,
    WalkEntry,
};

fn item(path: &[u8]) -> FileItem {
    FileItem::new(0, 0, path.to_vec(), None)
}

#[test]
fn sampling_five_hundred_frames_to_three() {
    let indices = sample_indices(500, 3);
    assert_eq!(indices, vec![0, 166, 333]);
}

#[test]
fn sampling_edge_cases() {
    assert!(sample_indices(0, 3).is_empty());
    assert!(sample_indices(10, 0).is_empty());
    assert_eq!(sample_indices(4, 4), vec![0, 1, 2, 3]);
    assert_eq!(sample_indices(2, 5), vec![0, 1]);
}

#[test]
fn sampling_returns_items_with_indices() {
    let list: Vec<u32> = vec![10, 11, 12, 13, 14, 15, 16, 17, 18, 19];
    let (items, indices) = sample_evenly(&list, 3);
    assert_eq!(indices, vec![0, 3, 6]);
    assert_eq!(items, vec![10, 13, 16]);
}

#[test]
fn resize_keeps_longer_side_and_evens_shorter() {
    assert_eq!(resized_dimensions(4000, 3000, 1280), (1280, 960));
    assert_eq!(resized_dimensions(3000, 4000, 1280), (960, 1280));
    // 99 * 50 / 100 is 49, rounded up to even 50
    assert_eq!(resized_dimensions(100, 99, 50), (50, 50));
    assert_eq!(resized_dimensions(640, 640, 1280), (1280, 1280));
}

#[test]
fn extension_dispatch() {
    assert_eq!(media_kind_of_path(&b"/a/b/photo.JPG".to_vec()), MediaKind::Image);
    assert_eq!(media_kind_of_path(&b"x.jpeg".to_vec()), MediaKind::Image);
    assert_eq!(media_kind_of_path(&b"x.png".to_vec()), MediaKind::Image);
    assert_eq!(media_kind_of_path(&b"clip.mp4".to_vec()), MediaKind::Video);
    assert_eq!(media_kind_of_path(&b"clip.MOV".to_vec()), MediaKind::Video);
    assert_eq!(media_kind_of_path(&b"notes.txt".to_vec()), MediaKind::Other);
    assert_eq!(media_kind_of_path(&b"no_extension".to_vec()), MediaKind::Other);
    assert_eq!(media_kind_of_path(&b"/a/.hidden".to_vec()), MediaKind::Other);
    assert!(is_video_photo(&b"a.mkv".to_vec()));
    assert!(!is_video_photo(&b"a.gif".to_vec()));
}

#[test]
fn skip_rules() {
    assert!(is_skip(&b"Animal".to_vec()));
    assert!(is_skip(&b"Person".to_vec()));
    assert!(is_skip(&b"Vehicle".to_vec()));
    assert!(is_skip(&b"Blank".to_vec()));
    assert!(is_skip(&b".DS_Store".to_vec()));
    assert!(is_skip(&b"result.csv".to_vec()));
    assert!(is_skip(&b"result.json".to_vec()));
    assert!(!is_skip(&b"animals".to_vec()));
    assert!(!is_skip(&b"IMG_0001.jpg".to_vec()));
}

#[test]
fn walk_assigns_stable_identifiers() {
    let entries = vec![
        WalkEntry { name: b"root".to_vec(), path: b"/r".to_vec(), is_dir: true, is_file: false },
        WalkEntry {
            name: b"a.jpg".to_vec(),
            path: b"/r/a.jpg".to_vec(),
            is_dir: false,
            is_file: true,
        },
        WalkEntry {
            name: b"notes.txt".to_vec(),
            path: b"/r/notes.txt".to_vec(),
            is_dir: false,
            is_file: true,
        },
        WalkEntry { name: b"sub".to_vec(), path: b"/r/sub".to_vec(), is_dir: true, is_file: false },
        WalkEntry {
            name: b"b.mp4".to_vec(),
            path: b"/r/sub/b.mp4".to_vec(),
            is_dir: false,
            is_file: true,
        },
    ];
    let items = index_files_and_folders(&entries);
    assert_eq!(items.len(), 2);
    assert_eq!(items[0].folder_id, 1);
    assert_eq!(items[0].file_id, 0);
    assert_eq!(items[0].file_path, b"/r/a.jpg".to_vec());
    assert_eq!(items[0].tmp_path, b"/r/a.jpg".to_vec());
    assert_eq!(items[1].folder_id, 2);
    assert_eq!(items[1].file_id, 1);
    assert_eq!(items[1].file_path, b"/r/sub/b.mp4".to_vec());
}

#[test]
fn tolerated_decoder_noise() {
    assert!(is_tolerated_decode_error(&b"[h264] decode_slice_header error at 17".to_vec()));
    assert!(is_tolerated_decode_error(&b"warning: Frame num change detected".to_vec()));
    assert!(is_tolerated_decode_error(&b"error while decoding MB 3 17".to_vec()));
    assert!(!is_tolerated_decode_error(&b"moov atom not found".to_vec()));
    assert!(!is_tolerated_decode_error(&b"".to_vec()));
}

#[test]
fn decoder_arguments() {
    let args = build_decoder_output_args(1280);
    let expected: Vec<Vec<u8>> = vec![
        b"-an".to_vec(),
        b"-vf".to_vec(),
        b"scale=w=1280:h=1280:force_original_aspect_ratio=decrease".to_vec(),
        b"-f".to_vec(),
        b"rawvideo".to_vec(),
        b"-pix_fmt".to_vec(),
        b"rgb24".to_vec(),
        b"-vsync".to_vec(),
        b"vfr".to_vec(),
    ];
    assert_eq!(args, expected);
    let iframe = build_decoder_iframe_args();
    assert_eq!(iframe, vec![b"-skip_frame".to_vec(), b"nokey".to_vec()]);
}

#[test]
fn media_error_text() {
    assert_eq!(
        MediaError::Io(b"no such file".to_vec()).describe(),
        b"Failed to open file: no such file".to_vec()
    );
    assert_eq!(
        MediaError::ImageDecode(b"bad marker".to_vec()).describe(),
        b"Failed to decode: bad marker".to_vec()
    );
    assert_eq!(
        MediaError::VideoDecode(b"moov atom not found".to_vec()).describe(),
        b"Failed to decode: moov atom not found".to_vec()
    );
    assert_eq!(
        MediaError::WebpEncode(b"too large".to_vec()).describe(),
        b"Failed to encode: too large".to_vec()
    );
}

#[test]
fn still_image_outcome() {
    let file = item(b"cat.jpg");
    // the frame carries the post-resize dimensions: 4000x3000 fit to 1280
    let ok = process_image(&file, Ok((4000, 3000)), 1280, Some(b"webpdata".to_vec()), None);
    match ok {
        WebpItem::Frame(fr) => {
            assert_eq!(fr.webp, b"webpdata".to_vec());
            assert_eq!(fr.width, 1280);
            assert_eq!(fr.height, 960);
            assert_eq!(fr.iframe_index, 0);
            assert_eq!(fr.total_frames, 1);
            assert!(fr.shoot_time.is_none());
        }
        WebpItem::ErrFile(_) => panic!("a decoded still must become a frame"),
    }

    let portrait = process_image(&file, Ok((3000, 4000)), 1280, Some(b"webpdata".to_vec()), None);
    match portrait {
        WebpItem::Frame(fr) => {
            assert_eq!(fr.width, 960);
            assert_eq!(fr.height, 1280);
        }
        WebpItem::ErrFile(_) => panic!("a decoded still must become a frame"),
    }

    let corrupt = process_image(
        &file,
        Err(MediaError::ImageDecode(b"bad huffman code".to_vec())),
        1280,
        None,
        None,
    );
    match corrupt {
        WebpItem::ErrFile(ef) => {
            assert_eq!(ef.error, b"Failed to decode: bad huffman code".to_vec());
        }
        WebpItem::Frame(_) => panic!("a corrupt still must become an error item"),
    }

    let unencodable = process_image(&file, Ok((10, 10)), 1280, None, None);
    match unencodable {
        WebpItem::ErrFile(ef) => {
            assert_eq!(ef.error, b"Failed to encode: Failed to encode image".to_vec());
        }
        WebpItem::Frame(_) => panic!("a frame without a payload must become an error item"),
    }
}

#[test]
fn video_outcome_carries_sampled_indices() {
    let file = item(b"clip.mp4");
    let webps = vec![b"f0".to_vec(), b"f166".to_vec(), b"f333".to_vec()];
    let indices = vec![0usize, 166, 333];
    // the dimensions are the scaled output frames' dimensions
    let items = process_video(&file, 1280, 720, &None, webps, &indices);
    assert_eq!(items.len(), 3);
    for (k, it) in items.iter().enumerate() {
        match it {
            WebpItem::Frame(fr) => {
                assert_eq!(fr.iframe_index, indices[k]);
                assert_eq!(fr.total_frames, 3);
                assert_eq!(fr.width, 1280);
                assert_eq!(fr.height, 720);
            }
            WebpItem::ErrFile(_) => panic!("decoded video frames must become frames"),
        }
    }
}

#[test]
fn shoot_time_selection() {
    assert_eq!(
        select_shoot_time(Some(b"orig".to_vec()), Some(b"mod".to_vec())),
        Some(b"orig".to_vec())
    );
    assert_eq!(select_shoot_time(None, Some(b"mod".to_vec())), Some(b"mod".to_vec()));
    assert_eq!(select_shoot_time(None, None), None);
    assert_eq!(video_timestamp(100, 200), 100);
    assert_eq!(video_timestamp(300, 200), 200);
}

#[test]
fn certificate_text_form() {
    let pem = cert_to_pem(&b"hello".to_vec());
    let expected =
        b"-----BEGIN CERTIFICATE-----\naGVsbG8=\n-----END CERTIFICATE-----\n".to_vec();
    assert_eq!(pem, expected);

    // 66 input bytes encode to 88 characters: one full 64-byte line plus one
    // 24-byte line.
    let data: Vec<u8> = (0u8..66).collect();
    let pem = cert_to_pem(&data);
    let text = String::from_utf8(pem).unwrap();
    let lines: Vec<&str> = text.lines().collect();
    assert_eq!(lines.len(), 4);
    assert_eq!(lines[0], "-----BEGIN CERTIFICATE-----");
    assert_eq!(lines[1].len(), 64);
    assert_eq!(lines[2].len(), 24);
    assert_eq!(lines[3], "-----END CERTIFICATE-----");
}
