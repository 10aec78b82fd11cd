use dupdupninja::digests::{detect_file_type, hash_to_u64, hashes_from_digests, image_hashes_from_avif, image_hashes_from_bytes, image_hashes_from_image, sha256_contents, Blake3Stream};
use dupdupninja::drive::{best_mount_for_path, find_disk_id, mount_device, parse_mountinfo_line, probe_for_path, unescape_mountinfo, DiskIdEntry};
use dupdupninja::hex::{hex_encode, short_hash_hex};
use dupdupninja::kinds::{is_image_file, is_video_file};
use dupdupninja::models::{DriveMetadata, FileSnapshotRecord, FilesetMetadata, MediaFileRecord, ScanRootKind};
use dupdupninja::paths::{path_extension, path_file_name, path_parent, path_starts_with, path_strip_prefix};
use dupdupninja::store::{blob_to_hash, file_id_column, hash_to_blob, match_key_column, names_column, root_kind_to_str, str_to_root_kind};
use dupdupninja::text::{compare_chars, decimal_string, TextOrder};
use dupdupninja::words::{find_first, replace_chars, split_lines, split_words, trim_chars};

fn chars(s: &str) -> Vec<char> {
    s.chars().collect()
}

fn text(v: &[char]) -> String {
    v.iter().collect()
}

#[test]
fn hex_encode_is_lower_case_and_full_length() {
    let mut h = [0u8; 32];
    h[0] = 0xAB;
    h[31] = 0x01;
    let s = hex_encode(&h);
    assert_eq!(s.len(), 64);
    assert!(s.starts_with("ab00"));
    assert!(s.ends_with("0001"));
    assert_eq!(short_hash_hex(&h), "ab00000000000000");
}

#[test]
fn decimal_and_text_order() {
    assert_eq!(decimal_string(0), "0");
    assert_eq!(decimal_string(1234567890), "1234567890");
    assert_eq!(compare_chars(&chars("abc"), &chars("abd")), TextOrder::Less);
    assert_eq!(compare_chars(&chars("ab"), &chars("abc")), TextOrder::Less);
    assert_eq!(compare_chars(&chars("b"), &chars("abc")), TextOrder::Greater);
    assert_eq!(compare_chars(&chars("x"), &chars("x")), TextOrder::Equal);
}

#[test]
fn paths_as_std_reads_them() {
    assert_eq!(path_file_name("/a/b/c.txt"), Some("c.txt".to_string()));
    assert_eq!(path_file_name("/a/b/"), Some("b".to_string()));
    assert_eq!(path_file_name("/"), None);
    assert_eq!(path_file_name("/a/.."), None);
    assert_eq!(path_extension("/a/photo.JPG"), Some("JPG".to_string()));
    assert_eq!(path_extension("/a/.hidden"), None);
    assert_eq!(path_extension("/a/archive.tar.gz"), Some("gz".to_string()));
    assert_eq!(path_parent("/a/b"), Some("/a".to_string()));
    assert_eq!(path_parent("/"), None);
    assert_eq!(path_strip_prefix("/m/x/y.jpg", "/m"), Some("x/y.jpg".to_string()));
    assert_eq!(path_strip_prefix("/mx/y.jpg", "/m"), None);
    assert!(path_starts_with("/m/x", "/m/"));
    assert!(!path_starts_with("/mx", "/m"));
}

#[test]
fn words_lines_and_trim() {
    let w: Vec<String> = split_words(&chars("  a bb\tccc  ")).iter().map(|v| text(v)).collect();
    assert_eq!(w, vec!["a", "bb", "ccc"]);
    let l: Vec<String> = split_lines(&chars("one\r\ntwo\n\nthree")).iter().map(|v| text(v)).collect();
    assert_eq!(l, vec!["one", "two", "", "three"]);
    assert_eq!(text(&replace_chars(&chars("a-b-c"), &chars("-"), &chars("+"))), "a+b+c");
    assert_eq!(find_first(&chars("hello"), &chars("ll")), Some(2));
    assert_eq!(find_first(&chars("hello"), &chars("z")), None);
    assert_eq!(text(&trim_chars(&chars(" \t x y \n"))), "x y");
    assert_eq!(text(&trim_chars(&chars("   "))), "");
}

#[test]
fn mountinfo_lines_and_best_mount() {
    let table = "22 1 8:1 / / rw,relatime shared:1 - ext4 /dev/sda1 rw\n\
                 30 22 8:17 / /mnt/my\\040disk rw - vfat /dev/sdb1 rw\n\
                 31 22 0:5 / /mnt rw - tmpfs tmpfs rw\n";
    let m = parse_mountinfo_line("30 22 8:17 / /mnt/my\\040disk rw - vfat /dev/sdb1 rw").unwrap();
    assert_eq!(m.mount_point, "/mnt/my disk");
    assert_eq!(m.fs_type, Some("vfat".to_string()));
    assert_eq!(m.mount_source, Some("/dev/sdb1".to_string()));
    assert!(parse_mountinfo_line("garbage").is_none());
    let best = best_mount_for_path(table, "/mnt/my disk/photos/a.jpg").unwrap();
    assert_eq!(best.mount_point, "/mnt/my disk");
    let best = best_mount_for_path(table, "/home/u").unwrap();
    assert_eq!(best.mount_point, "/");
    assert_eq!(mount_device(&best), Some("/dev/sda1".to_string()));
    let tmp = best_mount_for_path(table, "/mnt/other").unwrap();
    assert_eq!(tmp.mount_point, "/mnt");
    assert_eq!(mount_device(&tmp), None);
    assert_eq!(unescape_mountinfo("a\\011b\\134c"), "a\tb\\c");
}

#[test]
fn drive_probe_uses_disk_ids() {
    let uuids = vec![
        DiskIdEntry { name: "AAAA-1111".to_string(), target: "/dev/sdb1".to_string() },
        DiskIdEntry { name: "BBBB-2222".to_string(), target: "/dev/sda1".to_string() },
    ];
    let labels = vec![DiskIdEntry { name: "Photos".to_string(), target: "/dev/sdb1".to_string() }];
    assert_eq!(find_disk_id("/dev/sda1", &uuids), Some("BBBB-2222".to_string()));
    assert_eq!(find_disk_id("/dev/sdc1", &uuids), None);
    let m = parse_mountinfo_line("30 22 8:17 / /media rw - vfat /dev/sdb1 rw").unwrap();
    let d = probe_for_path(Some(m), Some("/dev/sdb1".to_string()), &uuids, &labels);
    assert_eq!(d.id, Some("AAAA-1111".to_string()));
    assert_eq!(d.label, Some("Photos".to_string()));
    assert_eq!(d.fs_type, Some("vfat".to_string()));
    let none = probe_for_path(None, None, &uuids, &labels);
    assert!(none.id.is_none() && none.label.is_none() && none.fs_type.is_none());
    let net = parse_mountinfo_line("31 22 0:50 / /net rw - nfs server:/share rw").unwrap();
    let n = probe_for_path(Some(net), Some("/dev/sdb1".to_string()), &uuids, &labels);
    assert!(n.id.is_none() && n.label.is_none());
    assert_eq!(n.fs_type, Some("nfs".to_string()));
}

#[test]
fn blob_and_root_kind_columns() {
    let h = [7u8; 32];
    assert_eq!(blob_to_hash(Some(hash_to_blob(&h))), Some(h));
    assert_eq!(blob_to_hash(Some(vec![1, 2, 3])), None);
    assert_eq!(blob_to_hash(None), None);
    assert_eq!(root_kind_to_str(ScanRootKind::Drive), "drive");
    assert_eq!(root_kind_to_str(ScanRootKind::Folder), "folder");
    assert_eq!(str_to_root_kind("drive"), ScanRootKind::Drive);
    assert_eq!(str_to_root_kind("anything"), ScanRootKind::Folder);
    assert_eq!(file_id_column(true), "id");
    assert_eq!(file_id_column(false), "rowid");
    assert!(names_column(&["id".to_string(), "ahash".to_string()], "ahash"));
    assert!(!names_column(&["id".to_string()], "ahash"));
    let (k, c) = match_key_column(Some(vec![1]), Some(vec![2])).unwrap();
    assert_eq!((k, c), (vec![1], "blake3"));
    let (k, c) = match_key_column(None, Some(vec![2])).unwrap();
    assert_eq!((k, c), (vec![2], "sha256"));
    assert!(match_key_column(None, None).is_none());
}

#[test]
fn file_record_round_trips_through_columns() {
    let rec = MediaFileRecord {
        file_id: Some(3),
        path: "a/b.jpg".to_string(),
        size_bytes: 1234,
        modified_at: Some(1700000000),
        blake3: Some([1u8; 32]),
        sha256: None,
        ahash: Some(u64::MAX),
        dhash: Some(5),
        phash: None,
        ffmpeg_metadata: Some("{}".to_string()),
        file_type: Some("image/jpeg".to_string()),
    };
    let c = rec.to_columns();
    assert_eq!(c.ahash, Some(-1));
    let back = MediaFileRecord::from_columns(9, c);
    assert_eq!(back.file_id, Some(9));
    assert_eq!(back.path, rec.path);
    assert_eq!(back.size_bytes, 1234);
    assert_eq!(back.modified_at, Some(1700000000));
    assert_eq!(back.blake3, rec.blake3);
    assert_eq!(back.ahash, Some(u64::MAX));
    assert_eq!(back.dhash, Some(5));
    assert_eq!(back.phash, None);
    assert_eq!(back.file_type, rec.file_type);
}

#[test]
fn snapshot_round_trips_through_columns() {
    let s = FileSnapshotRecord {
        snapshot_index: 1,
        snapshot_count: 3,
        at_ms: 1500,
        duration_ms: Some(4500),
        ahash: Some(1),
        dhash: None,
        phash: Some(u64::MAX - 1),
        image_avif: vec![0, 1, 2],
    };
    let back = FileSnapshotRecord::from_columns(s.to_columns());
    assert_eq!(back.snapshot_index, 1);
    assert_eq!(back.snapshot_count, 3);
    assert_eq!(back.at_ms, 1500);
    assert_eq!(back.duration_ms, Some(4500));
    assert_eq!(back.phash, Some(u64::MAX - 1));
    assert_eq!(back.image_avif, vec![0, 1, 2]);
}

#[test]
fn fileset_metadata_round_trips_through_columns() {
    let m = FilesetMetadata {
        created_at: 1600000000,
        root_kind: ScanRootKind::Drive,
        root_path: "/mnt/d".to_string(),
        root_parent_path: None,
        drive: DriveMetadata { id: Some("U".to_string()), label: None, fs_type: Some("ext4".to_string()) },
        host_os: "linux".to_string(),
        host_os_version: "Debian".to_string(),
        app_version: "0.1.0".to_string(),
        status: "completed".to_string(),
        name: "d".to_string(),
        description: String::new(),
        notes: "n".to_string(),
    };
    let back = FilesetMetadata::from_columns(m.to_columns(), 5);
    assert_eq!(back.created_at, 1600000000);
    assert_eq!(back.root_kind, ScanRootKind::Drive);
    assert_eq!(back.root_path, "/mnt/d");
    assert_eq!(back.drive.id, Some("U".to_string()));
    assert_eq!(back.drive.fs_type, Some("ext4".to_string()));
    assert_eq!(back.status, "completed");
    assert_eq!(back.notes, "n");
}

#[test]
fn blake3_stream_matches_known_digests() {
    let mut s = Blake3Stream::new();
    let empty = s.finish();
    assert_eq!(hex_encode(&empty), "af1349b9f5f9a1a6a0404dea36dcc9499bcb25c9adc112b7cc9a93cae41f3262");
    s.update(b"ab");
    s.update(b"c");
    assert_eq!(s.finish(), *blake3::hash(b"abc").as_bytes());
    assert_ne!(s.finish(), empty);
}

#[test]
fn sha256_matches_known_digest() {
    let d = sha256_contents(b"abc");
    assert_eq!(hex_encode(&d), "ba7816bf8f01cfea414140de5dae2223b00361a396177a9cb410ff61f20015ad");
}

#[test]
fn file_type_from_magic_bytes() {
    let png = [0x89u8, 0x50, 0x4E, 0x47, 0x0D, 0x0A, 0x1A, 0x0A, 0, 0, 0, 0];
    assert_eq!(detect_file_type(&png), Some("image/png".to_string()));
    assert_eq!(detect_file_type(b"plain words"), None);
}

#[test]
fn perceptual_hash_bytes_read_big_endian() {
    assert_eq!(hash_to_u64(&[0, 0, 0, 0, 0, 0, 1, 2]), Some(0x0102));
    assert_eq!(hash_to_u64(&[1, 2, 3]), None);
    assert_eq!(hashes_from_digests(&[0; 8], &[0, 0, 0, 0, 0, 0, 0, 1], &[255; 8]), Some((0, 1, u64::MAX)));
    assert_eq!(hashes_from_digests(&[0; 7], &[0; 8], &[0; 8]), None);
    assert_eq!(image_hashes_from_avif(b"not an image"), None);
}

#[test]
fn media_kinds_by_type_or_extension() {
    assert!(is_video_file("/a/clip.MKV", None));
    assert!(is_video_file("/a/clip", Some("video/mp4")));
    assert!(!is_video_file("/a/photo.jpg", Some("image/jpeg")));
    assert!(is_image_file("/a/photo.HEIC", None));
    assert!(is_image_file("/a/x.bin", Some("image/png")));
    assert!(!is_image_file("/a/notes.txt", None));
    assert!(!is_image_file("/a/noext", None));
}

fn hashed_with(img: &image::DynamicImage, alg: image_hasher::HashAlg, dct: bool) -> u64 {
    let mut config = image_hasher::HasherConfig::new().hash_alg(alg);
    if dct {
        config = config.preproc_dct();
    }
    let bytes = config.to_hasher().hash_image(img).as_bytes().to_vec();
    u64::from_be_bytes(bytes.try_into().unwrap())
}

#[test]
fn image_hashes_are_the_three_perceptual_hashes() {
    let buf = image::ImageBuffer::from_fn(32, 24, |x, y| image::Luma([((x * 7 + y * 13) % 256) as u8]));
    let img = image::DynamicImage::ImageLuma8(buf);
    let expected = (
        hashed_with(&img, image_hasher::HashAlg::Mean, false),
        hashed_with(&img, image_hasher::HashAlg::Gradient, false),
        hashed_with(&img, image_hasher::HashAlg::Mean, true),
    );
    assert_eq!(image_hashes_from_image(&img), Some(expected));
}

#[test]
fn image_bytes_decode_by_their_extension() {
    let buf = image::ImageBuffer::from_fn(16, 16, |x, y| image::Luma([((x * 16 + y * 3) % 256) as u8]));
    let img = image::DynamicImage::ImageLuma8(buf);
    let mut png = std::io::Cursor::new(Vec::new());
    img.write_to(&mut png, image::ImageFormat::Png).unwrap();
    let bytes = png.into_inner();
    let decoded = image::load_from_memory_with_format(&bytes, image::ImageFormat::Png).unwrap();
    assert_eq!(image_hashes_from_bytes(&bytes, "png"), image_hashes_from_image(&decoded));
    assert!(image_hashes_from_bytes(&bytes, "png").is_some());
    assert_eq!(image_hashes_from_bytes(&bytes, "nosuchformat"), None);
    assert_eq!(image_hashes_from_bytes(&bytes, ""), None);
    assert_eq!(image_hashes_from_bytes(b"not an image", "png"), None);
}
