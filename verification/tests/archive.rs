use patchferret::formats::ah::archive::{gunzip, open, untar};
use patchferret::formats::ah::AhError;

const TAR_BLOCK: usize = 512;

/// Build a tar in memory, so the tests do not need a fixture.
fn tar(files: &[(&str, &[u8])]) -> Vec<u8> {
    let mut out = Vec::new();
    for (name, body) in files {
        let mut h = [0u8; TAR_BLOCK];
        h[..name.len()].copy_from_slice(name.as_bytes());
        let size = format!("{:011o}\0", body.len());
        h[124..124 + size.len()].copy_from_slice(size.as_bytes());
        h[156] = b'0';
        h[257..262].copy_from_slice(b"ustar");
        for b in h[148..156].iter_mut() {
            *b = b' ';
        }
        out.extend_from_slice(&h);
        out.extend_from_slice(body);
        while out.len() % TAR_BLOCK != 0 {
            out.push(0);
        }
    }
    out.extend_from_slice(&[0u8; TAR_BLOCK * 2]);
    out
}

fn gzip(data: &[u8]) -> Vec<u8> {
    let mut out = vec![0x1F, 0x8B, 8, 0, 0, 0, 0, 0, 0, 3];
    out.extend_from_slice(&miniz_oxide::deflate::compress_to_vec(data, 6));
    out.extend_from_slice(&0u32.to_le_bytes());
    out.extend_from_slice(&(data.len() as u32).to_le_bytes());
    out
}

#[test]
fn round_trips_a_gzipped_tar() {
    let raw = tar(&[("Show/A.dat", b"alpha"), ("Show/B.dat", b"bravo!!")]);
    let entries = open(&gzip(&raw)).expect("open");
    assert_eq!(entries.len(), 2);
    assert_eq!(entries[0].path, "Show/A.dat");
    assert_eq!(entries[0].data, b"alpha");
    assert_eq!(entries[1].data, b"bravo!!");
}

#[test]
fn handles_entries_that_do_not_fill_a_block() {
    let raw = tar(&[("a", b"x"), ("b", b"yy"), ("c", &[7u8; 600])]);
    let entries = untar(&raw).unwrap();
    assert_eq!(entries.len(), 3);
    assert_eq!(entries[2].data.len(), 600);
}

#[test]
fn skips_directory_entries() {
    let mut raw = tar(&[("Show/file.dat", b"data")]);
    let mut dir = [0u8; TAR_BLOCK];
    dir[..5].copy_from_slice(b"Show/");
    dir[124..135].copy_from_slice(b"00000000000");
    dir[156] = b'5';
    let mut combined = dir.to_vec();
    combined.append(&mut raw);
    let entries = untar(&combined).unwrap();
    assert_eq!(entries.len(), 1);
    assert_eq!(entries[0].path, "Show/file.dat");
}

#[test]
fn parses_a_gzip_header_with_a_file_name() {
    let mut gz = vec![0x1F, 0x8B, 8, 0x08, 0, 0, 0, 0, 0, 3];
    gz.extend_from_slice(b"original.tar\0");
    gz.extend_from_slice(&miniz_oxide::deflate::compress_to_vec(b"payload", 6));
    gz.extend_from_slice(&0u32.to_le_bytes());
    gz.extend_from_slice(&7u32.to_le_bytes());
    assert_eq!(gunzip(&gz).unwrap(), b"payload");
}

#[test]
fn rejects_non_gzip() {
    assert!(matches!(gunzip(b"not gzip at all!!!!!"), Err(AhError::NotGzip)));
    assert!(matches!(gunzip(b""), Err(AhError::NotGzip)));
}

#[test]
fn truncated_input_does_not_panic() {
    let gz = gzip(&tar(&[("a", b"data")]));
    for cut in 0..gz.len() {
        let _ = open(&gz[..cut]);
    }
}

#[test]
fn a_tar_size_field_past_the_end_is_an_error() {
    let mut raw = tar(&[("a", b"data")]);
    raw[124..135].copy_from_slice(b"99999999999");
    assert!(matches!(untar(&raw), Err(AhError::Truncated(_))));
}

#[test]
fn gzip_flags_skip_comment_and_extra_fields() {
    // FEXTRA (4) with two bytes, FCOMMENT (16): the deflate stream follows.
    let mut gz = vec![0x1F, 0x8B, 8, 0x04 | 0x10, 0, 0, 0, 0, 0, 3];
    gz.extend_from_slice(&[2, 0, 0xAA, 0xBB]);
    gz.extend_from_slice(b"a comment\0");
    gz.extend_from_slice(&miniz_oxide::deflate::compress_to_vec(b"xyz", 6));
    gz.extend_from_slice(&[0u8; 8]);
    assert_eq!(gunzip(&gz).unwrap(), b"xyz");
}

#[test]
fn a_broken_deflate_stream_is_an_inflate_error() {
    let mut gz = vec![0x1F, 0x8B, 8, 0, 0, 0, 0, 0, 0, 3, 0xFF, 0xFF, 0xFF, 0xFF];
    gz.extend_from_slice(&[0u8; 8]);
    assert!(matches!(gunzip(&gz), Err(AhError::Inflate)));
}
