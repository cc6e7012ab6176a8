use iidx_on_ear::unpack::{
    block_2dx9, extract_2dx_wav, extract_s3p_wma, find_valid_s3p0, largest_2dx9_block, unpack, AudioBlob,
    AudioSource, UnpackError,
};
use iidx_on_ear::bytes::{find_from, read_u32_le};

fn le32(v: u32) -> [u8; 4] {
    v.to_le_bytes()
}

/// An S3V0 block of `total` bytes: 0x20-byte header, payload filled with `fill`.
fn s3v0_block(total: usize, fill: u8) -> Vec<u8> {
    let mut b = b"S3V0".to_vec();
    b.extend_from_slice(&le32(0x20));
    b.extend_from_slice(&le32((total - 0x20) as u32));
    b.resize(0x20, 0);
    b.resize(total, fill);
    b
}

/// An S3P0 archive holding the given blocks, entries in order.
fn s3p(blocks: &[Vec<u8>]) -> Vec<u8> {
    let mut out = b"S3P0".to_vec();
    out.extend_from_slice(&le32(blocks.len() as u32));
    let mut off = 8 + 8 * blocks.len();
    for b in blocks {
        out.extend_from_slice(&le32(off as u32));
        out.extend_from_slice(&le32(b.len() as u32));
        off += b.len();
    }
    for b in blocks {
        out.extend_from_slice(b);
    }
    out
}

/// A 2DX9 block wrapping a RIFF payload of `size` bytes filled with `fill`.
fn dx9_block(size: usize, fill: u8) -> Vec<u8> {
    let mut b = b"2DX9".to_vec();
    b.extend_from_slice(&le32(0x18));
    b.extend_from_slice(&le32(size as u32));
    b.resize(0x18, 0);
    let mut riff = b"RIFF".to_vec();
    riff.resize(size, fill);
    b.extend_from_slice(&riff);
    b
}

fn riff_payload(size: usize, fill: u8) -> Vec<u8> {
    let mut riff = b"RIFF".to_vec();
    riff.resize(size, fill);
    riff
}

#[test]
fn reads_little_endian_u32() {
    assert_eq!(read_u32_le(&[0x78, 0x56, 0x34, 0x12, 0xff], 0), 0x1234_5678);
    assert_eq!(read_u32_le(&[0, 0xff, 0xff, 0xff, 0xff], 1), u32::MAX);
}

#[test]
fn find_from_finds_first_occurrence_at_or_after_start() {
    let data = b"xxS3P0yyS3P0";
    assert_eq!(find_from(data, b"S3P0", 0), Some(2));
    assert_eq!(find_from(data, b"S3P0", 3), Some(8));
    assert_eq!(find_from(data, b"S3P0", 9), None);
    assert_eq!(find_from(data, b"S3P0", 100), None);
}

#[test]
fn s3p_takes_largest_entry_payload() {
    let blocks = vec![s3v0_block(0x40, 1), s3v0_block(0x90, 2), s3v0_block(0x50, 3)];
    let data = s3p(&blocks);
    let wma = extract_s3p_wma(&data, 0).unwrap();
    assert_eq!(wma, vec![2u8; 0x70]);
}

#[test]
fn s3p_tie_goes_to_first_entry() {
    let blocks = vec![s3v0_block(0x40, 7), s3v0_block(0x40, 8)];
    let data = s3p(&blocks);
    assert_eq!(extract_s3p_wma(&data, 0).unwrap(), vec![7u8; 0x20]);
}

#[test]
fn s3p_errors() {
    let good = s3p(&[s3v0_block(0x40, 1)]);
    assert_eq!(extract_s3p_wma(&good, good.len() + 1), Err(UnpackError::S3pBaseOutOfRange));
    assert_eq!(extract_s3p_wma(b"S3P0\x01\x00", 0), Err(UnpackError::S3pHeaderTruncated));
    let mut truncated = b"S3P0".to_vec();
    truncated.extend_from_slice(&le32(2));
    truncated.extend_from_slice(&[0u8; 12]);
    assert_eq!(extract_s3p_wma(&truncated, 0), Err(UnpackError::S3pTableTruncated));
    let mut empty = b"S3P0".to_vec();
    empty.extend_from_slice(&le32(0));
    assert_eq!(extract_s3p_wma(&empty, 0), Err(UnpackError::S3pNoEntries));
    let mut out_of_range = b"S3P0".to_vec();
    out_of_range.extend_from_slice(&le32(1));
    out_of_range.extend_from_slice(&le32(16));
    out_of_range.extend_from_slice(&le32(0x100));
    assert_eq!(extract_s3p_wma(&out_of_range, 0), Err(UnpackError::S3pEntryOutOfRange));
    let mut not_s3v0 = s3p(&[s3v0_block(0x40, 1)]);
    not_s3v0[16] = b'X';
    assert_eq!(extract_s3p_wma(&not_s3v0, 0), Err(UnpackError::NotS3v0Block));
    let short = s3p(&[b"S3V0\x20\x00\x00\x00".to_vec()]);
    assert_eq!(extract_s3p_wma(&short, 0), Err(UnpackError::S3v0HeaderTruncated));
    let mut payload_long = s3v0_block(0x40, 1);
    payload_long[8..12].copy_from_slice(&le32(0x21));
    let bad_payload = s3p(&[payload_long]);
    assert_eq!(extract_s3p_wma(&bad_payload, 0), Err(UnpackError::S3v0PayloadOutOfRange));
}

#[test]
fn s3p_embedded_at_offset_matches_loose_file() {
    let archive = s3p(&[s3v0_block(0x30, 4), s3v0_block(0x60, 5)]);
    let mut ifs = vec![0xAAu8; 0xC0];
    ifs.extend_from_slice(&archive);
    ifs.extend_from_slice(&[0u8; 16]);
    assert_eq!(extract_s3p_wma(&ifs, 0xC0).unwrap(), extract_s3p_wma(&archive, 0).unwrap());
    assert_eq!(find_valid_s3p0(&ifs), Some(0xC0));
    // failures are the same too
    let mut cut = archive.clone();
    cut.truncate(20);
    let mut embedded = vec![0x55u8; 7];
    embedded.extend_from_slice(&cut);
    assert_eq!(extract_s3p_wma(&embedded, 7), extract_s3p_wma(&cut, 0));
    assert_eq!(extract_s3p_wma(&cut, 0), Err(UnpackError::S3pTableTruncated));
}

#[test]
fn find_valid_s3p0_skips_implausible_headers() {
    let mut data = b"S3P0".to_vec();
    data.extend_from_slice(&le32(0));
    data.extend_from_slice(b"S3P0");
    data.extend_from_slice(&le32(200_000));
    let at = data.len();
    data.extend_from_slice(&s3p(&[s3v0_block(0x40, 1)]));
    assert_eq!(find_valid_s3p0(&data), Some(at));
    assert_eq!(find_valid_s3p0(b"no magic here"), None);
}

#[test]
fn block_2dx9_validates_sizes_and_riff() {
    let block = dx9_block(0x40, 3);
    assert_eq!(block_2dx9(&block, 0), Some((0x18, 0x40)));
    let mut not_riff = block.clone();
    not_riff[0x18] = b'X';
    assert_eq!(block_2dx9(&not_riff, 0), None);
    assert_eq!(block_2dx9(&block[..0x30], 0), None);
    assert_eq!(block_2dx9(b"2DX9\x18\x00", 0), None);
    // a payload too short to be a RIFF/WAVE is refused, even when "RIFF" follows it
    let mut empty_payload = b"2DX9".to_vec();
    empty_payload.extend_from_slice(&le32(12));
    empty_payload.extend_from_slice(&le32(0));
    empty_payload.extend_from_slice(b"RIFF");
    assert_eq!(block_2dx9(&empty_payload, 0), None);
    assert_eq!(largest_2dx9_block(&empty_payload), None);
    assert_eq!(extract_2dx_wav(&empty_payload), Err(UnpackError::NoAudioBlock));
}

#[test]
fn largest_2dx9_wins_and_stray_magic_is_ignored() {
    let mut data = dx9_block(0x30, 1);
    data.extend_from_slice(b"2DX9garbage!");
    data.extend_from_slice(&dx9_block(0x80, 2));
    data.extend_from_slice(&dx9_block(0x80, 3));
    assert_eq!(largest_2dx9_block(&data), Some(riff_payload(0x80, 2)));
    assert_eq!(largest_2dx9_block(b"nothing"), None);
}

#[test]
fn bare_riff_is_taken_whole() {
    let wav = riff_payload(0x20, 9);
    assert_eq!(extract_2dx_wav(&wav).unwrap(), wav);
    assert_eq!(extract_2dx_wav(b"junkjunk"), Err(UnpackError::NoAudioBlock));
}

#[test]
fn loose_sources_pick_codec_by_extension() {
    let archive = s3p(&[s3v0_block(0x40, 6)]);
    let blob = unpack(&AudioSource::Loose { data: archive.clone(), extension: "S3P".to_string() }).unwrap();
    assert!(matches!(blob, AudioBlob::Wma(_)));
    assert_eq!(blob.len(), 0x20);
    assert_eq!(blob.bytes(), &[6u8; 0x20][..]);
    assert_eq!(blob.input_ext(), "wma");
    let dx = dx9_block(0x40, 5);
    let blob = unpack(&AudioSource::Loose { data: dx, extension: "2dx".to_string() }).unwrap();
    assert_eq!(blob.input_ext(), "wav");
    assert_eq!(blob.bytes(), riff_payload(0x40, 5).as_slice());
    let err = unpack(&AudioSource::Loose { data: archive, extension: "2dx".to_string() });
    assert_eq!(err.err(), Some(UnpackError::NoAudioBlock));
}

#[test]
fn ifs_prefers_s3p_and_falls_back_to_2dx() {
    let archive = s3p(&[s3v0_block(0x60, 4)]);
    let mut ifs = vec![0u8; 0x40];
    ifs.extend_from_slice(&archive);
    ifs.extend_from_slice(&dx9_block(0x200, 8));
    let blob = unpack(&AudioSource::Ifs(ifs)).unwrap();
    assert!(matches!(&blob, AudioBlob::Wma(v) if v == &vec![4u8; 0x40]));

    // a stray S3P0 whose entry is not an S3V0 block: the 2DX9 path is used
    let mut stray = b"S3P0".to_vec();
    stray.extend_from_slice(&le32(1));
    stray.extend_from_slice(&le32(0));
    stray.extend_from_slice(&le32(4));
    stray.extend_from_slice(&dx9_block(0x30, 1));
    let blob = unpack(&AudioSource::Ifs(stray)).unwrap();
    assert!(matches!(&blob, AudioBlob::Wav(v) if v == &riff_payload(0x30, 1)));
}
