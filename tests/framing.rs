use fast_osmpbf::{frame_action, grown_len, header_size, BlobHeader, FrameAction, FrameError, MAX_HEADER_SIZE};

fn header(kind: &str, size: i32) -> BlobHeader {
    BlobHeader { type_pb: kind.as_bytes().to_vec(), indexdata: None, datasize: size }
}

#[test]
fn header_size_is_big_endian() {
    assert_eq!(header_size([0, 0, 0x01, 0x02]), Ok(258));
    assert_eq!(header_size([0, 0, 0, 0]), Ok(0));
    assert_eq!(header_size([0, 1, 0, 0]), Ok(MAX_HEADER_SIZE));
}

#[test]
fn oversized_header_is_refused() {
    assert_eq!(header_size([0, 1, 0, 1]), Err(FrameError::HeaderTooLarge));
    assert_eq!(header_size([0xff, 0xff, 0xff, 0xff]), Err(FrameError::HeaderTooLarge));
}

#[test]
fn unknown_blob_type_is_skipped() {
    assert_eq!(frame_action(&header("OSMHeader", 120)), Ok(FrameAction::Skip(120)));
    assert_eq!(frame_action(&header("OSMData", 300)), Ok(FrameAction::Read(300)));
    assert_eq!(frame_action(&header("OSMDat", 5)), Ok(FrameAction::Skip(5)));
}

#[test]
fn negative_blob_size_is_refused() {
    assert_eq!(frame_action(&header("OSMData", -1)), Err(FrameError::NegativeDataSize));
}

#[test]
fn blob_buffer_doubles_on_demand() {
    assert_eq!(grown_len(100, 50), 100);
    assert_eq!(grown_len(100, 100), 100);
    assert_eq!(grown_len(100, 101), 202);
    assert_eq!(grown_len(0, usize::MAX), usize::MAX);
}
