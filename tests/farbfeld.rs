use raycaster::farbfeld::{Decoder, Encoder, Error, HEADER_LEN};
use raycaster::texture::load_farbfeld;
use std::io::ErrorKind;

const IMAGE_DATA: &'static [u8] = b"farbfeld\
      \x00\x00\x00\x03\
      \x00\x00\x00\x03\
      \xff\xff\x00\x00\x00\x00\xff\xff\x00\x00\xff\xff\x00\x00\xff\xff\x00\x00\x00\x00\xff\xff\xff\xff\
      \x00\x00\x00\x00\xff\xff\xff\xff\x80\x00\x80\x00\x80\x00\x80\x00\x00\x00\xff\xff\x00\x00\xff\xff\
      \x00\x00\xff\xff\x00\x00\xff\xff\x00\x00\x00\x00\xff\xff\xff\xff\xff\xff\x00\x00\x00\x00\xff\xff";

#[test]
fn invalid_magic() {
    let mut img_data = Vec::new();
    img_data.extend_from_slice(b"test fail");
    img_data.extend_from_slice(&IMAGE_DATA[8..]);
    match Decoder::new(img_data) {
        Err(e) => match e {
            Error::FormatError(_) => return,
            e => panic!("{:?}", e),
        },
        Ok(_) => panic!("Got Ok expected Error::FormatError"),
    }
}

#[test]
fn truncate_header() {
    match Decoder::new(IMAGE_DATA[0..8].to_vec()) {
        Err(Error::IoError(e)) => {
            if e.kind() == ErrorKind::UnexpectedEof {
                return;
            } else {
                panic!("{:?}", e)
            }
        }
        Err(e) => panic!("{:?}", e),
        Ok(_) => panic!("Got Ok expected Error::FormatError"),
    }
}

#[test]
fn truncate_data() {
    let mut img = Decoder::new(IMAGE_DATA[..IMAGE_DATA.len() - 1].to_vec()).unwrap();
    match img.read_image() {
        Err(Error::IoError(e)) => {
            if e.kind() == ErrorKind::UnexpectedEof {
                return;
            } else {
                panic!("{:?}", e)
            }
        }
        Err(e) => panic!("{:?}", e),
        Ok(_) => panic!("Got Ok expected Error::FormatError"),
    }
}

#[test]
fn decode() {
    let mut img = Decoder::new(IMAGE_DATA.to_vec()).unwrap();
    let (w, h) = img.dimensions();
    let data = img.read_image().unwrap();
    assert_eq!(w, 3);
    assert_eq!(h, 3);
    assert_eq!(data, &IMAGE_DATA[HEADER_LEN as usize..])
}

#[test]
fn encode() {
    let buf = match Encoder(Vec::new()).encode(3, 3, &IMAGE_DATA[HEADER_LEN as usize..]) {
        Ok(b) => b,
        Err(e) => panic!("{:?}", e),
    };
    assert_eq!(&buf[..], IMAGE_DATA)
}

#[test]
fn row_length_is_eight_bytes_per_pixel() {
    let img = Decoder::new(IMAGE_DATA.to_vec()).unwrap();
    assert_eq!(img.row_len(), 24);
}

#[test]
fn read_row_copies_the_row() {
    let mut img = Decoder::new(IMAGE_DATA.to_vec()).unwrap();
    let mut buf = vec![7u8; 30];
    assert_eq!(img.read_row(1, &mut buf).unwrap(), 24);
    assert_eq!(&buf[..24], &IMAGE_DATA[16 + 24..16 + 48]);
    assert_eq!(&buf[24..], &[7u8; 6][..]);
}

#[test]
fn read_row_past_the_height_is_image_end() {
    let mut img = Decoder::new(IMAGE_DATA.to_vec()).unwrap();
    let mut buf = vec![0u8; 24];
    assert!(matches!(img.read_row(4, &mut buf), Err(Error::ImageEnd)));
}

#[test]
fn read_row_at_the_height_runs_out_of_bytes() {
    let mut img = Decoder::new(IMAGE_DATA.to_vec()).unwrap();
    let mut buf = vec![0u8; 24];
    assert!(matches!(img.read_row(3, &mut buf), Err(Error::IoError(_))));
}

#[test]
fn encode_with_too_little_data_is_not_enough_data() {
    let r = Encoder(Vec::new()).encode(3, 3, &[0u8; 35]);
    assert!(matches!(r, Err(Error::NotEnoughData)));
}

#[test]
fn encode_appends_to_what_the_encoder_holds() {
    let buf = Encoder(vec![1, 2]).encode(1, 1, &[9, 8, 7, 6]).unwrap();
    assert_eq!(buf, vec![1, 2, b'f', b'a', b'r', b'b', b'f', b'e', b'l', b'd', 0, 0, 0, 1, 0, 0, 0, 1, 9, 8, 7, 6]);
}

#[test]
fn encode_then_decode_round_trip() {
    let pixels: Vec<u8> = (0..2 * 5 * 8).map(|i| (i * 7 % 251) as u8).collect();
    let bytes = Encoder(Vec::new()).encode(2, 5, &pixels).unwrap();
    let mut img = Decoder::new(bytes).unwrap();
    assert_eq!(img.dimensions(), (2, 5));
    assert_eq!(img.read_image().unwrap(), pixels);
}

#[test]
fn big_endian_dimensions() {
    let bytes = Encoder(Vec::new()).encode(0x0102_0304, 0, &[]).unwrap();
    assert_eq!(&bytes[8..16], &[1, 2, 3, 4, 0, 0, 0, 0]);
    let img = Decoder::new(bytes).unwrap();
    assert_eq!(img.dimensions(), (0x0102_0304, 0));
}

#[test]
fn texture_keeps_the_low_byte_of_each_channel() {
    let t = load_farbfeld(IMAGE_DATA.to_vec()).unwrap();
    assert_eq!(t.width, 3);
    assert_eq!(t.height, 3);
    assert_eq!(t.data.len(), 36);
    assert_eq!(&t.data[..4], &[0xff, 0x00, 0x00, 0xff]);
    assert_eq!(&t.data[16..20], &[0x00, 0x00, 0x00, 0x00]);
}

#[test]
fn texture_of_a_truncated_image_is_an_error() {
    assert!(load_farbfeld(IMAGE_DATA[..IMAGE_DATA.len() - 1].to_vec()).is_err());
    assert!(matches!(load_farbfeld(b"farbfelX\0\0\0\0\0\0\0\0".to_vec()), Err(Error::FormatError(_))));
}

#[test]
fn error_descriptions_and_causes() {
    assert_eq!(Error::NotEnoughData.description(), "Not enough data");
    assert_eq!(Error::ImageEnd.description(), "Image end");
    assert_eq!(Error::FormatError(String::from("x")).description(), "Format error");
    let e = Decoder::new(vec![1, 2]).err().unwrap();
    assert_eq!(e.description(), "IO error");
    assert_eq!(e.cause().unwrap().kind(), ErrorKind::UnexpectedEof);
    assert!(Error::ImageEnd.cause().is_none());
}
