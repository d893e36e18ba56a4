use mu_rust_ex::encoder::{decode, encode, encode_fnc, Error, Ucs2Sink, VecSink};

#[test]
fn test_encode() {
    let input = "中国";
    let mut buffer = vec![0u16; 2];
    assert_eq!(encode(input, &mut buffer).is_ok(), true);
    assert_eq!(buffer[0], 0x4e2du16);
    assert_eq!(buffer[1], 0x56fdu16);
}

#[test]
fn test_decode() {
    let mut u8_buffer = vec![0u8; 6];
    let u16_str = [0x4e2du16, 0x56fdu16]; // 中国
    let len = decode(&u16_str, &mut u8_buffer).unwrap_or(0);
    assert_eq!(len, 6);
    assert_eq!(core::str::from_utf8(&u8_buffer[..]), Ok("中国"));
}

#[test]
fn encode_returns_unit_count() {
    let mut buffer = vec![0u16; 8];
    assert_eq!(encode("abc", &mut buffer), Ok(3));
    assert_eq!(&buffer[..4], &[0x61, 0x62, 0x63, 0]);
}

#[test]
fn encode_rejects_character_outside_bmp() {
    let mut buffer = vec![0u16; 8];
    assert_eq!(encode("a😀b", &mut buffer), Err(Error::MultiByte));
    // The character before the offending one was still written.
    assert_eq!(buffer[0], 0x61);
}

#[test]
fn encode_rejects_small_buffer() {
    let mut buffer = vec![0u16; 2];
    assert_eq!(encode("abc", &mut buffer), Err(Error::BufferOverFlow));
}

#[test]
fn encode_fnc_feeds_sink_in_order() {
    let mut sink = VecSink::new();
    // Success reports the UTF-8 bytes consumed: one for 'A', three for
    // the CJK character.
    assert_eq!(encode_fnc("A中", &mut sink), Ok(4));
    assert_eq!(sink.units, vec![0x41u16, 0x4e2d]);
}

#[test]
fn encode_fnc_reports_multibyte_to_sink() {
    let mut sink = VecSink::new();
    assert_eq!(encode_fnc("a😀", &mut sink), Err(Error::MultiByte));
    assert_eq!(sink.units, vec![0x61u16]);
}

struct OneUnitSink {
    kept: Vec<u16>,
}

impl Ucs2Sink for OneUnitSink {
    // Ghost item of the trait; never called at run time.
    fn taken(&self) -> vstd::prelude::Seq<u16> {
        unreachable!()
    }

    fn accept(&mut self, unit: Result<u16, Error>) -> Result<usize, Error> {
        match unit {
            Ok(u) => {
                if self.kept.is_empty() {
                    self.kept.push(u);
                    Ok(1)
                } else {
                    Err(Error::BufferOverFlow)
                }
            }
            Err(e) => Err(e),
        }
    }
}

#[test]
fn encode_fnc_stops_when_sink_refuses() {
    let mut sink = OneUnitSink { kept: Vec::new() };
    assert_eq!(encode_fnc("xyz", &mut sink), Err(Error::BufferOverFlow));
    assert_eq!(sink.kept, vec![0x78u16]);
}

#[test]
fn decode_two_byte_sequences() {
    // U+00E9 and U+0041: two bytes then one.
    let units = [0x00E9u16, 0x0041u16];
    let mut buffer = vec![0u8; 3];
    assert_eq!(decode(&units, &mut buffer), Ok(3));
    assert_eq!(&buffer[..], &[0xC3, 0xA9, 0x41]);
    assert_eq!(core::str::from_utf8(&buffer[..]), Ok("éA"));
}

#[test]
fn decode_rejects_small_buffer() {
    let units = [0x4e2du16];
    let mut buffer = vec![0u8; 2];
    assert_eq!(decode(&units, &mut buffer), Err(Error::BufferOverFlow));
}

#[test]
fn decode_leaves_buffer_tail_alone() {
    let units = [0x41u16];
    let mut buffer = vec![0xEEu8; 4];
    assert_eq!(decode(&units, &mut buffer), Ok(1));
    assert_eq!(&buffer[..], &[0x41, 0xEE, 0xEE, 0xEE]);
}
