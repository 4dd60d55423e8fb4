use smachine::assembler::{byte_code_compiler, AsmOutput};
use smachine::codec::{decode_program, encode_program, ByteCode, CodecError};

fn assemble(src: &str) -> Vec<ByteCode> {
    match byte_code_compiler(src.as_bytes()) {
        Ok(AsmOutput::Done(v)) => v,
        _ => panic!("assembly failed"),
    }
}

#[test]
fn record_layout_is_nine_bytes_little_endian() {
    let mut out: Vec<u8> = Vec::new();
    let rec = ByteCode { opcode: 0x19, value: 0x0807060504030201 };
    rec.write_to_bin(&mut out);
    assert_eq!(out, vec![0x19, 0x01, 0x02, 0x03, 0x04, 0x05, 0x06, 0x07, 0x08]);
}

#[test]
fn read_record_back() {
    let bytes = vec![0x19, 0x01, 0x02, 0x03, 0x04, 0x05, 0x06, 0x07, 0x08];
    let rec = ByteCode::read_from_bin(&bytes, 0).unwrap();
    assert_eq!(rec, ByteCode { opcode: 0x19, value: 0x0807060504030201 });
}

#[test]
fn read_record_truncated() {
    let bytes = vec![0x19, 0x01, 0x02];
    assert_eq!(ByteCode::read_from_bin(&bytes, 0), Err(CodecError::Truncated));
}

#[test]
fn file_image_has_count_prefix() {
    let v = assemble("push 5 halt");
    let img = encode_program(&v);
    assert_eq!(img.len(), 8 + 9 * v.len());
    assert_eq!(&img[0..8], &[2, 0, 0, 0, 0, 0, 0, 0]);
}

#[test]
fn assemble_write_read_round_trip() {
    let v = assemble("push 7 call sq halt sq: dup uadd64 ret");
    let img = encode_program(&v);
    let back = decode_program(&img).unwrap();
    assert_eq!(back, v);
}

#[test]
fn round_trip_empty_program() {
    let v: Vec<ByteCode> = Vec::new();
    let back = decode_program(&encode_program(&v)).unwrap();
    assert_eq!(back.len(), 0);
}

#[test]
fn truncated_stream_is_rejected() {
    let v = assemble("push 7 push 9 uadd64 halt");
    let mut img = encode_program(&v);
    img.pop();
    assert_eq!(decode_program(&img), Err(CodecError::Truncated));
}

#[test]
fn short_header_is_rejected() {
    assert_eq!(decode_program(&[1, 0, 0]), Err(CodecError::Truncated));
}

#[test]
fn trailing_bytes_are_ignored() {
    let v = assemble("push 1 halt");
    let mut img = encode_program(&v);
    img.push(0xAB);
    assert_eq!(decode_program(&img).unwrap(), v);
}
