use binary_interpreter::binary_interpreter::BinaryInterpreter;
use binary_interpreter::binary_reader::{BinaryPeeker, BinaryReader};
use binary_interpreter::Endian;

#[test]
fn read_c_string() {
    let hello_world: Vec<u8> = vec![0x48, 0x65, 0x6c, 0x6c, 0x6f, 0x2c, 0x20, 0x57, 0x6f, 0x72, 0x6c, 0x64, 0x21, 0x0, 0x01, 0x02, 0x03, 0x04, 0x05, 0x06];
    let mut source = BinaryInterpreter::new(hello_world.as_slice()).unwrap();
    let expected = source.read_cstr().unwrap();

    assert_eq!(expected, "Hello, World!");
}

#[test]
fn read_wide_string() {
    let w_hello_world: Vec<u8> = vec![0x48, 0x00, 0x65, 0x00, 0x6c, 0x00, 0x6c, 0x00, 0x6f, 0x00, 0x2c, 0x00, 0x20, 0x00, 0x57, 0x00, 0x6f, 0x00, 0x72, 0x00, 0x6c, 0x00, 0x64, 0x00, 0x21, 0x00, 0x00, 0x00, 0x01, 0x02, 0x03, 0x04, 0x05, 0x06];
    let mut source = BinaryInterpreter::new(w_hello_world.as_slice()).unwrap();
    let expected = source.read_wcstr().unwrap();
    assert_eq!(expected, "Hello, World!");
}

#[test]
fn read_fixed_c_string() {
    let hello_world: Vec<u8> = vec![0x48, 0x65, 0x6c, 0x6c, 0x6f, 0x2c, 0x20, 0x57, 0x6f, 0x72, 0x6c, 0x64, 0x21, 0x0, 0x01, 0x02, 0x03, 0x04, 0x05, 0x06];
    let mut source = BinaryInterpreter::new(hello_world.as_slice()).unwrap();
    let expected = source.read_fixed_cstr(4).unwrap();

    assert_eq!(expected, "Hell");
}

#[test]
fn read_fixed_wide_string() {
    let w_hello_world: Vec<u8> = vec![0x48, 0x00, 0x65, 0x00, 0x6c, 0x00, 0x6c, 0x00, 0x6f, 0x00, 0x2c, 0x00, 0x20, 0x00, 0x57, 0x00, 0x6f, 0x00, 0x72, 0x00, 0x6c, 0x00, 0x64, 0x00, 0x21, 0x00, 0x00, 0x00, 0x01, 0x02, 0x03, 0x04, 0x05, 0x06];
    let mut source = BinaryInterpreter::new(w_hello_world.as_slice()).unwrap();
    let expected = source.read_fixed_wcstr(4).unwrap();
    assert_eq!(expected, "Hell");
}

#[test]
fn peek_u8() {
    let hello_world: Vec<u8> = vec![0x48, 0x65, 0x6c, 0x6c, 0x6f, 0x2c, 0x20, 0x57, 0x6f, 0x72, 0x6c, 0x64, 0x21, 0x0, 0x01, 0x02, 0x03, 0x04, 0x05, 0x06];
    let mut c = BinaryInterpreter::new(hello_world.as_slice()).unwrap();
    let expected = c.peek_u8(0).unwrap();
    assert_eq!(expected, 0x48);
}

#[test]
fn peek_u16() {
    let hello_world: Vec<u8> = vec![0x48, 0x65, 0x6c, 0x6c, 0x6f, 0x2c, 0x20, 0x57, 0x6f, 0x72, 0x6c, 0x64, 0x21, 0x0, 0x01, 0x02, 0x03, 0x04, 0x05, 0x06];
    let mut c = BinaryInterpreter::new(hello_world.as_slice()).unwrap();
    let expected = c.peek_u16(Endian::LittleEndian, 0).unwrap();
    assert_eq!(expected, 0x6548);
    let expected = c.peek_u16(Endian::BigEndian, 0).unwrap();
    assert_eq!(expected, 0x4865);
}

#[test]
fn peek_u32() {
    let hello_world: Vec<u8> = vec![0x48, 0x65, 0x6c, 0x6c, 0x6f, 0x2c, 0x20, 0x57, 0x6f, 0x72, 0x6c, 0x64, 0x21, 0x0, 0x01, 0x02, 0x03, 0x04, 0x05, 0x06];
    let mut c = BinaryInterpreter::new(hello_world.as_slice()).unwrap();
    let expected = c.peek_u32(Endian::LittleEndian, 0).unwrap();
    assert_eq!(expected, 0x6C6C6548);
    let expected = c.peek_u32(Endian::BigEndian, 0).unwrap();
    assert_eq!(expected, 0x48656C6C);
}

#[test]
fn peek_u64() {
    let hello_world: Vec<u8> = vec![0x48, 0x65, 0x6c, 0x6c, 0x6f, 0x2c, 0x20, 0x57, 0x6f, 0x72, 0x6c, 0x64, 0x21, 0x0, 0x01, 0x02, 0x03, 0x04, 0x05, 0x06];
    let mut c = BinaryInterpreter::new(hello_world.as_slice()).unwrap();
    let expected = c.peek_u64(Endian::LittleEndian, 0).unwrap();
    assert_eq!(expected, 0x57202C6F6C6C6548);
    let expected = c.peek_u64(Endian::BigEndian, 0).unwrap();
    assert_eq!(expected, 0x48656C6C6F2C2057);
}

#[test]
fn peek_u128() {
    let hello_world: Vec<u8> = vec![0x48, 0x65, 0x6c, 0x6c, 0x6f, 0x2c, 0x20, 0x57, 0x6f, 0x72, 0x6c, 0x64, 0x21, 0x0, 0x01, 0x02, 0x03, 0x04, 0x05, 0x06];
    let mut c = BinaryInterpreter::new(hello_world.as_slice()).unwrap();
    let expected = c.peek_u128(Endian::LittleEndian, 0).unwrap();
    assert_eq!(expected, 0x2010021646C726F57202C6F6C6C6548);
    let expected = c.peek_u128(Endian::BigEndian, 0).unwrap();
    assert_eq!(expected, 0x48656C6C6F2C20576F726C6421000102);
}

#[test]
fn peek_i8() {
    let hello_world: Vec<u8> = vec![0x48, 0x65, 0x6c, 0x6c, 0x6f, 0x2c, 0x20, 0x57, 0x6f, 0x72, 0x6c, 0x64, 0x21, 0x0, 0x01, 0x02, 0x03, 0x04, 0x05, 0x06];
    let mut c = BinaryInterpreter::new(hello_world.as_slice()).unwrap();
    let expected = c.peek_i8(0).unwrap();
    assert_eq!(expected, 0x48);
}

#[test]
fn peek_i16() {
    let hello_world: Vec<u8> = vec![0x48, 0x65, 0x6c, 0x6c, 0x6f, 0x2c, 0x20, 0x57, 0x6f, 0x72, 0x6c, 0x64, 0x21, 0x0, 0x01, 0x02, 0x03, 0x04, 0x05, 0x06];
    let mut c = BinaryInterpreter::new(hello_world.as_slice()).unwrap();
    let expected = c.peek_i16(Endian::LittleEndian, 0).unwrap();
    assert_eq!(expected, 0x6548);
    let expected = c.peek_i16(Endian::BigEndian, 0).unwrap();
    assert_eq!(expected, 0x4865);
}

#[test]
fn peek_i32() {
    let hello_world: Vec<u8> = vec![0x48, 0x65, 0x6c, 0x6c, 0x6f, 0x2c, 0x20, 0x57, 0x6f, 0x72, 0x6c, 0x64, 0x21, 0x0, 0x01, 0x02, 0x03, 0x04, 0x05, 0x06];
    let mut c = BinaryInterpreter::new(hello_world.as_slice()).unwrap();
    let expected = c.peek_i32(Endian::LittleEndian, 0).unwrap();
    assert_eq!(expected, 0x6C6C6548);
    let expected = c.peek_i32(Endian::BigEndian, 0).unwrap();
    assert_eq!(expected, 0x48656C6C);
}

#[test]
fn peek_i64() {
    let hello_world: Vec<u8> = vec![0x48, 0x65, 0x6c, 0x6c, 0x6f, 0x2c, 0x20, 0x57, 0x6f, 0x72, 0x6c, 0x64, 0x21, 0x0, 0x01, 0x02, 0x03, 0x04, 0x05, 0x06];
    let mut c = BinaryInterpreter::new(hello_world.as_slice()).unwrap();
    let expected = c.peek_i64(Endian::LittleEndian, 0).unwrap();
    assert_eq!(expected, 0x57202C6F6C6C6548);
    let expected = c.peek_i64(Endian::BigEndian, 0).unwrap();
    assert_eq!(expected, 0x48656C6C6F2C2057);
}

#[test]
fn peek_i128() {
    let hello_world: Vec<u8> = vec![0x48, 0x65, 0x6c, 0x6c, 0x6f, 0x2c, 0x20, 0x57, 0x6f, 0x72, 0x6c, 0x64, 0x21, 0x0, 0x01, 0x02, 0x03, 0x04, 0x05, 0x06];
    let mut c = BinaryInterpreter::new(hello_world.as_slice()).unwrap();
    let expected = c.peek_i128(Endian::LittleEndian, 0).unwrap();
    assert_eq!(expected, 0x2010021646C726F57202C6F6C6C6548);
    let expected = c.peek_i128(Endian::BigEndian, 0).unwrap();
    assert_eq!(expected, 0x48656C6C6F2C20576F726C6421000102);
}
