use chip8::model::RAM_SIZE;
use chip8::rom::{LoadError, ROM};

#[test]
fn test_new_prog() {
    let r = ROM::new_prog(&[0xde, 0xad]).unwrap();
    assert_eq!(&r.rom[0..2], [0xde, 0xad]);

    let r = ROM::new_prog(&[0x00; RAM_SIZE]);
    assert!(matches!(r, Err(LoadError)));
}
