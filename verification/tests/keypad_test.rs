use chip8::keypad::{poll, KeyInput, PollError};

#[test]
fn test_poll_key() {
    // valid keys in the keypad
    let k = poll(Some(KeyInput::Char('1'))).unwrap();
    let mut r = [false; 16];
    r[0x0] = true;
    assert_eq!(&k[..], r);

    let k = poll(Some(KeyInput::Char('v'))).unwrap();
    let mut r = [false; 16];
    r[0xf] = true;
    assert_eq!(&k[..], r);

    // valid key not in the keypad
    let k = poll(Some(KeyInput::Char('h'))).unwrap();
    let r = [false; 16];
    assert_eq!(&k[..], r);

    // no key
    let k = poll(None).unwrap();
    let r = [false; 16];
    assert_eq!(&k[..], r);
}

#[test]
fn test_poll_error() {
    let e = poll(Some(KeyInput::Ctrl('c')));
    assert_eq!(e, Err(PollError::Interrupted));
}
