use nbody::console::Kind;
use nbody::helper::UserEvent;

#[test]
fn pause_message_with_nonzero_flag() {
    let data = [1u8, 0, 0, 0, 1, 0, 0, 0];
    assert_eq!(UserEvent::from(&data), Ok(UserEvent::Pause(true)));
}

#[test]
fn pause_message_with_zero_flag() {
    let data = [1u8, 0, 0, 0, 0, 0, 0, 0];
    assert_eq!(UserEvent::from(&data), Ok(UserEvent::Pause(false)));
}

#[test]
fn pause_flag_in_high_byte_counts() {
    let data = [1u8, 0, 0, 0, 0, 0, 0, 0x80];
    assert_eq!(UserEvent::from(&data), Ok(UserEvent::Pause(true)));
}

#[test]
fn resize_message() {
    let data = [2u8, 0, 0, 0];
    assert_eq!(UserEvent::from(&data), Ok(UserEvent::Resize));
}

#[test]
fn resize_message_ignores_trailing_bytes() {
    let data = [2u8, 0, 0, 0, 9, 9];
    assert_eq!(UserEvent::from(&data), Ok(UserEvent::Resize));
}

#[test]
fn unknown_tag_is_rejected() {
    assert_eq!(UserEvent::from(&[0u8, 0, 0, 0]), Err(()));
    assert_eq!(UserEvent::from(&[3u8, 0, 0, 0]), Err(()));
}

#[test]
fn tag_is_read_little_endian() {
    // 0x0100_0000 is not the pause tag, although its last byte is 1.
    assert_eq!(UserEvent::from(&[0u8, 0, 0, 1]), Err(()));
    // 0x0000_0102 is not the resize tag, although its first byte is 2.
    assert_eq!(UserEvent::from(&[2u8, 1, 0, 0]), Err(()));
}

#[test]
fn console_channel_codes() {
    assert_eq!(Kind::Log.code(), 0);
    assert_eq!(Kind::Error.code(), 1);
}

#[test]
fn screen_message_is_little_endian() {
    assert_eq!(nbody::helper::screen_message(0x0403_0201), vec![1u8, 2, 3, 4]);
    assert_eq!(nbody::helper::screen_message(0), vec![0u8, 0, 0, 0]);
    assert_eq!(nbody::helper::screen_message(u32::MAX), vec![255u8, 255, 255, 255]);
}

#[test]
fn screen_message_reads_back_as_resize_tag() {
    let buf = nbody::helper::screen_message(2);
    assert_eq!(UserEvent::from(&buf), Ok(UserEvent::Resize));
}
