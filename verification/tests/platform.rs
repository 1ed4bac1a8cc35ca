use sticky_notes::tray_icon::tray_icon_rgba;
use sticky_notes::win32::{classify_message, hit_test, screen_y_of, HitDecision, MessageDecision, WM_NCHITTEST, WM_SHOWWINDOW};

#[test]
fn classify_messages() {
    assert!(matches!(classify_message(WM_SHOWWINDOW, 0, 0, false), MessageDecision::KeepShown));
    assert!(matches!(classify_message(WM_SHOWWINDOW, 1, 0, true), MessageDecision::PassOn));
    assert!(matches!(classify_message(WM_NCHITTEST, 0, 5, true), MessageDecision::HitTest));
    assert!(matches!(classify_message(WM_NCHITTEST, 0, 5, false), MessageDecision::PassOn));
    assert!(matches!(classify_message(0x0200, 0, 0, true), MessageDecision::PassOn));
}

#[test]
fn screen_y_is_signed_high_word() {
    assert_eq!(screen_y_of((120 << 16) | 40), 120);
    assert_eq!(screen_y_of(0xFFFF_0000u32 as isize), -1);
    assert_eq!(screen_y_of(-65536), -1);
}

#[test]
fn hit_test_handle_zone() {
    let l = (130 << 16) | 10;
    assert!(matches!(hit_test(l, Some(100)), HitDecision::Default));
    assert!(matches!(hit_test(l, Some(130)), HitDecision::Default));
    assert!(matches!(hit_test(l, Some(99)), HitDecision::Transparent));
    assert!(matches!(hit_test(l, Some(131)), HitDecision::Transparent));
    assert!(matches!(hit_test(l, None), HitDecision::Transparent));
}

const PNG_2X1: [u8; 72] = [
    137, 80, 78, 71, 13, 10, 26, 10, 0, 0, 0, 13, 73, 72, 68, 82, 0, 0, 0, 2, 0, 0, 0, 1, 8, 6, 0, 0, 0, 244,
    34, 127, 138, 0, 0, 0, 15, 73, 68, 65, 84, 120, 156, 99, 248, 207, 192, 240, 31, 8, 27, 0, 16, 121, 3,
    126, 125, 99, 206, 215, 0, 0, 0, 0, 73, 69, 78, 68, 174, 66, 96, 130,
];

#[test]
fn tray_icon_decodes_png() {
    let (px, w, h) = tray_icon_rgba(&PNG_2X1).unwrap();
    assert_eq!((w, h), (2, 1));
    assert_eq!(px, vec![255, 0, 0, 255, 0, 255, 0, 128]);
}

#[test]
fn tray_icon_rejects_garbage() {
    assert!(tray_icon_rgba(&[1, 2, 3, 4]).is_err());
}
