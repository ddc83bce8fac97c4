use macro_hd2::images::{to_premultiplied_bgra, Decoded, MAX_EDGE_PX};
use macro_hd2::tray::{Command, MenuLabels};

#[test]
fn the_pitch_is_four_bytes_per_pixel() {
    let image = Decoded { width: MAX_EDGE_PX, height: 10, bgra: vec![0; (MAX_EDGE_PX * 10 * 4) as usize] };
    assert_eq!(image.stride(), 768);
    let thin = Decoded { width: 1, height: 1, bgra: vec![0; 4] };
    assert_eq!(thin.stride(), 4);
}

#[test]
fn the_tray_menu_has_two_choices() {
    let labels = MenuLabels { open: "Abrir", exit: "Sair" };
    assert_eq!(labels.open, "Abrir");
    assert_ne!(Command::Open, Command::Exit);
}

#[test]
fn rgba_turns_into_premultiplied_bgra() {
    let out = to_premultiplied_bgra(vec![10, 20, 30, 128, 255, 255, 255, 0, 1, 2, 3, 255, 7]);
    assert_eq!(out, vec![15, 10, 5, 128, 0, 0, 0, 0, 3, 2, 1, 255, 7]);
    assert!(out.chunks_exact(4).all(|p| p[0] <= p[3] && p[1] <= p[3] && p[2] <= p[3]));
}
