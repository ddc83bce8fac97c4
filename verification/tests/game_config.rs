use macro_hd2::game_config::{is_exclusive_fullscreen, max_fps, parse, parse_video, Video};

#[test]
fn the_borderless_key_never_answers_for_the_fullscreen_one() {
    assert!(!parse("borderless_fullscreen = true\n"));
    assert!(!parse("window_fullscreen = true\n"));
}

#[test]
fn video_keys_do_not_match_longer_keys_or_garbage() {
    let video = parse_video("max_fps_menu = 30\nvsync_mode = true\nmax_fps = abc\n");
    assert_eq!(video.max_fps, None);
    assert_eq!(video.vsync, None);
    assert_eq!(parse_video("\tmax_fps=30 // comentário").max_fps, Some(30));
    assert_eq!(parse_video(""), Video::default());
}

#[test]
fn spacing_and_missing_keys_are_tolerated() {
    assert!(parse("fullscreen=true"));
    assert!(parse("   fullscreen   =   true   "));
    assert!(!parse("fullscreen = false"));
    assert!(!parse("fullscreen ="));
    assert!(!parse(""));
}

#[test]
fn a_missing_game_config_never_warns() {
    assert!(!is_exclusive_fullscreen(None));
    assert_eq!(max_fps(None), None);
}

#[test]
fn exclusive_fullscreen_is_the_only_mode_that_warns() {
    let fullscreen = "[video]\r\nfullscreen = true\r\nborderless_fullscreen = false\r\n";
    let borderless = "fullscreen = true\nborderless_fullscreen = true\n";
    let windowed = "fullscreen = false\nborderless_fullscreen = false\n";
    assert!(parse(fullscreen));
    assert!(!parse(borderless));
    assert!(!parse(windowed));
    assert!(is_exclusive_fullscreen(Some(parse_video(fullscreen))));
}

#[test]
fn the_video_block_is_read_in_one_pass() {
    let windowed = "screen_width = 1600\nscreen_height = 900\nfullscreen = false\nvsync = true\nmax_fps = 60\n";
    assert_eq!(
        parse_video(windowed),
        Video { exclusive_fullscreen: false, max_fps: Some(60), vsync: Some(true), resolution: Some((1600, 900)) }
    );
    let borderless = "screen_width = 2560\nscreen_height = 1440\nmax_fps = 0\nvsync = false\n";
    let video = parse_video(borderless);
    assert_eq!(video.max_fps, None);
    assert_eq!(video.vsync, Some(false));
    assert_eq!(video.resolution, Some((2560, 1440)));
    assert_eq!(max_fps(Some(parse_video(windowed))), Some(60));
}

#[test]
fn a_number_that_does_not_fit_is_no_number() {
    assert_eq!(parse_video("max_fps = 4294967296").max_fps, None);
    assert_eq!(parse_video("max_fps = 4294967295").max_fps, Some(4_294_967_295));
    assert_eq!(parse_video("max_fps = 0000144hz").max_fps, Some(144));
    assert_eq!(parse_video("screen_width = 1920").resolution, None);
}
