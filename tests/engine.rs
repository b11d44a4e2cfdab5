use gwen2d_engine::engine::G2dEngine;
use gwen2d_engine::frame::Frame;

#[test]
fn idle_engine_draws_background() {
    let background = Frame::from_rgba(2, 1, vec![1, 2, 3, 4, 5, 6, 7, 8]).unwrap();
    let mut engine = G2dEngine::new(2, 1, background.duplicate());
    engine.load_assets();
    engine.update();
    assert!(!engine.is_playing());
    assert!(engine.background().same_as(&background));
    let mut buffer = vec![0u8; 8];
    engine.draw(&mut buffer, &background);
    assert_eq!(buffer, vec![1, 2, 3, 4, 5, 6, 7, 8]);
}
