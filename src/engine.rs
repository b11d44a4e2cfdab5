use vstd::prelude::*;
use crate::frame::{Frame, FrameView};

verus! {

/// What the game engine holds: the screen size, whether a game is playing,
/// and the background image.
pub struct EngineView {
    pub screen_width: u32,
    pub screen_height: u32,
    pub playing: bool,
    pub background: FrameView,
}

/// The game engine's state between frames.
#[derive(Debug)]
pub struct G2dEngine {
    screen_width: u32,
    screen_height: u32,
    playing: bool,
    background: Frame,
}

impl View for G2dEngine {
    type V = EngineView;

    closed spec fn view(&self) -> EngineView {
        EngineView {
            screen_width: self.screen_width,
            screen_height: self.screen_height,
            playing: self.playing,
            background: self.background@,
        }
    }
}

impl G2dEngine {
    /// An engine that is not playing, for a screen of the given size.
    pub fn new(width: u32, height: u32, background: Frame) -> (r: G2dEngine)
        ensures
            r@ == (EngineView {
                screen_width: width,
                screen_height: height,
                playing: false,
                background: background@,
            }),
    {
        G2dEngine { screen_width: width, screen_height: height, playing: false, background }
    }

    /// Loads the game's assets; there are none yet.
    pub fn load_assets(&mut self)
        ensures
            final(self)@ == old(self)@,
    {
    }

    /// Advances the game by one tick; nothing moves yet.
    pub fn update(&self) {
    }

    pub fn is_playing(&self) -> (r: bool)
        ensures
            r == self@.playing,
    {
        self.playing
    }

    pub fn background(&self) -> (r: &Frame)
        ensures
            r@ == self@.background,
    {
        &self.background
    }

    /// Draws the current frame into `frame`: while no game is playing, the
    /// default background, byte for byte; during a game, nothing yet.
    pub fn draw(&self, frame: &mut Vec<u8>, default_background: &Frame)
        requires
            old(frame)@.len() == default_background@.pixels.len(),
        ensures
            !self@.playing ==> final(frame)@ == default_background@.pixels,
            self@.playing ==> final(frame)@ == old(frame)@,
    {
        if self.playing {
            return;
        }
        let src = default_background.pixels();
        let mut i: usize = 0;
        while i < src.len()
            invariant
                0 <= i <= src.len(),
                frame@.len() == src@.len(),
                forall|j: int| 0 <= j < i ==> frame@[j] == src@[j],
            decreases src.len() - i,
        {
            frame.set(i, src[i]);
            i = i + 1;
        }
        assert(frame@ =~= src@);
    }
}

} // verus!
