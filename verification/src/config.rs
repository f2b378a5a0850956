//! The persisted configuration: one record per frame.
use crate::layout::Preset;
use vstd::prelude::*;

verus! {

/// The saved state of all frames.
#[derive(Debug, PartialEq)]
pub struct Config {
    pub frame: Vec<FrameConfig>,
}

/// The saved state of one frame: its preset, its window rectangle when not
/// maximized, and whether the frame was maximized.
#[derive(Clone, Copy, PartialEq, Eq, Debug, Structural)]
pub struct FrameConfig {
    pub preset: Preset,
    pub x: i32,
    pub y: i32,
    pub width: i32,
    pub height: i32,
    pub maximized: bool,
}

impl FrameConfig {
    /// A 2x2 grid at (100, 100), 1280 x 800, not maximized.
    pub open spec fn initial() -> FrameConfig {
        FrameConfig {
            preset: Preset::Grid2x2,
            x: 100,
            y: 100,
            width: 1280,
            height: 800,
            maximized: false,
        }
    }
}

impl Default for FrameConfig {
    fn default() -> (c: Self)
        ensures
            c == FrameConfig::initial(),
    {
        FrameConfig { preset: Preset::Grid2x2, x: 100, y: 100, width: 1280, height: 800, maximized: false }
    }
}

impl Default for Config {
    /// No frames.
    fn default() -> (c: Self)
        ensures
            c.frame@.len() == 0,
    {
        Config { frame: Vec::new() }
    }
}

impl Config {
    /// The frames to open at start-up: the saved ones, or a single default frame
    /// when none is saved.
    pub fn startup_frames(&self) -> (frames: Vec<FrameConfig>)
        ensures
            self.frame@.len() == 0 ==> frames@ == seq![FrameConfig::initial()],
            self.frame@.len() > 0 ==> frames@ == self.frame@,
    {
        let mut frames: Vec<FrameConfig> = Vec::new();
        if self.frame.len() == 0 {
            frames.push(FrameConfig::default());
            return frames;
        }
        let mut i: usize = 0;
        while i < self.frame.len()
            invariant
                i <= self.frame@.len(),
                frames@ == self.frame@.subrange(0, i as int),
            decreases self.frame@.len() - i,
        {
            frames.push(self.frame[i]);
            assert(frames@ =~= self.frame@.subrange(0, i as int + 1));
            i = i + 1;
        }
        assert(self.frame@.subrange(0, self.frame@.len() as int) =~= self.frame@);
        frames
    }
}

} // verus!
