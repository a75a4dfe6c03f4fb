use vstd::prelude::*;

verus! {

/// How the window covers the screen.
#[derive(Clone, Copy, Debug, PartialEq, Eq, Structural)]
pub enum WindowStyle {
    Windowed,
    Fullscreen,
    FullscreenBorderless,
}

/// The parameters a window is made and updated with. A width or height of 0
/// asks for the size of the desktop.
#[derive(Clone, Debug)]
pub struct WindowConfig {
    pub title: String,
    pub width: u32,
    pub height: u32,
    pub fps_limit: u32,
    pub vsync_enabled: bool,
    pub style: WindowStyle,
}

impl Default for WindowConfig {
    fn default() -> (r: Self)
        ensures
            r.title@ == Seq::<char>::empty(),
            r.width == 0 && r.height == 0 && r.fps_limit == 0,
            !r.vsync_enabled,
            r.style == WindowStyle::FullscreenBorderless,
    {
        WindowConfig {
            title: String::new(),
            width: 0,
            height: 0,
            fps_limit: 0,
            vsync_enabled: false,
            style: WindowStyle::FullscreenBorderless,
        }
    }
}

impl WindowConfig {
    /// The size the window gets on a desktop of size `desktop`: the desktop's
    /// where the configured width or height is 0, else the configured one.
    pub fn window_size(&self, desktop: (u32, u32)) -> (r: (u32, u32))
        ensures
            r == if self.width == 0 || self.height == 0 {
                desktop
            } else {
                (self.width, self.height)
            },
    {
        if self.width == 0 || self.height == 0 {
            desktop
        } else {
            (self.width, self.height)
        }
    }
}

} // verus!
