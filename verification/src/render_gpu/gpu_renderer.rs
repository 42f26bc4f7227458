//! The renderer.

use vstd::prelude::*;

verus! {

#[derive(Debug, PartialEq)]
pub enum RendererState {
    Uninitialized,
    Initializing,
    Ready,
    Error(String),
}

impl Clone for RendererState {
    fn clone(&self) -> (r: RendererState)
        ensures
            r == *self,
    {
        match self {
            RendererState::Uninitialized => RendererState::Uninitialized,
            RendererState::Initializing => RendererState::Initializing,
            RendererState::Ready => RendererState::Ready,
            RendererState::Error(s) => RendererState::Error(s.clone()),
        }
    }
}

#[derive(Debug)]
pub enum RenderError {
    InitError(String),
    BuildError(String),
    RenderError(String),
    SurfaceLost(String),
}

impl RenderError {
    /// What the error says.
    pub fn message(&self) -> (r: String)
        ensures
            r@ == match self {
                RenderError::InitError(s) => "GPU initialization failed: "@ + s@,
                RenderError::BuildError(s) => "Display list build failed: "@ + s@,
                RenderError::RenderError(s) => "Render failed: "@ + s@,
                RenderError::SurfaceLost(s) => "Surface lost: "@ + s@,
            },
    {
        match self {
            RenderError::InitError(s) => "GPU initialization failed: ".to_string().concat(
                s.as_str(),
            ),
            RenderError::BuildError(s) => "Display list build failed: ".to_string().concat(
                s.as_str(),
            ),
            RenderError::RenderError(s) => "Render failed: ".to_string().concat(s.as_str()),
            RenderError::SurfaceLost(s) => "Surface lost: ".to_string().concat(s.as_str()),
        }
    }
}

/// A renderer. `N` is the type of a ratio.
pub struct GpuRenderer<N> {
    state: RendererState,
    width: u32,
    height: u32,
    device_pixel_ratio: N,
}

/// What a renderer is set to.
pub struct RendererView<N> {
    pub state: RendererState,
    pub width: u32,
    pub height: u32,
    pub device_pixel_ratio: N,
}

impl<N: Copy> View for GpuRenderer<N> {
    type V = RendererView<N>;

    closed spec fn view(&self) -> RendererView<N> {
        RendererView {
            state: self.state,
            width: self.width,
            height: self.height,
            device_pixel_ratio: self.device_pixel_ratio,
        }
    }
}

/// The number of bytes of a picture, four for each pixel.
pub open spec fn picture_len(width: int, height: int) -> int {
    width * height * 4
}

/// Whether the bytes are those of an empty picture of this length.
pub open spec fn blank(bytes: Seq<u8>, len: int) -> bool {
    bytes.len() == len && forall|i: int| 0 <= i < bytes.len() ==> #[trigger] bytes[i] == 0
}

/// The bytes of an empty picture.
pub fn blank_bytes(len: usize) -> (r: Vec<u8>)
    ensures
        blank(r@, len as int),
{
    let mut out: Vec<u8> = Vec::new();
    let mut i: usize = 0;
    while i < len
        invariant
            i <= len,
            blank(out@, i as int),
        decreases len - i,
    {
        out.push(0);
        i += 1;
    }
    out
}

impl<N: Copy> GpuRenderer<N> {
    /// A renderer that has not started.
    pub fn new(width: u32, height: u32, device_pixel_ratio: N) -> (r: GpuRenderer<N>)
        ensures
            r@ == (RendererView {
                state: RendererState::Uninitialized,
                width,
                height,
                device_pixel_ratio,
            }),
    {
        GpuRenderer { state: RendererState::Uninitialized, width, height, device_pixel_ratio }
    }

    /// Makes the renderer ready.
    pub fn initialize(&mut self) -> (r: Result<(), RenderError>)
        ensures
            r is Ok,
            final(self)@ == (RendererView { state: RendererState::Ready, ..old(self)@ }),
    {
        self.state = RendererState::Ready;
        Ok(())
    }

    pub fn resize(&mut self, width: u32, height: u32) -> (r: Result<(), RenderError>)
        ensures
            r is Ok,
            final(self)@ == (RendererView { width, height, ..old(self)@ }),
    {
        self.width = width;
        self.height = height;
        Ok(())
    }

    pub fn set_device_pixel_ratio(&mut self, ratio: N)
        ensures
            final(self)@ == (RendererView { device_pixel_ratio: ratio, ..old(self)@ }),
    {
        self.device_pixel_ratio = ratio;
    }

    /// The picture, once the renderer is ready: four bytes for each pixel.
    pub fn render(&self) -> (r: Result<Vec<u8>, RenderError>)
        requires
            self@.state is Ready ==> picture_len(self@.width as int, self@.height as int)
                <= u32::MAX,
        ensures
            match r {
                Ok(pixels) => self@.state is Ready && blank(
                    pixels@,
                    picture_len(self@.width as int, self@.height as int),
                ),
                Err(e) => !(self@.state is Ready) && e is RenderError && e->RenderError_0@
                    == "Renderer not ready"@,
            },
    {
        match self.state {
            RendererState::Ready => {
                let width = self.width;
                let height = self.height;
                assert(0 <= width * height && 4 * (width * height) <= u32::MAX) by (nonlinear_arith)
                    requires
                        width * height * 4 <= u32::MAX,
                        0 <= width,
                        0 <= height,
                ;
                let len: u32 = width * height * 4;
                Ok(blank_bytes(len as usize))
            },
            _ => Err(RenderError::RenderError("Renderer not ready".to_string())),
        }
    }

    /// Whether the bytes of the picture can be counted.
    pub fn picture_fits(&self) -> (r: bool)
        ensures
            r == (picture_len(self@.width as int, self@.height as int) <= u32::MAX),
    {
        let width: u64 = self.width as u64;
        let height: u64 = self.height as u64;
        assert(width * height <= 0xffff_ffff * 0xffff_ffff) by (nonlinear_arith)
            requires
                width <= 0xffff_ffff,
                height <= 0xffff_ffff,
        ;
        let pixels: u64 = width * height;
        pixels <= 0x3fff_ffff
    }

    pub fn get_state(&self) -> (r: RendererState)
        ensures
            r == self@.state,
    {
        self.state.clone()
    }

    pub fn dimensions(&self) -> (r: (u32, u32))
        ensures
            r == (self@.width, self@.height),
    {
        (self.width, self.height)
    }
}

/// A picture has four bytes for each of its pixels: none without a column, and four more
/// for each row with every column more.
pub proof fn law_four_bytes_a_pixel(width: int, height: int)
    ensures
        picture_len(0, height) == 0,
        picture_len(width + 1, height) == picture_len(width, height) + 4 * height,
        picture_len(width, height) == picture_len(height, width),
{
    assert((width + 1) * height * 4 == width * height * 4 + 4 * height) by (nonlinear_arith);
    assert(width * height == height * width) by (nonlinear_arith);
    assert(0 * height * 4 == 0) by (nonlinear_arith);
}

/// An empty picture has a zero for each of its bytes.
pub proof fn law_empty_pictures_are_zero(bytes: Seq<u8>, len: nat)
    ensures
        blank(bytes, len as int) <==> bytes == Seq::new(len, |i: int| 0u8),
{
    if blank(bytes, len as int) {
        assert(bytes =~= Seq::new(len, |i: int| 0u8));
    }
}

} // verus!
