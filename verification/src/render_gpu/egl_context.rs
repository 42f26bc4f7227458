//! How a headless OpenGL context is brought up and taken down through EGL.

use crate::text;
use crate::scan;
use vstd::prelude::*;

verus! {

pub const EGL_OPENGL_ES_API: i32 = 0x30A0;

pub const EGL_FALSE: i32 = 0;

pub const EGL_SURFACE_TYPE: i32 = 0x3033;

pub const EGL_PBUFFER_BIT: i32 = 0x0001;

pub const EGL_PIXMAP_BIT: i32 = 0x0002;

pub const EGL_RED_SIZE: i32 = 0x3024;

pub const EGL_GREEN_SIZE: i32 = 0x3023;

pub const EGL_BLUE_SIZE: i32 = 0x3022;

pub const EGL_ALPHA_SIZE: i32 = 0x3021;

pub const EGL_DEPTH_SIZE: i32 = 0x3025;

pub const EGL_STENCIL_SIZE: i32 = 0x3026;

pub const EGL_RENDERABLE_TYPE: i32 = 0x3040;

pub const EGL_OPENGL_ES2_BIT: i32 = 0x0004;

pub const EGL_NONE: i32 = 0x3038;

pub const EGL_CONTEXT_CLIENT_VERSION: i32 = 0x3098;

pub const EGL_WIDTH: i32 = 0x3057;

pub const EGL_HEIGHT: i32 = 0x3056;

/// What the context is for. The two ways to bring one up differ in what they ask for
/// and in what they take for a failure.
#[derive(Debug, PartialEq, Eq, Structural, Clone, Copy)]
pub enum Purpose {
    /// The renderer, on a pbuffer surface, with version 3 of OpenGL ES.
    Renderer,
    /// WebGL, with version 2.
    WebGl,
}

/// The call that is next.
#[derive(Debug, PartialEq, Eq, Structural, Clone, Copy)]
pub enum Stage {
    GetDisplay,
    Initialize,
    BindApi,
    ChooseConfig,
    CreateContext,
    CreateSurface,
    MakeCurrent,
    Done,
}

/// What a call of EGL came back with: a handle or none, a status, a number of
/// configurations. A call sets those of them that it has.
#[derive(Debug, PartialEq, Eq, Structural, Clone, Copy)]
pub struct Reply {
    pub null: bool,
    pub status: i32,
    pub count: i32,
}

/// A context that is being brought up.
#[derive(Debug)]
pub struct Bringup {
    pub purpose: Purpose,
    pub stage: Stage,
    pub width: u32,
    pub height: u32,
}

/// A call that takes the context down.
#[derive(Debug, PartialEq, Eq, Structural, Clone, Copy)]
pub enum Teardown {
    ReleaseCurrent,
    DestroySurface,
    DestroyContext,
    Terminate,
}

/// Whether the reply to a call is a failure.
pub open spec fn fails(purpose: Purpose, stage: Stage, reply: Reply) -> bool {
    match stage {
        Stage::GetDisplay | Stage::CreateContext | Stage::CreateSurface => reply.null,
        Stage::Initialize | Stage::BindApi => reply.status == EGL_FALSE,
        Stage::ChooseConfig => reply.count == 0 || (purpose == Purpose::Renderer && reply.null),
        Stage::MakeCurrent => purpose == Purpose::Renderer && reply.status == EGL_FALSE,
        Stage::Done => false,
    }
}

/// The call after one that succeeded.
pub open spec fn following(purpose: Purpose, stage: Stage) -> Stage {
    match stage {
        Stage::GetDisplay => Stage::Initialize,
        Stage::Initialize => match purpose {
            Purpose::Renderer => Stage::BindApi,
            Purpose::WebGl => Stage::ChooseConfig,
        },
        Stage::BindApi => Stage::ChooseConfig,
        Stage::ChooseConfig => Stage::CreateContext,
        Stage::CreateContext => Stage::CreateSurface,
        Stage::CreateSurface => Stage::MakeCurrent,
        Stage::MakeCurrent => Stage::Done,
        Stage::Done => Stage::Done,
    }
}

/// The attributes that a configuration must have.
pub open spec fn config_attributes(purpose: Purpose) -> Seq<i32> {
    seq![
        EGL_SURFACE_TYPE,
        match purpose {
            Purpose::Renderer => EGL_PBUFFER_BIT,
            Purpose::WebGl => EGL_PIXMAP_BIT,
        },
        EGL_RED_SIZE,
        8,
        EGL_GREEN_SIZE,
        8,
        EGL_BLUE_SIZE,
        8,
        EGL_ALPHA_SIZE,
        8,
        EGL_DEPTH_SIZE,
        24,
        EGL_STENCIL_SIZE,
        8,
        EGL_RENDERABLE_TYPE,
        EGL_OPENGL_ES2_BIT,
        EGL_NONE,
    ]
}

/// The attributes of the context.
pub open spec fn context_attributes(purpose: Purpose) -> Seq<i32> {
    seq![
        EGL_CONTEXT_CLIENT_VERSION,
        match purpose {
            Purpose::Renderer => 3i32,
            Purpose::WebGl => 2i32,
        },
        EGL_NONE,
    ]
}

/// The attributes of the surface. A size above the largest `i32` wraps around.
pub open spec fn surface_attributes(width: u32, height: u32) -> Seq<i32> {
    seq![EGL_WIDTH, width as i32, EGL_HEIGHT, height as i32, EGL_NONE]
}

/// The attributes that go with the call, none where it takes none.
pub open spec fn attributes(b: Bringup) -> Seq<i32> {
    match b.stage {
        Stage::ChooseConfig => config_attributes(b.purpose),
        Stage::CreateContext => context_attributes(b.purpose),
        Stage::CreateSurface => surface_attributes(b.width, b.height),
        _ => Seq::empty(),
    }
}

/// The name of the call that failed.
pub open spec fn call_name(stage: Stage) -> Seq<char> {
    match stage {
        Stage::GetDisplay => "eglGetDisplay"@,
        Stage::Initialize => "eglInitialize"@,
        Stage::BindApi => "eglBindAPI"@,
        Stage::ChooseConfig => "eglChooseConfig"@,
        Stage::CreateContext => "eglCreateContext"@,
        Stage::CreateSurface => "eglCreatePbufferSurface"@,
        Stage::MakeCurrent | Stage::Done => "eglMakeCurrent"@,
    }
}

/// What is reported where a call fails with this error code. For WebGL the code is
/// not reported.
pub open spec fn failure(purpose: Purpose, stage: Stage, code: i32) -> Seq<char> {
    match purpose {
        Purpose::Renderer => call_name(stage) + " failed: EGL error 0x"@ + text::hex4(
            code as u16 as nat,
        ),
        Purpose::WebGl => match stage {
            Stage::GetDisplay => "Failed to get EGL display"@,
            Stage::Initialize | Stage::BindApi => "Failed to initialize EGL"@,
            Stage::ChooseConfig => "No suitable EGL config"@,
            Stage::CreateContext => "Failed to create EGL context"@,
            Stage::CreateSurface | Stage::MakeCurrent | Stage::Done =>
                "Failed to create EGL surface"@,
        },
    }
}

/// The calls that take a context down, in their order. The renderer leaves out what
/// is not there.
pub open spec fn teardown_calls(
    purpose: Purpose,
    surface_null: bool,
    context_null: bool,
) -> Seq<Teardown> {
    let surface = if purpose == Purpose::Renderer && surface_null {
        Seq::empty()
    } else {
        seq![Teardown::DestroySurface]
    };
    let context = if purpose == Purpose::Renderer && context_null {
        Seq::empty()
    } else {
        seq![Teardown::DestroyContext]
    };
    seq![Teardown::ReleaseCurrent] + surface + context + seq![Teardown::Terminate]
}

impl Bringup {
    /// The start, before the first call.
    pub fn new(purpose: Purpose, width: u32, height: u32) -> (r: Bringup)
        ensures
            r == (Bringup { purpose, stage: Stage::GetDisplay, width, height }),
    {
        Bringup { purpose, stage: Stage::GetDisplay, width, height }
    }

    /// The attributes that go with the next call.
    pub fn attributes(&self) -> (r: Vec<i32>)
        ensures
            r@ == attributes(*self),
    {
        let out: Vec<i32> = match self.stage {
            Stage::ChooseConfig => {
                let bit: i32 = match self.purpose {
                    Purpose::Renderer => EGL_PBUFFER_BIT,
                    Purpose::WebGl => EGL_PIXMAP_BIT,
                };
                vec![
                    EGL_SURFACE_TYPE,
                    bit,
                    EGL_RED_SIZE,
                    8,
                    EGL_GREEN_SIZE,
                    8,
                    EGL_BLUE_SIZE,
                    8,
                    EGL_ALPHA_SIZE,
                    8,
                    EGL_DEPTH_SIZE,
                    24,
                    EGL_STENCIL_SIZE,
                    8,
                    EGL_RENDERABLE_TYPE,
                    EGL_OPENGL_ES2_BIT,
                    EGL_NONE,
                ]
            },
            Stage::CreateContext => {
                let version: i32 = match self.purpose {
                    Purpose::Renderer => 3,
                    Purpose::WebGl => 2,
                };
                vec![EGL_CONTEXT_CLIENT_VERSION, version, EGL_NONE]
            },
            Stage::CreateSurface => vec![
                EGL_WIDTH,
                self.width as i32,
                EGL_HEIGHT,
                self.height as i32,
                EGL_NONE,
            ],
            _ => Vec::new(),
        };
        assert(out@ =~= attributes(*self));
        out
    }

    /// Goes on after the reply to a call. Tells whether the call succeeded; after a
    /// failure nothing changes.
    pub fn step(&mut self, reply: Reply) -> (r: bool)
        ensures
            r == !fails(old(self).purpose, old(self).stage, reply),
            *final(self) == (Bringup {
                stage: if r {
                    following(old(self).purpose, old(self).stage)
                } else {
                    old(self).stage
                },
                ..*old(self)
            }),
    {
        let renderer = match self.purpose {
            Purpose::Renderer => true,
            Purpose::WebGl => false,
        };
        let failed = match self.stage {
            Stage::GetDisplay | Stage::CreateContext | Stage::CreateSurface => reply.null,
            Stage::Initialize | Stage::BindApi => reply.status == EGL_FALSE,
            Stage::ChooseConfig => reply.count == 0 || (renderer && reply.null),
            Stage::MakeCurrent => renderer && reply.status == EGL_FALSE,
            Stage::Done => false,
        };
        if failed {
            return false;
        }
        let next = match self.stage {
            Stage::GetDisplay => Stage::Initialize,
            Stage::Initialize => if renderer {
                Stage::BindApi
            } else {
                Stage::ChooseConfig
            },
            Stage::BindApi => Stage::ChooseConfig,
            Stage::ChooseConfig => Stage::CreateContext,
            Stage::CreateContext => Stage::CreateSurface,
            Stage::CreateSurface => Stage::MakeCurrent,
            Stage::MakeCurrent => Stage::Done,
            Stage::Done => Stage::Done,
        };
        self.stage = next;
        true
    }

    /// What to report where the call of this stage failed with an error code of EGL.
    pub fn failure(&self, code: i32) -> (r: String)
        ensures
            r@ == failure(self.purpose, self.stage, code),
    {
        match self.purpose {
            Purpose::Renderer => {
                let name = match self.stage {
                    Stage::GetDisplay => "eglGetDisplay",
                    Stage::Initialize => "eglInitialize",
                    Stage::BindApi => "eglBindAPI",
                    Stage::ChooseConfig => "eglChooseConfig",
                    Stage::CreateContext => "eglCreateContext",
                    Stage::CreateSurface => "eglCreatePbufferSurface",
                    Stage::MakeCurrent | Stage::Done => "eglMakeCurrent",
                };
                let digits = scan::hex4_of(code as u16);
                name.to_string().concat(" failed: EGL error 0x").concat(digits.as_str())
            },
            Purpose::WebGl => match self.stage {
                Stage::GetDisplay => "Failed to get EGL display".to_string(),
                Stage::Initialize | Stage::BindApi => "Failed to initialize EGL".to_string(),
                Stage::ChooseConfig => "No suitable EGL config".to_string(),
                Stage::CreateContext => "Failed to create EGL context".to_string(),
                Stage::CreateSurface | Stage::MakeCurrent | Stage::Done =>
                    "Failed to create EGL surface".to_string(),
            },
        }
    }
}

/// The calls that take a context down.
pub fn teardown(purpose: Purpose, surface_null: bool, context_null: bool) -> (r: Vec<Teardown>)
    ensures
        r@ == teardown_calls(purpose, surface_null, context_null),
{
    let renderer = match purpose {
        Purpose::Renderer => true,
        Purpose::WebGl => false,
    };
    let mut out: Vec<Teardown> = Vec::new();
    out.push(Teardown::ReleaseCurrent);
    if !(renderer && surface_null) {
        out.push(Teardown::DestroySurface);
    }
    if !(renderer && context_null) {
        out.push(Teardown::DestroyContext);
    }
    out.push(Teardown::Terminate);
    assert(out@ =~= teardown_calls(purpose, surface_null, context_null));
    out
}

/// The stage after `n` calls that succeeded.
pub open spec fn stage_after(purpose: Purpose, n: nat) -> Stage
    decreases n,
{
    if n == 0 {
        Stage::GetDisplay
    } else {
        following(purpose, stage_after(purpose, (n - 1) as nat))
    }
}

/// Calls that all succeed lead to a context that is current: seven for the renderer,
/// six for WebGL, which does not bind the API.
pub proof fn law_calls_lead_to_context(purpose: Purpose, n: nat)
    ensures
        stage_after(Purpose::Renderer, 7) == Stage::Done,
        stage_after(Purpose::WebGl, 6) == Stage::Done,
        n < 7 ==> stage_after(Purpose::Renderer, n) != Stage::Done,
        n < 6 ==> stage_after(Purpose::WebGl, n) != Stage::Done,
        following(purpose, Stage::Done) == Stage::Done,
{
    reveal_with_fuel(stage_after, 8);
}

/// A context is made only with a display, a configuration, a context and a surface;
/// for the renderer it is also current.
pub proof fn law_no_context_without_handles(purpose: Purpose, reply: Reply)
    ensures
        reply.null ==> fails(purpose, Stage::GetDisplay, reply) && fails(
            purpose,
            Stage::CreateContext,
            reply,
        ) && fails(purpose, Stage::CreateSurface, reply),
        reply.count == 0 ==> fails(purpose, Stage::ChooseConfig, reply),
        reply.status == EGL_FALSE ==> fails(purpose, Stage::Initialize, reply) && fails(
            Purpose::Renderer,
            Stage::MakeCurrent,
            reply,
        ),
{
}

/// A call fails by its own part of the reply alone: a call for a handle without one, a
/// call for a status with a false one, the choice of a configuration without any.
pub proof fn law_calls_fail_by_their_reply(purpose: Purpose, reply: Reply)
    ensures
        fails(purpose, Stage::GetDisplay, reply) <==> reply.null,
        fails(purpose, Stage::CreateContext, reply) <==> reply.null,
        fails(purpose, Stage::CreateSurface, reply) <==> reply.null,
        fails(purpose, Stage::Initialize, reply) <==> reply.status == 0,
        fails(purpose, Stage::BindApi, reply) <==> reply.status == 0,
        fails(Purpose::Renderer, Stage::ChooseConfig, reply) <==> reply.count == 0 || reply.null,
        fails(Purpose::WebGl, Stage::ChooseConfig, reply) <==> reply.count == 0,
        fails(Purpose::Renderer, Stage::MakeCurrent, reply) <==> reply.status == 0,
        !fails(Purpose::WebGl, Stage::MakeCurrent, reply),
        !fails(purpose, Stage::Done, reply),
{
}

/// The calls come in their order: display, start, the API for the renderer alone,
/// configuration, context, surface, and making the context current.
pub proof fn law_calls_in_order(n: nat)
    ensures
        stage_after(Purpose::Renderer, n) == if n == 0 {
            Stage::GetDisplay
        } else if n == 1 {
            Stage::Initialize
        } else if n == 2 {
            Stage::BindApi
        } else if n == 3 {
            Stage::ChooseConfig
        } else if n == 4 {
            Stage::CreateContext
        } else if n == 5 {
            Stage::CreateSurface
        } else if n == 6 {
            Stage::MakeCurrent
        } else {
            Stage::Done
        },
        stage_after(Purpose::WebGl, n) == if n == 0 {
            Stage::GetDisplay
        } else if n == 1 {
            Stage::Initialize
        } else if n == 2 {
            Stage::ChooseConfig
        } else if n == 3 {
            Stage::CreateContext
        } else if n == 4 {
            Stage::CreateSurface
        } else if n == 5 {
            Stage::MakeCurrent
        } else {
            Stage::Done
        },
    decreases n,
{
    if n > 0 {
        law_calls_in_order((n - 1) as nat);
    }
}

/// A configuration is asked for a pbuffer or a pixmap, eight bits of each colour and of
/// alpha, 24 bits of depth, eight of stencil and version 2 of OpenGL ES; a context for
/// version 3 or 2; a surface for its width and height. Each list ends with the mark, and
/// no other call has one.
pub proof fn law_attributes_of_calls(b: Bringup)
    ensures
        b.stage == Stage::ChooseConfig ==> attributes(b) == seq![
            0x3033i32,
            if b.purpose == Purpose::Renderer {
                1i32
            } else {
                2i32
            },
            0x3024i32,
            8i32,
            0x3023i32,
            8i32,
            0x3022i32,
            8i32,
            0x3021i32,
            8i32,
            0x3025i32,
            24i32,
            0x3026i32,
            8i32,
            0x3040i32,
            4i32,
            0x3038i32,
        ],
        b.stage == Stage::CreateContext ==> attributes(b) == seq![
            0x3098i32,
            if b.purpose == Purpose::Renderer {
                3i32
            } else {
                2i32
            },
            0x3038i32,
        ],
        b.stage == Stage::CreateSurface ==> attributes(b).len() == 5 && attributes(b)[0] == 0x3057
            && attributes(b)[2] == 0x3056 && attributes(b)[4] == 0x3038,
        b.stage == Stage::CreateSurface && b.width <= i32::MAX ==> attributes(b)[1] == b.width,
        b.stage == Stage::CreateSurface && b.height <= i32::MAX ==> attributes(b)[3] == b.height,
        b.stage != Stage::ChooseConfig && b.stage != Stage::CreateContext && b.stage
            != Stage::CreateSurface ==> attributes(b) == Seq::<i32>::empty(),
{
    let w = b.width;
    let h = b.height;
    assert(w <= 0x7fff_ffff ==> w as i32 == w) by (bit_vector);
    assert(h <= 0x7fff_ffff ==> h as i32 == h) by (bit_vector);
}

/// A size above the largest one wraps around.
pub proof fn law_large_sizes_wrap(width: u32, height: u32)
    ensures
        surface_attributes(width, height)[1] == if width <= i32::MAX {
            width as int
        } else {
            width - 0x1_0000_0000
        },
        surface_attributes(width, height)[3] == if height <= i32::MAX {
            height as int
        } else {
            height - 0x1_0000_0000
        },
{
    assert(width <= 0x7fff_ffff ==> width as i32 == width) by (bit_vector);
    assert(height <= 0x7fff_ffff ==> height as i32 == height) by (bit_vector);
    assert(width > 0x7fff_ffff ==> width as i32 == width - 0x1_0000_0000) by (bit_vector);
    assert(height > 0x7fff_ffff ==> height as i32 == height - 0x1_0000_0000) by (bit_vector);
}

/// The renderer tells the call that failed and the code of the error as four hexadecimal
/// digits, which write its lower 16 bits.
pub proof fn law_renderer_tells_call_and_code(code: i32, low: u16)
    requires
        low == code & 0xffff,
    ensures
        failure(Purpose::Renderer, Stage::GetDisplay, code) == "eglGetDisplay"@
            + " failed: EGL error 0x"@ + text::hex4(low as nat),
        failure(Purpose::Renderer, Stage::Initialize, code) == "eglInitialize"@
            + " failed: EGL error 0x"@ + text::hex4(low as nat),
        failure(Purpose::Renderer, Stage::BindApi, code) == "eglBindAPI"@
            + " failed: EGL error 0x"@ + text::hex4(low as nat),
        failure(Purpose::Renderer, Stage::ChooseConfig, code) == "eglChooseConfig"@
            + " failed: EGL error 0x"@ + text::hex4(low as nat),
        failure(Purpose::Renderer, Stage::CreateContext, code) == "eglCreateContext"@
            + " failed: EGL error 0x"@ + text::hex4(low as nat),
        failure(Purpose::Renderer, Stage::CreateSurface, code) == "eglCreatePbufferSurface"@
            + " failed: EGL error 0x"@ + text::hex4(low as nat),
        failure(Purpose::Renderer, Stage::MakeCurrent, code) == "eglMakeCurrent"@
            + " failed: EGL error 0x"@ + text::hex4(low as nat),
        failure(Purpose::Renderer, Stage::Done, code) == "eglMakeCurrent"@
            + " failed: EGL error 0x"@ + text::hex4(low as nat),
{
    assert(low == code & 0xffff ==> code as u16 == low) by (bit_vector);
}

/// For WebGL what was wanted is told, whatever the code of the error.
pub proof fn law_webgl_tells_what_was_wanted(code: i32)
    ensures
        failure(Purpose::WebGl, Stage::GetDisplay, code) == "Failed to get EGL display"@,
        failure(Purpose::WebGl, Stage::Initialize, code) == "Failed to initialize EGL"@,
        failure(Purpose::WebGl, Stage::ChooseConfig, code) == "No suitable EGL config"@,
        failure(Purpose::WebGl, Stage::CreateContext, code) == "Failed to create EGL context"@,
        failure(Purpose::WebGl, Stage::CreateSurface, code) == "Failed to create EGL surface"@,
        failure(Purpose::WebGl, Stage::BindApi, code) == "Failed to initialize EGL"@,
        failure(Purpose::WebGl, Stage::MakeCurrent, code) == "Failed to create EGL surface"@,
        failure(Purpose::WebGl, Stage::Done, code) == "Failed to create EGL surface"@,
{
}

/// A context is released first and the display ended last. Between them the surface is
/// destroyed and then the context; the renderer leaves out the one that is not there, and
/// WebGL neither.
pub proof fn law_teardown_in_order(surface_null: bool, context_null: bool)
    ensures
        teardown_calls(Purpose::WebGl, surface_null, context_null) == seq![
            Teardown::ReleaseCurrent,
            Teardown::DestroySurface,
            Teardown::DestroyContext,
            Teardown::Terminate,
        ],
        teardown_calls(Purpose::Renderer, false, false) == seq![
            Teardown::ReleaseCurrent,
            Teardown::DestroySurface,
            Teardown::DestroyContext,
            Teardown::Terminate,
        ],
        teardown_calls(Purpose::Renderer, true, false) == seq![
            Teardown::ReleaseCurrent,
            Teardown::DestroyContext,
            Teardown::Terminate,
        ],
        teardown_calls(Purpose::Renderer, false, true) == seq![
            Teardown::ReleaseCurrent,
            Teardown::DestroySurface,
            Teardown::Terminate,
        ],
        teardown_calls(Purpose::Renderer, true, true) == seq![
            Teardown::ReleaseCurrent,
            Teardown::Terminate,
        ],
{
}

} // verus!
