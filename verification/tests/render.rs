use obscura::js::webgl::{can_read, pixel_buffer};
use obscura::render_gpu::display_list::{DisplayItem, DisplayListBuilder};
use obscura::render_gpu::egl_context::{teardown, Bringup, Purpose, Reply, Stage, Teardown};
use obscura::render_gpu::gpu_renderer::{GpuRenderer, RenderError, RendererState};

const FINE: Reply = Reply { null: false, status: 1, count: 1 };

#[test]
fn display_lists_keep_the_order() {
    let mut b = DisplayListBuilder::new();
    b.push_rect(1.0f32, 2.0, 3.0, 4.0, [1, 2, 3, 4]);
    b.push_text(5.0, 6.0, "hi", 7.0, [0; 4]);
    let items = b.build();
    assert_eq!(b.build().len(), 2);
    match &items[0] {
        DisplayItem::Rect { x, height, color, .. } => {
            assert_eq!((*x, *height, *color), (1.0, 4.0, [1, 2, 3, 4]));
        }
        _ => panic!(),
    }
    match &items[1] {
        DisplayItem::Text { text, font_size, .. } => {
            assert_eq!((text.as_str(), *font_size), ("hi", 7.0));
        }
        _ => panic!(),
    }
}

#[test]
fn nested_items_are_copied() {
    let image = DisplayItem::Image { x: 0, y: 0, width: 1, height: 1, data: vec![9] };
    let clip = DisplayItem::Clip { x: 0, y: 0, width: 1, height: 1, items: vec![image] };
    let turned = DisplayItem::Transform { matrix: [1, 2, 3, 4, 5, 6], items: vec![clip] };
    let faded = DisplayItem::Opacity { opacity: 5, items: vec![turned] };
    assert_eq!(format!("{:?}", faded.clone()), format!("{:?}", faded));
}

#[test]
fn rendering_needs_a_start() {
    let mut r = GpuRenderer::new(2, 3, 1.0f32);
    assert_eq!(r.get_state(), RendererState::Uninitialized);
    match r.render() {
        Err(e) => assert_eq!(e.message(), "Render failed: Renderer not ready"),
        Ok(_) => panic!(),
    }
    r.initialize().unwrap();
    assert_eq!(r.get_state(), RendererState::Ready);
    assert_eq!(r.render().unwrap(), vec![0u8; 24]);
    r.resize(0, 7).unwrap();
    r.set_device_pixel_ratio(2.0);
    assert_eq!(r.dimensions(), (0, 7));
    assert_eq!(r.render().unwrap().len(), 0);
}

#[test]
fn pictures_that_are_too_large() {
    assert!(GpuRenderer::new(65535, 16384, ()).picture_fits());
    assert!(!GpuRenderer::new(65536, 16384, ()).picture_fits());
    assert!(!GpuRenderer::new(u32::MAX, u32::MAX, ()).picture_fits());
}

#[test]
fn render_errors_say_what_they_are() {
    let s = || "x".to_string();
    assert_eq!(RenderError::InitError(s()).message(), "GPU initialization failed: x");
    assert_eq!(RenderError::BuildError(s()).message(), "Display list build failed: x");
    assert_eq!(RenderError::SurfaceLost(s()).message(), "Surface lost: x");
}

#[test]
fn a_renderer_context_comes_up_in_seven_calls() {
    let mut b = Bringup::new(Purpose::Renderer, 640, u32::MAX);
    let mut stages = vec![];
    while b.stage != Stage::Done {
        stages.push(b.stage);
        match b.stage {
            Stage::ChooseConfig => assert_eq!(
                b.attributes(),
                vec![
                    0x3033, 1, 0x3024, 8, 0x3023, 8, 0x3022, 8, 0x3021, 8, 0x3025, 24, 0x3026, 8,
                    0x3040, 4, 0x3038
                ]
            ),
            Stage::CreateContext => assert_eq!(b.attributes(), vec![0x3098, 3, 0x3038]),
            Stage::CreateSurface => {
                assert_eq!(b.attributes(), vec![0x3057, 640, 0x3056, -1, 0x3038]);
            }
            _ => assert!(b.attributes().is_empty()),
        }
        assert!(b.step(FINE));
    }
    assert_eq!(
        stages,
        vec![
            Stage::GetDisplay, Stage::Initialize, Stage::BindApi, Stage::ChooseConfig,
            Stage::CreateContext, Stage::CreateSurface, Stage::MakeCurrent
        ]
    );
}

#[test]
fn a_webgl_context_comes_up_in_six_calls() {
    let mut b = Bringup::new(Purpose::WebGl, 1, 1);
    let mut calls = 0;
    while b.stage != Stage::Done {
        if b.stage == Stage::ChooseConfig {
            assert_eq!(b.attributes()[1], 2);
        }
        if b.stage == Stage::CreateContext {
            assert_eq!(b.attributes()[1], 2);
        }
        assert!(b.stage != Stage::BindApi);
        let reply = if b.stage == Stage::MakeCurrent { Reply { status: 0, ..FINE } } else { FINE };
        assert!(b.step(reply));
        calls += 1;
    }
    assert_eq!(calls, 6);
}

#[test]
fn failed_calls_are_reported() {
    let mut b = Bringup::new(Purpose::Renderer, 1, 1);
    assert!(!b.step(Reply { null: true, ..FINE }));
    assert_eq!(b.failure(0x3001), "eglGetDisplay failed: EGL error 0x3001");
    b.step(FINE);
    assert!(!b.step(Reply { status: 0, ..FINE }));
    assert_eq!(b.failure(0x1000a), "eglInitialize failed: EGL error 0x000a");
    b.step(FINE);
    assert_eq!(b.failure(-1), "eglBindAPI failed: EGL error 0xffff");
    b.step(FINE);
    assert!(!b.step(Reply { count: 0, ..FINE }));
    assert!(!b.step(Reply { null: true, ..FINE }));
    assert_eq!(b.failure(0), "eglChooseConfig failed: EGL error 0x0000");
    b.step(FINE);
    assert_eq!(b.failure(1), "eglCreateContext failed: EGL error 0x0001");
    b.step(FINE);
    assert_eq!(b.failure(1), "eglCreatePbufferSurface failed: EGL error 0x0001");
    b.step(FINE);
    assert!(!b.step(Reply { status: 0, ..FINE }));
    assert_eq!(b.failure(1), "eglMakeCurrent failed: EGL error 0x0001");
}

#[test]
fn failed_webgl_calls_are_reported() {
    let mut b = Bringup::new(Purpose::WebGl, 1, 1);
    assert_eq!(b.failure(1), "Failed to get EGL display");
    b.step(FINE);
    assert_eq!(b.failure(1), "Failed to initialize EGL");
    b.step(FINE);
    assert_eq!(b.failure(1), "No suitable EGL config");
    b.step(Reply { null: true, ..FINE });
    assert_eq!(b.failure(1), "Failed to create EGL context");
    b.step(FINE);
    assert_eq!(b.failure(1), "Failed to create EGL surface");
}

#[test]
fn contexts_are_taken_down_in_order() {
    let all = vec![
        Teardown::ReleaseCurrent, Teardown::DestroySurface, Teardown::DestroyContext,
        Teardown::Terminate,
    ];
    assert_eq!(teardown(Purpose::Renderer, false, false), all);
    assert_eq!(teardown(Purpose::WebGl, true, true), all);
    assert_eq!(
        teardown(Purpose::Renderer, true, true),
        vec![Teardown::ReleaseCurrent, Teardown::Terminate]
    );
}

#[test]
fn pixels_are_read_into_four_bytes_each() {
    assert_eq!(pixel_buffer(2, 3), vec![0u8; 24]);
    assert_eq!(pixel_buffer(-1, -1).len(), 4);
    assert!(can_read(0, -5));
    assert!(!can_read(-1, 1));
    assert!(can_read(0x1fff_ffff, 1));
    assert!(!can_read(0x2000_0000, 1));
    assert!(!can_read(i32::MIN, i32::MIN));
}
