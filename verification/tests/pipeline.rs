use obscura::browser::pipeline::{Constellation, PipelineState};

#[test]
fn create_and_get_pipeline() {
    let mut c = Constellation::new();
    let id = c.create_pipeline("https://example.com", None);
    let p = c.get_pipeline(id).unwrap();
    assert_eq!(p.url, "https://example.com");
    assert_eq!(p.state, PipelineState::Loading);
}

#[test]
fn parent_child_relationship() {
    let mut c = Constellation::new();
    let parent = c.create_pipeline("https://a.com", None);
    let child = c.create_pipeline("https://b.com", Some(parent));
    assert_eq!(c.children_of(parent), vec![child]);
    assert_eq!(c.root_of(child), Some(parent));
}

#[test]
fn state_and_title_updates() {
    let mut c = Constellation::new();
    let id = c.create_pipeline("https://a.com", None);
    assert!(c.set_state(id, PipelineState::Complete));
    assert!(c.set_title(id, "My Page"));
    let p = c.get_pipeline(id).unwrap();
    assert_eq!(p.state, PipelineState::Complete);
    assert_eq!(p.title, "My Page");
    assert!(p.is_ready());
}

#[test]
fn close_removes_children() {
    let mut c = Constellation::new();
    let parent = c.create_pipeline("https://a.com", None);
    let child = c.create_pipeline("https://b.com", Some(parent));
    c.close_pipeline(parent);
    assert!(c.get_pipeline(parent).is_none());
    assert!(c.get_pipeline(child).is_none());
    assert_eq!(c.len(), 0);
}

#[test]
fn list_pipelines_in_order() {
    let mut c = Constellation::new();
    let a = c.create_pipeline("https://a.com", None);
    let b = c.create_pipeline("https://b.com", None);
    assert_eq!(c.list_pipelines(), vec![a, b]);
}

#[test]
fn many_pipelines_are_listed_in_order() {
    let mut c = Constellation::default();
    assert!(c.has_room());
    for _ in 0..50 {
        c.create_pipeline("about:blank", None);
    }
    c.close_pipeline(20);
    let expected: Vec<u32> = (1..=50).filter(|&i| i != 20).collect();
    assert_eq!(c.list_pipelines(), expected);
    assert_eq!(c.create_pipeline("x", None), 51);
}

#[test]
fn navigation_starts_to_load() {
    let mut c = Constellation::new();
    let id = c.create_pipeline("https://a.com", None);
    c.set_state(id, PipelineState::Error("gone".to_string()));
    assert!(c.get_pipeline(id).unwrap().is_error());
    assert!(!c.get_pipeline(id).unwrap().is_ready());
    assert!(c.navigate(id, "https://b.com"));
    assert_eq!(c.get_pipeline(id).unwrap().state, PipelineState::Loading);
    assert_eq!(c.get_pipeline(id).unwrap().url, "https://b.com");
    assert!(!c.get_pipeline(id).unwrap().is_error());
    c.set_state(id, PipelineState::Interactive);
    assert!(c.get_pipeline(id).unwrap().is_ready());
}

#[test]
fn unknown_pipelines_are_left_alone() {
    let mut c = Constellation::new();
    assert!(!c.navigate(9, "x"));
    assert!(!c.set_state(9, PipelineState::Complete));
    assert!(!c.set_title(9, "t"));
    assert!(c.children_of(9).is_empty());
    assert_eq!(c.root_of(9), Some(9));
    c.close_pipeline(9);
    assert_eq!(c.len(), 0);
}

#[test]
fn closing_a_child_tells_its_parent() {
    let mut c = Constellation::new();
    let a = c.create_pipeline("a", None);
    let b = c.create_pipeline("b", Some(a));
    let d = c.create_pipeline("d", Some(b));
    let e = c.create_pipeline("e", Some(d));
    assert_eq!(c.root_of(e), Some(a));
    let f = c.create_pipeline("f", Some(a));
    c.close_pipeline(b);
    assert_eq!(c.children_of(a), vec![f]);
    assert_eq!(c.list_pipelines(), vec![a, f]);
    assert!(c.get_pipeline(e).is_none());
    assert_eq!(c.root_of(f), Some(a));
}

#[test]
fn closing_removes_all_that_descend() {
    let mut c = Constellation::new();
    let a = c.create_pipeline("a", None);
    let b = c.create_pipeline("b", Some(a));
    let g = c.create_pipeline("g", Some(b));
    c.close_pipeline(a);
    assert_eq!(c.len(), 0);
    assert!(c.get_pipeline(g).is_none());
}

#[test]
fn ways_up_that_do_not_end() {
    let mut c = Constellation::new();
    let own = c.create_pipeline("own parent", Some(1));
    assert_eq!(c.children_of(own), vec![own]);
    assert!(!c.has_root(own));
    let child = c.create_pipeline("child", Some(own));
    assert!(!c.has_root(child));
    let apart = c.create_pipeline("apart", Some(40));
    assert!(c.has_root(apart));
    assert_eq!(c.root_of(apart), Some(40));
    c.close_pipeline(own);
    assert_eq!(c.list_pipelines(), vec![apart]);
}
