use chromist::frame_tree::{FrameInfo, FrameTree, FrameTreeNode, PageEvent, RuntimeEvent, UTILITY_WORLD_NAME};

fn navigated(id: &str, parent: Option<&str>, url: &str) -> PageEvent {
    PageEvent::FrameNavigated {
        frame: FrameInfo {
            id: id.to_string(),
            parent_id: parent.map(|p| p.to_string()),
            url: url.to_string(),
            name: None,
        },
    }
}

fn ctx_created(frame_id: &str, ctx_id: i64, is_default: bool, name: &str) -> RuntimeEvent {
    RuntimeEvent::ContextCreated {
        id: ctx_id,
        name: name.to_string(),
        frame_id: Some(frame_id.to_string()),
        is_default,
    }
}

#[test]
fn frame_navigated_sets_main_frame() {
    let mut tree = FrameTree::new();
    tree.apply_page_event(&navigated("F-1", None, "https://a.com"));
    let main = tree.main_frame().expect("main frame set");
    assert_eq!(main.id, "F-1");
    assert_eq!(main.url, "https://a.com");
}

#[test]
fn child_frame_attached_and_navigated() {
    let mut tree = FrameTree::new();
    tree.apply_page_event(&navigated("root", None, "https://a.com"));
    tree.apply_page_event(&PageEvent::FrameAttached {
        frame_id: "child".into(),
        parent_frame_id: "root".into(),
    });
    tree.apply_page_event(&navigated("child", Some("root"), "https://b.com"));
    assert_eq!(tree.frames.len(), 2);
    let child = tree.get(&"child".to_string()).unwrap();
    assert_eq!(child.url, "https://b.com");
    assert_eq!(child.parent_id.as_ref().unwrap(), "root");
}

#[test]
fn frame_detached_removes_entry() {
    let mut tree = FrameTree::new();
    tree.apply_page_event(&navigated("root", None, "https://a.com"));
    tree.apply_page_event(&PageEvent::FrameAttached {
        frame_id: "child".into(),
        parent_frame_id: "root".into(),
    });
    tree.apply_page_event(&PageEvent::FrameDetached { frame_id: "child".into() });
    assert!(tree.get(&"child".to_string()).is_none());
    assert!(tree.main_frame().is_some());
}

#[test]
fn loading_flag_toggled() {
    let mut tree = FrameTree::new();
    tree.apply_page_event(&navigated("F", None, "https://a.com"));
    tree.apply_page_event(&PageEvent::FrameStartedLoading { frame_id: "F".into() });
    assert!(tree.main_frame().unwrap().loading);
    tree.apply_page_event(&PageEvent::FrameStoppedLoading { frame_id: "F".into() });
    assert!(!tree.main_frame().unwrap().loading);
}

#[test]
fn context_created_sets_main_and_utility_ctx() {
    let mut tree = FrameTree::new();
    tree.apply_page_event(&navigated("F", None, "https://a.com"));
    tree.apply_runtime_event(&ctx_created("F", 1, true, ""));
    tree.apply_runtime_event(&ctx_created("F", 2, false, UTILITY_WORLD_NAME));
    let entry = tree.main_frame().unwrap();
    assert_eq!(entry.main_ctx.unwrap(), 1);
    assert_eq!(entry.utility_ctx.unwrap(), 2);
}

#[test]
fn context_destroyed_clears_entry() {
    let mut tree = FrameTree::new();
    tree.apply_page_event(&navigated("F", None, "https://a.com"));
    tree.apply_runtime_event(&ctx_created("F", 1, true, ""));
    tree.apply_runtime_event(&RuntimeEvent::ContextDestroyed { id: 1 });
    assert!(tree.main_frame().unwrap().main_ctx.is_none());
}

#[test]
fn contexts_cleared_wipes_all_contexts() {
    let mut tree = FrameTree::new();
    tree.apply_page_event(&navigated("F", None, "https://a.com"));
    tree.apply_runtime_event(&ctx_created("F", 1, true, ""));
    tree.apply_runtime_event(&RuntimeEvent::ContextsCleared);
    assert!(tree.main_frame().unwrap().main_ctx.is_none());
    assert!(tree.ctx_to_frame.is_empty());
}

#[test]
fn navigation_invalidates_old_contexts() {
    let mut tree = FrameTree::new();
    tree.apply_page_event(&navigated("F", None, "https://a.com"));
    tree.apply_runtime_event(&ctx_created("F", 1, true, ""));
    tree.apply_page_event(&navigated("F", None, "https://b.com"));
    assert!(tree.main_frame().unwrap().main_ctx.is_none());
    assert!(tree.ctx_to_frame.is_empty());
}

#[test]
fn seed_populates_main_and_child_frames() {
    let mut tree = FrameTree::new();
    let cdp_tree = FrameTreeNode {
        frame: FrameInfo { id: "root".into(), parent_id: None, url: "https://a.com".into(), name: None },
        child_frames: None,
    };
    tree.seed(&cdp_tree);
    assert_eq!(tree.main_frame().unwrap().id, "root");
}

#[test]
fn seed_records_children_under_their_parent() {
    let mut tree = FrameTree::new();
    let leaf = |id: &str| FrameTreeNode {
        frame: FrameInfo { id: id.into(), parent_id: None, url: format!("https://{id}/"), name: None },
        child_frames: None,
    };
    let cdp_tree = FrameTreeNode {
        frame: FrameInfo { id: "root".into(), parent_id: None, url: "https://a.com".into(), name: None },
        child_frames: Some(vec![leaf("c1"), leaf("c2")]),
    };
    tree.seed(&cdp_tree);
    assert_eq!(tree.all().len(), 3);
    let kids = tree.children_of(&"root".to_string());
    assert_eq!(kids.len(), 2);
    assert_eq!(tree.get(&"c2".to_string()).unwrap().parent_id.as_deref(), Some("root"));
}

#[test]
fn utility_context_of_unknown_frame_is_none() {
    let mut tree = FrameTree::new();
    tree.apply_runtime_event(&ctx_created("F", 9, false, "some other world"));
    assert!(tree.get(&"F".to_string()).is_none());
    tree.apply_runtime_event(&ctx_created("F", 9, false, UTILITY_WORLD_NAME));
    assert_eq!(tree.utility_ctx_for_frame(&"F".to_string()), Some(9));
    assert_eq!(tree.utility_ctx_for_frame(&"G".to_string()), None);
}
