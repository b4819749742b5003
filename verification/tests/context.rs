use chromist::context::{
    close_plan, is_default, matches_context, page_target_ids, session_belongs_to_context, targets_in_context,
    TargetEntry,
};
use chromist::error::CdpError;

fn entry(id: &str, kind: &str, ctx: Option<&str>, session: Option<&str>) -> TargetEntry {
    TargetEntry {
        target_id: id.to_string(),
        target_type: kind.to_string(),
        browser_context_id: ctx.map(|c| c.to_string()),
        session_id: session.map(|s| s.to_string()),
    }
}

fn entries() -> Vec<TargetEntry> {
    vec![
        entry("T-1", "page", Some("CTX-1"), Some("S-1")),
        entry("T-2", "page", None, Some("S-2")),
        entry("W-1", "service_worker", Some("CTX-1"), None),
        entry("T-3", "page", Some("CTX-1"), None),
        entry("T-4", "page", Some("CTX-2"), Some("S-4")),
    ]
}

#[test]
fn close_default_context_returns_typed_error() {
    let r = close_plan(&None, &entries());
    assert!(matches!(r, Err(CdpError::CannotCloseDefaultContext)));
}

#[test]
fn close_disposes_pages_then_context() {
    let plan = close_plan(&Some("CTX-1".to_string()), &entries()).expect("a context can be closed");
    assert_eq!(plan.close_targets, vec!["T-1", "T-3"]);
    assert_eq!(plan.dispose, "CTX-1");
}

#[test]
fn targets_belong_to_their_own_context_only() {
    assert!(matches_context(&None, &None));
    assert!(matches_context(&Some("A".to_string()), &Some("A".to_string())));
    assert!(!matches_context(&Some("A".to_string()), &Some("B".to_string())));
    assert!(!matches_context(&None, &Some("A".to_string())));
    assert!(!matches_context(&Some("A".to_string()), &None));
    assert!(is_default(&None));
    assert!(!is_default(&Some("A".to_string())));
    assert_eq!(page_target_ids(&None, &entries()), vec!["T-2"]);
    assert_eq!(targets_in_context(&Some("CTX-1".to_string()), &entries(), "service_worker"), vec!["W-1"]);
}

#[test]
fn sessions_are_matched_to_their_context() {
    let es = entries();
    assert!(session_belongs_to_context(&Some("CTX-1".to_string()), &es, "S-1"));
    assert!(!session_belongs_to_context(&Some("CTX-1".to_string()), &es, "S-2"));
    assert!(session_belongs_to_context(&None, &es, "S-2"));
    assert!(!session_belongs_to_context(&Some("CTX-2".to_string()), &es, "S-1"));
    assert!(!session_belongs_to_context(&Some("CTX-1".to_string()), &es, "S-9"));
}
