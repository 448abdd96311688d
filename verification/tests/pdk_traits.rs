use dioxus_extism::pdk::{text, DioxusPlugin, PdkError, PluginCtx, SlotProvider};
use dioxus_extism::protocol::{PluginId, PluginManifest, SessionCtx};
use dioxus_extism::viewtree::PluginView;

struct Hello;

impl DioxusPlugin for Hello {
    fn manifest() -> PluginManifest {
        let mut m = PluginManifest::default();
        m.id = PluginId("acme/hello".to_string());
        m
    }
}

impl SlotProvider for Hello {
    const SLOT_NAME: &'static str = "header";

    fn render(ctx: &PluginCtx) -> Result<PluginView, PdkError> {
        if ctx.session.user_id.is_some() {
            Ok(text("hello, user"))
        } else {
            Err(PdkError::Custom("anonymous".to_string()))
        }
    }
}

#[test]
fn a_plugin_implements_the_slot_trait() {
    assert_eq!(Hello::SLOT_NAME, "header");
    assert_eq!(Hello::manifest().id.0, "acme/hello");
    let anon = PluginCtx::from_session(SessionCtx::default());
    assert!(matches!(Hello::render(&anon), Err(PdkError::Custom(m)) if m == "anonymous"));
    let mut s = SessionCtx::default();
    s.user_id = Some("u1".to_string());
    assert_eq!(Hello::render(&PluginCtx::from_session(s)).unwrap(), PluginView::Text("hello, user".to_string()));
}
