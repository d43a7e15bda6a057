use agentmem_core::CfName;

#[test]
fn column_family_names() {
    assert_eq!(CfName::Default.as_str(), "default");
    assert_eq!(CfName::Episodic.as_str(), "episodic");
    assert_eq!(CfName::Structured.as_str(), "structured");
    assert_eq!(CfName::SemanticMeta.as_str(), "semantic_meta");
}
