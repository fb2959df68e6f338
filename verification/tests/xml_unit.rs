use ldoce5viewer_tui::content::xml::{parse_xml, XmlNode};

fn show(nodes: &[XmlNode]) -> Vec<String> {
    nodes
        .iter()
        .map(|n| match n {
            XmlNode::Open { tag, attrs } => {
                let a: Vec<String> = attrs.iter().map(|(k, v)| format!("{k}={v}")).collect();
                format!("<{tag} {}>", a.join(","))
            }
            XmlNode::Close { tag } => format!("</{tag}>"),
            XmlNode::Text(t) => format!("'{t}'"),
        })
        .collect()
}

#[test]
fn xml_nodes_in_document_order() {
    let nodes = parse_xml(b"<a x=\"1\" y=\"&lt;\"><b/>hi &amp; you<!-- note --></a>");
    assert_eq!(show(&nodes), vec!["<a x=1,y=<>", "<b >", "</b>", "'hi & you'", "</a>"]);
}

#[test]
fn xml_empty_input_gives_no_nodes() {
    assert!(parse_xml(b"").is_empty());
}
