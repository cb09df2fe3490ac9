use opcua_walker::codec::{format_node_id, node_id_before, parse_node_id, CodecError};
use opcua_walker::ids::{Identifier, NodeId};

fn num_id(ns: u16, v: u32) -> NodeId {
    NodeId { namespace: ns, identifier: Identifier::Numeric(v) }
}

fn text_id(ns: u16, s: &str) -> NodeId {
    NodeId { namespace: ns, identifier: Identifier::Text(s.to_string()) }
}

#[test]
fn parses_string_identifier() {
    let id = parse_node_id("ns=2;s=Boiler.Status").unwrap();
    assert_eq!(id, text_id(2, "Boiler.Status"));
}

#[test]
fn formats_string_identifier_back_to_the_same_text() {
    let id = parse_node_id("ns=2;s=Boiler.Status").unwrap();
    assert_eq!(format_node_id(&id), "ns=2;s=Boiler.Status");
}

#[test]
fn parses_numeric_identifier() {
    assert_eq!(parse_node_id("ns=0;i=85").unwrap(), num_id(0, 85));
    assert_eq!(parse_node_id("ns=3;i=42").unwrap(), num_id(3, 42));
}

#[test]
fn parses_bare_decimal_shorthand() {
    assert_eq!(parse_node_id("85").unwrap(), num_id(0, 85));
}

#[test]
fn parses_shorthand_tags_without_namespace() {
    assert_eq!(parse_node_id("i=85").unwrap(), num_id(0, 85));
    assert_eq!(parse_node_id("s=hello").unwrap(), text_id(0, "hello"));
}

#[test]
fn accepts_upper_case_tags() {
    assert_eq!(parse_node_id("NS=3;I=42").unwrap(), num_id(3, 42));
    assert_eq!(parse_node_id("Ns=2;S=abc").unwrap(), text_id(2, "abc"));
}

#[test]
fn string_payload_may_contain_semicolons() {
    assert_eq!(parse_node_id("ns=2;s=a;b=c").unwrap(), text_id(2, "a;b=c"));
}

#[test]
fn numeric_round_trip() {
    let id = num_id(7, 4294967295);
    assert_eq!(parse_node_id(&format_node_id(&id)).unwrap(), id);
}

#[test]
fn string_round_trip() {
    let id = text_id(65535, "Tank 3 / Sensor;s=x");
    assert_eq!(parse_node_id(&format_node_id(&id)).unwrap(), id);
}

#[test]
fn guid_round_trip_and_lower_case_canonical_form() {
    let id = parse_node_id("ns=1;g=72962B91-FA75-4AE6-8D28-B404DC7DAF63").unwrap();
    let text = format_node_id(&id);
    assert_eq!(text, "ns=1;g=72962b91-fa75-4ae6-8d28-b404dc7daf63");
    assert_eq!(parse_node_id(&text).unwrap(), id);
    match &id.identifier {
        Identifier::Guid(g) => {
            assert_eq!(g.len(), 16);
            assert_eq!(g[0], 0x72);
            assert_eq!(g[15], 0x63);
        }
        other => panic!("expected a GUID identifier, got {:?}", other),
    }
}

#[test]
fn byte_string_round_trip_through_base64() {
    let id = NodeId { namespace: 4, identifier: Identifier::Bytes(vec![1, 2, 3]) };
    let text = format_node_id(&id);
    assert_eq!(text, "ns=4;b=AQID");
    assert_eq!(parse_node_id(&text).unwrap(), id);
}

#[test]
fn empty_byte_string_round_trip() {
    let id = NodeId { namespace: 1, identifier: Identifier::Bytes(Vec::new()) };
    let text = format_node_id(&id);
    assert_eq!(text, "ns=1;b=");
    assert_eq!(parse_node_id(&text).unwrap(), id);
}

#[test]
fn well_known_names_resolve_to_standard_identifiers() {
    assert_eq!(parse_node_id("objects").unwrap(), num_id(0, 85));
    assert_eq!(parse_node_id("ObjectsFolder").unwrap(), num_id(0, 85));
    assert_eq!(parse_node_id("ROOT").unwrap(), num_id(0, 84));
    assert_eq!(parse_node_id("types").unwrap(), num_id(0, 86));
    assert_eq!(parse_node_id("TypesFolder").unwrap(), num_id(0, 86));
    assert_eq!(parse_node_id("views").unwrap(), num_id(0, 87));
    assert_eq!(parse_node_id("ViewsFolder").unwrap(), num_id(0, 87));
    assert_eq!(parse_node_id("Server").unwrap(), num_id(0, 2253));
}

#[test]
fn malformed_namespace_is_rejected() {
    assert_eq!(parse_node_id("ns=;i=1"), Err(CodecError::InvalidIdentifierSyntax));
    assert_eq!(parse_node_id("ns=70000;i=1"), Err(CodecError::InvalidIdentifierSyntax));
    assert_eq!(parse_node_id("ns=x;i=1"), Err(CodecError::InvalidIdentifierSyntax));
    assert_eq!(parse_node_id("ns=2"), Err(CodecError::InvalidIdentifierSyntax));
}

#[test]
fn unknown_tag_is_rejected() {
    assert_eq!(parse_node_id("ns=2;x=4"), Err(CodecError::InvalidIdentifierSyntax));
    assert_eq!(parse_node_id("nonsense"), Err(CodecError::InvalidIdentifierSyntax));
    assert_eq!(parse_node_id(""), Err(CodecError::InvalidIdentifierSyntax));
}

#[test]
fn numeric_overflow_is_rejected() {
    assert_eq!(parse_node_id("ns=2;i="), Err(CodecError::InvalidIdentifierSyntax));
    assert_eq!(parse_node_id("ns=2;i=4294967296"), Err(CodecError::InvalidIdentifierSyntax));
    assert_eq!(parse_node_id("ns=2;i=99999999999999"), Err(CodecError::InvalidIdentifierSyntax));
}

#[test]
fn malformed_guid_is_rejected() {
    assert_eq!(parse_node_id("ns=1;g=xyz"), Err(CodecError::InvalidIdentifierSyntax));
    assert_eq!(
        parse_node_id("ns=1;g=72962B91FA754AE68D28B404DC7DAF63"),
        Err(CodecError::InvalidIdentifierSyntax)
    );
    assert_eq!(
        parse_node_id("ns=1;g=72962B91-FA75-4AE6-8D28-B404DC7DAF6Z"),
        Err(CodecError::InvalidIdentifierSyntax)
    );
}

#[test]
fn invalid_base64_is_rejected() {
    assert_eq!(parse_node_id("ns=1;b=!!!"), Err(CodecError::InvalidIdentifierSyntax));
    assert_eq!(parse_node_id("ns=1;b=AQI"), Err(CodecError::InvalidIdentifierSyntax));
}

#[test]
fn shorthand_does_not_accept_guid_or_byte_tags() {
    assert!(parse_node_id("g=72962B91-FA75-4AE6-8D28-B404DC7DAF63").is_err());
    assert!(parse_node_id("b=AQID").is_err());
}

#[test]
fn leading_zeros_parse_but_canonical_form_drops_them() {
    let id = parse_node_id("ns=007;i=009").unwrap();
    assert_eq!(id, num_id(7, 9));
    assert_eq!(format_node_id(&id), "ns=7;i=9");
}

#[test]
fn listing_order_is_namespace_then_identifier_spelling() {
    let a = num_id(1, 9);
    let b = num_id(2, 1);
    assert!(node_id_before(&a, &b));
    assert!(!node_id_before(&b, &a));
    // "i=10" sorts before "i=9": the order is textual, not numeric
    let c = num_id(1, 10);
    assert!(node_id_before(&c, &a));
    // "i=..." sorts before "s=..."
    let d = text_id(1, "abc");
    assert!(node_id_before(&a, &d));
    assert!(!node_id_before(&a, &a));
}
