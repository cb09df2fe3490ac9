use opcua_walker::cli::{AuthConfig, Cli, Commands};
use opcua_walker::coerce::{
    classify_json_int, parse_simple_value, split_arguments, CoercedInt, SimpleCoercion,
};
use opcua_walker::display::{
    format_access_level, format_compact_node_class, format_node_class, node_class_from_mask,
    status_severity, truncate_string, StatusSeverity,
};
use opcua_walker::ids::NodeClass;

#[test]
fn booleans_coerce_case_insensitively() {
    assert_eq!(parse_simple_value("true"), SimpleCoercion::Boolean(true));
    assert_eq!(parse_simple_value("TRUE"), SimpleCoercion::Boolean(true));
    assert_eq!(parse_simple_value("False"), SimpleCoercion::Boolean(false));
}

#[test]
fn integers_coerce_to_32_bits_when_they_fit() {
    assert_eq!(parse_simple_value("42"), SimpleCoercion::Int32(42));
    assert_eq!(parse_simple_value("-7"), SimpleCoercion::Int32(-7));
    assert_eq!(parse_simple_value("+9"), SimpleCoercion::Int32(9));
    assert_eq!(parse_simple_value("2147483647"), SimpleCoercion::Int32(2147483647));
    assert_eq!(parse_simple_value("-2147483648"), SimpleCoercion::Int32(-2147483648));
}

#[test]
fn what_is_neither_boolean_nor_i32_is_left_unresolved() {
    assert_eq!(parse_simple_value("2147483648"), SimpleCoercion::Unresolved);
    assert_eq!(parse_simple_value("-2147483649"), SimpleCoercion::Unresolved);
    assert_eq!(parse_simple_value("3.5"), SimpleCoercion::Unresolved);
    assert_eq!(parse_simple_value("hello"), SimpleCoercion::Unresolved);
    assert_eq!(parse_simple_value(""), SimpleCoercion::Unresolved);
    assert_eq!(parse_simple_value("+"), SimpleCoercion::Unresolved);
    assert_eq!(parse_simple_value("1 2"), SimpleCoercion::Unresolved);
}

#[test]
fn argument_lists_split_on_commas_and_trim() {
    assert_eq!(split_arguments("a, b ,c"), vec!["a", "b", "c"]);
    assert_eq!(split_arguments("x,,y"), vec!["x", "", "y"]);
    assert_eq!(split_arguments("  single  "), vec!["single"]);
}

#[test]
fn an_all_whitespace_argument_list_has_no_pieces() {
    assert_eq!(split_arguments(""), Vec::<String>::new());
    assert_eq!(split_arguments("   "), Vec::<String>::new());
}

#[test]
fn json_integers_narrow_to_32_bits_when_they_fit() {
    assert_eq!(classify_json_int(5), CoercedInt::Int32(5));
    assert_eq!(classify_json_int(-2147483648), CoercedInt::Int32(i32::MIN));
    assert_eq!(classify_json_int(2147483647), CoercedInt::Int32(i32::MAX));
    assert_eq!(classify_json_int(2147483648), CoercedInt::Int64(2147483648));
    assert_eq!(classify_json_int(-2147483649), CoercedInt::Int64(-2147483649));
}

#[test]
fn truncation_keeps_short_strings_and_marks_cuts() {
    assert_eq!(truncate_string("short", 20), "short");
    assert_eq!(truncate_string("averylongstring", 8), "avery...");
    assert_eq!(truncate_string("abcdef", 2), "...");
    assert_eq!(truncate_string("abc", 3), "abc");
}

#[test]
fn access_levels_spell_their_rights_out() {
    assert_eq!(format_access_level(0), "None");
    assert_eq!(format_access_level(0x01), "Read");
    assert_eq!(format_access_level(0x03), "Read | Write");
    assert_eq!(format_access_level(0x0F), "Read | Write | HistoryRead | HistoryWrite");
    assert_eq!(format_access_level(0x0A), "Write | HistoryWrite");
}

#[test]
fn node_classes_have_names_and_compact_tags() {
    assert_eq!(format_node_class(NodeClass::Object), "Object");
    assert_eq!(format_node_class(NodeClass::Method), "Method");
    assert_eq!(format_node_class(NodeClass::Unspecified), "Unknown");
    assert_eq!(format_compact_node_class(NodeClass::Variable), "Var");
    assert_eq!(format_compact_node_class(NodeClass::ObjectType), "OTyp");
    assert_eq!(format_compact_node_class(NodeClass::Unspecified), "?");
}

#[test]
fn wire_class_numbers_map_to_classes() {
    assert_eq!(node_class_from_mask(1), NodeClass::Object);
    assert_eq!(node_class_from_mask(2), NodeClass::Variable);
    assert_eq!(node_class_from_mask(4), NodeClass::Method);
    assert_eq!(node_class_from_mask(8), NodeClass::ObjectType);
    assert_eq!(node_class_from_mask(16), NodeClass::VariableType);
    assert_eq!(node_class_from_mask(32), NodeClass::ReferenceType);
    assert_eq!(node_class_from_mask(64), NodeClass::DataType);
    assert_eq!(node_class_from_mask(128), NodeClass::View);
    assert_eq!(node_class_from_mask(3), NodeClass::Unspecified);
}

#[test]
fn status_severity_follows_the_top_bits() {
    assert_eq!(status_severity(0), StatusSeverity::Good);
    assert_eq!(status_severity(0x0000_ABCD), StatusSeverity::Good);
    assert_eq!(status_severity(0x4000_0000), StatusSeverity::Uncertain);
    assert_eq!(status_severity(0x8005_0000), StatusSeverity::Bad);
    assert_eq!(status_severity(0xC000_0000), StatusSeverity::Bad);
}

#[test]
fn auth_config_is_drawn_from_the_command_line() {
    let cli = Cli {
        endpoint: "opc.tcp://localhost:4840".to_string(),
        username: Some("user".to_string()),
        password: Some("pw".to_string()),
        cert: None,
        key: None,
        verbose: false,
        command: Commands::Info,
    };
    let auth = AuthConfig::from(&cli);
    assert_eq!(auth.username, Some("user".to_string()));
    assert_eq!(auth.password, Some("pw".to_string()));
    assert_eq!(auth.cert_path, None);
    assert_eq!(auth.key_path, None);
    let copy = auth.clone();
    assert_eq!(copy.username, auth.username);
}

#[test]
fn trimming_strips_tabs_and_line_breaks_too() {
    assert_eq!(split_arguments("\t a \n,\r b\t"), vec!["a", "b"]);
}
