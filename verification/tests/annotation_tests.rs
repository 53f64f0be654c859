use taskdoc::annotation::parse_input_documentation;

#[test]
fn well_formed_three_segment_doc_always_parses() {
    let r = parse_input_documentation(
        "configuration",
        "string . Required . The configuration to use. Default: Release.",
    );
    assert!(r.is_some());
    let p = r.unwrap();
    assert_eq!(p.yaml_name, "configuration");
    assert_eq!(p.csharp_name, "Configuration");
    assert_eq!(p.description, "The configuration to use");
    assert_eq!(p.getter_default_arg, Some("\"Release\"".to_string()));
}

#[test]
fn malformed_doc_yields_nothing() {
    assert!(parse_input_documentation("x", "no separators at all").is_none());
    assert!(parse_input_documentation("x", "").is_none());
    assert!(parse_input_documentation("x", ". starts with a period . rest.").is_none());
    assert!(parse_input_documentation("x", "only one segment.").is_none());
}

#[test]
fn int_sniffing_upgrades_numeric_default() {
    let p = parse_input_documentation(
        "timeout",
        "string . Optional . Timeout in seconds. Default: 30.",
    )
    .unwrap();
    assert_eq!(p.base_csharp_type, "int");
    assert!(!p.is_nullable);
    assert_eq!(p.csharp_type, "int");
    assert_eq!(p.getter_default_arg, Some("30".to_string()));
}

#[test]
fn int_sniffing_leaves_non_numeric_default() {
    let p = parse_input_documentation("name", "string . Optional . Name. Default: foo.")
        .unwrap();
    assert_eq!(p.base_csharp_type, "string");
    assert!(!p.is_nullable);
    assert_eq!(p.getter_default_arg, Some("\"foo\"".to_string()));
}

#[test]
fn int_sniffing_respects_signed_32_bit_range() {
    let inside = parse_input_documentation("a", "string . Optional . N. Default: -2147483648.")
        .unwrap();
    assert_eq!(inside.base_csharp_type, "int");
    assert_eq!(inside.getter_default_arg, Some("-2147483648".to_string()));
    let outside = parse_input_documentation("b", "string . Optional . N. Default: 2147483648.")
        .unwrap();
    assert_eq!(outside.base_csharp_type, "string");
    assert_eq!(
        outside.getter_default_arg,
        Some("\"2147483648\"".to_string())
    );
}

#[test]
fn no_sniffing_without_default() {
    let p = parse_input_documentation("count", "string . Optional . A count, no default.")
        .unwrap();
    assert_eq!(p.base_csharp_type, "string");
    assert!(p.is_nullable);
    assert_eq!(p.csharp_type, "string?");
    assert_eq!(p.getter_default_arg, None);
}

#[test]
fn required_boolean_without_default_is_not_nullable() {
    let p = parse_input_documentation("flag", "boolean . Required . Flag with no default.")
        .unwrap();
    assert_eq!(p.base_csharp_type, "bool");
    assert!(!p.is_nullable);
    assert_eq!(p.csharp_type, "bool");
    assert_eq!(p.getter_default_arg, None);
}

#[test]
fn required_string_without_default_is_nullable() {
    let p = parse_input_documentation("name", "string . Required . Name with no default.")
        .unwrap();
    assert_eq!(p.base_csharp_type, "string");
    assert!(p.is_nullable);
    assert_eq!(p.csharp_type, "string?");
}

#[test]
fn conditionally_required_boolean_without_default_is_nullable() {
    let p = parse_input_documentation(
        "clean",
        "boolean . Required when strategy = fixed . Whether to clean.",
    )
    .unwrap();
    assert_eq!(p.base_csharp_type, "bool");
    assert!(p.is_nullable);
    assert_eq!(p.csharp_type, "bool?");
}

#[test]
fn enum_options_round_trip() {
    let p = parse_input_documentation(
        "command",
        "'ci' | 'install' | 'ci, install' . Optional . npm command to run. Default: install.",
    )
    .unwrap();
    assert_eq!(p.base_csharp_type, "Command");
    assert_eq!(
        p.enum_options,
        Some(vec![
            "ci".to_string(),
            "install".to_string(),
            "ci, install".to_string()
        ])
    );
    assert!(!p.is_nullable);
    assert_eq!(p.csharp_type, "Command");
    assert_eq!(p.getter_default_arg, Some("Command.Install".to_string()));
}

#[test]
fn enum_without_default_is_nullable_and_keeps_options() {
    let p = parse_input_documentation("verbosity", "'quiet' | 'detailed' . Optional . Level.")
        .unwrap();
    assert_eq!(p.base_csharp_type, "Verbosity");
    assert_eq!(
        p.enum_options,
        Some(vec!["quiet".to_string(), "detailed".to_string()])
    );
    assert!(p.is_nullable);
    assert_eq!(p.csharp_type, "Verbosity?");
    assert_eq!(p.getter_default_arg, None);
}

#[test]
fn bare_default_synthesizes_description() {
    let p = parse_input_documentation("retries", "string . Required . Default: 42.").unwrap();
    assert_eq!(p.description, "Details for retries");
    assert_eq!(p.base_csharp_type, "int");
    assert!(!p.is_nullable);
    assert_eq!(p.getter_default_arg, Some("42".to_string()));
}

#[test]
fn boolean_default_is_lowercased() {
    let p = parse_input_documentation("clean", "boolean . Optional . Clean first. Default: True.")
        .unwrap();
    assert_eq!(p.base_csharp_type, "bool");
    assert_eq!(p.getter_default_arg, Some("true".to_string()));
}

#[test]
fn display_name_is_capitalized_identifier_form() {
    let p = parse_input_documentation(
        "build_type",
        "string . Optional . Kind of build. Default: fast.",
    )
    .unwrap();
    assert_eq!(p.csharp_name, "BuildType");
}

#[test]
fn string_default_with_embedded_quotes_is_escaped() {
    let p = parse_input_documentation(
        "args",
        "string . Optional . Extra arguments. Default: say \"hi\" now.",
    )
    .unwrap();
    assert_eq!(
        p.getter_default_arg,
        Some("\"say \\\"hi\\\" now\"".to_string())
    );
}

#[test]
fn parsing_twice_yields_identical_descriptors() {
    let doc = "'ci' | 'install' . Optional . npm command. Default: ci.";
    let a = parse_input_documentation("command", doc);
    let b = parse_input_documentation("command", doc);
    assert_eq!(a, b);
    let c = parse_input_documentation("timeout", "string . Optional . T. Default: 30.");
    let d = parse_input_documentation("timeout", "string . Optional . T. Default: 30.");
    assert_eq!(c, d);
}

#[test]
fn unrecognized_status_is_optional_like() {
    let p = parse_input_documentation("flag", "boolean . X . D.").unwrap();
    assert_eq!(p.base_csharp_type, "bool");
    assert!(p.is_nullable);
    assert_eq!(p.csharp_type, "bool?");
    let q = parse_input_documentation("flag", "boolean . optional . Lowercase status.").unwrap();
    assert!(q.is_nullable);
    assert_eq!(q.csharp_type, "bool?");
}

#[test]
fn unrecognized_status_with_default_is_not_nullable() {
    let p = parse_input_documentation("flag", "boolean . X . D. Default: true.").unwrap();
    assert!(!p.is_nullable);
    assert_eq!(p.csharp_type, "bool");
    assert_eq!(p.getter_default_arg, Some("true".to_string()));
}

#[test]
fn unknown_type_keyword_falls_back_to_string() {
    let p = parse_input_documentation("path", "filePath . Required . Where to look.").unwrap();
    assert_eq!(p.base_csharp_type, "string");
    assert!(p.is_nullable);
}
