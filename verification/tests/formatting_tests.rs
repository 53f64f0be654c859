use taskdoc::formatting::{documentation_escaped, format_default_value};
use taskdoc::annotation::parse_input_documentation;

#[test]
fn special_table_values_always_quote_verbatim() {
    let table = [
        "$(BuildConfiguration)",
        "$(Build.ArtifactStagingDirectory)/*.nupkg",
        "**/*.csproj",
        "$(Build.ArtifactStagingDirectory)",
    ];
    for value in table {
        let expected = format!("\"{}\"", value);
        assert_eq!(format_default_value(value, "string", false), expected);
        assert_eq!(format_default_value(value, "int", false), expected);
        assert_eq!(format_default_value(value, "bool", true), expected);
    }
}

#[test]
fn special_table_value_is_never_int_sniffed_in_a_doc() {
    let p = parse_input_documentation(
        "path",
        "string . Optional . Staging path. Default: $(Build.ArtifactStagingDirectory).",
    )
    .unwrap();
    assert_eq!(p.base_csharp_type, "string");
    assert_eq!(
        p.getter_default_arg,
        Some("\"$(Build.ArtifactStagingDirectory)\"".to_string())
    );
}

#[test]
fn string_values_are_quoted_with_escaping() {
    assert_eq!(format_default_value("plain", "string", false), "\"plain\"");
    assert_eq!(
        format_default_value("a \"b\" c", "string", false),
        "\"a \\\"b\\\" c\""
    );
}

#[test]
fn bool_values_are_lowercased() {
    assert_eq!(format_default_value("True", "bool", false), "true");
    assert_eq!(format_default_value("FALSE", "bool", false), "false");
}

#[test]
fn enum_values_render_as_type_dot_member() {
    assert_eq!(
        format_default_value("'ci, install'", "Command", true),
        "Command.CiInstall"
    );
    assert_eq!(format_default_value("detailed", "Verbosity", true), "Verbosity.Detailed");
}

#[test]
fn other_values_pass_through_unchanged() {
    assert_eq!(format_default_value("30", "int", false), "30");
    assert_eq!(format_default_value("-7", "int", false), "-7");
}

#[test]
fn documentation_escaping_replaces_xml_characters() {
    assert_eq!(
        documentation_escaped("a < b & c > d"),
        "a &lt; b &amp; c &gt; d"
    );
    assert_eq!(documentation_escaped("plain text"), "plain text");
    assert_eq!(documentation_escaped("<<&>>"), "&lt;&lt;&amp;&gt;&gt;");
}
