use taskdoc::snippet::{parse_yaml_lines, ParseWarning};

#[test]
fn full_snippet_parses_in_declaration_order() {
    let mut text = String::new();
    text.push_str("```yaml\n");
    text.push_str("# Run tests with VSTest\n");
    text.push_str("- task: VSTest@2\n");
    text.push_str("   inputs:\n");
    text.push_str(
        "   testSelector: testAssemblies # string . Required . Test selector. Default: testAssemblies.\n",
    );
    text.push_str(
        "   #searchFolder: '$(System.DefaultWorkingDirectory)' # string . Optional . Folder to search.\n",
    );
    text.push_str(
        "   rerunFailedTests: false # boolean . Optional . Rerun failed tests. Default: false.\n",
    );
    let text = text.as_str();
    let (info, warnings) = parse_yaml_lines(text);
    assert_eq!(info.task_summary, "Run tests with VSTest");
    assert_eq!(info.task_name, "VSTest");
    assert_eq!(info.task_version, "2");
    assert!(warnings.is_empty());
    assert_eq!(info.parameters.len(), 3);

    assert_eq!(info.parameters[0].yaml_name, "testSelector");
    assert_eq!(info.parameters[0].csharp_name, "TestSelector");
    assert_eq!(info.parameters[0].csharp_type, "string");
    assert_eq!(
        info.parameters[0].getter_default_arg,
        Some("\"testAssemblies\"".to_string())
    );

    assert_eq!(info.parameters[1].yaml_name, "searchFolder");
    assert_eq!(info.parameters[1].csharp_type, "string?");
    assert_eq!(info.parameters[1].description, "Folder to search");
    assert_eq!(info.parameters[1].getter_default_arg, None);

    assert_eq!(info.parameters[2].yaml_name, "rerunFailedTests");
    assert_eq!(info.parameters[2].csharp_type, "bool");
    assert_eq!(
        info.parameters[2].getter_default_arg,
        Some("false".to_string())
    );
}

#[test]
fn two_line_snippet_degrades_to_placeholders() {
    let text = "schema marker\n# A summary only";
    let (info, warnings) = parse_yaml_lines(text);
    assert_eq!(info.task_summary, "A summary only");
    assert_eq!(info.task_name, "UnknownTask");
    assert_eq!(info.task_version, "0");
    assert!(info.parameters.is_empty());
    assert_eq!(warnings, vec![ParseWarning::MissingIdentityLine]);
}

#[test]
fn empty_text_degrades_to_all_placeholders() {
    let (info, warnings) = parse_yaml_lines("");
    assert_eq!(info.task_summary, "N/A");
    assert_eq!(info.task_name, "UnknownTask");
    assert_eq!(info.task_version, "0");
    assert!(info.parameters.is_empty());
    assert_eq!(warnings, vec![ParseWarning::MissingSummaryLine]);
}

#[test]
fn non_comment_summary_line_warns_and_continues() {
    let text = "marker\nnot a comment\n- task: Npm@1\n   command: 'install' # 'ci' | 'install' . Optional . npm command. Default: install.\n";
    let (info, warnings) = parse_yaml_lines(text);
    assert_eq!(info.task_summary, "N/A");
    assert_eq!(info.task_name, "Npm");
    assert_eq!(info.task_version, "1");
    assert_eq!(warnings, vec![ParseWarning::SummaryLineNotComment]);
    assert_eq!(info.parameters.len(), 1);
    assert_eq!(info.parameters[0].csharp_name, "Command");
    assert_eq!(
        info.parameters[0].getter_default_arg,
        Some("Command.Install".to_string())
    );
}

#[test]
fn mismatched_identity_line_warns_and_continues() {
    let text = "marker\n# Summary\n- job: build\n   retries: 3 # string . Optional . Retry count. Default: 3.\n";
    let (info, warnings) = parse_yaml_lines(text);
    assert_eq!(info.task_name, "UnknownTask");
    assert_eq!(info.task_version, "0");
    assert_eq!(warnings, vec![ParseWarning::IdentityLineMismatch]);
    assert_eq!(info.parameters.len(), 1);
    assert_eq!(info.parameters[0].csharp_type, "int");
}

#[test]
fn bad_documentation_skips_line_with_warning() {
    let text = "marker\n# Summary\n- task: Npm@1\n   good: x # string . Optional . Fine. Default: x.\n   bad: y # not parseable at all\n";
    let (info, warnings) = parse_yaml_lines(text);
    assert_eq!(info.parameters.len(), 1);
    assert_eq!(info.parameters[0].yaml_name, "good");
    assert_eq!(
        warnings,
        vec![ParseWarning::DocumentationParseFailure { line: 4 }]
    );
}

#[test]
fn undocumented_and_blank_lines_are_ignored() {
    let text = "marker\n# Summary\n- task: Npm@1\n\n   inputs:\n   # just a comment line\n  tooShallow: x # string . Optional . Indented two spaces only. Default: x.\n";
    let (info, warnings) = parse_yaml_lines(text);
    assert!(info.parameters.is_empty());
    assert!(warnings.is_empty());
}

#[test]
fn carriage_return_line_endings_are_handled() {
    let text = "marker\r\n# Summary here\r\n- task: Maven@3\r\n";
    let (info, _warnings) = parse_yaml_lines(text);
    assert_eq!(info.task_summary, "Summary here");
    assert_eq!(info.task_name, "Maven");
    assert_eq!(info.task_version, "3");
}

#[test]
fn parse_is_deterministic_over_whole_snippet() {
    let text = "m\n# S\n- task: T@1\n   a: b # string . Optional . D. Default: b.\n";
    let first = parse_yaml_lines(text);
    let second = parse_yaml_lines(text);
    assert_eq!(first.0, second.0);
    assert_eq!(first.1, second.1);
}
