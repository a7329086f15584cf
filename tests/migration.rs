use cfn_teleport::index::{collect_references, find_all_references, ReferenceIndex};
use cfn_teleport::marked::{MarkedValue, RangeType};
use cfn_teleport::intrinsics::{
    is_sequence_value_tag, is_single_value_tag, lookup_long_form, short_form_to_long, Location,
};
use cfn_teleport::ops::{
    add_resources, apply_default_retention, default_deletion_policy, remove_resources,
    retain_resources,
};
use cfn_teleport::rewrite::{rewrite_sub_text, update_template_references, IdMapping};
use cfn_teleport::selection::{
    filter_supported, format_resources, import_entries, is_live_stack, mapping_from_document, parse_mapping_token,
    undeclared_ids, unrenamed_ids, ImportEntry, MappingError, ResourceSummary,
};
use cfn_teleport::text::{
    chars_of, contains_text, decimal, extract_sub_references, is_pseudo_parameter,
};
use cfn_teleport::validate::{
    blocked_for_cross_scope, dependency_markers, parameter_crossings, validate, Mode, Violation,
};
use cfn_teleport::value::Value;
use cfn_teleport::workflow::{
    advance, build_templates, changeset_name, error_context, is_credential_error, export_file_name, plan, poll_interval,
    poll_outcome, Command, PollOutcome, Reply, Step, TemplateRole,
};

fn s(x: &str) -> Value {
    Value::String(x.to_string())
}

fn obj(entries: Vec<(&str, Value)>) -> Value {
    Value::Object(entries.into_iter().map(|(k, v)| (k.to_string(), v)).collect())
}

fn arr(items: Vec<Value>) -> Value {
    Value::Array(items)
}

fn names(xs: &[&str]) -> Vec<String> {
    xs.iter().map(|x| x.to_string()).collect()
}

fn mapping(pairs: &[(&str, &str)]) -> IdMapping {
    let mut m = IdMapping::new();
    for (a, b) in pairs {
        m.insert(a.to_string(), b.to_string());
    }
    m
}

fn sorted(mut v: Vec<String>) -> Vec<String> {
    v.sort();
    v
}

fn bucket_and_queue() -> Value {
    obj(vec![(
        "Resources",
        obj(vec![
            ("Bucket", obj(vec![("Type", s("AWS::S3::Bucket"))])),
            (
                "Queue",
                obj(vec![
                    ("Type", s("AWS::SQS::Queue")),
                    ("Properties", obj(vec![("QueueName", obj(vec![("Ref", s("Bucket"))]))])),
                ]),
            ),
        ]),
    )])
}

#[test]
fn moving_a_queue_without_its_bucket_is_refused() {
    let index = find_all_references(&bucket_and_queue());
    let params: Vec<String> = vec![];
    match validate(&index, &names(&["Queue"]), &params, Mode::CrossScopeRefactor) {
        Err(vs) => {
            assert_eq!(vs.len(), 1);
            assert_eq!(
                vs[0],
                Violation::MoverDependsOnStayer {
                    declarant: "Queue".to_string(),
                    target: "Bucket".to_string()
                }
            );
        }
        Ok(()) => panic!("the move should be refused"),
    }
    assert_eq!(
        validate(&index, &names(&["Queue", "Bucket"]), &params, Mode::CrossScopeRefactor),
        Ok(())
    );
}

#[test]
fn moving_the_bucket_alone_breaks_the_queue() {
    let index = find_all_references(&bucket_and_queue());
    let params: Vec<String> = vec![];
    let r = validate(&index, &names(&["Bucket"]), &params, Mode::CrossScopeImport);
    assert_eq!(
        r,
        Err(vec![Violation::StayerDependsOnMover {
            declarant: "Queue".to_string(),
            target: "Bucket".to_string()
        }])
    );
}

#[test]
fn same_scope_rename_ignores_movers_depending_on_stayers() {
    let index = find_all_references(&bucket_and_queue());
    let params: Vec<String> = vec![];
    assert_eq!(validate(&index, &names(&["Queue"]), &params, Mode::SameScopeRename), Ok(()));
}

#[test]
fn outputs_pin_what_they_reference_in_every_mode() {
    let template = obj(vec![
        ("Resources", obj(vec![("Bucket", obj(vec![("Type", s("AWS::S3::Bucket"))]))])),
        ("Outputs", obj(vec![("Name", obj(vec![("Value", obj(vec![("Ref", s("Bucket"))]))]))])),
    ]);
    let index = find_all_references(&template);
    let params: Vec<String> = vec![];
    for mode in [Mode::SameScopeRename, Mode::CrossScopeRefactor, Mode::CrossScopeImport] {
        assert_eq!(
            validate(&index, &names(&["Bucket"]), &params, mode),
            Err(vec![Violation::OutputsCoupling { target: "Bucket".to_string() }])
        );
    }
}

#[test]
fn parameters_are_not_relocatable_declarations() {
    let template = obj(vec![(
        "Resources",
        obj(vec![(
            "Queue",
            obj(vec![
                ("Type", s("AWS::SQS::Queue")),
                ("Properties", obj(vec![("QueueName", obj(vec![("Ref", s("Env"))]))])),
            ]),
        )]),
    )]);
    let index = find_all_references(&template);
    assert_eq!(
        validate(&index, &names(&["Queue"]), &names(&["Env"]), Mode::CrossScopeRefactor),
        Ok(())
    );
    assert_eq!(
        parameter_crossings(&index, &names(&["Queue"]), &names(&["Env"])),
        names(&["Queue"])
    );
    assert!(parameter_crossings(&index, &names(&["Queue"]), &names(&["Other"])).is_empty());
}

#[test]
fn markers_of_bucket_and_queue() {
    let template = obj(vec![
        (
            "Resources",
            obj(vec![
                ("Bucket", obj(vec![("Type", s("AWS::S3::Bucket"))])),
                (
                    "Queue",
                    obj(vec![
                        ("Type", s("AWS::SQS::Queue")),
                        (
                            "Properties",
                            obj(vec![
                                ("A", obj(vec![("Ref", s("Bucket"))])),
                                ("B", obj(vec![("Ref", s("Env"))])),
                            ]),
                        ),
                    ]),
                ),
            ]),
        ),
        ("Outputs", obj(vec![("Q", obj(vec![("Value", obj(vec![("Ref", s("Queue"))]))]))])),
    ]);
    let index = find_all_references(&template);
    let declared = names(&["Bucket", "Queue"]);
    let params = names(&["Env"]);
    let b = dependency_markers(&index, "Bucket", &declared, &params);
    assert!(b.has_incoming && !b.has_outgoing && !b.referenced_by_outputs && !b.depends_on_parameters);
    let q = dependency_markers(&index, "Queue", &declared, &params);
    assert!(!q.has_incoming && q.has_outgoing && q.referenced_by_outputs && q.depends_on_parameters);
    assert!(blocked_for_cross_scope(&index, "Queue", &params, &names(&["Env"])));
    assert!(!blocked_for_cross_scope(&index, "Bucket", &params, &names(&[])));
}

#[test]
fn parameter_missing_in_target_blocks_selection() {
    let template = obj(vec![(
        "Resources",
        obj(vec![(
            "Queue",
            obj(vec![("Properties", obj(vec![("N", obj(vec![("Ref", s("Env"))]))]))]),
        )]),
    )]);
    let index = find_all_references(&template);
    assert!(blocked_for_cross_scope(&index, "Queue", &names(&["Env"]), &names(&[])));
    assert!(!blocked_for_cross_scope(&index, "Queue", &names(&["Env"]), &names(&["Env"])));
}

#[test]
fn end_to_end_cross_scope_move_with_rename() {
    let source = obj(vec![(
        "Resources",
        obj(vec![
            (
                "WebQueue",
                obj(vec![
                    ("Type", s("AWS::SQS::Queue")),
                    ("Properties", obj(vec![("Name", obj(vec![("Ref", s("StorageBucket"))]))])),
                ]),
            ),
            ("StorageBucket", obj(vec![("Type", s("AWS::S3::Bucket"))])),
        ]),
    )]);
    let index = find_all_references(&source);
    let params: Vec<String> = vec![];
    assert_eq!(
        validate(&index, &names(&["WebQueue"]), &params, Mode::CrossScopeRefactor),
        Err(vec![Violation::MoverDependsOnStayer {
            declarant: "WebQueue".to_string(),
            target: "StorageBucket".to_string()
        }])
    );
    let m = mapping(&[("WebQueue", "WebQueue"), ("StorageBucket", "Storage2")]);
    assert_eq!(
        validate(&index, &names(&["WebQueue", "StorageBucket"]), &params, Mode::CrossScopeRefactor),
        Ok(())
    );
    let target = obj(vec![("Resources", obj(vec![]))]);
    let merged = add_resources(target, &source, &m);
    let merged = update_template_references(merged, &m);
    let queue = merged.get("Resources").unwrap().get("WebQueue").unwrap();
    assert_eq!(
        queue.get("Properties").unwrap().get("Name").unwrap(),
        &obj(vec![("Ref", s("Storage2"))])
    );
    assert!(merged.get("Resources").unwrap().get("Storage2").is_some());
    assert!(merged.get("Resources").unwrap().get("StorageBucket").is_none());
    let reindexed = find_all_references(&merged);
    assert!(reindexed.contains("WebQueue", "Storage2"));
    assert!(!reindexed.contains("WebQueue", "StorageBucket"));
}

#[test]
fn rename_then_reindex_references_the_new_name() {
    let template = obj(vec![(
        "Resources",
        obj(vec![
            (
                "A",
                obj(vec![
                    ("Type", s("AWS::SQS::Queue")),
                    ("Properties", obj(vec![("X", obj(vec![("Fn::GetAtt", arr(vec![s("B"), s("Arn")]))]))])),
                ]),
            ),
            ("B", obj(vec![("Type", s("AWS::S3::Bucket"))])),
        ]),
    )]);
    let rewritten = update_template_references(template, &mapping(&[("B", "C")]));
    let index = find_all_references(&rewritten);
    assert!(index.contains("A", "C"));
    assert!(!index.contains("A", "B"));
}

#[test]
fn chained_mapping_renames_each_reference_once() {
    let template = obj(vec![
        ("X", obj(vec![("Ref", s("A"))])),
        ("Y", obj(vec![("Ref", s("B"))])),
        ("Z", obj(vec![("Fn::Sub", s("${A}/${B.Arn}"))])),
    ]);
    let r = update_template_references(template, &mapping(&[("A", "B"), ("B", "C")]));
    assert_eq!(
        r,
        obj(vec![
            ("X", obj(vec![("Ref", s("B"))])),
            ("Y", obj(vec![("Ref", s("C"))])),
            ("Z", obj(vec![("Fn::Sub", s("${B}/${C.Arn}"))])),
        ])
    );
}

#[test]
fn empty_mapping_leaves_a_template_unchanged() {
    let template = bucket_and_queue();
    let r = update_template_references(template.copy(), &IdMapping::new());
    assert_eq!(r, template);
}

#[test]
fn sub_text_rewrite_needs_a_closing_mark() {
    let m = mapping(&[("Old", "New")]);
    assert_eq!(rewrite_sub_text("${Old}${Old.Arn}${Old", &m), "${New}${New.Arn}${Old");
    assert_eq!(rewrite_sub_text("$Old ${Older} ${x${Old}", &m), "$Old ${Older} ${x${New}");
    assert_eq!(rewrite_sub_text("", &m), "");
}

#[test]
fn sub_references_are_scanned_left_to_right() {
    let mut refs: Vec<String> = vec![];
    extract_sub_references("${A}-${B.Arn}-${AWS::Region}-${}-${C", &mut refs);
    assert_eq!(sorted(refs), names(&["A", "B", "C"]));
    let mut refs: Vec<String> = vec!["A".to_string()];
    extract_sub_references("${A}", &mut refs);
    assert_eq!(refs, names(&["A"]));
}

#[test]
fn getatt_string_form_names_the_part_before_the_dot() {
    let mut refs: Vec<String> = vec![];
    collect_references(&obj(vec![("Fn::GetAtt", s("Table.StreamArn"))]), &mut refs);
    assert_eq!(refs, names(&["Table"]));
}

#[test]
fn depends_on_counts_only_on_declarations() {
    let mut refs: Vec<String> = vec![];
    collect_references(&obj(vec![("DependsOn", s("Other"))]), &mut refs);
    assert!(refs.is_empty());
    collect_references(&obj(vec![("Type", s("T")), ("DependsOn", arr(vec![s("P"), s("Q")]))]), &mut refs);
    assert_eq!(refs, names(&["P", "Q"]));
}

#[test]
fn pseudo_parameters_start_with_the_reserved_prefix() {
    assert!(is_pseudo_parameter("AWS::Region"));
    assert!(is_pseudo_parameter("AWS::"));
    assert!(!is_pseudo_parameter("AWS:"));
    assert!(!is_pseudo_parameter("MyAWS::Thing"));
    assert_eq!(chars_of("ab"), vec!['a', 'b']);
}

#[test]
fn retain_sets_the_policy_on_named_declarations() {
    let template = bucket_and_queue();
    let r = retain_resources(template, &names(&["Bucket", "Missing"]));
    let rs = r.get("Resources").unwrap();
    assert_eq!(rs.get("Bucket").unwrap().get("DeletionPolicy").unwrap(), &s("Retain"));
    assert!(rs.get("Queue").unwrap().get("DeletionPolicy").is_none());
    let again = retain_resources(r.copy(), &names(&["Bucket"]));
    assert_eq!(again, r);
}

#[test]
fn remove_deletes_named_declarations() {
    let r = remove_resources(bucket_and_queue(), &names(&["Queue"]));
    let rs = r.get("Resources").unwrap();
    assert!(rs.get("Queue").is_none());
    assert!(rs.get("Bucket").is_some());
    let no_section = obj(vec![("Outputs", obj(vec![]))]);
    assert_eq!(remove_resources(no_section.copy(), &names(&["Queue"])), no_section);
}

#[test]
fn add_copies_under_the_new_name_and_overwrites() {
    let target = obj(vec![("Resources", obj(vec![("Copy", s("old"))]))]);
    let source = bucket_and_queue();
    let r = add_resources(target, &source, &mapping(&[("Bucket", "Copy"), ("Absent", "X")]));
    let rs = r.get("Resources").unwrap();
    assert_eq!(rs.get("Copy").unwrap(), &obj(vec![("Type", s("AWS::S3::Bucket"))]));
    assert!(rs.get("X").is_none());
}

#[test]
fn default_retention_by_type() {
    let template = obj(vec![(
        "Resources",
        obj(vec![
            ("Cluster", obj(vec![("Type", s("AWS::RDS::DBCluster"))])),
            (
                "Member",
                obj(vec![
                    ("Type", s("AWS::RDS::DBInstance")),
                    ("Properties", obj(vec![("DBClusterIdentifier", obj(vec![("Ref", s("Cluster"))]))])),
                ]),
            ),
            ("Single", obj(vec![("Type", s("AWS::RDS::DBInstance"))])),
            ("Bucket", obj(vec![("Type", s("AWS::S3::Bucket"))])),
            ("Kept", obj(vec![("Type", s("AWS::S3::Bucket")), ("DeletionPolicy", s("Retain"))])),
            ("Other", obj(vec![("Type", s("AWS::S3::Bucket"))])),
        ]),
    )]);
    let r = apply_default_retention(
        template,
        &names(&["Cluster", "Member", "Single", "Bucket", "Kept"]),
    );
    let rs = r.get("Resources").unwrap();
    let policy = |n: &str| rs.get(n).unwrap().get("DeletionPolicy");
    assert_eq!(policy("Cluster"), Some(&s("Snapshot")));
    assert_eq!(policy("Member"), Some(&s("Delete")));
    assert_eq!(policy("Single"), Some(&s("Snapshot")));
    assert_eq!(policy("Bucket"), Some(&s("Delete")));
    assert_eq!(policy("Kept"), Some(&s("Retain")));
    assert_eq!(policy("Other"), None);
    assert_eq!(default_deletion_policy(&obj(vec![])), "Delete");
}

#[test]
fn plans_per_mode() {
    assert_eq!(plan(Mode::CrossScopeImport, true, true), vec![Step::ExportTemplates]);
    assert_eq!(
        plan(Mode::CrossScopeRefactor, false, false),
        vec![
            Step::ValidateTemplates,
            Step::CreateRefactor,
            Step::WaitForRefactorCreated,
            Step::ExecuteRefactor,
            Step::WaitForRefactorExecuted
        ]
    );
    assert_eq!(plan(Mode::SameScopeRename, false, true), plan(Mode::CrossScopeRefactor, false, true));
    let with_retain = plan(Mode::CrossScopeImport, false, true);
    let without = plan(Mode::CrossScopeImport, false, false);
    assert_eq!(with_retain.len(), 11);
    assert_eq!(without.len(), 9);
    assert_eq!(with_retain[1], Step::RetainInSource);
    assert_eq!(without[1], Step::RemoveFromSource);
    assert_eq!(without[8], Step::WaitForTarget);
}

#[test]
fn polling_reads_statuses() {
    assert_eq!(poll_outcome(Step::WaitForSource, "UPDATE_IN_PROGRESS"), PollOutcome::Pending);
    assert_eq!(poll_outcome(Step::WaitForTarget, "IMPORT_COMPLETE"), PollOutcome::Succeeded);
    assert_eq!(poll_outcome(Step::WaitForTarget, "UPDATE_ROLLBACK_COMPLETE"), PollOutcome::Failed);
    assert_eq!(poll_outcome(Step::WaitForImportCreated, "CREATE_PENDING"), PollOutcome::Pending);
    assert_eq!(poll_outcome(Step::WaitForImportCreated, "FAILED"), PollOutcome::Failed);
    assert_eq!(poll_outcome(Step::WaitForRefactorExecuted, "EXECUTE_COMPLETE"), PollOutcome::Succeeded);
    assert_eq!(poll_interval(Step::WaitForRefactorCreated), 1);
    assert_eq!(poll_interval(Step::WaitForRefactorExecuted), 5);
}

#[test]
fn the_state_machine_advances_retries_and_recovers() {
    let steps = plan(Mode::CrossScopeRefactor, false, false);
    assert_eq!(advance(&steps, 0, Reply::Done), Command::Perform(1));
    assert_eq!(advance(&steps, 2, Reply::Pending), Command::Retry(1, 2));
    assert_eq!(advance(&steps, 4, Reply::Pending), Command::Retry(5, 4));
    assert_eq!(advance(&steps, 1, Reply::Pending), Command::Recover(1));
    assert_eq!(advance(&steps, 3, Reply::Error), Command::Recover(3));
    assert_eq!(advance(&steps, 4, Reply::Done), Command::Finish);
    let dry = plan(Mode::CrossScopeImport, true, false);
    assert_eq!(advance(&dry, 0, Reply::Error), Command::Abort(0));
    assert_eq!(advance(&dry, 0, Reply::Done), Command::Finish);
}

#[test]
fn error_context_lists_the_mapping() {
    let m = mapping(&[("A", "B"), ("C", "C")]);
    assert_eq!(
        error_context(Step::CreateImport, "src", "dst", &m),
        "Failed operation: create import change set\nSource stack: src\nTarget stack: dst\nResources:\nA -> B\nC (no rename)\n"
    );
}

#[test]
fn export_names_and_numbers() {
    assert_eq!(decimal(0), "0");
    assert_eq!(decimal(1203), "1203");
    assert_eq!(
        export_file_name("stack", "refactor", "source", "20240101T000000", "json", 0),
        "stack-refactor-source-20240101T000000.json"
    );
    assert_eq!(
        export_file_name("stack", "refactor", "source", "20240101T000000", "yaml", 2),
        "stack-refactor-source-20240101T000000.2.yaml"
    );
}

#[test]
fn changeset_names_are_fresh() {
    let a = changeset_name("stack");
    let b = changeset_name("stack");
    assert!(a.starts_with("stack-"));
    assert_eq!(a.chars().count(), 6 + 36);
    assert_ne!(a, b);
    let token: Vec<char> = a.chars().skip(6).collect();
    for (i, c) in token.iter().enumerate() {
        if i == 8 || i == 13 || i == 18 || i == 23 {
            assert_eq!(*c, '-');
        } else {
            assert!(c.is_ascii_digit() || ('a'..='f').contains(c));
        }
    }
}

#[test]
fn mapping_tokens() {
    assert_eq!(parse_mapping_token("A:B"), ("A".to_string(), "B".to_string()));
    assert_eq!(parse_mapping_token("A"), ("A".to_string(), "A".to_string()));
    assert_eq!(parse_mapping_token("A:"), ("A".to_string(), "A".to_string()));
    assert_eq!(parse_mapping_token("A:B:C"), ("A".to_string(), "B:C".to_string()));
}

#[test]
fn mapping_checks() {
    let m = mapping(&[("Bucket", "Bucket"), ("Queue", "Queue2"), ("Ghost", "G")]);
    assert_eq!(unrenamed_ids(&m), names(&["Bucket"]));
    assert_eq!(undeclared_ids(&bucket_and_queue(), &m), names(&["Ghost"]));
}

#[test]
fn mapping_documents() {
    let doc = obj(vec![("resources", obj(vec![("A", s("B")), ("C", s("D"))]))]);
    let m = mapping_from_document(&doc).unwrap();
    assert_eq!(m.pairs, vec![("A".to_string(), "B".to_string()), ("C".to_string(), "D".to_string())]);
    assert_eq!(m.lookup("C"), Some(&"D".to_string()));
    assert_eq!(
        mapping_from_document(&obj(vec![])).err(),
        Some(MappingError::MissingResources)
    );
    assert_eq!(
        mapping_from_document(&obj(vec![("resources", obj(vec![("A", Value::Null)]))])).err(),
        Some(MappingError::NotAString)
    );
}

fn summary(t: &str, l: &str, p: &str) -> ResourceSummary {
    ResourceSummary {
        resource_type: t.to_string(),
        logical_id: l.to_string(),
        physical_id: p.to_string(),
    }
}

#[test]
fn listing_is_aligned() {
    let rows = vec![summary("AWS::S3::Bucket", "B", "b-1"), summary("AWS::SQS::Queue", "MyQueue", "q")];
    assert_eq!(
        format_resources(&rows),
        vec![
            "AWS::S3::Bucket    B          b-1".to_string(),
            "AWS::SQS::Queue    MyQueue    q".to_string()
        ]
    );
    assert!(format_resources(&vec![]).is_empty());
}

#[test]
fn deleted_stacks_are_hidden() {
    assert!(!is_live_stack("DELETE_COMPLETE"));
    assert!(is_live_stack("CREATE_COMPLETE"));
    assert!(is_live_stack("DEL"));
}

#[test]
fn import_request_uses_new_identifiers() {
    let rows = vec![summary("AWS::S3::Bucket", "Old", "phys")];
    let keys = mapping(&[("New", "BucketName")]);
    let r = import_entries(&rows, &mapping(&[("Old", "New")]), &keys).unwrap();
    assert_eq!(
        r,
        vec![ImportEntry {
            resource_type: "AWS::S3::Bucket".to_string(),
            logical_id: "New".to_string(),
            identifier_key: "BucketName".to_string(),
            physical_id: "phys".to_string(),
        }]
    );
    assert_eq!(import_entries(&rows, &IdMapping::new(), &keys), Err("Old".to_string()));
}

#[test]
fn intrinsic_tags() {
    assert_eq!(short_form_to_long("GetAtt"), "Fn::GetAtt");
    assert_eq!(short_form_to_long("Ref"), "Ref");
    assert_eq!(lookup_long_form("Nope"), None);
    assert!(is_single_value_tag("Ref") && !is_single_value_tag("Join"));
    assert!(is_sequence_value_tag("Join") && !is_sequence_value_tag("Ref"));
    let l = Location::new(3, 7);
    assert_eq!((l.line, l.col), (3, 7));
}

#[test]
fn parsed_values_become_document_trees() {
    let l = Location::new(1, 2);
    let v = MarkedValue::Mapping(
        vec![
            (("a".to_string(), Location::new(1, 1)), MarkedValue::Int(-42, l)),
            (("b".to_string(), Location::new(2, 1)), MarkedValue::Float("1.5".to_string(), l)),
            (("a".to_string(), Location::new(3, 1)), MarkedValue::Int(i64::MIN, l)),
            (
                ("c".to_string(), Location::new(4, 1)),
                MarkedValue::List(
                    vec![
                        MarkedValue::Char('x', l),
                        MarkedValue::Float("NaN".to_string(), l),
                        MarkedValue::Null(l),
                        MarkedValue::Bool(true, l),
                    ],
                    l,
                ),
            ),
            (
                ("d".to_string(), Location::new(5, 1)),
                MarkedValue::RangeInt(RangeType::OpenRange(1, 3), l),
            ),
        ],
        Location::new(9, 9),
    );
    assert_eq!(v.location(), &Location::new(9, 9));
    assert_eq!(
        v.to_json_value(),
        obj(vec![
            ("a", Value::Number("-9223372036854775808".to_string())),
            ("b", Value::Number("1.5".to_string())),
            ("c", arr(vec![s("x"), Value::Null, Value::Null, Value::Bool(true)])),
            (
                "d",
                obj(vec![
                    ("type", s("range")),
                    ("start", Value::Number("1".to_string())),
                    ("end", Value::Number("3".to_string())),
                    ("inclusive", Value::Bool(false)),
                ])
            ),
        ])
    );
    let chars = MarkedValue::RangeChar(RangeType::Range('a', 'z'), l);
    assert_eq!(chars.to_json_value().get("start"), Some(&s("a")));
    assert_eq!(MarkedValue::Regex("^a".to_string(), l).to_json_value(), s("^a"));
}

#[test]
fn credential_errors_are_recognized() {
    assert!(contains_text("abcabd", "abd"));
    assert!(contains_text("abc", ""));
    assert!(!contains_text("ab", "abc"));
    assert!(!contains_text("abcabc", "abd"));
    assert!(is_credential_error("ExpiredToken: The security token included in the request is expired"));
    assert!(is_credential_error("no credentials found"));
    assert!(!is_credential_error("Stack with id x does not exist"));
}

#[test]
fn structural_equality_of_documents() {
    let a = bucket_and_queue();
    assert!(a.same(&a.copy()));
    let b = retain_resources(a.copy(), &names(&["Queue"]));
    assert!(!a.same(&b));
    assert!(!s("1").same(&Value::Number("1".to_string())));
    assert!(!arr(vec![s("x")]).same(&arr(vec![s("x"), s("y")])));
}

#[test]
fn only_supported_types_are_listed() {
    let rows = vec![
        summary("AWS::S3::Bucket", "B", "b"),
        summary("Custom::Thing", "C", "c"),
        summary("AWS::SQS::Queue", "Q", "q"),
    ];
    let kept = filter_supported(&rows, &names(&["AWS::S3::Bucket", "AWS::SQS::Queue"]));
    assert_eq!(kept, vec![summary("AWS::S3::Bucket", "B", "b"), summary("AWS::SQS::Queue", "Q", "q")]);
}

#[test]
fn getatt_string_form_is_indexed_but_not_renamed() {
    let template = obj(vec![(
        "Resources",
        obj(vec![(
            "A",
            obj(vec![
                ("Type", s("AWS::SQS::Queue")),
                ("Properties", obj(vec![("X", obj(vec![("Fn::GetAtt", s("B.Arn"))]))])),
            ]),
        )]),
    )]);
    let rewritten = update_template_references(template, &mapping(&[("B", "C")]));
    let index = find_all_references(&rewritten);
    assert!(index.contains("A", "B"));
    assert!(!index.contains("A", "C"));
}

#[test]
fn a_renamed_reference_does_not_stop_the_walk_of_its_object() {
    let v = obj(vec![("Ref", s("A")), ("Fn::GetAtt", arr(vec![s("B"), s("x")]))]);
    let r = update_template_references(v, &mapping(&[("A", "A2"), ("B", "B2")]));
    assert_eq!(r, obj(vec![("Ref", s("A2")), ("Fn::GetAtt", arr(vec![s("B2"), s("x")]))]));
}

#[test]
fn placeholders_are_substituted_literally() {
    let m = mapping(&[("a.b", "n")]);
    assert_eq!(rewrite_sub_text("${a.b}-${a.b.c}", &m), "${n}-${n.c}");
    let both = mapping(&[("a", "x"), ("a.b", "y")]);
    assert_eq!(rewrite_sub_text("${a.b}${a.c}${a}", &both), "${y}${x.c}${x}");
}

#[test]
fn a_renamed_variable_replaces_one_with_its_new_name() {
    let v = obj(vec![(
        "Fn::Sub",
        arr(vec![s("${A}"), obj(vec![("A", s("x")), ("B", s("y"))])]),
    )]);
    let r = update_template_references(v, &mapping(&[("A", "B")]));
    assert_eq!(r, obj(vec![("Fn::Sub", arr(vec![s("${B}"), obj(vec![("B", s("x"))])]))]));
}

#[test]
fn each_violation_is_reported_once() {
    let mut index = ReferenceIndex::new();
    index.insert("Queue".to_string(), names(&["Bucket", "Bucket"]));
    let params: Vec<String> = vec![];
    assert_eq!(
        validate(&index, &names(&["Queue"]), &params, Mode::CrossScopeRefactor),
        Err(vec![Violation::MoverDependsOnStayer {
            declarant: "Queue".to_string(),
            target: "Bucket".to_string()
        }])
    );
}

#[test]
fn templates_of_each_mode() {
    let source = bucket_and_queue();
    let target = obj(vec![("Resources", obj(vec![]))]);
    let m = mapping(&[("Bucket", "Bucket2")]);
    let import = build_templates(Mode::CrossScopeImport, "src", "dst", &source, &target, &m);
    let roles: Vec<TemplateRole> = import.iter().map(|t| t.role).collect();
    assert_eq!(
        roles,
        vec![TemplateRole::Retained, TemplateRole::Removed, TemplateRole::Import, TemplateRole::Final]
    );
    assert_eq!(import[0].stack, "src");
    assert_eq!(import[2].stack, "dst");
    let imported = import[2].template.get("Resources").unwrap().get("Bucket2").unwrap();
    assert_eq!(imported.get("DeletionPolicy"), Some(&s("Delete")));
    assert!(import[3].template.get("Resources").unwrap().get("Bucket2").unwrap().get("DeletionPolicy").is_none());
    assert!(import[1].template.get("Resources").unwrap().get("Bucket").is_none());
    let rename = build_templates(Mode::SameScopeRename, "src", "src", &source, &source, &m);
    assert_eq!(rename.len(), 1);
    let rs = rename[0].template.get("Resources").unwrap();
    assert!(rs.get("Bucket").is_none());
    assert_eq!(
        rs.get("Queue").unwrap().get("Properties").unwrap().get("QueueName").unwrap(),
        &obj(vec![("Ref", s("Bucket2"))])
    );
}
