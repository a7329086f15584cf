use cfn_teleport::index::find_all_references;
use cfn_teleport::rewrite::{traverse_and_update, update_template_references, IdMapping};
use cfn_teleport::value::Value;

fn s(x: &str) -> Value {
    Value::String(x.to_string())
}

fn obj(entries: Vec<(&str, Value)>) -> Value {
    Value::Object(entries.into_iter().map(|(k, v)| (k.to_string(), v)).collect())
}

fn arr(items: Vec<Value>) -> Value {
    Value::Array(items)
}

fn at<'a>(v: &'a Value, path: &[&str]) -> &'a Value {
    let mut cur = v;
    for key in path {
        cur = cur.get(key).expect("missing key");
    }
    cur
}

#[test]
fn test_traverse_empty_object() {
    let template = obj(vec![]);
    let result = traverse_and_update(template.copy(), "OldId", "NewId");
    assert_eq!(result, template);
}

#[test]
fn test_update_ref_basic() {
    let template = obj(vec![("Ref", s("OldBucket"))]);
    let result = traverse_and_update(template, "OldBucket", "NewBucket");
    assert_eq!(result, obj(vec![("Ref", s("NewBucket"))]));
}

#[test]
fn test_update_ref_pseudo_parameter() {
    let template = obj(vec![("Ref", s("AWS::Region"))]);
    let result = traverse_and_update(template.copy(), "AWS::Region", "NewRegion");
    assert_eq!(result, obj(vec![("Ref", s("AWS::Region"))]));
}

#[test]
fn test_update_ref_not_matching() {
    let template = obj(vec![("Ref", s("OtherResource"))]);
    let result = traverse_and_update(template.copy(), "OldBucket", "NewBucket");
    assert_eq!(result, obj(vec![("Ref", s("OtherResource"))]));
}

#[test]
fn test_update_getatt_basic() {
    let template = obj(vec![("Fn::GetAtt", arr(vec![s("OldBucket"), s("Arn")]))]);
    let result = traverse_and_update(template, "OldBucket", "NewBucket");
    assert_eq!(result, obj(vec![("Fn::GetAtt", arr(vec![s("NewBucket"), s("Arn")]))]));
}

#[test]
fn test_update_getatt_not_matching() {
    let template = obj(vec![("Fn::GetAtt", arr(vec![s("OtherResource"), s("Arn")]))]);
    let result = traverse_and_update(template.copy(), "OldBucket", "NewBucket");
    assert_eq!(result, obj(vec![("Fn::GetAtt", arr(vec![s("OtherResource"), s("Arn")]))]));
}

#[test]
fn test_update_dependson_string() {
    let template = obj(vec![
        ("Type", s("AWS::EC2::Instance")),
        ("DependsOn", s("OldSecurityGroup")),
        ("Properties", obj(vec![])),
    ]);
    let result = traverse_and_update(template, "OldSecurityGroup", "NewSecurityGroup");
    assert_eq!(result.get("DependsOn").unwrap(), &s("NewSecurityGroup"));
}

#[test]
fn test_update_dependson_array() {
    let template = obj(vec![
        ("Type", s("AWS::EC2::Instance")),
        ("DependsOn", arr(vec![s("OldSG"), s("OtherResource"), s("OldBucket")])),
        ("Properties", obj(vec![])),
    ]);
    let mut mapping = IdMapping::new();
    mapping.insert("OldSG".to_string(), "NewSG".to_string());
    mapping.insert("OldBucket".to_string(), "NewBucket".to_string());

    let mut result = template.copy();
    for (old_id, new_id) in &mapping.pairs {
        result = traverse_and_update(result, old_id, new_id);
    }

    assert_eq!(
        result.get("DependsOn").unwrap(),
        &arr(vec![s("NewSG"), s("OtherResource"), s("NewBucket")])
    );
}

#[test]
fn test_update_sub_simple() {
    let template = obj(vec![("Fn::Sub", s("arn:aws:s3:::${OldBucket}/*"))]);
    let result = traverse_and_update(template, "OldBucket", "NewBucket");
    assert_eq!(result, obj(vec![("Fn::Sub", s("arn:aws:s3:::${NewBucket}/*"))]));
}

#[test]
fn test_update_sub_multiple_vars() {
    let template = obj(vec![("Fn::Sub", s("${OldBucket}-${OldTable}"))]);
    let mut result = template.copy();
    result = traverse_and_update(result, "OldBucket", "NewBucket");
    result = traverse_and_update(result, "OldTable", "NewTable");
    assert_eq!(result, obj(vec![("Fn::Sub", s("${NewBucket}-${NewTable}"))]));
}

#[test]
fn test_update_sub_no_partial_match() {
    let template = obj(vec![("Fn::Sub", s("${OldBucket}-${OldBucket2}"))]);
    let result = traverse_and_update(template, "OldBucket", "NewBucket");
    assert_eq!(result, obj(vec![("Fn::Sub", s("${NewBucket}-${OldBucket2}"))]));
}

#[test]
fn test_update_sub_with_attribute() {
    let template = obj(vec![("Fn::Sub", s("${OldBucket.Arn}"))]);
    let result = traverse_and_update(template, "OldBucket", "NewBucket");
    assert_eq!(result, obj(vec![("Fn::Sub", s("${NewBucket.Arn}"))]));
}

#[test]
fn test_update_sub_array_form() {
    let template = obj(vec![(
        "Fn::Sub",
        arr(vec![
            s("${BucketName}-suffix"),
            obj(vec![("BucketName", obj(vec![("Ref", s("OldBucket"))]))]),
        ]),
    )]);
    let result = traverse_and_update(template, "OldBucket", "NewBucket");
    assert_eq!(
        result,
        obj(vec![(
            "Fn::Sub",
            arr(vec![
                s("${BucketName}-suffix"),
                obj(vec![("BucketName", obj(vec![("Ref", s("NewBucket"))]))]),
            ]),
        )])
    );
}

#[test]
fn test_update_sub_array_rename_key() {
    let template = obj(vec![(
        "Fn::Sub",
        arr(vec![s("${OldBucket}-suffix"), obj(vec![("OldBucket", s("some-value"))])]),
    )]);
    let result = traverse_and_update(template, "OldBucket", "NewBucket");
    assert_eq!(
        result,
        obj(vec![(
            "Fn::Sub",
            arr(vec![s("${NewBucket}-suffix"), obj(vec![("NewBucket", s("some-value"))])]),
        )])
    );
}

#[test]
fn test_nested_structure() {
    let template = obj(vec![(
        "Resources",
        obj(vec![(
            "MyInstance",
            obj(vec![
                ("Type", s("AWS::EC2::Instance")),
                (
                    "Properties",
                    obj(vec![("SecurityGroups", arr(vec![obj(vec![("Ref", s("OldSG"))])]))]),
                ),
            ]),
        )]),
    )]);
    let result = traverse_and_update(template, "OldSG", "NewSG");
    let groups = at(&result, &["Resources", "MyInstance", "Properties", "SecurityGroups"]);
    assert_eq!(groups.at(0).unwrap(), &obj(vec![("Ref", s("NewSG"))]));
}

#[test]
fn test_multiple_references_same_resource() {
    let template = obj(vec![
        (
            "Resources",
            obj(vec![(
                "Resource1",
                obj(vec![(
                    "Properties",
                    obj(vec![
                        ("Bucket", obj(vec![("Ref", s("OldBucket"))])),
                        ("BucketArn", obj(vec![("Fn::GetAtt", arr(vec![s("OldBucket"), s("Arn")]))])),
                    ]),
                )]),
            )]),
        ),
        (
            "Outputs",
            obj(vec![("BucketName", obj(vec![("Value", obj(vec![("Ref", s("OldBucket"))]))]))]),
        ),
    ]);
    let result = traverse_and_update(template, "OldBucket", "NewBucket");

    assert_eq!(
        at(&result, &["Resources", "Resource1", "Properties", "Bucket"]),
        &obj(vec![("Ref", s("NewBucket"))])
    );
    assert_eq!(
        at(&result, &["Resources", "Resource1", "Properties", "BucketArn"]),
        &obj(vec![("Fn::GetAtt", arr(vec![s("NewBucket"), s("Arn")]))])
    );
    assert_eq!(
        at(&result, &["Outputs", "BucketName", "Value"]),
        &obj(vec![("Ref", s("NewBucket"))])
    );
}

#[test]
fn test_update_template_references_main_api() {
    let template = obj(vec![(
        "Resources",
        obj(vec![(
            "MyLambda",
            obj(vec![
                ("Type", s("AWS::Lambda::Function")),
                (
                    "Properties",
                    obj(vec![(
                        "Environment",
                        obj(vec![(
                            "Variables",
                            obj(vec![
                                ("BUCKET", obj(vec![("Ref", s("OldBucket"))])),
                                ("TABLE", obj(vec![("Ref", s("OldTable"))])),
                            ]),
                        )]),
                    )]),
                ),
            ]),
        )]),
    )]);

    let mut mapping = IdMapping::new();
    mapping.insert("OldBucket".to_string(), "NewBucket".to_string());
    mapping.insert("OldTable".to_string(), "NewTable".to_string());

    let result = update_template_references(template, &mapping);

    let vars = at(&result, &["Resources", "MyLambda", "Properties", "Environment", "Variables"]);
    assert_eq!(vars.get("BUCKET").unwrap(), &obj(vec![("Ref", s("NewBucket"))]));
    assert_eq!(vars.get("TABLE").unwrap(), &obj(vec![("Ref", s("NewTable"))]));
}

#[test]
fn test_find_all_references_ref() {
    let template = obj(vec![(
        "Resources",
        obj(vec![
            (
                "Lambda",
                obj(vec![
                    ("Type", s("AWS::Lambda::Function")),
                    (
                        "Properties",
                        obj(vec![(
                            "Environment",
                            obj(vec![(
                                "Variables",
                                obj(vec![("BUCKET", obj(vec![("Ref", s("MyBucket"))]))]),
                            )]),
                        )]),
                    ),
                ]),
            ),
            ("MyBucket", obj(vec![("Type", s("AWS::S3::Bucket"))])),
        ]),
    )]);

    let references = find_all_references(&template);
    assert!(references.get("Lambda").is_some());
    assert!(references.contains("Lambda", "MyBucket"));
}

#[test]
fn test_find_all_references_getatt() {
    let template = obj(vec![(
        "Resources",
        obj(vec![(
            "Lambda",
            obj(vec![
                ("Type", s("AWS::Lambda::Function")),
                (
                    "Properties",
                    obj(vec![("TableArn", obj(vec![("Fn::GetAtt", arr(vec![s("MyTable"), s("Arn")]))]))]),
                ),
            ]),
        )]),
    )]);

    let references = find_all_references(&template);
    assert!(references.contains("Lambda", "MyTable"));
}

#[test]
fn test_find_all_references_dependson() {
    let template = obj(vec![(
        "Resources",
        obj(vec![(
            "Instance",
            obj(vec![
                ("Type", s("AWS::EC2::Instance")),
                ("DependsOn", s("MySecurityGroup")),
                ("Properties", obj(vec![])),
            ]),
        )]),
    )]);

    let references = find_all_references(&template);
    assert!(references.contains("Instance", "MySecurityGroup"));
}

#[test]
fn test_find_all_references_sub() {
    let template = obj(vec![(
        "Resources",
        obj(vec![(
            "Policy",
            obj(vec![
                ("Type", s("AWS::IAM::Policy")),
                (
                    "Properties",
                    obj(vec![(
                        "PolicyDocument",
                        obj(vec![(
                            "Statement",
                            arr(vec![obj(vec![(
                                "Resource",
                                obj(vec![("Fn::Sub", s("arn:aws:s3:::${MyBucket}/*"))]),
                            )])]),
                        )]),
                    )]),
                ),
            ]),
        )]),
    )]);

    let references = find_all_references(&template);
    assert!(references.contains("Policy", "MyBucket"));
}

#[test]
fn test_find_all_references_outputs() {
    let template = obj(vec![
        ("Resources", obj(vec![("MyBucket", obj(vec![("Type", s("AWS::S3::Bucket"))]))])),
        (
            "Outputs",
            obj(vec![("BucketName", obj(vec![("Value", obj(vec![("Ref", s("MyBucket"))]))]))]),
        ),
    ]);

    let references = find_all_references(&template);
    assert!(references.get("Outputs").is_some());
    assert!(references.contains("Outputs", "MyBucket"));
}

#[test]
fn test_find_all_references_multiple() {
    let template = obj(vec![(
        "Resources",
        obj(vec![(
            "Lambda",
            obj(vec![
                ("Type", s("AWS::Lambda::Function")),
                ("DependsOn", arr(vec![s("MyBucket"), s("MyTable")])),
                (
                    "Properties",
                    obj(vec![
                        (
                            "Environment",
                            obj(vec![(
                                "Variables",
                                obj(vec![
                                    ("BUCKET", obj(vec![("Ref", s("MyBucket"))])),
                                    (
                                        "TABLE_ARN",
                                        obj(vec![("Fn::GetAtt", arr(vec![s("MyTable"), s("Arn")]))]),
                                    ),
                                ]),
                            )]),
                        ),
                        (
                            "Role",
                            obj(vec![(
                                "Fn::Sub",
                                s("arn:aws:iam::${AWS::AccountId}:role/${MyRole}"),
                            )]),
                        ),
                    ]),
                ),
            ]),
        )]),
    )]);

    let references = find_all_references(&template);

    assert!(references.contains("Lambda", "MyBucket"));
    assert!(references.contains("Lambda", "MyTable"));
    assert!(references.contains("Lambda", "MyRole"));
    assert!(!references.contains("Lambda", "AWS::AccountId"));
}

#[test]
fn test_find_all_references_ignores_pseudo_parameters() {
    let template = obj(vec![(
        "Resources",
        obj(vec![(
            "Resource",
            obj(vec![
                ("Type", s("AWS::S3::Bucket")),
                (
                    "Properties",
                    obj(vec![
                        ("BucketName", obj(vec![("Fn::Sub", s("${AWS::StackName}-bucket"))])),
                        (
                            "Tags",
                            arr(vec![obj(vec![
                                ("Key", s("Region")),
                                ("Value", obj(vec![("Ref", s("AWS::Region"))])),
                            ])]),
                        ),
                    ]),
                ),
            ]),
        )]),
    )]);

    let references = find_all_references(&template);

    if references.get("Resource").is_some() {
        assert!(!references.contains("Resource", "AWS::StackName"));
        assert!(!references.contains("Resource", "AWS::Region"));
    }
}
