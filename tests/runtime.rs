use terrars::entity::{
    BlockAssignable, DynamicBlock, DatasourceData, IgnoreChanges, PathRef, ProviderData, ResourceData, ResourceLifecycle, SerdeSkipDefault,
};
use terrars::expr::{PrimExpr, StackShared};
use terrars::list_ref::{ListRef, MapKV, MapListRef, MapListRefToRec, Ref};
use terrars::stack::{BuildStack, ComponentType, StackError};

fn doc(r: Result<String, StackError>) -> String {
    match r {
        Ok(s) => s,
        Err(StackError::Duplicate(k, t, id)) => panic!("duplicate {:?} {} {}", k, t, id),
    }
}

#[test]
fn sentinel_tokens_count_up() {
    let mut shared = StackShared::new();
    assert_eq!(shared.add_sentinel("a.b"), "_TERRARS_SENTINEL_0_");
    assert_eq!(shared.add_sentinel("c"), "_TERRARS_SENTINEL_1_");
    assert_eq!(shared.len(), 2);
    assert_eq!(shared.resolve("x _TERRARS_SENTINEL_1_ y _TERRARS_SENTINEL_0_"), "x ${c} y ${a.b}");
    shared.clear();
    assert_eq!(shared.len(), 0);
    assert_eq!(shared.resolve("_TERRARS_SENTINEL_0_"), "_TERRARS_SENTINEL_0_");
}

#[test]
fn sentinel_ten_is_not_mistaken_for_one() {
    let mut shared = StackShared::new();
    for i in 0..11 {
        shared.add_sentinel(&format!("e{}", i));
    }
    assert_eq!(shared.resolve("[_TERRARS_SENTINEL_10_][_TERRARS_SENTINEL_1_]"), "[${e10}][${e1}]");
}

#[test]
fn literals_render_as_expressions() {
    let stack = BuildStack {}.build();
    assert_eq!(stack.expr_lit(true).raw(), "true");
    assert_eq!(stack.expr_lit(false).raw(), "false");
    assert_eq!(stack.expr_lit(-42i64).raw(), "-42");
    assert_eq!(stack.expr_lit(i64::MIN).raw(), "-9223372036854775808");
    assert_eq!(stack.expr_lit(7i64).raw(), "7");
    assert_eq!(stack.expr_lit(String::from("hi")).raw(), "\"hi\"");
    assert_eq!(stack.expr_lit(String::from("a\"b")).raw(), "\"a\\\"b\"");
    let e: PrimExpr<String> = stack.expr("var.x");
    assert_eq!(e.raw(), "var.x");
}

#[test]
fn function_calls_join_arguments() {
    let stack = BuildStack {}.build();
    let f: PrimExpr<i64> = stack.func("max").a(&stack.expr_lit(1i64)).a(&stack.expr_lit(2i64)).finish();
    assert_eq!(f.raw(), "max(1,2)");
    let g: PrimExpr<String> = stack.func("uuid").finish();
    assert_eq!(g.raw(), "uuid()");
}

#[test]
fn list_references_index_and_loop() {
    let l: ListRef<PathRef> = ListRef::new(String::from("aws_x.y.items"));
    assert_eq!(l.get(3).extract_ref(), "aws_x.y.items[3]");
    let kv: MapKV<PathRef> = MapKV::new();
    assert_eq!(kv.key().raw(), "each.key");
    assert_eq!(kv.value().extract_ref(), "each.value");
    let (r, refs) = l.map(|v: PathRef| {
        ResourceData::new("aws_y", "z").set_str("src", &v.extract_ref())
    });
    assert_eq!(r.for_each, Some(String::from("${aws_x.y.items}")));
    assert_eq!(r.fields[0].1, "\"each.value\"");
    assert_eq!(refs.get(0).extract_ref(), "aws_y.z[0]");
    let m: MapListRef<PathRef> = MapListRef::new(String::from("base"), String::from("each.value.k"));
    let (d, drefs) = m.map(|v: PathRef| DatasourceData::new("aws_d", "q").set_field("k", v.extract_ref()));
    assert_eq!(d.for_each, Some(String::from("${base}")));
    assert_eq!(d.fields[0].1, "each.value.k");
    assert_eq!(drefs.get(1).extract_ref(), "data.aws_d.q[1]");
    let _rec: MapListRefToRec<PathRef> = MapListRefToRec::new(String::from("b"), String::from("k"), String::from("v"));
}

#[test]
fn ignore_changes_all_dominates() {
    let r = ResourceData::new("x_thing", "a").ignore_changes_to_all().ignore_changes_to_attr("name");
    assert!(matches!(r.lifecycle.ignore_changes, Some(IgnoreChanges::All(_))));
    let r2 = ResourceData::new("x_thing", "b").ignore_changes_to_attr("name").ignore_changes_to_attr("tags");
    match r2.lifecycle.ignore_changes {
        Some(IgnoreChanges::Refs(v)) => assert_eq!(v, vec![String::from("name"), String::from("tags")]),
        _ => panic!("expected a list"),
    }
    let r3 = ResourceData::new("x_thing", "c").ignore_changes_to_attr("name").ignore_changes_to_all();
    assert!(matches!(r3.lifecycle.ignore_changes, Some(IgnoreChanges::All(_))));
}

#[test]
fn lifecycle_renders_only_when_set() {
    let r = ResourceData::new("x_thing", "a");
    assert_eq!(r.render(), "{}");
    let r = r.set_prevent_destroy(true).ignore_changes_to_all();
    assert_eq!(
        r.render(),
        "{\"lifecycle\":{\"create_before_destroy\":false,\"prevent_destroy\":true,\"ignore_changes\":\"all\",\"replace_triggered_by\":[]}}"
    );
}

#[test]
fn empty_graph_has_only_engine_section() {
    let stack = BuildStack {}.build();
    assert_eq!(
        doc(stack.serialize("state.tfstate")),
        "{\"terraform\":{\"backend\":{\"local\":{\"path\":\"state.tfstate\"}},\"required_providers\":{}}}"
    );
}

#[test]
fn duplicate_resource_ids_fail() {
    let mut stack = BuildStack {}.build();
    stack.add_resource(ResourceData::new("x_thing", "a"));
    stack.add_resource(ResourceData::new("x_thing", "a"));
    match stack.serialize("s") {
        Err(StackError::Duplicate(k, t, id)) => {
            assert_eq!(k, ComponentType::Resource);
            assert_eq!(t, "x_thing");
            assert_eq!(id, "a");
        },
        Ok(_) => panic!("expected a duplicate"),
    }
}

#[test]
fn same_id_under_other_types_is_fine() {
    let mut stack = BuildStack {}.build();
    stack.add_resource(ResourceData::new("x_thing", "a"));
    stack.add_resource(ResourceData::new("x_other", "a"));
    stack.add_datasource(DatasourceData::new("x_thing", "a"));
    assert!(stack.serialize("s").is_ok());
}

#[test]
fn duplicate_variables_and_outputs_fail() {
    let mut stack = BuildStack {}.build();
    stack.add_variable("v", String::from("{}"));
    stack.add_variable("v", String::from("{}"));
    assert!(matches!(stack.serialize("s"), Err(StackError::Duplicate(ComponentType::Variable, _, _))));
    let mut stack = BuildStack {}.build();
    stack.add_output("o", String::from("{}"));
    stack.add_output("o", String::from("{}"));
    assert!(matches!(stack.serialize("s"), Err(StackError::Duplicate(ComponentType::Output, _, _))));
    let mut stack = BuildStack {}.build();
    stack.add_datasource(DatasourceData::new("d", "x"));
    stack.add_datasource(DatasourceData::new("d", "x"));
    assert!(matches!(stack.serialize("s"), Err(StackError::Duplicate(ComponentType::Datasource, _, _))));
}

#[test]
fn serializing_twice_gives_same_bytes() {
    let mut stack = BuildStack {}.build();
    let p = ProviderData::new("aws", "hashicorp/aws", "5.0");
    let r = ResourceData::new("aws_bucket", "b").set_provider(&p).set_str("name", "n");
    let e: PrimExpr<String> = stack.expr("aws_bucket.b.arn");
    let r2 = ResourceData::new("aws_policy", "p").set_expr("target", &e, &mut stack.shared);
    stack.add_provider(p);
    stack.add_resource(r);
    stack.add_resource(r2);
    let a = doc(stack.serialize("st"));
    let b = doc(stack.serialize("st"));
    assert_eq!(a, b);
}

#[test]
fn sentinel_resolves_to_expression_once() {
    let mut stack = BuildStack {}.build();
    let e: PrimExpr<String> = stack.expr("aws_bucket.b.arn");
    let r = ResourceData::new("aws_policy", "p").set_expr("target", &e, &mut stack.shared);
    stack.add_resource(r);
    let out = doc(stack.serialize("st"));
    assert!(!out.contains("_TERRARS_SENTINEL_"));
    assert_eq!(out.matches("${aws_bucket.b.arn}").count(), 1);
    assert!(out.contains("\"target\":\"${aws_bucket.b.arn}\""));
}

#[test]
fn document_groups_and_sorts() {
    let mut stack = BuildStack {}.build();
    stack.add_resource(ResourceData::new("b_t", "z").set_field("n", String::from("1")));
    stack.add_resource(ResourceData::new("a_t", "y"));
    stack.add_resource(ResourceData::new("b_t", "a"));
    stack.add_provider(ProviderData::new("aws", "hashicorp/aws", "5.0").set_alias("east"));
    stack.add_provider(ProviderData::new("aws", "hashicorp/aws", "6.0"));
    stack.add_variable("v", String::from("{\"type\":\"string\"}"));
    stack.add_output("o", String::from("{\"value\":1}"));
    let out = doc(stack.serialize("st"));
    assert_eq!(
        out,
        [
            "{\"output\":{\"o\":{\"value\":1}},",
            "\"provider\":{\"aws\":[{\"alias\":\"east\"},{}]},",
            "\"resource\":{\"a_t\":{\"y\":{}},\"b_t\":{\"a\":{},\"z\":{\"n\":1}}},",
            "\"terraform\":{\"backend\":{\"local\":{\"path\":\"st\"}},",
            "\"required_providers\":{\"aws\":{\"source\":\"hashicorp/aws\",\"version\":\"5.0\"}}},",
            "\"variable\":{\"v\":{\"type\":\"string\"}}}",
        ]
        .concat()
    );
}

#[test]
fn references_follow_identity() {
    let r = ResourceData::new("aws_bucket", "b").set_str("name", "n").set_str("acl", "private");
    let a: PathRef = r.field_ref("name");
    let b: PathRef = r.field_ref("acl");
    assert_eq!(a.extract_ref(), "aws_bucket.b.name");
    assert_eq!(b.extract_ref(), "aws_bucket.b.acl");
    let r2 = ResourceData::new("aws_bucket", "b").set_str("acl", "private").set_str("name", "n");
    let a2: PathRef = r2.field_ref("name");
    assert_eq!(a2.extract_ref(), a.extract_ref());
    let d = DatasourceData::new("aws_ami", "x");
    let dr: PathRef = d.field_ref("id");
    assert_eq!(dr.extract_ref(), "data.aws_ami.x.id");
}

#[test]
fn setting_a_field_twice_replaces_it() {
    let r = ResourceData::new("t", "i").set_str("a", "1").set_str("b", "2").set_str("a", "3");
    assert_eq!(r.fields.len(), 2);
    assert_eq!(r.fields[0], (String::from("a"), String::from("\"3\"")));
}

#[test]
fn resource_record_members() {
    let p = ProviderData::new("aws", "hashicorp/aws", "5.0").set_alias("west");
    assert_eq!(p.provider_ref(), "aws.west");
    assert_eq!(ProviderData::new("aws", "s", "v").provider_ref(), "aws");
    let dep = ResourceData::new("aws_vpc", "v");
    let r = ResourceData::new("aws_subnet", "s")
        .depends_on(&dep)
        .set_provider(&p)
        .replace_triggered_by_resource(&dep)
        .replace_triggered_by_attr("aws_vpc.v.id")
        .set_create_before_destroy(true);
    assert_eq!(
        r.render(),
        [
            "{\"depends_on\":[\"aws_vpc.v\"],\"provider\":\"aws.west\",",
            "\"lifecycle\":{\"create_before_destroy\":true,\"prevent_destroy\":false,",
            "\"replace_triggered_by\":[\"aws_vpc.v\",\"aws_vpc.v.id\"]}}",
        ]
        .concat()
    );
    assert_eq!(p.render(), "{\"alias\":\"west\"}");
    assert_eq!(p.render_type(), "{\"source\":\"hashicorp/aws\",\"version\":\"5.0\"}");
}

#[test]
fn defaults_are_skipped() {
    let l = ResourceLifecycle::new();
    assert!(l.is_default());
    assert!(!l.is_not_default());
    let r = ResourceData::new("t", "i").set_create_before_destroy(true);
    assert!(r.lifecycle.is_not_default());
    let none: Option<String> = None;
    assert!(none.is_default());
    assert!(Some(String::from("x")).is_not_default());
}

#[test]
fn blocks_convert_from_literals_and_loops() {
    let b: BlockAssignable<i64> = vec![1i64, 2].into();
    assert!(matches!(b, BlockAssignable::Literal(ref v) if v == &vec![1i64, 2]));
    let d: BlockAssignable<i64> = DynamicBlock { for_each: String::from("${var.x}"), iterator: String::from("it"), content: 3i64 }.into();
    assert!(matches!(d, BlockAssignable::Dynamic(ref x) if x.content == 3 && x.iterator == "it"));
}
