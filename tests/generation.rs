use terrars::generate::{
    name_collision, provider_key_text, provider_prefix, select_entities, split_provider_source, SelectError, Selected,
};
use terrars::schema::{
    map_field, reserved_clash, synthesize, AttrType, Base, Coll, FieldDescriptor, Input, Presence, SchemaKind, SchemaNode,
};

fn strings(v: &[&str]) -> Vec<String> {
    v.iter().map(|s| s.to_string()).collect()
}

fn attr(name: &str, presence: Presence, t: AttrType) -> SchemaNode {
    SchemaNode { name: name.to_string(), presence, kind: SchemaKind::Attr(t) }
}

#[test]
fn allow_list_keeps_only_listed() {
    let r = select_entities(
        &strings(&["x_widget", "x_gadget"]),
        &strings(&[]),
        "x_",
        &strings(&["widget"]),
        &strings(&[]),
    );
    match r {
        Ok(s) => {
            assert_eq!(s.resources, strings(&["widget"]));
            assert!(s.datasources.is_empty());
        },
        Err(_) => panic!("expected a selection"),
    }
}

#[test]
fn allow_list_reports_unmatched() {
    let r = select_entities(
        &strings(&["x_widget", "x_gadget"]),
        &strings(&[]),
        "x_",
        &strings(&["widget", "missing"]),
        &strings(&[]),
    );
    match r {
        Err(SelectError::Unmatched(v)) => assert_eq!(v, strings(&["missing"])),
        _ => panic!("expected unmatched entries"),
    }
}

#[test]
fn exclude_list_and_datasources() {
    let r = select_entities(
        &strings(&["x_widget", "x_gadget"]),
        &strings(&["x_info"]),
        "x_",
        &strings(&[]),
        &strings(&["gadget", "info"]),
    );
    match r {
        Ok(s) => {
            assert_eq!(s.resources, strings(&["widget"]));
            assert_eq!(s.datasources, strings(&["data_info"]));
        },
        Err(_) => panic!("expected a selection"),
    }
    let r = select_entities(&strings(&["x_a"]), &strings(&["x_b"]), "x_", &strings(&["data_b"]), &strings(&[]));
    match r {
        Ok(s) => {
            assert!(s.resources.is_empty());
            assert_eq!(s.datasources, strings(&["data_b"]));
        },
        Err(_) => panic!("expected a selection"),
    }
}

#[test]
fn names_without_prefix_fail() {
    let r = select_entities(&strings(&["x_a", "y_b"]), &strings(&[]), "x_", &strings(&[]), &strings(&[]));
    match r {
        Err(SelectError::MissingPrefix(n)) => assert_eq!(n, "y_b"),
        _ => panic!("expected a missing prefix"),
    }
}

#[test]
fn provider_source_split() {
    assert_eq!(split_provider_source("hashicorp/aws"), (String::from("hashicorp"), String::from("aws")));
    assert_eq!(split_provider_source("aws"), (String::from("hashicorp"), String::from("aws")));
    assert_eq!(split_provider_source("a/b/c"), (String::from("a"), String::from("b/c")));
    assert_eq!(provider_key_text("hashicorp", "aws"), "registry.terraform.io/hashicorp/aws");
    assert_eq!(provider_prefix("aws"), "aws_");
}

fn sample() -> SchemaNode {
    SchemaNode {
        name: String::from("rule"),
        presence: Presence::Optional,
        kind: SchemaKind::Block {
            children: vec![
                attr("name", Presence::Required, AttrType::Str),
                attr("ports", Presence::Optional, AttrType::ListOf(Box::new(AttrType::Number))),
                attr("id", Presence::Computed, AttrType::Str),
                SchemaNode {
                    name: String::from("rule"),
                    presence: Presence::Optional,
                    kind: SchemaKind::Block {
                        children: vec![attr("on", Presence::Required, AttrType::Bool)],
                        max_items: 1,
                        set: false,
                    },
                },
            ],
            max_items: 0,
            set: true,
        },
    }
}

fn paths(v: &Vec<FieldDescriptor>) -> Vec<Vec<String>> {
    v.iter().map(|f| f.path.clone()).collect()
}

#[test]
fn mapping_nested_blocks() {
    let fs = match map_field(&sample(), &strings(&["fw"])) {
        Ok(v) => v,
        Err(p) => panic!("failed at {:?}", p),
    };
    assert_eq!(
        paths(&fs),
        vec![
            strings(&["fw", "rule"]),
            strings(&["fw", "rule", "name"]),
            strings(&["fw", "rule", "ports"]),
            strings(&["fw", "rule", "id"]),
            strings(&["fw", "rule", "rule"]),
            strings(&["fw", "rule", "rule", "on"]),
        ]
    );
    assert!(fs[0].base == Base::Record && fs[0].wrappers == vec![Coll::SetOf] && fs[0].input == Input::Defaulted);
    assert!(fs[2].base == Base::Number && fs[2].wrappers == vec![Coll::ListOf]);
    assert!(fs[3].input == Input::ReadOnly);
    assert!(fs[4].base == Base::Record && fs[4].wrappers.is_empty());
    let again = match map_field(&sample(), &strings(&["fw"])) {
        Ok(v) => v,
        Err(_) => panic!("second mapping failed"),
    };
    assert_eq!(paths(&again), paths(&fs));
    assert!(again.iter().zip(fs.iter()).all(|(a, b)| a.base == b.base && a.wrappers == b.wrappers && a.input == b.input));
}

#[test]
fn unsupported_type_names_its_path() {
    let n = SchemaNode {
        name: String::from("b"),
        presence: Presence::Optional,
        kind: SchemaKind::Block {
            children: vec![
                attr("ok", Presence::Optional, AttrType::Str),
                attr("bad", Presence::Optional, AttrType::MapOf(Box::new(AttrType::Unsupported(String::from("tuple"))))),
            ],
            max_items: 1,
            set: false,
        },
    };
    match map_field(&n, &strings(&["r"])) {
        Err(p) => assert_eq!(p, strings(&["r", "b", "bad"])),
        Ok(_) => panic!("expected a failure"),
    }
}

#[test]
fn builder_takes_only_required_fields() {
    let fs = match map_field(&sample(), &strings(&["fw"])) {
        Ok(v) => v,
        Err(_) => panic!("mapping failed"),
    };
    let s = synthesize(&fs, &strings(&["fw", "rule"]));
    assert_eq!(s.builder_inputs, vec![1]);
    assert_eq!(s.mutators, vec![2, 4]);
    assert_eq!(s.references, vec![1, 2, 3, 4]);
    let inner = synthesize(&fs, &strings(&["fw", "rule", "rule"]));
    assert_eq!(inner.builder_inputs, vec![5]);
    assert!(inner.mutators.is_empty());
}

#[test]
fn generated_names_must_not_collide() {
    let clash = Selected { resources: strings(&["data_foo", "bar"]), datasources: strings(&["data_foo"]) };
    assert_eq!(name_collision(&clash), Some(String::from("data_foo")));
    let fine = Selected { resources: strings(&["foo", "bar"]), datasources: strings(&["data_foo"]) };
    assert_eq!(name_collision(&fine), None);
}

#[test]
fn reserved_field_names_are_refused() {
    let fs = match map_field(&attr("lifecycle", Presence::Optional, AttrType::Str), &strings(&["r"])) {
        Ok(v) => v,
        Err(_) => panic!("mapping failed"),
    };
    assert_eq!(reserved_clash(&fs, &strings(&["r"])), Some(strings(&["r", "lifecycle"])));
    let ok = match map_field(&sample(), &strings(&["r"])) {
        Ok(v) => v,
        Err(_) => panic!("mapping failed"),
    };
    assert_eq!(reserved_clash(&ok, &strings(&["r"])), None);
}
