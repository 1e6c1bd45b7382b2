use lazymcp::text::{join, trim};
use lazymcp::toolgen::{
    describe, destructuring_message, extract_docs, extract_state_inner_type, plan_tool, AttrShape,
    FnArgShape, GenericArgShape, ParamPlan, PathSegmentShape, PatternShape, PlanError,
    SegmentArgsShape, ToolFnShape, TypeShape,
};

fn path(segments: &[(&str, SegmentArgsShape)]) -> TypeShape {
    TypeShape::Path {
        segments: segments
            .iter()
            .map(|(ident, _)| PathSegmentShape { ident: ident.to_string(), arguments: SegmentArgsShape::NoArgs })
            .collect(),
    }
}

fn state_of(id: usize) -> TypeShape {
    TypeShape::Path {
        segments: vec![
            PathSegmentShape { ident: "lazymcp".to_string(), arguments: SegmentArgsShape::NoArgs },
            PathSegmentShape {
                ident: "State".to_string(),
                arguments: SegmentArgsShape::AngleBracketed { first: Some(GenericArgShape::Type { id }) },
            },
        ],
    }
}

fn doc(t: &str) -> AttrShape {
    AttrShape { path_ident: Some("doc".to_string()), string_value: Some(t.to_string()) }
}

fn doc_hidden() -> AttrShape {
    AttrShape { path_ident: Some("doc".to_string()), string_value: None }
}

fn other() -> AttrShape {
    AttrShape { path_ident: Some("allow".to_string()), string_value: None }
}

fn namespaced_doc(t: &str) -> AttrShape {
    AttrShape { path_ident: None, string_value: Some(t.to_string()) }
}

fn typed(name: &str, ty: TypeShape, attrs: Vec<AttrShape>) -> FnArgShape {
    FnArgShape::Typed { pattern: PatternShape::Ident(name.to_string()), ty, attrs }
}

#[test]
fn trim_removes_outer_white_space() {
    assert_eq!(trim("  The dividend \t"), "The dividend");
    assert_eq!(trim(""), "");
    assert_eq!(trim(" \n "), "");
    assert_eq!(trim("a b"), "a b");
    assert_eq!(trim("\u{3000}x\u{a0}"), "x");
}

#[test]
fn join_puts_separator_between() {
    let parts = vec!["a".to_string(), "b".to_string(), "c".to_string()];
    assert_eq!(join(&parts, "\n"), "a\nb\nc");
    assert_eq!(join(&vec![], "\n"), "");
    assert_eq!(join(&vec!["x".to_string()], ", "), "x");
}

#[test]
fn docs_are_trimmed_doc_texts() {
    let attrs = vec![
        doc(" Create a new task."),
        other(),
        doc_hidden(),
        namespaced_doc(" not a doc line"),
        doc(" Longer comments also work."),
    ];
    assert_eq!(extract_docs(&attrs), vec!["Create a new task.".to_string(), "Longer comments also work.".to_string()]);
}

#[test]
fn description_joins_lines() {
    assert_eq!(describe(&vec![]), None);
    assert_eq!(
        describe(&vec!["Create a new task.".to_string(), "Longer comments also work.".to_string()]),
        Some("Create a new task.\nLonger comments also work.".to_string())
    );
}

#[test]
fn state_inner_type_is_found() {
    assert_eq!(extract_state_inner_type(&state_of(3)), Some(3));
    assert_eq!(extract_state_inner_type(&path(&[("String", SegmentArgsShape::NoArgs)])), None);
    assert_eq!(extract_state_inner_type(&TypeShape::Other), None);
    let bare = TypeShape::Path {
        segments: vec![PathSegmentShape { ident: "State".to_string(), arguments: SegmentArgsShape::NoArgs }],
    };
    assert_eq!(extract_state_inner_type(&bare), None);
    let lifetime_first = TypeShape::Path {
        segments: vec![PathSegmentShape {
            ident: "State".to_string(),
            arguments: SegmentArgsShape::AngleBracketed { first: Some(GenericArgShape::NotAType) },
        }],
    };
    assert_eq!(extract_state_inner_type(&lifetime_first), None);
    let inner_state = TypeShape::Path {
        segments: vec![
            PathSegmentShape {
                ident: "State".to_string(),
                arguments: SegmentArgsShape::AngleBracketed { first: Some(GenericArgShape::Type { id: 1 }) },
            },
            PathSegmentShape { ident: "Inner".to_string(), arguments: SegmentArgsShape::NoArgs },
        ],
    };
    assert_eq!(extract_state_inner_type(&inner_state), None);
}

#[test]
fn plan_for_stateful_tool() {
    let f = ToolFnShape {
        name: "create_task".to_string(),
        attrs: vec![doc(" Create a new task."), doc(" Longer comments also work.")],
        is_async: true,
        args: vec![
            typed("title", path(&[("String", SegmentArgsShape::NoArgs)]), vec![doc(" Task title or summary")]),
            typed("priority", path(&[("Priority", SegmentArgsShape::NoArgs)]), vec![other(), doc(" Priority level")]),
            typed("state", state_of(0), vec![doc(" The store"), other()]),
        ],
    };
    let plan = plan_tool(&f).unwrap();
    assert_eq!(plan.name, "create_task");
    assert_eq!(plan.args_struct_name, "create_task_args");
    assert_eq!(plan.tool_struct_name, "create_task_tool");
    assert!(plan.awaits);
    assert_eq!(plan.description, Some("Create a new task.\nLonger comments also work.".to_string()));
    assert_eq!(plan.params.len(), 3);
    match &plan.params[0] {
        ParamPlan::Field { ident, doc_attrs, kept_attrs } => {
            assert_eq!(ident, "title");
            assert_eq!(doc_attrs, &vec![0]);
            assert!(kept_attrs.is_empty());
        }
        _ => panic!("title is a field"),
    }
    match &plan.params[1] {
        ParamPlan::Field { ident, doc_attrs, kept_attrs } => {
            assert_eq!(ident, "priority");
            assert_eq!(doc_attrs, &vec![1]);
            assert_eq!(kept_attrs, &vec![0]);
        }
        _ => panic!("priority is a field"),
    }
    match &plan.params[2] {
        ParamPlan::State { ident, inner_type, kept_attrs } => {
            assert_eq!(ident, "state");
            assert_eq!(*inner_type, 0);
            assert_eq!(kept_attrs, &vec![1]);
        }
        _ => panic!("state is injected"),
    }
}

#[test]
fn plan_without_docs_has_no_description() {
    let f = ToolFnShape {
        name: "safe_div".to_string(),
        attrs: vec![other()],
        is_async: false,
        args: vec![FnArgShape::Receiver, typed("a", path(&[("i32", SegmentArgsShape::NoArgs)]), vec![])],
    };
    let plan = plan_tool(&f).unwrap();
    assert_eq!(plan.description, None);
    assert!(!plan.awaits);
    assert_eq!(plan.params.len(), 1);
}

#[test]
fn destructuring_parameter_is_refused() {
    let f = ToolFnShape {
        name: "bad".to_string(),
        attrs: vec![],
        is_async: false,
        args: vec![
            typed("a", path(&[("i32", SegmentArgsShape::NoArgs)]), vec![]),
            FnArgShape::Typed { pattern: PatternShape::Destructuring, ty: TypeShape::Other, attrs: vec![] },
            FnArgShape::Typed { pattern: PatternShape::Destructuring, ty: TypeShape::Other, attrs: vec![] },
        ],
    };
    assert_eq!(plan_tool(&f).err(), Some(PlanError::DestructuringPattern { arg_index: 1 }));
    assert_eq!(
        destructuring_message(),
        "lazymcp: destructuring patterns in tool arguments are not supported, use simple identifiers (e.g. `name: Type`)"
    );
}

#[test]
fn trim_twice_is_trim_once() {
    let once = trim("\t doc line \n");
    assert_eq!(trim(&once), once);
}
