use bevy_utility_ai::signature::{
    input_system_signature, parse_input, parse_tuple_input, split_inputs, target_selector_signature,
    targeted_input_signature, ArgShape, ElemShape, ParamShape, PatShape, Segment, SigType, SyntaxErrorKind,
    TypeShape,
};

fn seg(name: &str) -> Segment<String> {
    Segment { name: name.to_string(), tokens: format!("seg:{}", name) }
}

fn reference(path: &[&str]) -> TypeShape<String> {
    TypeShape::Reference {
        elem: ElemShape::Path { segments: path.iter().map(|s| seg(s)).collect() },
        tokens: format!("&{}", path.join("::")),
    }
}

fn path(p: &[&str]) -> TypeShape<String> {
    TypeShape::Path { segments: p.iter().map(|s| seg(s)).collect(), tokens: format!("path:{}", p.join("::")) }
}

fn arg(name: &str, ty: TypeShape<String>) -> ArgShape<String> {
    ArgShape::Typed {
        tokens: format!("arg:{}", name),
        param: ParamShape { pat: PatShape::Ident { name: name.to_string(), ident: format!("id:{}", name) }, ty },
    }
}

fn tuple(elems: Vec<TypeShape<String>>, tokens: &str) -> TypeShape<String> {
    TypeShape::Tuple { elems, tokens: tokens.to_string() }
}

#[test]
fn parse_input_reads_components_resources_and_entity() {
    let p = parse_input(arg("some_data", reference(&["crate", "SomeData"]))).ok().unwrap();
    assert!(p.sig_type == SigType::Component);
    assert_eq!(p.ident, "id:some_data");
    assert_eq!(p.tokens, "seg:SomeData");
    let p = parse_input(arg("time", path(&["Res", "Time"]))).ok().unwrap();
    assert!(p.sig_type == SigType::Extra);
    assert_eq!(p.tokens, "path:Res::Time");
    let p = parse_input(arg("r", path(&["ResMut"]))).ok().unwrap();
    assert!(p.sig_type == SigType::Extra);
    let p = parse_input(arg("e", path(&["Entity"]))).ok().unwrap();
    assert!(p.sig_type == SigType::Entity);
}

#[test]
fn parse_input_refusals() {
    let e = parse_input(arg("x", path(&["Query"]))).err().unwrap();
    assert!(e.kind == SyntaxErrorKind::UnexpectedType);
    assert_eq!(e.span, "path:Query");
    assert_eq!(e.kind.message(), "Expected the parameter type to be a reference, Res or ResMut");
    let e = parse_input(arg("x", TypeShape::Other { tokens: "fn()".to_string() })).err().unwrap();
    assert!(e.kind == SyntaxErrorKind::UnexpectedType);
    let bad_ref = TypeShape::Reference {
        elem: ElemShape::Other { tokens: "[u8]".to_string() },
        tokens: "&[u8]".to_string(),
    };
    let e = parse_input(arg("x", bad_ref)).err().unwrap();
    assert!(e.kind == SyntaxErrorKind::ExpectedComponent);
    assert_eq!(e.span, "[u8]");
    let pattern = ArgShape::Typed {
        tokens: "arg".to_string(),
        param: ParamShape { pat: PatShape::Other { tokens: "(a, b)".to_string() }, ty: path(&["Res"]) },
    };
    let e = parse_input(pattern).err().unwrap();
    assert!(e.kind == SyntaxErrorKind::ExpectedIdentity);
    assert_eq!(e.span, "(a, b)");
    assert_eq!(e.kind.message(), "Expected an Identity");
}

#[test]
fn parse_tuple_input_reads_elements() {
    let t = tuple(vec![reference(&["Position"]), path(&["Entity"]), reference(&["a", "Velocity"])], "(..)");
    let p = parse_tuple_input(arg("subject", t)).ok().unwrap();
    assert_eq!(p.ident, "id:subject");
    assert_eq!(p.arg_types, vec!["seg:Position", "seg:Entity", "seg:Velocity"]);
    let e = parse_tuple_input(arg("subject", tuple(vec![reference(&["A"]), path(&["Query"])], "whole"))).err().unwrap();
    assert!(e.kind == SyntaxErrorKind::RequiresReference);
    assert_eq!(e.span, "whole");
    let e = parse_tuple_input(arg("subject", tuple(vec![TypeShape::Other { tokens: "x".to_string() }], "w")))
        .err()
        .unwrap();
    assert!(e.kind == SyntaxErrorKind::ExpectedReference);
    assert_eq!(e.span, "x");
    let e = parse_tuple_input(arg("subject", reference(&["A"]))).err().unwrap();
    assert!(e.kind == SyntaxErrorKind::ExpectedTuple);
    assert_eq!(e.span, "&A");
}

#[test]
fn input_system_signature_splits_parameters() {
    let args = vec![
        arg("some_data", reference(&["SomeData"])),
        arg("time", path(&["Res", "Time"])),
        arg("entity", path(&["Entity"])),
    ];
    let parsed = input_system_signature(args).ok().unwrap();
    assert_eq!(parsed.len(), 3);
    let (components, extras) = split_inputs(parsed);
    assert_eq!(components.len(), 1);
    assert_eq!(components[0].ident, "id:some_data");
    assert_eq!(extras.len(), 1);
    assert_eq!(extras[0].ident, "id:time");
    let e = input_system_signature(vec![arg("a", path(&["Query"])), arg("b", path(&["Other"]))]).err().unwrap();
    assert_eq!(e.span, "path:Query");
}

#[test]
fn targeted_signature_needs_a_target() {
    let e = targeted_input_signature("inputs".to_string(), vec![]).err().unwrap();
    assert!(e.kind == SyntaxErrorKind::ExpectedAtLeastOneInput);
    assert_eq!(e.span, "inputs");
    let e = targeted_input_signature("inputs".to_string(), vec![arg("subject", tuple(vec![reference(&["A"])], "t"))])
        .err()
        .unwrap();
    assert!(e.kind == SyntaxErrorKind::MissingTarget);
    assert_eq!(e.kind.message(), "Function must have an input named 'target'");
}

#[test]
fn targeted_signature_reads_subject_target_and_resources() {
    let sig = targeted_input_signature(
        "inputs".to_string(),
        vec![
            arg("subject", tuple(vec![reference(&["SomeOtherData"])], "s")),
            arg("target", tuple(vec![reference(&["SomeData"])], "t")),
            arg("_r_time", path(&["Res", "Time"])),
        ],
    )
    .ok()
    .unwrap();
    assert_eq!(sig.subject.as_ref().unwrap().arg_types, vec!["seg:SomeOtherData"]);
    assert_eq!(sig.target.arg_types, vec!["seg:SomeData"]);
    assert_eq!(sig.target.ident, "id:target");
    assert_eq!(sig.extras.len(), 1);
    let sig = targeted_input_signature("i".to_string(), vec![arg("target", tuple(vec![reference(&["SomeData"])], "t"))])
        .ok()
        .unwrap();
    assert!(sig.subject.is_none());
}

#[test]
fn targeted_signature_refusals() {
    let e = targeted_input_signature(
        "i".to_string(),
        vec![arg("target", tuple(vec![], "a")), arg("target", tuple(vec![], "b"))],
    )
    .err()
    .unwrap();
    assert!(e.kind == SyntaxErrorKind::DuplicateTarget);
    assert_eq!(e.span, "arg:target");
    let e = targeted_input_signature(
        "i".to_string(),
        vec![arg("subject", tuple(vec![], "a")), arg("subject", tuple(vec![], "b"))],
    )
    .err()
    .unwrap();
    assert!(e.kind == SyntaxErrorKind::DuplicateSubject);
    let e = targeted_input_signature(
        "i".to_string(),
        vec![arg("target", tuple(vec![], "a")), arg("other", reference(&["Component"]))],
    )
    .err()
    .unwrap();
    assert!(e.kind == SyntaxErrorKind::InvalidExtraInput);
    assert_eq!(e.span, "arg:other");
    let e = targeted_input_signature(
        "i".to_string(),
        vec![ArgShape::Receiver { tokens: "self".to_string() }, arg("target", tuple(vec![], "a"))],
    )
    .err()
    .unwrap();
    assert!(e.kind == SyntaxErrorKind::InputCannotHaveSelf);
    assert_eq!(e.span, "self");
}

#[test]
fn target_selector_signature_reads_one_parameter() {
    let (ident, ty) = target_selector_signature("i".to_string(), vec![arg("q_targets", path(&["Query"]))])
        .ok()
        .unwrap();
    assert_eq!(ident, "id:q_targets");
    assert_eq!(ty, "path:Query");
    let e = target_selector_signature("i".to_string(), vec![arg("a", path(&["Query"])), arg("b", path(&["Query"]))])
        .err()
        .unwrap();
    assert!(e.kind == SyntaxErrorKind::ExpectedOneArgument);
    assert_eq!(e.span, "i");
    let e = target_selector_signature("i".to_string(), vec![arg("a", reference(&["A"]))]).err().unwrap();
    assert!(e.kind == SyntaxErrorKind::ExpectedTypePath);
    assert_eq!(e.span, "arg:a");
}

#[test]
fn every_refusal_has_its_message() {
    assert_eq!(SyntaxErrorKind::ExpectedComponent.message(), "Expected a Component");
    assert_eq!(SyntaxErrorKind::RequiresReference.message(), "Only Entity cannot be borrowed here");
    assert_eq!(SyntaxErrorKind::ExpectedTuple.message(), "Expected the parameter type to be a tuple");
    assert_eq!(SyntaxErrorKind::DuplicateSubject.message(), "There already exists an input named 'subject'");
    assert_eq!(SyntaxErrorKind::InvalidExtraInput.message(), "This extra input is not valid, expected one of Res, ResMut");
    assert_eq!(SyntaxErrorKind::ExpectedTypePath.message(), "expected an type path here!");
}
