use java_lsp::classfile::{parse_field, parse_method_descriptor, JavaType};

fn chars(s: &str) -> Vec<char> {
    s.chars().collect()
}

#[test]
fn descriptor_round_trip() {
    let d = chars("(ILjava/lang/String;[I)V");
    let (params, ret) = parse_method_descriptor(&d).expect("descriptor must decode");
    assert_eq!(
        params,
        vec![
            JavaType::Int,
            JavaType::Class(String::from("java.lang.String")),
            JavaType::Array(Box::new(JavaType::Int)),
        ]
    );
    assert_eq!(ret, JavaType::Void);
}

#[test]
fn descriptor_no_parameters() {
    let d = chars("()V");
    let (params, ret) = parse_method_descriptor(&d).expect("descriptor must decode");
    assert!(params.is_empty());
    assert_eq!(ret, JavaType::Void);
}

#[test]
fn descriptor_all_scalars() {
    let d = chars("(BCDFIJSZ)J");
    let (params, ret) = parse_method_descriptor(&d).expect("descriptor must decode");
    assert_eq!(
        params,
        vec![
            JavaType::Byte,
            JavaType::Char,
            JavaType::Double,
            JavaType::Float,
            JavaType::Int,
            JavaType::Long,
            JavaType::Short,
            JavaType::Boolean,
        ]
    );
    assert_eq!(ret, JavaType::Long);
}

#[test]
fn descriptor_nested_arrays() {
    let d = chars("([[I)[Ljava/util/List;");
    let (params, ret) = parse_method_descriptor(&d).expect("descriptor must decode");
    assert_eq!(
        params,
        vec![JavaType::Array(Box::new(JavaType::Array(Box::new(JavaType::Int))))]
    );
    assert_eq!(
        ret,
        JavaType::Array(Box::new(JavaType::Class(String::from("java.util.List"))))
    );
}

#[test]
fn descriptor_missing_close_paren() {
    assert!(parse_method_descriptor(&chars("(I")).is_none());
}

#[test]
fn descriptor_missing_return_type() {
    assert!(parse_method_descriptor(&chars("()")).is_none());
}

#[test]
fn descriptor_unknown_code() {
    assert!(parse_method_descriptor(&chars("(Q)V")).is_none());
}

#[test]
fn descriptor_unterminated_class_name() {
    assert!(parse_method_descriptor(&chars("(Ljava/lang/String)V")).is_none());
}

#[test]
fn descriptor_empty() {
    assert!(parse_method_descriptor(&chars("")).is_none());
}

#[test]
fn parse_field_reads_one_type() {
    let d = chars("Ljava/lang/Object;I");
    let mut pos = 0usize;
    let t = parse_field(&d, &mut pos).expect("class type must decode");
    assert_eq!(t, JavaType::Class(String::from("java.lang.Object")));
    assert_eq!(pos, 18);
    let t2 = parse_field(&d, &mut pos).expect("int must decode");
    assert_eq!(t2, JavaType::Int);
    assert_eq!(pos, 19);
}

#[test]
fn parse_field_rejects_garbage() {
    let d = chars("X");
    let mut pos = 0usize;
    assert!(parse_field(&d, &mut pos).is_none());
}

#[test]
fn descriptor_void_parameter_rejected() {
    // the void code is legal only as a return type
    assert!(parse_method_descriptor(&chars("(V)V")).is_none());
    assert!(parse_method_descriptor(&chars("(IV)V")).is_none());
}
