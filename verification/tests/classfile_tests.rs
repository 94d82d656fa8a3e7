use java_lsp::classfile::{Classfile, JavaType};
use java_lsp::classpath_indexer::{index, split_classpath};

/// A minimal, valid class file: `com/example/Foo` with one method
/// `foo(I)V`, no fields, interfaces or attributes.
fn minimal_class_bytes() -> Vec<u8> {
    let mut b: Vec<u8> = Vec::new();
    b.extend_from_slice(&[0xCA, 0xFE, 0xBA, 0xBE]); // magic
    b.extend_from_slice(&[0x00, 0x00]); // minor version
    b.extend_from_slice(&[0x00, 0x34]); // major version
    b.extend_from_slice(&[0x00, 0x05]); // constant pool count
    // #1: Class { name_index: 2 }
    b.push(0x07);
    b.extend_from_slice(&[0x00, 0x02]);
    // #2: Utf8 "com/example/Foo"
    b.push(0x01);
    let name = b"com/example/Foo";
    b.extend_from_slice(&[0x00, name.len() as u8]);
    b.extend_from_slice(name);
    // #3: Utf8 "foo"
    b.push(0x01);
    b.extend_from_slice(&[0x00, 0x03]);
    b.extend_from_slice(b"foo");
    // #4: Utf8 "(I)V"
    b.push(0x01);
    b.extend_from_slice(&[0x00, 0x04]);
    b.extend_from_slice(b"(I)V");
    b.extend_from_slice(&[0x00, 0x21]); // class access flags
    b.extend_from_slice(&[0x00, 0x01]); // this_class
    b.extend_from_slice(&[0x00, 0x00]); // super_class
    b.extend_from_slice(&[0x00, 0x00]); // interfaces count
    b.extend_from_slice(&[0x00, 0x00]); // fields count
    b.extend_from_slice(&[0x00, 0x01]); // methods count
    b.extend_from_slice(&[0x00, 0x01]); // method access flags
    b.extend_from_slice(&[0x00, 0x03]); // method name index
    b.extend_from_slice(&[0x00, 0x04]); // method descriptor index
    b.extend_from_slice(&[0x00, 0x00]); // method attributes count
    b.extend_from_slice(&[0x00, 0x00]); // class attributes count
    b
}

#[test]
fn decodes_minimal_class() {
    let bytes = minimal_class_bytes();
    let class = Classfile::new(&bytes).expect("valid class file must decode");
    assert_eq!(class.fqdn, "com.example.Foo");
    assert_eq!(class.methods.len(), 1);
    let m = &class.methods[0];
    assert_eq!(m.name, "foo");
    assert_eq!(m.flags, 0x0001);
    assert_eq!(m.parameters, vec![JavaType::Int]);
    assert_eq!(m.return_type, JavaType::Void);
}

#[test]
fn empty_buffer_decodes_to_none() {
    assert!(Classfile::new(&[]).is_none());
}

#[test]
fn truncated_buffer_decodes_to_none() {
    assert!(Classfile::new(&[0xCA, 0xFE, 0xBA, 0xBE]).is_none());
    let bytes = minimal_class_bytes();
    assert!(Classfile::new(&bytes[..bytes.len() - 3]).is_none());
}

#[test]
fn non_class_bytes_decode_to_none() {
    assert!(Classfile::new(b"this is not a class file at all").is_none());
    assert!(Classfile::new(&[0x00, 0x01, 0x02, 0x03, 0x04, 0x05, 0x06, 0x07]).is_none());
}

#[test]
fn bad_descriptor_fails_whole_decode() {
    let mut bytes = minimal_class_bytes();
    // turn the descriptor "(I)V" into "(Q)V": the whole decode must fail
    let pos = bytes.windows(4).position(|w| w == b"(I)V").unwrap();
    bytes[pos + 1] = b'Q';
    assert!(Classfile::new(&bytes).is_none());
}

#[test]
fn index_keys_classes_by_decoded_name() {
    let entries = vec![
        (String::from("com/example/Foo.class"), minimal_class_bytes()),
        (String::from("META-INF/MANIFEST.MF"), b"Manifest-Version: 1.0".to_vec()),
        (String::from("broken/Bad.class"), vec![1, 2, 3]),
    ];
    let classes = index(&entries);
    assert_eq!(classes.len(), 1);
    let foo = classes.get("com.example.Foo").expect("indexed class");
    assert_eq!(foo.fqdn, "com.example.Foo");
}

#[test]
fn split_classpath_on_separator() {
    assert_eq!(
        split_classpath("a.jar:b/classes:c.jar"),
        vec![String::from("a.jar"), String::from("b/classes"), String::from("c.jar")]
    );
    assert_eq!(split_classpath(""), vec![String::new()]);
}
