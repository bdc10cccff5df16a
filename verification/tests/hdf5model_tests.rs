use literm::hdf5model::{
    decode_field, field_slice, format_dtype, sort_nodes, DtypeDesc, DtypeDesc as D, FieldValue,
    FloatWidth, Hdf5Node, IntWidth, IntWidth as IW, NodeKind,
};

fn node(name: &str, kind: NodeKind) -> Hdf5Node {
    Hdf5Node {
        name: name.to_string(),
        kind,
        children: None,
        shape: None,
        dtype: None,
        data_preview: None,
    }
}

#[test]
fn scalar_types_render_with_their_width() {
    assert_eq!(format_dtype(&DtypeDesc::Integer(IntWidth::B32)), "Int32");
    assert_eq!(format_dtype(&DtypeDesc::Integer(IntWidth::B8)), "Int8");
    assert_eq!(format_dtype(&DtypeDesc::Unsigned(IntWidth::B64)), "UInt64");
    assert_eq!(format_dtype(&DtypeDesc::Float(FloatWidth::B32)), "Float32");
    assert_eq!(format_dtype(&DtypeDesc::Float(FloatWidth::B64)), "Float64");
    assert_eq!(format_dtype(&DtypeDesc::Boolean), "Bool");
    assert_eq!(format_dtype(&DtypeDesc::Enumeration), "Enum");
    assert_eq!(format_dtype(&DtypeDesc::Compound), "Compound");
    assert_eq!(format_dtype(&DtypeDesc::Text), "String");
    assert_eq!(format_dtype(&DtypeDesc::Other("Reference".to_string())), "Reference");
}

#[test]
fn array_types_render_their_shape_and_element() {
    let inner = DtypeDesc::Integer(IntWidth::B16);
    assert_eq!(
        format_dtype(&DtypeDesc::FixedArray(Box::new(inner), vec![2, 3])),
        "Array[2, 3] of Int16"
    );
    assert_eq!(
        format_dtype(&DtypeDesc::FixedArray(Box::new(DtypeDesc::Boolean), vec![7])),
        "Array[7] of Bool"
    );
    assert_eq!(
        format_dtype(&DtypeDesc::VarLenArray(Box::new(DtypeDesc::Float(FloatWidth::B64)))),
        "VarArray of Float64"
    );
}

#[test]
fn children_sort_by_kind_then_name() {
    let nodes = vec![
        node("zeta", NodeKind::Dataset),
        node("misc", NodeKind::Unknown),
        node("alpha", NodeKind::Dataset),
        node("sub", NodeKind::Group),
        node("field", NodeKind::Field),
    ];
    let sorted = sort_nodes(nodes);
    let names: Vec<String> = sorted.iter().map(|n| n.name.clone()).collect();
    assert_eq!(names, vec!["sub", "alpha", "zeta", "field", "misc"]);
}

#[test]
fn equal_nodes_keep_their_arrival_order() {
    let mut first = node("same", NodeKind::Dataset);
    first.dtype = Some("Int8".to_string());
    let mut second = node("same", NodeKind::Dataset);
    second.dtype = Some("Int16".to_string());
    let sorted = sort_nodes(vec![first, second]);
    assert_eq!(sorted[0].dtype.as_deref(), Some("Int8"));
    assert_eq!(sorted[1].dtype.as_deref(), Some("Int16"));
}

#[test]
fn cells_decode_little_endian() {
    match decode_field(&[0x34, 0x12], &D::Unsigned(IW::B16)) {
        FieldValue::UInt(v) => assert_eq!(v, 0x1234),
        _ => panic!("expected an unsigned cell"),
    }
    match decode_field(&[0xFF, 0xFF], &D::Integer(IW::B16)) {
        FieldValue::Int(v) => assert_eq!(v, -1),
        _ => panic!("expected a signed cell"),
    }
    match decode_field(&[0x80], &D::Integer(IW::B8)) {
        FieldValue::Int(v) => assert_eq!(v, -128),
        _ => panic!("expected a signed cell"),
    }
    match decode_field(&[1, 2, 3, 4, 5, 6, 7, 8], &D::Unsigned(IW::B64)) {
        FieldValue::UInt(v) => assert_eq!(v, 0x0807060504030201),
        _ => panic!("expected an unsigned cell"),
    }
}

#[test]
fn float_cells_carry_their_bits() {
    let bits = 1.5f32.to_le_bytes();
    match decode_field(&bits, &D::Float(literm::hdf5model::FloatWidth::B32)) {
        FieldValue::FloatBits32(v) => assert_eq!(f32::from_bits(v), 1.5),
        _ => panic!("expected float bits"),
    }
}

#[test]
fn boolean_and_string_cells_decode() {
    assert!(matches!(decode_field(&[2], &D::Boolean), FieldValue::Bool(true)));
    assert!(matches!(decode_field(&[0], &D::Boolean), FieldValue::Bool(false)));
    match decode_field(b"hi\0\0\0", &D::Text) {
        FieldValue::Text(t) => assert_eq!(t, b"hi".to_vec()),
        _ => panic!("expected a string cell"),
    }
}

#[test]
fn mismatched_widths_are_unsupported() {
    assert!(matches!(decode_field(&[1, 2, 3], &D::Unsigned(IW::B16)), FieldValue::Unsupported));
    assert!(matches!(decode_field(&[1, 2], &D::Boolean), FieldValue::Unsupported));
    assert!(matches!(decode_field(&[1], &D::Compound), FieldValue::Unsupported));
}

#[test]
fn field_slices_respect_the_record_bounds() {
    let record = [10u8, 11, 12, 13, 14];
    assert_eq!(field_slice(&record, 1, 3).unwrap(), vec![11, 12, 13]);
    assert_eq!(field_slice(&record, 0, 5).unwrap(), vec![10, 11, 12, 13, 14]);
    assert!(field_slice(&record, 3, 3).is_none());
    assert!(field_slice(&record, 6, 1).is_none());
}
