use wasmdbg::errors::MemoryError;
use wasmdbg::memlayout::MemoryLayout;
use wasmdbg::types::{
    DwarfData, FieldInfo, NamedType, PrimitiveKind, TypeInfo, TypeKind, TypedValue, VariableInfo,
};

fn var(name: &str, address: u64, ty: &str, size: u64) -> VariableInfo {
    VariableInfo { name: name.to_string(), address, ty_name: ty.to_string(), size }
}

fn named(name: &str, t: TypeInfo) -> NamedType {
    NamedType { name: name.to_string(), type_info: t }
}

fn point_type() -> TypeInfo {
    TypeInfo::new_struct(
        "Point".to_string(),
        8,
        vec![
            FieldInfo { name: "x".to_string(), offset: 0, type_info: TypeInfo::int32() },
            FieldInfo { name: "y".to_string(), offset: 4, type_info: TypeInfo::int32() },
        ],
    )
}

#[test]
fn struct_point_decodes_fields_in_order() {
    let mut mem = vec![0u8; 0x200];
    mem[0x100..0x108].copy_from_slice(&[0x01, 0x00, 0x00, 0x00, 0xFF, 0xFF, 0xFF, 0xFF]);
    let data = DwarfData {
        variables: vec![var("p", 0x100, "Point", 8)],
        types: vec![named("int32", TypeInfo::int32()), named("Point", point_type())],
    };
    let layout = MemoryLayout::new(&mem, data);
    let v = layout.read_variable("p").unwrap();
    assert_eq!(v.size, 8);
    assert_eq!(v.address, 0x100);
    assert_eq!(v.raw_bytes, vec![0x01, 0, 0, 0, 0xFF, 0xFF, 0xFF, 0xFF]);
    match v.value {
        TypedValue::Struct(fields) => {
            assert_eq!(fields.len(), 2);
            assert_eq!(fields[0].0, "x");
            assert!(matches!(fields[0].1, TypedValue::Int(1)));
            assert_eq!(fields[1].0, "y");
            assert!(matches!(fields[1].1, TypedValue::Int(-1)));
        }
        other => panic!("expected a struct, got {:?}", other),
    }
}

#[test]
fn pointer_is_read_not_followed() {
    let mut mem = vec![0u8; 0x300];
    mem[0x200..0x204].copy_from_slice(&[0x10, 0x01, 0x00, 0x00]);
    let data = DwarfData {
        variables: vec![var("p", 0x200, "int*", 4)],
        types: vec![named("int*", TypeInfo::pointer_to(TypeInfo::int32()))],
    };
    let layout = MemoryLayout::new(&mem, data);
    let v = layout.read_variable("p").unwrap();
    assert!(matches!(v.value, TypedValue::Pointer(0x110)));
    let dump = wasmdbg::hexdump::memdump(&mem, 0x110, 4).unwrap();
    assert_eq!(dump, "0x0110: 00 00 00 00  |....|\n");
}

#[test]
fn integers_are_little_endian_and_signed_as_declared() {
    let mem = vec![0xFF, 0xFF, 0x34, 0x12, 0x80, 0, 0, 0, 0, 0, 0, 0x80];
    let layout = MemoryLayout::new(&mem, DwarfData { variables: vec![], types: vec![] });
    assert_eq!(layout.read_int(0, 2, true), Ok(-1));
    assert_eq!(layout.read_int(0, 2, false), Ok(65535));
    assert_eq!(layout.read_int(2, 2, false), Ok(0x1234));
    assert_eq!(layout.read_int(4, 1, true), Ok(-128));
    assert_eq!(layout.read_int(4, 1, false), Ok(128));
    assert_eq!(layout.read_int(4, 8, true), Ok(i64::MIN + 0x80));
    assert_eq!(layout.read_int(0, 4, true), Ok(0x1234FFFF));
}

#[test]
fn round_trip_of_written_integers() {
    for v in [-32768i64, -1, 0, 1, 32767] {
        let bytes = (v as i16).to_le_bytes();
        let layout = MemoryLayout::new(&bytes, DwarfData { variables: vec![], types: vec![] });
        assert_eq!(layout.read_int(0, 2, true), Ok(v));
    }
    for v in [0u64, 1, 0xFFFF_FFFF] {
        let bytes = (v as u32).to_le_bytes();
        let layout = MemoryLayout::new(&bytes, DwarfData { variables: vec![], types: vec![] });
        assert_eq!(layout.read_int(0, 4, false), Ok(v as i64));
    }
}

#[test]
fn reads_at_the_end_of_memory() {
    let mem = vec![7u8; 16];
    let layout = MemoryLayout::new(&mem, DwarfData { variables: vec![], types: vec![] });
    assert_eq!(layout.read_int(16, 4, false), Err(MemoryError::InvalidAccess { address: 16 }));
    assert_eq!(layout.read_int(12, 4, false), Ok(0x07070707));
    assert_eq!(layout.read_bytes(16, 1), Err(MemoryError::InvalidAccess { address: 16 }));
    assert_eq!(layout.read_bytes(15, 1), Ok(vec![7]));
}

#[test]
fn unsupported_integer_size_is_refused() {
    let mem = vec![0u8; 16];
    let layout = MemoryLayout::new(&mem, DwarfData { variables: vec![], types: vec![] });
    assert_eq!(layout.read_int(0, 3, false), Err(MemoryError::UnsupportedSize { size: 3 }));
    assert_eq!(layout.read_int(100, 3, false), Err(MemoryError::UnsupportedSize { size: 3 }));
}

#[test]
fn field_past_declared_struct_size_still_decodes() {
    let mut mem = vec![0u8; 32];
    mem[8] = 5;
    let t = TypeInfo::new_struct(
        "S".to_string(),
        4,
        vec![FieldInfo { name: "late".to_string(), offset: 8, type_info: TypeInfo::uint8() }],
    );
    let layout = MemoryLayout::new(&mem, DwarfData { variables: vec![], types: vec![] });
    match layout.read_typed_value(0, &t).unwrap() {
        TypedValue::Struct(f) => assert!(matches!(f[0].1, TypedValue::Int(5))),
        other => panic!("expected a struct, got {:?}", other),
    }
}

#[test]
fn arrays_floats_bools_and_chars() {
    let mut mem = vec![0u8; 32];
    mem[0..4].copy_from_slice(&1.5f32.to_le_bytes());
    mem[4] = 2;
    mem[5] = b'A';
    mem[8..11].copy_from_slice(&[1, 2, 3]);
    let layout = MemoryLayout::new(&mem, DwarfData { variables: vec![], types: vec![] });
    match layout.read_typed_value(0, &TypeInfo::float()).unwrap() {
        TypedValue::Float32(bits) => assert_eq!(f32::from_bits(bits), 1.5),
        other => panic!("{:?}", other),
    }
    assert!(matches!(layout.read_typed_value(4, &TypeInfo::bool()).unwrap(), TypedValue::Bool(true)));
    assert!(matches!(layout.read_typed_value(5, &TypeInfo::char()).unwrap(), TypedValue::Char('A')));
    let arr = TypeInfo::Array { element_type: Box::new(TypeInfo::uint8()), count: 3, size: 3 };
    match layout.read_typed_value(8, &arr).unwrap() {
        TypedValue::Array(es) => {
            assert_eq!(es.len(), 3);
            assert!(matches!(es[2], TypedValue::Int(3)));
        }
        other => panic!("{:?}", other),
    }
    assert_eq!(
        layout.read_typed_value(0, &TypeInfo::new_primitive(3, PrimitiveKind::Float)).unwrap_err(),
        MemoryError::UnsupportedSize { size: 3 }
    );
    assert!(matches!(layout.read_typed_value(0, &TypeInfo::void()).unwrap(), TypedValue::Void));
    assert!(matches!(layout.read_typed_value(0, &TypeInfo::Unknown).unwrap(), TypedValue::Unknown));
}

#[test]
fn lookup_errors() {
    let mem = vec![0u8; 8];
    let data = DwarfData {
        variables: vec![var("a", 0, "missing", 4), var("u", 0, "U", 4)],
        types: vec![named(
            "U",
            TypeInfo::Union { size: 4, variants: vec![], name: "U".to_string() },
        )],
    };
    let layout = MemoryLayout::new(&mem, data);
    assert_eq!(layout.read_variable("nope").unwrap_err(), MemoryError::VariableNotFound("nope".to_string()));
    assert_eq!(layout.read_variable("a").unwrap_err(), MemoryError::InvalidTypeInfo("missing".to_string()));
    assert_eq!(layout.read_variable("u").unwrap_err(), MemoryError::UnsupportedType(TypeKind::Union));
}

#[test]
fn descriptor_sizes_and_kinds() {
    assert_eq!(TypeInfo::int64().get_size(), 8);
    assert_eq!(point_type().get_size(), 8);
    assert_eq!(TypeInfo::void().get_size(), 0);
    assert!(TypeInfo::int8().is_primitive());
    assert!(point_type().is_struct());
    assert_eq!(TypeInfo::uint16().get_kind(), TypeKind::Primitive(PrimitiveKind::Int { signed: false }));
    assert_eq!(TypeInfo::pointer_to(TypeInfo::void()).get_size(), 4);
    assert_eq!(TypeInfo::double().get_size(), 8);
}

#[test]
fn visualization_classes_and_html() {
    let mem = vec![0u8; 64];
    let data = DwarfData {
        variables: vec![var("n", 0x10, "unsigned int", 4), var("f", 0x20, "float", 4), var("q", 0x30, "Vec2", 8)],
        types: vec![],
    };
    let layout = MemoryLayout::new(&mem, data);
    let v = layout.generate_visualization();
    assert_eq!(v.total_size, 64);
    assert_eq!(v.segments[0].segment_type, "integer");
    assert_eq!(v.segments[0].color, "#FF6B6B");
    assert_eq!(v.segments[1].segment_type, "float");
    assert_eq!(v.segments[2].segment_type, "unknown");
    let html = v.render_html();
    assert!(html.contains("<p>Total Size: 64 bytes</p>"));
    assert!(html.contains("<td>n</td><td>0x10</td><td>4 bytes</td><td>integer</td>"));
    assert!(html.ends_with("</table>\n</body>\n</html>\n"));
}

#[test]
fn refresh_sees_new_memory() {
    let data = DwarfData { variables: vec![var("c", 0, "int32", 4)], types: vec![named("int32", TypeInfo::int32())] };
    let mut layout = MemoryLayout::new(&[0, 0, 0, 0], data);
    assert!(matches!(layout.read_variable("c").unwrap().value, TypedValue::Int(0)));
    layout.refresh(&[2, 0, 0, 0]);
    assert!(matches!(layout.read_variable("c").unwrap().value, TypedValue::Int(2)));
}
