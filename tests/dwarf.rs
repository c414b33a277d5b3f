use wasmdbg::dwarf::{
    address_from_pieces, build_dwarf_data, extract_debug_sections, primitive_kind, process_variable,
    resolve_request, section_id_from_name, DebugSection, DieRecord, DieTag, EvalRequest,
    PieceLocation, TypeRef,
};
use wasmdbg::errors::DwarfError;
use wasmdbg::types::{PrimitiveKind, TypeInfo};

fn rec(depth: u32, tag: DieTag, name: Option<&str>) -> DieRecord {
    DieRecord {
        depth,
        tag,
        name: name.map(|n| n.to_string()),
        byte_size: None,
        encoding: None,
        type_ref: None,
        member_offset: None,
        location: None,
    }
}

#[test]
fn section_vocabulary() {
    assert_eq!(section_id_from_name(".debug_info"), Some(DebugSection::Info));
    assert_eq!(section_id_from_name(".debug_str_offsets"), Some(DebugSection::StrOffsets));
    assert_eq!(section_id_from_name(".debug_frame"), None);
    assert_eq!(section_id_from_name("name"), None);
}

#[test]
fn custom_sections_are_extracted() {
    let mut module: Vec<u8> = vec![0x00, 0x61, 0x73, 0x6d, 0x01, 0x00, 0x00, 0x00];
    module.extend_from_slice(&[0x00, 0x0e, 0x0b]);
    module.extend_from_slice(b".debug_info");
    module.extend_from_slice(&[0x01, 0x02]);
    module.extend_from_slice(&[0x00, 0x07, 0x04]);
    module.extend_from_slice(b"name");
    module.extend_from_slice(&[0x09, 0x09]);
    let s = extract_debug_sections(&module).unwrap();
    assert_eq!(s, vec![(DebugSection::Info, vec![1u8, 2])]);
}

#[test]
fn encodings_map_to_kinds() {
    assert_eq!(primitive_kind(Some(0x05)), PrimitiveKind::Int { signed: true });
    assert_eq!(primitive_kind(Some(0x08)), PrimitiveKind::Int { signed: false });
    assert_eq!(primitive_kind(Some(0x04)), PrimitiveKind::Float);
    assert_eq!(primitive_kind(Some(0x02)), PrimitiveKind::Bool);
    assert_eq!(primitive_kind(Some(0x10)), PrimitiveKind::Int { signed: true });
    assert_eq!(primitive_kind(None), PrimitiveKind::Int { signed: true });
}

#[test]
fn evaluator_requests() {
    let mem = vec![0x10, 0x01, 0x00, 0x00, 0xAA];
    assert_eq!(resolve_request(EvalRequest::Register(3), &mem), Ok(0));
    assert_eq!(resolve_request(EvalRequest::FrameBase, &mem), Ok(0));
    assert_eq!(resolve_request(EvalRequest::RelocatedAddress(0x77), &mem), Ok(0x77));
    assert_eq!(resolve_request(EvalRequest::Tls(1), &mem), Ok(0));
    assert_eq!(resolve_request(EvalRequest::Memory { address: 0, size: 4 }, &mem), Ok(0x110));
    assert_eq!(resolve_request(EvalRequest::Memory { address: 4, size: 1 }, &mem), Ok(0xAA));
    assert!(matches!(resolve_request(EvalRequest::Memory { address: 3, size: 4 }, &mem), Err(DwarfError::MemoryReadError(3, 4, _))));
    assert!(matches!(resolve_request(EvalRequest::EntryValue, &mem), Err(DwarfError::UnsupportedExpression(_))));
    assert_eq!(address_from_pieces(&vec![PieceLocation::Other, PieceLocation::Address(0x100)]), Ok(0x100));
    assert!(matches!(address_from_pieces(&vec![PieceLocation::Other]), Err(DwarfError::UnsupportedLocation(_))));
    assert!(matches!(address_from_pieces(&vec![]), Err(DwarfError::UnsupportedLocation(_))));
}

#[test]
fn variables_and_catalog_from_entries() {
    let mut int_t = rec(1, DieTag::BaseType, Some("int"));
    int_t.byte_size = Some(4);
    int_t.encoding = Some(0x05);
    let mut point = rec(1, DieTag::StructureType, Some("Point"));
    point.byte_size = Some(8);
    let mut x = rec(2, DieTag::Member, Some("x"));
    x.type_ref = Some(TypeRef { name: Some("int".to_string()), size: 4 });
    let mut y = rec(2, DieTag::Member, Some("y"));
    y.member_offset = Some(4);
    y.type_ref = Some(TypeRef { name: Some("int".to_string()), size: 4 });
    let mut p = rec(1, DieTag::Variable, Some("p"));
    p.location = Some(Ok(0x100));
    p.type_ref = Some(TypeRef { name: Some("Point".to_string()), size: 8 });
    let mut bad = rec(1, DieTag::Variable, Some("bad"));
    bad.location = Some(Err(DwarfError::InvalidLocation));
    let anon = rec(1, DieTag::Variable, None);
    let records = vec![int_t, point, x, y, p, bad, anon];
    let d = build_dwarf_data(&records);
    assert_eq!(d.variables.len(), 2);
    assert_eq!(d.variables[0].name, "p");
    assert_eq!(d.variables[0].address, 0x100);
    assert_eq!(d.variables[0].ty_name, "Point");
    assert_eq!(d.variables[1].address, 0);
    assert_eq!(d.types.len(), 2);
    match &d.types[1].type_info {
        TypeInfo::Struct { size, fields, name } => {
            assert_eq!((*size, name.as_str()), (8, "Point"));
            assert_eq!(fields.len(), 2);
            assert_eq!((fields[1].name.as_str(), fields[1].offset), ("y", 4));
            assert!(matches!(fields[1].type_info, TypeInfo::Primitive { size: 4, kind: PrimitiveKind::Int { signed: true } }));
        }
        other => panic!("{:?}", other),
    }
    let mut w = rec(0, DieTag::Variable, Some("w"));
    w.type_ref = Some(TypeRef { name: None, size: 2 });
    let w = process_variable(&w).unwrap();
    assert_eq!((w.ty_name.as_str(), w.size), ("<unnamed>", 2));
    let v = process_variable(&rec(0, DieTag::Variable, Some("v"))).unwrap();
    assert_eq!((v.ty_name.as_str(), v.size, v.address), ("<unknown>", 0, 0));
}

#[test]
fn last_section_of_a_name_wins() {
    let mut module: Vec<u8> = vec![0x00, 0x61, 0x73, 0x6d, 0x01, 0x00, 0x00, 0x00];
    for payload in [[0x01u8, 0x02], [0x03, 0x04]] {
        module.extend_from_slice(&[0x00, 0x0e, 0x0b]);
        module.extend_from_slice(b".debug_info");
        module.extend_from_slice(&payload);
    }
    let s = extract_debug_sections(&module).unwrap();
    assert_eq!(s, vec![(DebugSection::Info, vec![3u8, 4])]);
    assert!(matches!(extract_debug_sections(&[1, 2, 3]), Err(DwarfError::ParseError(_))));
}

#[test]
fn subprograms_are_numbered_in_order() {
    let records = vec![
        rec(1, DieTag::Subprogram, Some("main")),
        rec(1, DieTag::Subprogram, None),
        rec(1, DieTag::Variable, Some("v")),
        rec(1, DieTag::Subprogram, Some("add")),
    ];
    let names = wasmdbg::dwarf::function_names(&records);
    assert_eq!(names.len(), 2);
    assert_eq!((names[0].index, names[0].name.as_str()), (0, "main"));
    assert_eq!((names[1].index, names[1].name.as_str()), (2, "add"));
}
