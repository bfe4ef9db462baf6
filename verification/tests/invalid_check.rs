use ontio_std::invalid_check::common::{
    get_import_func_index, is_invalid_init_expr, is_invalid_instruction, is_invalid_type,
    is_invalid_value_type, valid_field, FuncSig, ImportInfo, TypeError, ValueKind,
};
use parity_wasm::elements::{InitExpr, Instruction};

fn import(module: &str, field: &str, f: Option<u32>) -> ImportInfo {
    ImportInfo { module: module.to_string(), field: field.to_string(), function_index: f }
}

#[test]
fn valid_fields() {
    assert!(valid_field(&"timestamp".to_string()));
    assert!(valid_field(&"storage_delete".to_string()));
    assert!(!valid_field(&"storage_clear".to_string()));
}

#[test]
fn import_func_index() {
    assert!(matches!(get_import_func_index(&import("other", "x", Some(1))), Ok(None)));
    let m = get_import_func_index(&import("env", "ret", Some(4))).unwrap().unwrap();
    assert_eq!(m.len(), 1);
    assert_eq!(m.get(&4), Some(&"ret".to_string()));
    let m = get_import_func_index(&import("env", "ret", None)).unwrap().unwrap();
    assert!(m.is_empty());
    let e = get_import_func_index(&import("env", "bad", Some(1))).unwrap_err();
    assert_eq!(e.field, "bad");
}

fn sig(n: usize, ret: Option<ValueKind>) -> FuncSig {
    FuncSig { params: vec![ValueKind::I32; n], ret }
}

#[test]
fn host_function_types() {
    let t = "timestamp".to_string();
    assert_eq!(is_invalid_type(&t, &sig(0, Some(ValueKind::I64))), Ok(()));
    assert_eq!(is_invalid_type(&t, &sig(0, None)), Ok(()));
    assert_eq!(is_invalid_type(&t, &sig(1, None)), Err(TypeError::ParamCount { params: 1 }));
    assert_eq!(is_invalid_type(&t, &sig(0, Some(ValueKind::I32))), Err(TypeError::ReturnType { kind: ValueKind::I32 }));
    let r = "ret".to_string();
    assert_eq!(is_invalid_type(&r, &sig(2, None)), Ok(()));
    assert_eq!(is_invalid_type(&r, &sig(2, Some(ValueKind::I32))), Err(TypeError::ReturnType { kind: ValueKind::I32 }));
    let m = "contract_migrate".to_string();
    assert_eq!(is_invalid_type(&m, &sig(14, Some(ValueKind::I32))), Ok(()));
    assert_eq!(is_invalid_type(&m, &sig(4, None)), Err(TypeError::ParamCount { params: 4 }));
    let s = "storage_read".to_string();
    assert_eq!(is_invalid_type(&s, &sig(5, Some(ValueKind::I32))), Ok(()));
    let other = "notify".to_string();
    assert_eq!(is_invalid_type(&other, &sig(9, Some(ValueKind::F64))), Ok(()));
}

#[test]
fn float_value_kinds_are_invalid() {
    assert!(is_invalid_value_type(&ValueKind::F32));
    assert!(is_invalid_value_type(&ValueKind::F64));
    assert!(!is_invalid_value_type(&ValueKind::I32));
    assert!(!is_invalid_value_type(&ValueKind::I64));
}

#[test]
fn float_instructions_are_invalid() {
    assert!(is_invalid_instruction(&Instruction::F32Add));
    assert!(is_invalid_instruction(&Instruction::F64Const(0)));
    assert!(!is_invalid_instruction(&Instruction::I32Add));
    assert!(!is_invalid_instruction(&Instruction::End));
}

#[test]
fn init_expressions() {
    assert!(!is_invalid_init_expr(&InitExpr::new(vec![Instruction::I32Const(1), Instruction::End])));
    assert!(is_invalid_init_expr(&InitExpr::new(vec![Instruction::F32Const(0), Instruction::End])));
    assert!(!is_invalid_init_expr(&InitExpr::empty()));
}
