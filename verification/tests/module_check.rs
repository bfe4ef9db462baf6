use ontio_std::invalid_check::parse::{check_bytes, parse_module};
use ontio_std::invalid_check::check::{check_module, BodyInfo, CheckError, GlobalInfo, ImportItem, ModuleInfo};
use ontio_std::invalid_check::common::{FuncSig, ImportInfo, TypeError, ValueKind};
use parity_wasm::elements::{InitExpr, Instruction};

fn empty_module() -> ModuleInfo {
    ModuleInfo {
        bodies: Vec::new(),
        globals: Vec::new(),
        imports: Vec::new(),
        types: Vec::new(),
        data_offsets: Vec::new(),
        element_offsets: Vec::new(),
    }
}

fn env_import(field: &str, index: Option<u32>) -> ImportItem {
    ImportItem {
        info: ImportInfo { module: "env".to_string(), field: field.to_string(), function_index: index },
        global_kind: None,
    }
}

fn int_init() -> InitExpr {
    InitExpr::new(vec![Instruction::I32Const(0), Instruction::End])
}

#[test]
fn module_without_floats_passes() {
    let mut m = empty_module();
    m.bodies.push(BodyInfo { locals: vec![ValueKind::I32], code: vec![Instruction::I32Add, Instruction::End] });
    m.globals.push(GlobalInfo { kind: ValueKind::I64, init: int_init() });
    m.imports.push(env_import("timestamp", Some(0)));
    m.types.push(FuncSig { params: vec![], ret: Some(ValueKind::I64) });
    m.data_offsets.push(Some(int_init()));
    m.element_offsets.push(None);
    assert_eq!(check_module(&m), Ok(()));
}

#[test]
fn body_locals_come_before_instructions() {
    let mut m = empty_module();
    m.bodies.push(BodyInfo { locals: vec![ValueKind::I32], code: vec![Instruction::F64Add] });
    assert_eq!(check_module(&m), Err(CheckError::Instruction));
    m.bodies.push(BodyInfo { locals: vec![ValueKind::F32], code: vec![] });
    assert_eq!(check_module(&m), Err(CheckError::Instruction));
    m.bodies.remove(0);
    assert_eq!(check_module(&m), Err(CheckError::LocalType));
}

#[test]
fn globals_are_checked() {
    let mut m = empty_module();
    m.globals.push(GlobalInfo { kind: ValueKind::I32, init: InitExpr::new(vec![Instruction::F32Const(0)]) });
    assert_eq!(check_module(&m), Err(CheckError::GlobalInit));
    m.globals.insert(0, GlobalInfo { kind: ValueKind::F64, init: int_init() });
    assert_eq!(check_module(&m), Err(CheckError::GlobalType));
}

#[test]
fn imports_are_checked() {
    let mut m = empty_module();
    m.imports.push(env_import("timestamp", Some(0)));
    m.imports.push(env_import("storage_clear", None));
    assert_eq!(check_module(&m), Err(CheckError::InvalidField { import: 1 }));
    let mut m = empty_module();
    m.imports.push(env_import("timestamp", Some(1)));
    m.types.push(FuncSig { params: vec![ValueKind::I32; 3], ret: None });
    m.types.push(FuncSig { params: vec![ValueKind::I32], ret: Some(ValueKind::I64) });
    assert_eq!(
        check_module(&m),
        Err(CheckError::HostType { import: 0, error: TypeError::ParamCount { params: 1 } })
    );
    let mut m = empty_module();
    let mut other = env_import("x", None);
    other.info.module = "other".to_string();
    other.global_kind = Some(ValueKind::F32);
    m.imports.push(other);
    assert_eq!(check_module(&m), Err(CheckError::ImportGlobalType { import: 0 }));
}

#[test]
fn types_and_segments_are_checked() {
    let mut m = empty_module();
    m.types.push(FuncSig { params: vec![ValueKind::I32], ret: Some(ValueKind::F32) });
    assert_eq!(check_module(&m), Err(CheckError::ReturnType));
    m.types.push(FuncSig { params: vec![ValueKind::F64], ret: None });
    assert_eq!(check_module(&m), Err(CheckError::ReturnType));
    let mut m = empty_module();
    m.element_offsets.push(Some(InitExpr::new(vec![Instruction::F64Const(0)])));
    assert_eq!(check_module(&m), Err(CheckError::ElementOffset));
    m.data_offsets.push(Some(InitExpr::new(vec![Instruction::F32Const(0)])));
    assert_eq!(check_module(&m), Err(CheckError::DataOffset));
}

const HEADER: [u8; 8] = [0x00, 0x61, 0x73, 0x6d, 0x01, 0x00, 0x00, 0x00];

fn wasm(sections: &[u8]) -> Vec<u8> {
    let mut v = HEADER.to_vec();
    v.extend_from_slice(sections);
    v
}

#[test]
fn bytes_that_are_no_module_are_not_checked() {
    assert_eq!(check_bytes(b"not wasm"), None);
    assert!(parse_module(&[0x00, 0x61, 0x73, 0x6d, 0x02, 0x00, 0x00, 0x00]).is_none());
}

#[test]
fn empty_module_passes() {
    let info = parse_module(&wasm(&[])).unwrap();
    assert!(info.bodies.is_empty() && info.imports.is_empty() && info.types.is_empty());
    assert_eq!(check_bytes(&wasm(&[])), Some(Ok(())));
}

#[test]
fn parsed_float_parameter_is_refused() {
    // type section: one function type (f32) -> ()
    let bytes = wasm(&[0x01, 0x05, 0x01, 0x60, 0x01, 0x7d, 0x00]);
    let info = parse_module(&bytes).unwrap();
    assert_eq!(info.types.len(), 1);
    assert_eq!(info.types[0].params, vec![ValueKind::F32]);
    assert_eq!(info.types[0].ret, None);
    assert_eq!(check_bytes(&bytes), Some(Err(CheckError::ParamType)));
}

#[test]
fn parsed_import_of_unknown_host_function_is_refused() {
    // import section: env.foo, a function of type 0
    let bytes = wasm(&[0x02, 0x0b, 0x01, 0x03, b'e', b'n', b'v', 0x03, b'f', b'o', b'o', 0x00, 0x00]);
    let info = parse_module(&bytes).unwrap();
    assert_eq!(info.imports.len(), 1);
    assert_eq!(info.imports[0].info.module, "env");
    assert_eq!(info.imports[0].info.field, "foo");
    assert_eq!(info.imports[0].info.function_index, Some(0));
    assert_eq!(check_bytes(&bytes), Some(Err(CheckError::InvalidField { import: 0 })));
}
