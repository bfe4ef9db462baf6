use crate::invalid_check::check::{
    check_module, check_module_model, offset_view, sig_views, BodyInfo, BodyView, CheckError, GlobalInfo, GlobalView,
    ImportItem, ImportView, ModuleInfo, ModuleView, SigView,
};
use crate::invalid_check::common::{FuncSig, ImportInfo, ValueKind};
use parity_wasm::elements::{Deserialize, External, InitExpr, Instruction, Module, Type, ValueType};
use vstd::prelude::*;

verus! {

#[verifier::external_type_specification]
pub struct ExValueType(parity_wasm::elements::ValueType);

#[verifier::external_type_specification]
#[verifier::external_body]
pub struct ExModule(parity_wasm::elements::Module);

/// The library's kind of a parity_wasm value type.
pub fn value_kind(v: &ValueType) -> (r: ValueKind)
    ensures
        r == match *v {
            ValueType::I32 => ValueKind::I32,
            ValueType::I64 => ValueKind::I64,
            ValueType::F32 => ValueKind::F32,
            ValueType::F64 => ValueKind::F64,
        },
{
    match v {
        ValueType::I32 => ValueKind::I32,
        ValueType::I64 => ValueKind::I64,
        ValueType::F32 => ValueKind::F32,
        ValueType::F64 => ValueKind::F64,
    }
}

/// The module that parity_wasm's `Module::deserialize` reads from `bytes`,
/// or `None` where it reports an error. Bytes after the last section that
/// it reads are not looked at.
pub uninterp spec fn wasm_module(bytes: Seq<u8>) -> Option<Module>;

/// The function bodies of a module's code section, as `Module::code_section`
/// gives them (none without the section).
pub uninterp spec fn module_bodies(m: Module) -> Seq<BodyView>;

/// The entries of a module's global section, as `Module::global_section`
/// gives them (none without the section).
pub uninterp spec fn module_globals(m: Module) -> Seq<GlobalView>;

/// The entries of a module's import section, as `Module::import_section`
/// gives them (none without the section).
pub uninterp spec fn module_imports(m: Module) -> Seq<ImportView>;

/// The function types of a module's type section, as `Module::type_section`
/// gives them (none without the section).
pub uninterp spec fn module_types(m: Module) -> Seq<SigView>;

/// The offsets of a module's data segments, as `Module::data_section`
/// gives them (none without the section).
pub uninterp spec fn module_data_offsets(m: Module) -> Seq<Option<Seq<Instruction>>>;

/// The offsets of a module's element segments, as `Module::elements_section`
/// gives them (none without the section).
pub uninterp spec fn module_element_offsets(m: Module) -> Seq<Option<Seq<Instruction>>>;

/// `Module::deserialize` of parity_wasm, on a reader over `bytes`; an error
/// becomes `None`.
#[verifier::external_body]
fn deserialize_module(bytes: &[u8]) -> (r: Option<Module>)
    ensures
        r == wasm_module(bytes@),
{
    Module::deserialize(&mut std::io::Cursor::new(bytes)).ok()
}

/// `Module::code_section` of parity_wasm: each body's locals (by kind) and
/// its instructions.
#[verifier::external_body]
fn code_bodies(m: &Module) -> (r: Vec<BodyInfo>)
    ensures
        r@.map_values(|b: BodyInfo| b@) == module_bodies(*m),
{
    let bodies = match m.code_section() {
        Some(s) => s.bodies(),
        None => &[],
    };
    bodies.iter().map(|b| BodyInfo {
        locals: b.locals().iter().map(|l| value_kind(&l.value_type())).collect(),
        code: b.code().elements().to_vec(),
    }).collect()
}

/// `Module::global_section` of parity_wasm: each global's kind and
/// initialization expression.
#[verifier::external_body]
fn global_entries(m: &Module) -> (r: Vec<GlobalInfo>)
    ensures
        r@.map_values(|g: GlobalInfo| g@) == module_globals(*m),
{
    let entries = match m.global_section() {
        Some(s) => s.entries(),
        None => &[],
    };
    entries.iter().map(|g| GlobalInfo {
        kind: value_kind(&g.global_type().content_type()),
        init: g.init_expr().clone(),
    }).collect()
}

/// `Module::import_section` of parity_wasm: each entry's module and field,
/// the function index it imports, and the kind of the global it imports.
#[verifier::external_body]
fn import_entries(m: &Module) -> (r: Vec<ImportItem>)
    ensures
        r@.map_values(|i: ImportItem| i@) == module_imports(*m),
{
    let entries = match m.import_section() {
        Some(s) => s.entries(),
        None => &[],
    };
    entries.iter().map(|e| {
        let (function_index, global_kind) = match e.external() {
            External::Function(i) => (Some(*i), None),
            External::Global(g) => (None, Some(value_kind(&g.content_type()))),
            External::Table(_) => (None, None),
            External::Memory(_) => (None, None),
        };
        let info = ImportInfo { module: e.module().to_string(), field: e.field().to_string(), function_index };
        ImportItem { info, global_kind }
    }).collect()
}

/// `Module::type_section` of parity_wasm: each function type's parameter
/// kinds and return kind.
#[verifier::external_body]
fn function_types(m: &Module) -> (r: Vec<FuncSig>)
    ensures
        sig_views(r@) == module_types(*m),
{
    let types = match m.type_section() {
        Some(s) => s.types(),
        None => &[],
    };
    types.iter().map(|Type::Function(t)| FuncSig {
        params: t.params().iter().map(value_kind).collect(),
        ret: t.return_type().as_ref().map(value_kind),
    }).collect()
}

/// `Module::data_section` of parity_wasm: each data segment's offset.
#[verifier::external_body]
fn data_offsets(m: &Module) -> (r: Vec<Option<InitExpr>>)
    ensures
        r@.map_values(|o: Option<InitExpr>| offset_view(o)) == module_data_offsets(*m),
{
    let entries = match m.data_section() {
        Some(s) => s.entries(),
        None => &[],
    };
    entries.iter().map(|d| d.offset().clone()).collect()
}

/// `Module::elements_section` of parity_wasm: each element segment's offset.
#[verifier::external_body]
fn element_offsets(m: &Module) -> (r: Vec<Option<InitExpr>>)
    ensures
        r@.map_values(|o: Option<InitExpr>| offset_view(o)) == module_element_offsets(*m),
{
    let entries = match m.elements_section() {
        Some(s) => s.entries(),
        None => &[],
    };
    entries.iter().map(|e| e.offset().clone()).collect()
}

/// What the check reads of a parsed module.
pub open spec fn parsed_view(m: Module) -> ModuleView {
    ModuleView {
        bodies: module_bodies(m),
        globals: module_globals(m),
        imports: module_imports(m),
        types: module_types(m),
        data_offsets: module_data_offsets(m),
        element_offsets: module_element_offsets(m),
    }
}

/// Parses a compiled contract and gives what the check reads of it; `None`
/// where parity_wasm does not read a module from the bytes.
pub fn parse_module(bytes: &[u8]) -> (r: Option<ModuleInfo>)
    ensures
        match wasm_module(bytes@) {
            None => r is None,
            Some(m) => r matches Some(info) && info@ == parsed_view(m),
        },
{
    match deserialize_module(bytes) {
        None => None,
        Some(m) => {
            let info = ModuleInfo {
                bodies: code_bodies(&m),
                globals: global_entries(&m),
                imports: import_entries(&m),
                types: function_types(&m),
                data_offsets: data_offsets(&m),
                element_offsets: element_offsets(&m),
            };
            assert(info@ =~= parsed_view(m));
            Some(info)
        },
    }
}

/// Parses and checks a compiled contract: `None` where it cannot be parsed,
/// else the result of the check (see `check_module_model`).
pub fn check_bytes(bytes: &[u8]) -> (r: Option<Result<(), CheckError>>)
    ensures
        match wasm_module(bytes@) {
            None => r is None,
            Some(m) => r == Some(check_module_model(parsed_view(m))),
        },
{
    match parse_module(bytes) {
        None => None,
        Some(info) => Some(check_module(&info)),
    }
}

} // verus!
