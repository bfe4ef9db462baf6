use crate::invalid_check::common::{
    check_type_model, code_names_float, get_import_func_index, init_expr_instructions, is_invalid_init_expr,
    is_invalid_instruction, is_invalid_type, is_invalid_value_type, is_valid_field, FuncSig, ImportInfo, TypeError,
    ValueKind,
};
use parity_wasm::elements::{InitExpr, Instruction};
use vstd::prelude::*;

verus! {

/// A function body of the code section: the kinds of its locals and its
/// instructions.
pub struct BodyInfo {
    pub locals: Vec<ValueKind>,
    pub code: Vec<Instruction>,
}

/// An entry of the global section: the kind of the global and its
/// initialization expression.
pub struct GlobalInfo {
    pub kind: ValueKind,
    pub init: InitExpr,
}

/// An entry of the import section, with the kind of the global that it
/// imports when it imports one.
#[derive(Debug)]
pub struct ImportItem {
    pub info: ImportInfo,
    pub global_kind: Option<ValueKind>,
}

/// What the check reads of a module, section by section; a section that the
/// module lacks is empty here.
pub struct ModuleInfo {
    pub bodies: Vec<BodyInfo>,
    pub globals: Vec<GlobalInfo>,
    pub imports: Vec<ImportItem>,
    pub types: Vec<FuncSig>,
    pub data_offsets: Vec<Option<InitExpr>>,
    pub element_offsets: Vec<Option<InitExpr>>,
}

/// The first thing in a module that the chain refuses.
#[derive(Clone, Copy, Debug, PartialEq, Eq, Structural)]
pub enum CheckError {
    /// A local of a function body is a float.
    LocalType,
    /// An instruction of a function body works on floats.
    Instruction,
    /// A global is a float.
    GlobalType,
    /// The initialization of a global works on floats.
    GlobalInit,
    /// The global imported at this position is a float.
    ImportGlobalType { import: usize },
    /// The import at this position names an `env` field that is no host
    /// function.
    InvalidField { import: usize },
    /// A function type takes a float (found while the import at this
    /// position is checked).
    ImportParamType { import: usize },
    /// A function type returns a float (found while the import at this
    /// position is checked).
    ImportReturnType { import: usize },
    /// A function type takes a float.
    ParamType,
    /// A function type returns a float.
    ReturnType,
    /// The host function imported at this position has another type than the
    /// host's.
    HostType { import: usize, error: TypeError },
    /// The offset of a data segment works on floats.
    DataOffset,
    /// The offset of an element segment works on floats.
    ElementOffset,
}

pub open spec fn is_float(k: ValueKind) -> bool {
    k == ValueKind::F32 || k == ValueKind::F64
}

pub open spec fn any_float(kinds: Seq<ValueKind>) -> bool {
    exists|i: int| 0 <= i < kinds.len() && #[trigger] is_float(kinds[i])
}

/// What the check reads of a function body.
pub struct BodyView {
    pub locals: Seq<ValueKind>,
    pub code: Seq<Instruction>,
}

/// What the check reads of a global: its kind and the instructions of its
/// initialization.
pub struct GlobalView {
    pub kind: ValueKind,
    pub init: Seq<Instruction>,
}

/// What the check reads of an import entry.
pub struct ImportView {
    pub module: Seq<char>,
    pub field: Seq<char>,
    pub function_index: Option<u32>,
    pub global_kind: Option<ValueKind>,
}

/// What the check reads of a function type.
pub struct SigView {
    pub params: Seq<ValueKind>,
    pub ret: Option<ValueKind>,
}

/// What the check reads of a module; an offset is given by its
/// instructions.
pub struct ModuleView {
    pub bodies: Seq<BodyView>,
    pub globals: Seq<GlobalView>,
    pub imports: Seq<ImportView>,
    pub types: Seq<SigView>,
    pub data_offsets: Seq<Option<Seq<Instruction>>>,
    pub element_offsets: Seq<Option<Seq<Instruction>>>,
}

impl View for BodyInfo {
    type V = BodyView;

    open spec fn view(&self) -> BodyView {
        BodyView { locals: self.locals@, code: self.code@ }
    }
}

impl View for GlobalInfo {
    type V = GlobalView;

    open spec fn view(&self) -> GlobalView {
        GlobalView { kind: self.kind, init: init_expr_instructions(self.init) }
    }
}

impl View for ImportItem {
    type V = ImportView;

    open spec fn view(&self) -> ImportView {
        ImportView {
            module: self.info.module@,
            field: self.info.field@,
            function_index: self.info.function_index,
            global_kind: self.global_kind,
        }
    }
}

impl View for FuncSig {
    type V = SigView;

    open spec fn view(&self) -> SigView {
        SigView { params: self.params@, ret: self.ret }
    }
}

/// The instructions of an offset, if there is one.
pub open spec fn offset_view(o: Option<InitExpr>) -> Option<Seq<Instruction>> {
    match o {
        Some(x) => Some(init_expr_instructions(x)),
        None => None,
    }
}

impl View for ModuleInfo {
    type V = ModuleView;

    open spec fn view(&self) -> ModuleView {
        ModuleView {
            bodies: self.bodies@.map_values(|b: BodyInfo| b@),
            globals: self.globals@.map_values(|g: GlobalInfo| g@),
            imports: self.imports@.map_values(|i: ImportItem| i@),
            types: sig_views(self.types@),
            data_offsets: self.data_offsets@.map_values(|o: Option<InitExpr>| offset_view(o)),
            element_offsets: self.element_offsets@.map_values(|o: Option<InitExpr>| offset_view(o)),
        }
    }
}

/// A body's locals are checked before its instructions.
pub open spec fn body_error(b: BodyView) -> Option<CheckError> {
    if any_float(b.locals) {
        Some(CheckError::LocalType)
    } else if code_names_float(b.code) {
        Some(CheckError::Instruction)
    } else {
        None
    }
}

pub open spec fn global_error(g: GlobalView) -> Option<CheckError> {
    if is_float(g.kind) {
        Some(CheckError::GlobalType)
    } else if code_names_float(g.init) {
        Some(CheckError::GlobalInit)
    } else {
        None
    }
}

/// A function type's parameters are checked before its return kind.
pub open spec fn sig_error(t: SigView) -> Option<CheckError> {
    if any_float(t.params) {
        Some(CheckError::ParamType)
    } else if t.ret matches Some(k) && is_float(k) {
        Some(CheckError::ReturnType)
    } else {
        None
    }
}

/// What the function type at position `ti` gives while the import at
/// position `j` is checked: its own floats first, then, when it is the type
/// that the import names, the host's type.
pub open spec fn host_error(j: int, imp: ImportView, ti: int, t: SigView) -> Option<CheckError> {
    if any_float(t.params) {
        Some(CheckError::ImportParamType { import: j as usize })
    } else if t.ret matches Some(k) && is_float(k) {
        Some(CheckError::ImportReturnType { import: j as usize })
    } else if imp.function_index matches Some(fi) && fi as int == ti {
        match check_type_model(imp.field, t.params.len(), t.ret) {
            Ok(_) => None,
            Err(e) => Some(CheckError::HostType { import: j as usize, error: e }),
        }
    } else {
        None
    }
}

/// The first error among the function types from position `ti` on, while
/// the import at position `j` is checked.
pub open spec fn import_types_error(j: int, imp: ImportView, types: Seq<SigView>, ti: int) -> Option<CheckError>
    decreases types.len() - ti,
{
    if 0 <= ti < types.len() {
        match host_error(j, imp, ti, types[ti]) {
            Some(e) => Some(e),
            None => import_types_error(j, imp, types, ti + 1),
        }
    } else {
        None
    }
}

/// An import: a float global is refused; an import from `env` must name a
/// host function, and then every function type is checked against it.
pub open spec fn import_error(j: int, imp: ImportView, types: Seq<SigView>) -> Option<CheckError> {
    if imp.global_kind matches Some(k) && is_float(k) {
        Some(CheckError::ImportGlobalType { import: j as usize })
    } else if imp.module != "env"@ {
        None
    } else if !is_valid_field(imp.field) {
        Some(CheckError::InvalidField { import: j as usize })
    } else {
        import_types_error(j, imp, types, 0)
    }
}

pub open spec fn bodies_error(s: Seq<BodyView>, i: int) -> Option<CheckError>
    decreases s.len() - i,
{
    if 0 <= i < s.len() {
        match body_error(s[i]) {
            Some(e) => Some(e),
            None => bodies_error(s, i + 1),
        }
    } else {
        None
    }
}

pub open spec fn globals_error(s: Seq<GlobalView>, i: int) -> Option<CheckError>
    decreases s.len() - i,
{
    if 0 <= i < s.len() {
        match global_error(s[i]) {
            Some(e) => Some(e),
            None => globals_error(s, i + 1),
        }
    } else {
        None
    }
}

pub open spec fn imports_error(s: Seq<ImportView>, types: Seq<SigView>, i: int) -> Option<CheckError>
    decreases s.len() - i,
{
    if 0 <= i < s.len() {
        match import_error(i, s[i], types) {
            Some(e) => Some(e),
            None => imports_error(s, types, i + 1),
        }
    } else {
        None
    }
}

pub open spec fn sigs_error(s: Seq<SigView>, i: int) -> Option<CheckError>
    decreases s.len() - i,
{
    if 0 <= i < s.len() {
        match sig_error(s[i]) {
            Some(e) => Some(e),
            None => sigs_error(s, i + 1),
        }
    } else {
        None
    }
}

/// Whether some offset from position `i` on works on floats.
pub open spec fn offsets_float(s: Seq<Option<Seq<Instruction>>>, i: int) -> bool
    decreases s.len() - i,
{
    if 0 <= i < s.len() {
        (s[i] matches Some(x) && code_names_float(x)) || offsets_float(s, i + 1)
    } else {
        false
    }
}

pub open spec fn first_of(a: Option<CheckError>, b: Option<CheckError>) -> Option<CheckError> {
    if a is Some {
        a
    } else {
        b
    }
}

/// The first thing that the check refuses, section by section: code,
/// globals, imports, types, data, elements.
pub open spec fn module_error(m: ModuleView) -> Option<CheckError> {
    first_of(
        bodies_error(m.bodies, 0),
        first_of(
            globals_error(m.globals, 0),
            first_of(
                imports_error(m.imports, m.types, 0),
                first_of(
                    sigs_error(m.types, 0),
                    if offsets_float(m.data_offsets, 0) {
                        Some(CheckError::DataOffset)
                    } else if offsets_float(m.element_offsets, 0) {
                        Some(CheckError::ElementOffset)
                    } else {
                        None
                    },
                ),
            ),
        ),
    )
}

pub open spec fn check_module_model(m: ModuleView) -> Result<(), CheckError> {
    match module_error(m) {
        Some(e) => Err(e),
        None => Ok(()),
    }
}

fn kinds_have_float(kinds: &Vec<ValueKind>) -> (r: bool)
    ensures
        r == any_float(kinds@),
{
    let mut i: usize = 0;
    while i < kinds.len()
        invariant
            i <= kinds@.len(),
            forall|j: int| 0 <= j < i ==> !#[trigger] is_float(kinds@[j]),
        decreases kinds@.len() - i,
    {
        if is_invalid_value_type(&kinds[i]) {
            assert(is_float(kinds@[i as int]));
            return true;
        }
        i += 1;
    }
    false
}

fn code_has_float(code: &Vec<Instruction>) -> (r: bool)
    ensures
        r == code_names_float(code@),
{
    let mut i: usize = 0;
    while i < code.len()
        invariant
            i <= code@.len(),
            forall|j: int| 0 <= j < i ==> !#[trigger] crate::invalid_check::common::names_float(
                crate::invalid_check::common::instruction_display(code@[j]),
            ),
        decreases code@.len() - i,
    {
        if is_invalid_instruction(&code[i]) {
            return true;
        }
        i += 1;
    }
    false
}

fn sig_check(t: &FuncSig) -> (r: Option<CheckError>)
    ensures
        r == sig_error(t@),
{
    if kinds_have_float(&t.params) {
        return Some(CheckError::ParamType);
    }
    match t.ret {
        Some(k) => if is_invalid_value_type(&k) {
            Some(CheckError::ReturnType)
        } else {
            None
        },
        None => None,
    }
}

fn host_check(j: usize, imp: &ImportItem, ti: usize, t: &FuncSig) -> (r: Option<CheckError>)
    ensures
        r == host_error(j as int, imp@, ti as int, t@),
{
    if kinds_have_float(&t.params) {
        return Some(CheckError::ImportParamType { import: j });
    }
    match t.ret {
        Some(k) => if is_invalid_value_type(&k) {
            return Some(CheckError::ImportReturnType { import: j });
        },
        None => {},
    }
    match imp.info.function_index {
        Some(fi) => if fi as usize == ti {
            match is_invalid_type(&imp.info.field, t) {
                Ok(()) => None,
                Err(e) => Some(CheckError::HostType { import: j, error: e }),
            }
        } else {
            None
        },
        None => None,
    }
}

pub open spec fn sig_views(types: Seq<FuncSig>) -> Seq<SigView> {
    types.map_values(|t: FuncSig| t@)
}

fn import_check(j: usize, imp: &ImportItem, types: &Vec<FuncSig>) -> (r: Option<CheckError>)
    ensures
        r == import_error(j as int, imp@, sig_views(types@)),
{
    match imp.global_kind {
        Some(k) => if is_invalid_value_type(&k) {
            return Some(CheckError::ImportGlobalType { import: j });
        },
        None => {},
    }
    match get_import_func_index(&imp.info) {
        Err(_) => {
            return Some(CheckError::InvalidField { import: j });
        },
        Ok(None) => {
            return None;
        },
        Ok(Some(_)) => {},
    }
    let ghost tv = sig_views(types@);
    let mut i: usize = 0;
    while i < types.len()
        invariant
            i <= types@.len(),
            tv == sig_views(types@),
            import_error(j as int, imp@, tv) == import_types_error(j as int, imp@, tv, i as int),
        decreases types@.len() - i,
    {
        assert(tv[i as int] == types@[i as int]@);
        match host_check(j, imp, i, &types[i]) {
            Some(e) => {
                return Some(e);
            },
            None => {},
        }
        i += 1;
    }
    None
}

fn bodies_check(s: &Vec<BodyInfo>) -> (r: Option<CheckError>)
    ensures
        r == bodies_error(s@.map_values(|b: BodyInfo| b@), 0),
{
    let ghost v = s@.map_values(|b: BodyInfo| b@);
    let mut i: usize = 0;
    while i < s.len()
        invariant
            i <= s@.len(),
            v == s@.map_values(|b: BodyInfo| b@),
            bodies_error(v, 0) == bodies_error(v, i as int),
        decreases s@.len() - i,
    {
        let b = &s[i];
        assert(v[i as int] == b@);
        if kinds_have_float(&b.locals) {
            return Some(CheckError::LocalType);
        }
        if code_has_float(&b.code) {
            return Some(CheckError::Instruction);
        }
        i += 1;
    }
    None
}

fn globals_check(s: &Vec<GlobalInfo>) -> (r: Option<CheckError>)
    ensures
        r == globals_error(s@.map_values(|g: GlobalInfo| g@), 0),
{
    let ghost v = s@.map_values(|g: GlobalInfo| g@);
    let mut i: usize = 0;
    while i < s.len()
        invariant
            i <= s@.len(),
            v == s@.map_values(|g: GlobalInfo| g@),
            globals_error(v, 0) == globals_error(v, i as int),
        decreases s@.len() - i,
    {
        let g = &s[i];
        assert(v[i as int] == g@);
        if is_invalid_value_type(&g.kind) {
            return Some(CheckError::GlobalType);
        }
        if is_invalid_init_expr(&g.init) {
            return Some(CheckError::GlobalInit);
        }
        i += 1;
    }
    None
}

fn imports_check(s: &Vec<ImportItem>, types: &Vec<FuncSig>) -> (r: Option<CheckError>)
    ensures
        r == imports_error(s@.map_values(|i: ImportItem| i@), sig_views(types@), 0),
{
    let ghost v = s@.map_values(|i: ImportItem| i@);
    let mut i: usize = 0;
    while i < s.len()
        invariant
            i <= s@.len(),
            v == s@.map_values(|i: ImportItem| i@),
            imports_error(v, sig_views(types@), 0) == imports_error(v, sig_views(types@), i as int),
        decreases s@.len() - i,
    {
        assert(v[i as int] == s@[i as int]@);
        match import_check(i, &s[i], types) {
            Some(e) => {
                return Some(e);
            },
            None => {},
        }
        i += 1;
    }
    None
}

fn sigs_check(s: &Vec<FuncSig>) -> (r: Option<CheckError>)
    ensures
        r == sigs_error(sig_views(s@), 0),
{
    let ghost v = sig_views(s@);
    let mut i: usize = 0;
    while i < s.len()
        invariant
            i <= s@.len(),
            v == sig_views(s@),
            sigs_error(v, 0) == sigs_error(v, i as int),
        decreases s@.len() - i,
    {
        assert(v[i as int] == s@[i as int]@);
        match sig_check(&s[i]) {
            Some(e) => {
                return Some(e);
            },
            None => {},
        }
        i += 1;
    }
    None
}

fn offsets_check(s: &Vec<Option<InitExpr>>) -> (r: bool)
    ensures
        r == offsets_float(s@.map_values(|o: Option<InitExpr>| offset_view(o)), 0),
{
    let ghost v = s@.map_values(|o: Option<InitExpr>| offset_view(o));
    let mut i: usize = 0;
    while i < s.len()
        invariant
            i <= s@.len(),
            v == s@.map_values(|o: Option<InitExpr>| offset_view(o)),
            offsets_float(v, 0) == offsets_float(v, i as int),
        decreases s@.len() - i,
    {
        assert(v[i as int] == offset_view(s@[i as int]));
        match &s[i] {
            Some(x) => if is_invalid_init_expr(x) {
                return true;
            },
            None => {},
        }
        i += 1;
    }
    false
}

/// Checks a module for what the chain refuses and gives the first such
/// thing (see `module_error`).
pub fn check_module(m: &ModuleInfo) -> (r: Result<(), CheckError>)
    ensures
        r == check_module_model(m@),
{
    if let Some(e) = bodies_check(&m.bodies) {
        return Err(e);
    }
    if let Some(e) = globals_check(&m.globals) {
        return Err(e);
    }
    if let Some(e) = imports_check(&m.imports, &m.types) {
        return Err(e);
    }
    if let Some(e) = sigs_check(&m.types) {
        return Err(e);
    }
    if offsets_check(&m.data_offsets) {
        return Err(CheckError::DataOffset);
    }
    if offsets_check(&m.element_offsets) {
        return Err(CheckError::ElementOffset);
    }
    Ok(())
}

proof fn lemma_bodies_error(s: Seq<BodyView>, i: int)
    requires
        0 <= i <= s.len(),
    ensures
        bodies_error(s, i) is None <==> forall|j: int| i <= j < s.len() ==> #[trigger] body_error(s[j]) is None,
    decreases s.len() - i,
{
    if i < s.len() {
        lemma_bodies_error(s, i + 1);
    }
}

proof fn lemma_globals_error(s: Seq<GlobalView>, i: int)
    requires
        0 <= i <= s.len(),
    ensures
        globals_error(s, i) is None <==> forall|j: int| i <= j < s.len() ==> #[trigger] global_error(s[j]) is None,
    decreases s.len() - i,
{
    if i < s.len() {
        lemma_globals_error(s, i + 1);
    }
}

proof fn lemma_sigs_error(s: Seq<SigView>, i: int)
    requires
        0 <= i <= s.len(),
    ensures
        sigs_error(s, i) is None <==> forall|j: int| i <= j < s.len() ==> #[trigger] sig_error(s[j]) is None,
    decreases s.len() - i,
{
    if i < s.len() {
        lemma_sigs_error(s, i + 1);
    }
}

proof fn lemma_imports_error(s: Seq<ImportView>, types: Seq<SigView>, i: int)
    requires
        0 <= i <= s.len(),
    ensures
        imports_error(s, types, i) is None <==> forall|j: int| i <= j < s.len() ==> #[trigger] import_error(j, s[j], types) is None,
    decreases s.len() - i,
{
    if i < s.len() {
        lemma_imports_error(s, types, i + 1);
    }
}

proof fn lemma_import_types_error(j: int, imp: ImportView, types: Seq<SigView>, ti: int)
    requires
        0 <= ti <= types.len(),
    ensures
        import_types_error(j, imp, types, ti) is None
            <==> forall|k: int| ti <= k < types.len() ==> #[trigger] host_error(j, imp, k, types[k]) is None,
    decreases types.len() - ti,
{
    if ti < types.len() {
        lemma_import_types_error(j, imp, types, ti + 1);
    }
}

proof fn lemma_offsets_float(s: Seq<Option<Seq<Instruction>>>, i: int)
    requires
        0 <= i <= s.len(),
    ensures
        !offsets_float(s, i) <==> forall|j: int| i <= j < s.len() ==> !(#[trigger] s[j] matches Some(x) && code_names_float(x)),
    decreases s.len() - i,
{
    if i < s.len() {
        lemma_offsets_float(s, i + 1);
    }
}

/// A function type without floats.
pub open spec fn sig_clean(t: SigView) -> bool {
    &&& !any_float(t.params)
    &&& !(t.ret matches Some(k) && is_float(k))
}

/// An import that the chain accepts, given the module's function types: no
/// float global, and from `env` only a host function, whose type, when it
/// names one of the module's function types, is the host's.
pub open spec fn import_clean(imp: ImportView, types: Seq<SigView>) -> bool {
    &&& !(imp.global_kind matches Some(k) && is_float(k))
    &&& imp.module == "env"@ ==> {
        &&& is_valid_field(imp.field)
        &&& forall|ti: int| 0 <= ti < types.len() && (imp.function_index matches Some(fi) && fi as int == ti)
            ==> (#[trigger] check_type_model(imp.field, types[ti].params.len(), types[ti].ret)) is Ok
    }
}

/// A module that the chain accepts, part by part: no function body has a
/// float local or an instruction that works on floats, no global is a float
/// or is initialized with one, every import is accepted, no function type
/// has a float, and no data or element offset works on floats.
pub open spec fn module_clean(m: ModuleView) -> bool {
    &&& forall|i: int| 0 <= i < m.bodies.len()
        ==> !any_float(#[trigger] m.bodies[i].locals) && !code_names_float(m.bodies[i].code)
    &&& forall|i: int| 0 <= i < m.globals.len()
        ==> !is_float(#[trigger] m.globals[i].kind) && !code_names_float(m.globals[i].init)
    &&& forall|i: int| 0 <= i < m.imports.len() ==> import_clean(#[trigger] m.imports[i], m.types)
    &&& forall|i: int| 0 <= i < m.types.len() ==> sig_clean(#[trigger] m.types[i])
    &&& forall|i: int| 0 <= i < m.data_offsets.len() ==> !(#[trigger] m.data_offsets[i] matches Some(x) && code_names_float(x))
    &&& forall|i: int| 0 <= i < m.element_offsets.len()
        ==> !(#[trigger] m.element_offsets[i] matches Some(x) && code_names_float(x))
}

/// `check_module` accepts a module exactly when every part of it is
/// accepted (see `module_clean`): every function body, global, import,
/// function type and offset is looked at.
pub proof fn law_check_module_accepts(m: ModuleView)
    ensures
        check_module_model(m) is Ok <==> module_clean(m),
{
    lemma_bodies_error(m.bodies, 0);
    lemma_globals_error(m.globals, 0);
    lemma_imports_error(m.imports, m.types, 0);
    lemma_sigs_error(m.types, 0);
    lemma_offsets_float(m.data_offsets, 0);
    lemma_offsets_float(m.element_offsets, 0);
    assert forall|j: int| 0 <= j < m.imports.len() && sigs_error(m.types, 0) is None implies
        (#[trigger] import_error(j, m.imports[j], m.types) is None <==> import_clean(m.imports[j], m.types)) by {
        let imp = m.imports[j];
        lemma_import_types_error(j, imp, m.types, 0);
        if imp.module == "env"@ && is_valid_field(imp.field) && !(imp.global_kind matches Some(k) && is_float(k)) {
            if import_types_error(j, imp, m.types, 0) is None {
                assert forall|ti: int| 0 <= ti < m.types.len() && (imp.function_index matches Some(fi) && fi as int == ti)
                    implies (#[trigger] check_type_model(imp.field, m.types[ti].params.len(), m.types[ti].ret)) is Ok by {
                    assert(host_error(j, imp, ti, m.types[ti]) is None);
                    assert(sig_error(m.types[ti]) is None);
                }
            }
            if import_clean(imp, m.types) {
                assert forall|ti: int| 0 <= ti < m.types.len() implies #[trigger] host_error(j, imp, ti, m.types[ti]) is None by {
                    assert(sig_error(m.types[ti]) is None);
                    if imp.function_index matches Some(fi) && fi as int == ti {
                        assert(check_type_model(imp.field, m.types[ti].params.len(), m.types[ti].ret) is Ok);
                    }
                }
            }
        }
    }
    if check_module_model(m) is Ok {
        assert(bodies_error(m.bodies, 0) is None);
        assert(globals_error(m.globals, 0) is None);
        assert(imports_error(m.imports, m.types, 0) is None);
        assert(sigs_error(m.types, 0) is None);
        assert forall|i: int| 0 <= i < m.bodies.len() implies
            !any_float(#[trigger] m.bodies[i].locals) && !code_names_float(m.bodies[i].code) by {
            assert(body_error(m.bodies[i]) is None);
        }
        assert forall|i: int| 0 <= i < m.globals.len() implies
            !is_float(#[trigger] m.globals[i].kind) && !code_names_float(m.globals[i].init) by {
            assert(global_error(m.globals[i]) is None);
        }
        assert forall|i: int| 0 <= i < m.imports.len() implies import_clean(#[trigger] m.imports[i], m.types) by {
            assert(import_error(i, m.imports[i], m.types) is None);
        }
        assert forall|i: int| 0 <= i < m.types.len() implies sig_clean(#[trigger] m.types[i]) by {
            assert(sig_error(m.types[i]) is None);
        }
    }
    if module_clean(m) {
        assert forall|i: int| 0 <= i < m.bodies.len() implies #[trigger] body_error(m.bodies[i]) is None by {
            assert(!any_float(m.bodies[i].locals));
        }
        assert forall|i: int| 0 <= i < m.globals.len() implies #[trigger] global_error(m.globals[i]) is None by {
            assert(!is_float(m.globals[i].kind));
        }
        assert forall|i: int| 0 <= i < m.types.len() implies #[trigger] sig_error(m.types[i]) is None by {
            assert(sig_clean(m.types[i]));
        }
        assert(sigs_error(m.types, 0) is None);
        assert forall|i: int| 0 <= i < m.imports.len() implies #[trigger] import_error(i, m.imports[i], m.types) is None by {
            assert(import_clean(m.imports[i], m.types));
        }
    }
}

} // verus!
