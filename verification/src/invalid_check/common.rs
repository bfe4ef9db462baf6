use std::collections::BTreeMap;
use vstd::prelude::*;
use parity_wasm::elements::{InitExpr, Instruction};

verus! {

#[verifier::external_type_specification]
#[verifier::external_body]
pub struct ExInstruction(parity_wasm::elements::Instruction);

#[verifier::external_type_specification]
#[verifier::external_body]
pub struct ExInitExpr(parity_wasm::elements::InitExpr);

/// The kind of a WebAssembly value.
#[derive(Clone, Copy, Debug, PartialEq, Eq, Structural)]
pub enum ValueKind {
    I32,
    I64,
    F32,
    F64,
}

/// The signature of a function type: its parameter kinds and its return
/// kind, if any.
pub struct FuncSig {
    pub params: Vec<ValueKind>,
    pub ret: Option<ValueKind>,
}

/// An entry of the import section: the module and field it names, and the
/// function index when it imports a function.
#[derive(Debug)]
pub struct ImportInfo {
    pub module: String,
    pub field: String,
    pub function_index: Option<u32>,
}

/// A host import that a contract may not use.
#[derive(Debug)]
pub struct InvalidField {
    pub field: String,
}

/// How an imported host function's type differs from the host's.
#[derive(Clone, Copy, Debug, PartialEq, Eq, Structural)]
pub enum TypeError {
    /// It takes this many parameters.
    ParamCount { params: usize },
    /// It returns a value of this kind.
    ReturnType { kind: ValueKind },
}

/// What a host function may return.
#[derive(Clone, Copy, Debug, PartialEq, Eq, Structural)]
pub enum RetRule {
    /// Nothing.
    Nothing,
    /// Nothing or an `i32`.
    I32,
    /// Nothing or an `i64`.
    I64,
}

/// The host functions that a contract may import from `env`.
pub open spec fn is_valid_field(f: Seq<char>) -> bool {
    ||| f == "timestamp"@
    ||| f == "block_height"@
    ||| f == "self_address"@
    ||| f == "caller_address"@
    ||| f == "entry_address"@
    ||| f == "check_witness"@
    ||| f == "ret"@
    ||| f == "notify"@
    ||| f == "input_length"@
    ||| f == "get_input"@
    ||| f == "call_contract"@
    ||| f == "call_output_length"@
    ||| f == "get_output"@
    ||| f == "current_blockhash"@
    ||| f == "current_txhash"@
    ||| f == "contract_migrate"@
    ||| f == "storage_read"@
    ||| f == "storage_write"@
    ||| f == "storage_delete"@
}

/// The number of parameters and the return rule of the host functions
/// whose type is checked.
pub open spec fn host_shape(name: Seq<char>) -> Option<(nat, RetRule)> {
    if name == "timestamp"@ {
        Some((0, RetRule::I64))
    } else if name == "block_height"@ || name == "input_length"@ || name == "call_output_length"@ {
        Some((0, RetRule::I32))
    } else if name == "self_address"@ || name == "caller_address"@ || name == "entry_address"@
        || name == "get_input"@ || name == "get_output"@ {
        Some((1, RetRule::Nothing))
    } else if name == "check_witness"@ || name == "current_blockhash"@ || name == "current_txhash"@ {
        Some((1, RetRule::I32))
    } else if name == "ret"@ {
        Some((2, RetRule::Nothing))
    } else if name == "call_contract"@ {
        Some((3, RetRule::I32))
    } else if name == "contract_migrate"@ {
        Some((14, RetRule::I32))
    } else if name == "storage_read"@ {
        Some((5, RetRule::I32))
    } else if name == "storage_write"@ {
        Some((4, RetRule::Nothing))
    } else if name == "storage_delete"@ {
        Some((2, RetRule::Nothing))
    } else {
        None
    }
}

/// Whether a return kind is allowed by a return rule.
pub open spec fn ret_allowed(rule: RetRule, ret: Option<ValueKind>) -> bool {
    match ret {
        None => true,
        Some(k) => match rule {
            RetRule::Nothing => false,
            RetRule::I32 => k == ValueKind::I32,
            RetRule::I64 => k == ValueKind::I64,
        },
    }
}

/// What checking the type of the imported host function `name` gives: the
/// parameter count is checked first, then the return kind; a function
/// outside the table passes.
pub open spec fn check_type_model(name: Seq<char>, params: nat, ret: Option<ValueKind>) -> Result<(), TypeError> {
    match host_shape(name) {
        None => Ok(()),
        Some((n, rule)) => if params != n {
            Err(TypeError::ParamCount { params: params as usize })
        } else if !ret_allowed(rule, ret) {
            Err(TypeError::ReturnType { kind: ret->0 })
        } else {
            Ok(())
        },
    }
}

fn same_text(name: &String, lit: &str) -> (r: bool)
    ensures
        r == (name@ == lit@),
{
    *name == lit.to_owned()
}

/// Whether `field` names a host function that contracts may import.
pub fn valid_field(field: &String) -> (r: bool)
    ensures
        r == is_valid_field(field@),
{
    same_text(field, "timestamp") || same_text(field, "block_height") || same_text(field, "self_address")
        || same_text(field, "caller_address") || same_text(field, "entry_address") || same_text(field, "check_witness")
        || same_text(field, "ret") || same_text(field, "notify") || same_text(field, "input_length")
        || same_text(field, "get_input") || same_text(field, "call_contract") || same_text(field, "call_output_length")
        || same_text(field, "get_output") || same_text(field, "current_blockhash") || same_text(field, "current_txhash")
        || same_text(field, "contract_migrate") || same_text(field, "storage_read") || same_text(field, "storage_write")
        || same_text(field, "storage_delete")
}

fn shape_of(name: &String) -> (r: Option<(usize, RetRule)>)
    ensures
        match host_shape(name@) {
            Some((n, rule)) => r == Some((n as usize, rule)),
            None => r is None,
        },
{
    if same_text(name, "timestamp") {
        Some((0, RetRule::I64))
    } else if same_text(name, "block_height") || same_text(name, "input_length") || same_text(name, "call_output_length") {
        Some((0, RetRule::I32))
    } else if same_text(name, "self_address") || same_text(name, "caller_address") || same_text(name, "entry_address")
        || same_text(name, "get_input") || same_text(name, "get_output") {
        Some((1, RetRule::Nothing))
    } else if same_text(name, "check_witness") || same_text(name, "current_blockhash") || same_text(name, "current_txhash") {
        Some((1, RetRule::I32))
    } else if same_text(name, "ret") {
        Some((2, RetRule::Nothing))
    } else if same_text(name, "call_contract") {
        Some((3, RetRule::I32))
    } else if same_text(name, "contract_migrate") {
        Some((14, RetRule::I32))
    } else if same_text(name, "storage_read") {
        Some((5, RetRule::I32))
    } else if same_text(name, "storage_write") {
        Some((4, RetRule::Nothing))
    } else if same_text(name, "storage_delete") {
        Some((2, RetRule::Nothing))
    } else {
        None
    }
}

/// The function index that an `env` import brings in: `None` for an import
/// from another module; for an `env` import, its index mapped to its field
/// (an empty map when it imports no function). An `env` field that is not
/// a host function is refused.
pub fn get_import_func_index(entry: &ImportInfo) -> (r: Result<Option<BTreeMap<u32, String>>, InvalidField>)
    ensures
        entry.module@ != "env"@ ==> r matches Ok(None),
        entry.module@ == "env"@ && !is_valid_field(entry.field@) ==> (r matches Err(e) && e.field@ == entry.field@),
        entry.module@ == "env"@ && is_valid_field(entry.field@) ==> (r matches Ok(Some(m)) && match entry.function_index {
            Some(i) => m@.dom() == set![i] && m@[i]@ == entry.field@,
            None => m@.dom().is_empty(),
        }),
{
    if !same_text(&entry.module, "env") {
        return Ok(None);
    }
    if !valid_field(&entry.field) {
        return Err(InvalidField { field: entry.field.clone() });
    }
    let mut func_index: BTreeMap<u32, String> = BTreeMap::new();
    match entry.function_index {
        Some(index) => {
            func_index.insert(index, entry.field.clone());
        },
        None => {},
    }
    Ok(Some(func_index))
}

/// Checks the type of the imported host function `func_name` against the
/// host's (see `check_type_model`).
pub fn is_invalid_type(func_name: &String, func_type: &FuncSig) -> (r: Result<(), TypeError>)
    ensures
        r == check_type_model(func_name@, func_type.params@.len(), func_type.ret),
{
    match shape_of(func_name) {
        None => Ok(()),
        Some((n, rule)) => {
            let params = func_type.params.len();
            if params != n {
                return Err(TypeError::ParamCount { params });
            }
            match func_type.ret {
                None => Ok(()),
                Some(k) => {
                    let ok = match rule {
                        RetRule::Nothing => false,
                        RetRule::I32 => k == ValueKind::I32,
                        RetRule::I64 => k == ValueKind::I64,
                    };
                    if ok {
                        Ok(())
                    } else {
                        Err(TypeError::ReturnType { kind: k })
                    }
                },
            }
        },
    }
}

/// Whether a value kind is a float, which contracts may not use.
pub fn is_invalid_value_type(value_type: &ValueKind) -> (r: bool)
    ensures
        r == (*value_type == ValueKind::F32 || *value_type == ValueKind::F64),
{
    match value_type {
        ValueKind::F32 | ValueKind::F64 => true,
        _ => false,
    }
}

/// Whether `s` holds `pat` at position `i`.
pub open spec fn occurs_at(s: Seq<char>, pat: Seq<char>, i: int) -> bool {
    0 <= i && i + pat.len() <= s.len() && s.subrange(i, i + pat.len()) == pat
}

/// Whether `s` holds `pat` anywhere.
pub open spec fn contains_text(s: Seq<char>, pat: Seq<char>) -> bool {
    exists|i: int| #[trigger] occurs_at(s, pat, i)
}

fn chars_of(s: &str) -> (r: Vec<char>)
    ensures
        r@ == s@,
{
    let mut r: Vec<char> = Vec::new();
    let n = s.unicode_len();
    let mut i: usize = 0;
    while i < n
        invariant
            i <= n,
            n == s@.len(),
            r@ == s@.take(i as int),
        decreases n - i,
    {
        r.push(s.get_char(i));
        i += 1;
        assert(r@ =~= s@.take(i as int));
    }
    assert(s@.take(n as int) =~= s@);
    r
}

fn contains_chars(s: &Vec<char>, pat: &Vec<char>) -> (r: bool)
    ensures
        r == contains_text(s@, pat@),
{
    if pat.len() > s.len() {
        proof {
            assert forall|i: int| !occurs_at(s@, pat@, i) by {}
        }
        return false;
    }
    let slen = s.len();
    let last = slen - pat.len();
    let mut i: usize = 0;
    while i <= last
        invariant
            pat@.len() <= s@.len(),
            last + pat@.len() == s@.len(),
            slen == s@.len(),
            i <= last + 1,
            forall|j: int| 0 <= j < i ==> !#[trigger] occurs_at(s@, pat@, j),
        decreases s@.len() - i,
    {
        let mut k: usize = 0;
        let mut same = true;
        while k < pat.len()
            invariant
                i + pat@.len() <= s@.len(),
                last + pat@.len() == s@.len(),
                slen == s@.len(),
                k <= pat@.len(),
                same == forall|m: int| 0 <= m < k ==> s@[i + m] == pat@[m],
            decreases pat@.len() - k,
        {
            if s[i + k] != pat[k] {
                same = false;
            }
            k += 1;
        }
        if same {
            assert(s@.subrange(i as int, i + pat@.len()) =~= pat@);
            assert(occurs_at(s@, pat@, i as int));
            return true;
        }
        assert(!occurs_at(s@, pat@, i as int)) by {
            if s@.subrange(i as int, i + pat@.len()) == pat@ {
                let m = choose|m: int| 0 <= m < pat@.len() && s@[i + m] != pat@[m];
                assert(s@.subrange(i as int, i + pat@.len())[m] == s@[i + m]);
            }
        }
        i += 1;
    }
    assert forall|j: int| !#[trigger] occurs_at(s@, pat@, j) by {
        if 0 <= j < i {
        }
    }
    false
}

/// Whether the text of an instruction names a float type.
pub fn text_names_float(text: &str) -> (r: bool)
    ensures
        r == names_float(text@),
{
    let t = chars_of(text);
    let pat32 = chars_of("f32");
    let pat64 = chars_of("f64");
    contains_chars(&t, &pat32) || contains_chars(&t, &pat64)
}

/// What parity_wasm's `Display` writes for an instruction: its text form,
/// such as `f32.add` or `i32.const 5`. It depends on the instruction alone.
pub uninterp spec fn instruction_display(instruction: Instruction) -> Seq<char>;

/// The instructions of an initialization expression, as parity_wasm's
/// `InitExpr::code` gives them.
pub uninterp spec fn init_expr_instructions(init_expr: InitExpr) -> Seq<Instruction>;

/// Whether a text names a float type.
pub open spec fn names_float(text: Seq<char>) -> bool {
    contains_text(text, "f32"@) || contains_text(text, "f64"@)
}

/// Whether some instruction of `code` works on floats.
pub open spec fn code_names_float(code: Seq<Instruction>) -> bool {
    exists|i: int| 0 <= i < code.len() && #[trigger] names_float(instruction_display(code[i]))
}

/// `Display` of parity_wasm's `Instruction`, as a `String`: the text that
/// `instruction_display` names.
#[verifier::external_body]
fn instruction_text(instruction: &Instruction) -> (r: String)
    ensures
        r@ == instruction_display(*instruction),
{
    format!("{}", instruction)
}

/// `InitExpr::code` of parity_wasm: the instructions that
/// `init_expr_instructions` names.
#[verifier::external_body]
fn init_expr_code(init_expr: &InitExpr) -> (r: &[Instruction])
    ensures
        r@ == init_expr_instructions(*init_expr),
{
    init_expr.code()
}

/// Whether an instruction works on floats: its text names `f32` or `f64`.
pub fn is_invalid_instruction(instruction: &Instruction) -> (r: bool)
    ensures
        r == names_float(instruction_display(*instruction)),
{
    let text = instruction_text(instruction);
    text_names_float(text.as_str())
}

/// Whether an initialization expression holds an instruction that works on
/// floats.
pub fn is_invalid_init_expr(init_expr: &InitExpr) -> (r: bool)
    ensures
        r == code_names_float(init_expr_instructions(*init_expr)),
{
    let code = init_expr_code(init_expr);
    let mut i: usize = 0;
    while i < code.len()
        invariant
            i <= code@.len(),
            code@ == init_expr_instructions(*init_expr),
            forall|j: int| 0 <= j < i ==> !#[trigger] names_float(instruction_display(code@[j])),
        decreases code@.len() - i,
    {
        if is_invalid_instruction(&code[i]) {
            return true;
        }
        i += 1;
    }
    false
}

/// Whether `ret` is nothing or the kind `k`.
pub open spec fn returns_nothing_or(ret: Option<ValueKind>, k: ValueKind) -> bool {
    ret is None || ret == Some(k)
}

/// The host's signatures: an imported host function passes the type check
/// exactly when it has the host's parameter count and returns nothing or the
/// host's return kind (`timestamp` returns an `i64`; `block_height`,
/// `input_length`, `call_output_length`, `check_witness`,
/// `current_blockhash`, `current_txhash`, `call_contract`,
/// `contract_migrate` and `storage_read` an `i32`; the others nothing).
/// Every other name passes. A refusal names the parameter count it saw, or
/// the return kind it saw.
pub proof fn law_host_signatures(name: Seq<char>, params: nat, ret: Option<ValueKind>)
    ensures
        name == "timestamp"@ ==> (check_type_model(name, params, ret) is Ok <==> params == 0 && returns_nothing_or(ret, ValueKind::I64)),
        (name == "block_height"@ || name == "input_length"@ || name == "call_output_length"@)
            ==> (check_type_model(name, params, ret) is Ok <==> params == 0 && returns_nothing_or(ret, ValueKind::I32)),
        (name == "self_address"@ || name == "caller_address"@ || name == "entry_address"@ || name == "get_input"@
            || name == "get_output"@) ==> (check_type_model(name, params, ret) is Ok <==> params == 1 && ret is None),
        (name == "check_witness"@ || name == "current_blockhash"@ || name == "current_txhash"@)
            ==> (check_type_model(name, params, ret) is Ok <==> params == 1 && returns_nothing_or(ret, ValueKind::I32)),
        name == "ret"@ ==> (check_type_model(name, params, ret) is Ok <==> params == 2 && ret is None),
        name == "call_contract"@ ==> (check_type_model(name, params, ret) is Ok <==> params == 3 && returns_nothing_or(ret, ValueKind::I32)),
        name == "contract_migrate"@ ==> (check_type_model(name, params, ret) is Ok <==> params == 14 && returns_nothing_or(ret, ValueKind::I32)),
        name == "storage_read"@ ==> (check_type_model(name, params, ret) is Ok <==> params == 5 && returns_nothing_or(ret, ValueKind::I32)),
        name == "storage_write"@ ==> (check_type_model(name, params, ret) is Ok <==> params == 4 && ret is None),
        name == "storage_delete"@ ==> (check_type_model(name, params, ret) is Ok <==> params == 2 && ret is None),
        !(name == "timestamp"@ || name == "block_height"@ || name == "input_length"@ || name == "call_output_length"@
            || name == "self_address"@ || name == "caller_address"@ || name == "entry_address"@ || name == "get_input"@
            || name == "get_output"@ || name == "check_witness"@ || name == "current_blockhash"@
            || name == "current_txhash"@ || name == "ret"@ || name == "call_contract"@ || name == "contract_migrate"@
            || name == "storage_read"@ || name == "storage_write"@ || name == "storage_delete"@)
            ==> check_type_model(name, params, ret) is Ok,
        check_type_model(name, params, ret) matches Err(TypeError::ParamCount { params: p }) ==> p == params as usize,
        check_type_model(name, params, ret) matches Err(TypeError::ReturnType { kind }) ==> ret == Some(kind),
{
    reveal_strlit("timestamp");
    reveal_strlit("block_height");
    reveal_strlit("self_address");
    reveal_strlit("caller_address");
    reveal_strlit("entry_address");
    reveal_strlit("check_witness");
    reveal_strlit("ret");
    reveal_strlit("notify");
    reveal_strlit("input_length");
    reveal_strlit("get_input");
    reveal_strlit("call_contract");
    reveal_strlit("call_output_length");
    reveal_strlit("get_output");
    reveal_strlit("current_blockhash");
    reveal_strlit("current_txhash");
    reveal_strlit("contract_migrate");
    reveal_strlit("storage_read");
    reveal_strlit("storage_write");
    reveal_strlit("storage_delete");
    if name == "block_height"@ {
        assert("block_height"@.len() != "timestamp"@.len());
    }
    if name == "input_length"@ {
        assert("input_length"@.len() != "timestamp"@.len());
        assert("input_length"@[0] != "block_height"@[0]);
    }
    if name == "call_output_length"@ {
        assert("call_output_length"@.len() != "timestamp"@.len());
        assert("call_output_length"@.len() != "block_height"@.len());
        assert("call_output_length"@.len() != "input_length"@.len());
    }
    if name == "self_address"@ {
        assert("self_address"@.len() != "timestamp"@.len());
        assert("self_address"@[0] != "block_height"@[0]);
        assert("self_address"@[0] != "input_length"@[0]);
        assert("self_address"@.len() != "call_output_length"@.len());
    }
    if name == "caller_address"@ {
        assert("caller_address"@.len() != "timestamp"@.len());
        assert("caller_address"@.len() != "block_height"@.len());
        assert("caller_address"@.len() != "input_length"@.len());
        assert("caller_address"@.len() != "call_output_length"@.len());
        assert("caller_address"@.len() != "self_address"@.len());
    }
    if name == "entry_address"@ {
        assert("entry_address"@.len() != "timestamp"@.len());
        assert("entry_address"@.len() != "block_height"@.len());
        assert("entry_address"@.len() != "input_length"@.len());
        assert("entry_address"@.len() != "call_output_length"@.len());
        assert("entry_address"@.len() != "self_address"@.len());
        assert("entry_address"@.len() != "caller_address"@.len());
    }
    if name == "get_input"@ {
        assert("get_input"@[0] != "timestamp"@[0]);
        assert("get_input"@.len() != "block_height"@.len());
        assert("get_input"@.len() != "input_length"@.len());
        assert("get_input"@.len() != "call_output_length"@.len());
        assert("get_input"@.len() != "self_address"@.len());
        assert("get_input"@.len() != "caller_address"@.len());
        assert("get_input"@.len() != "entry_address"@.len());
    }
    if name == "get_output"@ {
        assert("get_output"@.len() != "timestamp"@.len());
        assert("get_output"@.len() != "block_height"@.len());
        assert("get_output"@.len() != "input_length"@.len());
        assert("get_output"@.len() != "call_output_length"@.len());
        assert("get_output"@.len() != "self_address"@.len());
        assert("get_output"@.len() != "caller_address"@.len());
        assert("get_output"@.len() != "entry_address"@.len());
        assert("get_output"@.len() != "get_input"@.len());
    }
    if name == "check_witness"@ {
        assert("check_witness"@.len() != "timestamp"@.len());
        assert("check_witness"@.len() != "block_height"@.len());
        assert("check_witness"@.len() != "input_length"@.len());
        assert("check_witness"@.len() != "call_output_length"@.len());
        assert("check_witness"@.len() != "self_address"@.len());
        assert("check_witness"@.len() != "caller_address"@.len());
        assert("check_witness"@[0] != "entry_address"@[0]);
        assert("check_witness"@.len() != "get_input"@.len());
        assert("check_witness"@.len() != "get_output"@.len());
    }
    if name == "current_blockhash"@ {
        assert("current_blockhash"@.len() != "timestamp"@.len());
        assert("current_blockhash"@.len() != "block_height"@.len());
        assert("current_blockhash"@.len() != "input_length"@.len());
        assert("current_blockhash"@.len() != "call_output_length"@.len());
        assert("current_blockhash"@.len() != "self_address"@.len());
        assert("current_blockhash"@.len() != "caller_address"@.len());
        assert("current_blockhash"@.len() != "entry_address"@.len());
        assert("current_blockhash"@.len() != "get_input"@.len());
        assert("current_blockhash"@.len() != "get_output"@.len());
        assert("current_blockhash"@.len() != "check_witness"@.len());
    }
    if name == "current_txhash"@ {
        assert("current_txhash"@.len() != "timestamp"@.len());
        assert("current_txhash"@.len() != "block_height"@.len());
        assert("current_txhash"@.len() != "input_length"@.len());
        assert("current_txhash"@.len() != "call_output_length"@.len());
        assert("current_txhash"@.len() != "self_address"@.len());
        assert("current_txhash"@[1] != "caller_address"@[1]);
        assert("current_txhash"@.len() != "entry_address"@.len());
        assert("current_txhash"@.len() != "get_input"@.len());
        assert("current_txhash"@.len() != "get_output"@.len());
        assert("current_txhash"@.len() != "check_witness"@.len());
        assert("current_txhash"@.len() != "current_blockhash"@.len());
    }
    if name == "ret"@ {
        assert("ret"@.len() != "timestamp"@.len());
        assert("ret"@.len() != "block_height"@.len());
        assert("ret"@.len() != "input_length"@.len());
        assert("ret"@.len() != "call_output_length"@.len());
        assert("ret"@.len() != "self_address"@.len());
        assert("ret"@.len() != "caller_address"@.len());
        assert("ret"@.len() != "entry_address"@.len());
        assert("ret"@.len() != "get_input"@.len());
        assert("ret"@.len() != "get_output"@.len());
        assert("ret"@.len() != "check_witness"@.len());
        assert("ret"@.len() != "current_blockhash"@.len());
        assert("ret"@.len() != "current_txhash"@.len());
    }
    if name == "call_contract"@ {
        assert("call_contract"@.len() != "timestamp"@.len());
        assert("call_contract"@.len() != "block_height"@.len());
        assert("call_contract"@.len() != "input_length"@.len());
        assert("call_contract"@.len() != "call_output_length"@.len());
        assert("call_contract"@.len() != "self_address"@.len());
        assert("call_contract"@.len() != "caller_address"@.len());
        assert("call_contract"@[0] != "entry_address"@[0]);
        assert("call_contract"@.len() != "get_input"@.len());
        assert("call_contract"@.len() != "get_output"@.len());
        assert("call_contract"@[1] != "check_witness"@[1]);
        assert("call_contract"@.len() != "current_blockhash"@.len());
        assert("call_contract"@.len() != "current_txhash"@.len());
        assert("call_contract"@.len() != "ret"@.len());
    }
    if name == "contract_migrate"@ {
        assert("contract_migrate"@.len() != "timestamp"@.len());
        assert("contract_migrate"@.len() != "block_height"@.len());
        assert("contract_migrate"@.len() != "input_length"@.len());
        assert("contract_migrate"@.len() != "call_output_length"@.len());
        assert("contract_migrate"@.len() != "self_address"@.len());
        assert("contract_migrate"@.len() != "caller_address"@.len());
        assert("contract_migrate"@.len() != "entry_address"@.len());
        assert("contract_migrate"@.len() != "get_input"@.len());
        assert("contract_migrate"@.len() != "get_output"@.len());
        assert("contract_migrate"@.len() != "check_witness"@.len());
        assert("contract_migrate"@.len() != "current_blockhash"@.len());
        assert("contract_migrate"@.len() != "current_txhash"@.len());
        assert("contract_migrate"@.len() != "ret"@.len());
        assert("contract_migrate"@.len() != "call_contract"@.len());
    }
    if name == "storage_read"@ {
        assert("storage_read"@.len() != "timestamp"@.len());
        assert("storage_read"@[0] != "block_height"@[0]);
        assert("storage_read"@[0] != "input_length"@[0]);
        assert("storage_read"@.len() != "call_output_length"@.len());
        assert("storage_read"@[1] != "self_address"@[1]);
        assert("storage_read"@.len() != "caller_address"@.len());
        assert("storage_read"@.len() != "entry_address"@.len());
        assert("storage_read"@.len() != "get_input"@.len());
        assert("storage_read"@.len() != "get_output"@.len());
        assert("storage_read"@.len() != "check_witness"@.len());
        assert("storage_read"@.len() != "current_blockhash"@.len());
        assert("storage_read"@.len() != "current_txhash"@.len());
        assert("storage_read"@.len() != "ret"@.len());
        assert("storage_read"@.len() != "call_contract"@.len());
        assert("storage_read"@.len() != "contract_migrate"@.len());
    }
    if name == "storage_write"@ {
        assert("storage_write"@.len() != "timestamp"@.len());
        assert("storage_write"@.len() != "block_height"@.len());
        assert("storage_write"@.len() != "input_length"@.len());
        assert("storage_write"@.len() != "call_output_length"@.len());
        assert("storage_write"@.len() != "self_address"@.len());
        assert("storage_write"@.len() != "caller_address"@.len());
        assert("storage_write"@[0] != "entry_address"@[0]);
        assert("storage_write"@.len() != "get_input"@.len());
        assert("storage_write"@.len() != "get_output"@.len());
        assert("storage_write"@[0] != "check_witness"@[0]);
        assert("storage_write"@.len() != "current_blockhash"@.len());
        assert("storage_write"@.len() != "current_txhash"@.len());
        assert("storage_write"@.len() != "ret"@.len());
        assert("storage_write"@[0] != "call_contract"@[0]);
        assert("storage_write"@.len() != "contract_migrate"@.len());
        assert("storage_write"@.len() != "storage_read"@.len());
    }
    if name == "storage_delete"@ {
        assert("storage_delete"@.len() != "timestamp"@.len());
        assert("storage_delete"@.len() != "block_height"@.len());
        assert("storage_delete"@.len() != "input_length"@.len());
        assert("storage_delete"@.len() != "call_output_length"@.len());
        assert("storage_delete"@.len() != "self_address"@.len());
        assert("storage_delete"@[0] != "caller_address"@[0]);
        assert("storage_delete"@.len() != "entry_address"@.len());
        assert("storage_delete"@.len() != "get_input"@.len());
        assert("storage_delete"@.len() != "get_output"@.len());
        assert("storage_delete"@.len() != "check_witness"@.len());
        assert("storage_delete"@.len() != "current_blockhash"@.len());
        assert("storage_delete"@[0] != "current_txhash"@[0]);
        assert("storage_delete"@.len() != "ret"@.len());
        assert("storage_delete"@.len() != "call_contract"@.len());
        assert("storage_delete"@.len() != "contract_migrate"@.len());
        assert("storage_delete"@.len() != "storage_read"@.len());
        assert("storage_delete"@.len() != "storage_write"@.len());
    }
}

} // verus!
