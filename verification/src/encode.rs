//! Modules in the binary format, by way of the `wasm_encoder` crate.
//!
//! A module under construction is described by the plain values that have been put into
//! it. The encoder's types are opaque here; what one of them holds has a name, and the
//! functions that fill it are stated over these names. The bytes of a finished module
//! are named too: they are a function of the module's description.

use vstd::prelude::*;
use crate::wasm::{Instr, IntBin, IntRel, LoadOp, MemArg, StoreOp, ValTy};

verus! {

/// A function type.
#[verifier::ext_equal]
pub struct FuncTy {
    pub params: Seq<ValTy>,
    pub results: Seq<ValTy>,
}

/// What is imported.
#[derive(Clone, Copy, Debug, PartialEq, Eq, Structural)]
pub enum ImportTy {
    /// A 32-bit memory of at least so many pages of the default size, without a maximum
    /// and not shared.
    Memory(u64),
    /// A 32-bit table of at least so many function references, without a maximum and not
    /// shared.
    FuncTable(u64),
    /// A function of the type with the given index.
    Func(u32),
}

/// One import.
#[verifier::ext_equal]
pub struct Import {
    pub module: Seq<char>,
    pub name: Seq<char>,
    pub ty: ImportTy,
}

/// One exported function.
#[verifier::ext_equal]
pub struct Export {
    pub name: Seq<char>,
    pub func: u32,
}

/// A function body: its locals, in groups of one type, and its instructions.
#[verifier::ext_equal]
pub struct Body {
    pub locals: Seq<(u32, ValTy)>,
    pub code: Seq<Instr>,
}

/// One section of a module.
#[verifier::ext_equal]
pub enum Section {
    Types(Seq<FuncTy>),
    Imports(Seq<Import>),
    /// The type indices of the functions.
    Functions(Seq<u32>),
    Exports(Seq<Export>),
    Bodies(Seq<Body>),
}

impl Body {
    /// The body with one more instruction.
    pub open spec fn plus(self, i: Instr) -> Body {
        Body { locals: self.locals, code: self.code.push(i) }
    }

    /// Number of bytes that the body is encoded in, without its length.
    pub open spec fn byte_len(self) -> nat {
        uleb_len(self.locals.len()) + locals_len(self.locals) + code_len(self.code)
    }

    /// The encoded body is short enough for a section of its own: the length of the section
    /// has 32 bits.
    pub open spec fn fits(self) -> bool {
        self.byte_len() <= MAX_BODY
    }
}

/// Number of bytes of an unsigned number, with seven bits in each.
pub open spec fn uleb_len(n: nat) -> nat
    decreases n,
{
    if n < 128 {
        1
    } else {
        1 + uleb_len(n / 128)
    }
}

/// Number of bytes of a signed number, with seven bits in each, of which the first tells the
/// sign in the last byte.
pub open spec fn sleb_len(v: int) -> nat
    decreases
            if v < 0 {
                -v
            } else {
                v
            },
{
    if -64 <= v < 64 {
        1
    } else {
        1 + sleb_len(v / 128)
    }
}

/// Number of bytes of an instruction: its code and its operands. A conditional has its type
/// in one byte, an access its alignment and its offset; a tail call names the table, which
/// is the first.
pub open spec fn instr_len(i: Instr) -> nat {
    1 + match i {
        Instr::LocalGet(n) | Instr::LocalSet(n) | Instr::LocalTee(n) | Instr::Call(n) => uleb_len(
            n as nat,
        ),
        Instr::I32Const(v) => sleb_len(v as int),
        Instr::I64Const(v) => sleb_len(v as int),
        Instr::Load(_, arg) | Instr::Store(_, arg) => uleb_len(arg.align as nat) + uleb_len(
            arg.offset as nat,
        ),
        Instr::ReturnCallIndirect(ty) => uleb_len(ty as nat) + 1,
        Instr::If(_) => 1,
        _ => 0,
    }
}

/// Number of bytes of instructions.
pub open spec fn code_len(code: Seq<Instr>) -> nat
    decreases code.len(),
{
    if code.len() == 0 {
        0
    } else {
        code_len(code.drop_last()) + instr_len(code.last())
    }
}

/// Number of bytes of groups of locals: how many there are, and a byte for their type.
pub open spec fn locals_len(groups: Seq<(u32, ValTy)>) -> nat
    decreases groups.len(),
{
    if groups.len() == 0 {
        0
    } else {
        locals_len(groups.drop_last()) + uleb_len(groups.last().0 as nat) + 1
    }
}

/// Most items of a section, characters of a name, values of a function type and groups of
/// locals that are put into a module here. Far below what the encoder's 32-bit lengths
/// admit.
pub const MAX_ITEMS: usize = 1000;

/// Most bytes of a body in a section of its own. The section takes six more, for the number
/// of bodies and for the length of a body as long as that, and has a length of 32 bits.
pub const MAX_BODY: usize = 0xffff_fff9;

/// `wasm_encoder::Module`: a module under construction. Opaque.
#[verifier::external_type_specification]
#[verifier::external_body]
pub struct ExModule(wasm_encoder::Module);

/// `wasm_encoder::TypeSection`: a type section under construction. Opaque.
#[verifier::external_type_specification]
#[verifier::external_body]
pub struct ExTypeSection(wasm_encoder::TypeSection);

/// `wasm_encoder::ImportSection`: an import section under construction. Opaque.
#[verifier::external_type_specification]
#[verifier::external_body]
pub struct ExImportSection(wasm_encoder::ImportSection);

/// `wasm_encoder::FunctionSection`: a function section under construction. Opaque.
#[verifier::external_type_specification]
#[verifier::external_body]
pub struct ExFunctionSection(wasm_encoder::FunctionSection);

/// `wasm_encoder::ExportSection`: an export section under construction. Opaque.
#[verifier::external_type_specification]
#[verifier::external_body]
pub struct ExExportSection(wasm_encoder::ExportSection);

/// `wasm_encoder::CodeSection`: a code section under construction. Opaque.
#[verifier::external_type_specification]
#[verifier::external_body]
pub struct ExCodeSection(wasm_encoder::CodeSection);

/// `wasm_encoder::Function`: a function body under construction. Opaque.
#[verifier::external_type_specification]
#[verifier::external_body]
pub struct ExFunction(wasm_encoder::Function);

/// `wasm_encoder::ValType`: a value type. Opaque.
#[verifier::external_type_specification]
#[verifier::external_body]
pub struct ExValType(wasm_encoder::ValType);

/// The value type that one of the encoder's is.
pub uninterp spec fn val_ty(v: wasm_encoder::ValType) -> ValTy;

/// The sections that a module under construction holds.
pub uninterp spec fn module_sections(m: wasm_encoder::Module) -> Seq<Section>;

/// The types that a type section holds.
pub uninterp spec fn type_list(s: wasm_encoder::TypeSection) -> Seq<FuncTy>;

/// The imports that an import section holds.
pub uninterp spec fn import_list(s: wasm_encoder::ImportSection) -> Seq<Import>;

/// The type indices that a function section holds.
pub uninterp spec fn function_list(s: wasm_encoder::FunctionSection) -> Seq<u32>;

/// The exports that an export section holds.
pub uninterp spec fn export_list(s: wasm_encoder::ExportSection) -> Seq<Export>;

/// The bodies that a code section holds.
pub uninterp spec fn body_list(s: wasm_encoder::CodeSection) -> Seq<Body>;

/// What a function body under construction holds.
pub uninterp spec fn function_body(f: wasm_encoder::Function) -> Body;

/// The binary format of a module with the given sections.
pub uninterp spec fn module_bytes(sections: Seq<Section>) -> Seq<u8>;

/// `wasm_encoder::Module::new`: a module without sections.
pub assume_specification[ wasm_encoder::Module::new ]() -> (m: wasm_encoder::Module)
    ensures
        module_sections(m) == Seq::<Section>::empty(),
;

/// `wasm_encoder::TypeSection::new`: a section without types.
pub assume_specification[ wasm_encoder::TypeSection::new ]() -> (s: wasm_encoder::TypeSection)
    ensures
        type_list(s) == Seq::<FuncTy>::empty(),
;

/// `wasm_encoder::ImportSection::new`: a section without imports.
pub assume_specification[ wasm_encoder::ImportSection::new ]() -> (s:
    wasm_encoder::ImportSection)
    ensures
        import_list(s) == Seq::<Import>::empty(),
;

/// `wasm_encoder::FunctionSection::new`: a section without functions.
pub assume_specification[ wasm_encoder::FunctionSection::new ]() -> (s:
    wasm_encoder::FunctionSection)
    ensures
        function_list(s) == Seq::<u32>::empty(),
;

/// `wasm_encoder::ExportSection::new`: a section without exports.
pub assume_specification[ wasm_encoder::ExportSection::new ]() -> (s:
    wasm_encoder::ExportSection)
    ensures
        export_list(s) == Seq::<Export>::empty(),
;

/// `wasm_encoder::CodeSection::new`: a section without bodies.
pub assume_specification[ wasm_encoder::CodeSection::new ]() -> (s: wasm_encoder::CodeSection)
    ensures
        body_list(s) == Seq::<Body>::empty(),
;

/// `wasm_encoder::ValType`: the encoder's value type of the same name.
#[verifier::external_body]
fn val_type(t: ValTy) -> (v: wasm_encoder::ValType)
    ensures
        val_ty(v) == t,
{
    match t {
        ValTy::I32 => wasm_encoder::ValType::I32,
        ValTy::I64 => wasm_encoder::ValType::I64,
    }
}

/// Value types of the encoder as value types.
pub open spec fn val_tys(v: Seq<wasm_encoder::ValType>) -> Seq<ValTy> {
    v.map_values(|t: wasm_encoder::ValType| val_ty(t))
}

/// Value types as the encoder takes them.
fn val_types(tys: &[ValTy]) -> (v: Vec<wasm_encoder::ValType>)
    ensures
        val_tys(v@) == tys@,
{
    let len: usize = tys.len();
    let mut v: Vec<wasm_encoder::ValType> = Vec::new();
    let mut i: usize = 0;
    while i < len
        invariant
            len == tys@.len(),
            i <= len,
            v@.len() == i,
            val_tys(v@) =~= tys@.take(i as int),
        decreases len - i,
    {
        v.push(val_type(tys[i]));
        i = i + 1;
    }
    assert(tys@.take(i as int) =~= tys@);
    v
}

/// `TypeSection::ty` and `CoreTypeEncoder::function`: appends a function type.
#[verifier::external_body]
fn add_func_type(
    s: &mut wasm_encoder::TypeSection,
    params: Vec<wasm_encoder::ValType>,
    results: Vec<wasm_encoder::ValType>,
)
    requires
        type_list(*old(s)).len() < MAX_ITEMS,
        params@.len() <= MAX_ITEMS,
        results@.len() <= MAX_ITEMS,
    ensures
        type_list(*final(s)) == type_list(*old(s)).push(
            FuncTy { params: val_tys(params@), results: val_tys(results@) },
        ),
{
    s.ty().function(params, results);
}

/// Appends a function type.
pub(crate) fn add_type(s: &mut wasm_encoder::TypeSection, params: &[ValTy], results: &[ValTy])
    requires
        type_list(*old(s)).len() < MAX_ITEMS,
        params@.len() <= MAX_ITEMS,
        results@.len() <= MAX_ITEMS,
    ensures
        type_list(*final(s)) == type_list(*old(s)).push(
            FuncTy { params: params@, results: results@ },
        ),
{
    let p = val_types(params);
    let r = val_types(results);
    assert(p@.len() == val_tys(p@).len());
    assert(r@.len() == val_tys(r@).len());
    add_func_type(s, p, r);
}

/// `ImportSection::import`: appends an import. The entity types are the encoder's own,
/// with the fields that `ImportTy` tells.
#[verifier::external_body]
pub(crate) fn add_import(
    s: &mut wasm_encoder::ImportSection,
    module: &str,
    name: &str,
    ty: ImportTy,
)
    requires
        import_list(*old(s)).len() < MAX_ITEMS,
        module@.len() <= MAX_ITEMS,
        name@.len() <= MAX_ITEMS,
    ensures
        import_list(*final(s)) == import_list(*old(s)).push(
            Import { module: module@, name: name@, ty },
        ),
{
    let ty = match ty {
        ImportTy::Memory(minimum) => wasm_encoder::EntityType::Memory(wasm_encoder::MemoryType {
            minimum, maximum: None, memory64: false, shared: false, page_size_log2: None,
        }),
        ImportTy::FuncTable(minimum) => wasm_encoder::EntityType::Table(wasm_encoder::TableType {
            element_type: wasm_encoder::RefType::FUNCREF,
            table64: false, minimum, maximum: None, shared: false,
        }),
        ImportTy::Func(ty) => wasm_encoder::EntityType::Function(ty),
    };
    s.import(module, name, ty);
}

/// `FunctionSection::function`: appends a function of the given type.
#[verifier::external_body]
pub(crate) fn add_function(s: &mut wasm_encoder::FunctionSection, ty: u32)
    requires
        function_list(*old(s)).len() < MAX_ITEMS,
    ensures
        function_list(*final(s)) == function_list(*old(s)).push(ty),
{
    s.function(ty);
}

/// `ExportSection::export`: appends the export of a function.
#[verifier::external_body]
pub(crate) fn add_export(s: &mut wasm_encoder::ExportSection, name: &str, func: u32)
    requires
        export_list(*old(s)).len() < MAX_ITEMS,
        name@.len() <= MAX_ITEMS,
    ensures
        export_list(*final(s)) == export_list(*old(s)).push(Export { name: name@, func }),
{
    s.export(name, wasm_encoder::ExportKind::Func, func);
}

/// `CodeSection::function`: appends a body.
#[verifier::external_body]
pub(crate) fn add_body(s: &mut wasm_encoder::CodeSection, f: &wasm_encoder::Function)
    requires
        body_list(*old(s)).len() < MAX_ITEMS,
        function_body(*f).fits(),
    ensures
        body_list(*final(s)) == body_list(*old(s)).push(function_body(*f)),
{
    s.function(f);
}

/// `Function::byte_len`: the number of bytes that the locals and instructions of a body are
/// encoded in.
#[verifier::external_body]
pub(crate) fn byte_len(f: &wasm_encoder::Function) -> (n: usize)
    ensures
        n == function_body(*f).byte_len(),
{
    f.byte_len()
}

/// Groups of locals in the encoder's terms.
pub open spec fn local_groups(v: Seq<(u32, wasm_encoder::ValType)>) -> Seq<(u32, ValTy)> {
    v.map_values(|l: (u32, wasm_encoder::ValType)| (l.0, val_ty(l.1)))
}

/// `Function::new`: a body with the given locals and no instruction.
#[verifier::external_body]
fn function_with(locals: Vec<(u32, wasm_encoder::ValType)>) -> (f: wasm_encoder::Function)
    requires
        locals@.len() <= MAX_ITEMS,
    ensures
        function_body(f) == (Body { locals: local_groups(locals@), code: Seq::empty() }),
{
    wasm_encoder::Function::new(locals)
}

/// A body with the given locals and no instruction.
fn new_function(locals: &[(u32, ValTy)]) -> (f: wasm_encoder::Function)
    requires
        locals@.len() <= MAX_ITEMS,
    ensures
        function_body(f) == (Body { locals: locals@, code: Seq::empty() }),
{
    let len: usize = locals.len();
    let mut v: Vec<(u32, wasm_encoder::ValType)> = Vec::new();
    let mut i: usize = 0;
    while i < len
        invariant
            len == locals@.len(),
            i <= len,
            v@.len() == i,
            local_groups(v@) =~= locals@.take(i as int),
        decreases len - i,
    {
        let l = locals[i];
        v.push((l.0, val_type(l.1)));
        i = i + 1;
    }
    assert(locals@.take(i as int) =~= locals@);
    function_with(v)
}

/// `Module::section` with a type section: appends it.
#[verifier::external_body]
pub(crate) fn put_types(m: &mut wasm_encoder::Module, s: &wasm_encoder::TypeSection)
    requires
        type_list(*s).len() <= MAX_ITEMS,
        forall|i: int|
            0 <= i < type_list(*s).len() ==> (#[trigger] type_list(*s)[i]).params.len()
                <= MAX_ITEMS && type_list(*s)[i].results.len() <= MAX_ITEMS,
    ensures
        module_sections(*final(m)) == module_sections(*old(m)).push(Section::Types(type_list(*s))),
{
    m.section(s);
}

/// `Module::section` with an import section: appends it.
#[verifier::external_body]
pub(crate) fn put_imports(m: &mut wasm_encoder::Module, s: &wasm_encoder::ImportSection)
    requires
        import_list(*s).len() <= MAX_ITEMS,
        forall|i: int|
            0 <= i < import_list(*s).len() ==> (#[trigger] import_list(*s)[i]).module.len()
                <= MAX_ITEMS && import_list(*s)[i].name.len() <= MAX_ITEMS,
    ensures
        module_sections(*final(m)) == module_sections(*old(m)).push(
            Section::Imports(import_list(*s)),
        ),
{
    m.section(s);
}

/// `Module::section` with a function section: appends it.
#[verifier::external_body]
pub(crate) fn put_functions(m: &mut wasm_encoder::Module, s: &wasm_encoder::FunctionSection)
    requires
        function_list(*s).len() <= MAX_ITEMS,
    ensures
        module_sections(*final(m)) == module_sections(*old(m)).push(
            Section::Functions(function_list(*s)),
        ),
{
    m.section(s);
}

/// `Module::section` with an export section: appends it.
#[verifier::external_body]
pub(crate) fn put_exports(m: &mut wasm_encoder::Module, s: &wasm_encoder::ExportSection)
    requires
        export_list(*s).len() <= MAX_ITEMS,
        forall|i: int|
            0 <= i < export_list(*s).len() ==> (#[trigger] export_list(*s)[i]).name.len()
                <= MAX_ITEMS,
    ensures
        module_sections(*final(m)) == module_sections(*old(m)).push(
            Section::Exports(export_list(*s)),
        ),
{
    m.section(s);
}

/// `Module::section` with a code section: appends it. There is one body at most, so that
/// the section's length fits 32 bits if the body fits.
#[verifier::external_body]
pub(crate) fn put_bodies(m: &mut wasm_encoder::Module, s: &wasm_encoder::CodeSection)
    requires
        body_list(*s).len() <= 1,
        forall|i: int| 0 <= i < body_list(*s).len() ==> (#[trigger] body_list(*s)[i]).fits(),
    ensures
        module_sections(*final(m)) == module_sections(*old(m)).push(
            Section::Bodies(body_list(*s)),
        ),
{
    m.section(s);
}

/// `Module::finish`: the bytes of the module, which its sections determine.
#[verifier::external_body]
pub(crate) fn finish(m: wasm_encoder::Module) -> (bytes: Vec<u8>)
    ensures
        bytes@ == module_bytes(module_sections(m)),
{
    m.finish()
}

/// Instructions without an operand of their own.
#[derive(Clone, Copy, Debug, PartialEq, Eq, Structural)]
pub enum Plain {
    I64Eqz,
    I32WrapI64,
    I64ExtendI32S,
    I64ExtendI32U,
    Drop,
    Return,
    Else,
    End,
}

impl Plain {
    /// The instruction itself.
    pub open spec fn instr(self) -> Instr {
        match self {
            Plain::I64Eqz => Instr::I64Eqz,
            Plain::I32WrapI64 => Instr::I32WrapI64,
            Plain::I64ExtendI32S => Instr::I64ExtendI32S,
            Plain::I64ExtendI32U => Instr::I64ExtendI32U,
            Plain::Drop => Instr::Drop,
            Plain::Return => Instr::Return,
            Plain::Else => Instr::Else,
            Plain::End => Instr::End,
        }
    }
}

/// `Function::instruction`: appends a 32-bit operator.
#[verifier::external_body]
fn push_i32_bin(f: &mut wasm_encoder::Function, op: IntBin)
    ensures
        function_body(*final(f)) == function_body(*old(f)).plus(Instr::I32Bin(op)),
{
    f.instruction(&match op {
        IntBin::Add => wasm_encoder::Instruction::I32Add,
        IntBin::Sub => wasm_encoder::Instruction::I32Sub,
        IntBin::Mul => wasm_encoder::Instruction::I32Mul,
        IntBin::DivS => wasm_encoder::Instruction::I32DivS,
        IntBin::DivU => wasm_encoder::Instruction::I32DivU,
        IntBin::RemS => wasm_encoder::Instruction::I32RemS,
        IntBin::RemU => wasm_encoder::Instruction::I32RemU,
        IntBin::And => wasm_encoder::Instruction::I32And,
        IntBin::Or => wasm_encoder::Instruction::I32Or,
        IntBin::Xor => wasm_encoder::Instruction::I32Xor,
        IntBin::Shl => wasm_encoder::Instruction::I32Shl,
        IntBin::ShrS => wasm_encoder::Instruction::I32ShrS,
        IntBin::ShrU => wasm_encoder::Instruction::I32ShrU,
    });
}

/// `Function::instruction`: appends a 64-bit operator.
#[verifier::external_body]
fn push_i64_bin(f: &mut wasm_encoder::Function, op: IntBin)
    ensures
        function_body(*final(f)) == function_body(*old(f)).plus(Instr::I64Bin(op)),
{
    f.instruction(&match op {
        IntBin::Add => wasm_encoder::Instruction::I64Add,
        IntBin::Sub => wasm_encoder::Instruction::I64Sub,
        IntBin::Mul => wasm_encoder::Instruction::I64Mul,
        IntBin::DivS => wasm_encoder::Instruction::I64DivS,
        IntBin::DivU => wasm_encoder::Instruction::I64DivU,
        IntBin::RemS => wasm_encoder::Instruction::I64RemS,
        IntBin::RemU => wasm_encoder::Instruction::I64RemU,
        IntBin::And => wasm_encoder::Instruction::I64And,
        IntBin::Or => wasm_encoder::Instruction::I64Or,
        IntBin::Xor => wasm_encoder::Instruction::I64Xor,
        IntBin::Shl => wasm_encoder::Instruction::I64Shl,
        IntBin::ShrS => wasm_encoder::Instruction::I64ShrS,
        IntBin::ShrU => wasm_encoder::Instruction::I64ShrU,
    });
}

/// `Function::instruction`: appends a 32-bit comparison.
#[verifier::external_body]
fn push_i32_rel(f: &mut wasm_encoder::Function, op: IntRel)
    ensures
        function_body(*final(f)) == function_body(*old(f)).plus(Instr::I32Rel(op)),
{
    f.instruction(&match op {
        IntRel::Eq => wasm_encoder::Instruction::I32Eq,
        IntRel::Ne => wasm_encoder::Instruction::I32Ne,
        IntRel::LtS => wasm_encoder::Instruction::I32LtS,
        IntRel::LtU => wasm_encoder::Instruction::I32LtU,
        IntRel::GtS => wasm_encoder::Instruction::I32GtS,
        IntRel::GeS => wasm_encoder::Instruction::I32GeS,
        IntRel::GeU => wasm_encoder::Instruction::I32GeU,
    });
}

/// `Function::instruction`: appends a 64-bit comparison.
#[verifier::external_body]
fn push_i64_rel(f: &mut wasm_encoder::Function, op: IntRel)
    ensures
        function_body(*final(f)) == function_body(*old(f)).plus(Instr::I64Rel(op)),
{
    f.instruction(&match op {
        IntRel::Eq => wasm_encoder::Instruction::I64Eq,
        IntRel::Ne => wasm_encoder::Instruction::I64Ne,
        IntRel::LtS => wasm_encoder::Instruction::I64LtS,
        IntRel::LtU => wasm_encoder::Instruction::I64LtU,
        IntRel::GtS => wasm_encoder::Instruction::I64GtS,
        IntRel::GeS => wasm_encoder::Instruction::I64GeS,
        IntRel::GeU => wasm_encoder::Instruction::I64GeU,
    });
}

/// `Function::instruction`: appends a read of memory 0.
#[verifier::external_body]
fn push_load(f: &mut wasm_encoder::Function, op: LoadOp, arg: MemArg)
    ensures
        function_body(*final(f)) == function_body(*old(f)).plus(Instr::Load(op, arg)),
{
    let m = wasm_encoder::MemArg { offset: arg.offset, align: arg.align, memory_index: 0 };
    f.instruction(&match op {
        LoadOp::I32 => wasm_encoder::Instruction::I32Load(m),
        LoadOp::I64 => wasm_encoder::Instruction::I64Load(m),
        LoadOp::I64S8 => wasm_encoder::Instruction::I64Load8S(m),
        LoadOp::I64U8 => wasm_encoder::Instruction::I64Load8U(m),
        LoadOp::I64S16 => wasm_encoder::Instruction::I64Load16S(m),
        LoadOp::I64U16 => wasm_encoder::Instruction::I64Load16U(m),
        LoadOp::I64S32 => wasm_encoder::Instruction::I64Load32S(m),
        LoadOp::I64U32 => wasm_encoder::Instruction::I64Load32U(m),
    });
}

/// `Function::instruction`: appends a write to memory 0.
#[verifier::external_body]
fn push_store(f: &mut wasm_encoder::Function, op: StoreOp, arg: MemArg)
    ensures
        function_body(*final(f)) == function_body(*old(f)).plus(Instr::Store(op, arg)),
{
    let m = wasm_encoder::MemArg { offset: arg.offset, align: arg.align, memory_index: 0 };
    f.instruction(&match op {
        StoreOp::I32 => wasm_encoder::Instruction::I32Store(m),
        StoreOp::I64 => wasm_encoder::Instruction::I64Store(m),
        StoreOp::I64As8 => wasm_encoder::Instruction::I64Store8(m),
        StoreOp::I64As16 => wasm_encoder::Instruction::I64Store16(m),
        StoreOp::I64As32 => wasm_encoder::Instruction::I64Store32(m),
    });
}

/// `Function::instruction`: appends the start of a conditional.
#[verifier::external_body]
fn push_if(f: &mut wasm_encoder::Function, ty: Option<ValTy>)
    ensures
        function_body(*final(f)) == function_body(*old(f)).plus(Instr::If(ty)),
{
    f.instruction(&wasm_encoder::Instruction::If(match ty {
        Some(ValTy::I32) => wasm_encoder::BlockType::Result(wasm_encoder::ValType::I32),
        Some(ValTy::I64) => wasm_encoder::BlockType::Result(wasm_encoder::ValType::I64),
        None => wasm_encoder::BlockType::Empty,
    }));
}

/// `Function::instruction`: appends a read of a local.
#[verifier::external_body]
fn push_local_get(f: &mut wasm_encoder::Function, n: u32)
    ensures
        function_body(*final(f)) == function_body(*old(f)).plus(Instr::LocalGet(n)),
{
    f.instruction(&wasm_encoder::Instruction::LocalGet(n));
}

/// `Function::instruction`: appends a write to a local.
#[verifier::external_body]
fn push_local_set(f: &mut wasm_encoder::Function, n: u32)
    ensures
        function_body(*final(f)) == function_body(*old(f)).plus(Instr::LocalSet(n)),
{
    f.instruction(&wasm_encoder::Instruction::LocalSet(n));
}

/// `Function::instruction`: appends a write to a local that keeps the value on the stack.
#[verifier::external_body]
fn push_local_tee(f: &mut wasm_encoder::Function, n: u32)
    ensures
        function_body(*final(f)) == function_body(*old(f)).plus(Instr::LocalTee(n)),
{
    f.instruction(&wasm_encoder::Instruction::LocalTee(n));
}

/// `Function::instruction`: appends a 32-bit constant.
#[verifier::external_body]
fn push_i32_const(f: &mut wasm_encoder::Function, v: i32)
    ensures
        function_body(*final(f)) == function_body(*old(f)).plus(Instr::I32Const(v)),
{
    f.instruction(&wasm_encoder::Instruction::I32Const(v));
}

/// `Function::instruction`: appends a 64-bit constant.
#[verifier::external_body]
fn push_i64_const(f: &mut wasm_encoder::Function, v: i64)
    ensures
        function_body(*final(f)) == function_body(*old(f)).plus(Instr::I64Const(v)),
{
    f.instruction(&wasm_encoder::Instruction::I64Const(v));
}

/// `Function::instruction`: appends a call.
#[verifier::external_body]
fn push_call(f: &mut wasm_encoder::Function, n: u32)
    ensures
        function_body(*final(f)) == function_body(*old(f)).plus(Instr::Call(n)),
{
    f.instruction(&wasm_encoder::Instruction::Call(n));
}

/// `Function::instruction`: appends a tail call through table 0.
#[verifier::external_body]
fn push_return_call_indirect(f: &mut wasm_encoder::Function, ty: u32)
    ensures
        function_body(*final(f)) == function_body(*old(f)).plus(Instr::ReturnCallIndirect(ty)),
{
    f.instruction(
        &wasm_encoder::Instruction::ReturnCallIndirect { type_index: ty, table_index: 0 },
    );
}

/// `Function::instruction`: appends an instruction that has no operand of its own.
#[verifier::external_body]
fn push_plain(f: &mut wasm_encoder::Function, op: Plain)
    ensures
        function_body(*final(f)) == function_body(*old(f)).plus(op.instr()),
{
    f.instruction(&match op {
        Plain::I64Eqz => wasm_encoder::Instruction::I64Eqz,
        Plain::I32WrapI64 => wasm_encoder::Instruction::I32WrapI64,
        Plain::I64ExtendI32S => wasm_encoder::Instruction::I64ExtendI32S,
        Plain::I64ExtendI32U => wasm_encoder::Instruction::I64ExtendI32U,
        Plain::Drop => wasm_encoder::Instruction::Drop,
        Plain::Return => wasm_encoder::Instruction::Return,
        Plain::Else => wasm_encoder::Instruction::Else,
        Plain::End => wasm_encoder::Instruction::End,
    });
}

/// Appends one instruction.
pub(crate) fn push(f: &mut wasm_encoder::Function, i: Instr)
    ensures
        function_body(*final(f)) == function_body(*old(f)).plus(i),
{
    match i {
        Instr::LocalGet(n) => push_local_get(f, n),
        Instr::LocalSet(n) => push_local_set(f, n),
        Instr::LocalTee(n) => push_local_tee(f, n),
        Instr::I32Const(v) => push_i32_const(f, v),
        Instr::I64Const(v) => push_i64_const(f, v),
        Instr::I32Bin(op) => push_i32_bin(f, op),
        Instr::I64Bin(op) => push_i64_bin(f, op),
        Instr::I32Rel(op) => push_i32_rel(f, op),
        Instr::I64Rel(op) => push_i64_rel(f, op),
        Instr::Load(op, arg) => push_load(f, op, arg),
        Instr::Store(op, arg) => push_store(f, op, arg),
        Instr::Call(n) => push_call(f, n),
        Instr::ReturnCallIndirect(ty) => push_return_call_indirect(f, ty),
        Instr::If(ty) => push_if(f, ty),
        Instr::I64Eqz => push_plain(f, Plain::I64Eqz),
        Instr::I32WrapI64 => push_plain(f, Plain::I32WrapI64),
        Instr::I64ExtendI32S => push_plain(f, Plain::I64ExtendI32S),
        Instr::I64ExtendI32U => push_plain(f, Plain::I64ExtendI32U),
        Instr::Drop => push_plain(f, Plain::Drop),
        Instr::Return => push_plain(f, Plain::Return),
        Instr::Else => push_plain(f, Plain::Else),
        Instr::End => push_plain(f, Plain::End),
    }
}

/// Makes a body of locals and instructions.
pub(crate) fn function(locals: &[(u32, ValTy)], code: &Vec<Instr>) -> (f: wasm_encoder::Function)
    requires
        locals@.len() <= MAX_ITEMS,
    ensures
        function_body(f) == (Body { locals: locals@, code: code@ }),
{
    let mut f = new_function(locals);
    let mut i: usize = 0;
    while i < code.len()
        invariant
            i <= code@.len(),
            function_body(f) == (Body { locals: locals@, code: code@.take(i as int) }),
        decreases code.len() - i,
    {
        push(&mut f, code[i]);
        assert(code@.take(i as int).push(code@[i as int]) =~= code@.take(i + 1));
        i = i + 1;
    }
    assert(code@.take(i as int) =~= code@);
    f
}

} // verus!
