//! Symbol definition and symbol table management

use vstd::prelude::*;
use crate::common::{
    DataType, Error, FuncType, Linkage, Span, StorageClass, StrDescriptor, StringPool,
    find_key, find_in_scopes, keys_unique, has_key, as_map, innermost,
    lemma_as_map_index, lemma_as_map_push, lemma_as_map_update,
};

verus! {

#[derive(Debug, Clone, Copy, PartialEq, Eq, Structural)]
pub struct StaticVarSymbol {
    pub name: StrDescriptor,
    pub type_: DataType,
    pub linkage: Linkage,
    pub is_definition: bool,
}

#[derive(Debug)]
pub struct FuncSymbol {
    pub name: StrDescriptor,
    pub type_: FuncType,
    pub linkage: Linkage,
    pub is_definition: bool,
}

impl FuncSymbol {
    /// A copy of the symbol.
    pub fn duplicate(&self) -> (r: FuncSymbol)
        ensures r.name == self.name, r.linkage == self.linkage, r.is_definition == self.is_definition,
            r.type_.return_type == self.type_.return_type, r.type_.param_types@ == self.type_.param_types@,
    {
        FuncSymbol { name: self.name, type_: self.type_.duplicate(), linkage: self.linkage, is_definition: self.is_definition }
    }
}

/// In name resolution - we only need to know
/// the name of the symbol, not its type.
/// Whether types are matched will be determined in the type checking pass.
#[derive(Debug, Clone, Copy, PartialEq, Eq, Structural)]
pub enum CommonSymbol {
    Var(CommonVar),
    Func(StrDescriptor),
}

#[derive(Debug, Clone, Copy, PartialEq, Eq, Structural)]
pub struct CommonVar {
    pub name: StrDescriptor,
    pub local_id: Option<usize>,
    pub data_type: DataType,
}

#[derive(Debug, Clone, Copy, PartialEq, Eq, Structural)]
pub enum SymbolType {
    Var,
    Func,
}

impl CommonSymbol {
    pub fn name(&self) -> (r: StrDescriptor)
        ensures r == (match *self { CommonSymbol::Var(v) => v.name, CommonSymbol::Func(n) => n }),
    {
        match self {
            CommonSymbol::Var(var) => var.name,
            CommonSymbol::Func(name) => *name,
        }
    }
}

#[derive(Debug, Clone, Copy, PartialEq, Eq, Structural)]
pub struct LabelSymbol {
    pub name: StrDescriptor,
}

#[derive(Debug)]
pub enum SymError {
    DuplicateDecl(StrDescriptor),
    VarNotFound(StrDescriptor),
    FuncNotFound(StrDescriptor),
    LabelNotFound(StrDescriptor),
    FuncRedefinition(StrDescriptor),
    StaticVarRedefinition(StrDescriptor),
    FuncDefNotGlobal(StrDescriptor),
    SymbolTypeMismatch {
        name: StrDescriptor,
        expected: SymbolType,
        found: SymbolType,
    },
    TypeMismatch {
        expected: DataType,
        found: DataType,
    },
    FuncTypeMismatch(StrDescriptor),
    LinkageMismatch(StrDescriptor),
    InvalidLValue,
    InvalidInitializer(StrDescriptor),
    InvalidArguments(StrDescriptor),
    Unimplemented(String),
    Other(String),
}

/// The Debug name of a data type.
pub open spec fn type_debug_name(t: DataType) -> Seq<char> {
    match t {
        DataType::Int => "Int"@,
        DataType::Long => "Long"@,
        DataType::Void => "Void"@,
        DataType::Indeterminate => "Indeterminate"@,
    }
}

fn push_type_debug_name(out: &mut Vec<char>, t: DataType)
    ensures final(out)@ == old(out)@ + type_debug_name(t),
{
    match t {
        DataType::Int => crate::text::push_str(out, "Int"),
        DataType::Long => crate::text::push_str(out, "Long"),
        DataType::Void => crate::text::push_str(out, "Void"),
        DataType::Indeterminate => crate::text::push_str(out, "Indeterminate"),
    }
}

pub open spec fn symbol_type_name(t: SymbolType) -> Seq<char> {
    if t is Var { "variable"@ } else { "function"@ }
}

impl SymError {
    /// The names an error message refers to.
    pub open spec fn names_in(self, pool: StringPool) -> bool {
        match self {
            SymError::DuplicateDecl(n) | SymError::VarNotFound(n) | SymError::FuncNotFound(n)
            | SymError::LabelNotFound(n) | SymError::FuncRedefinition(n) | SymError::StaticVarRedefinition(n)
            | SymError::FuncDefNotGlobal(n) | SymError::FuncTypeMismatch(n) | SymError::LinkageMismatch(n)
            | SymError::InvalidInitializer(n) | SymError::InvalidArguments(n) => pool.holds(n),
            SymError::SymbolTypeMismatch { name, .. } => pool.holds(name),
            _ => true,
        }
    }

    /// The message of the error, names spelled out from the pool.
    pub open spec fn message(self, pool: Seq<Seq<char>>) -> Seq<char> {
        match self {
            SymError::DuplicateDecl(n) => "Symbol '"@ + pool[n.0 as int] + "' is already defined in this scope."@,
            SymError::VarNotFound(n) => "Variable '"@ + pool[n.0 as int] + "' is not defined."@,
            SymError::FuncNotFound(n) => "Function '"@ + pool[n.0 as int] + "' is not defined."@,
            SymError::LabelNotFound(n) => "Label '"@ + pool[n.0 as int] + "' is not defined."@,
            SymError::FuncRedefinition(n) => "Function '"@ + pool[n.0 as int] + "' is already defined."@,
            SymError::StaticVarRedefinition(n) => "Static variable '"@ + pool[n.0 as int] + "' is already defined."@,
            SymError::FuncDefNotGlobal(n) => "Function '"@ + pool[n.0 as int] + "' is defined in a non-global scope."@,
            SymError::InvalidInitializer(n) => "Invalid initializer for variable '"@ + pool[n.0 as int] + "'."@,
            SymError::SymbolTypeMismatch { name, expected, found } =>
                "Symbol '"@ + pool[name.0 as int] + "' is a "@ + symbol_type_name(found)
                    + " but was used as a "@ + symbol_type_name(expected) + "."@,
            SymError::TypeMismatch { expected, found } =>
                "Type mismatch: expected "@ + type_debug_name(expected) + ", found "@ + type_debug_name(found) + "."@,
            SymError::FuncTypeMismatch(n) => "Function '"@ + pool[n.0 as int] + "' has a type mismatch."@,
            SymError::InvalidLValue => "Left-hand side of assignment must be a variable."@,
            SymError::InvalidArguments(n) => "Invalid arguments for function '"@ + pool[n.0 as int] + "'."@,
            SymError::LinkageMismatch(n) =>
                "Static linkage declaration follows non-static for symbol '"@ + pool[n.0 as int] + "'."@,
            SymError::Unimplemented(msg) => "Unimplemented feature: "@ + msg@,
            SymError::Other(msg) => msg@,
        }
    }

    /// Whether the names an error message refers to are in the pool.
    pub fn names_held(&self, pool: &StringPool) -> (r: bool)
        ensures r == self.names_in(*pool),
    {
        match self {
            SymError::DuplicateDecl(n) | SymError::VarNotFound(n) | SymError::FuncNotFound(n)
            | SymError::LabelNotFound(n) | SymError::FuncRedefinition(n) | SymError::StaticVarRedefinition(n)
            | SymError::FuncDefNotGlobal(n) | SymError::FuncTypeMismatch(n) | SymError::LinkageMismatch(n)
            | SymError::InvalidInitializer(n) | SymError::InvalidArguments(n) => pool.get(*n).is_some(),
            SymError::SymbolTypeMismatch { name, .. } => pool.get(*name).is_some(),
            _ => true,
        }
    }

    /// A semantic error with the message of this error, at `span`.
    pub fn to_error(self, strtb: &StringPool, span: Span) -> (r: Error)
        requires self.names_in(*strtb),
        ensures r matches Error::Semantic(m) && m@ == crate::common::error_located(self.message(strtb@), span),
    {
        let ghost me = self;
        let mut out: Vec<char> = Vec::new();
        match self {
            SymError::DuplicateDecl(n) => {
                crate::text::push_str(&mut out, "Symbol '");
                strtb.push_name(n, &mut out);
                crate::text::push_str(&mut out, "' is already defined in this scope.");
            },
            SymError::VarNotFound(n) => {
                crate::text::push_str(&mut out, "Variable '");
                strtb.push_name(n, &mut out);
                crate::text::push_str(&mut out, "' is not defined.");
            },
            SymError::FuncNotFound(n) => {
                crate::text::push_str(&mut out, "Function '");
                strtb.push_name(n, &mut out);
                crate::text::push_str(&mut out, "' is not defined.");
            },
            SymError::LabelNotFound(n) => {
                crate::text::push_str(&mut out, "Label '");
                strtb.push_name(n, &mut out);
                crate::text::push_str(&mut out, "' is not defined.");
            },
            SymError::FuncRedefinition(n) => {
                crate::text::push_str(&mut out, "Function '");
                strtb.push_name(n, &mut out);
                crate::text::push_str(&mut out, "' is already defined.");
            },
            SymError::StaticVarRedefinition(n) => {
                crate::text::push_str(&mut out, "Static variable '");
                strtb.push_name(n, &mut out);
                crate::text::push_str(&mut out, "' is already defined.");
            },
            SymError::FuncDefNotGlobal(n) => {
                crate::text::push_str(&mut out, "Function '");
                strtb.push_name(n, &mut out);
                crate::text::push_str(&mut out, "' is defined in a non-global scope.");
            },
            SymError::InvalidInitializer(n) => {
                crate::text::push_str(&mut out, "Invalid initializer for variable '");
                strtb.push_name(n, &mut out);
                crate::text::push_str(&mut out, "'.");
            },
            SymError::SymbolTypeMismatch { name, expected, found } => {
                crate::text::push_str(&mut out, "Symbol '");
                strtb.push_name(name, &mut out);
                crate::text::push_str(&mut out, "' is a ");
                if let SymbolType::Var = found {
                    crate::text::push_str(&mut out, "variable");
                } else {
                    crate::text::push_str(&mut out, "function");
                }
                crate::text::push_str(&mut out, " but was used as a ");
                if let SymbolType::Var = expected {
                    crate::text::push_str(&mut out, "variable");
                } else {
                    crate::text::push_str(&mut out, "function");
                }
                crate::text::push_str(&mut out, ".");
            },
            SymError::TypeMismatch { expected, found } => {
                crate::text::push_str(&mut out, "Type mismatch: expected ");
                push_type_debug_name(&mut out, expected);
                crate::text::push_str(&mut out, ", found ");
                push_type_debug_name(&mut out, found);
                crate::text::push_str(&mut out, ".");
            },
            SymError::FuncTypeMismatch(n) => {
                crate::text::push_str(&mut out, "Function '");
                strtb.push_name(n, &mut out);
                crate::text::push_str(&mut out, "' has a type mismatch.");
            },
            SymError::InvalidLValue => {
                crate::text::push_str(&mut out, "Left-hand side of assignment must be a variable.");
            },
            SymError::InvalidArguments(n) => {
                crate::text::push_str(&mut out, "Invalid arguments for function '");
                strtb.push_name(n, &mut out);
                crate::text::push_str(&mut out, "'.");
            },
            SymError::LinkageMismatch(n) => {
                crate::text::push_str(&mut out, "Static linkage declaration follows non-static for symbol '");
                strtb.push_name(n, &mut out);
                crate::text::push_str(&mut out, "'.");
            },
            SymError::Unimplemented(msg) => {
                crate::text::push_str(&mut out, "Unimplemented feature: ");
                crate::text::push_string(&mut out, &msg);
            },
            SymError::Other(msg) => {
                crate::text::push_string(&mut out, &msg);
            },
        }
        proof { assert(out@ =~= me.message(strtb@)); }
        Error::semantic(crate::text::string_from_chars(&out), span)
    }
}

#[derive(Debug)]
pub struct SymbolTable {
    pub common_ns: Vec<Vec<(StrDescriptor, CommonSymbol)>>,
    pub label_ns: Vec<(StrDescriptor, usize)>,
    pub func_defs: Vec<(StrDescriptor, FuncSymbol)>,
    pub static_vars: Vec<(StrDescriptor, StaticVarSymbol)>,
}

/// The linkage a storage class gives a new file-scope symbol.
pub open spec fn linkage_of(storage_class: StorageClass) -> Linkage {
    if storage_class is Static { Linkage::Internal } else { Linkage::External }
}

fn linkage_for(storage_class: StorageClass) -> (r: Linkage)
    ensures r == linkage_of(storage_class),
{
    match storage_class {
        StorageClass::Static => Linkage::Internal,
        _ => Linkage::External,
    }
}

// Common methods for the symbol table
impl SymbolTable {
    /// There is always a global scope, and no name occurs twice in one table or scope.
    pub open spec fn wf(&self) -> bool {
        &&& self.common_ns@.len() >= 1
        &&& forall|i: int| 0 <= i < self.common_ns@.len() ==> keys_unique(#[trigger] self.common_ns@[i]@)
        &&& keys_unique(self.label_ns@)
        &&& keys_unique(self.func_defs@)
        &&& keys_unique(self.static_vars@)
    }

    pub open spec fn labels(&self) -> Map<StrDescriptor, usize> {
        as_map(self.label_ns@)
    }

    pub open spec fn funcs(&self) -> Map<StrDescriptor, FuncSymbol> {
        as_map(self.func_defs@)
    }

    pub open spec fn statics(&self) -> Map<StrDescriptor, StaticVarSymbol> {
        as_map(self.static_vars@)
    }

    /// The symbols of the scope at depth `i` (0 is the global scope).
    pub open spec fn scope(&self, i: int) -> Map<StrDescriptor, CommonSymbol> {
        as_map(self.common_ns@[i]@)
    }

    /// The innermost scope.
    pub open spec fn cur_scope(&self) -> Map<StrDescriptor, CommonSymbol> {
        self.scope(self.common_ns@.len() - 1)
    }

    /// Whether the table has the same scopes as `other` except perhaps the innermost one.
    pub open spec fn same_outer_scopes(&self, other: &SymbolTable) -> bool {
        &&& self.common_ns@.len() == other.common_ns@.len()
        &&& forall|i: int| 0 <= i < self.common_ns@.len() - 1 ==> #[trigger] self.common_ns@[i] == other.common_ns@[i]
    }

    pub fn new() -> (r: Self)
        ensures
            r.wf(),
            r.common_ns@.len() == 1,
            r.common_ns@[0]@.len() == 0,
            r.label_ns@.len() == 0,
            r.func_defs@.len() == 0,
            r.static_vars@.len() == 0,
    {
        let mut common_ns: Vec<Vec<(StrDescriptor, CommonSymbol)>> = Vec::new();
        common_ns.push(Vec::new());
        Self {
            common_ns,
            label_ns: Vec::new(),
            func_defs: Vec::new(),
            static_vars: Vec::new(),
        }
    }

    /// This must be called before any function definition.
    pub fn clear_labels(&mut self)
        requires old(self).wf(),
        ensures
            final(self).wf(),
            final(self).label_ns@.len() == 0,
            final(self).common_ns == old(self).common_ns,
            final(self).func_defs == old(self).func_defs,
            final(self).static_vars == old(self).static_vars,
    {
        self.label_ns = Vec::new();
    }

    /// Defines a label, numbered by the count of labels defined before it.
    pub fn def_label(&mut self, name: StrDescriptor) -> (r: core::result::Result<(), SymError>)
        requires old(self).wf(),
        ensures
            final(self).wf(),
            final(self).common_ns == old(self).common_ns,
            final(self).func_defs == old(self).func_defs,
            final(self).static_vars == old(self).static_vars,
            old(self).labels().contains_key(name) ==> (r matches Err(SymError::DuplicateDecl(n)) && n == name),
            old(self).labels().contains_key(name) ==> final(self).label_ns == old(self).label_ns,
            !old(self).labels().contains_key(name) ==> r is Ok
                && final(self).labels() == old(self).labels().insert(name, old(self).label_ns@.len() as usize),
    {
        if find_key(&self.label_ns, name).is_some() {
            return Err(SymError::DuplicateDecl(name));
        }
        let index = self.label_ns.len();
        proof { lemma_as_map_push(self.label_ns@, name, index); }
        self.label_ns.push((name, index));
        Ok(())
    }

    pub fn lookup_label(&self, name: StrDescriptor) -> (r: core::result::Result<usize, SymError>)
        requires self.wf(),
        ensures
            match r {
                Ok(v) => self.labels().contains_key(name) && self.labels()[name] == v,
                Err(e) => !self.labels().contains_key(name) && (e matches SymError::LabelNotFound(n) && n == name),
            },
    {
        match find_key(&self.label_ns, name) {
            Some(i) => {
                proof { lemma_as_map_index(self.label_ns@, i as int); }
                Ok(self.label_ns[i].1)
            },
            None => Err(SymError::LabelNotFound(name)),
        }
    }

    pub fn enter_block(&mut self)
        requires old(self).wf(),
        ensures
            final(self).wf(),
            final(self).common_ns@.len() == old(self).common_ns@.len() + 1,
            forall|i: int| 0 <= i < old(self).common_ns@.len() ==> #[trigger] final(self).common_ns@[i] == old(self).common_ns@[i],
            final(self).common_ns@.last()@.len() == 0,
            final(self).label_ns == old(self).label_ns,
            final(self).func_defs == old(self).func_defs,
            final(self).static_vars == old(self).static_vars,
    {
        let ghost prev = self.common_ns@;
        self.common_ns.push(Vec::new());
        proof {
            assert forall|i: int| 0 <= i < self.common_ns@.len() implies keys_unique(#[trigger] self.common_ns@[i]@) by {
                if i < prev.len() {
                    assert(self.common_ns@[i] == prev[i]);
                }
            }
        }
    }

    pub fn exit_block(&mut self)
        requires old(self).wf(), old(self).common_ns@.len() > 1,
        ensures
            final(self).wf(),
            final(self).common_ns@ == old(self).common_ns@.drop_last(),
            final(self).label_ns == old(self).label_ns,
            final(self).func_defs == old(self).func_defs,
            final(self).static_vars == old(self).static_vars,
    {
        let ghost prev = self.common_ns@;
        self.common_ns.pop();
        proof {
            assert(self.common_ns@ =~= prev.drop_last());
            assert forall|i: int| 0 <= i < self.common_ns@.len() implies keys_unique(#[trigger] self.common_ns@[i]@) by {
                assert(self.common_ns@[i] == prev[i]);
            }
        }
    }

    pub fn lookup_func(&self, name: StrDescriptor) -> (r: core::result::Result<FuncSymbol, SymError>)
        requires self.wf(),
        ensures
            match r {
                Ok(f) => self.funcs().contains_key(name) && {
                    let g = self.funcs()[name];
                    f.name == g.name && f.linkage == g.linkage && f.is_definition == g.is_definition
                        && f.type_.return_type == g.type_.return_type && f.type_.param_types@ == g.type_.param_types@
                },
                Err(e) => !self.funcs().contains_key(name) && (e matches SymError::FuncNotFound(n) && n == name),
            },
    {
        match find_key(&self.func_defs, name) {
            Some(i) => {
                proof { lemma_as_map_index(self.func_defs@, i as int); }
                Ok(self.func_defs[i].1.duplicate())
            },
            None => Err(SymError::FuncNotFound(name)),
        }
    }

    /// Adds a symbol to the innermost scope, replacing any symbol of that name there.
    fn bind_cur(&mut self, name: StrDescriptor, sym: CommonSymbol)
        requires old(self).wf(),
        ensures
            final(self).wf(),
            final(self).same_outer_scopes(&*old(self)),
            final(self).cur_scope() == old(self).cur_scope().insert(name, sym),
            final(self).label_ns == old(self).label_ns,
            final(self).func_defs == old(self).func_defs,
            final(self).static_vars == old(self).static_vars,
    {
        let ghost prev = self.common_ns@;
        let mut scope = self.common_ns.pop().unwrap();
        let ghost n = prev.len() - 1;
        assert(scope == prev[n]);
        assert(keys_unique(scope@));
        match find_key(&scope, name) {
            Some(i) => {
                proof { lemma_as_map_update(scope@, i as int, sym); }
                scope.set(i, (name, sym));
            },
            None => {
                proof { lemma_as_map_push(scope@, name, sym); }
                scope.push((name, sym));
            },
        }
        self.common_ns.push(scope);
        proof {
            assert forall|i: int| 0 <= i < self.common_ns@.len() implies keys_unique(#[trigger] self.common_ns@[i]@) by {
                if i < n {
                    assert(self.common_ns@[i] == prev[i]);
                }
            }
            assert forall|i: int| 0 <= i < self.common_ns@.len() - 1 implies #[trigger] self.common_ns@[i] == prev[i] by {}
        }
    }
}

// Methods used in the name resolution pass
impl SymbolTable {
    pub fn nat_global_scope(&self) -> (r: bool)
        ensures r == (self.common_ns@.len() == 1),
    {
        self.common_ns.len() == 1
    }

    /// Defines a function (a declaration with a body) at file scope.
    pub fn ndef_func(&mut self, name: StrDescriptor, type_: FuncType, storage_class: StorageClass) -> (r: core::result::Result<(), SymError>)
        requires old(self).wf(),
        ensures
            final(self).wf(),
            final(self).label_ns == old(self).label_ns,
            final(self).static_vars == old(self).static_vars,
            final(self).common_ns@.len() == old(self).common_ns@.len(),
            r matches Err(SymError::FuncDefNotGlobal(n)) <==> old(self).common_ns@.len() != 1,
            r matches Err(SymError::FuncDefNotGlobal(n)) ==> n == name,
            old(self).common_ns@.len() == 1 ==> {
                let prev = old(self).funcs();
                &&& prev.contains_key(name) && prev[name].is_definition ==> (r matches Err(SymError::FuncRedefinition(n)) && n == name)
                &&& prev.contains_key(name) && !prev[name].is_definition
                        && (prev[name].type_.return_type != type_.return_type || prev[name].type_.param_types@ != type_.param_types@)
                        ==> (r matches Err(SymError::FuncTypeMismatch(n)) && n == name)
                &&& prev.contains_key(name) && !prev[name].is_definition
                        && prev[name].type_.return_type == type_.return_type && prev[name].type_.param_types@ == type_.param_types@
                        && prev[name].linkage is External && storage_class is Static
                        ==> (r matches Err(SymError::LinkageMismatch(n)) && n == name)
            },
            r is Ok ==> {
                let prev = old(self).funcs();
                let linkage = if prev.contains_key(name) { prev[name].linkage } else { linkage_of(storage_class) };
                &&& final(self).funcs().contains_key(name)
                &&& final(self).funcs()[name].is_definition
                &&& final(self).funcs()[name].name == name
                &&& final(self).funcs()[name].linkage == linkage
                &&& final(self).funcs()[name].type_.return_type == type_.return_type
                &&& final(self).funcs()[name].type_.param_types@ == type_.param_types@
                &&& forall|k: StrDescriptor| k != name ==> final(self).funcs().contains_key(k) == prev.contains_key(k)
                        && (prev.contains_key(k) ==> final(self).funcs()[k] == prev[k])
                &&& final(self).cur_scope() == old(self).cur_scope().insert(name, CommonSymbol::Func(name))
            },
            final(self).same_outer_scopes(&*old(self)),
            r is Err ==> final(self).func_defs == old(self).func_defs && final(self).common_ns == old(self).common_ns,
            ({
                let prev = old(self).funcs();
                old(self).common_ns@.len() == 1 && (!prev.contains_key(name) || (!prev[name].is_definition
                    && prev[name].type_.return_type == type_.return_type && prev[name].type_.param_types@ == type_.param_types@
                    && !(prev[name].linkage is External && storage_class is Static))) ==> r is Ok
            }),
    {
        if !self.nat_global_scope() {
            return Err(SymError::FuncDefNotGlobal(name));
        }

        let mut linkage = linkage_for(storage_class);

        let found = find_key(&self.func_defs, name);
        match found {
            Some(i) => {
                proof { lemma_as_map_index(self.func_defs@, i as int); }
                let prev = &self.func_defs[i].1;
                if prev.is_definition {
                    return Err(SymError::FuncRedefinition(name));
                }
                if !prev.type_.same_as(&type_) {
                    return Err(SymError::FuncTypeMismatch(name));
                }
                linkage = match (prev.linkage, linkage) {
                    (Linkage::Internal, _) => Linkage::Internal,
                    (Linkage::External, Linkage::External) => Linkage::External,
                    (Linkage::External, Linkage::Internal) => {
                        return Err(SymError::LinkageMismatch(name));
                    },
                };
                let sym = FuncSymbol { name, type_, linkage, is_definition: true };
                proof { lemma_as_map_update(self.func_defs@, i as int, sym); }
                self.func_defs.set(i, (name, sym));
            },
            None => {
                let sym = FuncSymbol { name, type_, linkage, is_definition: true };
                proof { lemma_as_map_push(self.func_defs@, name, sym); }
                self.func_defs.push((name, sym));
            },
        }
        self.bind_cur(name, CommonSymbol::Func(name));
        Ok(())
    }

    /// Declares a function (a declaration without a body), in any scope.
    pub fn ndecl_func(&mut self, name: StrDescriptor, type_: FuncType, storage_class: StorageClass) -> (r: core::result::Result<(), SymError>)
        requires old(self).wf(),
        ensures
            final(self).wf(),
            final(self).label_ns == old(self).label_ns,
            final(self).static_vars == old(self).static_vars,
            final(self).common_ns@.len() == old(self).common_ns@.len(),
            old(self).funcs().contains_key(name)
                && (old(self).funcs()[name].type_.return_type != type_.return_type
                    || old(self).funcs()[name].type_.param_types@ != type_.param_types@)
                ==> (r matches Err(SymError::FuncTypeMismatch(n)) && n == name),
            !old(self).funcs().contains_key(name) ==> final(self).funcs() == old(self).funcs().insert(name, final(self).funcs()[name])
                && final(self).funcs()[name].linkage == linkage_of(storage_class)
                && !final(self).funcs()[name].is_definition,
            r is Ok ==> final(self).cur_scope() == old(self).cur_scope().insert(name, CommonSymbol::Func(name)),
            r is Ok ==> !(old(self).cur_scope().contains_key(name) && old(self).cur_scope()[name] is Var),
            old(self).cur_scope().contains_key(name) && old(self).cur_scope()[name] is Var
                && old(self).funcs().contains_key(name)
                && old(self).funcs()[name].type_.return_type == type_.return_type
                && old(self).funcs()[name].type_.param_types@ == type_.param_types@
                && !(old(self).funcs()[name].linkage is External && storage_class is Static)
                ==> (r matches Err(SymError::DuplicateDecl(n)) && n == name),
            old(self).funcs().contains_key(name)
                && old(self).funcs()[name].type_.return_type == type_.return_type
                && old(self).funcs()[name].type_.param_types@ == type_.param_types@
                && old(self).funcs()[name].linkage is External && storage_class is Static
                ==> (r matches Err(SymError::LinkageMismatch(n)) && n == name),
            (!old(self).funcs().contains_key(name)
                || (old(self).funcs()[name].type_.return_type == type_.return_type
                    && old(self).funcs()[name].type_.param_types@ == type_.param_types@
                    && !(old(self).funcs()[name].linkage is External && storage_class is Static)))
                && !(old(self).cur_scope().contains_key(name) && old(self).cur_scope()[name] is Var)
                ==> r is Ok,
            old(self).funcs().contains_key(name) ==> final(self).func_defs == old(self).func_defs,
            final(self).same_outer_scopes(&*old(self)),
            r is Err ==> final(self).common_ns == old(self).common_ns,
    {
        match find_key(&self.func_defs, name) {
            Some(i) => {
                proof { lemma_as_map_index(self.func_defs@, i as int); }
                let prev = &self.func_defs[i].1;
                if !prev.type_.same_as(&type_) {
                    return Err(SymError::FuncTypeMismatch(name));
                }
                if let (Linkage::External, StorageClass::Static) = (prev.linkage, storage_class) {
                    return Err(SymError::LinkageMismatch(name));
                }
            },
            None => {
                let sym = FuncSymbol { name, type_, linkage: linkage_for(storage_class), is_definition: false };
                proof { lemma_as_map_push(self.func_defs@, name, sym); }
                self.func_defs.push((name, sym));
            },
        }

        // functions can be declared multiple times in the same scope,
        // as long as they have the same type.
        let last = self.common_ns.len() - 1;
        match find_key(&self.common_ns[last], name) {
            Some(i) => {
                proof { lemma_as_map_index(self.common_ns@[last as int]@, i as int); }
                if let CommonSymbol::Var(_) = self.common_ns[last][i].1 {
                    // same function declarations can coexist,
                    // but not with a variable of the same name
                    return Err(SymError::DuplicateDecl(name));
                }
            },
            None => {},
        }
        self.bind_cur(name, CommonSymbol::Func(name));
        Ok(())
    }

    /// The innermost binding of a name across the scopes, if any.
    pub open spec fn binding(&self, name: StrDescriptor) -> Option<CommonSymbol> {
        if exists|s: int, e: int| innermost(self.common_ns@, name, s, e) {
            let (s, e) = choose|s: int, e: int| innermost(self.common_ns@, name, s, e);
            Some(self.common_ns@[s]@[e].1)
        } else {
            None
        }
    }

    /// Looks a name up through the scopes, inside out.
    fn nlookup(&self, name: StrDescriptor) -> (r: Option<CommonSymbol>)
        requires self.wf(),
        ensures r == self.binding(name),
    {
        match find_in_scopes(&self.common_ns, name) {
            Some((s, e)) => {
                proof {
                    let (s2, e2) = choose|s2: int, e2: int| innermost(self.common_ns@, name, s2, e2);
                    if s2 < s { assert(has_key(self.common_ns@[s as int]@, name)); }
                    if s < s2 { assert(has_key(self.common_ns@[s2 as int]@, name)); }
                    assert(s2 == s);
                    if e2 < e { assert(self.common_ns@[s as int]@[e2].0 == name); }
                    if e < e2 { assert(self.common_ns@[s as int]@[e as int].0 == name); }
                }
                Some(self.common_ns[s][e].1)
            },
            None => {
                proof {
                    if exists|s: int, e: int| innermost(self.common_ns@, name, s, e) {
                        let (s2, e2) = choose|s2: int, e2: int| innermost(self.common_ns@, name, s2, e2);
                        assert(has_key(self.common_ns@[s2]@, name));
                    }
                }
                None
            },
        }
    }

    /// Checks that a name, looked up inside out, is a function.
    pub fn ncheck_func(&self, name: StrDescriptor) -> (r: core::result::Result<(), SymError>)
        requires self.wf(),
        ensures
            match self.binding(name) {
                Some(CommonSymbol::Func(_)) => r is Ok,
                Some(CommonSymbol::Var(_)) => (r matches Err(SymError::SymbolTypeMismatch { name: n, expected: SymbolType::Func, found: SymbolType::Var }) && n == name),
                None => (r matches Err(SymError::FuncNotFound(n)) && n == name),
            },
    {
        match self.nlookup(name) {
            Some(CommonSymbol::Func(_)) => Ok(()),
            Some(CommonSymbol::Var(_)) => Err(SymError::SymbolTypeMismatch {
                name,
                expected: SymbolType::Func,
                found: SymbolType::Var,
            }),
            None => Err(SymError::FuncNotFound(name)),
        }
    }

    /// Declares or defines a file-scope variable. Only file-scope static
    /// variables are supported.
    pub fn ndef_static_var(&mut self, name: StrDescriptor, type_: DataType, storage_class: StorageClass, is_definition: bool) -> (r: core::result::Result<(), SymError>)
        requires old(self).wf(),
        ensures
            final(self).wf(),
            final(self).label_ns == old(self).label_ns,
            final(self).func_defs == old(self).func_defs,
            final(self).common_ns@.len() == old(self).common_ns@.len(),
            old(self).common_ns@.len() != 1 ==> r matches Err(SymError::Unimplemented(_)),
            old(self).common_ns@.len() == 1 ==> {
                let prev = old(self).statics();
                &&& prev.contains_key(name) && prev[name].is_definition && is_definition
                        ==> (r matches Err(SymError::StaticVarRedefinition(n)) && n == name)
                &&& prev.contains_key(name) && !(prev[name].is_definition && is_definition) && prev[name].type_ != type_
                        ==> (r matches Err(SymError::TypeMismatch { expected, found }) && expected == prev[name].type_ && found == type_)
                &&& prev.contains_key(name) && !(prev[name].is_definition && is_definition) && prev[name].type_ == type_
                        ==> {
                            &&& final(self).statics() == prev.insert(name, StaticVarSymbol { is_definition, ..prev[name] })
                            &&& ((prev[name].linkage is Internal && storage_class is Unspecified)
                                || (prev[name].linkage is External && storage_class is Static))
                                ==> (r matches Err(SymError::LinkageMismatch(n)) && n == name)
                            &&& !((prev[name].linkage is Internal && storage_class is Unspecified)
                                || (prev[name].linkage is External && storage_class is Static)) ==> r is Ok
                        }
                &&& !prev.contains_key(name) ==> r is Ok
                        && final(self).statics() == prev.insert(name, StaticVarSymbol {
                            name, type_, linkage: linkage_of(storage_class), is_definition })
                        && final(self).cur_scope() == old(self).cur_scope().insert(name,
                            CommonSymbol::Var(CommonVar { name, data_type: type_, local_id: None }))
            },
    {
        if !self.nat_global_scope() {
            return Err(SymError::Unimplemented(crate::text::string_of("Static variables in non-global scopes.")));
        }

        match find_key(&self.static_vars, name) {
            Some(i) => {
                proof { lemma_as_map_index(self.static_vars@, i as int); }
                let prev = self.static_vars[i].1;
                if prev.is_definition && is_definition {
                    return Err(SymError::StaticVarRedefinition(name));
                }
                if prev.type_ != type_ {
                    return Err(SymError::TypeMismatch { expected: prev.type_, found: type_ });
                }
                let updated = StaticVarSymbol { is_definition, ..prev };
                proof { lemma_as_map_update(self.static_vars@, i as int, updated); }
                self.static_vars.set(i, (name, updated));
                match (prev.linkage, storage_class) {
                    (Linkage::Internal, StorageClass::Unspecified) => return Err(SymError::LinkageMismatch(name)),
                    (Linkage::External, StorageClass::Static) => return Err(SymError::LinkageMismatch(name)),
                    _ => {},
                }
            },
            None => {
                let sym = StaticVarSymbol { name, type_, linkage: linkage_for(storage_class), is_definition };
                proof { lemma_as_map_push(self.static_vars@, name, sym); }
                self.static_vars.push((name, sym));
                self.bind_cur(name, CommonSymbol::Var(CommonVar { name, data_type: type_, local_id: None }));
            },
        }
        Ok(())
    }

    /// Defines a variable in the innermost scope.
    pub fn ndef_var(&mut self, name: StrDescriptor, data_type: DataType, local_id: Option<usize>) -> (r: core::result::Result<(), SymError>)
        requires old(self).wf(),
        ensures
            final(self).wf(),
            final(self).label_ns == old(self).label_ns,
            final(self).func_defs == old(self).func_defs,
            final(self).static_vars == old(self).static_vars,
            final(self).common_ns@.len() == old(self).common_ns@.len(),
            old(self).cur_scope().contains_key(name) ==> (r matches Err(SymError::DuplicateDecl(n)) && n == name),
            old(self).cur_scope().contains_key(name) ==> final(self).common_ns == old(self).common_ns,
            !old(self).cur_scope().contains_key(name) ==> r is Ok
                && final(self).same_outer_scopes(&*old(self))
                && final(self).cur_scope() == old(self).cur_scope().insert(name,
                    CommonSymbol::Var(CommonVar { name, data_type, local_id })),
    {
        let last = self.common_ns.len() - 1;
        if find_key(&self.common_ns[last], name).is_some() {
            return Err(SymError::DuplicateDecl(name));
        }
        self.bind_cur(name, CommonSymbol::Var(CommonVar { name, data_type, local_id }));
        Ok(())
    }

    /// Looks a variable up through the scopes, inside out.
    pub fn nlookup_var(&self, name: StrDescriptor) -> (r: core::result::Result<CommonVar, SymError>)
        requires self.wf(),
        ensures
            match self.binding(name) {
                Some(CommonSymbol::Var(v)) => r == Ok::<CommonVar, SymError>(v),
                Some(CommonSymbol::Func(_)) => (r matches Err(SymError::SymbolTypeMismatch { name: n, expected: SymbolType::Var, found: SymbolType::Func }) && n == name),
                None => (r matches Err(SymError::VarNotFound(n)) && n == name),
            },
    {
        match self.nlookup(name) {
            Some(CommonSymbol::Var(var)) => Ok(var),
            Some(CommonSymbol::Func(_)) => Err(SymError::SymbolTypeMismatch {
                name,
                expected: SymbolType::Var,
                found: SymbolType::Func,
            }),
            None => Err(SymError::VarNotFound(name)),
        }
    }

    /// Checks that a name is a variable of the innermost scope.
    pub fn ncheck_var_cur(&self, name: StrDescriptor) -> (r: core::result::Result<(), SymError>)
        requires self.wf(),
        ensures
            self.cur_scope().contains_key(name) && self.cur_scope()[name] is Var ==> r is Ok,
            self.cur_scope().contains_key(name) && self.cur_scope()[name] is Func ==> (r matches Err(SymError::SymbolTypeMismatch { name: n, expected: SymbolType::Var, found: SymbolType::Func }) && n == name),
            !self.cur_scope().contains_key(name) ==> (r matches Err(SymError::VarNotFound(n)) && n == name),
    {
        let last = self.common_ns.len() - 1;
        match find_key(&self.common_ns[last], name) {
            Some(i) => {
                proof { lemma_as_map_index(self.common_ns@[last as int]@, i as int); }
                match self.common_ns[last][i].1 {
                    CommonSymbol::Var(_) => Ok(()),
                    CommonSymbol::Func(_) => Err(SymError::SymbolTypeMismatch {
                        name,
                        expected: SymbolType::Var,
                        found: SymbolType::Func,
                    }),
                }
            },
            None => Err(SymError::VarNotFound(name)),
        }
    }
}


/// A name bound in the innermost scope is what a lookup finds: after
/// `ndef_var` or `ndecl_func` puts a name there, looking it up gives that symbol.
pub proof fn lemma_lookup_innermost(tb: SymbolTable, name: StrDescriptor)
    requires tb.wf(), tb.cur_scope().contains_key(name),
    ensures tb.binding(name) == Some(tb.cur_scope()[name]),
{
    let ns = tb.common_ns@;
    let last = ns.len() - 1;
    let entries = ns[last]@;
    assert(keys_unique(entries));
    assert(has_key(entries, name));
    let e = choose|e: int| 0 <= e < entries.len() && entries[e].0 == name;
    lemma_as_map_index(entries, e);
    assert forall|j: int| 0 <= j < e implies entries[j].0 != name by {}
    assert(innermost(ns, name, last, e));
    let (s2, e2) = choose|s2: int, e2: int| innermost(ns, name, s2, e2);
    if s2 < last { assert(has_key(ns[last]@, name)); }
    assert(s2 == last);
    if e2 < e { assert(entries[e2].0 != entries[e].0); }
    if e < e2 { assert(entries[e].0 != entries[e2].0); }
}

} // verus!
