//! What the public interface view reads of a module and its items, held as plain values:
//! names, rendered signatures, visibility, identities and navigation targets.
use vstd::prelude::*;

verus! {

/// A byte range in a text, `start..end`.
#[derive(Clone, Copy, Debug, PartialEq, Eq, Structural)]
pub struct TextRange {
    start: u32,
    end: u32,
}

impl View for TextRange {
    type V = (int, int);

    closed spec fn view(&self) -> (int, int) {
        (self.start as int, self.end as int)
    }
}

impl TextRange {
    /// The range `start..end`.
    pub fn new(start: u32, end: u32) -> (r: TextRange)
        requires
            start <= end,
        ensures
            r@ == (start as int, end as int),
    {
        TextRange { start, end }
    }

    /// The range of `len` bytes from `offset`.
    pub fn at(offset: u32, len: u32) -> (r: TextRange)
        requires
            offset + len <= u32::MAX,
        ensures
            r@ == (offset as int, offset + len),
    {
        TextRange { start: offset, end: offset + len }
    }

    /// The first byte of the range.
    pub fn start(&self) -> (r: u32)
        ensures
            r == self@.0,
    {
        self.start
    }

    /// The byte after the range.
    pub fn end(&self) -> (r: u32)
        ensures
            r == self@.1,
    {
        self.end
    }
}

/// The kind of symbol a navigation target points at.
#[derive(Clone, Copy, Debug, PartialEq, Eq, Structural)]
pub enum SymbolKind {
    Attribute,
    BuiltinAttr,
    Const,
    ConstParam,
    CrateRoot,
    Derive,
    DeriveHelper,
    Enum,
    Field,
    Function,
    Method,
    Impl,
    InlineAsmRegOrRegClass,
    Label,
    LifetimeParam,
    Local,
    Macro,
    ProcMacro,
    Module,
    SelfParam,
    SelfType,
    Static,
    Struct,
    ToolModule,
    Trait,
    TypeAlias,
    TypeParam,
    Union,
    ValueParam,
    Variant,
}

/// Where an item is, as an editor navigates to it.
#[derive(Debug)]
pub struct NavTarget {
    pub file_id: u32,
    pub full_range: TextRange,
    pub focus_range: Option<TextRange>,
    pub name: String,
    pub kind: Option<SymbolKind>,
    pub container_name: Option<String>,
    pub description: Option<String>,
    pub docs: Option<String>,
    pub alias: Option<String>,
}

/// A copy of an optional string.
pub fn copy_opt_string(s: &Option<String>) -> (r: Option<String>)
    ensures
        r == *s,
{
    match s {
        Some(v) => Some(v.clone()),
        None => None,
    }
}

impl NavTarget {
    /// A copy of this target.
    pub fn duplicate(&self) -> (r: NavTarget)
        ensures
            r == *self,
    {
        NavTarget {
            file_id: self.file_id,
            full_range: self.full_range,
            focus_range: self.focus_range,
            name: self.name.clone(),
            kind: self.kind,
            container_name: copy_opt_string(&self.container_name),
            description: copy_opt_string(&self.description),
            docs: copy_opt_string(&self.docs),
            alias: copy_opt_string(&self.alias),
        }
    }
}

/// A module, named by its crate (when it has a display name) and the path inside it.
#[derive(Debug)]
pub struct ModulePath {
    pub krate: Option<String>,
    pub segments: Vec<String>,
}

/// An item of a module that has a name and a rendered signature.
#[derive(Debug)]
pub struct NamedItem {
    pub name: String,
    pub display: String,
}

/// A constant, which may be unnamed (`const _`).
#[derive(Debug)]
pub struct ConstItem {
    pub name: Option<String>,
    pub display: String,
}

/// The kind of an algebraic data type.
#[derive(Clone, Copy, Debug, PartialEq, Eq, Structural)]
pub enum AdtKind {
    Struct,
    Enum,
    Union,
}

/// A struct, enum or union declared in the module, with its rendered signature.
#[derive(Debug)]
pub struct AdtItem {
    pub id: u64,
    pub kind: AdtKind,
    pub name: String,
    pub display: String,
}

/// The kind of an associated item.
#[derive(Clone, Copy, Debug, PartialEq, Eq, Structural)]
pub enum AssocKind {
    Function,
    Const,
    TypeAlias,
}

/// A function, constant or type alias of a trait or of an impl.
#[derive(Debug)]
pub struct AssocItem {
    pub kind: AssocKind,
    pub name: Option<String>,
    pub display: String,
    pub is_public: bool,
    pub nav: Option<NavTarget>,
}

/// A trait declared in the module, with its items.
#[derive(Debug)]
pub struct TraitItem {
    pub id: u64,
    pub name: String,
    pub display: String,
    pub module: Option<ModulePath>,
    pub items: Vec<AssocItem>,
}

/// What a declaration of the module's public scope defines.
#[derive(Debug)]
pub enum ModuleDef {
    Module(ModulePath),
    Function(NamedItem),
    Adt(AdtItem),
    Const(ConstItem),
    Static(NamedItem),
    Trait(TraitItem),
    TypeAlias(NamedItem),
    Macro(NamedItem),
    EnumVariant,
    BuiltinType,
}

/// A name of the module's public scope and what it defines.
#[derive(Debug)]
pub struct Declaration {
    pub name: String,
    pub def: ModuleDef,
    pub nav: Option<NavTarget>,
}

/// A struct, enum or union that an impl is for.
#[derive(Debug)]
pub struct AdtRef {
    pub id: u64,
    pub name: String,
    pub module: Option<ModulePath>,
    pub is_public: bool,
}

/// The type an impl is for: an ADT or another type, with its rendering.
#[derive(Debug)]
pub struct SelfTy {
    pub adt: Option<AdtRef>,
    pub display: String,
}

/// The trait an impl implements.
#[derive(Debug)]
pub struct TraitRef {
    pub id: u64,
    pub name: String,
    pub display: String,
    pub module: Option<ModulePath>,
    pub is_public: bool,
}

/// An impl block defined in the module.
#[derive(Debug)]
pub struct ImplDef {
    pub self_ty: SelfTy,
    pub trait_: Option<TraitRef>,
    pub items: Vec<AssocItem>,
    pub nav: Option<NavTarget>,
}

/// A module: its path, where it is, its public scope and its impls.
#[derive(Debug)]
pub struct ModuleInfo {
    pub path: ModulePath,
    pub nav: NavTarget,
    pub declarations: Vec<Declaration>,
    pub impls: Vec<ImplDef>,
}

} // verus!
