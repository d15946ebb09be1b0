//! A crate's rustdoc index, as plain values: the items, their canonical
//! paths, and the external crates they come from.

use vstd::prelude::*;

verus! {

/// Kinds of items rustdoc distinguishes, in its declaration order (which is
/// also the order used when sorting by kind).
#[derive(Clone, Copy, Debug, PartialEq, Eq, Structural)]
pub enum ItemKind {
    Module,
    ExternCrate,
    Use,
    Struct,
    StructField,
    Union,
    Enum,
    Variant,
    Function,
    TypeAlias,
    Constant,
    Trait,
    TraitAlias,
    Impl,
    Static,
    ExternType,
    Macro,
    ProcAttribute,
    ProcDerive,
    AssocConst,
    AssocType,
    Primitive,
    Keyword,
    Attribute,
}

/// Position of a kind in declaration order.
pub open spec fn kind_rank_spec(k: ItemKind) -> u64 {
    match k {
        ItemKind::Module => 0,
        ItemKind::ExternCrate => 1,
        ItemKind::Use => 2,
        ItemKind::Struct => 3,
        ItemKind::StructField => 4,
        ItemKind::Union => 5,
        ItemKind::Enum => 6,
        ItemKind::Variant => 7,
        ItemKind::Function => 8,
        ItemKind::TypeAlias => 9,
        ItemKind::Constant => 10,
        ItemKind::Trait => 11,
        ItemKind::TraitAlias => 12,
        ItemKind::Impl => 13,
        ItemKind::Static => 14,
        ItemKind::ExternType => 15,
        ItemKind::Macro => 16,
        ItemKind::ProcAttribute => 17,
        ItemKind::ProcDerive => 18,
        ItemKind::AssocConst => 19,
        ItemKind::AssocType => 20,
        ItemKind::Primitive => 21,
        ItemKind::Keyword => 22,
        ItemKind::Attribute => 23,
    }
}

/// Position of a kind in declaration order (what the derived `Ord` of the
/// kind compares).
pub fn kind_rank(k: ItemKind) -> (r: u64)
    ensures
        r == kind_rank_spec(k),
{
    match k {
        ItemKind::Module => 0,
        ItemKind::ExternCrate => 1,
        ItemKind::Use => 2,
        ItemKind::Struct => 3,
        ItemKind::StructField => 4,
        ItemKind::Union => 5,
        ItemKind::Enum => 6,
        ItemKind::Variant => 7,
        ItemKind::Function => 8,
        ItemKind::TypeAlias => 9,
        ItemKind::Constant => 10,
        ItemKind::Trait => 11,
        ItemKind::TraitAlias => 12,
        ItemKind::Impl => 13,
        ItemKind::Static => 14,
        ItemKind::ExternType => 15,
        ItemKind::Macro => 16,
        ItemKind::ProcAttribute => 17,
        ItemKind::ProcDerive => 18,
        ItemKind::AssocConst => 19,
        ItemKind::AssocType => 20,
        ItemKind::Primitive => 21,
        ItemKind::Keyword => 22,
        ItemKind::Attribute => 23,
    }
}

/// A type as rustdoc describes it, with what rendering reads.
pub enum Ty {
    /// A path to a named type, with its generic arguments.
    ResolvedPath { path: String, id: u32, args: Option<Box<GenericArgs>> },
    /// `dyn Trait`.
    DynTrait,
    /// A generic parameter.
    Generic(String),
    /// A primitive type.
    Primitive(String),
    /// A function pointer.
    FunctionPointer { inputs: Vec<Ty>, output: Option<Box<Ty>> },
    /// A tuple.
    Tuple(Vec<Ty>),
    /// A slice.
    Slice(Box<Ty>),
    /// An array with its length expression.
    Array { ty: Box<Ty>, len: String },
    /// A pattern type.
    Pat(Box<Ty>),
    /// `impl Trait`.
    ImplTrait,
    /// `_`.
    Infer,
    /// A raw pointer.
    RawPointer { is_mutable: bool, ty: Box<Ty> },
    /// A reference.
    BorrowedRef { lifetime: Option<String>, is_mutable: bool, ty: Box<Ty> },
    /// `<T as Trait>::Name`.
    QualifiedPath { name: String, self_type: Box<Ty> },
}

/// Generic arguments of a path.
pub enum GenericArgs {
    /// `<...>`.
    AngleBracketed(Vec<GenericArg>),
    /// `(inputs) -> output`.
    Parenthesized { inputs: Vec<Ty>, output: Option<Box<Ty>> },
    /// `(..)`.
    ReturnTypeNotation,
}

/// One generic argument.
pub enum GenericArg {
    Lifetime(String),
    Type(Ty),
    /// A const argument, by its expression.
    Const(String),
    Infer,
}

/// What kind of generic parameter a function declares.
pub enum ParamKind {
    /// A lifetime, or a type parameter the user wrote.
    Named,
    /// A type parameter the compiler made up for `impl Trait` arguments.
    Synthetic,
    /// A const parameter of the given type.
    Const(Ty),
}

/// A generic parameter of a function.
pub struct GenericParam {
    pub name: String,
    pub kind: ParamKind,
}

/// A function's header and signature.
pub struct FnDecl {
    pub is_const: bool,
    pub is_async: bool,
    pub is_unsafe: bool,
    pub params: Vec<GenericParam>,
    pub inputs: Vec<(String, Ty)>,
    pub is_c_variadic: bool,
    pub output: Option<Ty>,
}

/// The part of an item specific to its kind, as far as lookups read it.
pub enum Inner {
    /// A module and its children.
    Module { items: Vec<u32> },
    /// A `use`: the name it binds, its target (`None` for primitives and
    /// items rustdoc cannot name) and whether it is a glob.
    Use { name: String, target: Option<u32>, is_glob: bool },
    /// A trait and its implementations.
    Trait { implementations: Vec<u32> },
    /// An impl block.
    Impl { for_type: Ty, trait_path: Option<String>, items: Vec<u32>, is_synthetic: bool, is_blanket: bool },
    /// A struct, enum, union or primitive, with its impls.
    HasImpls { impls: Vec<u32> },
    /// A function.
    Function(FnDecl),
    /// A type alias.
    TypeAlias { ty: Ty },
    /// Anything else.
    Other,
}

/// An item of the index.
pub struct Item {
    pub id: u32,
    pub crate_id: u32,
    pub name: Option<String>,
    pub docs: Option<String>,
    pub deprecated: bool,
    pub kind: ItemKind,
    pub inner: Inner,
}

/// The canonical path of an item (of this crate or another).
pub struct PathSummary {
    pub id: u32,
    pub crate_id: u32,
    pub path: Vec<String>,
    pub kind: ItemKind,
}

/// A crate that items come from.
pub struct ExternalCrate {
    pub id: u32,
    pub name: String,
    pub html_root_url: Option<String>,
}

/// A crate's rustdoc index.
pub struct Crate {
    pub root: u32,
    pub index: Vec<Item>,
    pub paths: Vec<PathSummary>,
    pub external_crates: Vec<ExternalCrate>,
}

/// Position of the first item with id `id` in `index[i..]`.
pub open spec fn find_item_from(index: Seq<Item>, id: u32, i: nat) -> Option<nat>
    decreases index.len() - i,
{
    if i >= index.len() {
        None
    } else if index[i as int].id == id {
        Some(i)
    } else {
        find_item_from(index, id, i + 1)
    }
}

/// Position of the item with id `id` (the first such).
pub open spec fn find_item(index: Seq<Item>, id: u32) -> Option<nat> {
    find_item_from(index, id, 0)
}

/// Position of the first path entry for `id`.
pub open spec fn find_path_from(paths: Seq<PathSummary>, id: u32, i: nat) -> Option<nat>
    decreases paths.len() - i,
{
    if i >= paths.len() {
        None
    } else if paths[i as int].id == id {
        Some(i)
    } else {
        find_path_from(paths, id, i + 1)
    }
}

/// Position of the path entry for `id`.
pub open spec fn find_path(paths: Seq<PathSummary>, id: u32) -> Option<nat> {
    find_path_from(paths, id, 0)
}

/// Position of the first external-crate entry for `id`.
pub open spec fn find_crate_from(cs: Seq<ExternalCrate>, id: u32, i: nat) -> Option<nat>
    decreases cs.len() - i,
{
    if i >= cs.len() {
        None
    } else if cs[i as int].id == id {
        Some(i)
    } else {
        find_crate_from(cs, id, i + 1)
    }
}

/// Position of the external-crate entry for `id`.
pub open spec fn find_crate(cs: Seq<ExternalCrate>, id: u32) -> Option<nat> {
    find_crate_from(cs, id, 0)
}

/// Looks up an item by id.
pub fn item_position(docs: &Crate, id: u32) -> (r: Option<usize>)
    ensures
        r matches Some(p) ==> p < docs.index@.len() && docs.index@[p as int].id == id,
        (match r {
            Some(p) => Some(p as nat),
            None => None,
        }) == find_item(docs.index@, id),
{
    let mut i: usize = 0;
    while i < docs.index.len()
        invariant
            i <= docs.index@.len(),
            find_item(docs.index@, id) == find_item_from(docs.index@, id, i as nat),
        decreases docs.index@.len() - i,
    {
        if docs.index[i].id == id {
            return Some(i);
        }
        i += 1;
    }
    None
}

/// Looks up the canonical path entry of an item by id.
pub fn path_position(docs: &Crate, id: u32) -> (r: Option<usize>)
    ensures
        r matches Some(p) ==> p < docs.paths@.len() && docs.paths@[p as int].id == id,
        (match r {
            Some(p) => Some(p as nat),
            None => None,
        }) == find_path(docs.paths@, id),
{
    let mut i: usize = 0;
    while i < docs.paths.len()
        invariant
            i <= docs.paths@.len(),
            find_path(docs.paths@, id) == find_path_from(docs.paths@, id, i as nat),
        decreases docs.paths@.len() - i,
    {
        if docs.paths[i].id == id {
            return Some(i);
        }
        i += 1;
    }
    None
}

/// Looks up an external crate by id.
pub fn crate_position(docs: &Crate, id: u32) -> (r: Option<usize>)
    ensures
        r matches Some(p) ==> p < docs.external_crates@.len() && docs.external_crates@[p as int].id
            == id,
        (match r {
            Some(p) => Some(p as nat),
            None => None,
        }) == find_crate(docs.external_crates@, id),
{
    let mut i: usize = 0;
    while i < docs.external_crates.len()
        invariant
            i <= docs.external_crates@.len(),
            find_crate(docs.external_crates@, id) == find_crate_from(docs.external_crates@, id, i as nat),
        decreases docs.external_crates@.len() - i,
    {
        if docs.external_crates[i].id == id {
            return Some(i);
        }
        i += 1;
    }
    None
}

} // verus!
